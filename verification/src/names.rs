//! Rules keyed on task kinds and variable names: head variables, optimizer
//! parameter groups, and class-name lists.
use vstd::prelude::*;

use crate::error::{message, TrainError};
use crate::text::{
    ascii_lower_seq, chars_contain, chars_occur_at, chars_start_with, chars_to_ascii_lowercase,
    chars_to_string,
    occurs_at, seq_contains, seq_starts_with, str_chars, str_contains, str_starts_with,
};

verus! {

/// YOLO task supported by the training facade.
#[derive(Debug, Clone, Copy, PartialEq, Eq, Structural)]
pub enum Task {
    /// Object detection.
    Detect,
    /// Image classification.
    Classify,
    /// Instance segmentation.
    Segment,
    /// Pose/keypoint estimation.
    Pose,
    /// Semantic segmentation.
    Semantic,
    /// Oriented bounding-box detection.
    Obb,
}

impl Task {
    /// The lowercase task identifier.
    pub open spec fn identifier(self) -> Seq<char> {
        match self {
            Task::Detect => "detect"@,
            Task::Classify => "classify"@,
            Task::Segment => "segment"@,
            Task::Pose => "pose"@,
            Task::Semantic => "semantic"@,
            Task::Obb => "obb"@,
        }
    }

    /// Name prefix shared by the variables of the task-specific prediction head.
    pub open spec fn head_prefix(self) -> Seq<char> {
        match self {
            Task::Detect | Task::Segment | Task::Pose | Task::Obb => "model.23."@,
            Task::Classify => "model.10."@,
            Task::Semantic => "model.17."@,
        }
    }

    /// Returns the lowercase task identifier used in `.pt` template names.
    pub fn as_str(self) -> (r: &'static str)
        ensures
            r@ == self.identifier(),
    {
        match self {
            Task::Detect => "detect",
            Task::Classify => "classify",
            Task::Segment => "segment",
            Task::Pose => "pose",
            Task::Semantic => "semantic",
            Task::Obb => "obb",
        }
    }
}

/// Returns whether a variable name belongs to the task-specific prediction head.
pub fn is_task_head_variable(task: Task, name: &str) -> (r: bool)
    ensures
        r == seq_starts_with(name@, task.head_prefix()),
{
    match task {
        Task::Detect | Task::Segment | Task::Pose | Task::Obb => str_starts_with(name, "model.23."),
        Task::Classify => str_starts_with(name, "model.10."),
        Task::Semantic => str_starts_with(name, "model.17."),
    }
}

/// Optimizer parameter group role aligned with Ultralytics grouping.
#[derive(Debug, Clone, Copy, PartialEq, Eq, Structural)]
pub enum OptimizerGroupRole {
    /// Weight parameters with configured decay.
    Main,
    /// Normalization or logit-scale parameters with no decay.
    NoDecay,
    /// Bias parameters with no decay and bias warmup.
    Bias,
}

/// Normalization and logit-scale variables, recognised case-insensitively.
pub open spec fn no_decay_name(name: Seq<char>) -> bool {
    let lower = ascii_lower_seq(name);
    ||| seq_contains(lower, "logit_scale"@)
    ||| seq_contains(lower, "norm"@)
    ||| seq_contains(lower, ".bn"@)
    ||| seq_contains(lower, "_bn"@)
    ||| seq_starts_with(lower, "bn."@)
}

/// The group of a variable: bias by name, then no-decay by name or by a rank
/// below two, else the main group.
pub open spec fn role_of(name: Seq<char>, rank: nat) -> OptimizerGroupRole {
    if seq_contains(name, "bias"@) {
        OptimizerGroupRole::Bias
    } else if no_decay_name(name) || rank < 2 {
        OptimizerGroupRole::NoDecay
    } else {
        OptimizerGroupRole::Main
    }
}

/// Variables that MuSGD trains with a raised learning rate.
pub open spec fn musgd_high_lr_name(name: Seq<char>) -> bool {
    ||| (seq_contains(name, "23"@) && seq_contains(name, "cv3"@))
    ||| seq_contains(name, "proto.semseg"@)
    ||| seq_contains(name, "SemanticSegment"@)
}

/// Whether a variable takes no weight decay because of its name.
pub fn is_no_decay_variable(name: &str) -> (r: bool)
    ensures
        r == no_decay_name(name@),
{
    let chars = str_chars(name);
    let lower = chars_to_ascii_lowercase(&chars);
    chars_contain(&lower, &str_chars("logit_scale")) || chars_contain(&lower, &str_chars("norm"))
        || chars_contain(&lower, &str_chars(".bn")) || chars_contain(&lower, &str_chars("_bn"))
        || chars_start_with(&lower, &str_chars("bn."))
}

/// The optimizer group of a variable with the given name and tensor rank.
pub fn variable_role(name: &str, rank: usize) -> (r: OptimizerGroupRole)
    ensures
        r == role_of(name@, rank as nat),
{
    if str_contains(name, "bias") {
        OptimizerGroupRole::Bias
    } else if is_no_decay_variable(name) || rank < 2 {
        OptimizerGroupRole::NoDecay
    } else {
        OptimizerGroupRole::Main
    }
}

/// Whether MuSGD gives the variable its raised learning rate.
pub fn is_musgd_high_lr_variable(name: &str) -> (r: bool)
    ensures
        r == musgd_high_lr_name(name@),
{
    (str_contains(name, "23") && str_contains(name, "cv3")) || str_contains(name, "proto.semseg")
        || str_contains(name, "SemanticSegment")
}

/// Optimizers implemented by the official Ultralytics trainer.
#[derive(Debug, Clone, Copy, PartialEq, Eq, Structural)]
pub enum OfficialOptimizer {
    /// Stochastic gradient descent.
    Sgd,
    /// AdamW optimizer.
    AdamW,
    /// Official MuSGD optimizer with Muon-style updates.
    MuSgd,
}

/// Iteration count above which `optimizer=auto` picks MuSGD.
pub const AUTO_MUSGD_MIN_ITERATIONS: usize = 10_000;

/// The optimizer that Ultralytics `optimizer=auto` selects: MuSGD for runs of
/// more than 10 000 iterations, AdamW otherwise; at least one class is needed.
pub fn auto_optimizer(classes_count: usize, iterations: usize) -> (r: Result<
    OfficialOptimizer,
    TrainError,
>)
    ensures
        classes_count == 0 <==> r is Err,
        r matches Err(e) ==> e is InvalidConfig,
        classes_count > 0 && iterations > AUTO_MUSGD_MIN_ITERATIONS ==> r == Ok::<
            OfficialOptimizer,
            TrainError,
        >(OfficialOptimizer::MuSgd),
        classes_count > 0 && iterations <= AUTO_MUSGD_MIN_ITERATIONS ==> r == Ok::<
            OfficialOptimizer,
            TrainError,
        >(OfficialOptimizer::AdamW),
{
    if classes_count == 0 {
        return Err(TrainError::InvalidConfig(message("optimizer=auto requires at least one class")));
    }
    if iterations > AUTO_MUSGD_MIN_ITERATIONS {
        Ok(OfficialOptimizer::MuSgd)
    } else {
        Ok(OfficialOptimizer::AdamW)
    }
}

/// Class names are acceptable for a model with `labels_count` classes: one
/// non-empty name per class.
pub open spec fn class_names_fit(labels_count: nat, names: Seq<String>) -> bool {
    &&& names.len() == labels_count
    &&& forall|i: int| 0 <= i < names.len() ==> names[i]@.len() > 0
}

/// Validates optional class names against a model class count.
pub fn validate_class_names(labels_count: usize, names: Option<&[String]>) -> (r: Result<
    (),
    TrainError,
>)
    ensures
        r is Ok <==> match names {
            None => true,
            Some(list) => class_names_fit(labels_count as nat, list@),
        },
        r matches Err(e) ==> e is InvalidConfig,
{
    let list = match names {
        None => return Ok(()),
        Some(list) => list,
    };
    if list.len() != labels_count {
        return Err(TrainError::InvalidConfig(message("class names count does not match labels_count")));
    }
    let mut i: usize = 0;
    while i < list.len()
        invariant
            names == Some(list),
            i <= list@.len(),
            list@.len() == labels_count,
            forall|j: int| 0 <= j < i ==> list@[j]@.len() > 0,
        decreases list.len() - i,
    {
        if list[i].as_str().is_empty() {
            assert(list@[i as int]@.len() == 0);
            return Err(TrainError::InvalidConfig(message("class names must not contain empty strings")));
        }
        i = i + 1;
    }
    Ok(())
}


/// A planned optimizer parameter group: its role, whether MuSGD raises its
/// learning rate, and the positions of its variables in input order.
#[derive(Debug, Clone, PartialEq, Eq)]
pub struct OptimizerGroupPlan {
    /// Role shared by the group's variables.
    pub role: OptimizerGroupRole,
    /// The group trains with MuSGD's raised learning rate.
    pub high_lr: bool,
    /// Positions of the group's variables in the input list.
    pub members: Vec<usize>,
}

/// Group key of variable `i`: its role and whether its learning rate is raised.
pub open spec fn group_key(names: Seq<String>, ranks: Seq<usize>, use_musgd_high_lr: bool, i: int) -> (
    OptimizerGroupRole,
    bool,
) {
    (role_of(names[i]@, ranks[i] as nat), use_musgd_high_lr && musgd_high_lr_name(names[i]@))
}

/// Position of the first group with the given key among the first `n`.
pub open spec fn group_position(
    groups: Seq<(OptimizerGroupRole, bool, Seq<usize>)>,
    key: (OptimizerGroupRole, bool),
    n: int,
) -> Option<int>
    decreases n,
{
    if n <= 0 {
        None
    } else {
        match group_position(groups, key, n - 1) {
            Some(g) => Some(g),
            None => if groups[n - 1].0 == key.0 && groups[n - 1].1 == key.1 {
                Some(n - 1)
            } else {
                None
            },
        }
    }
}

/// Groups of the first `n` variables: each joins the first group with its key,
/// or opens a new group at the end.
pub open spec fn planned_groups(
    names: Seq<String>,
    ranks: Seq<usize>,
    use_musgd_high_lr: bool,
    n: int,
) -> Seq<(OptimizerGroupRole, bool, Seq<usize>)>
    decreases n,
{
    if n <= 0 {
        Seq::empty()
    } else {
        let prev = planned_groups(names, ranks, use_musgd_high_lr, n - 1);
        let key = group_key(names, ranks, use_musgd_high_lr, n - 1);
        match group_position(prev, key, prev.len() as int) {
            Some(g) => prev.update(g, (prev[g].0, prev[g].1, prev[g].2.push((n - 1) as usize))),
            None => prev.push((key.0, key.1, seq![(n - 1) as usize])),
        }
    }
}

/// The plan as plain values.
pub open spec fn plan_view(plan: Seq<OptimizerGroupPlan>) -> Seq<(OptimizerGroupRole, bool, Seq<usize>)> {
    Seq::new(plan.len(), |g: int| (plan[g].role, plan[g].high_lr, plan[g].members@))
}

proof fn lemma_group_position_bounds(
    groups: Seq<(OptimizerGroupRole, bool, Seq<usize>)>,
    key: (OptimizerGroupRole, bool),
    n: int,
)
    requires
        n <= groups.len(),
    ensures
        group_position(groups, key, n) matches Some(g) ==> 0 <= g < n && groups[g].0 == key.0
            && groups[g].1 == key.1,
    decreases n,
{
    if n > 0 {
        lemma_group_position_bounds(groups, key, n - 1);
    }
}

proof fn lemma_group_position_stable(
    groups: Seq<(OptimizerGroupRole, bool, Seq<usize>)>,
    key: (OptimizerGroupRole, bool),
    from: int,
    n: int,
)
    requires
        from <= n,
        group_position(groups, key, from) is Some,
    ensures
        group_position(groups, key, n) == group_position(groups, key, from),
    decreases n - from,
{
    if n > from {
        lemma_group_position_stable(groups, key, from, n - 1);
    }
}

/// Splits named variables into optimizer groups by role and raised learning
/// rate, groups in order of first appearance and variables in input order.
pub fn optimizer_group_plan(names: &Vec<String>, ranks: &Vec<usize>, use_musgd_high_lr: bool) -> (r: Vec<
    OptimizerGroupPlan,
>)
    requires
        names@.len() == ranks@.len(),
    ensures
        plan_view(r@) == planned_groups(names@, ranks@, use_musgd_high_lr, names@.len() as int),
{
    let mut plan: Vec<OptimizerGroupPlan> = Vec::new();
    let mut i: usize = 0;
    while i < names.len()
        invariant
            names@.len() == ranks@.len(),
            i <= names@.len(),
            plan_view(plan@) == planned_groups(names@, ranks@, use_musgd_high_lr, i as int),
        decreases names.len() - i,
    {
        let role = variable_role(names[i].as_str(), ranks[i]);
        let high_lr = use_musgd_high_lr && is_musgd_high_lr_variable(names[i].as_str());
        let ghost key = group_key(names@, ranks@, use_musgd_high_lr, i as int);
        assert(key == (role, high_lr));
        let ghost groups = plan_view(plan@);
        let mut g: usize = 0;
        let mut found: Option<usize> = None;
        while g < plan.len() && found.is_none()
            invariant
                g <= plan@.len(),
                groups == plan_view(plan@),
                key == (role, high_lr),
                match found {
                    Some(f) => group_position(groups, key, plan@.len() as int) == Some(f as int),
                    None => group_position(groups, key, g as int) is None,
                },
            decreases plan@.len() - g + if found is None {
                1int
            } else {
                0int
            },
        {
            if plan[g].role == role && plan[g].high_lr == high_lr {
                assert(groups[g as int].0 == key.0 && groups[g as int].1 == key.1);
                assert(group_position(groups, key, g as int) is None);
                assert(group_position(groups, key, g + 1) == Some(g as int));
                proof {
                    lemma_group_position_stable(groups, key, g + 1, plan@.len() as int);
                }
                found = Some(g);
            } else {
                assert(!(groups[g as int].0 == key.0 && groups[g as int].1 == key.1));
                g = g + 1;
            }
        }
        proof {
            lemma_group_position_bounds(groups, key, groups.len() as int);
        }
        match found {
            Some(f) => {
                let ghost before = plan@;
                plan[f].members.push(i);
                assert(plan_view(plan@) =~= groups.update(
                    f as int,
                    (groups[f as int].0, groups[f as int].1, groups[f as int].2.push(i)),
                ));
            },
            None => {
                let mut members: Vec<usize> = Vec::new();
                members.push(i);
                plan.push(OptimizerGroupPlan { role, high_lr, members });
                assert(plan_view(plan@) =~= groups.push((role, high_lr, seq![i])));
            },
        }
        i = i + 1;
    }
    plan
}


/// The groups of the first `n` variables are keyed apart, each lists its
/// members in increasing order, every member carries the group's key, and
/// every variable below `n` is a member of some group.
pub open spec fn groups_partition(
    names: Seq<String>,
    ranks: Seq<usize>,
    use_musgd_high_lr: bool,
    groups: Seq<(OptimizerGroupRole, bool, Seq<usize>)>,
    n: int,
) -> bool {
    &&& forall|g1: int, g2: int|
        0 <= g1 < g2 < groups.len() ==> !((#[trigger] groups[g1]).0 == (#[trigger] groups[g2]).0
            && groups[g1].1 == groups[g2].1)
    &&& forall|g: int, q: int|
        0 <= g < groups.len() && 0 <= q < groups[g].2.len() ==> {
            &&& (#[trigger] groups[g].2[q]) < n
            &&& group_key(names, ranks, use_musgd_high_lr, groups[g].2[q] as int) == (
                groups[g].0,
                groups[g].1,
            )
        }
    &&& forall|g: int, q1: int, q2: int|
        0 <= g < groups.len() && 0 <= q1 < q2 < groups[g].2.len() ==> (#[trigger] groups[g].2[q1])
            < (#[trigger] groups[g].2[q2])
    &&& forall|i: int| 0 <= i < n ==> #[trigger] in_some_group(groups, i)
}

/// Variable `i` is a member of some group.
pub open spec fn in_some_group(groups: Seq<(OptimizerGroupRole, bool, Seq<usize>)>, i: int) -> bool {
    exists|g: int, q: int|
        0 <= g < groups.len() && 0 <= q < groups[g].2.len() && #[trigger] groups[g].2[q] == i
}

proof fn lemma_planned_groups_partition(
    names: Seq<String>,
    ranks: Seq<usize>,
    use_musgd_high_lr: bool,
    n: int,
)
    requires
        0 <= n <= usize::MAX + 1,
    ensures
        groups_partition(
            names,
            ranks,
            use_musgd_high_lr,
            planned_groups(names, ranks, use_musgd_high_lr, n),
            n,
        ),
    decreases n,
{
    if n > 0 {
        lemma_planned_groups_partition(names, ranks, use_musgd_high_lr, n - 1);
        let prev = planned_groups(names, ranks, use_musgd_high_lr, n - 1);
        let key = group_key(names, ranks, use_musgd_high_lr, n - 1);
        let all = planned_groups(names, ranks, use_musgd_high_lr, n);
        let new = (n - 1) as usize;
        lemma_group_position_bounds(prev, key, prev.len() as int);
        match group_position(prev, key, prev.len() as int) {
            Some(f) => {
                assert(all == prev.update(f, (prev[f].0, prev[f].1, prev[f].2.push(new))));
                assert forall|g: int, q: int| 0 <= g < all.len() && 0 <= q < all[g].2.len() implies {
                    &&& (#[trigger] all[g].2[q]) < n
                    &&& group_key(names, ranks, use_musgd_high_lr, all[g].2[q] as int) == (
                        all[g].0,
                        all[g].1,
                    )
                } by {
                    if g != f || q < prev[g].2.len() {
                        assert(all[g].2[q] == prev[g].2[q]);
                    }
                }
                assert forall|g: int, q1: int, q2: int|
                    0 <= g < all.len() && 0 <= q1 < q2 < all[g].2.len() implies (
                    #[trigger] all[g].2[q1]) < (#[trigger] all[g].2[q2]) by {
                    assert(all[g].2[q1] == prev[g].2[q1]);
                    if g != f || q2 < prev[g].2.len() {
                        assert(all[g].2[q2] == prev[g].2[q2]);
                    }
                }
                assert forall|i: int| 0 <= i < n implies #[trigger] in_some_group(all, i) by {
                    if i == n - 1 {
                        assert(all[f].2[prev[f].2.len() as int] == i);
                    } else {
                        assert(in_some_group(prev, i));
                        let (g, q) = choose|g: int, q: int|
                            0 <= g < prev.len() && 0 <= q < prev[g].2.len() && #[trigger] prev[g].2[q]
                                == i;
                        assert(all[g].2[q] == i);
                    }
                }
            },
            None => {
                assert(all == prev.push((key.0, key.1, seq![new])));
                assert forall|g: int| 0 <= g < prev.len() implies !(prev[g].0 == key.0 && prev[g].1
                    == key.1) by {
                    lemma_group_position_none(prev, key, prev.len() as int, g);
                }
                assert forall|g: int, q: int| 0 <= g < all.len() && 0 <= q < all[g].2.len() implies {
                    &&& (#[trigger] all[g].2[q]) < n
                    &&& group_key(names, ranks, use_musgd_high_lr, all[g].2[q] as int) == (
                        all[g].0,
                        all[g].1,
                    )
                } by {
                    if g < prev.len() {
                        assert(all[g] == prev[g]);
                    }
                }
                assert forall|g1: int, g2: int| 0 <= g1 < g2 < all.len() implies !((
                #[trigger] all[g1]).0 == (#[trigger] all[g2]).0 && all[g1].1 == all[g2].1) by {
                    assert(all[g1] == prev[g1]);
                    if g2 < prev.len() {
                        assert(all[g2] == prev[g2]);
                    }
                }
                assert forall|g: int, q1: int, q2: int|
                    0 <= g < all.len() && 0 <= q1 < q2 < all[g].2.len() implies (
                    #[trigger] all[g].2[q1]) < (#[trigger] all[g].2[q2]) by {
                    assert(all[g] == prev[g]);
                }
                assert forall|i: int| 0 <= i < n implies #[trigger] in_some_group(all, i) by {
                    if i == n - 1 {
                        assert(all[prev.len() as int].2[0] == i);
                    } else {
                        assert(in_some_group(prev, i));
                        let (g, q) = choose|g: int, q: int|
                            0 <= g < prev.len() && 0 <= q < prev[g].2.len() && #[trigger] prev[g].2[q]
                                == i;
                        assert(all[g] == prev[g]);
                        assert(all[g].2[q] == i);
                    }
                }
            },
        }
    }
}

proof fn lemma_group_position_none(
    groups: Seq<(OptimizerGroupRole, bool, Seq<usize>)>,
    key: (OptimizerGroupRole, bool),
    n: int,
    g: int,
)
    requires
        group_position(groups, key, n) is None,
        0 <= g < n,
    ensures
        !(groups[g].0 == key.0 && groups[g].1 == key.1),
    decreases n,
{
    if g < n - 1 {
        lemma_group_position_none(groups, key, n - 1, g);
    }
}

/// The optimizer groups of all the variables.
pub open spec fn variable_groups(names: Seq<String>, ranks: Seq<usize>, use_musgd_high_lr: bool) -> Seq<
    (OptimizerGroupRole, bool, Seq<usize>),
> {
    planned_groups(names, ranks, use_musgd_high_lr, names.len() as int)
}

/// Every variable lands in exactly one optimizer group, the one of its own
/// role and learning-rate flag; no two groups share those, and each group
/// keeps its variables in input order.
pub proof fn law_every_variable_in_exactly_one_group(
    names: Seq<String>,
    ranks: Seq<usize>,
    use_musgd_high_lr: bool,
)
    requires
        names.len() <= usize::MAX,
    ensures
        groups_partition(
            names,
            ranks,
            use_musgd_high_lr,
            variable_groups(names, ranks, use_musgd_high_lr),
            names.len() as int,
        ),
        forall|g1: int, g2: int, q1: int, q2: int|
            0 <= g1 < variable_groups(names, ranks, use_musgd_high_lr).len() && 0 <= g2
                < variable_groups(names, ranks, use_musgd_high_lr).len() && 0 <= q1 < variable_groups(
                names,
                ranks,
                use_musgd_high_lr,
            )[g1].2.len() && 0 <= q2 < variable_groups(names, ranks, use_musgd_high_lr)[g2].2.len()
                && #[trigger] variable_groups(names, ranks, use_musgd_high_lr)[g1].2[q1]
                == #[trigger] variable_groups(names, ranks, use_musgd_high_lr)[g2].2[q2] ==> g1 == g2,
{
    let groups = variable_groups(names, ranks, use_musgd_high_lr);
    lemma_planned_groups_partition(names, ranks, use_musgd_high_lr, names.len() as int);
    assert forall|g1: int, g2: int, q1: int, q2: int|
        0 <= g1 < groups.len() && 0 <= g2 < groups.len() && 0 <= q1 < groups[g1].2.len() && 0
            <= q2 < groups[g2].2.len() && #[trigger] groups[g1].2[q1]
            == #[trigger] groups[g2].2[q2] implies g1 == g2 by {
        if g1 < g2 {
            assert(!(groups[g1].0 == groups[g2].0 && groups[g1].1 == groups[g2].1));
        } else if g2 < g1 {
            assert(!(groups[g2].0 == groups[g1].0 && groups[g2].1 == groups[g1].1));
        }
    }
}


/// `s` with every non-overlapping occurrence of `from`, scanned left to
/// right, replaced by `to` (`str::replace`; `from` is non-empty).
pub open spec fn replace_all(s: Seq<char>, from: Seq<char>, to: Seq<char>) -> Seq<char>
    decreases s.len(),
{
    if s.len() == 0 || from.len() == 0 {
        s
    } else if occurs_at(s, from, 0) {
        to + replace_all(s.skip(from.len() as int), from, to)
    } else {
        seq![s[0]] + replace_all(s.drop_first(), from, to)
    }
}

/// The one-to-one head marker in variable names.
pub open spec fn one_to_one_marker() -> Seq<char> {
    ".one2one_cv3."@
}

/// The matching one-to-many marker.
pub open spec fn one_to_many_marker() -> Seq<char> {
    ".cv3."@
}

/// The one-to-many variable a one-to-one class-head variable copies.
pub open spec fn one_to_one_source(name: Seq<char>) -> Seq<char> {
    replace_all(name, one_to_one_marker(), one_to_many_marker())
}

/// Skipped variable `i` is a one-to-one class-head variable whose one-to-many
/// source was skipped too.
pub open spec fn aligns_from_source(skipped: Seq<String>, i: int) -> bool {
    &&& seq_contains(skipped[i]@, one_to_one_marker())
    &&& exists|j: int| 0 <= j < skipped.len() && skipped[j]@ == one_to_one_source(skipped[i]@)
}

/// Skipped variables `i < n` to align, in order, with their source names.
pub open spec fn alignment_pairs(skipped: Seq<String>, n: int) -> Seq<(usize, Seq<char>)>
    decreases n,
{
    if n <= 0 {
        Seq::empty()
    } else {
        let rest = alignment_pairs(skipped, n - 1);
        if aligns_from_source(skipped, n - 1) {
            rest.push(((n - 1) as usize, one_to_one_source(skipped[n - 1]@)))
        } else {
            rest
        }
    }
}

/// `str::replace` of a non-empty pattern over characters.
fn replace_chars(s: &Vec<char>, from: &Vec<char>, to: &Vec<char>) -> (r: Vec<char>)
    requires
        from@.len() > 0,
    ensures
        r@ == replace_all(s@, from@, to@),
{
    let mut out: Vec<char> = Vec::new();
    let mut i: usize = 0;
    assert(s@.skip(0) =~= s@);
    assert(out@ + replace_all(s@, from@, to@) =~= replace_all(s@, from@, to@));
    while i < s.len()
        invariant
            from@.len() > 0,
            i <= s@.len(),
            out@ + replace_all(s@.skip(i as int), from@, to@) == replace_all(s@, from@, to@),
        decreases s.len() - i,
    {
        let ghost rest = s@.skip(i as int);
        if chars_occur_at(s, from, i) {
            assert(occurs_at(rest, from@, 0)) by {
                assert(rest.subrange(0, from@.len() as int) =~= s@.subrange(
                    i as int,
                    i + from@.len(),
                ));
            }
            assert(rest.skip(from@.len() as int) =~= s@.skip(i + from@.len()));
            let mut k: usize = 0;
            let ghost before = out@;
            while k < to.len()
                invariant
                    k <= to@.len(),
                    out@ == before + to@.take(k as int),
                decreases to.len() - k,
            {
                out.push(to[k]);
                assert(to@.take(k + 1) =~= to@.take(k as int).push(to@[k as int]));
                k = k + 1;
            }
            assert(to@.take(k as int) =~= to@);
            assert(before + replace_all(rest, from@, to@) =~= out@ + replace_all(
                s@.skip(i + from@.len()),
                from@,
                to@,
            ));
            i = i + from.len();
        } else {
            assert(!occurs_at(rest, from@, 0)) by {
                if occurs_at(rest, from@, 0) {
                    assert(rest.subrange(0, from@.len() as int) =~= s@.subrange(
                        i as int,
                        i + from@.len(),
                    ));
                }
            }
            assert(rest.drop_first() =~= s@.skip(i + 1));
            assert(rest[0] == s@[i as int]);
            assert(out@ + replace_all(rest, from@, to@) =~= out@.push(s@[i as int]) + replace_all(
                s@.skip(i + 1),
                from@,
                to@,
            ));
            out.push(s[i]);
            i = i + 1;
        }
    }
    assert(s@.skip(i as int) =~= Seq::<char>::empty());
    assert(out@ + Seq::<char>::empty() =~= out@);
    out
}

/// One-to-one class-head variables that were skipped at loading together with
/// their one-to-many source (the name with `.one2one_cv3.` replaced by
/// `.cv3.`), in list order, as (position, source name).
pub fn one_to_one_alignments(skipped_names: &Vec<String>) -> (r: Vec<(usize, String)>)
    ensures
        r@.len() == alignment_pairs(skipped_names@, skipped_names@.len() as int).len(),
        forall|q: int|
            0 <= q < r@.len() ==> (#[trigger] r@[q]).0 == alignment_pairs(
                skipped_names@,
                skipped_names@.len() as int,
            )[q].0 && r@[q].1@ == alignment_pairs(skipped_names@, skipped_names@.len() as int)[q].1,
{
    let marker = str_chars(".one2one_cv3.");
    let replacement = str_chars(".cv3.");
    proof {
        reveal_strlit(".one2one_cv3.");
    }
    let mut out: Vec<(usize, String)> = Vec::new();
    let mut i: usize = 0;
    while i < skipped_names.len()
        invariant
            i <= skipped_names@.len(),
            marker@ == one_to_one_marker(),
            replacement@ == one_to_many_marker(),
            marker@.len() > 0,
            out@.len() == alignment_pairs(skipped_names@, i as int).len(),
            forall|q: int|
                0 <= q < out@.len() ==> (#[trigger] out@[q]).0 == alignment_pairs(
                    skipped_names@,
                    i as int,
                )[q].0 && out@[q].1@ == alignment_pairs(skipped_names@, i as int)[q].1,
        decreases skipped_names.len() - i,
    {
        let name = str_chars(skipped_names[i].as_str());
        if chars_contain(&name, &marker) {
            let source = replace_chars(&name, &marker, &replacement);
            let source_name = chars_to_string(&source);
            let mut j: usize = 0;
            let mut found = false;
            while j < skipped_names.len() && !found
                invariant
                    j <= skipped_names@.len(),
                    found ==> exists|t: int|
                        0 <= t < skipped_names@.len() && skipped_names@[t]@ == source_name@,
                    !found ==> forall|t: int| 0 <= t < j ==> skipped_names@[t]@ != source_name@,
                decreases skipped_names.len() - j + if found {
                    0int
                } else {
                    1int
                },
            {
                if skipped_names[j] == source_name {
                    found = true;
                } else {
                    j = j + 1;
                }
            }
            if found {
                out.push((i, source_name));
            }
        }
        i = i + 1;
    }
    out
}

} // verus!
