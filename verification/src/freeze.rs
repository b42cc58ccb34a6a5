//! Train-time layer freezing rules.
//!
//! A rule names `model.{index}.` layers whose variables stay fixed; variables
//! whose name contains `.dfl` are always frozen.
use vstd::prelude::*;

use crate::error::{message, TrainError};
use crate::text::{chars_contain, decimal, push_decimal, seq_contains, str_chars};

verus! {

/// Layer-freezing rule applied to named train variables.
#[derive(Debug, Clone, PartialEq, Eq)]
pub enum Freeze {
    /// Freeze the first N `model.{index}.` layers.
    FirstLayers(usize),
    /// Freeze the listed `model.{index}.` layers.
    Layers(Vec<usize>),
}

/// The characters `.dfl`.
pub open spec fn dfl_marker() -> Seq<char> {
    seq!['.', 'd', 'f', 'l']
}

/// The name fragment `model.{layer}.` identifying one layer.
pub open spec fn layer_prefix(layer: nat) -> Seq<char> {
    seq!['m', 'o', 'd', 'e', 'l', '.'] + decimal(layer) + seq!['.']
}

/// The variable name belongs to `layer`.
pub open spec fn names_layer(name: Seq<char>, layer: nat) -> bool {
    seq_contains(name, layer_prefix(layer))
}

/// Variables that are frozen whatever the rule.
pub open spec fn always_frozen(name: Seq<char>) -> bool {
    seq_contains(name, dfl_marker())
}

/// Layer lists are kept sorted without repetition.
pub open spec fn strictly_increasing(s: Seq<usize>) -> bool {
    forall|i: int, j: int| 0 <= i < j < s.len() ==> s[i] < s[j]
}

/// The name belongs to some layer of the list.
pub open spec fn names_listed_layer(name: Seq<char>, layers: Seq<usize>) -> bool {
    exists|i: int| 0 <= i < layers.len() && names_layer(name, layers[i] as nat)
}

/// The name belongs to one of the first `count` layers.
pub open spec fn names_leading_layer(name: Seq<char>, count: nat) -> bool {
    exists|layer: nat| layer < count && names_layer(name, layer)
}

impl Freeze {
    /// Whether the rule freezes a variable with the given name.
    pub open spec fn freezes(self, name: Seq<char>) -> bool {
        always_frozen(name) || match self {
            Freeze::FirstLayers(count) => names_leading_layer(name, count as nat),
            Freeze::Layers(layers) => names_listed_layer(name, layers@),
        }
    }

    /// The layer list of a rule is sorted and holds no repeats.
    pub open spec fn well_formed(self) -> bool {
        match self {
            Freeze::FirstLayers(_) => true,
            Freeze::Layers(layers) => layers@.len() > 0 && strictly_increasing(layers@),
        }
    }

    /// Creates a rule that freezes the first `count` model layers.
    pub fn first_layers(count: usize) -> (r: Self)
        ensures
            r == Freeze::FirstLayers(count),
    {
        Freeze::FirstLayers(count)
    }

    /// Creates a rule that freezes the listed layer indices.
    ///
    /// The list is sorted and deduplicated; an empty list is rejected.
    pub fn layers(layers: Vec<usize>) -> (r: Result<Self, TrainError>)
        ensures
            layers@.len() == 0 <==> r is Err,
            r matches Err(e) ==> e is InvalidConfig,
            r matches Ok(f) ==> f matches Freeze::Layers(v) && strictly_increasing(v@) && (
            forall|x: usize| v@.contains(x) <==> layers@.contains(x)),
    {
        let normalized = normalize_layers(layers)?;
        Ok(Freeze::Layers(normalized))
    }

    /// Whether a named train variable is frozen by this rule.
    pub fn freezes_variable(&self, name: &str) -> (r: bool)
        ensures
            r == self.freezes(name@),
    {
        let chars = str_chars(name);
        if is_always_frozen_chars(&chars) {
            return true;
        }
        match self {
            Freeze::FirstLayers(count) => {
                let count = *count;
                let mut layer: usize = 0;
                while layer < count
                    invariant
                        layer <= count,
                        chars@ == name@,
                        self.freezes(name@) == (always_frozen(name@) || names_leading_layer(
                            name@,
                            count as nat,
                        )),
                        forall|l: nat| l < layer ==> !names_layer(name@, l),
                    decreases count - layer,
                {
                    if has_layer_prefix(&chars, layer) {
                        assert(names_layer(name@, layer as nat));
                        assert(names_leading_layer(name@, count as nat));
                        return true;
                    }
                    layer = layer + 1;
                }
                false
            },
            Freeze::Layers(layers) => {
                let mut i: usize = 0;
                while i < layers.len()
                    invariant
                        i <= layers.len(),
                        chars@ == name@,
                        self.freezes(name@) == (always_frozen(name@) || names_listed_layer(
                            name@,
                            layers@,
                        )),
                        forall|j: int| 0 <= j < i ==> !names_layer(name@, layers@[j] as nat),
                    decreases layers.len() - i,
                {
                    if has_layer_prefix(&chars, layers[i]) {
                        assert(names_layer(name@, layers@[i as int] as nat));
                        assert(names_listed_layer(name@, layers@));
                        return true;
                    }
                    i = i + 1;
                }
                false
            },
        }
    }

    /// Whether a named train variable remains trainable under this rule.
    pub fn allows_variable(&self, name: &str) -> (r: bool)
        ensures
            r == !self.freezes(name@),
    {
        !self.freezes_variable(name)
    }

    /// The explicit frozen layer indices, when the rule uses a list.
    pub fn layers_list(&self) -> (r: Option<&[usize]>)
        ensures
            match self {
                Freeze::Layers(layers) => r matches Some(s) && s@ == layers@,
                Freeze::FirstLayers(_) => r is None,
            },
    {
        match self {
            Freeze::Layers(layers) => Some(layers.as_slice()),
            Freeze::FirstLayers(_) => None,
        }
    }

    /// The frozen prefix count, when the rule freezes the first N layers.
    pub fn first_layers_count(&self) -> (r: Option<usize>)
        ensures
            match self {
                Freeze::FirstLayers(count) => r == Some(*count),
                Freeze::Layers(_) => r is None,
            },
    {
        match self {
            Freeze::FirstLayers(count) => Some(*count),
            Freeze::Layers(_) => None,
        }
    }
}

/// Whether a variable is frozen whatever the rule (its name contains `.dfl`).
pub fn is_always_frozen_variable(name: &str) -> (r: bool)
    ensures
        r == always_frozen(name@),
{
    let chars = str_chars(name);
    is_always_frozen_chars(&chars)
}

fn is_always_frozen_chars(name: &Vec<char>) -> (r: bool)
    ensures
        r == always_frozen(name@),
{
    let marker: Vec<char> = vec!['.', 'd', 'f', 'l'];
    assert(marker@ =~= dfl_marker());
    chars_contain(name, &marker)
}

/// Whether the name contains `model.{layer}.`.
fn has_layer_prefix(name: &Vec<char>, layer: usize) -> (r: bool)
    ensures
        r == names_layer(name@, layer as nat),
{
    let mut pattern: Vec<char> = vec!['m', 'o', 'd', 'e', 'l', '.'];
    push_decimal(&mut pattern, layer);
    pattern.push('.');
    assert(pattern@ =~= layer_prefix(layer as nat));
    chars_contain(name, &pattern)
}

/// Inserts `x` into a strictly increasing vector unless it is already there.
fn insert_sorted_unique(out: &mut Vec<usize>, x: usize)
    requires
        strictly_increasing(old(out)@),
    ensures
        strictly_increasing(final(out)@),
        forall|y: usize| final(out)@.contains(y) <==> (old(out)@.contains(y) || y == x),
{
    let mut pos: usize = 0;
    while pos < out.len() && out[pos] < x
        invariant
            pos <= out.len(),
            strictly_increasing(out@),
            out@ == old(out)@,
            forall|j: int| 0 <= j < pos ==> out@[j] < x,
        decreases out.len() - pos,
    {
        pos = pos + 1;
    }
    if pos < out.len() && out[pos] == x {
        return;
    }
    let ghost before = out@;
    out.insert(pos, x);
    assert(out@ =~= before.take(pos as int).push(x) + before.skip(pos as int));
    assert forall|i: int, j: int| 0 <= i < j < out@.len() implies out@[i] < out@[j] by {
        if j < pos {
        } else if j == pos {
        } else if i < pos {
            assert(out@[j] == before[j - 1]);
            assert(before[pos as int] > x);
            assert(before[pos as int] <= before[j - 1]);
        } else if i == pos {
            assert(out@[j] == before[j - 1]);
            assert(before[pos as int] > x);
            assert(before[pos as int] <= before[j - 1]);
        } else {
            assert(out@[i] == before[i - 1]);
            assert(out@[j] == before[j - 1]);
        }
    }
    assert forall|y: usize| out@.contains(y) <==> (before.contains(y) || y == x) by {
        if out@.contains(y) {
            let k = choose|k: int| 0 <= k < out@.len() && out@[k] == y;
            if k < pos {
                assert(before[k] == y);
            } else if k > pos {
                assert(before[k - 1] == y);
            }
        }
        if before.contains(y) {
            let k = choose|k: int| 0 <= k < before.len() && before[k] == y;
            if k < pos {
                assert(out@[k] == y);
            } else {
                assert(out@[k + 1] == y);
            }
        }
        if y == x {
            assert(out@[pos as int] == x);
        }
    }
}

/// Sorts and deduplicates a layer list; rejects an empty list.
fn normalize_layers(layers: Vec<usize>) -> (r: Result<Vec<usize>, TrainError>)
    ensures
        layers@.len() == 0 <==> r is Err,
        r matches Err(e) ==> e is InvalidConfig,
        r matches Ok(v) ==> strictly_increasing(v@) && (forall|x: usize|
            v@.contains(x) <==> layers@.contains(x)),
{
    let mut out: Vec<usize> = Vec::new();
    let mut i: usize = 0;
    while i < layers.len()
        invariant
            i <= layers.len(),
            strictly_increasing(out@),
            forall|x: usize| out@.contains(x) <==> layers@.take(i as int).contains(x),
        decreases layers.len() - i,
    {
        let ghost prev = out@;
        insert_sorted_unique(&mut out, layers[i]);
        assert forall|x: usize| layers@.take(i + 1).contains(x) <==> (layers@.take(
            i as int,
        ).contains(x) || x == layers@[i as int]) by {
            if layers@.take(i + 1).contains(x) {
                let k = choose|k: int| 0 <= k < i + 1 && #[trigger] layers@.take(i + 1)[k] == x;
                if k < i {
                    assert(layers@.take(i as int)[k] == x);
                }
            }
            if layers@.take(i as int).contains(x) {
                let k = choose|k: int| 0 <= k < i && #[trigger] layers@.take(i as int)[k] == x;
                assert(layers@.take(i + 1)[k] == x);
            }
            if x == layers@[i as int] {
                assert(layers@.take(i + 1)[i as int] == x);
            }
        }
        assert forall|x: usize| out@.contains(x) <==> layers@.take(i + 1).contains(x) by {
            assert(out@.contains(x) <==> (prev.contains(x) || x == layers@[i as int]));
            assert(prev.contains(x) <==> layers@.take(i as int).contains(x));
        }
        i = i + 1;
    }
    assert(layers@.take(i as int) =~= layers@);
    if out.len() == 0 {
        if layers.len() > 0 {
            assert(layers@.contains(layers@[0]));
            assert(out@.contains(layers@[0]));
        }
        return Err(TrainError::InvalidConfig(message("freeze layer list requires at least one layer")));
    }
    if layers.len() == 0 {
        assert(out@.contains(out@[0]));
    }
    Ok(out)
}


/// Names containing `.dfl` are frozen by every rule.
pub proof fn law_dfl_variables_always_frozen(rule: Freeze, name: Seq<char>)
    requires
        always_frozen(name),
    ensures
        rule.freezes(name),
{
}

/// A layer rule depends only on which indices it lists: two sorted,
/// repeat-free lists with the same members are the same list, so
/// `Freeze::layers` gives the same rule for any order or repetition of them.
pub proof fn law_layer_rules_depend_only_on_members(a: Seq<usize>, b: Seq<usize>)
    requires
        strictly_increasing(a),
        strictly_increasing(b),
        forall|x: usize| a.contains(x) <==> b.contains(x),
    ensures
        a == b,
    decreases a.len() + b.len(),
{
    if a.len() == 0 {
        if b.len() > 0 {
            assert(b.contains(b[0]));
        }
        assert(a =~= b);
    } else if b.len() == 0 {
        assert(a.contains(a[0]));
    } else {
        assert(a.contains(a[0]));
        assert(b.contains(b[0]));
        let i = choose|i: int| 0 <= i < b.len() && b[i] == a[0];
        let j = choose|j: int| 0 <= j < a.len() && a[j] == b[0];
        assert(a[0] == b[0]) by {
            if i > 0 {
                assert(b[0] < b[i]);
                if j > 0 {
                    assert(a[0] < a[j]);
                }
            }
        }
        let ra = a.drop_first();
        let rb = b.drop_first();
        assert forall|x: usize| ra.contains(x) <==> rb.contains(x) by {
            if ra.contains(x) {
                let k = choose|k: int| 0 <= k < ra.len() && ra[k] == x;
                assert(a[k + 1] == x);
                assert(a.contains(x));
                let m = choose|m: int| 0 <= m < b.len() && b[m] == x;
                assert(x != a[0]);
                assert(m > 0);
                assert(rb[m - 1] == x);
            }
            if rb.contains(x) {
                let k = choose|k: int| 0 <= k < rb.len() && rb[k] == x;
                assert(b[k + 1] == x);
                assert(b.contains(x));
                let m = choose|m: int| 0 <= m < a.len() && a[m] == x;
                assert(x != b[0]);
                assert(m > 0);
                assert(ra[m - 1] == x);
            }
        }
        law_layer_rules_depend_only_on_members(ra, rb);
        assert(a =~= seq![a[0]] + ra);
        assert(b =~= seq![b[0]] + rb);
    }
}

/// Freezing the first `n` layers freezes everything that freezing fewer does.
pub proof fn law_first_layers_monotone(n: usize, m: usize, name: Seq<char>)
    requires
        n <= m,
        Freeze::FirstLayers(n).freezes(name),
    ensures
        Freeze::FirstLayers(m).freezes(name),
{
    if !always_frozen(name) {
        let layer = choose|layer: nat| layer < n && names_layer(name, layer);
        assert(names_leading_layer(name, m as nat));
    }
}

/// Listing layers `0, 1, ..., n - 1` freezes exactly what freezing the
/// first `n` layers does.
pub proof fn law_listing_leading_layers_equals_first_layers(
    n: usize,
    layers: Vec<usize>,
    name: Seq<char>,
)
    requires
        layers@.len() == n,
        forall|i: int| 0 <= i < n ==> layers@[i] == i,
    ensures
        Freeze::Layers(layers).freezes(name) == Freeze::FirstLayers(n).freezes(name),
{
    if names_listed_layer(name, layers@) {
        let i = choose|i: int| 0 <= i < layers@.len() && names_layer(name, layers@[i] as nat);
        assert(names_layer(name, i as nat));
        assert(names_leading_layer(name, n as nat));
    }
    if names_leading_layer(name, n as nat) {
        let layer = choose|layer: nat| layer < n && names_layer(name, layer);
        assert(layers@[layer as int] == layer);
        assert(names_listed_layer(name, layers@));
    }
}

} // verus!
