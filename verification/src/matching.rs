//! Matching of predictions to ground-truth targets for evaluation.
//!
//! A candidate `(prediction, target, key)` is a pair whose overlap passed the
//! threshold; the key is an order key of the overlap (a larger key is a larger
//! overlap). Among equal keys the earlier candidate comes first, as a stable
//! sort by descending overlap orders them.
use vstd::prelude::*;

verus! {

/// Number of IoU thresholds of the COCO mAP sweep `[0.5, 0.55, ..., 0.95]`.
pub const N_THRESHOLDS: usize = 10;

/// Position of the first candidate with the largest key.
pub open spec fn top_position(s: Seq<(usize, usize, u64)>) -> int
    decreases s.len(),
{
    if s.len() <= 1 {
        0
    } else {
        let p = top_position(s.drop_last());
        if s.last().2 > s[p].2 {
            s.len() - 1
        } else {
            p
        }
    }
}

/// Greedy one-to-one matching: the best remaining candidate is taken when
/// neither its prediction nor its target is taken yet, then the rest follow.
pub open spec fn greedy_from(
    s: Seq<(usize, usize, u64)>,
    used_preds: Set<usize>,
    used_targets: Set<usize>,
) -> Seq<(usize, usize, u64)>
    decreases s.len(),
{
    if s.len() == 0 {
        Seq::empty()
    } else {
        let p = top_position(s);
        let x = s[p];
        let rest = s.remove(p);
        proof {
            lemma_top_position_bounds(s);
        }
        if used_preds.contains(x.0) || used_targets.contains(x.1) {
            greedy_from(rest, used_preds, used_targets)
        } else {
            seq![x] + greedy_from(rest, used_preds.insert(x.0), used_targets.insert(x.1))
        }
    }
}

/// The greedy matching of a candidate list.
pub open spec fn greedy_matching(cands: Seq<(usize, usize, u64)>) -> Seq<(usize, usize, u64)> {
    greedy_from(cands, Set::empty(), Set::empty())
}

/// Every candidate's prediction and target lie within the given counts.
pub open spec fn candidates_within(
    cands: Seq<(usize, usize, u64)>,
    pred_count: nat,
    target_count: nat,
) -> bool {
    forall|i: int|
        0 <= i < cands.len() ==> (#[trigger] cands[i]).0 < pred_count && cands[i].1 < target_count
}

/// The first best position lies within a non-empty sequence.
pub proof fn lemma_top_position_bounds(s: Seq<(usize, usize, u64)>)
    requires
        s.len() > 0,
    ensures
        0 <= top_position(s) < s.len(),
    decreases s.len(),
{
    if s.len() > 1 {
        lemma_top_position_bounds(s.drop_last());
    }
}

proof fn lemma_remove_within(
    s: Seq<(usize, usize, u64)>,
    p: int,
    pred_count: nat,
    target_count: nat,
)
    requires
        0 <= p < s.len(),
        candidates_within(s, pred_count, target_count),
    ensures
        candidates_within(s.remove(p), pred_count, target_count),
{
    assert forall|i: int| 0 <= i < s.remove(p).len() implies (#[trigger] s.remove(p)[i]).0
        < pred_count && s.remove(p)[i].1 < target_count by {
        if i < p {
            assert(s.remove(p)[i] == s[i]);
        } else {
            assert(s.remove(p)[i] == s[i + 1]);
        }
    }
}

proof fn lemma_greedy_within(
    s: Seq<(usize, usize, u64)>,
    used_preds: Set<usize>,
    used_targets: Set<usize>,
    pred_count: nat,
    target_count: nat,
)
    requires
        candidates_within(s, pred_count, target_count),
    ensures
        candidates_within(greedy_from(s, used_preds, used_targets), pred_count, target_count),
    decreases s.len(),
{
    if s.len() > 0 {
        let p = top_position(s);
        lemma_top_position_bounds(s);
        let x = s[p];
        let rest = s.remove(p);
        lemma_remove_within(s, p, pred_count, target_count);
        if used_preds.contains(x.0) || used_targets.contains(x.1) {
            lemma_greedy_within(rest, used_preds, used_targets, pred_count, target_count);
        } else {
            lemma_greedy_within(
                rest,
                used_preds.insert(x.0),
                used_targets.insert(x.1),
                pred_count,
                target_count,
            );
            let tail = greedy_from(rest, used_preds.insert(x.0), used_targets.insert(x.1));
            let all = greedy_from(s, used_preds, used_targets);
            assert forall|i: int| 0 <= i < all.len() implies (#[trigger] all[i]).0 < pred_count
                && all[i].1 < target_count by {
                if i > 0 {
                    assert(all[i] == tail[i - 1]);
                }
            }
        }
    }
}

fn top_candidate_position(s: &Vec<(usize, usize, u64)>) -> (p: usize)
    requires
        s@.len() > 0,
    ensures
        p == top_position(s@),
        p < s@.len(),
{
    let mut p: usize = 0;
    let mut i: usize = 1;
    assert(s@.take(1).len() == 1);
    while i < s.len()
        invariant
            1 <= i <= s@.len(),
            p < i,
            p == top_position(s@.take(i as int)),
        decreases s.len() - i,
    {
        let ghost t = s@.take(i + 1);
        assert(t.drop_last() =~= s@.take(i as int));
        assert(t.last() == s@[i as int]);
        assert(t[p as int] == s@[p as int]);
        if s[i].2 > s[p].2 {
            p = i;
        }
        i = i + 1;
    }
    assert(s@.take(i as int) =~= s@);
    p
}

/// Greedy one-to-one pairs, best overlap first.
pub fn greedy_pairs(cands: &Vec<(usize, usize, u64)>, pred_count: usize, target_count: usize) -> (r:
    Vec<(usize, usize, u64)>)
    requires
        candidates_within(cands@, pred_count as nat, target_count as nat),
    ensures
        r@ == greedy_matching(cands@),
{
    let mut remaining: Vec<(usize, usize, u64)> = Vec::new();
    let mut i: usize = 0;
    while i < cands.len()
        invariant
            i <= cands@.len(),
            remaining@ == cands@.take(i as int),
        decreases cands.len() - i,
    {
        remaining.push(cands[i]);
        assert(cands@.take(i + 1) =~= cands@.take(i as int).push(cands@[i as int]));
        i = i + 1;
    }
    assert(cands@.take(i as int) =~= cands@);
    let mut used_pred: Vec<bool> = Vec::new();
    let mut k: usize = 0;
    while k < pred_count
        invariant
            k <= pred_count,
            used_pred@.len() == k,
            forall|j: int| 0 <= j < k ==> !used_pred@[j],
        decreases pred_count - k,
    {
        used_pred.push(false);
        k = k + 1;
    }
    let mut used_gt: Vec<bool> = Vec::new();
    k = 0;
    while k < target_count
        invariant
            k <= target_count,
            used_gt@.len() == k,
            forall|j: int| 0 <= j < k ==> !used_gt@[j],
        decreases target_count - k,
    {
        used_gt.push(false);
        k = k + 1;
    }
    let ghost mut preds_taken: Set<usize> = Set::empty();
    let ghost mut targets_taken: Set<usize> = Set::empty();
    let mut pairs: Vec<(usize, usize, u64)> = Vec::new();
    while remaining.len() > 0
        invariant
            candidates_within(remaining@, pred_count as nat, target_count as nat),
            used_pred@.len() == pred_count,
            used_gt@.len() == target_count,
            forall|j: int| 0 <= j < pred_count ==> used_pred@[j] == preds_taken.contains(j as usize),
            forall|j: int|
                0 <= j < target_count ==> used_gt@[j] == targets_taken.contains(j as usize),
            pairs@ + greedy_from(remaining@, preds_taken, targets_taken) == greedy_matching(cands@),
        decreases remaining@.len(),
    {
        let p = top_candidate_position(&remaining);
        let ghost before = remaining@;
        proof {
            lemma_remove_within(before, p as int, pred_count as nat, target_count as nat);
        }
        assert(before[p as int].0 < pred_count && before[p as int].1 < target_count);
        let x = remaining.remove(p);
        if used_pred[x.0] || used_gt[x.1] {
            assert(greedy_from(before, preds_taken, targets_taken) == greedy_from(
                remaining@,
                preds_taken,
                targets_taken,
            ));
        } else {
            assert(greedy_from(before, preds_taken, targets_taken) == seq![x] + greedy_from(
                remaining@,
                preds_taken.insert(x.0),
                targets_taken.insert(x.1),
            ));
            assert(pairs@.push(x) + greedy_from(
                remaining@,
                preds_taken.insert(x.0),
                targets_taken.insert(x.1),
            ) =~= pairs@ + (seq![x] + greedy_from(
                remaining@,
                preds_taken.insert(x.0),
                targets_taken.insert(x.1),
            )));
            used_pred.set(x.0, true);
            used_gt.set(x.1, true);
            proof {
                preds_taken = preds_taken.insert(x.0);
                targets_taken = targets_taken.insert(x.1);
            }
            pairs.push(x);
        }
    }
    assert(greedy_from(remaining@, preds_taken, targets_taken) =~= Seq::<
        (usize, usize, u64),
    >::empty());
    assert(pairs@ + Seq::<(usize, usize, u64)>::empty() =~= pairs@);
    pairs
}

/// Number of greedy one-to-one pairs.
pub fn greedy_count(cands: &Vec<(usize, usize, u64)>, pred_count: usize, target_count: usize) -> (r:
    usize)
    requires
        candidates_within(cands@, pred_count as nat, target_count as nat),
    ensures
        r == greedy_matching(cands@).len(),
{
    greedy_pairs(cands, pred_count, target_count).len()
}

/// Marks, at one threshold, every prediction of a greedy pair as a true positive.
pub fn greedy_match(
    tp: &mut Vec<[bool; N_THRESHOLDS]>,
    threshold_index: usize,
    cands: &Vec<(usize, usize, u64)>,
    pred_count: usize,
    target_count: usize,
)
    requires
        threshold_index < N_THRESHOLDS,
        pred_count <= old(tp)@.len(),
        candidates_within(cands@, pred_count as nat, target_count as nat),
    ensures
        final(tp)@.len() == old(tp)@.len(),
        forall|p: int, t: int|
            0 <= p < old(tp)@.len() && 0 <= t < N_THRESHOLDS && t != threshold_index
                ==> (#[trigger] final(tp)@[p]@[t]) == old(tp)@[p]@[t],
        forall|p: int|
            0 <= p < old(tp)@.len() ==> (#[trigger] final(tp)@[p]@[threshold_index as int]) == (
            old(tp)@[p]@[threshold_index as int] || exists|q: int|
                0 <= q < greedy_matching(cands@).len() && (#[trigger] greedy_matching(
                    cands@,
                )[q]).0 == p),
{
    let pairs = greedy_pairs(cands, pred_count, target_count);
    let ghost matching = greedy_matching(cands@);
    proof {
        lemma_greedy_within(
            cands@,
            Set::empty(),
            Set::empty(),
            pred_count as nat,
            target_count as nat,
        );
    }
    let mut q: usize = 0;
    while q < pairs.len()
        invariant
            q <= pairs@.len(),
            pairs@ == matching,
            matching == greedy_matching(cands@),
            threshold_index < N_THRESHOLDS,
            pred_count <= old(tp)@.len(),
            tp@.len() == old(tp)@.len(),
            forall|t: int| 0 <= t < matching.len() ==> (#[trigger] matching[t]).0 < pred_count,
            forall|p: int, t: int|
                0 <= p < old(tp)@.len() && 0 <= t < N_THRESHOLDS && t != threshold_index
                    ==> (#[trigger] tp@[p]@[t]) == old(tp)@[p]@[t],
            forall|p: int|
                0 <= p < old(tp)@.len() ==> (#[trigger] tp@[p]@[threshold_index as int]) == (old(
                    tp,
                )@[p]@[threshold_index as int] || exists|t: int|
                    0 <= t < q && (#[trigger] matching[t]).0 == p),
        decreases pairs.len() - q,
    {
        let pi = pairs[q].0;
        let ghost before = tp@;
        tp[pi][threshold_index] = true;
        let ghost ti = threshold_index as int;
        assert forall|p: int| 0 <= p < old(tp)@.len() implies (#[trigger] tp@[p]@[ti]) == (old(
            tp,
        )@[p]@[ti] || exists|t: int|
            0 <= t < q + 1 && (#[trigger] matching[t]).0 == p) by {
            if p == pi {
                assert(matching[q as int].0 == p);
            } else {
                assert(tp@[p] == before[p]);
            }
        }
        q = q + 1;
    }
}


/// The candidate kept for prediction `pred` among the first `n`: its largest
/// key, the earliest on ties.
pub open spec fn pred_choice(cands: Seq<(usize, usize, u64)>, pred: int, n: int) -> Option<int>
    decreases n,
{
    if n <= 0 {
        None
    } else {
        let prev = pred_choice(cands, pred, n - 1);
        let x = cands[n - 1];
        if x.0 == pred && (prev is None || x.2 > cands[prev->0].2) {
            Some(n - 1)
        } else {
            prev
        }
    }
}

/// Targets taken by predictions `0..p`, visited in prediction order: each
/// prediction offers the target of its kept candidate, which it takes when
/// still free.
pub open spec fn official_taken(cands: Seq<(usize, usize, u64)>, p: int) -> Set<usize>
    decreases p,
{
    if p <= 0 {
        Set::empty()
    } else {
        let before = official_taken(cands, p - 1);
        match pred_choice(cands, p - 1, cands.len() as int) {
            Some(i) => if before.contains(cands[i].1) {
                before
            } else {
                before.insert(cands[i].1)
            },
            None => before,
        }
    }
}

/// Prediction `p` is a true positive of the official matching.
pub open spec fn official_match(cands: Seq<(usize, usize, u64)>, p: int) -> bool {
    match pred_choice(cands, p, cands.len() as int) {
        Some(i) => !official_taken(cands, p).contains(cands[i].1),
        None => false,
    }
}

/// Kept candidate of one prediction.
fn choice_for_pred(cands: &Vec<(usize, usize, u64)>, pred: usize) -> (r: Option<usize>)
    ensures
        match r {
            Some(i) => pred_choice(cands@, pred as int, cands@.len() as int) == Some(i as int) && i
                < cands@.len(),
            None => pred_choice(cands@, pred as int, cands@.len() as int) is None,
        },
{
    let mut best: Option<usize> = None;
    let mut i: usize = 0;
    while i < cands.len()
        invariant
            i <= cands@.len(),
            match best {
                Some(j) => pred_choice(cands@, pred as int, i as int) == Some(j as int) && j < i,
                None => pred_choice(cands@, pred as int, i as int) is None,
            },
        decreases cands.len() - i,
    {
        let x = cands[i];
        if x.0 == pred {
            match best {
                None => {
                    best = Some(i);
                },
                Some(j) => {
                    if x.2 > cands[j].2 {
                        best = Some(i);
                    }
                },
            }
        }
        i = i + 1;
    }
    best
}

/// Marks official true positives at one threshold: each prediction keeps its
/// best-overlap candidate, then predictions in index order take their target
/// when it is still free.
pub fn mark_official_matches(
    tp: &mut Vec<[bool; N_THRESHOLDS]>,
    threshold_idx: usize,
    preds: usize,
    targets: usize,
    cands: &Vec<(usize, usize, u64)>,
)
    requires
        threshold_idx < N_THRESHOLDS,
        preds <= old(tp)@.len(),
        candidates_within(cands@, preds as nat, targets as nat),
    ensures
        final(tp)@.len() == old(tp)@.len(),
        forall|p: int, t: int|
            0 <= p < old(tp)@.len() && 0 <= t < N_THRESHOLDS && t != threshold_idx
                ==> (#[trigger] final(tp)@[p]@[t]) == old(tp)@[p]@[t],
        forall|p: int|
            0 <= p < old(tp)@.len() ==> (#[trigger] final(tp)@[p]@[threshold_idx as int]) == (old(
                tp,
            )@[p]@[threshold_idx as int] || (p < preds && official_match(cands@, p))),
{
    let mut used_gt: Vec<bool> = Vec::new();
    let mut k: usize = 0;
    while k < targets
        invariant
            k <= targets,
            used_gt@.len() == k,
            forall|j: int| 0 <= j < k ==> !used_gt@[j],
        decreases targets - k,
    {
        used_gt.push(false);
        k = k + 1;
    }
    let ghost ti = threshold_idx as int;
    let mut p: usize = 0;
    while p < preds
        invariant
            p <= preds,
            threshold_idx < N_THRESHOLDS,
            ti == threshold_idx,
            preds <= old(tp)@.len(),
            tp@.len() == old(tp)@.len(),
            candidates_within(cands@, preds as nat, targets as nat),
            used_gt@.len() == targets,
            forall|j: int| 0 <= j < targets ==> used_gt@[j] == official_taken(cands@, p as int).contains(
                j as usize,
            ),
            forall|q: int, t: int|
                0 <= q < old(tp)@.len() && 0 <= t < N_THRESHOLDS && t != threshold_idx
                    ==> (#[trigger] tp@[q]@[t]) == old(tp)@[q]@[t],
            forall|q: int|
                0 <= q < old(tp)@.len() ==> (#[trigger] tp@[q]@[ti]) == (old(tp)@[q]@[ti] || (q < p
                    && official_match(cands@, q))),
        decreases preds - p,
    {
        let ghost before = tp@;
        match choice_for_pred(cands, p) {
            Some(i) => {
                let g = cands[i].1;
                assert(cands@[i as int].1 < targets);
                if !used_gt[g] {
                    tp[p][threshold_idx] = true;
                    used_gt.set(g, true);
                    assert forall|q: int| 0 <= q < old(tp)@.len() implies (#[trigger] tp@[q]@[ti])
                        == (old(tp)@[q]@[ti] || (q < p + 1 && official_match(cands@, q))) by {
                        if q != p {
                            assert(tp@[q] == before[q]);
                        }
                    }
                } else {
                    assert(!official_match(cands@, p as int));
                }
            },
            None => {},
        }
        p = p + 1;
    }
}

/// Best free prediction for one target among the first `n`: the largest key
/// of an eligible prediction not yet taken, the earliest on ties.
pub open spec fn target_pick(keys: Seq<Option<u64>>, taken: Set<usize>, n: int) -> Option<int>
    decreases n,
{
    if n <= 0 {
        None
    } else {
        let prev = target_pick(keys, taken, n - 1);
        match keys[n - 1] {
            Some(key) => if !taken.contains((n - 1) as usize) && (prev is None || key
                > keys[prev->0]->0) {
                Some(n - 1)
            } else {
                prev
            },
            None => prev,
        }
    }
}

/// Predictions taken, and targets matched, after visiting targets `0..n`.
pub open spec fn target_walk(counted: Seq<bool>, keys: Seq<Seq<Option<u64>>>, n: int) -> (
    Set<usize>,
    nat,
)
    decreases n,
{
    if n <= 0 {
        (Set::empty(), 0)
    } else {
        let (taken, matched) = target_walk(counted, keys, n - 1);
        if !counted[n - 1] {
            (taken, matched)
        } else {
            match target_pick(keys[n - 1], taken, keys[n - 1].len() as int) {
                Some(p) => (taken.insert(p as usize), matched + 1),
                None => (taken, matched),
            }
        }
    }
}

/// Number of counted targets among the first `n`.
pub open spec fn counted_targets(counted: Seq<bool>, n: int) -> nat
    decreases n,
{
    if n <= 0 {
        0
    } else {
        counted_targets(counted, n - 1) + if counted[n - 1] {
            1nat
        } else {
            0nat
        }
    }
}

/// Best free eligible prediction for one target.
fn pick_for_target(keys: &Vec<Option<u64>>, used: &Vec<bool>, Ghost(taken): Ghost<Set<usize>>) -> (r:
    Option<usize>)
    requires
        keys@.len() == used@.len(),
        forall|j: int| 0 <= j < used@.len() ==> used@[j] == taken.contains(j as usize),
    ensures
        match r {
            Some(p) => target_pick(keys@, taken, keys@.len() as int) == Some(p as int) && p
                < keys@.len(),
            None => target_pick(keys@, taken, keys@.len() as int) is None,
        },
{
    let mut best: Option<usize> = None;
    let mut best_key: u64 = 0;
    let mut i: usize = 0;
    while i < keys.len()
        invariant
            i <= keys@.len(),
            keys@.len() == used@.len(),
            forall|j: int| 0 <= j < used@.len() ==> used@[j] == taken.contains(j as usize),
            match best {
                Some(j) => target_pick(keys@, taken, i as int) == Some(j as int) && j < i
                    && keys@[j as int] == Some(best_key),
                None => target_pick(keys@, taken, i as int) is None,
            },
        decreases keys.len() - i,
    {
        match keys[i] {
            Some(key) => {
                if !used[i] && (best.is_none() || key > best_key) {
                    best = Some(i);
                    best_key = key;
                }
            },
            None => {},
        }
        i = i + 1;
    }
    best
}

/// Greedy per-target matching of the detection eval: each counted target, in
/// order, takes its best free eligible prediction. Returns the matched and the
/// counted targets. `pair_keys[target][pred]` is the overlap key of an
/// eligible pair, `None` otherwise.
pub fn match_targets(target_counted: &Vec<bool>, pair_keys: &Vec<Vec<Option<u64>>>, pred_count: usize) -> (r: (
    usize,
    usize,
))
    requires
        pair_keys@.len() == target_counted@.len(),
        forall|t: int| 0 <= t < pair_keys@.len() ==> (#[trigger] pair_keys@[t])@.len() == pred_count,
    ensures
        r.0 == target_walk(target_counted@, pair_keys@.map_values(|row: Vec<Option<u64>>| row@), target_counted@.len() as int).1,
        r.1 == counted_targets(target_counted@, target_counted@.len() as int),
{
    let ghost rows = pair_keys@.map_values(|row: Vec<Option<u64>>| row@);
    let mut used: Vec<bool> = Vec::new();
    let mut k: usize = 0;
    while k < pred_count
        invariant
            k <= pred_count,
            used@.len() == k,
            forall|j: int| 0 <= j < k ==> !used@[j],
        decreases pred_count - k,
    {
        used.push(false);
        k = k + 1;
    }
    let mut matched: usize = 0;
    let mut total: usize = 0;
    let mut obj: usize = 0;
    while obj < target_counted.len()
        invariant
            obj <= target_counted@.len(),
            pair_keys@.len() == target_counted@.len(),
            rows == pair_keys@.map_values(|row: Vec<Option<u64>>| row@),
            forall|t: int| 0 <= t < pair_keys@.len() ==> (#[trigger] pair_keys@[t])@.len() == pred_count,
            used@.len() == pred_count,
            forall|j: int|
                0 <= j < pred_count ==> used@[j] == target_walk(target_counted@, rows, obj as int).0.contains(
                    j as usize,
                ),
            matched == target_walk(target_counted@, rows, obj as int).1,
            total == counted_targets(target_counted@, obj as int),
            matched <= obj,
            total <= obj,
        decreases target_counted.len() - obj,
    {
        if target_counted[obj] {
            total = total + 1;
            assert(rows[obj as int] == pair_keys@[obj as int]@);
            match pick_for_target(&pair_keys[obj], &used, Ghost(target_walk(target_counted@, rows, obj as int).0)) {
                Some(pred_idx) => {
                    used.set(pred_idx, true);
                    matched = matched + 1;
                },
                None => {},
            }
        }
        obj = obj + 1;
    }
    (matched, total)
}


proof fn lemma_greedy_from_one_to_one(
    s: Seq<(usize, usize, u64)>,
    used_preds: Set<usize>,
    used_targets: Set<usize>,
)
    ensures
        ({
            let g = greedy_from(s, used_preds, used_targets);
            &&& forall|i: int|
                0 <= i < g.len() ==> s.contains(#[trigger] g[i]) && !used_preds.contains(g[i].0)
                    && !used_targets.contains(g[i].1)
            &&& forall|i: int, j: int|
                0 <= i < j < g.len() ==> (#[trigger] g[i]).0 != (#[trigger] g[j]).0 && g[i].1
                    != g[j].1
        }),
    decreases s.len(),
{
    if s.len() > 0 {
        let p = top_position(s);
        lemma_top_position_bounds(s);
        let x = s[p];
        let rest = s.remove(p);
        assert forall|e: (usize, usize, u64)| rest.contains(e) implies s.contains(e) by {
            let k = choose|k: int| 0 <= k < rest.len() && rest[k] == e;
            if k < p {
                assert(s[k] == e);
            } else {
                assert(s[k + 1] == e);
            }
        }
        if used_preds.contains(x.0) || used_targets.contains(x.1) {
            lemma_greedy_from_one_to_one(rest, used_preds, used_targets);
            let g = greedy_from(s, used_preds, used_targets);
            assert(g == greedy_from(rest, used_preds, used_targets));
            assert forall|i: int| 0 <= i < g.len() implies s.contains(#[trigger] g[i]) by {
                assert(rest.contains(g[i]));
            }
        } else {
            let up = used_preds.insert(x.0);
            let ut = used_targets.insert(x.1);
            lemma_greedy_from_one_to_one(rest, up, ut);
            let tail = greedy_from(rest, up, ut);
            let g = greedy_from(s, used_preds, used_targets);
            assert(g == seq![x] + tail);
            assert forall|i: int| 0 <= i < g.len() implies s.contains(#[trigger] g[i])
                && !used_preds.contains(g[i].0) && !used_targets.contains(g[i].1) by {
                if i > 0 {
                    assert(g[i] == tail[i - 1]);
                    assert(rest.contains(tail[i - 1]));
                }
            }
            assert forall|i: int, j: int| 0 <= i < j < g.len() implies (#[trigger] g[i]).0 != (
            #[trigger] g[j]).0 && g[i].1 != g[j].1 by {
                assert(g[j] == tail[j - 1]);
                if i > 0 {
                    assert(g[i] == tail[i - 1]);
                } else {
                    assert(!up.contains(tail[j - 1].0));
                    assert(!ut.contains(tail[j - 1].1));
                }
            }
        }
    }
}

/// Greedy matching pairs each prediction and each target at most once, and
/// only through pairs that were candidates.
pub proof fn law_greedy_matching_is_one_to_one(cands: Seq<(usize, usize, u64)>)
    ensures
        forall|i: int|
            0 <= i < greedy_matching(cands).len() ==> cands.contains(
                #[trigger] greedy_matching(cands)[i],
            ),
        forall|i: int, j: int|
            0 <= i < j < greedy_matching(cands).len() ==> (#[trigger] greedy_matching(cands)[i]).0
                != (#[trigger] greedy_matching(cands)[j]).0 && greedy_matching(cands)[i].1
                != greedy_matching(cands)[j].1,
{
    lemma_greedy_from_one_to_one(cands, Set::empty(), Set::empty());
}

proof fn lemma_pred_choice_bounds(cands: Seq<(usize, usize, u64)>, pred: int, n: int)
    requires
        n <= cands.len(),
    ensures
        pred_choice(cands, pred, n) matches Some(i) ==> 0 <= i < n && cands[i].0 == pred,
    decreases n,
{
    if n > 0 {
        lemma_pred_choice_bounds(cands, pred, n - 1);
    }
}

/// The target offered by prediction `p` in the official matching.
pub open spec fn official_target(cands: Seq<(usize, usize, u64)>, p: int) -> usize {
    cands[pred_choice(cands, p, cands.len() as int)->0].1
}

proof fn lemma_taken_after_match(cands: Seq<(usize, usize, u64)>, p1: int, p: int)
    requires
        0 <= p1 < p,
        official_match(cands, p1),
    ensures
        official_taken(cands, p).contains(official_target(cands, p1)),
    decreases p,
{
    if p > p1 + 1 {
        lemma_taken_after_match(cands, p1, p - 1);
    }
}

/// In the official matching no two predictions take the same target.
pub proof fn law_official_matches_take_distinct_targets(
    cands: Seq<(usize, usize, u64)>,
    p1: int,
    p2: int,
)
    requires
        0 <= p1 < p2,
        official_match(cands, p1),
        official_match(cands, p2),
    ensures
        official_target(cands, p1) != official_target(cands, p2),
{
    lemma_taken_after_match(cands, p1, p2);
}

/// The per-target matching never matches more targets than it counts.
pub proof fn law_matched_targets_within_counted(
    counted: Seq<bool>,
    keys: Seq<Seq<Option<u64>>>,
    n: int,
)
    ensures
        target_walk(counted, keys, n).1 <= counted_targets(counted, n),
    decreases n,
{
    if n > 0 {
        law_matched_targets_within_counted(counted, keys, n - 1);
    }
}

/// Each prediction offers its best candidate: the candidate kept among the
/// first `n` belongs to the prediction, no candidate of the prediction has a
/// larger key, and none with an equal key comes before it; a prediction
/// offers nothing exactly when it has no candidate.
pub proof fn law_prediction_offers_its_best_candidate(
    cands: Seq<(usize, usize, u64)>,
    pred: int,
    n: int,
)
    requires
        0 <= n <= cands.len(),
    ensures
        pred_choice(cands, pred, n) is None <==> forall|j: int|
            0 <= j < n ==> (#[trigger] cands[j]).0 != pred,
        pred_choice(cands, pred, n) matches Some(i) ==> 0 <= i < n && cands[i].0 == pred && forall|
            j: int,
        |
            0 <= j < n && (#[trigger] cands[j]).0 == pred ==> cands[j].2 <= cands[i].2 && (
            cands[j].2 == cands[i].2 ==> i <= j),
    decreases n,
{
    if n > 0 {
        law_prediction_offers_its_best_candidate(cands, pred, n - 1);
        if pred_choice(cands, pred, n - 1) is None && cands[n - 1].0 != pred {
            assert forall|j: int| 0 <= j < n implies (#[trigger] cands[j]).0 != pred by {
                if j < n - 1 {
                }
            }
        }
    }
}

proof fn lemma_official_taken(cands: Seq<(usize, usize, u64)>, p: int, t: usize)
    requires
        0 <= p,
    ensures
        official_taken(cands, p).contains(t) <==> exists|p1: int|
            0 <= p1 < p && #[trigger] official_match(cands, p1) && official_target(cands, p1) == t,
    decreases p,
{
    if p > 0 {
        lemma_official_taken(cands, p - 1, t);
        if official_match(cands, p - 1) && official_target(cands, p - 1) == t {
            assert(official_taken(cands, p).contains(t));
        }
        if official_taken(cands, p).contains(t) && !official_taken(cands, p - 1).contains(t) {
            assert(official_match(cands, p - 1));
        }
        if exists|p1: int|
            0 <= p1 < p && #[trigger] official_match(cands, p1) && official_target(cands, p1) == t {
            let p1 = choose|p1: int|
                0 <= p1 < p && #[trigger] official_match(cands, p1) && official_target(cands, p1)
                    == t;
            if p1 < p - 1 {
                assert(official_taken(cands, p - 1).contains(t));
            }
        }
    }
}

/// Targets go to predictions in index order: a prediction is an official true
/// positive exactly when it offers a candidate and no earlier true positive
/// took that candidate's target.
pub proof fn law_official_match_in_prediction_order(cands: Seq<(usize, usize, u64)>, p: int)
    requires
        0 <= p,
    ensures
        official_match(cands, p) <==> (pred_choice(cands, p, cands.len() as int) is Some && forall|
            p1: int,
        |
            0 <= p1 < p && #[trigger] official_match(cands, p1) ==> official_target(cands, p1)
                != official_target(cands, p)),
{
    if pred_choice(cands, p, cands.len() as int) is Some {
        lemma_official_taken(cands, p, official_target(cands, p));
    }
}

/// The prediction a target takes: an eligible prediction not yet taken, with
/// no free eligible prediction of a larger key and none of an equal key
/// before it; nothing exactly when no eligible prediction is free.
pub proof fn law_target_takes_best_free_prediction(keys: Seq<Option<u64>>, taken: Set<usize>, n: int)
    requires
        0 <= n <= keys.len(),
        n <= usize::MAX + 1,
    ensures
        target_pick(keys, taken, n) is None <==> forall|j: int|
            0 <= j < n && (#[trigger] keys[j]) is Some ==> taken.contains(j as usize),
        target_pick(keys, taken, n) matches Some(p) ==> 0 <= p < n && keys[p] is Some
            && !taken.contains(p as usize) && forall|j: int|
            0 <= j < n && (#[trigger] keys[j]) is Some && !taken.contains(j as usize) ==> keys[j]->0
                <= keys[p]->0 && (keys[j]->0 == keys[p]->0 ==> p <= j),
    decreases n,
{
    if n > 0 {
        law_target_takes_best_free_prediction(keys, taken, n - 1);
    }
}

/// Uncounted targets take no prediction: two walks whose keys differ only at
/// targets that are not counted take the same predictions and match the
/// same number of targets.
pub proof fn law_uncounted_targets_take_nothing(
    counted: Seq<bool>,
    keys: Seq<Seq<Option<u64>>>,
    other_keys: Seq<Seq<Option<u64>>>,
    n: int,
)
    requires
        forall|t: int| 0 <= t < n && #[trigger] counted[t] ==> keys[t] == other_keys[t],
    ensures
        target_walk(counted, keys, n) == target_walk(counted, other_keys, n),
    decreases n,
{
    if n > 0 {
        law_uncounted_targets_take_nothing(counted, keys, other_keys, n - 1);
        if counted[n - 1] {
            assert(keys[n - 1] == other_keys[n - 1]);
        }
    }
}

/// The greedy step takes the best candidate: no candidate has a larger key,
/// and none with an equal key comes before it.
pub proof fn law_top_position_is_first_largest(s: Seq<(usize, usize, u64)>)
    requires
        s.len() > 0,
    ensures
        0 <= top_position(s) < s.len(),
        forall|j: int|
            0 <= j < s.len() ==> (#[trigger] s[j]).2 <= s[top_position(s)].2 && (s[j].2
                == s[top_position(s)].2 ==> top_position(s) <= j),
    decreases s.len(),
{
    lemma_top_position_bounds(s);
    if s.len() > 1 {
        law_top_position_is_first_largest(s.drop_last());
        let d = s.drop_last();
        assert forall|j: int| 0 <= j < s.len() implies (#[trigger] s[j]).2 <= s[top_position(s)].2
            && (s[j].2 == s[top_position(s)].2 ==> top_position(s) <= j) by {
            if j < s.len() - 1 {
                assert(s[j] == d[j]);
            }
            assert(s[top_position(d)] == d[top_position(d)]);
        }
    }
}

proof fn lemma_remove_member(s: Seq<(usize, usize, u64)>, p: int, i: int)
    requires
        0 <= p < s.len(),
        0 <= i < s.remove(p).len(),
    ensures
        s.contains(s.remove(p)[i]),
        i < p ==> s.remove(p)[i] == s[i],
        i >= p ==> s.remove(p)[i] == s[i + 1],
{
    if i < p {
        assert(s.remove(p)[i] == s[i]);
    } else {
        assert(s.remove(p)[i] == s[i + 1]);
    }
}

proof fn lemma_greedy_shape(
    s: Seq<(usize, usize, u64)>,
    used_preds: Set<usize>,
    used_targets: Set<usize>,
)
    ensures
        ({
            let g = greedy_from(s, used_preds, used_targets);
            &&& forall|q: int| 0 <= q < g.len() ==> s.contains(#[trigger] g[q])
            &&& forall|q: int, r: int| 0 <= q < r < g.len() ==> (#[trigger] g[q]).2 >= (#[trigger] g[r]).2
            &&& forall|j: int|
                0 <= j < s.len() ==> used_preds.contains((#[trigger] s[j]).0) || used_targets.contains(
                    s[j].1,
                ) || exists|q: int| 0 <= q < g.len() && ((#[trigger] g[q]).0 == s[j].0 || g[q].1 == s[j].1)
        }),
    decreases s.len(),
{
    if s.len() > 0 {
        law_top_position_is_first_largest(s);
        let p = top_position(s);
        let x = s[p];
        let rest = s.remove(p);
        let g = greedy_from(s, used_preds, used_targets);
        if used_preds.contains(x.0) || used_targets.contains(x.1) {
            lemma_greedy_shape(rest, used_preds, used_targets);
            assert(g == greedy_from(rest, used_preds, used_targets));
            assert forall|q: int| 0 <= q < g.len() implies s.contains(#[trigger] g[q]) by {
                assert(rest.contains(g[q]));
                let i = choose|i: int| 0 <= i < rest.len() && rest[i] == g[q];
                lemma_remove_member(s, p, i);
            }
            assert forall|j: int| 0 <= j < s.len() implies used_preds.contains((#[trigger] s[j]).0)
                || used_targets.contains(s[j].1) || exists|q: int|
                0 <= q < g.len() && ((#[trigger] g[q]).0 == s[j].0 || g[q].1 == s[j].1) by {
                if j < p {
                    lemma_remove_member(s, p, j);
                    assert(rest[j] == s[j]);
                } else if j > p {
                    lemma_remove_member(s, p, j - 1);
                    assert(rest[j - 1] == s[j]);
                }
            }
        } else {
            let up = used_preds.insert(x.0);
            let ut = used_targets.insert(x.1);
            lemma_greedy_shape(rest, up, ut);
            let tail = greedy_from(rest, up, ut);
            assert(g == seq![x] + tail);
            assert forall|q: int| 0 <= q < g.len() implies s.contains(#[trigger] g[q]) by {
                if q == 0 {
                    assert(g[q] == s[p]);
                } else {
                    assert(g[q] == tail[q - 1]);
                    assert(rest.contains(tail[q - 1]));
                    let i = choose|i: int| 0 <= i < rest.len() && rest[i] == tail[q - 1];
                    lemma_remove_member(s, p, i);
                }
            }
            assert forall|q: int, r: int| 0 <= q < r < g.len() implies (#[trigger] g[q]).2 >= (
            #[trigger] g[r]).2 by {
                assert(g[r] == tail[r - 1]);
                if q == 0 {
                    assert(rest.contains(tail[r - 1]));
                    let i = choose|i: int| 0 <= i < rest.len() && rest[i] == tail[r - 1];
                    lemma_remove_member(s, p, i);
                    if i < p {
                        assert(s[i].2 <= x.2);
                    } else {
                        assert(s[i + 1].2 <= x.2);
                    }
                } else {
                    assert(g[q] == tail[q - 1]);
                }
            }
            assert forall|j: int| 0 <= j < s.len() implies used_preds.contains((#[trigger] s[j]).0)
                || used_targets.contains(s[j].1) || exists|q: int|
                0 <= q < g.len() && ((#[trigger] g[q]).0 == s[j].0 || g[q].1 == s[j].1) by {
                if j == p {
                    assert(g[0] == s[j]);
                } else {
                    let i = if j < p {
                        j
                    } else {
                        j - 1
                    };
                    lemma_remove_member(s, p, i);
                    assert(rest[i] == s[j]);
                    if up.contains(s[j].0) && !used_preds.contains(s[j].0) {
                        assert(g[0].0 == s[j].0);
                    } else if ut.contains(s[j].1) && !used_targets.contains(s[j].1) {
                        assert(g[0].1 == s[j].1);
                    } else if !used_preds.contains(s[j].0) && !used_targets.contains(s[j].1) {
                        let q = choose|q: int|
                            0 <= q < tail.len() && ((#[trigger] tail[q]).0 == rest[i].0 || tail[q].1
                                == rest[i].1);
                        assert(g[q + 1] == tail[q]);
                    }
                }
            }
        }
    }
}

/// The greedy matching takes candidates from the list, best key first, and
/// leaves none that it could still take: every candidate shares its
/// prediction or its target with a matched pair.
pub proof fn law_greedy_matching_is_maximal_best_first(cands: Seq<(usize, usize, u64)>)
    ensures
        ({
            let g = greedy_matching(cands);
            &&& forall|q: int| 0 <= q < g.len() ==> cands.contains(#[trigger] g[q])
            &&& forall|q: int, r: int| 0 <= q < r < g.len() ==> (#[trigger] g[q]).2 >= (#[trigger] g[r]).2
            &&& forall|j: int|
                0 <= j < cands.len() ==> exists|q: int|
                    0 <= q < g.len() && ((#[trigger] g[q]).0 == (#[trigger] cands[j]).0 || g[q].1
                        == cands[j].1)
        }),
{
    lemma_greedy_shape(cands, Set::empty(), Set::empty());
    let g = greedy_matching(cands);
    assert forall|j: int| 0 <= j < cands.len() implies exists|q: int|
        0 <= q < g.len() && ((#[trigger] g[q]).0 == (#[trigger] cands[j]).0 || g[q].1 == cands[j].1) by {
        assert(!Set::<usize>::empty().contains(cands[j].0));
        assert(!Set::<usize>::empty().contains(cands[j].1));
    }
}

} // verus!
