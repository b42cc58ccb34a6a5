//! Task-aligned assignment of anchors to ground-truth objects.
//!
//! Every (object, anchor) pair is a candidate carrying an alignment metric, an
//! IoU overlap and whether the anchor center lies inside the object's box.
//! Metrics and overlaps enter as order keys: integers that compare as the
//! measured values do. Assignment runs in three steps:
//!
//! 1. each object claims its `primary` best in-box candidates, ranked by
//!    metric (larger first), then anchor (smaller first), then input position;
//! 2. an anchor claimed by one object goes to it; an anchor claimed by several
//!    goes to the candidate of that anchor with the largest overlap, ties going
//!    to the smaller object index;
//! 3. when `secondary < primary`, an object that won more than `secondary`
//!    anchors keeps its `secondary` best by metric, then anchor.
//!
//! The result lists, object by object, the first candidate of every kept
//! (object, anchor) pair.
use vstd::prelude::*;

verus! {

/// One anchor considered for one ground-truth object.
#[derive(Debug, Clone, Copy, PartialEq, Eq, Structural)]
pub struct AssignmentCandidate {
    /// Image of the batch.
    pub batch_idx: usize,
    /// Object slot within the image.
    pub object_idx: usize,
    /// Anchor index.
    pub anchor_idx: usize,
    /// Order key of the alignment metric: a larger key is a larger metric.
    pub metric_key: u64,
    /// Order key of the IoU overlap: a larger key is a larger overlap.
    pub overlap_key: u64,
    /// The anchor center lies inside the object's box.
    pub in_gt: bool,
}

/// Number of candidates each object claims first: `tal_topk`, at least one.
pub open spec fn primary_topk(tal_topk: nat) -> nat {
    if tal_topk < 1 {
        1
    } else {
        tal_topk
    }
}

/// Number of anchors an object keeps at most after conflicts: `tal_topk2`
/// (default `tal_topk`), at least one and at most the primary count.
pub open spec fn secondary_topk(tal_topk: nat, tal_topk2: Option<usize>) -> nat {
    let requested: nat = match tal_topk2 {
        Some(k) => k as nat,
        None => tal_topk,
    };
    let at_least_one: nat = if requested < 1 {
        1
    } else {
        requested
    };
    if at_least_one < primary_topk(tal_topk) {
        at_least_one
    } else {
        primary_topk(tal_topk)
    }
}

/// Primary top-k of the task-aligned assigner.
pub fn tal_primary_topk(tal_topk: usize) -> (r: usize)
    ensures
        r == primary_topk(tal_topk as nat),
{
    if tal_topk < 1 {
        1
    } else {
        tal_topk
    }
}

/// Secondary top-k of the task-aligned assigner.
pub fn tal_secondary_topk(tal_topk: usize, tal_topk2: Option<usize>) -> (r: usize)
    ensures
        r == secondary_topk(tal_topk as nat, tal_topk2),
{
    let requested = match tal_topk2 {
        Some(k) => k,
        None => tal_topk,
    };
    let at_least_one = if requested < 1 {
        1
    } else {
        requested
    };
    let primary = tal_primary_topk(tal_topk);
    if at_least_one < primary {
        at_least_one
    } else {
        primary
    }
}

/// `x` ranks ahead of `y`: larger metric key, then smaller anchor, then
/// smaller tie-break position. Entries are `(metric key, anchor, position)`.
pub open spec fn ranks_before(x: (u64, usize, usize), y: (u64, usize, usize)) -> bool {
    ||| x.0 > y.0
    ||| (x.0 == y.0 && x.1 < y.1)
    ||| (x.0 == y.0 && x.1 == y.1 && x.2 < y.2)
}

/// Position of the best-ranked entry; the earliest one if none ranks ahead.
pub open spec fn best_position(s: Seq<(u64, usize, usize)>) -> int
    decreases s.len(),
{
    if s.len() <= 1 {
        0
    } else {
        let p = best_position(s.drop_last());
        if ranks_before(s.last(), s[p]) {
            s.len() - 1
        } else {
            p
        }
    }
}

/// The `k` best-ranked entries, best first: the best entry, then the
/// `k - 1` best of the others.
pub open spec fn top_ranked(s: Seq<(u64, usize, usize)>, k: nat) -> Seq<(u64, usize, usize)>
    decreases k,
{
    if k == 0 || s.len() == 0 {
        Seq::empty()
    } else {
        let p = best_position(s);
        seq![s[p]] + top_ranked(s.remove(p), (k - 1) as nat)
    }
}

/// Object key of a candidate: its row `batch_idx * max_objects + object_idx`.
pub open spec fn object_key(c: AssignmentCandidate, max_objects: nat) -> int {
    c.batch_idx * max_objects + c.object_idx
}

/// Ranked entries of the in-box candidates of object row `key` among the
/// first `n` candidates, in input order.
pub open spec fn inside_entries(
    c: Seq<AssignmentCandidate>,
    max_objects: nat,
    key: int,
    n: int,
) -> Seq<(u64, usize, usize)>
    decreases n,
{
    if n <= 0 {
        Seq::empty()
    } else {
        let rest = inside_entries(c, max_objects, key, n - 1);
        let x = c[n - 1];
        if x.in_gt && object_key(x, max_objects) == key {
            rest.push((x.metric_key, x.anchor_idx, (n - 1) as usize))
        } else {
            rest
        }
    }
}

/// The candidates that object row `key` claims in the first step.
pub open spec fn primary_picks(
    c: Seq<AssignmentCandidate>,
    max_objects: nat,
    primary: nat,
    key: int,
) -> Seq<(u64, usize, usize)> {
    top_ranked(inside_entries(c, max_objects, key, c.len() as int), primary)
}

/// Object row `key` claims `anchor` in the first step.
pub open spec fn claims(
    c: Seq<AssignmentCandidate>,
    max_objects: nat,
    primary: nat,
    key: int,
    anchor: int,
) -> bool {
    exists|q: int|
        0 <= q < primary_picks(c, max_objects, primary, key).len() && (#[trigger] primary_picks(
            c,
            max_objects,
            primary,
            key,
        )[q]).1 == anchor
}

/// Number of objects `o < n` of image `b` claiming `anchor`.
pub open spec fn claim_count(
    c: Seq<AssignmentCandidate>,
    max_objects: nat,
    primary: nat,
    b: int,
    anchor: int,
    n: int,
) -> nat
    decreases n,
{
    if n <= 0 {
        0
    } else {
        claim_count(c, max_objects, primary, b, anchor, n - 1) + if claims(
            c,
            max_objects,
            primary,
            b * max_objects + n - 1,
            anchor,
        ) {
            1nat
        } else {
            0nat
        }
    }
}

/// The last object `o < n` of image `b` claiming `anchor`.
pub open spec fn last_claim(
    c: Seq<AssignmentCandidate>,
    max_objects: nat,
    primary: nat,
    b: int,
    anchor: int,
    n: int,
) -> Option<usize>
    decreases n,
{
    if n <= 0 {
        None
    } else if claims(c, max_objects, primary, b * max_objects + n - 1, anchor) {
        Some((n - 1) as usize)
    } else {
        last_claim(c, max_objects, primary, b, anchor, n - 1)
    }
}

/// Largest overlap among the first `n` candidates of image `b` at `anchor`,
/// with its object; on equal overlaps the smaller object, and on equal pairs
/// the later candidate.
pub open spec fn overlap_best(c: Seq<AssignmentCandidate>, b: int, anchor: int, n: int) -> Option<
    (u64, usize),
>
    decreases n,
{
    if n <= 0 {
        None
    } else {
        let prev = overlap_best(c, b, anchor, n - 1);
        let x = c[n - 1];
        if x.batch_idx == b && x.anchor_idx == anchor {
            match prev {
                None => Some((x.overlap_key, x.object_idx)),
                Some(best) => if x.overlap_key > best.0 || (x.overlap_key == best.0 && x.object_idx
                    <= best.1) {
                    Some((x.overlap_key, x.object_idx))
                } else {
                    prev
                },
            }
        } else {
            prev
        }
    }
}

/// The object that wins `anchor` of image `b`: none without claims, the only
/// claimant, or the best overlap when several objects claim it.
pub open spec fn winner(
    c: Seq<AssignmentCandidate>,
    max_objects: nat,
    primary: nat,
    b: int,
    anchor: int,
) -> Option<usize> {
    let count = claim_count(c, max_objects, primary, b, anchor, max_objects as int);
    if count == 0 {
        None
    } else if count == 1 {
        last_claim(c, max_objects, primary, b, anchor, max_objects as int)
    } else {
        match overlap_best(c, b, anchor, c.len() as int) {
            Some(best) => Some(best.1),
            None => None,
        }
    }
}

/// Anchors `a < n` of image `b` won by object `o`, in increasing order.
pub open spec fn won_anchors(
    c: Seq<AssignmentCandidate>,
    max_objects: nat,
    primary: nat,
    b: int,
    o: int,
    n: int,
) -> Seq<usize>
    decreases n,
{
    if n <= 0 {
        Seq::empty()
    } else {
        let rest = won_anchors(c, max_objects, primary, b, o, n - 1);
        if winner(c, max_objects, primary, b, n - 1) == Some(o as usize) {
            rest.push((n - 1) as usize)
        } else {
            rest
        }
    }
}

/// Position of the first candidate at or after `i` for `(b, o, anchor)`.
pub open spec fn first_match_from(
    c: Seq<AssignmentCandidate>,
    b: int,
    o: int,
    anchor: int,
    i: int,
) -> Option<usize>
    decreases c.len() - i,
{
    if i < 0 || i >= c.len() {
        None
    } else if c[i].batch_idx == b && c[i].object_idx == o && c[i].anchor_idx == anchor {
        Some(i as usize)
    } else {
        first_match_from(c, b, o, anchor, i + 1)
    }
}

/// Metric key of the first candidate for `(b, o, anchor)`, 0 without one.
pub open spec fn metric_of(c: Seq<AssignmentCandidate>, b: int, o: int, anchor: int) -> u64 {
    match first_match_from(c, b, o, anchor, 0) {
        Some(i) => c[i as int].metric_key,
        None => 0,
    }
}

/// Ranked entries `(metric, anchor, anchor)` of a list of anchors of `(b, o)`.
pub open spec fn anchor_entries(c: Seq<AssignmentCandidate>, b: int, o: int, anchors: Seq<usize>) -> Seq<
    (u64, usize, usize),
> {
    Seq::new(anchors.len(), |q: int| (metric_of(c, b, o, anchors[q] as int), anchors[q], anchors[q]))
}

/// Anchors kept by object `o` of image `b`: the won anchors, cut down to the
/// `secondary` best when the secondary count is below the primary one.
pub open spec fn kept_anchors(
    c: Seq<AssignmentCandidate>,
    anchors_len: nat,
    max_objects: nat,
    primary: nat,
    secondary: nat,
    b: int,
    o: int,
) -> Seq<usize> {
    let won = won_anchors(c, max_objects, primary, b, o, anchors_len as int);
    if secondary < primary && won.len() > secondary {
        top_ranked(anchor_entries(c, b, o, won), secondary).map_values(
            |e: (u64, usize, usize)| e.1,
        )
    } else {
        won
    }
}

/// First candidates of `(b, o, anchor)` for the listed anchors, skipping
/// anchors without one.
pub open spec fn matched_candidates(
    c: Seq<AssignmentCandidate>,
    b: int,
    o: int,
    anchors: Seq<usize>,
) -> Seq<usize>
    decreases anchors.len(),
{
    if anchors.len() == 0 {
        Seq::empty()
    } else {
        let rest = matched_candidates(c, b, o, anchors.drop_last());
        match first_match_from(c, b, o, anchors.last() as int, 0) {
            Some(i) => rest.push(i),
            None => rest,
        }
    }
}

/// The assignment of the first `rows` object rows, row by row.
pub open spec fn resolved_rows(
    c: Seq<AssignmentCandidate>,
    anchors_len: nat,
    max_objects: nat,
    primary: nat,
    secondary: nat,
    rows: int,
) -> Seq<usize>
    decreases rows,
{
    if rows <= 0 || max_objects == 0 {
        Seq::empty()
    } else {
        let b = (rows - 1) / (max_objects as int);
        let o = (rows - 1) % (max_objects as int);
        resolved_rows(c, anchors_len, max_objects, primary, secondary, rows - 1)
            + matched_candidates(
            c,
            b,
            o,
            kept_anchors(c, anchors_len, max_objects, primary, secondary, b, o),
        )
    }
}

/// Every candidate lies within the batch, object and anchor ranges.
pub open spec fn candidates_in_range(
    c: Seq<AssignmentCandidate>,
    batch: nat,
    anchors_len: nat,
    max_objects: nat,
) -> bool {
    forall|i: int|
        0 <= i < c.len() ==> {
            &&& (#[trigger] c[i]).batch_idx < batch
            &&& c[i].object_idx < max_objects
            &&& c[i].anchor_idx < anchors_len
        }
}

proof fn lemma_best_position_bounds(s: Seq<(u64, usize, usize)>)
    requires
        s.len() > 0,
    ensures
        0 <= best_position(s) < s.len(),
    decreases s.len(),
{
    if s.len() > 1 {
        lemma_best_position_bounds(s.drop_last());
    }
}

proof fn lemma_top_ranked_members(s: Seq<(u64, usize, usize)>, k: nat)
    ensures
        top_ranked(s, k).len() <= s.len(),
        forall|q: int|
            0 <= q < top_ranked(s, k).len() ==> s.contains(#[trigger] top_ranked(s, k)[q]),
    decreases k,
{
    if k > 0 && s.len() > 0 {
        let p = best_position(s);
        lemma_best_position_bounds(s);
        let rest = s.remove(p);
        lemma_top_ranked_members(rest, (k - 1) as nat);
        assert forall|q: int| 0 <= q < top_ranked(s, k).len() implies s.contains(
            #[trigger] top_ranked(s, k)[q],
        ) by {
            if q == 0 {
                assert(top_ranked(s, k)[q] == s[p]);
            } else {
                assert(top_ranked(s, k)[q] == top_ranked(rest, (k - 1) as nat)[q - 1]);
                let e = top_ranked(rest, (k - 1) as nat)[q - 1];
                assert(rest.contains(e));
                let j = choose|j: int| 0 <= j < rest.len() && rest[j] == e;
                if j < p {
                    assert(s[j] == e);
                } else {
                    assert(s[j + 1] == e);
                }
            }
        }
    }
}

proof fn lemma_inside_entries_range(
    c: Seq<AssignmentCandidate>,
    max_objects: nat,
    anchors_len: nat,
    key: int,
    n: int,
)
    requires
        n <= c.len(),
        forall|i: int| 0 <= i < c.len() ==> (#[trigger] c[i]).anchor_idx < anchors_len,
    ensures
        forall|q: int|
            0 <= q < inside_entries(c, max_objects, key, n).len() ==> (#[trigger] inside_entries(
                c,
                max_objects,
                key,
                n,
            )[q]).1 < anchors_len,
    decreases n,
{
    if n > 0 {
        lemma_inside_entries_range(c, max_objects, anchors_len, key, n - 1);
        let x = c[n - 1];
        assert(x.anchor_idx < anchors_len);
        let rest = inside_entries(c, max_objects, key, n - 1);
        let all = inside_entries(c, max_objects, key, n);
        assert forall|q: int| 0 <= q < all.len() implies (#[trigger] all[q]).1 < anchors_len by {
            if q < rest.len() {
                assert(all[q] == rest[q]);
            }
        }
    }
}

fn ranks_before_exec(x: (u64, usize, usize), y: (u64, usize, usize)) -> (r: bool)
    ensures
        r == ranks_before(x, y),
{
    x.0 > y.0 || (x.0 == y.0 && x.1 < y.1) || (x.0 == y.0 && x.1 == y.1 && x.2 < y.2)
}

fn best_ranked_position(s: &Vec<(u64, usize, usize)>) -> (p: usize)
    requires
        s@.len() > 0,
    ensures
        p == best_position(s@),
        p < s@.len(),
{
    let mut p: usize = 0;
    let mut i: usize = 1;
    assert(s@.take(1).len() == 1);
    while i < s.len()
        invariant
            1 <= i <= s@.len(),
            p < i,
            p == best_position(s@.take(i as int)),
        decreases s.len() - i,
    {
        let ghost t = s@.take(i + 1);
        assert(t.drop_last() =~= s@.take(i as int));
        assert(t.last() == s@[i as int]);
        assert(t[p as int] == s@[p as int]);
        if ranks_before_exec(s[i], s[p]) {
            p = i;
        }
        i = i + 1;
    }
    assert(s@.take(i as int) =~= s@);
    p
}

/// The `k` best-ranked entries of `items`, best first.
fn take_top_ranked(items: &Vec<(u64, usize, usize)>, k: usize) -> (r: Vec<(u64, usize, usize)>)
    ensures
        r@ == top_ranked(items@, k as nat),
{
    let mut remaining: Vec<(u64, usize, usize)> = Vec::new();
    let mut i: usize = 0;
    while i < items.len()
        invariant
            i <= items@.len(),
            remaining@ == items@.take(i as int),
        decreases items.len() - i,
    {
        remaining.push(items[i]);
        assert(items@.take(i + 1) =~= items@.take(i as int).push(items@[i as int]));
        i = i + 1;
    }
    assert(items@.take(i as int) =~= items@);
    let mut out: Vec<(u64, usize, usize)> = Vec::new();
    let mut left: usize = k;
    while left > 0 && remaining.len() > 0
        invariant
            out@ + top_ranked(remaining@, left as nat) == top_ranked(items@, k as nat),
        decreases left,
    {
        let p = best_ranked_position(&remaining);
        let ghost before = remaining@;
        let x = remaining.remove(p);
        assert(top_ranked(before, left as nat) == seq![x] + top_ranked(
            remaining@,
            (left - 1) as nat,
        ));
        assert(out@.push(x) + top_ranked(remaining@, (left - 1) as nat) =~= out@ + (seq![x]
            + top_ranked(remaining@, (left - 1) as nat)));
        out.push(x);
        left = left - 1;
    }
    assert(top_ranked(remaining@, left as nat) =~= Seq::<(u64, usize, usize)>::empty());
    assert(out@ + Seq::<(u64, usize, usize)>::empty() =~= out@);
    out
}


proof fn lemma_row_index(b: int, o: int, batch: int, max_objects: int)
    by (nonlinear_arith)
    requires
        0 <= b < batch,
        0 <= o < max_objects,
    ensures
        0 <= b * max_objects + o < batch * max_objects,
{
}

proof fn lemma_row_split(k: int, batch: int, max_objects: int)
    requires
        0 <= k < batch * max_objects,
        max_objects > 0,
    ensures
        0 <= k / max_objects < batch,
        0 <= k % max_objects < max_objects,
        (k / max_objects) * max_objects + k % max_objects == k,
{
    vstd::arithmetic::div_mod::lemma_fundamental_div_mod(k, max_objects);
    assert((k / max_objects) * max_objects == max_objects * (k / max_objects)) by (nonlinear_arith);
    assert(0 <= k % max_objects < max_objects) by {
        vstd::arithmetic::div_mod::lemma_mod_pos_bound(k, max_objects);
    }
    assert(0 <= k / max_objects < batch) by (nonlinear_arith)
        requires
            0 <= k < batch * max_objects,
            max_objects > 0,
            k == max_objects * (k / max_objects) + k % max_objects,
            0 <= k % max_objects < max_objects,
    ;
}

/// In-box ranked entries of every object row, in input order.
fn inside_groups(c: &Vec<AssignmentCandidate>, rows: usize, max_objects: usize) -> (g: Vec<
    Vec<(u64, usize, usize)>,
>)
    requires
        forall|i: int|
            0 <= i < c@.len() ==> 0 <= object_key(#[trigger] c@[i], max_objects as nat) < rows,
    ensures
        g@.len() == rows,
        forall|k: int|
            0 <= k < rows ==> (#[trigger] g@[k])@ == inside_entries(
                c@,
                max_objects as nat,
                k,
                c@.len() as int,
            ),
{
    let mut g: Vec<Vec<(u64, usize, usize)>> = Vec::new();
    let mut k: usize = 0;
    while k < rows
        invariant
            k <= rows,
            g@.len() == k,
            forall|j: int| 0 <= j < k ==> (#[trigger] g@[j])@ == Seq::<(u64, usize, usize)>::empty(),
        decreases rows - k,
    {
        g.push(Vec::new());
        k = k + 1;
    }
    let mut i: usize = 0;
    while i < c.len()
        invariant
            i <= c@.len(),
            g@.len() == rows,
            forall|j: int|
                0 <= j < c@.len() ==> 0 <= object_key(#[trigger] c@[j], max_objects as nat) < rows,
            forall|j: int|
                0 <= j < rows ==> (#[trigger] g@[j])@ == inside_entries(
                    c@,
                    max_objects as nat,
                    j,
                    i as int,
                ),
        decreases c.len() - i,
    {
        let x = c[i];
        if x.in_gt {
            assert(0 <= object_key(c@[i as int], max_objects as nat) < rows);
            let key = x.batch_idx * max_objects + x.object_idx;
            let ghost before = g@;
            g[key].push((x.metric_key, x.anchor_idx, i));
            assert forall|j: int| 0 <= j < rows implies (#[trigger] g@[j])@ == inside_entries(
                c@,
                max_objects as nat,
                j,
                i + 1,
            ) by {
                if j != key {
                    assert(g@[j] == before[j]);
                }
            }
        }
        i = i + 1;
    }
    g
}

/// Which anchors each object row claims in the first step.
fn primary_claims(
    c: &Vec<AssignmentCandidate>,
    groups: &Vec<Vec<(u64, usize, usize)>>,
    anchors_len: usize,
    max_objects: usize,
    primary: usize,
) -> (pos: Vec<Vec<bool>>)
    requires
        forall|i: int| 0 <= i < c@.len() ==> (#[trigger] c@[i]).anchor_idx < anchors_len,
        forall|k: int|
            0 <= k < groups@.len() ==> (#[trigger] groups@[k])@ == inside_entries(
                c@,
                max_objects as nat,
                k,
                c@.len() as int,
            ),
    ensures
        pos@.len() == groups@.len(),
        forall|k: int| 0 <= k < pos@.len() ==> (#[trigger] pos@[k])@.len() == anchors_len,
        forall|k: int, a: int|
            0 <= k < pos@.len() && 0 <= a < anchors_len ==> (#[trigger] pos@[k]@[a]) == claims(
                c@,
                max_objects as nat,
                primary as nat,
                k,
                a,
            ),
{
    let mut pos: Vec<Vec<bool>> = Vec::new();
    let mut k: usize = 0;
    while k < groups.len()
        invariant
            k <= groups@.len(),
            pos@.len() == k,
            forall|i: int| 0 <= i < c@.len() ==> (#[trigger] c@[i]).anchor_idx < anchors_len,
            forall|j: int|
                0 <= j < groups@.len() ==> (#[trigger] groups@[j])@ == inside_entries(
                    c@,
                    max_objects as nat,
                    j,
                    c@.len() as int,
                ),
            forall|j: int| 0 <= j < k ==> (#[trigger] pos@[j])@.len() == anchors_len,
            forall|j: int, a: int|
                0 <= j < k && 0 <= a < anchors_len ==> (#[trigger] pos@[j]@[a]) == claims(
                    c@,
                    max_objects as nat,
                    primary as nat,
                    j,
                    a,
                ),
        decreases groups.len() - k,
    {
        let picks = take_top_ranked(&groups[k], primary);
        let ghost entries = inside_entries(c@, max_objects as nat, k as int, c@.len() as int);
        proof {
            lemma_top_ranked_members(entries, primary as nat);
            lemma_inside_entries_range(
                c@,
                max_objects as nat,
                anchors_len as nat,
                k as int,
                c@.len() as int,
            );
        }
        assert forall|t: int| 0 <= t < picks@.len() implies (#[trigger] picks@[t]).1
            < anchors_len by {
            assert(top_ranked(entries, primary as nat)[t] == picks@[t]);
            assert(entries.contains(picks@[t]));
            let j = choose|j: int| 0 <= j < entries.len() && entries[j] == picks@[t];
            assert(entries[j].1 < anchors_len);
        }
        let mut row: Vec<bool> = Vec::new();
        let mut a: usize = 0;
        while a < anchors_len
            invariant
                a <= anchors_len,
                row@.len() == a,
                forall|j: int| 0 <= j < a ==> row@[j] == false,
            decreases anchors_len - a,
        {
            row.push(false);
            a = a + 1;
        }
        let mut q: usize = 0;
        while q < picks.len()
            invariant
                q <= picks@.len(),
                picks@ == top_ranked(entries, primary as nat),
                row@.len() == anchors_len,
                forall|t: int| 0 <= t < picks@.len() ==> (#[trigger] picks@[t]).1 < anchors_len,
                forall|x: int|
                    0 <= x < anchors_len ==> (#[trigger] row@[x]) == exists|t: int|
                        0 <= t < q && (#[trigger] picks@[t]).1 == x,
            decreases picks.len() - q,
        {
            let anchor = picks[q].1;
            row.set(anchor, true);
            assert forall|x: int| 0 <= x < anchors_len implies (#[trigger] row@[x]) == exists|
                t: int,
            | 0 <= t < q + 1 && (#[trigger] picks@[t]).1 == x by {
                if x == anchor {
                    assert(picks@[q as int].1 == x);
                }
            }
            q = q + 1;
        }
        assert(picks@ == primary_picks(c@, max_objects as nat, primary as nat, k as int));
        assert forall|x: int| 0 <= x < anchors_len implies row@[x] == claims(
            c@,
            max_objects as nat,
            primary as nat,
            k as int,
            x,
        ) by {
            if row@[x] {
                let t = choose|t: int| 0 <= t < q && (#[trigger] picks@[t]).1 == x;
                assert(primary_picks(c@, max_objects as nat, primary as nat, k as int)[t].1 == x);
            } else if claims(c@, max_objects as nat, primary as nat, k as int, x) {
                let t = choose|t: int|
                    0 <= t < primary_picks(c@, max_objects as nat, primary as nat, k as int).len()
                        && (#[trigger] primary_picks(
                        c@,
                        max_objects as nat,
                        primary as nat,
                        k as int,
                    )[t]).1 == x;
                assert(picks@[t].1 == x);
            }
        }
        let ghost before = pos@;
        pos.push(row);
        assert forall|j: int, x: int| 0 <= j < k + 1 && 0 <= x < anchors_len implies (
        #[trigger] pos@[j]@[x]) == claims(c@, max_objects as nat, primary as nat, j, x) by {
            if j < k {
                assert(pos@[j] == before[j]);
            }
        }
        k = k + 1;
    }
    pos
}


/// Object of the largest-overlap candidate of image `b` at `anchor`.
fn overlap_winner(c: &Vec<AssignmentCandidate>, b: usize, anchor: usize) -> (r: Option<usize>)
    ensures
        r == match overlap_best(c@, b as int, anchor as int, c@.len() as int) {
            Some(best) => Some(best.1),
            None => None::<usize>,
        },
{
    let mut best: Option<(u64, usize)> = None;
    let mut i: usize = 0;
    while i < c.len()
        invariant
            i <= c@.len(),
            best == overlap_best(c@, b as int, anchor as int, i as int),
        decreases c.len() - i,
    {
        let x = c[i];
        if x.batch_idx == b && x.anchor_idx == anchor {
            best = match best {
                None => Some((x.overlap_key, x.object_idx)),
                Some(current) => if x.overlap_key > current.0 || (x.overlap_key == current.0
                    && x.object_idx <= current.1) {
                    Some((x.overlap_key, x.object_idx))
                } else {
                    best
                },
            };
        }
        i = i + 1;
    }
    match best {
        Some(found) => Some(found.1),
        None => None,
    }
}

/// The winning object of every anchor of every image.
fn anchor_winners(
    c: &Vec<AssignmentCandidate>,
    pos: &Vec<Vec<bool>>,
    batch: usize,
    anchors_len: usize,
    max_objects: usize,
    primary: usize,
) -> (fg: Vec<Vec<Option<usize>>>)
    requires
        batch * max_objects <= usize::MAX,
        pos@.len() == batch * max_objects,
        forall|k: int| 0 <= k < pos@.len() ==> (#[trigger] pos@[k])@.len() == anchors_len,
        forall|k: int, a: int|
            0 <= k < pos@.len() && 0 <= a < anchors_len ==> (#[trigger] pos@[k]@[a]) == claims(
                c@,
                max_objects as nat,
                primary as nat,
                k,
                a,
            ),
    ensures
        fg@.len() == batch,
        forall|b: int| 0 <= b < batch ==> (#[trigger] fg@[b])@.len() == anchors_len,
        forall|b: int, a: int|
            0 <= b < batch && 0 <= a < anchors_len ==> (#[trigger] fg@[b]@[a]) == winner(
                c@,
                max_objects as nat,
                primary as nat,
                b,
                a,
            ),
{
    let mut fg: Vec<Vec<Option<usize>>> = Vec::new();
    let mut b: usize = 0;
    while b < batch
        invariant
            b <= batch,
            fg@.len() == b,
            batch * max_objects <= usize::MAX,
            pos@.len() == batch * max_objects,
            forall|k: int| 0 <= k < pos@.len() ==> (#[trigger] pos@[k])@.len() == anchors_len,
            forall|k: int, a: int|
                0 <= k < pos@.len() && 0 <= a < anchors_len ==> (#[trigger] pos@[k]@[a])
                    == claims(c@, max_objects as nat, primary as nat, k, a),
            forall|j: int| 0 <= j < b ==> (#[trigger] fg@[j])@.len() == anchors_len,
            forall|j: int, a: int|
                0 <= j < b && 0 <= a < anchors_len ==> (#[trigger] fg@[j]@[a]) == winner(
                    c@,
                    max_objects as nat,
                    primary as nat,
                    j,
                    a,
                ),
        decreases batch - b,
    {
        let mut row: Vec<Option<usize>> = Vec::new();
        let mut a: usize = 0;
        while a < anchors_len
            invariant
                b < batch,
                a <= anchors_len,
                row@.len() == a,
                batch * max_objects <= usize::MAX,
            pos@.len() == batch * max_objects,
                forall|k: int| 0 <= k < pos@.len() ==> (#[trigger] pos@[k])@.len() == anchors_len,
                forall|k: int, x: int|
                    0 <= k < pos@.len() && 0 <= x < anchors_len ==> (#[trigger] pos@[k]@[x])
                        == claims(c@, max_objects as nat, primary as nat, k, x),
                forall|x: int|
                    0 <= x < a ==> (#[trigger] row@[x]) == winner(
                        c@,
                        max_objects as nat,
                        primary as nat,
                        b as int,
                        x,
                    ),
            decreases anchors_len - a,
        {
            let mut count: usize = 0;
            let mut last: Option<usize> = None;
            let mut o: usize = 0;
            while o < max_objects
                invariant
                    b < batch,
                    a < anchors_len,
                    o <= max_objects,
                    count <= o,
                    batch * max_objects <= usize::MAX,
            pos@.len() == batch * max_objects,
                    forall|k: int|
                        0 <= k < pos@.len() ==> (#[trigger] pos@[k])@.len() == anchors_len,
                    forall|k: int, x: int|
                        0 <= k < pos@.len() && 0 <= x < anchors_len ==> (#[trigger] pos@[k]@[x])
                            == claims(c@, max_objects as nat, primary as nat, k, x),
                    count == claim_count(
                        c@,
                        max_objects as nat,
                        primary as nat,
                        b as int,
                        a as int,
                        o as int,
                    ),
                    last == last_claim(
                        c@,
                        max_objects as nat,
                        primary as nat,
                        b as int,
                        a as int,
                        o as int,
                    ),
                decreases max_objects - o,
            {
                proof {
                    lemma_row_index(b as int, o as int, batch as int, max_objects as int);
                }
                let key = b * max_objects + o;
                if pos[key][a] {
                    count = count + 1;
                    last = Some(o);
                }
                o = o + 1;
            }
            let won = if count == 0 {
                None
            } else if count == 1 {
                last
            } else {
                overlap_winner(c, b, a)
            };
            row.push(won);
            a = a + 1;
        }
        let ghost before = fg@;
        fg.push(row);
        assert forall|j: int, x: int| 0 <= j < b + 1 && 0 <= x < anchors_len implies (
        #[trigger] fg@[j]@[x]) == winner(c@, max_objects as nat, primary as nat, j, x) by {
            if j < b {
                assert(fg@[j] == before[j]);
            }
        }
        b = b + 1;
    }
    fg
}

/// Position of the first candidate for `(b, o, anchor)`.
fn first_match(c: &Vec<AssignmentCandidate>, b: usize, o: usize, anchor: usize) -> (r: Option<
    usize,
>)
    ensures
        r == first_match_from(c@, b as int, o as int, anchor as int, 0),
        r matches Some(i) ==> i < c@.len(),
{
    let mut i: usize = 0;
    while i < c.len()
        invariant
            i <= c@.len(),
            first_match_from(c@, b as int, o as int, anchor as int, 0) == first_match_from(
                c@,
                b as int,
                o as int,
                anchor as int,
                i as int,
            ),
        decreases c.len() - i,
    {
        let x = c[i];
        if x.batch_idx == b && x.object_idx == o && x.anchor_idx == anchor {
            return Some(i);
        }
        i = i + 1;
    }
    None
}

/// Anchors of image `b` won by object `o`, in increasing order.
fn won_anchor_list(
    c: &Vec<AssignmentCandidate>,
    fg: &Vec<Vec<Option<usize>>>,
    b: usize,
    o: usize,
    anchors_len: usize,
    max_objects: usize,
    primary: usize,
) -> (r: Vec<usize>)
    requires
        b < fg@.len(),
        fg@[b as int]@.len() == anchors_len,
        forall|a: int|
            0 <= a < anchors_len ==> (#[trigger] fg@[b as int]@[a]) == winner(
                c@,
                max_objects as nat,
                primary as nat,
                b as int,
                a,
            ),
    ensures
        r@ == won_anchors(c@, max_objects as nat, primary as nat, b as int, o as int, anchors_len as int),
{
    let mut out: Vec<usize> = Vec::new();
    let mut a: usize = 0;
    while a < anchors_len
        invariant
            a <= anchors_len,
            b < fg@.len(),
            fg@[b as int]@.len() == anchors_len,
            forall|x: int|
                0 <= x < anchors_len ==> (#[trigger] fg@[b as int]@[x]) == winner(
                    c@,
                    max_objects as nat,
                    primary as nat,
                    b as int,
                    x,
                ),
            out@ == won_anchors(c@, max_objects as nat, primary as nat, b as int, o as int, a as int),
        decreases anchors_len - a,
    {
        if fg[b][a] == Some(o) {
            out.push(a);
        }
        a = a + 1;
    }
    out
}

/// Anchors kept by object `o` of image `b` after the secondary cut.
fn kept_anchor_list(
    c: &Vec<AssignmentCandidate>,
    fg: &Vec<Vec<Option<usize>>>,
    b: usize,
    o: usize,
    anchors_len: usize,
    max_objects: usize,
    primary: usize,
    secondary: usize,
) -> (r: Vec<usize>)
    requires
        b < fg@.len(),
        fg@[b as int]@.len() == anchors_len,
        forall|a: int|
            0 <= a < anchors_len ==> (#[trigger] fg@[b as int]@[a]) == winner(
                c@,
                max_objects as nat,
                primary as nat,
                b as int,
                a,
            ),
    ensures
        r@ == kept_anchors(
            c@,
            anchors_len as nat,
            max_objects as nat,
            primary as nat,
            secondary as nat,
            b as int,
            o as int,
        ),
{
    let won = won_anchor_list(c, fg, b, o, anchors_len, max_objects, primary);
    if secondary < primary && won.len() > secondary {
        let mut entries: Vec<(u64, usize, usize)> = Vec::new();
        let mut q: usize = 0;
        while q < won.len()
            invariant
                q <= won@.len(),
                entries@ =~= anchor_entries(c@, b as int, o as int, won@).take(q as int),
            decreases won.len() - q,
        {
            let anchor = won[q];
            let metric = match first_match(c, b, o, anchor) {
                Some(i) => c[i].metric_key,
                None => 0,
            };
            entries.push((metric, anchor, anchor));
            q = q + 1;
        }
        assert(entries@ =~= anchor_entries(c@, b as int, o as int, won@));
        let top = take_top_ranked(&entries, secondary);
        let mut kept: Vec<usize> = Vec::new();
        let mut t: usize = 0;
        while t < top.len()
            invariant
                t <= top@.len(),
                kept@ =~= top@.map_values(|e: (u64, usize, usize)| e.1).take(t as int),
            decreases top.len() - t,
        {
            kept.push(top[t].1);
            t = t + 1;
        }
        assert(kept@ =~= top@.map_values(|e: (u64, usize, usize)| e.1));
        kept
    } else {
        won
    }
}

/// Appends the first candidate of `(b, o, anchor)` for each listed anchor.
fn push_matched(
    c: &Vec<AssignmentCandidate>,
    b: usize,
    o: usize,
    anchors: &Vec<usize>,
    out: &mut Vec<usize>,
)
    ensures
        final(out)@ == old(out)@ + matched_candidates(c@, b as int, o as int, anchors@),
{
    let mut q: usize = 0;
    assert(anchors@.take(0) =~= Seq::<usize>::empty());
    assert(old(out)@ + Seq::<usize>::empty() =~= old(out)@);
    while q < anchors.len()
        invariant
            q <= anchors@.len(),
            out@ == old(out)@ + matched_candidates(c@, b as int, o as int, anchors@.take(q as int)),
        decreases anchors.len() - q,
    {
        let ghost prefix = anchors@.take(q + 1);
        assert(prefix.drop_last() =~= anchors@.take(q as int));
        assert(prefix.last() == anchors@[q as int]);
        match first_match(c, b, o, anchors[q]) {
            Some(i) => {
                assert(old(out)@ + matched_candidates(c@, b as int, o as int, prefix) =~= (old(
                    out,
                )@ + matched_candidates(c@, b as int, o as int, anchors@.take(q as int))).push(i));
                out.push(i);
            },
            None => {},
        }
        q = q + 1;
    }
    assert(anchors@.take(q as int) =~= anchors@);
}

/// Resolves task-aligned detection assignments: the positions, object by
/// object, of the candidates that end up assigned (see the module notes).
pub fn resolve_detection_assignments(
    candidates: &Vec<AssignmentCandidate>,
    batch: usize,
    anchors_len: usize,
    max_objects: usize,
    tal_topk: usize,
    tal_topk2: Option<usize>,
) -> (r: Vec<usize>)
    requires
        batch * max_objects <= usize::MAX,
        candidates_in_range(candidates@, batch as nat, anchors_len as nat, max_objects as nat),
    ensures
        r@ == resolved_rows(
            candidates@,
            anchors_len as nat,
            max_objects as nat,
            primary_topk(tal_topk as nat),
            secondary_topk(tal_topk as nat, tal_topk2),
            batch * max_objects,
        ),
        forall|q: int|
            0 <= q < r@.len() ==> 0 <= #[trigger] r@[q] < candidates@.len() && won_on_claims(
                candidates@,
                max_objects as nat,
                primary_topk(tal_topk as nat),
                candidates@[r@[q] as int],
            ),
{
    let primary = tal_primary_topk(tal_topk);
    let secondary = tal_secondary_topk(tal_topk, tal_topk2);
    let rows = batch * max_objects;
    assert forall|i: int| 0 <= i < candidates@.len() implies 0 <= object_key(
        #[trigger] candidates@[i],
        max_objects as nat,
    ) < rows by {
        lemma_row_index(
            candidates@[i].batch_idx as int,
            candidates@[i].object_idx as int,
            batch as int,
            max_objects as int,
        );
    }
    let groups = inside_groups(candidates, rows, max_objects);
    let pos = primary_claims(candidates, &groups, anchors_len, max_objects, primary);
    let fg = anchor_winners(candidates, &pos, batch, anchors_len, max_objects, primary);
    let mut out: Vec<usize> = Vec::new();
    let mut k: usize = 0;
    while k < rows
        invariant
            k <= rows,
            rows == batch * max_objects,
            fg@.len() == batch,
            forall|b: int| 0 <= b < batch ==> (#[trigger] fg@[b])@.len() == anchors_len,
            forall|b: int, a: int|
                0 <= b < batch && 0 <= a < anchors_len ==> (#[trigger] fg@[b]@[a]) == winner(
                    candidates@,
                    max_objects as nat,
                    primary as nat,
                    b,
                    a,
                ),
            out@ == resolved_rows(
                candidates@,
                anchors_len as nat,
                max_objects as nat,
                primary as nat,
                secondary as nat,
                k as int,
            ),
        decreases rows - k,
    {
        proof {
            assert(max_objects > 0) by (nonlinear_arith)
                requires
                    k < batch * max_objects,
                    0 <= k,
                    0 <= batch,
                    0 <= max_objects,
            ;
            lemma_row_split(k as int, batch as int, max_objects as int);
        }
        let b = k / max_objects;
        let o = k % max_objects;
        let kept = kept_anchor_list(
            candidates,
            &fg,
            b,
            o,
            anchors_len,
            max_objects,
            primary,
            secondary,
        );
        push_matched(candidates, b, o, &kept, &mut out);
        k = k + 1;
    }
    proof {
        assert(candidates@.len() == candidates.len());
        law_assigned_objects_follow_claims(
            candidates@,
            batch,
            anchors_len,
            max_objects,
            primary as nat,
            secondary as nat,
        );
    }
    out
}


/// Per-object statistics over assigned candidates: the largest overlap key
/// and the largest metric key, each at least the floor key.
#[derive(Debug, Clone, Copy, PartialEq, Eq, Structural)]
pub struct ObjectStats {
    /// Largest overlap key among the object's assigned candidates.
    pub pos_overlap: u64,
    /// Largest metric key among the object's assigned candidates.
    pub pos_metric: u64,
}

/// The larger of two keys.
pub open spec fn key_max(a: u64, b: u64) -> u64 {
    if a < b {
        b
    } else {
        a
    }
}

/// Statistics of object row `key` over the first `n` assigned candidates.
pub open spec fn object_stats_upto(
    c: Seq<AssignmentCandidate>,
    assigned: Seq<usize>,
    max_objects: nat,
    floor: u64,
    key: int,
    n: int,
) -> ObjectStats
    decreases n,
{
    if n <= 0 {
        ObjectStats { pos_overlap: floor, pos_metric: floor }
    } else {
        let prev = object_stats_upto(c, assigned, max_objects, floor, key, n - 1);
        let x = c[assigned[n - 1] as int];
        if object_key(x, max_objects) == key {
            ObjectStats {
                pos_overlap: key_max(prev.pos_overlap, x.overlap_key),
                pos_metric: key_max(prev.pos_metric, x.metric_key),
            }
        } else {
            prev
        }
    }
}

/// Largest overlap and metric keys of every object row over the assigned
/// candidates, starting from `floor` (the key of a zero measurement).
pub fn compute_object_stats(
    candidates: &Vec<AssignmentCandidate>,
    assigned: &Vec<usize>,
    batch: usize,
    max_objects: usize,
    floor: u64,
) -> (r: Vec<ObjectStats>)
    requires
        batch * max_objects <= usize::MAX,
        forall|q: int|
            0 <= q < assigned@.len() ==> {
                &&& (#[trigger] assigned@[q]) < candidates@.len()
                &&& candidates@[assigned@[q] as int].batch_idx < batch
                &&& candidates@[assigned@[q] as int].object_idx < max_objects
            },
    ensures
        r@.len() == batch * max_objects,
        forall|k: int|
            0 <= k < r@.len() ==> #[trigger] r@[k] == object_stats_upto(
                candidates@,
                assigned@,
                max_objects as nat,
                floor,
                k,
                assigned@.len() as int,
            ),
        forall|k: int|
            0 <= k < r@.len() ==> stats_are_maxima(
                candidates@,
                assigned@,
                max_objects as nat,
                floor,
                k,
                assigned@.len() as int,
                #[trigger] r@[k],
            ),
{
    let rows = batch * max_objects;
    let mut stats: Vec<ObjectStats> = Vec::new();
    let mut k: usize = 0;
    while k < rows
        invariant
            k <= rows,
            stats@.len() == k,
            forall|j: int|
                0 <= j < k ==> #[trigger] stats@[j] == (ObjectStats {
                    pos_overlap: floor,
                    pos_metric: floor,
                }),
        decreases rows - k,
    {
        stats.push(ObjectStats { pos_overlap: floor, pos_metric: floor });
        k = k + 1;
    }
    let mut q: usize = 0;
    while q < assigned.len()
        invariant
            q <= assigned@.len(),
            rows == batch * max_objects,
            stats@.len() == rows,
            forall|t: int|
                0 <= t < assigned@.len() ==> {
                    &&& (#[trigger] assigned@[t]) < candidates@.len()
                    &&& candidates@[assigned@[t] as int].batch_idx < batch
                    &&& candidates@[assigned@[t] as int].object_idx < max_objects
                },
            forall|j: int|
                0 <= j < rows ==> #[trigger] stats@[j] == object_stats_upto(
                    candidates@,
                    assigned@,
                    max_objects as nat,
                    floor,
                    j,
                    q as int,
                ),
        decreases assigned.len() - q,
    {
        let x = candidates[assigned[q]];
        proof {
            lemma_row_index(x.batch_idx as int, x.object_idx as int, batch as int, max_objects as int);
        }
        let key = x.batch_idx * max_objects + x.object_idx;
        let current = stats[key];
        let updated = ObjectStats {
            pos_overlap: if current.pos_overlap < x.overlap_key {
                x.overlap_key
            } else {
                current.pos_overlap
            },
            pos_metric: if current.pos_metric < x.metric_key {
                x.metric_key
            } else {
                current.pos_metric
            },
        };
        let ghost before = stats@;
        stats.set(key, updated);
        assert forall|j: int| 0 <= j < rows implies #[trigger] stats@[j] == object_stats_upto(
            candidates@,
            assigned@,
            max_objects as nat,
            floor,
            j,
            q + 1,
        ) by {
            if j != key {
                assert(stats@[j] == before[j]);
            }
        }
        q = q + 1;
    }
    assert forall|k: int| 0 <= k < stats@.len() implies stats_are_maxima(
        candidates@,
        assigned@,
        max_objects as nat,
        floor,
        k,
        assigned@.len() as int,
        #[trigger] stats@[k],
    ) by {
        law_object_stats_are_maxima(
            candidates@,
            assigned@,
            max_objects as nat,
            floor,
            k,
            assigned@.len() as int,
        );
    }
    stats
}


proof fn lemma_won_anchors_props(
    c: Seq<AssignmentCandidate>,
    max_objects: nat,
    primary: nat,
    b: int,
    o: int,
    n: int,
)
    requires
        n <= usize::MAX + 1,
    ensures
        ({
            let won = won_anchors(c, max_objects, primary, b, o, n);
            &&& forall|q: int|
                0 <= q < won.len() ==> (#[trigger] won[q]) < n && winner(
                    c,
                    max_objects,
                    primary,
                    b,
                    won[q] as int,
                ) == Some(o as usize)
            &&& forall|i: int, j: int| 0 <= i < j < won.len() ==> (#[trigger] won[i]) < (#[trigger] won[j])
        }),
    decreases n,
{
    if n > 0 {
        lemma_won_anchors_props(c, max_objects, primary, b, o, n - 1);
        let rest = won_anchors(c, max_objects, primary, b, o, n - 1);
        let won = won_anchors(c, max_objects, primary, b, o, n);
        if winner(c, max_objects, primary, b, n - 1) == Some(o as usize) {
            assert(won == rest.push((n - 1) as usize));
            assert forall|q: int| 0 <= q < won.len() implies (#[trigger] won[q]) < n && winner(
                c,
                max_objects,
                primary,
                b,
                won[q] as int,
            ) == Some(o as usize) by {
                if q < rest.len() {
                    assert(won[q] == rest[q]);
                }
            }
            assert forall|i: int, j: int| 0 <= i < j < won.len() implies (#[trigger] won[i]) < (
            #[trigger] won[j]) by {
                if j < rest.len() {
                    assert(won[i] == rest[i] && won[j] == rest[j]);
                } else {
                    assert(won[i] == rest[i]);
                }
            }
        }
    }
}

proof fn lemma_top_ranked_distinct(s: Seq<(u64, usize, usize)>, k: nat)
    requires
        forall|i: int, j: int| 0 <= i < j < s.len() ==> s[i] != s[j],
    ensures
        forall|i: int, j: int|
            0 <= i < j < top_ranked(s, k).len() ==> top_ranked(s, k)[i] != top_ranked(s, k)[j],
    decreases k,
{
    if k > 0 && s.len() > 0 {
        let p = best_position(s);
        lemma_best_position_bounds(s);
        let rest = s.remove(p);
        assert forall|i: int, j: int| 0 <= i < j < rest.len() implies rest[i] != rest[j] by {
            let si = if i < p {
                i
            } else {
                i + 1
            };
            let sj = if j < p {
                j
            } else {
                j + 1
            };
            assert(rest[i] == s[si]);
            assert(rest[j] == s[sj]);
        }
        lemma_top_ranked_distinct(rest, (k - 1) as nat);
        lemma_top_ranked_members(rest, (k - 1) as nat);
        let tail = top_ranked(rest, (k - 1) as nat);
        let top = top_ranked(s, k);
        assert forall|i: int, j: int| 0 <= i < j < top.len() implies top[i] != top[j] by {
            assert(top[j] == tail[j - 1]);
            if i > 0 {
                assert(top[i] == tail[i - 1]);
            } else {
                assert(rest.contains(tail[j - 1]));
                let t = choose|t: int| 0 <= t < rest.len() && rest[t] == tail[j - 1];
                if t < p {
                    assert(rest[t] == s[t]);
                } else {
                    assert(rest[t] == s[t + 1]);
                }
            }
        }
    }
}

proof fn lemma_top_ranked_len(s: Seq<(u64, usize, usize)>, k: nat)
    ensures
        top_ranked(s, k).len() <= k,
    decreases k,
{
    if k > 0 && s.len() > 0 {
        lemma_top_ranked_len(s.remove(best_position(s)), (k - 1) as nat);
    }
}

proof fn lemma_kept_anchors_props(
    c: Seq<AssignmentCandidate>,
    anchors_len: nat,
    max_objects: nat,
    primary: nat,
    secondary: nat,
    b: int,
    o: int,
)
    requires
        anchors_len <= usize::MAX,
    ensures
        ({
            let kept = kept_anchors(c, anchors_len, max_objects, primary, secondary, b, o);
            &&& forall|q: int|
                0 <= q < kept.len() ==> winner(c, max_objects, primary, b, (#[trigger] kept[q]) as int)
                    == Some(o as usize)
            &&& forall|i: int, j: int| 0 <= i < j < kept.len() ==> kept[i] != kept[j]
            &&& secondary < primary ==> kept.len() <= secondary
        }),
{
    let won = won_anchors(c, max_objects, primary, b, o, anchors_len as int);
    lemma_won_anchors_props(c, max_objects, primary, b, o, anchors_len as int);
    if secondary < primary && won.len() > secondary {
        let entries = anchor_entries(c, b, o, won);
        assert forall|i: int, j: int| 0 <= i < j < entries.len() implies entries[i] != entries[j] by {
            assert(won[i] < won[j]);
        }
        lemma_top_ranked_members(entries, secondary);
        lemma_top_ranked_distinct(entries, secondary);
        lemma_top_ranked_len(entries, secondary);
        let top = top_ranked(entries, secondary);
        let kept = top.map_values(|e: (u64, usize, usize)| e.1);
        assert forall|q: int| 0 <= q < kept.len() implies winner(
            c,
            max_objects,
            primary,
            b,
            (#[trigger] kept[q]) as int,
        ) == Some(o as usize) by {
            assert(entries.contains(top[q]));
            let t = choose|t: int| 0 <= t < entries.len() && entries[t] == top[q];
            assert(kept[q] == won[t]);
        }
        assert forall|i: int, j: int| 0 <= i < j < kept.len() implies kept[i] != kept[j] by {
            assert(entries.contains(top[i]));
            assert(entries.contains(top[j]));
            let ti = choose|t: int| 0 <= t < entries.len() && entries[t] == top[i];
            let tj = choose|t: int| 0 <= t < entries.len() && entries[t] == top[j];
            if kept[i] == kept[j] {
                assert(won[ti] == won[tj]);
                if ti < tj {
                    assert(won[ti] < won[tj]);
                } else if tj < ti {
                    assert(won[tj] < won[ti]);
                }
                assert(top[i] == top[j]);
            }
        }
    } else {
        let kept = won;
        assert forall|i: int, j: int| 0 <= i < j < kept.len() implies kept[i] != kept[j] by {
            assert(won[i] < won[j]);
        }
    }
}

proof fn lemma_first_match_props(c: Seq<AssignmentCandidate>, b: int, o: int, anchor: int, i: int)
    requires
        c.len() <= usize::MAX,
    ensures
        first_match_from(c, b, o, anchor, i) matches Some(k) ==> 0 <= k < c.len() && c[k as int].batch_idx
            == b && c[k as int].object_idx == o && c[k as int].anchor_idx == anchor,
    decreases c.len() - i,
{
    if 0 <= i < c.len() && !(c[i].batch_idx == b && c[i].object_idx == o && c[i].anchor_idx
        == anchor) {
        lemma_first_match_props(c, b, o, anchor, i + 1);
    }
}

proof fn lemma_matched_props(c: Seq<AssignmentCandidate>, b: int, o: int, anchors: Seq<usize>)
    requires
        c.len() <= usize::MAX,
    ensures
        ({
            let out = matched_candidates(c, b, o, anchors);
            &&& forall|q: int|
                0 <= q < out.len() ==> {
                    &&& 0 <= (#[trigger] out[q]) < c.len()
                    &&& c[out[q] as int].batch_idx == b
                    &&& c[out[q] as int].object_idx == o
                    &&& anchors.contains(c[out[q] as int].anchor_idx)
                }
            &&& (forall|i: int, j: int| 0 <= i < j < anchors.len() ==> anchors[i] != anchors[j])
                ==> forall|i: int, j: int|
                0 <= i < j < out.len() ==> c[out[i] as int].anchor_idx != c[out[j] as int].anchor_idx
        }),
    decreases anchors.len(),
{
    if anchors.len() > 0 {
        let front = anchors.drop_last();
        let a = anchors.last();
        lemma_matched_props(c, b, o, front);
        lemma_first_match_props(c, b, o, a as int, 0);
        let rest = matched_candidates(c, b, o, front);
        let out = matched_candidates(c, b, o, anchors);
        assert forall|x: usize| front.contains(x) implies anchors.contains(x) by {
            let k = choose|k: int| 0 <= k < front.len() && front[k] == x;
            assert(anchors[k] == x);
        }
        assert(anchors[anchors.len() - 1] == a);
        assert forall|q: int| 0 <= q < out.len() implies {
            &&& 0 <= (#[trigger] out[q]) < c.len()
            &&& c[out[q] as int].batch_idx == b
            &&& c[out[q] as int].object_idx == o
            &&& anchors.contains(c[out[q] as int].anchor_idx)
        } by {
            if q < rest.len() {
                assert(out[q] == rest[q]);
            }
        }
        if forall|i: int, j: int| 0 <= i < j < anchors.len() ==> anchors[i] != anchors[j] {
            assert forall|i: int, j: int| 0 <= i < j < front.len() implies front[i] != front[j] by {
                assert(front[i] == anchors[i] && front[j] == anchors[j]);
            }
            assert forall|i: int, j: int| 0 <= i < j < out.len() implies c[out[i] as int].anchor_idx
                != c[out[j] as int].anchor_idx by {
                if j < rest.len() {
                    assert(out[i] == rest[i] && out[j] == rest[j]);
                } else {
                    assert(out[i] == rest[i]);
                    assert(c[out[j] as int].anchor_idx == a);
                    assert(front.contains(c[rest[i] as int].anchor_idx));
                    let k = choose|k: int| 0 <= k < front.len() && front[k] == c[rest[i] as int].anchor_idx;
                    assert(anchors[k] != anchors[anchors.len() - 1]);
                }
            }
        }
    }
}

proof fn lemma_resolved_rows_props(
    c: Seq<AssignmentCandidate>,
    anchors_len: nat,
    max_objects: nat,
    primary: nat,
    secondary: nat,
    rows: int,
)
    requires
        c.len() <= usize::MAX,
        anchors_len <= usize::MAX,
        max_objects <= usize::MAX,
    ensures
        ({
            let out = resolved_rows(c, anchors_len, max_objects, primary, secondary, rows);
            &&& forall|q: int|
                0 <= q < out.len() ==> {
                    &&& 0 <= (#[trigger] out[q]) < c.len()
                    &&& object_key(c[out[q] as int], max_objects) < rows
                    &&& winner(
                        c,
                        max_objects,
                        primary,
                        c[out[q] as int].batch_idx as int,
                        c[out[q] as int].anchor_idx as int,
                    ) == Some(c[out[q] as int].object_idx)
                }
            &&& forall|i: int, j: int|
                0 <= i < j < out.len() ==> !(c[out[i] as int].batch_idx == c[out[j] as int].batch_idx
                    && c[out[i] as int].anchor_idx == c[out[j] as int].anchor_idx)
        }),
    decreases rows,
{
    if rows > 0 && max_objects > 0 {
        let m = max_objects as int;
        let b = (rows - 1) / m;
        let o = (rows - 1) % m;
        lemma_resolved_rows_props(c, anchors_len, max_objects, primary, secondary, rows - 1);
        lemma_kept_anchors_props(c, anchors_len, max_objects, primary, secondary, b, o);
        let kept = kept_anchors(c, anchors_len, max_objects, primary, secondary, b, o);
        lemma_matched_props(c, b, o, kept);
        let prev = resolved_rows(c, anchors_len, max_objects, primary, secondary, rows - 1);
        let new = matched_candidates(c, b, o, kept);
        let out = resolved_rows(c, anchors_len, max_objects, primary, secondary, rows);
        assert(out == prev + new);
        vstd::arithmetic::div_mod::lemma_fundamental_div_mod(rows - 1, m);
        assert(b * m == m * b) by (nonlinear_arith);
        assert(0 <= o < m) by {
            vstd::arithmetic::div_mod::lemma_mod_pos_bound(rows - 1, m);
        }
        assert forall|q: int| 0 <= q < out.len() implies {
            &&& 0 <= (#[trigger] out[q]) < c.len()
            &&& object_key(c[out[q] as int], max_objects) < rows
            &&& winner(
                c,
                max_objects,
                primary,
                c[out[q] as int].batch_idx as int,
                c[out[q] as int].anchor_idx as int,
            ) == Some(c[out[q] as int].object_idx)
        } by {
            if q < prev.len() {
                assert(out[q] == prev[q]);
            } else {
                let t = q - prev.len();
                assert(out[q] == new[t]);
                let x = c[new[t] as int];
                assert(kept.contains(x.anchor_idx));
                let k = choose|k: int| 0 <= k < kept.len() && kept[k] == x.anchor_idx;
                assert(winner(c, max_objects, primary, b, kept[k] as int) == Some(o as usize));
                assert(object_key(x, max_objects) == rows - 1);
            }
        }
        assert forall|i: int, j: int| 0 <= i < j < out.len() implies !(c[out[i] as int].batch_idx
            == c[out[j] as int].batch_idx && c[out[i] as int].anchor_idx
            == c[out[j] as int].anchor_idx) by {
            if j < prev.len() {
                assert(out[i] == prev[i] && out[j] == prev[j]);
            } else if i >= prev.len() {
                assert(out[i] == new[i - prev.len()] && out[j] == new[j - prev.len()]);
            } else {
                assert(out[i] == prev[i]);
                let t = j - prev.len();
                assert(out[j] == new[t]);
                let x = c[prev[i] as int];
                let y = c[new[t] as int];
                if x.batch_idx == y.batch_idx && x.anchor_idx == y.anchor_idx {
                    assert(kept.contains(y.anchor_idx));
                    let k = choose|k: int| 0 <= k < kept.len() && kept[k] == y.anchor_idx;
                    assert(winner(c, max_objects, primary, b, kept[k] as int) == Some(o as usize));
                    assert(x.object_idx == o);
                    assert(object_key(x, max_objects) == rows - 1);
                }
            }
        }
    }
}

/// One anchor, one object: in the resolved assignment every candidate's
/// object is the winner of its anchor, and no anchor of an image appears twice.
pub proof fn law_each_anchor_assigned_at_most_once(
    c: Seq<AssignmentCandidate>,
    batch: usize,
    anchors_len: usize,
    max_objects: usize,
    primary: nat,
    secondary: nat,
)
    requires
        c.len() <= usize::MAX,
    ensures
        ({
            let out = resolved_rows(
                c,
                anchors_len as nat,
                max_objects as nat,
                primary,
                secondary,
                (batch * max_objects) as int,
            );
            &&& forall|q: int|
                0 <= q < out.len() ==> {
                    &&& 0 <= (#[trigger] out[q]) < c.len()
                    &&& winner(
                        c,
                        max_objects as nat,
                        primary,
                        c[out[q] as int].batch_idx as int,
                        c[out[q] as int].anchor_idx as int,
                    ) == Some(c[out[q] as int].object_idx)
                }
            &&& forall|i: int, j: int|
                0 <= i < j < out.len() ==> !(c[out[i] as int].batch_idx == c[out[j] as int].batch_idx
                    && c[out[i] as int].anchor_idx == c[out[j] as int].anchor_idx)
        }),
{
    lemma_resolved_rows_props(
        c,
        anchors_len as nat,
        max_objects as nat,
        primary,
        secondary,
        (batch * max_objects) as int,
    );
}

/// When the secondary count is below the primary one, no object keeps more
/// than the secondary count of anchors.
pub proof fn law_secondary_topk_bounds_kept_anchors(
    c: Seq<AssignmentCandidate>,
    anchors_len: usize,
    max_objects: usize,
    primary: nat,
    secondary: nat,
    b: int,
    o: int,
)
    requires
        secondary < primary,
    ensures
        kept_anchors(c, anchors_len as nat, max_objects as nat, primary, secondary, b, o).len()
            <= secondary,
{
    lemma_kept_anchors_props(c, anchors_len as nat, max_objects as nat, primary, secondary, b, o);
}

/// Object `o` of image `b` claims `anchor` in the first step.
pub open spec fn claims_object(
    c: Seq<AssignmentCandidate>,
    max_objects: nat,
    primary: nat,
    b: int,
    o: int,
    anchor: int,
) -> bool {
    claims(c, max_objects, primary, b * max_objects + o, anchor)
}

/// Candidate `x` belongs to image `b` and anchor `anchor`.
pub open spec fn at_anchor(x: AssignmentCandidate, b: int, anchor: int) -> bool {
    x.batch_idx == b && x.anchor_idx == anchor
}

proof fn lemma_inside_entries_source(c: Seq<AssignmentCandidate>, max_objects: nat, key: int, n: int)
    requires
        n <= c.len(),
        c.len() <= usize::MAX,
    ensures
        forall|q: int|
            0 <= q < inside_entries(c, max_objects, key, n).len() ==> {
                let e = #[trigger] inside_entries(c, max_objects, key, n)[q];
                &&& 0 <= e.2 < n
                &&& c[e.2 as int].in_gt
                &&& object_key(c[e.2 as int], max_objects) == key
                &&& c[e.2 as int].anchor_idx == e.1
                &&& c[e.2 as int].metric_key == e.0
            },
    decreases n,
{
    if n > 0 {
        lemma_inside_entries_source(c, max_objects, key, n - 1);
        let rest = inside_entries(c, max_objects, key, n - 1);
        let all = inside_entries(c, max_objects, key, n);
        let x = c[n - 1];
        assert forall|q: int| 0 <= q < all.len() implies {
            let e = #[trigger] all[q];
            &&& 0 <= e.2 < n
            &&& c[e.2 as int].in_gt
            &&& object_key(c[e.2 as int], max_objects) == key
            &&& c[e.2 as int].anchor_idx == e.1
            &&& c[e.2 as int].metric_key == e.0
        } by {
            if x.in_gt && object_key(x, max_objects) == key {
                assert(all == rest.push((x.metric_key, x.anchor_idx, (n - 1) as usize)));
                if q < rest.len() {
                    assert(all[q] == rest[q]);
                } else {
                    assert(all[q] == (x.metric_key, x.anchor_idx, (n - 1) as usize));
                }
            } else {
                assert(all == rest);
            }
        }
    }
}

/// A claim comes from an in-box candidate of the claiming row at that anchor.
proof fn lemma_claim_has_candidate(
    c: Seq<AssignmentCandidate>,
    max_objects: nat,
    primary: nat,
    key: int,
    anchor: int,
)
    requires
        c.len() <= usize::MAX,
        claims(c, max_objects, primary, key, anchor),
    ensures
        exists|i: int|
            0 <= i < c.len() && (#[trigger] c[i]).in_gt && object_key(c[i], max_objects) == key
                && c[i].anchor_idx == anchor,
{
    let inside = inside_entries(c, max_objects, key, c.len() as int);
    let picks = primary_picks(c, max_objects, primary, key);
    let q = choose|q: int| 0 <= q < picks.len() && (#[trigger] picks[q]).1 == anchor;
    lemma_top_ranked_members(inside, primary);
    assert(inside.contains(picks[q]));
    let t = choose|t: int| 0 <= t < inside.len() && inside[t] == picks[q];
    lemma_inside_entries_source(c, max_objects, key, c.len() as int);
    let e = inside[t];
    assert(c[e.2 as int].in_gt);
}

proof fn lemma_same_row(b: int, o: int, b2: int, o2: int, m: int)
    requires
        0 <= o < m,
        0 <= o2 < m,
        b * m + o == b2 * m + o2,
    ensures
        b == b2,
        o == o2,
{
    vstd::arithmetic::div_mod::lemma_fundamental_div_mod_converse(b * m + o, m, b, o);
    vstd::arithmetic::div_mod::lemma_fundamental_div_mod_converse(b2 * m + o2, m, b2, o2);
}

proof fn lemma_overlap_best(c: Seq<AssignmentCandidate>, b: int, anchor: int, n: int)
    requires
        0 <= n <= c.len(),
    ensures
        overlap_best(c, b, anchor, n) is None ==> forall|j: int|
            0 <= j < n ==> !at_anchor(#[trigger] c[j], b, anchor),
        overlap_best(c, b, anchor, n) matches Some(best) ==> exists|i: int|
            0 <= i < n && at_anchor(#[trigger] c[i], b, anchor) && c[i].overlap_key == best.0
                && c[i].object_idx == best.1,
        overlap_best(c, b, anchor, n) matches Some(best) ==> forall|j: int|
            0 <= j < n && at_anchor(#[trigger] c[j], b, anchor) ==> c[j].overlap_key <= best.0 && (
            c[j].overlap_key == best.0 ==> best.1 <= c[j].object_idx),
    decreases n,
{
    if n > 0 {
        lemma_overlap_best(c, b, anchor, n - 1);
        let x = c[n - 1];
        if at_anchor(x, b, anchor) {
            assert(at_anchor(c[n - 1], b, anchor));
        }
    }
}

proof fn lemma_count_zero(
    c: Seq<AssignmentCandidate>,
    max_objects: nat,
    primary: nat,
    b: int,
    anchor: int,
    n: int,
)
    requires
        forall|o: int| 0 <= o < n ==> !#[trigger] claims_object(c, max_objects, primary, b, o, anchor),
    ensures
        claim_count(c, max_objects, primary, b, anchor, n) == 0,
    decreases n,
{
    if n > 0 {
        assert(!claims_object(c, max_objects, primary, b, n - 1, anchor));
        lemma_count_zero(c, max_objects, primary, b, anchor, n - 1);
    }
}

proof fn lemma_count_positive(
    c: Seq<AssignmentCandidate>,
    max_objects: nat,
    primary: nat,
    b: int,
    anchor: int,
    n: int,
    o: int,
)
    requires
        0 <= o < n,
        claims_object(c, max_objects, primary, b, o, anchor),
    ensures
        claim_count(c, max_objects, primary, b, anchor, n) >= 1,
    decreases n,
{
    if o < n - 1 {
        lemma_count_positive(c, max_objects, primary, b, anchor, n - 1, o);
    }
}

proof fn lemma_count_one(
    c: Seq<AssignmentCandidate>,
    max_objects: nat,
    primary: nat,
    b: int,
    anchor: int,
    n: int,
    o: int,
)
    requires
        0 <= o < n,
        claims_object(c, max_objects, primary, b, o, anchor),
        forall|o2: int|
            0 <= o2 < n && o2 != o ==> !#[trigger] claims_object(c, max_objects, primary, b, o2, anchor),
    ensures
        claim_count(c, max_objects, primary, b, anchor, n) == 1,
        last_claim(c, max_objects, primary, b, anchor, n) == Some(o as usize),
    decreases n,
{
    if o == n - 1 {
        assert forall|o2: int| 0 <= o2 < n - 1 implies !#[trigger] claims_object(
            c,
            max_objects,
            primary,
            b,
            o2,
            anchor,
        ) by {}
        lemma_count_zero(c, max_objects, primary, b, anchor, n - 1);
    } else {
        assert(!claims_object(c, max_objects, primary, b, n - 1, anchor));
        lemma_count_one(c, max_objects, primary, b, anchor, n - 1, o);
    }
}

proof fn lemma_count_two(
    c: Seq<AssignmentCandidate>,
    max_objects: nat,
    primary: nat,
    b: int,
    anchor: int,
    n: int,
    o1: int,
    o2: int,
)
    requires
        0 <= o1 < o2 < n,
        claims_object(c, max_objects, primary, b, o1, anchor),
        claims_object(c, max_objects, primary, b, o2, anchor),
    ensures
        claim_count(c, max_objects, primary, b, anchor, n) >= 2,
    decreases n,
{
    if o2 == n - 1 {
        lemma_count_positive(c, max_objects, primary, b, anchor, n - 1, o1);
    } else {
        lemma_count_two(c, max_objects, primary, b, anchor, n - 1, o1, o2);
    }
}

/// Who wins an anchor of image `b`: nobody when no object claims it; the
/// claiming object when exactly one object claims it; when several objects
/// claim it, the object of a candidate at that anchor whose overlap is the
/// largest there, the smallest such object on equal overlaps.
pub proof fn law_anchor_winner(
    c: Seq<AssignmentCandidate>,
    max_objects: nat,
    primary: nat,
    b: int,
    anchor: int,
)
    requires
        0 <= b,
        c.len() <= usize::MAX,
        forall|i: int| 0 <= i < c.len() ==> (#[trigger] c[i]).object_idx < max_objects,
    ensures
        (forall|o: int|
            0 <= o < max_objects ==> !#[trigger] claims_object(c, max_objects, primary, b, o, anchor))
            ==> winner(c, max_objects, primary, b, anchor) is None,
        forall|o: int|
            0 <= o < max_objects && #[trigger] claims_object(c, max_objects, primary, b, o, anchor)
                && (forall|o2: int|
                0 <= o2 < max_objects && o2 != o ==> !#[trigger] claims_object(
                    c,
                    max_objects,
                    primary,
                    b,
                    o2,
                    anchor,
                )) ==> winner(c, max_objects, primary, b, anchor) == Some(o as usize),
        forall|o1: int, o2: int|
            0 <= o1 < o2 < max_objects && #[trigger] claims_object(
                c,
                max_objects,
                primary,
                b,
                o1,
                anchor,
            ) && #[trigger] claims_object(c, max_objects, primary, b, o2, anchor) ==> (winner(
                c,
                max_objects,
                primary,
                b,
                anchor,
            ) matches Some(w) && exists|i: int|
                0 <= i < c.len() && at_anchor(#[trigger] c[i], b, anchor) && c[i].object_idx == w
                    && forall|j: int|
                    0 <= j < c.len() && at_anchor(#[trigger] c[j], b, anchor) ==> c[j].overlap_key
                        <= c[i].overlap_key && (c[j].overlap_key == c[i].overlap_key ==> w
                        <= c[j].object_idx)),
{
    let m = max_objects as int;
    if forall|o: int|
        0 <= o < max_objects ==> !#[trigger] claims_object(c, max_objects, primary, b, o, anchor) {
        lemma_count_zero(c, max_objects, primary, b, anchor, m);
    }
    assert forall|o: int|
        0 <= o < max_objects && #[trigger] claims_object(c, max_objects, primary, b, o, anchor) && (
        forall|o2: int|
            0 <= o2 < max_objects && o2 != o ==> !#[trigger] claims_object(
                c,
                max_objects,
                primary,
                b,
                o2,
                anchor,
            )) implies winner(c, max_objects, primary, b, anchor) == Some(o as usize) by {
        lemma_count_one(c, max_objects, primary, b, anchor, m, o);
    }
    assert forall|o1: int, o2: int|
        0 <= o1 < o2 < max_objects && #[trigger] claims_object(c, max_objects, primary, b, o1, anchor)
            && #[trigger] claims_object(c, max_objects, primary, b, o2, anchor) implies (winner(
        c,
        max_objects,
        primary,
        b,
        anchor,
    ) matches Some(w) && exists|i: int|
        0 <= i < c.len() && at_anchor(#[trigger] c[i], b, anchor) && c[i].object_idx == w
            && forall|j: int|
            0 <= j < c.len() && at_anchor(#[trigger] c[j], b, anchor) ==> c[j].overlap_key
                <= c[i].overlap_key && (c[j].overlap_key == c[i].overlap_key ==> w
                <= c[j].object_idx)) by {
        lemma_winner_of_several(c, max_objects, primary, b, anchor, o1, o2);
    }
}

proof fn lemma_winner_of_several(
    c: Seq<AssignmentCandidate>,
    max_objects: nat,
    primary: nat,
    b: int,
    anchor: int,
    o1: int,
    o2: int,
)
    requires
        0 <= b,
        c.len() <= usize::MAX,
        forall|i: int| 0 <= i < c.len() ==> (#[trigger] c[i]).object_idx < max_objects,
        0 <= o1 < o2 < max_objects,
        claims_object(c, max_objects, primary, b, o1, anchor),
        claims_object(c, max_objects, primary, b, o2, anchor),
    ensures
        winner(c, max_objects, primary, b, anchor) matches Some(w) && exists|i: int|
            0 <= i < c.len() && at_anchor(#[trigger] c[i], b, anchor) && c[i].object_idx == w
                && forall|j: int|
                0 <= j < c.len() && at_anchor(#[trigger] c[j], b, anchor) ==> c[j].overlap_key
                    <= c[i].overlap_key && (c[j].overlap_key == c[i].overlap_key ==> w
                    <= c[j].object_idx),
{
    let m = max_objects as int;
    lemma_count_two(c, max_objects, primary, b, anchor, m, o1, o2);
    lemma_overlap_best(c, b, anchor, c.len() as int);
    lemma_claim_has_candidate(c, max_objects, primary, b * m + o1, anchor);
    let i = choose|i: int|
        0 <= i < c.len() && (#[trigger] c[i]).in_gt && object_key(c[i], max_objects) == b * m + o1
            && c[i].anchor_idx == anchor;
    assert(c[i].object_idx < max_objects);
    lemma_same_row(c[i].batch_idx as int, c[i].object_idx as int, b, o1, m);
    assert(at_anchor(c[i], b, anchor));
    assert(overlap_best(c, b, anchor, c.len() as int) is Some);
}

/// Candidate `x`'s object won its anchor on the claims: either it is the only
/// object of its image claiming that anchor, or several objects claim the
/// anchor and `x`'s object has a candidate there with the largest overlap,
/// the smallest such object on equal overlaps.
pub open spec fn won_on_claims(
    c: Seq<AssignmentCandidate>,
    max_objects: nat,
    primary: nat,
    x: AssignmentCandidate,
) -> bool {
    let b = x.batch_idx as int;
    let a = x.anchor_idx as int;
    ||| (claims_object(c, max_objects, primary, b, x.object_idx as int, a) && forall|o2: int|
        0 <= o2 < max_objects && o2 != x.object_idx ==> !#[trigger] claims_object(
            c,
            max_objects,
            primary,
            b,
            o2,
            a,
        ))
    ||| ((exists|o1: int, o2: int|
        0 <= o1 < o2 < max_objects && #[trigger] claims_object(c, max_objects, primary, b, o1, a)
            && #[trigger] claims_object(c, max_objects, primary, b, o2, a)) && exists|i: int|
        0 <= i < c.len() && at_anchor(#[trigger] c[i], b, a) && c[i].object_idx == x.object_idx
            && forall|j: int|
            0 <= j < c.len() && at_anchor(#[trigger] c[j], b, a) ==> c[j].overlap_key
                <= c[i].overlap_key && (c[j].overlap_key == c[i].overlap_key ==> x.object_idx
                <= c[j].object_idx))
}

/// A candidate whose object wins its anchor won it on the claims.
proof fn lemma_winner_won_on_claims(
    c: Seq<AssignmentCandidate>,
    max_objects: nat,
    primary: nat,
    x: AssignmentCandidate,
)
    requires
        c.len() <= usize::MAX,
        max_objects <= usize::MAX,
        forall|i: int| 0 <= i < c.len() ==> (#[trigger] c[i]).object_idx < max_objects,
        winner(c, max_objects, primary, x.batch_idx as int, x.anchor_idx as int) == Some(
            x.object_idx,
        ),
    ensures
        won_on_claims(c, max_objects, primary, x),
{
    let b = x.batch_idx as int;
    let a = x.anchor_idx as int;
    let mo = max_objects;
    law_anchor_winner(c, mo, primary, b, a);
    if exists|o1: int, o2: int|
        0 <= o1 < o2 < mo && #[trigger] claims_object(c, mo, primary, b, o1, a)
            && #[trigger] claims_object(c, mo, primary, b, o2, a) {
        let (o1, o2) = choose|o1: int, o2: int|
            0 <= o1 < o2 < mo && #[trigger] claims_object(c, mo, primary, b, o1, a)
                && #[trigger] claims_object(c, mo, primary, b, o2, a);
        assert(claims_object(c, mo, primary, b, o1, a) && claims_object(c, mo, primary, b, o2, a));
    } else if exists|o: int| 0 <= o < mo && #[trigger] claims_object(c, mo, primary, b, o, a) {
        let o = choose|o: int| 0 <= o < mo && #[trigger] claims_object(c, mo, primary, b, o, a);
        assert forall|o2: int| 0 <= o2 < mo && o2 != o implies !#[trigger] claims_object(
            c,
            mo,
            primary,
            b,
            o2,
            a,
        ) by {
            if claims_object(c, mo, primary, b, o2, a) {
                assert(claims_object(c, mo, primary, b, o, a));
            }
        }
        assert(winner(c, mo, primary, b, a) == Some(o as usize));
        assert(o == x.object_idx);
    } else {
        assert(winner(c, mo, primary, b, a) is None);
    }
}

/// Every assigned candidate's object won its anchor on the claims
/// ([`won_on_claims`]): an object never takes an anchor it did not claim
/// unless several objects claim that anchor and it has the largest overlap
/// there.
pub proof fn law_assigned_objects_follow_claims(
    c: Seq<AssignmentCandidate>,
    batch: usize,
    anchors_len: usize,
    max_objects: usize,
    primary: nat,
    secondary: nat,
)
    requires
        c.len() <= usize::MAX,
        candidates_in_range(c, batch as nat, anchors_len as nat, max_objects as nat),
    ensures
        ({
            let out = resolved_rows(
                c,
                anchors_len as nat,
                max_objects as nat,
                primary,
                secondary,
                (batch * max_objects) as int,
            );
            forall|q: int|
                0 <= q < out.len() ==> 0 <= #[trigger] out[q] < c.len() && won_on_claims(
                    c,
                    max_objects as nat,
                    primary,
                    c[out[q] as int],
                )
        }),
{
    law_each_anchor_assigned_at_most_once(c, batch, anchors_len, max_objects, primary, secondary);
    let out = resolved_rows(
        c,
        anchors_len as nat,
        max_objects as nat,
        primary,
        secondary,
        (batch * max_objects) as int,
    );
    assert forall|i: int| 0 <= i < c.len() implies (#[trigger] c[i]).object_idx < max_objects by {}
    assert forall|q: int| 0 <= q < out.len() implies 0 <= #[trigger] out[q] < c.len()
        && won_on_claims(c, max_objects as nat, primary, c[out[q] as int]) by {
        lemma_winner_won_on_claims(c, max_objects as nat, primary, c[out[q] as int]);
    }
}

/// Row `key` statistics are the maxima over its assigned candidates: each key
/// is at least the floor and at least the key of every assigned candidate of
/// the row, and is the floor or the key of one of them.
pub open spec fn stats_are_maxima(
    c: Seq<AssignmentCandidate>,
    assigned: Seq<usize>,
    max_objects: nat,
    floor: u64,
    key: int,
    n: int,
    s: ObjectStats,
) -> bool {
    &&& floor <= s.pos_overlap
    &&& floor <= s.pos_metric
    &&& forall|q: int|
        0 <= q < n && object_key(c[#[trigger] assigned[q] as int], max_objects) == key
            ==> c[assigned[q] as int].overlap_key <= s.pos_overlap && c[assigned[q] as int].metric_key
            <= s.pos_metric
    &&& (s.pos_overlap == floor || exists|q: int|
        0 <= q < n && object_key(c[#[trigger] assigned[q] as int], max_objects) == key
            && c[assigned[q] as int].overlap_key == s.pos_overlap)
    &&& (s.pos_metric == floor || exists|q: int|
        0 <= q < n && object_key(c[#[trigger] assigned[q] as int], max_objects) == key
            && c[assigned[q] as int].metric_key == s.pos_metric)
}

/// The statistics of every object row over the first `n` assigned
/// candidates are the maxima of [`stats_are_maxima`].
pub proof fn law_object_stats_are_maxima(
    c: Seq<AssignmentCandidate>,
    assigned: Seq<usize>,
    max_objects: nat,
    floor: u64,
    key: int,
    n: int,
)
    requires
        0 <= n <= assigned.len(),
        forall|q: int| 0 <= q < assigned.len() ==> (#[trigger] assigned[q]) < c.len(),
    ensures
        stats_are_maxima(
            c,
            assigned,
            max_objects,
            floor,
            key,
            n,
            object_stats_upto(c, assigned, max_objects, floor, key, n),
        ),
    decreases n,
{
    if n > 0 {
        law_object_stats_are_maxima(c, assigned, max_objects, floor, key, n - 1);
        let prev = object_stats_upto(c, assigned, max_objects, floor, key, n - 1);
        let cur = object_stats_upto(c, assigned, max_objects, floor, key, n);
        let x = c[assigned[n - 1] as int];
        if object_key(x, max_objects) == key {
            assert forall|q: int|
                0 <= q < n && object_key(c[#[trigger] assigned[q] as int], max_objects) == key
                    implies c[assigned[q] as int].overlap_key <= cur.pos_overlap
                && c[assigned[q] as int].metric_key <= cur.pos_metric by {
                if q < n - 1 {
                    assert(c[assigned[q] as int].overlap_key <= prev.pos_overlap);
                }
            }
            if cur.pos_overlap != floor {
                if cur.pos_overlap == x.overlap_key {
                    assert(object_key(c[assigned[n - 1] as int], max_objects) == key);
                } else {
                    let q = choose|q: int|
                        0 <= q < n - 1 && object_key(c[#[trigger] assigned[q] as int], max_objects)
                            == key && c[assigned[q] as int].overlap_key == prev.pos_overlap;
                    assert(object_key(c[assigned[q] as int], max_objects) == key);
                }
            }
            if cur.pos_metric != floor {
                if cur.pos_metric == x.metric_key {
                    assert(object_key(c[assigned[n - 1] as int], max_objects) == key);
                } else {
                    let q = choose|q: int|
                        0 <= q < n - 1 && object_key(c[#[trigger] assigned[q] as int], max_objects)
                            == key && c[assigned[q] as int].metric_key == prev.pos_metric;
                    assert(object_key(c[assigned[q] as int], max_objects) == key);
                }
            }
        } else {
            assert forall|q: int|
                0 <= q < n && object_key(c[#[trigger] assigned[q] as int], max_objects) == key
                    implies c[assigned[q] as int].overlap_key <= cur.pos_overlap
                && c[assigned[q] as int].metric_key <= cur.pos_metric by {
                if q < n - 1 {
                    assert(c[assigned[q] as int].overlap_key <= prev.pos_overlap);
                }
            }
            if cur.pos_overlap != floor {
                let q = choose|q: int|
                    0 <= q < n - 1 && object_key(c[#[trigger] assigned[q] as int], max_objects)
                        == key && c[assigned[q] as int].overlap_key == prev.pos_overlap;
                assert(object_key(c[assigned[q] as int], max_objects) == key);
            }
            if cur.pos_metric != floor {
                let q = choose|q: int|
                    0 <= q < n - 1 && object_key(c[#[trigger] assigned[q] as int], max_objects)
                        == key && c[assigned[q] as int].metric_key == prev.pos_metric;
                assert(object_key(c[assigned[q] as int], max_objects) == key);
            }
        }
    }
}

/// `x` comes ahead of `y`: a larger metric key, then a smaller anchor, then
/// a smaller position.
pub open spec fn ahead_of(x: (u64, usize, usize), y: (u64, usize, usize)) -> bool {
    x.0 > y.0 || (x.0 == y.0 && x.1 < y.1) || (x.0 == y.0 && x.1 == y.1 && x.2 < y.2)
}

proof fn lemma_best_position_first(s: Seq<(u64, usize, usize)>)
    requires
        s.len() > 0,
        forall|i: int, j: int| 0 <= i < j < s.len() ==> s[i] != s[j],
    ensures
        0 <= best_position(s) < s.len(),
        forall|j: int|
            0 <= j < s.len() && j != best_position(s) ==> ahead_of(s[best_position(s)], #[trigger] s[j]),
    decreases s.len(),
{
    lemma_best_position_bounds(s);
    if s.len() > 1 {
        let d = s.drop_last();
        lemma_best_position_first(d);
        let p = best_position(d);
        assert forall|j: int| 0 <= j < s.len() && j != best_position(s) implies ahead_of(
            s[best_position(s)],
            #[trigger] s[j],
        ) by {
            assert(d[p] == s[p]);
            if j < s.len() - 1 {
                assert(d[j] == s[j]);
            }
            assert(s[p] != s.last());
        }
    }
}

/// The `k` best-ranked entries of a list of distinct entries: as many as
/// `k` allows, taken from the list, best first, and ahead of every entry
/// left out.
pub proof fn law_top_ranked_takes_the_best(s: Seq<(u64, usize, usize)>, k: nat)
    requires
        forall|i: int, j: int| 0 <= i < j < s.len() ==> s[i] != s[j],
    ensures
        ({
            let top = top_ranked(s, k);
            &&& top.len() == if k < s.len() {
                k as int
            } else {
                s.len() as int
            }
            &&& forall|q: int| 0 <= q < top.len() ==> s.contains(#[trigger] top[q])
            &&& forall|q: int, r: int|
                0 <= q < r < top.len() ==> ahead_of(#[trigger] top[q], #[trigger] top[r])
            &&& forall|q: int, j: int|
                0 <= q < top.len() && 0 <= j < s.len() && !top.contains(#[trigger] s[j]) ==> ahead_of(
                    #[trigger] top[q],
                    s[j],
                )
            &&& k >= s.len() ==> forall|j: int| 0 <= j < s.len() ==> top.contains(#[trigger] s[j])
        }),
    decreases k,
{
    lemma_top_ranked_members(s, k);
    if k > 0 && s.len() > 0 {
        lemma_best_position_first(s);
        let p = best_position(s);
        let rest = s.remove(p);
        assert forall|i: int, j: int| 0 <= i < j < rest.len() implies rest[i] != rest[j] by {
            let si = if i < p { i } else { i + 1 };
            let sj = if j < p { j } else { j + 1 };
            assert(rest[i] == s[si]);
            assert(rest[j] == s[sj]);
        }
        law_top_ranked_takes_the_best(rest, (k - 1) as nat);
        let t = top_ranked(rest, (k - 1) as nat);
        let top = top_ranked(s, k);
        assert(top == seq![s[p]] + t);
        assert forall|q: int, r: int| 0 <= q < r < top.len() implies ahead_of(
            #[trigger] top[q],
            #[trigger] top[r],
        ) by {
            assert(top[r] == t[r - 1]);
            if q == 0 {
                assert(rest.contains(t[r - 1]));
                let i = choose|i: int| 0 <= i < rest.len() && rest[i] == t[r - 1];
                let si = if i < p { i } else { i + 1 };
                assert(rest[i] == s[si]);
            } else {
                assert(top[q] == t[q - 1]);
            }
        }
        assert forall|q: int, j: int|
            0 <= q < top.len() && 0 <= j < s.len() && !top.contains(#[trigger] s[j]) implies ahead_of(
            #[trigger] top[q],
            s[j],
        ) by {
            assert(top[0] == s[p]);
            assert(j != p);
            let i = if j < p { j } else { j - 1 };
            assert(rest[i] == s[j]);
            if q == 0 {
            } else {
                assert(top[q] == t[q - 1]);
                if t.contains(s[j]) {
                    let r = choose|r: int| 0 <= r < t.len() && t[r] == s[j];
                    assert(top[r + 1] == s[j]);
                }
                assert(!t.contains(rest[i]));
            }
        }
        if k >= s.len() {
            assert forall|j: int| 0 <= j < s.len() implies top.contains(#[trigger] s[j]) by {
                if j == p {
                    assert(top[0] == s[j]);
                } else {
                    let i = if j < p { j } else { j - 1 };
                    assert(rest[i] == s[j]);
                    assert(t.contains(rest[i]));
                    let r = choose|r: int| 0 <= r < t.len() && t[r] == rest[i];
                    assert(top[r + 1] == s[j]);
                }
            }
        }
    } else if s.len() == 0 {
    }
}

proof fn lemma_inside_entries_complete(c: Seq<AssignmentCandidate>, max_objects: nat, key: int, n: int)
    requires
        0 <= n <= c.len(),
        c.len() <= usize::MAX,
    ensures
        forall|i: int|
            0 <= i < n && (#[trigger] c[i]).in_gt && object_key(c[i], max_objects) == key
                ==> inside_entries(c, max_objects, key, n).contains(
                (c[i].metric_key, c[i].anchor_idx, i as usize),
            ),
        forall|q: int, r: int|
            0 <= q < r < inside_entries(c, max_objects, key, n).len() ==> (#[trigger] inside_entries(
                c,
                max_objects,
                key,
                n,
            )[q]).2 < (#[trigger] inside_entries(c, max_objects, key, n)[r]).2,
    decreases n,
{
    lemma_inside_entries_source(c, max_objects, key, n);
    if n > 0 {
        lemma_inside_entries_complete(c, max_objects, key, n - 1);
        lemma_inside_entries_source(c, max_objects, key, n - 1);
        let rest = inside_entries(c, max_objects, key, n - 1);
        let all = inside_entries(c, max_objects, key, n);
        let x = c[n - 1];
        if x.in_gt && object_key(x, max_objects) == key {
            let e = (x.metric_key, x.anchor_idx, (n - 1) as usize);
            assert(all == rest.push(e));
            assert(all[all.len() - 1] == e);
            assert forall|i: int|
                0 <= i < n && (#[trigger] c[i]).in_gt && object_key(c[i], max_objects) == key
                    implies all.contains((c[i].metric_key, c[i].anchor_idx, i as usize)) by {
                if i < n - 1 {
                    let t = choose|t: int|
                        0 <= t < rest.len() && rest[t] == (c[i].metric_key, c[i].anchor_idx, i as usize);
                    assert(all[t] == rest[t]);
                }
            }
            assert forall|q: int, r: int| 0 <= q < r < all.len() implies (#[trigger] all[q]).2 < (
            #[trigger] all[r]).2 by {
                assert(all[q] == rest[q]);
                if r < rest.len() {
                    assert(all[r] == rest[r]);
                }
            }
        } else {
            assert(all == rest);
        }
    }
}

/// What an object row claims in the first step: at most `primary` of its
/// in-box candidates, best first (larger metric, then smaller anchor, then
/// earlier position); an in-box candidate of the row is left out only when
/// `primary` candidates are claimed, all ahead of it.
pub proof fn law_primary_claims_are_best_in_box(
    c: Seq<AssignmentCandidate>,
    max_objects: nat,
    primary: nat,
    key: int,
)
    requires
        c.len() <= usize::MAX,
    ensures
        ({
            let picks = primary_picks(c, max_objects, primary, key);
            &&& picks.len() <= primary
            &&& forall|q: int|
                0 <= q < picks.len() ==> {
                    let e = #[trigger] picks[q];
                    &&& 0 <= e.2 < c.len()
                    &&& c[e.2 as int].in_gt
                    &&& object_key(c[e.2 as int], max_objects) == key
                    &&& c[e.2 as int].anchor_idx == e.1
                    &&& c[e.2 as int].metric_key == e.0
                }
            &&& forall|q: int, r: int|
                0 <= q < r < picks.len() ==> ahead_of(#[trigger] picks[q], #[trigger] picks[r])
            &&& forall|i: int|
                0 <= i < c.len() && (#[trigger] c[i]).in_gt && object_key(c[i], max_objects) == key
                    && !picks.contains((c[i].metric_key, c[i].anchor_idx, i as usize)) ==> picks.len()
                    == primary && forall|q: int|
                    0 <= q < picks.len() ==> ahead_of(
                        #[trigger] picks[q],
                        (c[i].metric_key, c[i].anchor_idx, i as usize),
                    )
        }),
{
    let n = c.len() as int;
    let inside = inside_entries(c, max_objects, key, n);
    lemma_inside_entries_complete(c, max_objects, key, n);
    lemma_inside_entries_source(c, max_objects, key, n);
    assert forall|i: int, j: int| 0 <= i < j < inside.len() implies inside[i] != inside[j] by {
        assert(inside[i].2 < inside[j].2);
    }
    law_top_ranked_takes_the_best(inside, primary);
    let picks = primary_picks(c, max_objects, primary, key);
    assert(picks == top_ranked(inside, primary));
    assert forall|q: int| 0 <= q < picks.len() implies {
        let e = #[trigger] picks[q];
        &&& 0 <= e.2 < c.len()
        &&& c[e.2 as int].in_gt
        &&& object_key(c[e.2 as int], max_objects) == key
        &&& c[e.2 as int].anchor_idx == e.1
        &&& c[e.2 as int].metric_key == e.0
    } by {
        assert(inside.contains(picks[q]));
        let t = choose|t: int| 0 <= t < inside.len() && inside[t] == picks[q];
        assert(inside[t] == picks[q]);
    }
    assert forall|i: int|
        0 <= i < c.len() && (#[trigger] c[i]).in_gt && object_key(c[i], max_objects) == key
            && !picks.contains((c[i].metric_key, c[i].anchor_idx, i as usize)) implies picks.len()
            == primary && forall|q: int|
            0 <= q < picks.len() ==> ahead_of(
                #[trigger] picks[q],
                (c[i].metric_key, c[i].anchor_idx, i as usize),
            ) by {
        let e = (c[i].metric_key, c[i].anchor_idx, i as usize);
        assert(inside.contains(e));
        let t = choose|t: int| 0 <= t < inside.len() && inside[t] == e;
        assert(!picks.contains(inside[t]));
        if picks.len() != primary {
            assert(primary >= inside.len());
            assert(picks.contains(inside[t]));
        }
        assert forall|q: int| 0 <= q < picks.len() implies ahead_of(#[trigger] picks[q], e) by {
            assert(ahead_of(picks[q], inside[t]));
        }
    }
}

/// The secondary trim keeps the best won anchors: without a trim an object
/// keeps every anchor it won; with one (secondary count below the primary one
/// and more anchors won) it keeps exactly `secondary` of them, and every won
/// anchor it drops has a smaller metric than each kept one, or an equal metric
/// and a larger anchor index.
pub proof fn law_secondary_trim_keeps_best_anchors(
    c: Seq<AssignmentCandidate>,
    anchors_len: nat,
    max_objects: nat,
    primary: nat,
    secondary: nat,
    b: int,
    o: int,
)
    requires
        anchors_len <= usize::MAX,
    ensures
        ({
            let won = won_anchors(c, max_objects, primary, b, o, anchors_len as int);
            let kept = kept_anchors(c, anchors_len, max_objects, primary, secondary, b, o);
            &&& forall|q: int| 0 <= q < kept.len() ==> won.contains(#[trigger] kept[q])
            &&& !(secondary < primary && won.len() > secondary) ==> kept == won
            &&& secondary < primary && won.len() > secondary ==> {
                &&& kept.len() == secondary
                &&& forall|j: int, q: int|
                    0 <= j < won.len() && 0 <= q < kept.len() && !kept.contains(#[trigger] won[j])
                        ==> metric_of(c, b, o, (#[trigger] kept[q]) as int) > metric_of(
                        c,
                        b,
                        o,
                        won[j] as int,
                    ) || (metric_of(c, b, o, kept[q] as int) == metric_of(c, b, o, won[j] as int)
                        && kept[q] < won[j])
            }
        }),
{
    let won = won_anchors(c, max_objects, primary, b, o, anchors_len as int);
    let kept = kept_anchors(c, anchors_len, max_objects, primary, secondary, b, o);
    lemma_won_anchors_props(c, max_objects, primary, b, o, anchors_len as int);
    if secondary < primary && won.len() > secondary {
        let entries = anchor_entries(c, b, o, won);
        assert forall|i: int, j: int| 0 <= i < j < entries.len() implies entries[i] != entries[j] by {
            assert(won[i] < won[j]);
        }
        law_top_ranked_takes_the_best(entries, secondary);
        let top = top_ranked(entries, secondary);
        assert(kept == top.map_values(|e: (u64, usize, usize)| e.1));
        assert forall|q: int| 0 <= q < kept.len() implies won.contains(#[trigger] kept[q]) by {
            assert(entries.contains(top[q]));
            let t = choose|t: int| 0 <= t < entries.len() && entries[t] == top[q];
            assert(kept[q] == won[t]);
        }
        assert forall|j: int, q: int|
            0 <= j < won.len() && 0 <= q < kept.len() && !kept.contains(#[trigger] won[j]) implies metric_of(
            c,
            b,
            o,
            (#[trigger] kept[q]) as int,
        ) > metric_of(c, b, o, won[j] as int) || (metric_of(c, b, o, kept[q] as int) == metric_of(
            c,
            b,
            o,
            won[j] as int,
        ) && kept[q] < won[j]) by {
            if top.contains(entries[j]) {
                let r = choose|r: int| 0 <= r < top.len() && top[r] == entries[j];
                assert(kept[r] == won[j]);
            }
            assert(ahead_of(top[q], entries[j]));
            assert(entries.contains(top[q]));
            let t = choose|t: int| 0 <= t < entries.len() && entries[t] == top[q];
            assert(kept[q] == won[t]);
        }
    }
}

} // verus!
