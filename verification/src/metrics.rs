//! Integer bookkeeping of evaluation metrics.
use vstd::prelude::*;

use crate::error::{message, TrainError};

verus! {

/// Classification evaluation counts.
#[derive(Debug, Clone, Copy, PartialEq, Eq, Structural)]
pub struct ClassificationEvalMetrics {
    /// Correct top-1 predictions.
    pub correct: usize,
    /// Samples where the target is among the top-5 predicted classes.
    pub top5_correct: usize,
    /// Total evaluated samples.
    pub total: usize,
}

impl ClassificationEvalMetrics {
    /// Adds another batch's counts field by field.
    pub fn add(&mut self, other: Self)
        requires
            old(self).correct + other.correct <= usize::MAX,
            old(self).top5_correct + other.top5_correct <= usize::MAX,
            old(self).total + other.total <= usize::MAX,
        ensures
            final(self).correct == old(self).correct + other.correct,
            final(self).top5_correct == old(self).top5_correct + other.top5_correct,
            final(self).total == old(self).total + other.total,
    {
        self.correct = self.correct + other.correct;
        self.top5_correct = self.top5_correct + other.top5_correct;
        self.total = self.total + other.total;
    }
}

/// Number of positions `i < n` where the prediction equals the target.
pub open spec fn agreeing(predictions: Seq<u32>, targets: Seq<u32>, n: int) -> nat
    decreases n,
{
    if n <= 0 {
        0
    } else {
        agreeing(predictions, targets, n - 1) + if predictions[n - 1] == targets[n - 1] {
            1nat
        } else {
            0nat
        }
    }
}

/// Number of set flags among the first `n`.
pub open spec fn flags_set(flags: Seq<bool>, n: int) -> nat
    decreases n,
{
    if n <= 0 {
        0
    } else {
        flags_set(flags, n - 1) + if flags[n - 1] {
            1nat
        } else {
            0nat
        }
    }
}

/// Classification counts of one batch from its top-1 predictions, its targets
/// and, per sample, whether the target is among the five best-scored classes.
/// Predictions and targets must pair up one to one; top-5 flags pair with the
/// targets up to the shorter of the two.
pub fn classification_counts(predictions: &Vec<u32>, targets: &Vec<u32>, top5_hits: &Vec<bool>) -> (r:
    Result<ClassificationEvalMetrics, TrainError>)
    ensures
        r is Ok <==> predictions@.len() == targets@.len(),
        r matches Err(e) ==> e is InvalidTensor,
        r matches Ok(m) ==> {
            &&& m.correct == agreeing(predictions@, targets@, targets@.len() as int)
            &&& m.top5_correct == flags_set(
                top5_hits@,
                if top5_hits@.len() < targets@.len() {
                    top5_hits@.len() as int
                } else {
                    targets@.len() as int
                },
            )
            &&& m.total == targets@.len()
        },
{
    if predictions.len() != targets.len() {
        return Err(
            TrainError::InvalidTensor(
                message("classification predictions and targets must have matching batch length"),
            ),
        );
    }
    let mut correct: usize = 0;
    let mut i: usize = 0;
    while i < targets.len()
        invariant
            predictions@.len() == targets@.len(),
            i <= targets@.len(),
            correct == agreeing(predictions@, targets@, i as int),
            correct <= i,
        decreases targets.len() - i,
    {
        if predictions[i] == targets[i] {
            correct = correct + 1;
        }
        i = i + 1;
    }
    let rows = if top5_hits.len() < targets.len() {
        top5_hits.len()
    } else {
        targets.len()
    };
    let mut top5_correct: usize = 0;
    let mut j: usize = 0;
    while j < rows
        invariant
            rows <= top5_hits@.len(),
            j <= rows,
            top5_correct == flags_set(top5_hits@, j as int),
            top5_correct <= j,
        decreases rows - j,
    {
        if top5_hits[j] {
            top5_correct = top5_correct + 1;
        }
        j = j + 1;
    }
    Ok(ClassificationEvalMetrics { correct, top5_correct, total: targets.len() })
}

/// Detection-style evaluation counts.
#[derive(Debug, Clone, Copy, PartialEq, Eq, Structural)]
pub struct DetectionEvalMetrics {
    /// Matched ground-truth targets.
    pub matched_targets: usize,
    /// Total valid ground-truth targets.
    pub total_targets: usize,
    /// Predictions retained after confidence filtering.
    pub predictions: usize,
}

impl DetectionEvalMetrics {
    /// Adds another batch's counts field by field.
    pub fn add(&mut self, other: Self)
        requires
            old(self).matched_targets + other.matched_targets <= usize::MAX,
            old(self).total_targets + other.total_targets <= usize::MAX,
            old(self).predictions + other.predictions <= usize::MAX,
        ensures
            final(self).matched_targets == old(self).matched_targets + other.matched_targets,
            final(self).total_targets == old(self).total_targets + other.total_targets,
            final(self).predictions == old(self).predictions + other.predictions,
    {
        self.matched_targets = self.matched_targets + other.matched_targets;
        self.total_targets = self.total_targets + other.total_targets;
        self.predictions = self.predictions + other.predictions;
    }
}

/// Class id marking pixels excluded from semantic metrics.
pub const SEMANTIC_METRIC_IGNORE: u32 = 0xffff_ffff;

/// Sum of a sequence of counts.
pub open spec fn seq_sum(s: Seq<u64>) -> nat
    decreases s.len(),
{
    if s.len() == 0 {
        0
    } else {
        (seq_sum(s.drop_last()) + s.last()) as nat
    }
}

/// Pixel `j` of a batch is counted: its target is a class below `classes` and
/// its prediction is below `classes`.
pub open spec fn pixel_counted(pred: Seq<u32>, target: Seq<u32>, classes: nat, j: int) -> bool {
    &&& target[j] != SEMANTIC_METRIC_IGNORE
    &&& target[j] < classes
    &&& pred[j] < classes
}

/// Every counted pixel among the pairs of the two maps lands in a cell below
/// `size`: the matrix of that size can take the batch.
pub open spec fn counted_cells_below(pred: Seq<u32>, target: Seq<u32>, classes: nat, size: int) -> bool {
    forall|j: int|
        0 <= j < pred.len() && j < target.len() && #[trigger] pixel_counted(pred, target, classes, j)
            ==> pixel_cell(pred, target, classes, j) < size
}

/// Confusion-matrix cell of pixel `j`: `target * classes + prediction`.
pub open spec fn pixel_cell(pred: Seq<u32>, target: Seq<u32>, classes: nat, j: int) -> int {
    target[j] * classes + pred[j]
}

/// Number of counted pixels among the first `n` that land in `cell`.
pub open spec fn cell_hits(pred: Seq<u32>, target: Seq<u32>, classes: nat, cell: int, n: nat) -> nat
    decreases n,
{
    if n == 0 {
        0
    } else {
        cell_hits(pred, target, classes, cell, (n - 1) as nat) + if pixel_counted(
            pred,
            target,
            classes,
            n - 1,
        ) && pixel_cell(pred, target, classes, n - 1) == cell {
            1nat
        } else {
            0nat
        }
    }
}

/// Number of counted pixels among the first `n`.
pub open spec fn counted_pixels(pred: Seq<u32>, target: Seq<u32>, classes: nat, n: nat) -> nat
    decreases n,
{
    if n == 0 {
        0
    } else {
        counted_pixels(pred, target, classes, (n - 1) as nat) + if pixel_counted(
            pred,
            target,
            classes,
            n - 1,
        ) {
            1nat
        } else {
            0nat
        }
    }
}

/// Sum of row `row` of a `classes x classes` matrix.
pub open spec fn row_sum(m: Seq<u64>, classes: nat, row: int, n: nat) -> nat
    decreases n,
{
    if n == 0 {
        0
    } else {
        (row_sum(m, classes, row, (n - 1) as nat) + m[row * classes + n - 1]) as nat
    }
}

/// Sum of column `col` of a `classes x classes` matrix.
pub open spec fn col_sum(m: Seq<u64>, classes: nat, col: int, n: nat) -> nat
    decreases n,
{
    if n == 0 {
        0
    } else {
        (col_sum(m, classes, col, (n - 1) as nat) + m[(n - 1) * classes + col]) as nat
    }
}

/// Accumulates a per-class confusion matrix (`matrix[target * classes + prediction]`).
pub struct SemanticMapAccumulator {
    matrix: Vec<u64>,
    classes: usize,
    valid_pixels: u64,
}

/// Per-class confusion counts: true positives, target pixels, predicted pixels.
#[derive(Debug, Clone, Copy, PartialEq, Eq, Structural)]
pub struct SemanticClassStats {
    /// Pixels of the class predicted as the class.
    pub true_positive: u128,
    /// Pixels whose target is the class.
    pub target: u128,
    /// Pixels predicted as the class.
    pub predicted: u128,
}

proof fn lemma_sum_update(s: Seq<u64>, i: int, v: u64)
    requires
        0 <= i < s.len(),
    ensures
        seq_sum(s.update(i, v)) == seq_sum(s) - s[i] + v,
    decreases s.len(),
{
    if i == s.len() - 1 {
        assert(s.update(i, v).drop_last() =~= s.drop_last());
    } else {
        lemma_sum_update(s.drop_last(), i, v);
        assert(s.update(i, v).drop_last() =~= s.drop_last().update(i, v));
    }
}

proof fn lemma_element_le_sum(s: Seq<u64>, i: int)
    requires
        0 <= i < s.len(),
    ensures
        s[i] <= seq_sum(s),
    decreases s.len(),
{
    if i < s.len() - 1 {
        lemma_element_le_sum(s.drop_last(), i);
    }
}

proof fn lemma_sum_zeros(s: Seq<u64>)
    requires
        forall|i: int| 0 <= i < s.len() ==> s[i] == 0,
    ensures
        seq_sum(s) == 0,
    decreases s.len(),
{
    if s.len() > 0 {
        lemma_sum_zeros(s.drop_last());
    }
}

proof fn lemma_square_bound(c: int)
    by (nonlinear_arith)
    requires
        0 <= c,
        c * c <= 0xffff_ffff_ffff_ffff,
    ensures
        c <= 0x1_0000_0000,
{
}

proof fn lemma_cell_bound(t: int, p: int, c: int)
    by (nonlinear_arith)
    requires
        0 <= t < c,
        0 <= p < c,
    ensures
        0 <= t * c + p < c * c,
{
}

impl SemanticMapAccumulator {
    /// The confusion matrix, row-major by target class.
    pub closed spec fn matrix_view(&self) -> Seq<u64> {
        self.matrix@
    }

    /// The class count fixed by the first non-empty batch (0 before).
    pub closed spec fn class_count(&self) -> usize {
        self.classes
    }

    /// Number of counted pixels.
    pub closed spec fn valid_pixel_count(&self) -> u64 {
        self.valid_pixels
    }

    /// Every counted pixel sits in exactly one cell of a `classes x classes` matrix.
    pub closed spec fn well_formed(&self) -> bool {
        &&& self.classes == 0 ==> self.matrix@.len() == 0 && self.valid_pixels == 0
        &&& self.classes > 0 ==> self.matrix@.len() == self.classes * self.classes
        &&& self.classes * self.classes <= usize::MAX
        &&& seq_sum(self.matrix@) == self.valid_pixels
    }

    /// An empty accumulator.
    pub fn new() -> (r: Self)
        ensures
            r.well_formed(),
            r.class_count() == 0,
            r.valid_pixel_count() == 0,
            r.matrix_view().len() == 0,
    {
        let r = SemanticMapAccumulator { matrix: Vec::new(), classes: 0, valid_pixels: 0 };
        assert(r.matrix@ =~= Seq::<u64>::empty());
        r
    }

    /// The class count fixed by the first non-empty batch (0 before).
    pub fn classes(&self) -> (r: usize)
        ensures
            r == self.class_count(),
    {
        self.classes
    }

    /// Number of counted pixels.
    pub fn valid_pixels(&self) -> (r: u64)
        ensures
            r == self.valid_pixel_count(),
    {
        self.valid_pixels
    }

    /// Adds one batch of flattened prediction/target class maps.
    ///
    /// The first call with `classes > 0` fixes the class count and allocates the
    /// matrix. A pixel is counted when its target is not ignored and both its
    /// target and prediction are below `classes`; it adds one to cell
    /// `target * classes + prediction`. Pixels are paired up to the shorter map.
    /// A later batch may name more classes than the first, as long as every pixel
    /// it counts lands inside the existing matrix.
    pub fn add_batch(&mut self, pred: &[u32], target: &[u32], classes: usize)
        requires
            old(self).well_formed(),
            old(self).class_count() == 0 ==> classes * classes <= usize::MAX,
            old(self).class_count() > 0 ==> counted_cells_below(
                pred@,
                target@,
                classes as nat,
                old(self).class_count() * old(self).class_count(),
            ),
            old(self).valid_pixel_count() + pred@.len() <= u64::MAX,
        ensures
            final(self).well_formed(),
            final(self).class_count() == if old(self).class_count() == 0 && classes > 0 {
                classes
            } else {
                old(self).class_count()
            },
            ({
                let n = if pred@.len() < target@.len() {
                    pred@.len()
                } else {
                    target@.len()
                };
                let base = if old(self).class_count() == 0 && classes > 0 {
                    Seq::new((classes * classes) as nat, |i: int| 0u64)
                } else {
                    old(self).matrix_view()
                };
                &&& final(self).valid_pixel_count() == old(self).valid_pixel_count()
                    + counted_pixels(pred@, target@, classes as nat, n)
                &&& final(self).matrix_view().len() == base.len()
                &&& forall|i: int|
                    0 <= i < base.len() ==> #[trigger] final(self).matrix_view()[i] == base[i]
                        + cell_hits(pred@, target@, classes as nat, i, n)
            }),
    {
        if self.classes == 0 && classes > 0 {
            self.classes = classes;
            self.matrix = vec![0u64; classes * classes];
            proof {
                lemma_sum_zeros(self.matrix@);
            }
        }
        proof {
            if old(self).classes == 0 && classes > 0 {
                assert forall|j: int|
                    0 <= j < pred@.len() && j < target@.len() && #[trigger] pixel_counted(
                        pred@,
                        target@,
                        classes as nat,
                        j,
                    ) implies pixel_cell(pred@, target@, classes as nat, j) < classes * classes by {
                    lemma_cell_bound(target@[j] as int, pred@[j] as int, classes as int);
                }
            }
        }
        let ghost base = self.matrix@;
        let ghost start_valid = self.valid_pixels;
        let ghost fixed_classes = self.classes;
        assert(base =~= if old(self).classes == 0 && classes > 0 {
            Seq::new((classes * classes) as nat, |i: int| 0u64)
        } else {
            old(self).matrix@
        });
        let n = if pred.len() < target.len() {
            pred.len()
        } else {
            target.len()
        };
        let mut j: usize = 0;
        while j < n
            invariant
                n <= pred@.len(),
                n <= target@.len(),
                j <= n,
                self.classes == fixed_classes,
                self.classes * self.classes <= usize::MAX,
                self.classes == 0 ==> self.matrix@.len() == 0 && classes == 0,
                self.classes > 0 ==> self.matrix@.len() == self.classes * self.classes,
                self.classes > 0 ==> counted_cells_below(
                    pred@,
                    target@,
                    classes as nat,
                    self.classes * self.classes,
                ),
                seq_sum(self.matrix@) == self.valid_pixels,
                self.matrix@.len() == base.len(),
                start_valid + pred@.len() <= u64::MAX,
                self.valid_pixels == start_valid + counted_pixels(pred@, target@, classes as nat, j as nat),
                forall|i: int|
                    0 <= i < base.len() ==> #[trigger] self.matrix@[i] == base[i] + cell_hits(
                        pred@,
                        target@,
                        classes as nat,
                        i,
                        j as nat,
                    ),
                counted_pixels(pred@, target@, classes as nat, j as nat) <= j,
            decreases n - j,
        {
            let t = target[j];
            let p = pred[j];
            if t != SEMANTIC_METRIC_IGNORE && (t as usize) < classes && (p as usize) < classes {
                assert(pixel_counted(pred@, target@, classes as nat, j as int));
                proof {
                    lemma_cell_bound(t as int, p as int, classes as int);
                    assert(j < pred@.len() && j < target@.len());
                    assert(pixel_cell(pred@, target@, classes as nat, j as int) < self.classes
                        * self.classes);
                }
                let cell = (t as usize) * classes + (p as usize);
                proof {
                    lemma_element_le_sum(self.matrix@, cell as int);
                }
                let old_value = self.matrix[cell];
                let ghost before = self.matrix@;
                self.matrix.set(cell, old_value + 1);
                proof {
                    lemma_sum_update(before, cell as int, (old_value + 1) as u64);
                }
                self.valid_pixels = self.valid_pixels + 1;
                assert forall|i: int| 0 <= i < base.len() implies #[trigger] self.matrix@[i]
                    == base[i] + cell_hits(pred@, target@, classes as nat, i, (j + 1) as nat) by {
                    assert(pixel_cell(pred@, target@, classes as nat, j as int) == cell as int);
                }
            } else {
                assert(!pixel_counted(pred@, target@, classes as nat, j as int));
                assert forall|i: int| 0 <= i < base.len() implies #[trigger] self.matrix@[i]
                    == base[i] + cell_hits(pred@, target@, classes as nat, i, (j + 1) as nat) by {}
            }
            j = j + 1;
        }
    }

    /// True positives, target pixels and predicted pixels of every class.
    pub fn class_stats(&self) -> (r: Vec<SemanticClassStats>)
        requires
            self.well_formed(),
        ensures
            r@.len() == self.class_count(),
            forall|c: int|
                0 <= c < r@.len() ==> {
                    let m = self.matrix_view();
                    let k = self.class_count() as nat;
                    &&& (#[trigger] r@[c]).true_positive == m[c * k + c]
                    &&& r@[c].target == row_sum(m, k, c, k)
                    &&& r@[c].predicted == col_sum(m, k, c, k)
                },
    {
        let classes = self.classes;
        proof {
            lemma_square_bound(classes as int);
        }
        let mut out: Vec<SemanticClassStats> = Vec::new();
        let mut c: usize = 0;
        while c < classes
            invariant
                self.well_formed(),
                classes == self.classes,
                classes <= 0x1_0000_0000,
                c <= classes,
                out@.len() == c,
                forall|i: int|
                    0 <= i < c ==> {
                        let m = self.matrix@;
                        let k = classes as nat;
                        &&& (#[trigger] out@[i]).true_positive == m[i * k + i]
                        &&& out@[i].target == row_sum(m, k, i, k)
                        &&& out@[i].predicted == col_sum(m, k, i, k)
                    },
            decreases classes - c,
        {
            let mut target_sum: u128 = 0;
            let mut pred_sum: u128 = 0;
            let mut k: usize = 0;
            while k < classes
                invariant
                    self.well_formed(),
                    classes == self.classes,
                    classes <= 0x1_0000_0000,
                    c < classes,
                    k <= classes,
                    target_sum == row_sum(self.matrix@, classes as nat, c as int, k as nat),
                    pred_sum == col_sum(self.matrix@, classes as nat, c as int, k as nat),
                    target_sum <= k * 0xffff_ffff_ffff_ffffu128,
                    pred_sum <= k * 0xffff_ffff_ffff_ffffu128,
                decreases classes - k,
            {
                proof {
                    lemma_cell_bound(c as int, k as int, classes as int);
                    lemma_cell_bound(k as int, c as int, classes as int);
                }
                target_sum = target_sum + self.matrix[c * classes + k] as u128;
                pred_sum = pred_sum + self.matrix[k * classes + c] as u128;
                k = k + 1;
            }
            proof {
                lemma_cell_bound(c as int, c as int, classes as int);
            }
            out.push(
                SemanticClassStats {
                    true_positive: self.matrix[c * classes + c] as u128,
                    target: target_sum,
                    predicted: pred_sum,
                },
            );
            c = c + 1;
        }
        out
    }
}


/// Sum of the first `n` row sums of a `classes x classes` matrix.
pub open spec fn rows_total(m: Seq<u64>, classes: nat, n: int) -> nat
    decreases n,
{
    if n <= 0 {
        0
    } else {
        rows_total(m, classes, n - 1) + row_sum(m, classes, n - 1, classes)
    }
}

proof fn lemma_take_sum_step(m: Seq<u64>, n: int)
    requires
        0 <= n < m.len(),
    ensures
        seq_sum(m.take(n + 1)) == seq_sum(m.take(n)) + m[n],
{
    assert(m.take(n + 1).drop_last() =~= m.take(n));
}

proof fn lemma_prefix_rows(m: Seq<u64>, classes: nat, c: int, j: int)
    requires
        0 <= c,
        0 <= j <= classes,
        c * classes + j <= m.len(),
    ensures
        seq_sum(m.take(c * classes + j)) == rows_total(m, classes, c) + row_sum(
            m,
            classes,
            c,
            j as nat,
        ),
    decreases c, j,
{
    if j > 0 {
        lemma_prefix_rows(m, classes, c, j - 1);
        lemma_take_sum_step(m, c * classes + j - 1);
        assert(row_sum(m, classes, c, j as nat) == row_sum(m, classes, c, (j - 1) as nat) + m[c
            * classes + j - 1]);
    } else if c > 0 {
        assert((c - 1) * classes + classes == c * classes) by (nonlinear_arith);
        lemma_prefix_rows(m, classes, c - 1, classes as int);

    } else {
        assert(c * classes == 0) by (nonlinear_arith)
            requires
                c == 0,
        ;
        assert(m.take(0) =~= Seq::<u64>::empty());
    }
}

impl SemanticMapAccumulator {
    /// The target pixels of all classes add up to the counted pixels.
    pub proof fn law_class_targets_add_up_to_counted_pixels(&self)
        requires
            self.well_formed(),
            self.class_count() > 0,
        ensures
            rows_total(self.matrix_view(), self.class_count() as nat, self.class_count() as int)
                == self.valid_pixel_count(),
    {
        let k = self.classes as nat;
        assert(k * k + 0 == k * k);
        lemma_prefix_rows(self.matrix@, k, k as int, 0);
        assert(self.matrix@.take((k * k) as int) =~= self.matrix@);
    }
}

} // verus!
