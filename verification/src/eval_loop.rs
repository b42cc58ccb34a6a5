//! The integer side of evaluating a dataset: how many steps to run, and the
//! running sample and metric counts merged batch by batch.
use vstd::prelude::*;

use crate::error::{message, TrainError};
use crate::metrics::{ClassificationEvalMetrics, DetectionEvalMetrics};

verus! {

/// `ceil(len / batch)`: the number of batches that cover `len` samples.
pub open spec fn batches_covering(len: nat, batch: nat) -> nat
    recommends
        batch > 0,
{
    ((len + batch - 1) / (batch as int)) as nat
}

/// The number of evaluation steps over a dataset.
///
/// A batch size of zero, an explicit step count of zero and an empty dataset
/// are rejected with `InvalidConfig`. Otherwise the explicit step count is
/// used, or as many batches as cover the dataset.
pub fn eval_loop_steps(dataset_len: usize, batch_size: usize, steps: Option<usize>) -> (r: Result<
    usize,
    TrainError,
>)
    ensures
        r is Err <==> (batch_size == 0 || steps == Some(0usize) || dataset_len == 0),
        r matches Err(e) ==> e is InvalidConfig,
        r matches Ok(n) ==> n == match steps {
            Some(s) => s as nat,
            None => batches_covering(dataset_len as nat, batch_size as nat),
        },
{
    if batch_size == 0 {
        return Err(
            TrainError::InvalidConfig(message("evaluation batch_size must be greater than zero")),
        );
    }
    if let Some(0) = steps {
        return Err(TrainError::InvalidConfig(message("evaluation steps must be greater than zero")));
    }
    if dataset_len == 0 {
        return Err(TrainError::InvalidConfig(message("cannot evaluate an empty dataset")));
    }
    match steps {
        Some(s) => Ok(s),
        None => {
            let whole = dataset_len / batch_size;
            let rest = dataset_len % batch_size;
            proof {
                let l = dataset_len as int;
                let b = batch_size as int;
                vstd::arithmetic::div_mod::lemma_fundamental_div_mod(l, b);
                vstd::arithmetic::div_mod::lemma_div_pos_is_pos(l, b);
                vstd::arithmetic::div_mod::lemma_mod_pos_bound(l, b);
                let q = l / b;
                assert(q <= l) by (nonlinear_arith)
                    requires
                        b > 0,
                        0 <= q,
                        l == b * q + l % b,
                        0 <= l % b,
                ;
                if rest == 0 {
                    assert((l + b - 1) / b == l / b) by (nonlinear_arith)
                        requires
                            b > 0,
                            l % b == 0,
                            l == b * (l / b) + l % b,
                    {
                        vstd::arithmetic::div_mod::lemma_fundamental_div_mod_converse(
                            l + b - 1,
                            b,
                            l / b,
                            b - 1,
                        );
                    }
                } else {
                    assert((l + b - 1) / b == l / b + 1) by (nonlinear_arith)
                        requires
                            b > 0,
                            0 < l % b < b,
                            l == b * (l / b) + l % b,
                    {
                        vstd::arithmetic::div_mod::lemma_fundamental_div_mod_converse(
                            l + b - 1,
                            b,
                            l / b + 1,
                            l % b - 1,
                        );
                    }
                    assert(q < l) by (nonlinear_arith)
                        requires
                            b > 0,
                            0 <= q,
                            0 < l % b,
                            l == b * q + l % b,
                    ;
                }
            }
            if rest == 0 {
                Ok(whole)
            } else {
                Ok(whole + 1)
            }
        },
    }
}

/// Running integer counts of an evaluation loop.
#[derive(Debug, Clone, Copy, PartialEq, Eq, Structural)]
pub struct EvalLoopCounts {
    /// Samples evaluated so far.
    pub total_samples: usize,
    /// Merged classification counts, once a batch has reported some.
    pub classification: Option<ClassificationEvalMetrics>,
    /// Merged detection counts, once a batch has reported some.
    pub detection: Option<DetectionEvalMetrics>,
    /// Some batch reported detection counts.
    pub has_detection_output: bool,
    /// Some segmentation batch reported detection counts.
    pub has_mask_output: bool,
    /// Some pose batch reported detection counts.
    pub has_pose_output: bool,
}

/// Classification counts after merging a batch's counts, if any, into the
/// running ones (which start from zero).
pub open spec fn merged_classification(
    total: Option<ClassificationEvalMetrics>,
    batch: Option<ClassificationEvalMetrics>,
) -> Option<ClassificationEvalMetrics> {
    match (total, batch) {
        (_, None) => total,
        (None, Some(m)) => Some(m),
        (Some(t), Some(m)) => Some(
            ClassificationEvalMetrics {
                correct: (t.correct + m.correct) as usize,
                top5_correct: (t.top5_correct + m.top5_correct) as usize,
                total: (t.total + m.total) as usize,
            },
        ),
    }
}

/// Detection counts after merging a batch's counts, if any, into the running
/// ones (which start from zero).
pub open spec fn merged_detection(total: Option<DetectionEvalMetrics>, batch: Option<DetectionEvalMetrics>) -> Option<
    DetectionEvalMetrics,
> {
    match (total, batch) {
        (_, None) => total,
        (None, Some(m)) => Some(m),
        (Some(t), Some(m)) => Some(
            DetectionEvalMetrics {
                matched_targets: (t.matched_targets + m.matched_targets) as usize,
                total_targets: (t.total_targets + m.total_targets) as usize,
                predictions: (t.predictions + m.predictions) as usize,
            },
        ),
    }
}

/// The merge of a batch's classification counts does not overflow.
pub open spec fn classification_merge_fits(
    total: Option<ClassificationEvalMetrics>,
    batch: Option<ClassificationEvalMetrics>,
) -> bool {
    match (total, batch) {
        (Some(t), Some(m)) => t.correct + m.correct <= usize::MAX && t.top5_correct
            + m.top5_correct <= usize::MAX && t.total + m.total <= usize::MAX,
        _ => true,
    }
}

/// The merge of a batch's detection counts does not overflow.
pub open spec fn detection_merge_fits(total: Option<DetectionEvalMetrics>, batch: Option<DetectionEvalMetrics>) -> bool {
    match (total, batch) {
        (Some(t), Some(m)) => t.matched_targets + m.matched_targets <= usize::MAX
            && t.total_targets + m.total_targets <= usize::MAX && t.predictions + m.predictions
            <= usize::MAX,
        _ => true,
    }
}

impl EvalLoopCounts {
    /// Counts before the first batch: no samples, no metrics, no outputs seen.
    pub fn new() -> (r: Self)
        ensures
            r.total_samples == 0,
            r.classification is None,
            r.detection is None,
            !r.has_detection_output,
            !r.has_mask_output,
            !r.has_pose_output,
    {
        EvalLoopCounts {
            total_samples: 0,
            classification: None,
            detection: None,
            has_detection_output: false,
            has_mask_output: false,
            has_pose_output: false,
        }
    }

    /// Merges one batch: adds its sample count, merges its classification and
    /// detection counts, and records which kinds of output reported detection
    /// counts.
    pub fn add_batch(
        &mut self,
        samples: usize,
        classification: Option<ClassificationEvalMetrics>,
        detection: Option<DetectionEvalMetrics>,
        is_segmentation: bool,
        is_pose: bool,
    )
        requires
            old(self).total_samples + samples <= usize::MAX,
            classification_merge_fits(old(self).classification, classification),
            detection_merge_fits(old(self).detection, detection),
        ensures
            final(self).total_samples == old(self).total_samples + samples,
            final(self).classification == merged_classification(
                old(self).classification,
                classification,
            ),
            final(self).detection == merged_detection(old(self).detection, detection),
            final(self).has_detection_output == (old(self).has_detection_output
                || detection is Some),
            final(self).has_mask_output == (old(self).has_mask_output || (detection is Some
                && is_segmentation)),
            final(self).has_pose_output == (old(self).has_pose_output || (detection is Some
                && is_pose)),
    {
        self.total_samples = self.total_samples + samples;
        if let Some(metrics) = classification {
            let mut merged = match self.classification {
                Some(t) => t,
                None => ClassificationEvalMetrics { correct: 0, top5_correct: 0, total: 0 },
            };
            merged.add(metrics);
            self.classification = Some(merged);
        }
        if let Some(metrics) = detection {
            self.has_detection_output = true;
            self.has_mask_output = self.has_mask_output || is_segmentation;
            self.has_pose_output = self.has_pose_output || is_pose;
            let mut merged = match self.detection {
                Some(t) => t,
                None => DetectionEvalMetrics { matched_targets: 0, total_targets: 0, predictions: 0 },
            };
            merged.add(metrics);
            self.detection = Some(merged);
        }
    }
}

} // verus!
