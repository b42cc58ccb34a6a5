# yolo_train

Training-side logic for YOLO-style detectors, verified with Verus.

`src/` is the verified library:

- `freeze.rs`: layer-freezing rules for named train variables.
- `names.rs`: task kinds, task-head variables, optimizer parameter groups,
  `optimizer=auto` selection and class-name validation.
- `glob.rs`: dataset path rules: glob components, image and text extensions,
  and list-file entries.
- `targets.rs`, `semantic_masks.rs`, `heads.rs`: shape rules of training
  targets, the per-pixel class maps of segmentation targets, and head layouts.
- `output.rs`, `route.rs`, `semantic_loss.rs`: model outputs and targets, the
  choice of supervised loss for a pair of them, and the losses that are plain
  tensor arithmetic.
- `assignment.rs`: task-aligned assignment of anchors to ground-truth objects.
- `matching.rs`: matching of predictions to targets for evaluation.
- `metrics.rs`: integer evaluation counts and the semantic confusion matrix.
- `eval_loop.rs`: the number of evaluation steps over a dataset and the
  running counts merged batch by batch.
- `text.rs`, `error.rs`, `tensor.rs`: string helpers, the error type, and the
  candle tensor boundary, where a tensor is modelled by its shape, element
  type, device and layout, and by which candle call made it from which others.

Measurements that are floating point (overlaps, alignment metrics) reach the
verified code as order keys: integers that compare as the measured values do.

`app/` holds the floating-point arithmetic (rates, mAP, schedules, target
buffers), file-system walking, and the candle plumbing around the library.
