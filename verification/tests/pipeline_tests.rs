//! End-to-end and per-stage tests of the detection pipeline on concrete
//! values. Scores and normalized coordinates are fixed-point: 1_000_000
//! stands for 1.0.
use detection_core::decoder::decode_all;
use detection_core::decoder::decode_tensor;
use detection_core::decoder::Candidate;
use detection_core::filter::filter_candidates;
use detection_core::geometry::Rect;
use detection_core::nms::nms_indices;
use detection_core::pipeline::process_frame;
use detection_core::pipeline::PipelineConfig;
use detection_core::tensor::RawTensor;

fn cand(class_id: usize, confidence: i64, left: i32, top: i32, width: i32, height: i32) -> Candidate {
    Candidate { class_id, confidence, rect: Rect { left, top, width, height } }
}

#[test]
fn empty_tensor_yields_no_candidates() {
    let t = RawTensor::new(7);
    let cands = decode_tensor(&t, 100, 100);
    assert_eq!(cands.len(), 0);
}

#[test]
fn decoder_takes_argmax_of_class_scores() {
    let mut t = RawTensor::new(8);
    // objectness 0.95 must be ignored; the class scores are 0.3, 0.9, 0.7
    t.push_row(vec![500_000, 500_000, 200_000, 200_000, 950_000, 300_000, 900_000, 700_000]);
    let cands = decode_tensor(&t, 416, 416);
    assert_eq!(cands.len(), 1);
    assert_eq!(cands[0].class_id, 1);
    assert_eq!(cands[0].confidence, 900_000);
}

#[test]
fn decoder_breaks_score_ties_by_lowest_index() {
    let mut t = RawTensor::new(9);
    t.push_row(vec![0, 0, 0, 0, 0, 400_000, 800_000, 800_000, 100_000]);
    let cands = decode_tensor(&t, 100, 100);
    assert_eq!(cands[0].class_id, 1);
    assert_eq!(cands[0].confidence, 800_000);
}

#[test]
fn decoder_scales_box_with_truncation() {
    let mut t = RawTensor::new(7);
    // center 0.333333 of 100 px truncates to 33; size 0.05 of 100 px is 5
    t.push_row(vec![333_333, 333_333, 50_000, 50_000, 0, 700_000, 100_000]);
    let cands = decode_tensor(&t, 100, 100);
    let r = cands[0].rect;
    assert_eq!(r.width, 5);
    assert_eq!(r.height, 5);
    // left = 33 - 5/2 = 33 - 2 = 31
    assert_eq!(r.left, 31);
    assert_eq!(r.top, 31);
}

#[test]
fn decode_all_concatenates_in_tensor_order() {
    let mut a = RawTensor::new(7);
    a.push_row(vec![0, 0, 0, 0, 0, 100_000, 200_000]);
    let mut b = RawTensor::new(7);
    b.push_row(vec![0, 0, 0, 0, 0, 900_000, 300_000]);
    b.push_row(vec![0, 0, 0, 0, 0, 100_000, 600_000]);
    let cands = decode_all(&vec![a, b], 100, 100);
    assert_eq!(cands.len(), 3);
    assert_eq!(cands[0].confidence, 200_000);
    assert_eq!(cands[1].confidence, 900_000);
    assert_eq!(cands[2].confidence, 600_000);
}

#[test]
fn filter_keeps_strictly_above_threshold_in_order() {
    let cands = vec![
        cand(0, 900_000, 0, 0, 10, 10),
        cand(1, 500_000, 0, 0, 10, 10),
        cand(2, 500_001, 0, 0, 10, 10),
        cand(3, 100_000, 0, 0, 10, 10),
    ];
    let kept = filter_candidates(&cands, 500_000);
    assert_eq!(kept.len(), 2);
    assert_eq!(kept[0].class_id, 0);
    assert_eq!(kept[1].class_id, 2);
}

#[test]
fn filter_is_idempotent_on_concrete_values() {
    let cands = vec![
        cand(0, 900_000, 0, 0, 10, 10),
        cand(1, 200_000, 0, 0, 10, 10),
        cand(2, 700_000, 5, 5, 10, 10),
    ];
    let once = filter_candidates(&cands, 500_000);
    let twice = filter_candidates(&once, 500_000);
    assert_eq!(once, twice);
}

#[test]
fn nms_keeps_a_single_candidate() {
    let cands = vec![cand(0, 300_000, 10, 10, 50, 50)];
    let kept = nms_indices(&cands, 400_000, 1_000_000, false);
    assert_eq!(kept, vec![0]);
}

#[test]
fn nms_on_identical_boxes_keeps_higher_confidence() {
    let cands = vec![
        cand(0, 600_000, 10, 10, 50, 50),
        cand(0, 900_000, 10, 10, 50, 50),
    ];
    let kept = nms_indices(&cands, 400_000, 1_000_000, false);
    assert_eq!(kept, vec![1]);
}

#[test]
fn nms_on_identical_boxes_equal_confidence_keeps_lower_index() {
    let cands = vec![
        cand(0, 800_000, 10, 10, 50, 50),
        cand(0, 800_000, 10, 10, 50, 50),
    ];
    let kept = nms_indices(&cands, 400_000, 1_000_000, false);
    assert_eq!(kept, vec![0]);
}

#[test]
fn nms_suppresses_heavy_overlap_above_threshold() {
    // IoU of (0,0,100,100) and (0,0,100,70) is 7000/10000 = 0.7 > 0.4:
    // only the 0.9-confidence box survives
    let cands = vec![
        cand(0, 900_000, 0, 0, 100, 100),
        cand(0, 600_000, 0, 0, 100, 70),
    ];
    let kept = nms_indices(&cands, 400_000, 1_000_000, false);
    assert_eq!(kept, vec![0]);
}

#[test]
fn nms_keeps_overlap_at_or_below_threshold() {
    // IoU of (0,0,100,100) and (0,0,100,70) is exactly 0.7: not above 0.7,
    // so both survive, in confidence order
    let cands = vec![
        cand(0, 600_000, 0, 0, 100, 70),
        cand(0, 900_000, 0, 0, 100, 100),
    ];
    let kept = nms_indices(&cands, 700_000, 1_000_000, false);
    assert_eq!(kept, vec![1, 0]);
}

#[test]
fn nms_treats_degenerate_boxes_as_non_overlapping() {
    // zero-area boxes have IoU 0 with everything, even themselves
    let cands = vec![
        cand(0, 900_000, 10, 10, 0, 50),
        cand(0, 800_000, 10, 10, 0, 50),
    ];
    let kept = nms_indices(&cands, 400_000, 1_000_000, false);
    assert_eq!(kept, vec![0, 1]);
}

#[test]
fn nms_orders_kept_indices_by_descending_confidence() {
    let cands = vec![
        cand(0, 100_000, 0, 0, 10, 10),
        cand(1, 900_000, 500, 500, 10, 10),
        cand(2, 500_000, 1000, 1000, 10, 10),
    ];
    let kept = nms_indices(&cands, 400_000, 1_000_000, false);
    assert_eq!(kept, vec![1, 2, 0]);
}

#[test]
fn class_aware_nms_keeps_overlapping_boxes_of_different_classes() {
    let cands = vec![
        cand(0, 900_000, 10, 10, 50, 50),
        cand(1, 600_000, 10, 10, 50, 50),
        cand(0, 500_000, 10, 10, 50, 50),
    ];
    let kept = nms_indices(&cands, 400_000, 1_000_000, true);
    // the same-class duplicate at index 2 is suppressed; the other class stays
    assert_eq!(kept, vec![0, 1]);
}

#[test]
fn end_to_end_single_row_two_classes() {
    // one row [0.5, 0.5, 0.2, 0.2, 0.9, 0.1, 0.8] (2 classes) at frame
    // 100x100 with threshold 0.5: class 1, confidence 0.8,
    // box {left: 40, top: 40, width: 20, height: 20}; it survives the
    // filter and singleton suppression keeps it
    let mut t = RawTensor::new(7);
    t.push_row(vec![500_000, 500_000, 200_000, 200_000, 900_000, 100_000, 800_000]);
    let cfg = PipelineConfig::default();
    let out = process_frame(&vec![t], 100, 100, &cfg);
    assert_eq!(out.candidates.len(), 1);
    let c = out.candidates[0];
    assert_eq!(c.class_id, 1);
    assert_eq!(c.confidence, 800_000);
    assert_eq!(c.rect, Rect { left: 40, top: 40, width: 20, height: 20 });
    assert_eq!(out.kept, vec![0]);
}

#[test]
fn process_frame_discards_everything_below_threshold() {
    let mut t = RawTensor::new(7);
    t.push_row(vec![500_000, 500_000, 200_000, 200_000, 900_000, 100_000, 300_000]);
    let cfg = PipelineConfig::default();
    let out = process_frame(&vec![t], 100, 100, &cfg);
    assert_eq!(out.candidates.len(), 0);
    assert_eq!(out.kept.len(), 0);
}

#[test]
fn default_config_matches_documented_values() {
    let cfg = PipelineConfig::default();
    assert_eq!(cfg.confidence_threshold, 500_000);
    assert_eq!(cfg.iou_num, 400_000);
    assert_eq!(cfg.iou_den, 1_000_000);
    assert!(!cfg.class_aware_nms);
    assert_eq!(cfg.net_input_width, 416);
    assert_eq!(cfg.net_input_height, 416);
}

#[test]
fn tensor_accessors_report_shape_and_cells() {
    let mut t = RawTensor::new(7);
    t.push_row(vec![1, 2, 3, 4, 5, 6, 7]);
    t.push_row(vec![8, 9, 10, 11, 12, 13, 14]);
    assert_eq!(t.num_rows(), 2);
    assert_eq!(t.num_cols(), 7);
    assert_eq!(t.at(0, 0), 1);
    assert_eq!(t.at(1, 6), 14);
}
