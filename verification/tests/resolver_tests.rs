//! Tests of the layer-name resolver, detection labeling, the stream state
//! machine, and the argument record.
use detection_core::args::Args;
use detection_core::decoder::Candidate;
use detection_core::geometry::Rect;
use detection_core::pipeline::advance_state;
use detection_core::pipeline::label_detections;
use detection_core::pipeline::FrameDetections;
use detection_core::pipeline::PipelineState;
use detection_core::resolver::resolve_layer_names;
use detection_core::resolver::ConfigError;

fn names(v: &[&str]) -> Vec<String> {
    v.iter().map(|s| s.to_string()).collect()
}

#[test]
fn resolver_maps_one_indexed_ordinals() {
    let layer_names = names(&["a", "b", "c"]);
    let resolved = resolve_layer_names(&layer_names, &vec![3]).unwrap();
    assert_eq!(resolved, names(&["c"]));
}

#[test]
fn resolver_maps_several_ordinals_in_request_order() {
    let layer_names = names(&["conv_1", "yolo_82", "conv_2", "yolo_94"]);
    let resolved = resolve_layer_names(&layer_names, &vec![2, 4]).unwrap();
    assert_eq!(resolved, names(&["yolo_82", "yolo_94"]));
}

#[test]
fn resolver_rejects_ordinal_zero() {
    let layer_names = names(&["a", "b", "c"]);
    let err = resolve_layer_names(&layer_names, &vec![0]).unwrap_err();
    assert_eq!(err, ConfigError::LayerOrdinalOutOfRange { position: 0, ordinal: 0 });
}

#[test]
fn resolver_rejects_ordinal_past_the_end() {
    let layer_names = names(&["a", "b", "c"]);
    let err = resolve_layer_names(&layer_names, &vec![4]).unwrap_err();
    assert_eq!(err, ConfigError::LayerOrdinalOutOfRange { position: 0, ordinal: 4 });
}

#[test]
fn resolver_reports_first_bad_ordinal() {
    let layer_names = names(&["a", "b", "c"]);
    let err = resolve_layer_names(&layer_names, &vec![1, -2, 9]).unwrap_err();
    assert_eq!(err, ConfigError::LayerOrdinalOutOfRange { position: 1, ordinal: -2 });
}

#[test]
fn labeling_pairs_kept_detections_with_class_names() {
    let dets = FrameDetections {
        candidates: vec![
            Candidate {
                class_id: 1,
                confidence: 900_000,
                rect: Rect { left: 1, top: 2, width: 3, height: 4 },
            },
            Candidate {
                class_id: 0,
                confidence: 700_000,
                rect: Rect { left: 5, top: 6, width: 7, height: 8 },
            },
        ],
        kept: vec![0, 1],
    };
    let labeled = label_detections(&dets, &names(&["person", "bicycle"])).unwrap();
    assert_eq!(labeled.len(), 2);
    assert_eq!(labeled[0].label, "bicycle");
    assert_eq!(labeled[0].class_id, 1);
    assert_eq!(labeled[0].confidence, 900_000);
    assert_eq!(labeled[0].rect, Rect { left: 1, top: 2, width: 3, height: 4 });
    assert_eq!(labeled[1].label, "person");
}

#[test]
fn labeling_fails_on_missing_class_name() {
    let dets = FrameDetections {
        candidates: vec![
            Candidate {
                class_id: 2,
                confidence: 900_000,
                rect: Rect { left: 0, top: 0, width: 5, height: 5 },
            },
        ],
        kept: vec![0],
    };
    let err = label_detections(&dets, &names(&["person", "bicycle"])).unwrap_err();
    assert_eq!(err, ConfigError::MissingClassName { position: 0, class_id: 2 });
}

#[test]
fn state_machine_stops_on_exhaustion_quit_or_stop() {
    let s = PipelineState::AwaitingFrame;
    assert_eq!(advance_state(s, true, false), PipelineState::AwaitingFrame);
    assert_eq!(advance_state(s, false, false), PipelineState::Stopped);
    assert_eq!(advance_state(s, true, true), PipelineState::Stopped);
    assert_eq!(advance_state(PipelineState::Stopped, true, false), PipelineState::Stopped);
}

#[test]
fn args_record_holds_the_four_paths() {
    let a = Args::new(
        "video.mp4".to_string(),
        "yolo.weights".to_string(),
        "yolo.cfg".to_string(),
        "coco.names".to_string(),
    );
    assert_eq!(a.file, "video.mp4");
    assert_eq!(a.weights, "yolo.weights");
    assert_eq!(a.config, "yolo.cfg");
    assert_eq!(a.coco, "coco.names");
}
