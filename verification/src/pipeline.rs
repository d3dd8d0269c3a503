//! The frame pipeline: configuration, the per-frame decode → filter →
//! suppress computation, labeling of the kept detections, and the
//! stream-termination state machine.
//!
//! Frame acquisition, inference, and rendering are external collaborators;
//! they hand tensors and frame dimensions in and take labeled boxes out.
use vstd::prelude::*;

use crate::decoder::decode_all;
use crate::decoder::spec_decode_all;
use crate::decoder::tensor_views;
use crate::decoder::Candidate;
use crate::filter::filter_candidates;
use crate::filter::spec_filter;
use crate::geometry::Rect;
use crate::nms::is_nms_result;
use crate::nms::nms_indices;
use crate::resolver::ConfigError;
use crate::tensor::RawTensor;
use crate::DIM_LIMIT;
use crate::FIXED_ONE;
use crate::RATIO_LIMIT;

verus! {

/// The pipeline's configuration: fixed-point confidence threshold, rational
/// IoU threshold, the suppression policy, and the network's input
/// resolution.
#[derive(Clone, Copy, PartialEq, Eq, Structural, Debug)]
pub struct PipelineConfig {
    /// Candidates at or below this fixed-point confidence are discarded.
    pub confidence_threshold: i64,
    /// IoU threshold numerator.
    pub iou_num: i64,
    /// IoU threshold denominator.
    pub iou_den: i64,
    /// When set, suppression only acts between candidates of the same class.
    pub class_aware_nms: bool,
    /// Width the network expects its input image scaled to.
    pub net_input_width: i64,
    /// Height the network expects its input image scaled to.
    pub net_input_height: i64,
}

impl PipelineConfig {
    pub open spec fn wf(&self) -> bool {
        &&& 0 < self.confidence_threshold < FIXED_ONE
        &&& 0 <= self.iou_num <= RATIO_LIMIT
        &&& 0 < self.iou_den <= RATIO_LIMIT
        &&& 0 < self.net_input_width <= DIM_LIMIT
        &&& 0 < self.net_input_height <= DIM_LIMIT
    }
}

impl Default for PipelineConfig {
    /// Confidence threshold 0.5, IoU threshold 0.4, global (class-unaware)
    /// suppression, 416x416 network input.
    fn default() -> (c: PipelineConfig)
        ensures
            c.wf(),
            c.confidence_threshold == 500_000i64,
            c.iou_num == 400_000i64,
            c.iou_den == 1_000_000i64,
            !c.class_aware_nms,
            c.net_input_width == 416i64,
            c.net_input_height == 416i64,
    {
        PipelineConfig {
            confidence_threshold: 500_000,
            iou_num: 400_000,
            iou_den: 1_000_000,
            class_aware_nms: false,
            net_input_width: 416,
            net_input_height: 416,
        }
    }
}

/// The result of one frame: the post-filter candidates, and the indices of
/// the kept (non-suppressed) ones, into `candidates`, in
/// confidence-descending order.
pub struct FrameDetections {
    pub candidates: Vec<Candidate>,
    pub kept: Vec<usize>,
}

impl FrameDetections {
    /// Every kept index refers to the post-filter candidate list.
    pub open spec fn wf(&self) -> bool {
        forall|k: int|
            0 <= k < self.kept@.len() ==> (#[trigger] self.kept@[k]) < self.candidates@.len()
    }
}

/// One frame's computation: decode every tensor row, discard candidates at
/// or below the confidence threshold, and greedily suppress overlapping
/// survivors.
pub fn process_frame(
    tensors: &Vec<RawTensor>,
    frame_w: i64,
    frame_h: i64,
    cfg: &PipelineConfig,
) -> (out: FrameDetections)
    requires
        forall|k: int| 0 <= k < tensors@.len() ==> (#[trigger] tensors@[k]).wf(),
        0 <= frame_w <= DIM_LIMIT,
        0 <= frame_h <= DIM_LIMIT,
        cfg.wf(),
    ensures
        out.candidates@ == spec_filter(
            spec_decode_all(tensor_views(tensors@), frame_w as int, frame_h as int),
            cfg.confidence_threshold,
        ),
        is_nms_result(out.candidates@, cfg.iou_num, cfg.iou_den, cfg.class_aware_nms, out.kept@),
        out.wf(),
{
    let decoded = decode_all(tensors, frame_w, frame_h);
    let candidates = filter_candidates(&decoded, cfg.confidence_threshold);
    let kept = nms_indices(&candidates, cfg.iou_num, cfg.iou_den, cfg.class_aware_nms);
    FrameDetections { candidates, kept }
}

/// A kept detection, ready for the renderer: its box, class, confidence,
/// and the class's display name.
#[derive(Debug)]
pub struct LabeledDetection {
    pub rect: Rect,
    pub class_id: usize,
    pub confidence: i64,
    pub label: String,
}

/// Pairs each kept detection with its class name. Fails with the first kept
/// detection whose class id has no name, if any.
pub fn label_detections(dets: &FrameDetections, class_names: &Vec<String>) -> (r: Result<
    Vec<LabeledDetection>,
    ConfigError,
>)
    requires
        dets.wf(),
    ensures
        match r {
            Ok(out) => {
                &&& out@.len() == dets.kept@.len()
                &&& forall|k: int|
                    0 <= k < out@.len() ==> {
                        let c = dets.candidates@[dets.kept@[k] as int];
                        &&& (#[trigger] out@[k]).rect == c.rect
                        &&& out@[k].class_id == c.class_id
                        &&& out@[k].confidence == c.confidence
                        &&& c.class_id < class_names@.len()
                        &&& out@[k].label@ == class_names@[c.class_id as int]@
                    }
            },
            Err(e) => {
                &&& e matches ConfigError::MissingClassName { position, class_id }
                &&& e matches ConfigError::MissingClassName { position, class_id } ==> {
                    &&& position < dets.kept@.len()
                    &&& class_id == dets.candidates@[dets.kept@[position as int] as int].class_id
                    &&& class_id >= class_names@.len()
                    &&& forall|m: int|
                        0 <= m < position ==> (#[trigger] dets.candidates@[dets.kept@[m] as int]).class_id
                            < class_names@.len()
                }
            },
        },
{
    let n = dets.kept.len();
    let mut out: Vec<LabeledDetection> = Vec::new();
    let mut k: usize = 0;
    while k < n
        invariant
            dets.wf(),
            n == dets.kept@.len(),
            k <= n,
            out@.len() == k,
            forall|m: int|
                0 <= m < k ==> {
                    let c = dets.candidates@[dets.kept@[m] as int];
                    &&& (#[trigger] out@[m]).rect == c.rect
                    &&& out@[m].class_id == c.class_id
                    &&& out@[m].confidence == c.confidence
                    &&& c.class_id < class_names@.len()
                    &&& out@[m].label@ == class_names@[c.class_id as int]@
                },
        decreases n - k,
    {
        let idx = dets.kept[k];
        let c = dets.candidates[idx];
        if c.class_id >= class_names.len() {
            proof {
                assert forall|m: int|
                    0 <= m < k as int implies (#[trigger] dets.candidates@[dets.kept@[m] as int]).class_id
                    < class_names@.len() by {
                    assert(out@[m].class_id == dets.candidates@[dets.kept@[m] as int].class_id);
                }
            }
            return Err(
                ConfigError::MissingClassName { position: k, class_id: c.class_id },
            );
        }
        let label = class_names[c.class_id].clone();
        out.push(
            LabeledDetection {
                rect: c.rect,
                class_id: c.class_id,
                confidence: c.confidence,
                label,
            },
        );
        k += 1;
    }
    Ok(out)
}

/// The orchestrator's stream state: processing frames, or stopped for good.
#[derive(Clone, Copy, PartialEq, Eq, Structural, Debug)]
pub enum PipelineState {
    AwaitingFrame,
    Stopped,
}

/// The next state: stopped once stopped, stopped when the source has no
/// next frame or the user asked to quit, otherwise awaiting the next frame.
pub open spec fn spec_advance(
    s: PipelineState,
    frame_available: bool,
    quit_requested: bool,
) -> PipelineState {
    if s matches PipelineState::Stopped || !frame_available || quit_requested {
        PipelineState::Stopped
    } else {
        PipelineState::AwaitingFrame
    }
}

/// One step of the stream-termination state machine, taken once per frame
/// boundary. The caller pulls the next frame ("is one available?") and
/// polls the UI ("was quit requested?"); stream exhaustion is a normal
/// terminal signal, not an error.
pub fn advance_state(s: PipelineState, frame_available: bool, quit_requested: bool) -> (n:
    PipelineState)
    ensures
        n == spec_advance(s, frame_available, quit_requested),
{
    match s {
        PipelineState::Stopped => PipelineState::Stopped,
        PipelineState::AwaitingFrame => {
            if frame_available && !quit_requested {
                PipelineState::AwaitingFrame
            } else {
                PipelineState::Stopped
            }
        },
    }
}

} // verus!
