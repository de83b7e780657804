//! The streaming pipeline's decision core: the job-phase state machine the
//! driver steps through, the bounded hand-off queue that gives the stages
//! backpressure, and the progress-reporting cadence.
//!
//! The driver performs the outside work (decoding, estimating, encoding)
//! and feeds the resulting events back here; every decision about phases,
//! buffering, and reporting is made by these verified functions.
use vstd::prelude::*;

verus! {

/// How many frames a hand-off queue buffers before the sender must wait.
pub const QUEUE_CAPACITY: usize = 10;

/// The phase a video job is in.
#[derive(Clone, Copy, Debug, PartialEq, Eq, Structural)]
pub enum PipelineStage {
    /// Reading container metadata.
    Probing,
    /// First pass of a two-pass run: sampling every frame's depth range.
    ScanningDepths,
    /// Pulling raw decoded frames, none processed yet.
    Extracting,
    /// Producing stereo pairs, overlapped with extraction and encoding.
    Processing,
    /// Upstream is drained; the encoder is finishing the output file.
    Encoding,
    Complete,
    Failed,
}

/// What happened since the last step.
#[derive(Clone, Copy, Debug, PartialEq, Eq, Structural)]
pub enum PipelineEvent {
    /// The probe reported metadata, with the frame count.
    ProbeSucceeded { total_frames: u32 },
    /// The probe failed.
    ProbeFailed,
    /// One frame's depth range was sampled in the first pass.
    ScanFrame,
    /// The first pass reached the end of the stream.
    ScanFinished,
    /// One frame was estimated, post-processed, and synthesized.
    FrameProcessed,
    /// The decoder closed its output: no more raw frames.
    ExtractionFinished,
    /// The encoder consumed everything and finalized the output.
    EncoderFinished,
    /// Depth estimation, synthesis, or a stream failed; the job aborts.
    StageFailed,
}

/// The job state the driver threads through its loop.
#[derive(Clone, Copy, Debug, PartialEq, Eq, Structural)]
pub struct PipelineState {
    pub stage: PipelineStage,
    /// Whether a first depth-scanning pass runs (global normalization).
    pub two_pass: bool,
    pub total_frames: u32,
    /// Frames sampled by the first pass.
    pub scanned: u32,
    /// Stereo pairs produced so far.
    pub processed: u32,
}

impl PipelineState {
    /// The state a job starts in.
    pub fn begin(two_pass: bool) -> (r: Self)
        ensures
            r.stage == PipelineStage::Probing,
            r.two_pass == two_pass,
            r.total_frames == 0,
            r.scanned == 0,
            r.processed == 0,
    {
        PipelineState {
            stage: PipelineStage::Probing,
            two_pass,
            total_frames: 0,
            scanned: 0,
            processed: 0,
        }
    }
}

/// The transition relation: `Probing` moves to `ScanningDepths` (two-pass)
/// or `Extracting`; scanning counts frames until the stream ends; the first
/// processed frame moves `Extracting` to `Processing`; the decoder closing
/// moves to `Encoding`; the encoder finishing completes the job; a stage
/// failure is terminal, and an event that does not belong to the current
/// phase changes nothing. The counters saturate.
pub open spec fn step_spec(s: PipelineState, e: PipelineEvent) -> PipelineState {
    match (s.stage, e) {
        (PipelineStage::Probing, PipelineEvent::ProbeSucceeded { total_frames }) =>
            PipelineState {
                stage: if s.two_pass { PipelineStage::ScanningDepths } else { PipelineStage::Extracting },
                total_frames,
                ..s
            },
        (PipelineStage::Probing, PipelineEvent::ProbeFailed) =>
            PipelineState { stage: PipelineStage::Failed, ..s },
        (PipelineStage::ScanningDepths, PipelineEvent::ScanFrame) =>
            PipelineState {
                scanned: if s.scanned < u32::MAX { (s.scanned + 1) as u32 } else { s.scanned },
                ..s
            },
        (PipelineStage::ScanningDepths, PipelineEvent::ScanFinished) =>
            PipelineState { stage: PipelineStage::Extracting, ..s },
        (PipelineStage::Extracting, PipelineEvent::FrameProcessed) =>
            PipelineState {
                stage: PipelineStage::Processing,
                processed: 1,
                ..s
            },
        (PipelineStage::Processing, PipelineEvent::FrameProcessed) =>
            PipelineState {
                processed: if s.processed < u32::MAX { (s.processed + 1) as u32 } else { s.processed },
                ..s
            },
        (PipelineStage::Extracting, PipelineEvent::ExtractionFinished) =>
            PipelineState { stage: PipelineStage::Encoding, ..s },
        (PipelineStage::Processing, PipelineEvent::ExtractionFinished) =>
            PipelineState { stage: PipelineStage::Encoding, ..s },
        (PipelineStage::Encoding, PipelineEvent::EncoderFinished) =>
            PipelineState { stage: PipelineStage::Complete, ..s },
        (PipelineStage::Complete, _) => s,
        (PipelineStage::Failed, _) => s,
        (_, PipelineEvent::StageFailed) =>
            PipelineState { stage: PipelineStage::Failed, ..s },
        _ => s,
    }
}

/// Advances the job state by one event.
pub fn pipeline_step(s: PipelineState, e: PipelineEvent) -> (r: PipelineState)
    ensures
        r == step_spec(s, e),
{
    match (s.stage, e) {
        (PipelineStage::Probing, PipelineEvent::ProbeSucceeded { total_frames }) =>
            PipelineState {
                stage: if s.two_pass { PipelineStage::ScanningDepths } else { PipelineStage::Extracting },
                total_frames,
                ..s
            },
        (PipelineStage::Probing, PipelineEvent::ProbeFailed) =>
            PipelineState { stage: PipelineStage::Failed, ..s },
        (PipelineStage::ScanningDepths, PipelineEvent::ScanFrame) =>
            PipelineState {
                scanned: if s.scanned < u32::MAX { s.scanned + 1 } else { s.scanned },
                ..s
            },
        (PipelineStage::ScanningDepths, PipelineEvent::ScanFinished) =>
            PipelineState { stage: PipelineStage::Extracting, ..s },
        (PipelineStage::Extracting, PipelineEvent::FrameProcessed) =>
            PipelineState { stage: PipelineStage::Processing, processed: 1, ..s },
        (PipelineStage::Processing, PipelineEvent::FrameProcessed) =>
            PipelineState {
                processed: if s.processed < u32::MAX { s.processed + 1 } else { s.processed },
                ..s
            },
        (PipelineStage::Extracting, PipelineEvent::ExtractionFinished) =>
            PipelineState { stage: PipelineStage::Encoding, ..s },
        (PipelineStage::Processing, PipelineEvent::ExtractionFinished) =>
            PipelineState { stage: PipelineStage::Encoding, ..s },
        (PipelineStage::Encoding, PipelineEvent::EncoderFinished) =>
            PipelineState { stage: PipelineStage::Complete, ..s },
        (PipelineStage::Complete, _) => s,
        (PipelineStage::Failed, _) => s,
        (_, PipelineEvent::StageFailed) =>
            PipelineState { stage: PipelineStage::Failed, ..s },
        _ => s,
    }
}

/// A terminal state stays terminal under every event.
///
/// Law: once a job is `Complete` or `Failed`, no event moves it.
pub proof fn lemma_terminal_states_stick(s: PipelineState, e: PipelineEvent)
    requires
        s.stage == PipelineStage::Complete || s.stage == PipelineStage::Failed,
    ensures
        step_spec(s, e) == s,
{
}

/// Whether the processing loop reports progress on this frame: every tenth
/// frame, and the last one.
pub fn should_report(frame: u32, total_frames: u32) -> (r: bool)
    ensures
        r == (frame % 10 == 0 || frame == total_frames),
{
    frame % 10 == 0 || frame == total_frames
}

/// A bounded FIFO hand-off queue between two pipeline stages. A send on a
/// full queue is refused (the sender waits and retries: backpressure), so
/// the buffer never grows past its capacity.
pub struct FrameQueue<T> {
    items: Vec<T>,
    capacity: usize,
}

impl<T> FrameQueue<T> {
    /// The buffered items, oldest first.
    pub closed spec fn view(&self) -> Seq<T> {
        self.items@
    }

    /// The fixed capacity.
    pub closed spec fn cap(&self) -> int {
        self.capacity as int
    }

    /// The queue never holds more than its capacity.
    pub open spec fn wf(&self) -> bool {
        &&& self.cap() >= 1
        &&& self.view().len() <= self.cap()
    }

    /// An empty queue with the given capacity.
    pub fn new(capacity: usize) -> (r: Self)
        requires
            capacity >= 1,
        ensures
            r.wf(),
            r.cap() == capacity,
            r.view().len() == 0,
    {
        FrameQueue { items: Vec::new(), capacity }
    }

    /// How many items are buffered.
    pub fn len(&self) -> (r: usize)
        ensures
            r == self.view().len(),
    {
        self.items.len()
    }

    /// Hands an item to the queue. A full queue refuses and returns the
    /// item to the sender, which must wait: this is the backpressure that
    /// bounds memory.
    pub fn try_send(&mut self, t: T) -> (r: Option<T>)
        requires
            old(self).wf(),
        ensures
            final(self).wf(),
            final(self).cap() == old(self).cap(),
            old(self).view().len() < old(self).cap() ==> (
                r is None && final(self).view() == old(self).view().push(t)),
            old(self).view().len() == old(self).cap() ==> (
                r == Some(t) && final(self).view() == old(self).view()),
    {
        if self.items.len() < self.capacity {
            self.items.push(t);
            None
        } else {
            Some(t)
        }
    }

    /// Takes the oldest item, or `None` when the queue is empty.
    pub fn receive(&mut self) -> (r: Option<T>)
        requires
            old(self).wf(),
        ensures
            final(self).wf(),
            final(self).cap() == old(self).cap(),
            old(self).view().len() == 0 ==> (r is None
                && final(self).view() == old(self).view()),
            old(self).view().len() > 0 ==> (r == Some(old(self).view()[0])
                && final(self).view() == old(self).view().drop_first()),
    {
        if self.items.len() == 0 {
            None
        } else {
            let t = self.items.remove(0);
            proof {
                assert(self.items@ =~= old(self).items@.drop_first());
            }
            Some(t)
        }
    }
}

/// Law: bounded memory under backpressure. However fast frames are fed and
/// however the three stages interleave, the frames in flight — the two
/// hand-off queues' contents plus at most one frame held inside each
/// stage — never exceed the two capacities plus the stage count.
pub proof fn lemma_bounded_in_flight<A, B>(
    raw: FrameQueue<A>,
    pairs: FrameQueue<B>,
    held_by_stages: int,
)
    requires
        raw.wf(),
        pairs.wf(),
        0 <= held_by_stages <= 3,
    ensures
        raw.view().len() + pairs.view().len() + held_by_stages
            <= raw.cap() + pairs.cap() + 3,
{
}

} // verus!
