use spatial_maker::pipeline::{
    pipeline_step, should_report, FrameQueue, PipelineEvent, PipelineStage, PipelineState,
    QUEUE_CAPACITY,
};

#[test]
fn single_pass_job_walks_through_its_phases() {
    let s0 = PipelineState::begin(false);
    assert_eq!(s0.stage, PipelineStage::Probing);
    let s1 = pipeline_step(s0, PipelineEvent::ProbeSucceeded { total_frames: 42 });
    assert_eq!(s1.stage, PipelineStage::Extracting);
    assert_eq!(s1.total_frames, 42);
    let s2 = pipeline_step(s1, PipelineEvent::FrameProcessed);
    assert_eq!(s2.stage, PipelineStage::Processing);
    assert_eq!(s2.processed, 1);
    let s3 = pipeline_step(s2, PipelineEvent::FrameProcessed);
    assert_eq!(s3.processed, 2);
    let s4 = pipeline_step(s3, PipelineEvent::ExtractionFinished);
    assert_eq!(s4.stage, PipelineStage::Encoding);
    let s5 = pipeline_step(s4, PipelineEvent::EncoderFinished);
    assert_eq!(s5.stage, PipelineStage::Complete);
}

#[test]
fn two_pass_job_scans_before_extracting() {
    let s0 = PipelineState::begin(true);
    let s1 = pipeline_step(s0, PipelineEvent::ProbeSucceeded { total_frames: 3 });
    assert_eq!(s1.stage, PipelineStage::ScanningDepths);
    let s2 = pipeline_step(s1, PipelineEvent::ScanFrame);
    let s3 = pipeline_step(s2, PipelineEvent::ScanFrame);
    assert_eq!(s3.scanned, 2);
    let s4 = pipeline_step(s3, PipelineEvent::ScanFinished);
    assert_eq!(s4.stage, PipelineStage::Extracting);
}

#[test]
fn failures_are_terminal() {
    let s0 = PipelineState::begin(false);
    let s1 = pipeline_step(s0, PipelineEvent::ProbeFailed);
    assert_eq!(s1.stage, PipelineStage::Failed);
    let s2 = pipeline_step(s1, PipelineEvent::FrameProcessed);
    assert_eq!(s2.stage, PipelineStage::Failed);
    let processing = pipeline_step(
        pipeline_step(
            PipelineState::begin(false),
            PipelineEvent::ProbeSucceeded { total_frames: 5 },
        ),
        PipelineEvent::FrameProcessed,
    );
    let failed = pipeline_step(processing, PipelineEvent::StageFailed);
    assert_eq!(failed.stage, PipelineStage::Failed);
    assert_eq!(
        pipeline_step(failed, PipelineEvent::EncoderFinished).stage,
        PipelineStage::Failed
    );
}

#[test]
fn out_of_phase_events_change_nothing() {
    let s0 = PipelineState::begin(false);
    let same = pipeline_step(s0, PipelineEvent::EncoderFinished);
    assert_eq!(same, s0);
    let complete = PipelineState {
        stage: PipelineStage::Complete,
        ..s0
    };
    assert_eq!(pipeline_step(complete, PipelineEvent::StageFailed), complete);
}

#[test]
fn reporting_cadence() {
    assert!(should_report(0, 42));
    assert!(should_report(10, 42));
    assert!(!should_report(11, 42));
    assert!(should_report(42, 42));
}

#[test]
fn queue_is_fifo_within_its_capacity() {
    let mut q: FrameQueue<u32> = FrameQueue::new(3);
    assert_eq!(q.try_send(1), None);
    assert_eq!(q.try_send(2), None);
    assert_eq!(q.try_send(3), None);
    // the queue is full: the item comes back to the sender
    assert_eq!(q.try_send(4), Some(4));
    assert_eq!(q.len(), 3);
    assert_eq!(q.receive(), Some(1));
    assert_eq!(q.try_send(4), None);
    assert_eq!(q.receive(), Some(2));
    assert_eq!(q.receive(), Some(3));
    assert_eq!(q.receive(), Some(4));
    assert_eq!(q.receive(), None);
}

#[test]
fn backpressure_bounds_the_in_flight_count() {
    // a producer twice as fast as the consumer: the buffer never grows
    // past its capacity, however many frames are pushed at it
    let mut q: FrameQueue<u64> = FrameQueue::new(QUEUE_CAPACITY);
    let mut produced: u64 = 0;
    let mut consumed: u64 = 0;
    let mut pending: Option<u64> = None;
    for tick in 0..1000u64 {
        // two production attempts per tick
        for _ in 0..2 {
            let item = match pending.take() {
                Some(i) => i,
                None => {
                    produced += 1;
                    produced
                }
            };
            // a refused item waits for the next attempt: backpressure
            pending = q.try_send(item);
        }
        assert!(q.len() <= QUEUE_CAPACITY);
        // one consumption per tick
        if let Some(i) = q.receive() {
            consumed += 1;
            assert_eq!(i, consumed);
        }
        assert!(q.len() <= QUEUE_CAPACITY);
        let _ = tick;
    }
}
