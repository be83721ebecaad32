use autotune_pipeline::engine::{CorrectionEngine, EngineAdapter, FailAtEngine, NoOpEngine};
use autotune_pipeline::progress::{ProcessingProgress, ProgressQueue};
use autotune_pipeline::scheduler::{ConfigError, FrameScheduler};

fn run_with<E: CorrectionEngine>(
    input: Vec<i64>,
    frame_size: usize,
    hop_size: usize,
    engine: &mut E,
) -> Vec<i64> {
    let mut sched = FrameScheduler::new(input, frame_size, hop_size).unwrap();
    while !sched.is_finished() {
        let frame = sched.current_frame();
        let outcome = engine.process_frame(&frame).ok();
        let processed = EngineAdapter::adapt(&frame, outcome);
        sched.add_frame(processed);
    }
    sched.into_output()
}

#[test]
fn new_rejects_bad_configurations() {
    assert!(matches!(
        FrameScheduler::new(vec![1], 0, 0),
        Err(ConfigError::InvalidFrameSize)
    ));
    assert!(matches!(
        FrameScheduler::new(vec![1], 4, 0),
        Err(ConfigError::InvalidHopSize)
    ));
    assert!(matches!(
        FrameScheduler::new(vec![1], 4, 5),
        Err(ConfigError::InvalidHopSize)
    ));
    assert!(FrameScheduler::new(vec![1], 4, 4).is_ok());
}

#[test]
fn overlap_add_identity_with_no_overlap() {
    // hop == frame size and a no-op engine: output equals input exactly
    let input = vec![5, -3, 7, 100, -200, 41];
    let out = run_with(input.clone(), 2, 2, &mut NoOpEngine);
    assert_eq!(out, input);
}

#[test]
fn partial_frame_padding_is_discarded() {
    // length 5, frame 4, hop 2: one full frame at 0, one partial at 2
    let input = vec![1, 2, 3, 4, 5];
    let out = run_with(input.clone(), 4, 2, &mut NoOpEngine);
    assert_eq!(out.len(), input.len());
    assert_eq!(out, vec![1, 2, 6, 8, 5]);
}

#[test]
fn overlapping_frames_are_summed_not_averaged() {
    // frame 2, hop 1: interior samples are covered twice and must double
    let input = vec![10, 20, 30, 40];
    let out = run_with(input.clone(), 2, 1, &mut NoOpEngine);
    assert_eq!(out, vec![10, 40, 60, 80]);
}

#[test]
fn engine_failure_falls_back_to_original_frame() {
    // frame 3, hop 2 over 12 samples: frame index 3 starts at offset 6;
    // offset 7 is covered by that frame alone
    let input: Vec<i64> = (1..=12).collect();
    let mut failing = FailAtEngine { fail_index: 3, calls: 0 };
    let with_failure = run_with(input.clone(), 3, 2, &mut failing);
    let without_failure = run_with(input.clone(), 3, 2, &mut NoOpEngine);
    // the fallback substitutes the original frame, so the reconstruction
    // is identical to the no-op run, and the solely-covered position holds
    // the input value itself
    assert_eq!(with_failure, without_failure);
    assert_eq!(with_failure[7], input[7]);
}

#[test]
fn round_trip_silence_stays_silent() {
    let input = vec![0i64; 23];
    let out = run_with(input.clone(), 8, 3, &mut NoOpEngine);
    assert_eq!(out, input);
    let normalized = autotune_pipeline::normalize::normalize(&out);
    assert_eq!(normalized, input);
}

#[test]
fn progress_counts_frames_against_expected_chunks() {
    let input = vec![1i64; 10];
    let mut sched = FrameScheduler::new(input, 4, 2).unwrap();
    let (done, total) = sched.progress();
    assert_eq!((done, total), (0, 5)); // ceil(10 / 2)
    let mut frames = 0usize;
    while !sched.is_finished() {
        let frame = sched.current_frame();
        sched.add_frame(frame);
        frames += 1;
        assert_eq!(sched.progress().0, frames);
    }
    // full frames at 0, 2, 4, 6 and one partial at 8
    assert_eq!(frames, 5);
}

#[test]
fn progress_queue_is_first_in_first_out() {
    let mut q = ProgressQueue::new();
    q.send(ProcessingProgress::Status("one".to_string()));
    q.send(ProcessingProgress::Progress { frames_done: 1, total_chunks: 2 });
    q.send(ProcessingProgress::Status("two".to_string()));
    assert_eq!(q.len(), 3);
    match q.try_recv() {
        Some(ProcessingProgress::Status(s)) => assert_eq!(s, "one"),
        other => panic!("unexpected message: {:?}", other),
    }
    match q.try_recv() {
        Some(ProcessingProgress::Progress { frames_done, total_chunks }) => {
            assert_eq!((frames_done, total_chunks), (1, 2));
        }
        other => panic!("unexpected message: {:?}", other),
    }
    let rest = q.drain();
    assert_eq!(rest.len(), 1);
    assert!(matches!(&rest[0], ProcessingProgress::Status(s) if s == "two"));
    assert!(q.try_recv().is_none());
    assert_eq!(q.len(), 0);
}
