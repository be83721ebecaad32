use autotune_pipeline::engine::{FailAtEngine, NoOpEngine};
use autotune_pipeline::format::FormatError;
use autotune_pipeline::pipeline::{AudioProcessor, PipelineError};
use autotune_pipeline::progress::{ProcessingProgress, ProcessingResult, ProgressQueue};
use autotune_pipeline::scheduler::ConfigError;

#[test]
fn test_audio_processor_creation() {
    // Test that we can create the processor
    let _processor = AudioProcessor;
}

#[test]
fn test_progress_enum() {
    let progress = ProcessingProgress::Progress { frames_done: 1, total_chunks: 2 };
    assert!(matches!(progress, ProcessingProgress::Progress { .. }));

    let status = ProcessingProgress::Status("test".to_string());
    assert!(matches!(status, ProcessingProgress::Status(_)));
}

#[test]
fn test_result_enum() {
    let success = ProcessingResult::Success { samples_processed: 1000 };
    assert!(matches!(success, ProcessingResult::Success { .. }));

    let error = ProcessingResult::Error("test error".to_string());
    assert!(matches!(error, ProcessingResult::Error(_)));
}

#[test]
fn process_samples_round_trips_small_values() {
    let raw = vec![1000, 2000, 3000, 4000];
    let mut progress = ProgressQueue::new();
    let out = AudioProcessor::process_samples(&raw, 16, 1, 2, 2, &mut NoOpEngine, &mut progress)
        .unwrap();
    // no overlap, a no-op engine, and no clipping: small 16-bit samples
    // survive the whole pipeline unchanged
    assert_eq!(out, raw);
    // the queue saw the status lines and one progress message per frame,
    // in order, ending with exactly one terminal outcome
    let msgs = progress.drain();
    assert!(msgs.len() >= 5);
    assert!(matches!(
        &msgs[msgs.len() - 1],
        ProcessingProgress::Outcome(ProcessingResult::Success { samples_processed: 4 })
    ));
    assert!(matches!(&msgs[msgs.len() - 2], ProcessingProgress::Status(s) if s == "Complete!"));
    let outcomes = msgs
        .iter()
        .filter(|m| matches!(m, ProcessingProgress::Outcome(_)))
        .count();
    assert_eq!(outcomes, 1);
    let frames: Vec<(usize, usize)> = msgs
        .iter()
        .filter_map(|m| match m {
            ProcessingProgress::Progress { frames_done, total_chunks } => {
                Some((*frames_done, *total_chunks))
            }
            _ => None,
        })
        .collect();
    assert_eq!(frames, vec![(1, 2), (2, 2)]);
}

#[test]
fn process_samples_keeps_stereo_channels_identical() {
    let raw = vec![1000, 3000, -500, -700, 400, 400];
    let mut progress = ProgressQueue::new();
    let out = AudioProcessor::process_samples(&raw, 16, 2, 2, 2, &mut NoOpEngine, &mut progress)
        .unwrap();
    assert_eq!(out.len(), 6);
    for pair in out.chunks(2) {
        assert_eq!(pair[0], pair[1]);
    }
    // stereo decode averaged each pair; small values re-encode exactly
    assert_eq!(out[0], 2000);
    assert_eq!(out[2], -600);
    assert_eq!(out[4], 400);
}

#[test]
fn process_samples_silence_stays_silent() {
    let raw = vec![0; 48];
    let mut progress = ProgressQueue::new();
    let out = AudioProcessor::process_samples(&raw, 24, 1, 16, 4, &mut NoOpEngine, &mut progress)
        .unwrap();
    assert_eq!(out, vec![0; 48]);
}

#[test]
fn process_samples_survives_engine_failures() {
    let raw: Vec<i32> = (0..64).map(|i| i * 100).collect();
    let mut failing = FailAtEngine { fail_index: 3, calls: 0 };
    let mut progress = ProgressQueue::new();
    let result =
        AudioProcessor::process_samples(&raw, 16, 1, 8, 4, &mut failing, &mut progress);
    // a per-frame engine failure is recovered by the fallback and never
    // becomes a fatal outcome
    assert!(result.is_ok());
    let mut noop_progress = ProgressQueue::new();
    let unfailed =
        AudioProcessor::process_samples(&raw, 16, 1, 8, 4, &mut NoOpEngine, &mut noop_progress)
            .unwrap();
    // the no-op stub and the fallback substitute the same frame, so the
    // output matches the failure-free run exactly
    assert_eq!(result.unwrap(), unfailed);
}

#[test]
fn process_samples_rejects_bad_layout_and_config() {
    let raw = vec![0; 8];
    let mut progress = ProgressQueue::new();
    assert_eq!(
        AudioProcessor::process_samples(&raw, 16, 3, 4, 2, &mut NoOpEngine, &mut progress),
        Err(PipelineError::Format(FormatError::UnsupportedChannelCount(3)))
    );
    assert_eq!(
        AudioProcessor::process_samples(&raw, 8, 1, 4, 2, &mut NoOpEngine, &mut progress),
        Err(PipelineError::Format(FormatError::UnsupportedBitDepth(8)))
    );
    assert_eq!(
        AudioProcessor::process_samples(&raw, 16, 1, 0, 0, &mut NoOpEngine, &mut progress),
        Err(PipelineError::Config(ConfigError::InvalidFrameSize))
    );
    assert_eq!(
        AudioProcessor::process_samples(&raw, 16, 1, 4, 0, &mut NoOpEngine, &mut progress),
        Err(PipelineError::Config(ConfigError::InvalidHopSize))
    );
    assert_eq!(
        AudioProcessor::process_samples(&raw, 16, 1, 4, 5, &mut NoOpEngine, &mut progress),
        Err(PipelineError::Config(ConfigError::InvalidHopSize))
    );
}

#[test]
fn failed_runs_still_deliver_a_terminal_outcome() {
    let raw = vec![0; 8];
    let mut progress = ProgressQueue::new();
    let result =
        AudioProcessor::process_samples(&raw, 8, 1, 4, 2, &mut NoOpEngine, &mut progress);
    assert!(result.is_err());
    let msgs = progress.drain();
    assert!(matches!(
        &msgs[msgs.len() - 1],
        ProcessingProgress::Outcome(ProcessingResult::Error(m))
            if m == "Unsupported bit depth. Only 16, 24, and 32-bit are supported."
    ));
    let outcomes = msgs
        .iter()
        .filter(|m| matches!(m, ProcessingProgress::Outcome(_)))
        .count();
    assert_eq!(outcomes, 1);
}

#[test]
fn musical_settings_are_range_checked() {
    assert!(AudioProcessor::validate_musical_settings(0, 0, 2, 0).is_ok());
    assert!(AudioProcessor::validate_musical_settings(23, 12, 4, 12).is_ok());
    assert!(AudioProcessor::validate_musical_settings(0, 0, 0, -12).is_ok());
    assert_eq!(
        AudioProcessor::validate_musical_settings(24, 0, 2, 0),
        Err(ConfigError::InvalidMusicalSetting)
    );
    assert_eq!(
        AudioProcessor::validate_musical_settings(0, 13, 2, 0),
        Err(ConfigError::InvalidMusicalSetting)
    );
    assert_eq!(
        AudioProcessor::validate_musical_settings(0, 0, 5, 0),
        Err(ConfigError::InvalidMusicalSetting)
    );
    assert_eq!(
        AudioProcessor::validate_musical_settings(0, 0, 2, -13),
        Err(ConfigError::InvalidMusicalSetting)
    );
}

#[test]
fn pipeline_errors_have_fixed_wording() {
    let e = PipelineError::Config(ConfigError::InvalidHopSize);
    assert_eq!(
        e.message(),
        "Hop size must be positive and no larger than the frame size."
    );
    let f = PipelineError::Format(FormatError::UnsupportedBitDepth(8));
    assert_eq!(
        f.message(),
        "Unsupported bit depth. Only 16, 24, and 32-bit are supported."
    );
}
