//! The batch processing pipeline.
//!
//! One run: decode raw PCM into the canonical mono sequence, schedule
//! overlapping frames through the correction engine with per-frame failure
//! fallback, reconstruct by overlap-add, normalize once globally, and encode
//! back to the original bit depth and channel layout.  Progress is reported
//! through a non-blocking queue; per-frame engine failures never abort the
//! run, so a run fails only on an unsupported format or an invalid
//! configuration — both rejected before any frame is processed.

use vstd::prelude::*;

use crate::engine::{CorrectionEngine, EngineAdapter};
use crate::format::{bits_valid, channels_valid, decode, encode, mono_len, FormatError};
use crate::progress::{
    lemma_prefix_push, ProcessingProgress, ProcessingResult, ProgressQueue,
};
use crate::scheduler::{config_valid, total_frames, ConfigError, FrameScheduler};
use vstd::string::StringExecFns;

verus! {

/// A fatal error of a processing run, surfaced before any frame is
/// processed.
#[derive(Debug, Clone, Copy, PartialEq, Eq, Structural)]
pub enum PipelineError {
    /// Unsupported bit depth or channel count.
    Format(FormatError),
    /// Invalid frame/hop relationship or out-of-range musical parameter.
    Config(ConfigError),
}

/// The fixed wording of each fatal error.
pub open spec fn error_text(e: PipelineError) -> Seq<char> {
    match e {
        PipelineError::Format(FormatError::UnsupportedChannelCount(_)) => {
            "Unsupported channel count. Only mono and stereo are supported."@
        },
        PipelineError::Format(FormatError::UnsupportedBitDepth(_)) => {
            "Unsupported bit depth. Only 16, 24, and 32-bit are supported."@
        },
        PipelineError::Config(ConfigError::InvalidFrameSize) => {
            "Frame size must be positive."@
        },
        PipelineError::Config(ConfigError::InvalidHopSize) => {
            "Hop size must be positive and no larger than the frame size."@
        },
        PipelineError::Config(ConfigError::InvalidMusicalSetting) => {
            "A musical setting is out of range."@
        },
    }
}

/// No terminal outcome message sits in `q` at the indices `from..until`.
pub open spec fn no_outcome_in(q: Seq<ProcessingProgress>, from: int, until: int) -> bool {
    forall|i: int| from <= i < until ==> !((#[trigger] q[i]) is Outcome)
}

impl PipelineError {
    /// A human-readable description of the error.
    pub fn message(&self) -> (s: String)
        ensures
            s@ == error_text(*self),
    {
        match self {
            PipelineError::Format(FormatError::UnsupportedChannelCount(_)) => {
                "Unsupported channel count. Only mono and stereo are supported.".to_owned()
            },
            PipelineError::Format(FormatError::UnsupportedBitDepth(_)) => {
                "Unsupported bit depth. Only 16, 24, and 32-bit are supported.".to_owned()
            },
            PipelineError::Config(ConfigError::InvalidFrameSize) => {
                "Frame size must be positive.".to_owned()
            },
            PipelineError::Config(ConfigError::InvalidHopSize) => {
                "Hop size must be positive and no larger than the frame size.".to_owned()
            },
            PipelineError::Config(ConfigError::InvalidMusicalSetting) => {
                "A musical setting is out of range.".to_owned()
            },
        }
    }
}

/// The frame scheduling and reconstruction pipeline.
#[derive(Default)]
pub struct AudioProcessor;

impl AudioProcessor {
    /// Checks the musical settings against their documented ranges: key
    /// index 0–23, note mode 0 (auto) through 12, octave reference 0–4,
    /// formant shift −12 to +12 semitones.
    pub fn validate_musical_settings(key: i32, note: i32, octave: i32, formant: i32) -> (r:
        Result<(), ConfigError>)
        ensures
            r is Ok <==> (0 <= key < 24 && 0 <= note <= 12 && 0 <= octave <= 4 && -12 <= formant
                <= 12),
            r is Err ==> r == Err::<(), ConfigError>(ConfigError::InvalidMusicalSetting),
    {
        if key < 0 || key >= 24 || note < 0 || note > 12 || octave < 0 || octave > 4 || formant
            < -12 || formant > 12 {
            Err(ConfigError::InvalidMusicalSetting)
        } else {
            Ok(())
        }
    }

    /// Runs the whole pipeline over decoded raw samples.
    ///
    /// Succeeds exactly on a supported PCM layout and a valid frame/hop
    /// configuration; per-frame engine failures are recovered by the
    /// fallback substitution and never change the outcome.  The output has
    /// one raw sample per mono sample, duplicated identically into both
    /// channels when the input was stereo.  Progress messages are only ever
    /// appended, in order, and the run's messages end with exactly one
    /// terminal `Outcome`, which mirrors the returned result.
    #[verifier::loop_isolation(false)]
    pub fn process_samples<E: CorrectionEngine>(
        raw: &Vec<i32>,
        bits_per_sample: u16,
        channels: u16,
        frame_size: usize,
        hop_size: usize,
        engine: &mut E,
        progress: &mut ProgressQueue,
    ) -> (r: Result<Vec<i32>, PipelineError>)
        requires
            raw@.len() + frame_size <= usize::MAX,
        ensures
            r is Ok <==> channels_valid(channels) && bits_valid(bits_per_sample) && config_valid(
                frame_size as int,
                hop_size as int,
            ),
            !channels_valid(channels) ==> r == Err::<Vec<i32>, PipelineError>(
                PipelineError::Format(FormatError::UnsupportedChannelCount(channels)),
            ),
            channels_valid(channels) && !bits_valid(bits_per_sample) ==> r == Err::<
                Vec<i32>,
                PipelineError,
            >(PipelineError::Format(FormatError::UnsupportedBitDepth(bits_per_sample))),
            channels_valid(channels) && bits_valid(bits_per_sample) && frame_size < 1 ==> r
                == Err::<Vec<i32>, PipelineError>(PipelineError::Config(
                ConfigError::InvalidFrameSize,
            )),
            channels_valid(channels) && bits_valid(bits_per_sample) && frame_size >= 1
                && !config_valid(frame_size as int, hop_size as int) ==> r == Err::<
                Vec<i32>,
                PipelineError,
            >(PipelineError::Config(ConfigError::InvalidHopSize)),
            r matches Ok(out) ==> (channels == 1 ==> out@.len() == mono_len(raw@.len(), channels))
                && (channels == 2 ==> out@.len() == 2 * mono_len(raw@.len(), channels) && (forall|
                i: int,
            |
                0 <= i < mono_len(raw@.len(), channels) ==> #[trigger] out@[2 * i] == out@[2 * i
                    + 1])),
            old(progress)@.is_prefix_of(final(progress)@),
            final(progress)@.len() > old(progress)@.len(),
            no_outcome_in(
                final(progress)@,
                old(progress)@.len() as int,
                final(progress)@.len() - 1,
            ),
            r matches Ok(out) ==> final(progress)@.last() == ProcessingProgress::Outcome(
                ProcessingResult::Success { samples_processed: out@.len() as usize },
            ),
            r matches Err(e) ==> (final(progress)@.last() matches ProcessingProgress::Outcome(
                ProcessingResult::Error(m),
            ) && m@ == error_text(e)),
    {
        let ghost base_msgs = progress@;
        proof {
            assert(base_msgs.is_prefix_of(base_msgs)) by {
                assert(base_msgs.subrange(0, base_msgs.len() as int) =~= base_msgs);
            }
        }
        let ghost before0 = progress@;
        progress.send(
            ProcessingProgress::Status("Converting audio format...".to_owned()),
        );
        proof {
            lemma_prefix_push(base_msgs, before0, progress@.last());
        }
        let mono = match decode(raw, bits_per_sample, channels) {
            Ok(m) => m,
            Err(e) => {
                return Self::fail(PipelineError::Format(e), progress, Ghost(base_msgs));
            },
        };
        proof {
            assert(mono@.len() <= raw@.len()) by {
                if channels == 2 {
                    assert((raw@.len() + 1) / 2 <= raw@.len()) by (nonlinear_arith);
                }
            }
        }
        let mut sched = match FrameScheduler::new(mono, frame_size, hop_size) {
            Ok(s) => s,
            Err(e) => {
                return Self::fail(PipelineError::Config(e), progress, Ghost(base_msgs));
            },
        };
        let ghost before1 = progress@;
        progress.send(ProcessingProgress::Status("Processing audio...".to_owned()));
        proof {
            lemma_prefix_push(base_msgs, before1, progress@.last());
        }
        let ghost n_mono = sched.input@.len();
        while !sched.is_finished()
            invariant
                sched.wf(),
                sched.input@.len() == n_mono,
                sched.frame_size == frame_size,
                sched.hop_size == hop_size,
                base_msgs.is_prefix_of(progress@),
                no_outcome_in(progress@, base_msgs.len() as int, progress@.len() as int),
            decreases total_frames(n_mono, sched.frame_size as nat, sched.hop_size as nat)
                - sched.frames_done,
        {
            let frame = sched.current_frame();
            let outcome = match engine.process_frame(&frame) {
                Ok(v) => Some(v),
                Err(_e) => None,
            };
            let processed = EngineAdapter::adapt(&frame, outcome);
            sched.add_frame(processed);
            let (done, total) = sched.progress();
            let ghost before2 = progress@;
            progress.send(
                ProcessingProgress::Progress { frames_done: done, total_chunks: total },
            );
            proof {
                lemma_prefix_push(base_msgs, before2, progress@.last());
            }
        }
        let acc = sched.into_output();
        let ghost before3 = progress@;
        progress.send(ProcessingProgress::Status("Normalizing audio...".to_owned()));
        proof {
            lemma_prefix_push(base_msgs, before3, progress@.last());
        }
        let normalized = crate::normalize::normalize(&acc);
        let out = match encode(&normalized, bits_per_sample, channels) {
            Ok(v) => v,
            Err(e) => {
                proof {
                    assert(false);
                }
                return Self::fail(PipelineError::Format(e), progress, Ghost(base_msgs));
            },
        };
        let ghost before4 = progress@;
        progress.send(ProcessingProgress::Status("Complete!".to_owned()));
        proof {
            lemma_prefix_push(base_msgs, before4, progress@.last());
        }
        let samples_written = out.len();
        let ghost before5 = progress@;
        progress.send(
            ProcessingProgress::Outcome(
                ProcessingResult::Success { samples_processed: samples_written },
            ),
        );
        proof {
            lemma_prefix_push(base_msgs, before5, progress@.last());
        }
        Ok(out)
    }

    /// Reports a fatal error: delivers it as the run's terminal outcome
    /// message and hands it back to the caller.
    fn fail(
        e: PipelineError,
        progress: &mut ProgressQueue,
        Ghost(base_msgs): Ghost<Seq<ProcessingProgress>>,
    ) -> (r: Result<Vec<i32>, PipelineError>)
        requires
            base_msgs.is_prefix_of(old(progress)@),
            no_outcome_in(old(progress)@, base_msgs.len() as int, old(progress)@.len() as int),
        ensures
            r == Err::<Vec<i32>, PipelineError>(e),
            base_msgs.is_prefix_of(final(progress)@),
            final(progress)@.len() > base_msgs.len(),
            no_outcome_in(final(progress)@, base_msgs.len() as int, final(progress)@.len() - 1),
            final(progress)@.last() matches ProcessingProgress::Outcome(
                ProcessingResult::Error(m),
            ) && m@ == error_text(e),
    {
        let message = e.message();
        let ghost before = progress@;
        progress.send(ProcessingProgress::Outcome(ProcessingResult::Error(message)));
        proof {
            lemma_prefix_push(base_msgs, before, progress@.last());
        }
        Err(e)
    }
}

} // verus!
