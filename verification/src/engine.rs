//! The pluggable correction engine boundary.
//!
//! The pipeline consumes the correction engine as an opaque stateful
//! transform: one invocation per frame, in strict frame order, with state
//! owned exclusively by one run.  A per-frame engine failure is never fatal:
//! the adapter substitutes the original, unprocessed frame, so the output
//! continues without a gap at the cost of that frame's correction.

use vstd::prelude::*;

verus! {

/// A per-frame failure reported by a correction engine.  Non-fatal: the
/// adapter substitutes the original frame and the run continues.
#[derive(Debug, Clone, PartialEq, Eq)]
pub struct EngineError {
    /// Human-readable cause, for status reporting only.
    pub message: String,
}

/// A pluggable per-frame correction transform.
///
/// Implementations must be invoked with frames in strictly increasing
/// time order within a single run, with state never shared across runs.
/// Expected implementations: the real engine (outside the verified
/// library) and the test stubs below.
pub trait CorrectionEngine {
    /// Corrects one analysis frame.  On success the result should have the
    /// input frame's length; the adapter substitutes the original frame
    /// otherwise, as it does on an error.
    fn process_frame(&mut self, frame: &Vec<i64>) -> Result<Vec<i64>, EngineError>;
}

/// An element-for-element copy of a frame.
pub fn copy_frame(v: &Vec<i64>) -> (r: Vec<i64>)
    ensures
        r@ == v@,
{
    let mut out: Vec<i64> = Vec::new();
    let mut i: usize = 0;
    while i < v.len()
        invariant
            i <= v@.len(),
            out@ == v@.take(i as int),
        decreases v@.len() - i,
    {
        out.push(v[i]);
        proof {
            assert(out@ =~= v@.take(i as int + 1));
        }
        i = i + 1;
    }
    proof {
        assert(v@.take(v@.len() as int) =~= v@);
    }
    out
}

/// A no-op engine stub: returns every frame unchanged and never fails.
pub struct NoOpEngine;

impl CorrectionEngine for NoOpEngine {
    fn process_frame(&mut self, frame: &Vec<i64>) -> Result<Vec<i64>, EngineError> {
        Ok(copy_frame(frame))
    }
}

/// An engine stub that fails on exactly one frame index (counting calls
/// from zero) and returns every other frame unchanged.
pub struct FailAtEngine {
    /// The call index on which to fail.
    pub fail_index: usize,
    /// Calls made so far.
    pub calls: usize,
}

impl CorrectionEngine for FailAtEngine {
    fn process_frame(&mut self, frame: &Vec<i64>) -> Result<Vec<i64>, EngineError> {
        let idx = self.calls;
        if self.calls < usize::MAX {
            self.calls = self.calls + 1;
        }
        if idx == self.fail_index {
            Err(EngineError { message: "injected frame failure".to_owned() })
        } else {
            Ok(copy_frame(frame))
        }
    }
}

/// The view of an engine outcome: the produced frame, or nothing.
pub open spec fn outcome_view(outcome: Option<Vec<i64>>) -> Option<Seq<i64>> {
    match outcome {
        Some(o) => Some(o@),
        None => None,
    }
}

/// Wraps exactly one engine invocation per frame and applies the failure
/// fallback policy.
pub struct EngineAdapter;

impl EngineAdapter {
    /// The frame actually accumulated for an engine outcome: the engine's
    /// output when it succeeded with a frame of the input's length, else
    /// the original, unprocessed input frame.
    pub open spec fn adapted(frame: Seq<i64>, outcome: Option<Seq<i64>>) -> Seq<i64> {
        match outcome {
            Some(o) => if o.len() == frame.len() {
                o
            } else {
                frame
            },
            None => frame,
        }
    }

    /// Engine failure fallback: a failed frame contributes to the
    /// reconstruction exactly what a successful no-op correction of the
    /// same frame would, so positions covered only by a failed frame end
    /// up holding the original input, and which frames failed never shows
    /// in the run's outcome.
    pub proof fn lemma_failure_matches_noop(frame: Seq<i64>)
        ensures
            Self::adapted(frame, None) == Self::adapted(frame, Some(frame)),
    {
    }

    /// Engine failure fallback: on an engine failure (or a malformed
    /// result length) the original input frame is substituted, so
    /// processing never aborts — that frame merely goes uncorrected.
    pub fn adapt(frame: &Vec<i64>, outcome: Option<Vec<i64>>) -> (r: Vec<i64>)
        ensures
            r@ == Self::adapted(frame@, outcome_view(outcome)),
            r@.len() == frame@.len(),
            outcome is None ==> r@ == frame@,
    {
        match outcome {
            Some(o) => {
                if o.len() == frame.len() {
                    o
                } else {
                    copy_frame(frame)
                }
            },
            None => copy_frame(frame),
        }
    }
}

} // verus!
