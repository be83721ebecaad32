//! Progress and outcome reporting, decoupled from processing.
//!
//! A one-direction, many-message delivery path from the processing
//! component to a consumer.  Sending never blocks and never fails the run;
//! messages come out in exactly the order they were sent, and a consumer
//! may drain several queued messages in one poll.  A blocking CLI printer
//! and a polling interactive loop both consume the same queue shape.

use vstd::prelude::*;

verus! {

/// A progress message from a processing run.  A run sends any number of
/// `Progress` and `Status` messages followed by exactly one terminal
/// `Outcome`, always the last message of the run.
#[derive(Debug, Clone)]
pub enum ProcessingProgress {
    /// Fractional completion: frames done out of the expected chunk count.
    Progress { frames_done: usize, total_chunks: usize },
    /// A human-readable status line.
    Status(String),
    /// The run's terminal result; sent exactly once, after every other
    /// message of the run.
    Outcome(ProcessingResult),
}

/// Terminal result of a processing run, produced exactly once at run
/// completion and delivered after every progress message.
#[derive(Debug, Clone, PartialEq, Eq)]
pub enum ProcessingResult {
    /// The run completed; carries the number of raw samples written.
    Success { samples_processed: usize },
    /// The run failed outright, with a human-readable cause.
    Error(String),
}

/// The message queue between a processing run and its consumer.
pub struct ProgressQueue {
    /// Queued messages, oldest first.
    pub messages: Vec<ProcessingProgress>,
}

impl View for ProgressQueue {
    type V = Seq<ProcessingProgress>;

    open spec fn view(&self) -> Seq<ProcessingProgress> {
        self.messages@
    }
}

/// A prefix stays a prefix when more messages are appended.
pub proof fn lemma_prefix_push(a: Seq<ProcessingProgress>, b: Seq<ProcessingProgress>, m: ProcessingProgress)
    requires
        a.is_prefix_of(b),
    ensures
        a.is_prefix_of(b.push(m)),
{
    assert(b.push(m).subrange(0, a.len() as int) =~= b.subrange(0, a.len() as int));
}

impl ProgressQueue {
    /// An empty queue.
    pub fn new() -> (q: ProgressQueue)
        ensures
            q@ == Seq::<ProcessingProgress>::empty(),
    {
        ProgressQueue { messages: Vec::new() }
    }

    /// How many messages are waiting.
    pub fn len(&self) -> (n: usize)
        ensures
            n == self@.len(),
    {
        self.messages.len()
    }

    /// Appends one message; never blocks and never fails.
    pub fn send(&mut self, m: ProcessingProgress)
        ensures
            final(self)@ == old(self)@.push(m),
    {
        self.messages.push(m);
    }

    /// Removes and returns the oldest queued message, if any: messages come
    /// out in exactly the order they were sent.
    pub fn try_recv(&mut self) -> (r: Option<ProcessingProgress>)
        ensures
            old(self)@.len() == 0 ==> r is None && final(self)@ == old(self)@,
            old(self)@.len() > 0 ==> r == Some(old(self)@[0]) && final(self)@ == old(self)@.skip(
                1,
            ),
    {
        if self.messages.len() == 0 {
            None
        } else {
            let m = self.messages.remove(0);
            proof {
                assert(self.messages@ =~= old(self)@.skip(1));
            }
            Some(m)
        }
    }

    /// Removes and returns all queued messages, oldest first: one poll may
    /// drain everything that has accumulated.
    pub fn drain(&mut self) -> (r: Vec<ProcessingProgress>)
        ensures
            r@ == old(self)@,
            final(self)@ == Seq::<ProcessingProgress>::empty(),
    {
        let mut out: Vec<ProcessingProgress> = Vec::new();
        while self.messages.len() > 0
            invariant
                out@ + self.messages@ == old(self)@,
            decreases self.messages@.len(),
        {
            let m = self.messages.remove(0);
            out.push(m);
            proof {
                assert(out@ + self.messages@ =~= old(self)@);
            }
        }
        proof {
            assert(out@ =~= old(self)@);
        }
        out
    }
}

} // verus!
