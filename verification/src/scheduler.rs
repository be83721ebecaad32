//! Frame scheduling and overlap-add reconstruction.
//!
//! The scheduler partitions the canonical mono sequence into overlapping
//! fixed-size analysis frames advanced by a fixed hop, hands each frame out
//! for correction, and sums (never averages or replaces) every processed
//! frame back into a growing output accumulator at its own offset.  After the
//! last whole frame, one final zero-padded partial frame is scheduled when
//! samples remain; only its in-range prefix is ever written, so the
//! accumulator never extends past the true input length.

use vstd::arithmetic::div_mod::{lemma_basic_div, lemma_div_plus_one};
use vstd::prelude::*;

use crate::sample::{all_zero, sat_add, saturating_add_i64};

verus! {

/// Rejection of an invalid processing configuration.
#[derive(Debug, Clone, Copy, PartialEq, Eq, Structural)]
pub enum ConfigError {
    /// The analysis frame size must be positive.
    InvalidFrameSize,
    /// The hop size must be positive and no larger than the frame size.
    InvalidHopSize,
    /// A musical setting lies outside its documented range.
    InvalidMusicalSetting,
}

/// A frame/hop configuration the scheduler accepts.
pub open spec fn config_valid(frame_size: int, hop_size: int) -> bool {
    1 <= hop_size && hop_size <= frame_size
}

/// The analysis frame starting at `start`: a `frame_size`-length window into
/// the input, zero-padded past the input's end.
pub open spec fn frame_at(input: Seq<i64>, frame_size: nat, start: nat) -> Seq<i64> {
    Seq::new(
        frame_size,
        |i: int|
            if start + i < input.len() {
                input[start + i]
            } else {
                0i64
            },
    )
}

/// How many samples of the frame at `start` land inside the input: the whole
/// frame, or only the remaining tail for the final partial frame.
pub open spec fn chunk_len(n: nat, frame_size: nat, start: nat) -> nat {
    if start + frame_size <= n {
        frame_size
    } else if start <= n {
        (n - start) as nat
    } else {
        0
    }
}

/// The accumulator extended with zeros to cover at least `l` samples.
pub open spec fn zero_extend(s: Seq<i64>, l: nat) -> Seq<i64> {
    let nl = if l >= s.len() {
        l
    } else {
        s.len()
    };
    Seq::new(
        nl,
        |i: int|
            if i < s.len() {
                s[i]
            } else {
                0i64
            },
    )
}

/// `vals` summed element-wise into `s` at offset `off` (saturating).
pub open spec fn add_into(s: Seq<i64>, off: nat, vals: Seq<i64>) -> Seq<i64> {
    Seq::new(
        s.len(),
        |i: int|
            if off <= i < off + vals.len() {
                sat_add(s[i] as int, vals[i - off] as int) as i64
            } else {
                s[i]
            },
    )
}

/// One processed frame summed in at `start`: the accumulator grows with
/// zeros to cover the frame's in-range part, and the in-range prefix of the
/// processed frame is added; a final partial frame's padding region is
/// discarded, never written.
pub open spec fn sched_step(acc: Seq<i64>, n: nat, frame_size: nat, start: nat, c: Seq<i64>) -> Seq<
    i64,
> {
    let m = chunk_len(n, frame_size, start);
    add_into(zero_extend(acc, (start + m) as nat), start, c.take(m as int))
}

/// The accumulator after summing in processed frames at offsets
/// `start, start + hop, ...`, in order.
pub open spec fn sched_run(
    acc: Seq<i64>,
    n: nat,
    frame_size: nat,
    hop: nat,
    start: nat,
    cs: Seq<Seq<i64>>,
) -> Seq<i64>
    decreases cs.len(),
{
    if cs.len() == 0 {
        acc
    } else {
        sched_run(
            sched_step(acc, n, frame_size, start, cs[0]),
            n,
            frame_size,
            hop,
            (start + hop) as nat,
            cs.skip(1),
        )
    }
}

/// Number of frames a run schedules from offset `start`: one per hop while a
/// whole frame fits, then one final partial frame if samples remain.
pub open spec fn frames_from(n: nat, frame_size: nat, hop: nat, start: nat) -> nat
    decreases n - start,
{
    if hop < 1 || start >= n {
        0
    } else if start + frame_size > n || start + hop >= n {
        1
    } else {
        1 + frames_from(n, frame_size, hop, (start + hop) as nat)
    }
}

/// Total number of frames a run schedules.
pub open spec fn total_frames(n: nat, frame_size: nat, hop: nat) -> nat {
    frames_from(n, frame_size, hop, 0)
}

/// Whether the frame at `start` writes to sample index `i`.
pub open spec fn frame_covers(n: nat, frame_size: nat, start: nat, i: int) -> bool {
    start <= i < start + chunk_len(n, frame_size, start)
}

/// How many frames of a run from `start` on write to sample index `i`.
pub open spec fn cover_count(n: nat, frame_size: nat, hop: nat, start: nat, i: int) -> nat
    decreases n - start,
{
    if hop < 1 || start >= n {
        0
    } else if start + frame_size > n || start + hop >= n {
        if frame_covers(n, frame_size, start, i) {
            1
        } else {
            0
        }
    } else {
        (if frame_covers(n, frame_size, start, i) {
            1nat
        } else {
            0nat
        }) + cover_count(n, frame_size, hop, (start + hop) as nat, i)
    }
}

/// The frame count a progress fraction is measured against:
/// `ceil(n / hop)`.
pub open spec fn expected_chunks(n: nat, hop: nat) -> int {
    (n + hop - 1) / (hop as int)
}

/// Appending one processed frame to a run sums it in at the next offset.
pub proof fn lemma_sched_run_push(
    acc: Seq<i64>,
    n: nat,
    f: nat,
    h: nat,
    start: nat,
    cs: Seq<Seq<i64>>,
    c: Seq<i64>,
)
    ensures
        sched_run(acc, n, f, h, start, cs.push(c)) == sched_step(
            sched_run(acc, n, f, h, start, cs),
            n,
            f,
            (start + h * cs.len()) as nat,
            c,
        ),
    decreases cs.len(),
{
    if cs.len() == 0 {
        assert(cs.push(c)[0] == c);
        assert(cs.push(c).skip(1) =~= Seq::<Seq<i64>>::empty());
        assert(sched_run(acc, n, f, h, start, cs.push(c)) == sched_run(
            sched_step(acc, n, f, start, c),
            n,
            f,
            h,
            (start + h) as nat,
            Seq::<Seq<i64>>::empty(),
        ));
        assert(sched_run(acc, n, f, h, start, cs) == acc);
        assert((start + h * cs.len()) as nat == start);
    } else {
        assert(cs.push(c)[0] == cs[0]);
        assert(cs.push(c).skip(1) =~= cs.skip(1).push(c));
        lemma_sched_run_push(
            sched_step(acc, n, f, start, cs[0]),
            n,
            f,
            h,
            (start + h) as nat,
            cs.skip(1),
            c,
        );
        assert((start + h) + h * (cs.skip(1).len()) == start + h * cs.len()) by (nonlinear_arith)
            requires
                cs.skip(1).len() == cs.len() - 1,
                cs.len() >= 1,
        ;
    }
}

/// A run schedules no more frames than the expected chunk count it reports
/// progress against, so a reported fraction never exceeds one.
pub proof fn lemma_frames_within_chunks(n: nat, f: nat, h: nat, start: nat)
    requires
        1 <= h,
        h <= f,
        start <= n,
    ensures
        frames_from(n, f, h, start) <= (n - start + h - 1) / (h as int),
    decreases n - start,
{
    if start >= n {
        lemma_basic_div(h - 1, h as int);
    } else if start + f > n || start + h >= n {
        vstd::arithmetic::div_mod::lemma_div_is_ordered(
            h as int,
            n - start + h - 1,
            h as int,
        );
        vstd::arithmetic::div_mod::lemma_div_by_self(h as int);
    } else {
        lemma_frames_within_chunks(n, f, h, (start + h) as nat);
        lemma_div_plus_one(n - start - 1, h as int);
        assert((n - (start + h) + h - 1) / (h as int) == (n - start - 1) / (h as int));
    }
}

/// A run schedules no more frames than there are samples left.
pub proof fn lemma_frames_from_bound(n: nat, f: nat, h: nat, start: nat)
    requires
        h >= 1,
    ensures
        start < n ==> frames_from(n, f, h, start) <= n - start,
        start >= n ==> frames_from(n, f, h, start) == 0,
    decreases n - start,
{
    if start < n && start + f <= n && start + h < n {
        lemma_frames_from_bound(n, f, h, (start + h) as nat);
    }
}

/// Silence in, silence out: a run whose starting accumulator and processed
/// frames are all zero accumulates only zeros.
proof fn lemma_sched_run_zero(
    acc: Seq<i64>,
    n: nat,
    f: nat,
    h: nat,
    start: nat,
    cs: Seq<Seq<i64>>,
)
    requires
        all_zero(acc),
        forall|k: int| 0 <= k < cs.len() ==> all_zero(#[trigger] cs[k]),
        forall|k: int| 0 <= k < cs.len() ==> (#[trigger] cs[k]).len() == f,
    ensures
        all_zero(sched_run(acc, n, f, h, start, cs)),
    decreases cs.len(),
{
    if cs.len() > 0 {
        let m = chunk_len(n, f, start);
        let stepped = sched_step(acc, n, f, start, cs[0]);
        assert(m <= f);
        assert forall|i: int| 0 <= i < stepped.len() implies stepped[i] == 0i64 by {
            let ze = zero_extend(acc, (start + m) as nat);
            if start <= i < start + m {
                assert(cs[0].take(m as int)[i - start] == cs[0][i - start]);
                assert(ze[i] == 0i64);
            }
        }
        assert(all_zero(stepped));
        lemma_sched_run_zero(stepped, n, f, h, (start + h) as nat, cs.skip(1));
        assert forall|k: int| 0 <= k < cs.skip(1).len() implies all_zero(#[trigger] cs.skip(1)[k])
            && cs.skip(1)[k].len() == f by {
            assert(cs.skip(1)[k] == cs[k + 1]);
        }
    }
}

/// With no overlap and every processed frame equal to its analysis frame,
/// a complete run rebuilds the input from any prefix point on.
proof fn lemma_run_noop_identity(input: Seq<i64>, f: nat, start: nat, cs: Seq<Seq<i64>>)
    requires
        f >= 1,
        start <= input.len(),
        cs.len() == frames_from(input.len(), f, f, start),
        forall|k: int|
            0 <= k < cs.len() ==> #[trigger] cs[k] == frame_at(input, f, (start + k * f) as nat),
    ensures
        sched_run(input.take(start as int), input.len(), f, f, start, cs) == input,
    decreases cs.len(),
{
    let n = input.len();
    if cs.len() == 0 {
        assert(start >= n);
        assert(input.take(start as int) =~= input);
    } else {
        assert(start < n);
        let m = chunk_len(n, f, start);
        assert(cs[0] == frame_at(input, f, (start + 0 * f) as nat));
        assert((start + 0 * f) as nat == start);
        let stepped = sched_step(input.take(start as int), n, f, start, cs[0]);
        assert(start + m <= n);
        assert(stepped =~= input.take((start + m) as int)) by {
            let ze = zero_extend(input.take(start as int), (start + m) as nat);
            assert(ze.len() == start + m);
            assert forall|i: int| 0 <= i < start + m implies stepped[i] == input[i] by {
                if start <= i < start + m {
                    assert(ze[i] == 0i64);
                    assert(cs[0].take(m as int)[i - start] == cs[0][i - start]);
                    assert(cs[0][i - start] == input[i]);
                } else {
                    assert(ze[i] == input.take(start as int)[i]);
                }
            }
        }
        if start + f >= n {
            assert(cs.len() == 1);
            assert(cs.skip(1) =~= Seq::<Seq<i64>>::empty());
            assert(start + m == n);
            assert(input.take(n as int) =~= input);
            assert(sched_run(input.take(start as int), n, f, f, start, cs) == sched_run(
                stepped,
                n,
                f,
                f,
                (start + f) as nat,
                cs.skip(1),
            ));
            assert(sched_run(stepped, n, f, f, (start + f) as nat, cs.skip(1)) == stepped);
        } else {
            assert(m == f);
            assert forall|k: int|
                0 <= k < cs.skip(1).len() implies #[trigger] cs.skip(1)[k] == frame_at(
                input,
                f,
                ((start + f) + k * f) as nat,
            ) by {
                assert(cs.skip(1)[k] == cs[k + 1]);
                assert((k + 1) * f == k * f + f) by (nonlinear_arith);
                assert(cs[k + 1] == frame_at(input, f, (start + (k + 1) * f) as nat));
            }
            lemma_run_noop_identity(input, f, (start + f) as nat, cs.skip(1));
            assert(sched_run(input.take(start as int), n, f, f, start, cs) == sched_run(
                stepped,
                n,
                f,
                f,
                (start + f) as nat,
                cs.skip(1),
            ));
        }
    }
}

/// A sample index that no remaining frame writes to keeps its value.
proof fn lemma_run_untouched(
    n: nat,
    f: nat,
    h: nat,
    start: nat,
    acc: Seq<i64>,
    cs: Seq<Seq<i64>>,
    i: int,
)
    requires
        1 <= h,
        h <= f,
        start <= n,
        cs.len() == frames_from(n, f, h, start),
        forall|k: int| 0 <= k < cs.len() ==> (#[trigger] cs[k]).len() == f,
        0 <= i < acc.len(),
        cover_count(n, f, h, start, i) == 0,
    ensures
        sched_run(acc, n, f, h, start, cs).len() >= acc.len(),
        sched_run(acc, n, f, h, start, cs)[i] == acc[i],
    decreases cs.len(),
{
    if cs.len() > 0 {
        assert(start < n);
        assert(!frame_covers(n, f, start, i));
        let stepped = sched_step(acc, n, f, start, cs[0]);
        assert(stepped.len() >= acc.len());
        assert(stepped[i] == acc[i]);
        if start + f > n || start + h >= n {
            assert(cs.len() == 1);
            assert(cs.skip(1) =~= Seq::<Seq<i64>>::empty());
            assert(sched_run(acc, n, f, h, start, cs) == sched_run(
                stepped,
                n,
                f,
                h,
                (start + h) as nat,
                cs.skip(1),
            ));
            assert(sched_run(stepped, n, f, h, (start + h) as nat, cs.skip(1)) == stepped);
        } else {
            assert(cover_count(n, f, h, (start + h) as nat, i) == 0);
            assert(forall|k: int|
                0 <= k < cs.skip(1).len() ==> (#[trigger] cs.skip(1)[k]).len() == f);
            lemma_run_untouched(n, f, h, (start + h) as nat, stepped, cs.skip(1), i);
        }
    }
}

/// With every processed frame equal to its analysis frame, a sample index
/// written by exactly one of the remaining frames ends up holding the input
/// sample itself.
proof fn lemma_run_sole_value(
    input: Seq<i64>,
    f: nat,
    h: nat,
    start: nat,
    acc: Seq<i64>,
    cs: Seq<Seq<i64>>,
    i: int,
)
    requires
        1 <= h,
        h <= f,
        start <= input.len(),
        cs.len() == frames_from(input.len(), f, h, start),
        forall|k: int|
            0 <= k < cs.len() ==> #[trigger] cs[k] == frame_at(input, f, (start + k * h) as nat),
        0 <= i < input.len(),
        i >= acc.len() || acc[i] == 0i64,
        cover_count(input.len(), f, h, start, i) == 1,
    ensures
        i < sched_run(acc, input.len(), f, h, start, cs).len(),
        sched_run(acc, input.len(), f, h, start, cs)[i] == input[i],
    decreases cs.len(),
{
    let n = input.len();
    assert(cs.len() > 0);
    assert(start < n);
    let m = chunk_len(n, f, start);
    assert(cs[0] == frame_at(input, f, (start + 0 * h) as nat));
    assert((start + 0 * h) as nat == start);
    let stepped = sched_step(acc, n, f, start, cs[0]);
    let last = start + f > n || start + h >= n;
    assert(forall|k: int|
        0 <= k < cs.len() ==> (#[trigger] cs[k]).len() == f);
    if frame_covers(n, f, start, i) {
        assert(i < start + m);
        assert(stepped.len() > i);
        assert(cs[0].take(m as int)[i - start] == cs[0][i - start]);
        assert(cs[0][i - start] == input[i]);
        assert(stepped[i] == input[i]);
        if last {
            assert(cs.len() == 1);
            assert(cs.skip(1) =~= Seq::<Seq<i64>>::empty());
            assert(sched_run(acc, n, f, h, start, cs) == sched_run(
                stepped,
                n,
                f,
                h,
                (start + h) as nat,
                cs.skip(1),
            ));
            assert(sched_run(stepped, n, f, h, (start + h) as nat, cs.skip(1)) == stepped);
        } else {
            assert(cover_count(n, f, h, (start + h) as nat, i) == 0);
            assert(forall|k: int|
                0 <= k < cs.skip(1).len() ==> (#[trigger] cs.skip(1)[k]).len() == f) by {
                assert(forall|k: int|
                    0 <= k < cs.skip(1).len() ==> cs.skip(1)[k] == cs[k + 1]);
            }
            lemma_run_untouched(n, f, h, (start + h) as nat, stepped, cs.skip(1), i);
        }
    } else {
        assert(!last);
        assert(i >= stepped.len() || stepped[i] == 0i64);
        assert(cover_count(n, f, h, (start + h) as nat, i) == 1);
        assert(forall|k: int|
            0 <= k < cs.skip(1).len() ==> #[trigger] cs.skip(1)[k] == frame_at(
            input,
            f,
            ((start + h) + k * h) as nat,
        )) by {
            assert forall|k: int|
                0 <= k < cs.skip(1).len() implies #[trigger] cs.skip(1)[k] == frame_at(
                input,
                f,
                ((start + h) + k * h) as nat,
            ) by {
                assert(cs.skip(1)[k] == cs[k + 1]);
                assert((k + 1) * h == k * h + h) by (nonlinear_arith);
                assert(cs[k + 1] == frame_at(input, f, (start + (k + 1) * h) as nat));
            }
        }
        lemma_run_sole_value(input, f, h, (start + h) as nat, stepped, cs.skip(1), i);
    }
}

/// Drives frame-by-frame processing: hands out analysis frames in strict
/// time order and reconstructs the processed frames into a continuous
/// output buffer by overlap-add.
pub struct FrameScheduler {
    /// The canonical mono input sequence.
    pub input: Vec<i64>,
    /// Analysis window length.
    pub frame_size: usize,
    /// Advance between consecutive frame start offsets.
    pub hop_size: usize,
    /// Start offset of the next frame to hand out.
    pub pos: usize,
    /// Frames processed and summed in so far.
    pub frames_done: usize,
    /// The overlap-add output accumulator.
    pub acc: Vec<i64>,
    /// Whether the run has scheduled its last frame.
    pub finished: bool,
    /// The processed frames summed in so far, in order.
    pub history: Ghost<Seq<Seq<i64>>>,
}

impl FrameScheduler {
    /// Well-formedness: a valid configuration, an accumulator that is exactly
    /// the overlap-add of the processed frames so far, bookkeeping that
    /// tracks it, and an accumulator that never extends past the input (and
    /// covers it exactly once the run is finished).
    pub open spec fn wf(&self) -> bool {
        let n = self.input@.len();
        let f = self.frame_size as nat;
        let h = self.hop_size as nat;
        &&& config_valid(self.frame_size as int, self.hop_size as int)
        &&& n + f <= usize::MAX
        &&& self.acc@ == sched_run(Seq::<i64>::empty(), n, f, h, 0, self.history@)
        &&& self.frames_done == self.history@.len()
        &&& self.pos as int == h * self.history@.len()
        &&& self.history@.len() + (if self.finished {
            0int
        } else {
            frames_from(n, f, h, self.pos as nat) as int
        }) == total_frames(n, f, h) as int
        &&& (!self.finished ==> (self.pos as nat) < n)
        &&& (self.finished ==> self.acc@.len() == n)
        &&& self.acc@.len() <= n
        &&& forall|k: int|
            0 <= k < self.history@.len() ==> (#[trigger] self.history@[k]).len() == f
    }

    /// Creates a run over a canonical input, validating the configuration.
    pub fn new(input: Vec<i64>, frame_size: usize, hop_size: usize) -> (r: Result<
        FrameScheduler,
        ConfigError,
    >)
        requires
            input@.len() + frame_size <= usize::MAX,
        ensures
            r is Ok <==> config_valid(frame_size as int, hop_size as int),
            frame_size < 1 ==> r == Err::<FrameScheduler, ConfigError>(
                ConfigError::InvalidFrameSize,
            ),
            frame_size >= 1 && !config_valid(frame_size as int, hop_size as int) ==> r == Err::<
                FrameScheduler,
                ConfigError,
            >(ConfigError::InvalidHopSize),
            r matches Ok(s) ==> s.wf() && s.input@ == input@ && s.frame_size == frame_size
                && s.hop_size == hop_size && s.history@ == Seq::<Seq<i64>>::empty()
                && s.acc@ == Seq::<i64>::empty() && s.frames_done == 0 && (s.finished <==> input@.len()
                == 0),
    {
        if frame_size < 1 {
            return Err(ConfigError::InvalidFrameSize);
        }
        if hop_size < 1 || hop_size > frame_size {
            return Err(ConfigError::InvalidHopSize);
        }
        let finished = input.len() == 0;
        let s = FrameScheduler {
            input,
            frame_size,
            hop_size,
            pos: 0,
            frames_done: 0,
            acc: Vec::new(),
            finished,
            history: Ghost(Seq::empty()),
        };
        proof {
            assert(s.pos as int == (hop_size as nat) * 0);
        }
        Ok(s)
    }

    /// Whether the run has scheduled its last frame.
    pub fn is_finished(&self) -> (b: bool)
        ensures
            b == self.finished,
    {
        self.finished
    }

    /// Fraction of the run completed, as frames done out of the expected
    /// chunk count `ceil(input_len / hop)`; the fraction never exceeds one.
    pub fn progress(&self) -> (r: (usize, usize))
        requires
            self.wf(),
        ensures
            r.0 == self.frames_done,
            r.1 as int == expected_chunks(self.input@.len(), self.hop_size as nat),
            r.0 <= r.1,
    {
        proof {
            lemma_frames_within_chunks(
                self.input@.len(),
                self.frame_size as nat,
                self.hop_size as nat,
                0,
            );
        }
        let n = self.input.len();
        let total = if n == 0 {
            proof {
                lemma_basic_div(self.hop_size as int - 1, self.hop_size as int);
            }
            0
        } else {
            proof {
                lemma_div_plus_one(n as int - 1, self.hop_size as int);
            }
            (n - 1) / self.hop_size + 1
        };
        (self.frames_done, total)
    }

    /// The next analysis frame: a `frame_size`-length window at the current
    /// offset, zero-padded past the input's end.
    #[verifier::loop_isolation(false)]
    pub fn current_frame(&self) -> (frame: Vec<i64>)
        requires
            self.wf(),
            !self.finished,
        ensures
            frame@ == frame_at(self.input@, self.frame_size as nat, self.pos as nat),
            frame@.len() == self.frame_size,
    {
        let mut out: Vec<i64> = Vec::new();
        let mut i: usize = 0;
        while i < self.frame_size
            invariant
                i <= self.frame_size,
                out@.len() == i,
                forall|j: int|
                    0 <= j < i ==> out@[j] == frame_at(
                        self.input@,
                        self.frame_size as nat,
                        self.pos as nat,
                    )[j],
            decreases self.frame_size - i,
        {
            let idx = self.pos + i;
            let v = if idx < self.input.len() {
                self.input[idx]
            } else {
                0i64
            };
            out.push(v);
            i = i + 1;
        }
        proof {
            assert(out@ =~= frame_at(self.input@, self.frame_size as nat, self.pos as nat));
        }
        out
    }

    /// Sums one processed frame into the accumulator at the current offset
    /// and advances the schedule by one hop.
    ///
    /// Only the in-range prefix of the frame is written: a final partial
    /// frame's padding region is discarded, and the accumulator never
    /// extends past the input's length.
    #[verifier::loop_isolation(false)]
    pub fn add_frame(&mut self, processed: Vec<i64>)
        requires
            old(self).wf(),
            !old(self).finished,
            processed@.len() == old(self).frame_size,
        ensures
            final(self).wf(),
            final(self).input@ == old(self).input@,
            final(self).frame_size == old(self).frame_size,
            final(self).hop_size == old(self).hop_size,
            final(self).history@ == old(self).history@.push(processed@),
            final(self).acc@ == sched_step(
                old(self).acc@,
                old(self).input@.len(),
                old(self).frame_size as nat,
                old(self).pos as nat,
                processed@,
            ),
            final(self).frames_done == old(self).frames_done + 1,
            final(self).pos == old(self).pos + old(self).hop_size,
            final(self).finished <==> (old(self).pos + old(self).frame_size
                > old(self).input@.len() || old(self).pos + old(self).hop_size >= old(
                self,
            ).input@.len()),
            final(self).acc@.len() <= old(self).input@.len(),
    {
        let n = self.input.len();
        let pos = self.pos;
        let f = self.frame_size;
        let ghost h = self.hop_size as nat;
        let was_partial = pos + f > n;
        let m = if was_partial {
            n - pos
        } else {
            f
        };
        let ghost acc0 = self.acc@;
        proof {
            assert(m as nat == chunk_len(n as nat, f as nat, pos as nat));
            assert(self.acc@ =~= zero_extend(acc0, self.acc@.len() as nat));
        }
        let target = pos + m;
        while self.acc.len() < target
            invariant
                self.acc@ == zero_extend(acc0, self.acc@.len() as nat),
                self.acc@.len() <= target || self.acc@.len() == acc0.len(),
                self.input@ == old(self).input@,
                self.frame_size == old(self).frame_size,
                self.hop_size == old(self).hop_size,
                self.pos == old(self).pos,
                self.frames_done == old(self).frames_done,
                self.history@ == old(self).history@,
                self.finished == old(self).finished,
            decreases target - self.acc@.len(),
        {
            self.acc.push(0i64);
            proof {
                assert(self.acc@ =~= zero_extend(acc0, self.acc@.len() as nat));
            }
        }
        proof {
            assert(self.acc@ =~= zero_extend(acc0, target as nat));
        }
        let ghost base = self.acc@;
        let mut i: usize = 0;
        while i < m
            invariant
                i <= m,
                self.acc@.len() == base.len(),
                pos + m <= base.len(),
                self.input@ == old(self).input@,
                self.frame_size == old(self).frame_size,
                self.hop_size == old(self).hop_size,
                self.pos == old(self).pos,
                self.frames_done == old(self).frames_done,
                self.history@ == old(self).history@,
                self.finished == old(self).finished,
                forall|j: int|
                    0 <= j < base.len() && !(pos <= j < pos + i) ==> self.acc@[j] == base[j],
                forall|j: int|
                    0 <= j < i ==> self.acc@[pos + j] as int == sat_add(
                        base[pos + j] as int,
                        processed@[j] as int,
                    ),
            decreases m - i,
        {
            let idx = pos + i;
            let cur = self.acc[idx];
            let w = saturating_add_i64(cur, processed[i]);
            self.acc[idx] = w;
            i = i + 1;
        }
        proof {
            assert(self.acc@ =~= add_into(base, pos as nat, processed@.take(m as int)));
            assert(self.acc@ == sched_step(acc0, n as nat, f as nat, pos as nat, processed@));
        }
        proof {
            lemma_frames_from_bound(n as nat, f as nat, h, pos as nat);
            lemma_frames_from_bound(n as nat, f as nat, h, 0);
            assert(frames_from(n as nat, f as nat, h, pos as nat) >= 1);
            assert(self.frames_done < total_frames(n as nat, f as nat, h));
        }
        self.frames_done = self.frames_done + 1;
        self.pos = pos + self.hop_size;
        self.finished = was_partial || self.pos >= n;
        let ghost cs = self.history@;
        self.history = Ghost(cs.push(processed@));
        proof {
            lemma_sched_run_push(Seq::<i64>::empty(), n as nat, f as nat, h, 0, cs, processed@);
            assert(h * cs.len() == pos as int);
            assert(h * (cs.len() + 1) == h * cs.len() + h) by (nonlinear_arith);
            lemma_frames_from_bound(n as nat, f as nat, h, self.pos as nat);
        }
    }

    /// Partial-frame handling: the zero-padding of a final short frame is
    /// never written, so the accumulator never extends past the true input
    /// length, and a finished run covers the input exactly.
    pub proof fn lemma_partial_frame_bound(&self)
        requires
            self.wf(),
        ensures
            self.acc@.len() <= self.input@.len(),
            self.finished ==> self.acc@.len() == self.input@.len(),
    {
    }

    /// Round-trip silence: in a finished run over an all-zero input whose
    /// every processed frame was the (all-zero) analysis frame itself — a
    /// no-op engine — the accumulator is pure silence of the input's length;
    /// its peak is zero, so normalization leaves it unchanged.
    pub proof fn lemma_round_trip_silence(&self)
        requires
            self.wf(),
            self.finished,
            all_zero(self.input@),
            forall|k: int| 0 <= k < self.history@.len() ==> all_zero(#[trigger] self.history@[k]),
        ensures
            all_zero(self.acc@),
            self.acc@.len() == self.input@.len(),
            crate::normalize::peak_val(self.acc@) == 0,
    {
        let n = self.input@.len();
        let f = self.frame_size as nat;
        let h = self.hop_size as nat;
        assert(all_zero(Seq::<i64>::empty()));
        lemma_sched_run_zero(Seq::<i64>::empty(), n, f, h, 0, self.history@);
        crate::normalize::lemma_peak_of_zero(self.acc@);
    }

    /// Overlap-add identity: when the hop equals the frame size (no overlap)
    /// and every processed frame equals its analysis frame — a no-op engine —
    /// a finished run's accumulator is the input, sample for sample.
    pub proof fn lemma_overlap_add_identity(&self)
        requires
            self.wf(),
            self.finished,
            self.hop_size == self.frame_size,
            forall|k: int|
                0 <= k < self.history@.len() ==> #[trigger] self.history@[k] == frame_at(
                    self.input@,
                    self.frame_size as nat,
                    (k * self.frame_size) as nat,
                ),
        ensures
            self.acc@ == self.input@,
    {
        let f = self.frame_size as nat;
        assert(self.input@.take(0) =~= Seq::<i64>::empty());
        assert forall|k: int| 0 <= k < self.history@.len() implies #[trigger] self.history@[k]
            == frame_at(self.input@, f, (0 + k * f) as nat) by {
            assert((k * self.frame_size) as nat == (0 + k * f) as nat);
        }
        lemma_run_noop_identity(self.input@, f, 0, self.history@);
    }

    /// Engine failure fallback, stated over the reconstruction: in a
    /// finished run whose every processed frame equals its analysis frame —
    /// a no-op engine, with the original frame substituted wherever the
    /// engine failed — a sample position covered by exactly one frame holds
    /// the original input sample itself.
    pub proof fn lemma_sole_coverage_identity(&self, i: int)
        requires
            self.wf(),
            self.finished,
            forall|k: int|
                0 <= k < self.history@.len() ==> #[trigger] self.history@[k] == frame_at(
                    self.input@,
                    self.frame_size as nat,
                    (k * self.hop_size) as nat,
                ),
            0 <= i < self.input@.len(),
            cover_count(
                self.input@.len(),
                self.frame_size as nat,
                self.hop_size as nat,
                0,
                i,
            ) == 1,
        ensures
            self.acc@[i] == self.input@[i],
    {
        let n = self.input@.len();
        let f = self.frame_size as nat;
        let h = self.hop_size as nat;
        assert forall|k: int| 0 <= k < self.history@.len() implies #[trigger] self.history@[k]
            == frame_at(self.input@, f, (0 + k * h) as nat) by {
            assert((k * self.hop_size) as nat == (0 + k * h) as nat);
        }
        lemma_run_sole_value(self.input@, f, h, 0, Seq::<i64>::empty(), self.history@, i);
    }

    /// Hands the reconstructed (unnormalized) output buffer over.
    pub fn into_output(self) -> (r: Vec<i64>)
        requires
            self.wf(),
            self.finished,
        ensures
            r@ == self.acc@,
            r@.len() == self.input@.len(),
    {
        self.acc
    }
}

} // verus!
