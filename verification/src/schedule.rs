//! When the next checkpoint is due: after a fixed period, or so that the
//! pauses of the target stay within a share of its running time.
//!
//! All durations are whole nanoseconds.

use vstd::prelude::*;
use vstd::arithmetic::div_mod::{lemma_fundamental_div_mod, lemma_mod_bound};
use crate::bytes::append;
use crate::checkpoint::Checkpointer;
use crate::decimal::{decimal, format_u64};
use crate::error::Error;

verus! {

/// The share of its running time that the target may spend paused: the
/// ratio `numer / denom`, which is greater than zero.
#[derive(Debug, Clone, Copy, PartialEq, Eq)]
pub struct Overhead {
    numer: u64,
    denom: u64,
}

impl Overhead {
    #[verifier::type_invariant]
    spec fn positive(self) -> bool {
        self.numer > 0 && self.denom > 0
    }

    /// The ratio's numerator.
    pub closed spec fn numer(self) -> nat {
        self.numer as nat
    }

    /// The ratio's denominator.
    pub closed spec fn denom(self) -> nat {
        self.denom as nat
    }

    /// Whether the ratio is a share greater than zero.
    pub open spec fn wf(self) -> bool {
        self.numer() > 0 && self.denom() > 0
    }

    /// The overhead `numer / denom`. A ratio that is zero, or that has no
    /// value, is refused.
    pub fn new(numer: u64, denom: u64) -> (r: Result<Overhead, Error>)
        ensures
            numer > 0 && denom > 0 ==> (r matches Ok(overhead) && overhead.numer() == numer
                && overhead.denom() == denom && overhead.wf()),
            numer == 0 || denom == 0 ==> r matches Err(Error::Precondition),
    {
        if numer == 0 || denom == 0 {
            return Err(Error::Precondition);
        }
        Ok(Overhead { numer, denom })
    }

    /// The ratio's numerator and denominator.
    pub fn ratio(&self) -> (r: (u64, u64))
        ensures
            r.0 == self.numer(),
            r.1 == self.denom(),
            self.wf(),
    {
        proof {
            use_type_invariant(self);
        }
        (self.numer, self.denom)
    }
}

/// What one checkpoint took: the pause of the target, and the whole
/// checkpoint with the time it took to write it. The pause is part of the
/// whole.
#[derive(Debug, Clone, Copy, PartialEq, Eq)]
pub struct Timing {
    pause: u64,
    total: u64,
}

impl Timing {
    #[verifier::type_invariant]
    spec fn ordered(self) -> bool {
        self.pause <= self.total
    }

    /// The pause.
    pub closed spec fn pause_time(self) -> nat {
        self.pause as nat
    }

    /// The whole checkpoint.
    pub closed spec fn total_time(self) -> nat {
        self.total as nat
    }

    /// Whether the pause is part of the whole.
    pub open spec fn wf(self) -> bool {
        self.pause_time() <= self.total_time()
    }

    /// The timing of a checkpoint that paused the target for `pause` and
    /// then took `persist` to be written. The whole is their sum, or the
    /// largest duration if the sum is larger.
    pub fn new(pause: u64, persist: u64) -> (timing: Timing)
        ensures
            timing.pause_time() == pause,
            timing.total_time() == (if pause + persist <= u64::MAX {
                pause + persist
            } else {
                u64::MAX as int
            }),
            timing.wf(),
    {
        let total = if persist > u64::MAX - pause {
            u64::MAX
        } else {
            pause + persist
        };
        Timing { pause, total }
    }

    /// The pause.
    pub fn pause(&self) -> (p: u64)
        ensures
            p == self.pause_time(),
            p <= self.total_time(),
    {
        proof {
            use_type_invariant(self);
        }
        self.pause
    }

    /// The whole checkpoint.
    pub fn total(&self) -> (w: u64)
        ensures
            w == self.total_time(),
            self.pause_time() <= w,
    {
        proof {
            use_type_invariant(self);
        }
        self.total
    }

    /// The line of statistics for this checkpoint: the pause and the
    /// whole, in decimal, with a comma between them and a line feed at the end.
    pub fn stats_line(&self) -> (line: Vec<u8>)
        ensures
            line@ == stats_text(*self),
    {
        let mut line = format_u64(self.pause);
        line.push(44);
        let total = format_u64(self.total);
        append(&mut line, total.as_slice());
        line.push(10);
        line
    }
}

/// The line of statistics for a checkpoint.
pub open spec fn stats_text(timing: Timing) -> Seq<u8> {
    (decimal(timing.pause_time()).push(44) + decimal(timing.total_time())).push(10)
}

/// How long the target is to run freely after a pause of `pause`, so that
/// the pause is no more than the share `overhead` of that time.
pub open spec fn free_run(overhead: Overhead, pause: nat) -> int {
    (pause * overhead.denom()) as int / (overhead.numer() as int)
}

/// How long to sleep after a checkpoint with the given timing. The target
/// has run freely since it was resumed, so that time counts; a minimum
/// period raises the sleep so that a period lasts at least that long, a
/// maximum period then lowers it so that a period lasts no longer; the
/// sleep is never negative.
pub open spec fn adaptive_wait(
    overhead: Overhead,
    min_period: Option<u64>,
    max_period: Option<u64>,
    timing: Timing,
) -> int {
    let pause = timing.pause_time() as int;
    let total = timing.total_time() as int;
    let rest = free_run(overhead, timing.pause_time()) - (total - pause);
    let base = if rest > 0 {
        rest
    } else {
        0
    };
    let raised = match min_period {
        Some(lo) => if lo - total > base {
            lo - total
        } else {
            base
        },
        None => base,
    };
    let lowered = match max_period {
        Some(hi) => if hi - total < raised {
            hi - total
        } else {
            raised
        },
        None => raised,
    };
    if lowered > 0 {
        lowered
    } else {
        0
    }
}

impl Checkpointer {
    /// One turn of the loop with a fixed period: how long to sleep when
    /// the checkpoint that was just taken took `elapsed`, so that the next
    /// one starts a period after this one started, or at once.
    pub fn run(period: u64, elapsed: u64) -> (wait: u64)
        ensures
            wait == (if period >= elapsed {
                period - elapsed
            } else {
                0
            }),
    {
        if period >= elapsed {
            period - elapsed
        } else {
            0
        }
    }

    /// One turn of the adaptive loop: how long to sleep after a checkpoint
    /// with the given timing, so that the pause is no more than the share
    /// `overhead` of the time that the target runs.
    pub fn run_adaptive(
        overhead: Overhead,
        min_period: Option<u64>,
        max_period: Option<u64>,
        timing: Timing,
    ) -> (wait: u128)
        ensures
            wait == adaptive_wait(overhead, min_period, max_period, timing),
    {
        let (numer, denom) = overhead.ratio();
        let pause = timing.pause();
        let total = timing.total();
        assert(pause * denom <= 0xFFFF_FFFF_FFFF_FFFF * 0xFFFF_FFFF_FFFF_FFFF) by (nonlinear_arith)
            requires
                0 <= pause <= 0xFFFF_FFFF_FFFF_FFFF,
                0 <= denom <= 0xFFFF_FFFF_FFFF_FFFF,
        ;
        let product: u128 = (pause as u128) * (denom as u128);
        let free: u128 = product / (numer as u128);
        let busy: u128 = (total - pause) as u128;
        let base: u128 = if free > busy {
            free - busy
        } else {
            0
        };
        let raised: u128 = match min_period {
            Some(lo) => if lo > total && ((lo - total) as u128) > base {
                (lo - total) as u128
            } else {
                base
            },
            None => base,
        };
        match max_period {
            Some(hi) => if hi <= total {
                0
            } else if ((hi - total) as u128) < raised {
                (hi - total) as u128
            } else {
                raised
            },
            None => raised,
        }
    }
}

/// After a checkpoint in adaptive mode without a maximum period, the
/// target runs freely for at least the time that its pause asks for, and
/// the pause is no more than the share `overhead` of pause and free run.
pub proof fn lemma_overhead_kept(overhead: Overhead, min_period: Option<u64>, timing: Timing)
    requires
        overhead.wf(),
        timing.wf(),
    ensures
        free_time(overhead, min_period, timing) >= free_run(overhead, timing.pause_time()),
        timing.pause_time() * overhead.denom() <= overhead.numer() * (timing.pause_time()
            + free_time(overhead, min_period, timing)),
{
    let p = timing.pause_time() as int;
    let n = overhead.numer() as int;
    let d = overhead.denom() as int;
    let f = free_run(overhead, timing.pause_time());
    let free = free_time(overhead, min_period, timing);
    lemma_fundamental_div_mod(p * d, n);
    lemma_mod_bound(p * d, n);
    assert(n * f >= p * d - n + 1);
    assert(free >= f);
    assert(n * (p + free) >= n * p + n * f) by (nonlinear_arith)
        requires
            free >= f,
            n > 0,
    ;
    if p >= 1 {
        assert(n * p >= n) by (nonlinear_arith)
            requires
                p >= 1,
                n > 0,
        ;
    } else {
        assert(p * d == 0) by (nonlinear_arith)
            requires
                p == 0,
        ;
        assert(n * (p + free) >= 0) by (nonlinear_arith)
            requires
                n > 0,
                p + free >= 0,
        ;
    }
}

/// The time for which the target runs freely after a checkpoint in
/// adaptive mode without a maximum period: while the checkpoint is
/// written, and then for the sleep.
pub open spec fn free_time(overhead: Overhead, min_period: Option<u64>, timing: Timing) -> int {
    (timing.total_time() - timing.pause_time()) + adaptive_wait(overhead, min_period, None, timing)
}

/// The pauses of a run of checkpoints, summed.
pub open spec fn total_pause(timings: Seq<Timing>) -> int
    decreases timings.len(),
{
    if timings.len() == 0 {
        0
    } else {
        total_pause(timings.drop_last()) + timings.last().pause_time()
    }
}

/// The free time that follows each of a run of checkpoints, summed.
pub open spec fn total_free(overhead: Overhead, min_period: Option<u64>, timings: Seq<Timing>) -> int
    decreases timings.len(),
{
    if timings.len() == 0 {
        0
    } else {
        total_free(overhead, min_period, timings.drop_last()) + free_time(
            overhead,
            min_period,
            timings.last(),
        )
    }
}

/// Over any run of checkpoints in adaptive mode without a maximum period,
/// the pauses together are no more than the share `overhead` of the
/// pauses and the free time that follows each.
pub proof fn lemma_overhead_kept_over_window(
    overhead: Overhead,
    min_period: Option<u64>,
    timings: Seq<Timing>,
)
    requires
        overhead.wf(),
        forall|i: int| 0 <= i < timings.len() ==> (#[trigger] timings[i]).wf(),
    ensures
        total_pause(timings) * overhead.denom() <= overhead.numer() * (total_pause(timings)
            + total_free(overhead, min_period, timings)),
    decreases timings.len(),
{
    if timings.len() > 0 {
        let head = timings.drop_last();
        let last = timings.last();
        lemma_overhead_kept_over_window(overhead, min_period, head);
        lemma_overhead_kept(overhead, min_period, last);
        let n = overhead.numer() as int;
        let d = overhead.denom() as int;
        let pa = total_pause(head);
        let fa = total_free(overhead, min_period, head);
        let pb = last.pause_time() as int;
        let fb = free_time(overhead, min_period, last);
        assert((pa + pb) * d <= n * ((pa + pb) + (fa + fb))) by (nonlinear_arith)
            requires
                pa * d <= n * (pa + fa),
                pb * d <= n * (pb + fb),
        ;
    } else {
        assert(total_pause(timings) * overhead.denom() == 0) by (nonlinear_arith)
            requires
                total_pause(timings) == 0,
        ;
        assert(overhead.numer() * (total_pause(timings) + total_free(overhead, min_period, timings))
            == 0) by (nonlinear_arith)
            requires
                total_pause(timings) + total_free(overhead, min_period, timings) == 0,
        ;
    }
}

/// After a checkpoint in adaptive mode without a minimum or a maximum
/// period, and written in no more time than its pause asks the target to
/// run freely, the target runs freely for exactly that time. The pause is
/// then no less than the share `numer / (numer + denom)` of pause and free
/// run: the schedule waits no longer than the overhead asks for.
pub proof fn lemma_overhead_met(overhead: Overhead, timing: Timing)
    requires
        overhead.wf(),
        timing.wf(),
        timing.total_time() - timing.pause_time() <= free_run(overhead, timing.pause_time()),
    ensures
        free_time(overhead, None, timing) == free_run(overhead, timing.pause_time()),
        overhead.numer() * (timing.pause_time() + free_time(overhead, None, timing))
            <= timing.pause_time() * (overhead.numer() + overhead.denom()),
{
    let p = timing.pause_time() as int;
    let n = overhead.numer() as int;
    let d = overhead.denom() as int;
    let f = free_run(overhead, timing.pause_time());
    lemma_fundamental_div_mod(p * d, n);
    lemma_mod_bound(p * d, n);
    assert(n * f <= p * d);
    assert(n * (p + f) <= p * (n + d)) by (nonlinear_arith)
        requires
            n * f <= p * d,
    ;
}

} // verus!