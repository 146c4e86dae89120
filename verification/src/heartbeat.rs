//! The heartbeat scheduler of one connection.
//!
//! A client asks for a heartbeat every `interval` tenths of a second. With an
//! interval of zero no heartbeat is ever due. Otherwise the first one is due
//! at once, and the next ones every `interval * 100` milliseconds after it.
//! The scheduler is told how much time has passed since the request, and
//! answers how many heartbeats are to be sent now and how long to wait for
//! the next: it does not drift, however late it is asked.

use vstd::prelude::*;
use crate::message::WantHeartbeat;

verus! {

/// The time between two heartbeats, in milliseconds.
pub open spec fn period_millis(interval: u32) -> nat {
    interval as nat * 100
}

/// The moment at which heartbeat number `k` is due, counting from zero, in
/// milliseconds after the request.
pub open spec fn due_at(interval: u32, k: nat) -> nat {
    k * period_millis(interval)
}

/// The number of heartbeats that are due within the first `elapsed`
/// milliseconds after the request, the moment `elapsed` included.
pub open spec fn due_by(interval: u32, elapsed: nat) -> nat {
    if interval == 0 {
        0
    } else {
        elapsed / period_millis(interval) + 1
    }
}

/// With an interval of zero no heartbeat is due, however long one waits.
/// Otherwise two heartbeats in a row are `interval * 100` milliseconds apart,
/// and the heartbeats due by a moment are those whose time has come.
pub proof fn lemma_heartbeats_are_evenly_spaced(interval: u32, k: nat, elapsed: nat)
    ensures
        interval == 0 ==> due_by(interval, elapsed) == 0,
        due_at(interval, k + 1) - due_at(interval, k) == interval * 100,
        interval != 0 ==> (k < due_by(interval, elapsed) <==> due_at(interval, k) <= elapsed),
{
    let p = period_millis(interval);
    assert((k + 1) * p - k * p == p) by (nonlinear_arith);
    if interval != 0 {
        let q = elapsed / p;
        vstd::arithmetic::div_mod::lemma_fundamental_div_mod(elapsed as int, p as int);
        vstd::arithmetic::div_mod::lemma_mod_bound(elapsed as int, p as int);
        if k <= q {
            assert(k * p <= q * p) by (nonlinear_arith)
                requires
                    k <= q,
                    p > 0,
            ;
            assert(q * p == p * q) by (nonlinear_arith);
        } else {
            assert(k * p >= (q + 1) * p) by (nonlinear_arith)
                requires
                    k >= q + 1,
                    p > 0,
            ;
            assert((q + 1) * p == p * q + p) by (nonlinear_arith);
        }
    }
}

/// What a scheduler asks for: the number of heartbeats to send now, and the
/// time to wait before asking again. Without a time to wait there is nothing
/// to come back for.
#[derive(Debug, Clone, Copy, PartialEq, Eq)]
pub struct Beat {
    pub frames: u64,
    pub wait_millis: Option<u64>,
}

/// The schedule of one connection's heartbeats: the interval asked for, and
/// the number of heartbeats asked of the caller so far.
#[derive(Debug, Clone, Copy, PartialEq, Eq)]
pub struct HeartbeatScheduler {
    interval: u32,
    sent: u64,
}

impl HeartbeatScheduler {
    /// The interval that was asked for, in tenths of a second.
    pub closed spec fn interval(&self) -> u32 {
        self.interval
    }

    /// The number of heartbeats asked for so far.
    pub closed spec fn sent(&self) -> nat {
        self.sent as nat
    }

    /// A scheduler for a request, before any heartbeat.
    pub fn new(want_heartbeat: WantHeartbeat) -> (scheduler: HeartbeatScheduler)
        ensures
            scheduler.interval() == want_heartbeat.interval,
            scheduler.sent() == 0,
    {
        HeartbeatScheduler { interval: want_heartbeat.interval, sent: 0 }
    }

    /// The time between two heartbeats in milliseconds; none where no
    /// heartbeat is ever sent.
    pub fn period(&self) -> (period: Option<u64>)
        ensures
            self.interval() == 0 ==> period is None,
            self.interval() != 0 ==> period == Some(period_millis(self.interval()) as u64),
            period_millis(self.interval()) <= u64::MAX,
    {
        if self.interval == 0 {
            None
        } else {
            Some(self.interval as u64 * 100)
        }
    }

    /// Tells what is to be done `elapsed_millis` after the request: the
    /// heartbeats that have become due since the last call are to be sent,
    /// and the next one is due after the time to wait.
    pub fn poll(&mut self, elapsed_millis: u64) -> (beat: Beat)
        ensures
            final(self).interval() == old(self).interval(),
            old(self).sent() <= due_by(old(self).interval(), elapsed_millis as nat) ==> {
                &&& final(self).sent() == due_by(old(self).interval(), elapsed_millis as nat)
                &&& beat.frames == final(self).sent() - old(self).sent()
            },
            old(self).sent() > due_by(old(self).interval(), elapsed_millis as nat) ==> {
                &&& final(self).sent() == old(self).sent()
                &&& beat.frames == 0
            },
            old(self).interval() == 0 ==> beat.wait_millis is None,
            old(self).interval() != 0 ==> beat.wait_millis is Some && beat.wait_millis->0
                == due_at(
                old(self).interval(),
                due_by(old(self).interval(), elapsed_millis as nat),
            ) - elapsed_millis,
    {
        let period = match self.period() {
            Some(period) => period,
            None => {
                return Beat { frames: 0, wait_millis: None };
            },
        };
        proof {
            vstd::arithmetic::div_mod::lemma_div_is_ordered_by_denominator(
                elapsed_millis as int,
                100,
                period as int,
            );
        }
        let due: u64 = elapsed_millis / period + 1;
        let wait: u64 = period - elapsed_millis % period;
        proof {
            let p = period as int;
            let e = elapsed_millis as int;
            vstd::arithmetic::div_mod::lemma_fundamental_div_mod(e, p);
            assert((e / p + 1) * p == p * (e / p) + p) by (nonlinear_arith);
        }
        let frames: u64 = if due > self.sent {
            due - self.sent
        } else {
            0
        };
        if due > self.sent {
            self.sent = due;
        }
        Beat { frames, wait_millis: Some(wait) }
    }
}

} // verus!
