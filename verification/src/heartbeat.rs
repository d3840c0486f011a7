//! The keep-alive schedule of the socket transport.
//!
//! The relay sends one heartbeat envelope per interval. The schedule is a
//! function of the clock it is shown: it says whether a heartbeat is due, and
//! moves the next one an interval on.

use vstd::prelude::*;
use crate::codec::{encode, envelope_text};
use crate::envelope::{Envelope, EnvelopeView};

verus! {

/// The seconds between two heartbeats.
pub const HEARTBEAT_INTERVAL_SECS: u64 = 5;

/// The wire form of the heartbeat.
pub fn keepalive_frame() -> (frame: Vec<u8>)
    ensures
        frame@ == envelope_text(EnvelopeView::KeepAlive),
{
    encode(&Envelope::KeepAlive)
}

/// When the next heartbeat is due.
#[derive(Debug, Clone, Copy, PartialEq, Eq, Structural)]
pub struct Heartbeat {
    /// The seconds between two heartbeats.
    pub interval: u64,
    /// The time, in seconds, from which the next heartbeat is due.
    pub next_due: u64,
}

/// The time an interval after `now`, or the end of time where that is sooner.
pub open spec fn due_after(now: u64, interval: u64) -> u64 {
    if now + interval <= u64::MAX {
        (now + interval) as u64
    } else {
        u64::MAX
    }
}

impl Heartbeat {
    /// A schedule whose first heartbeat is due at once.
    pub fn new(interval: u64) -> (heartbeat: Heartbeat)
        ensures
            heartbeat.interval == interval,
            heartbeat.next_due == 0,
    {
        Heartbeat { interval, next_due: 0 }
    }

    /// Shows the schedule the time. Where a heartbeat is due, returns its
    /// frame and sets the next one an interval after `now`; before that,
    /// returns nothing and changes nothing.
    pub fn poll(&mut self, now: u64) -> (frame: Option<Vec<u8>>)
        ensures
            final(self).interval == old(self).interval,
            frame is Some <==> old(self).next_due <= now,
            frame matches Some(bytes) ==> bytes@ == envelope_text(EnvelopeView::KeepAlive),
            final(self).next_due == if old(self).next_due <= now {
                due_after(now, old(self).interval)
            } else {
                old(self).next_due
            },
    {
        if self.next_due <= now {
            self.next_due = if now <= u64::MAX - self.interval {
                now + self.interval
            } else {
                u64::MAX
            };
            Some(keepalive_frame())
        } else {
            None
        }
    }
}

/// Heartbeats keep their distance: after one was sent at `now`, none is due
/// before a full interval has passed, as long as the clock can count to it.
pub proof fn lemma_heartbeats_are_spaced(now: u64, interval: u64, later: u64)
    requires
        now <= later,
        later - now < interval,
        now + interval <= u64::MAX,
    ensures
        later < due_after(now, interval),
{
}

} // verus!
