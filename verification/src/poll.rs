//! The generic poll loop's decisions.
//!
//! Independent consumers — the metadata enricher, the page generator —
//! poll the shared change marker.  In live mode a poller keeps the newest
//! marker value it has seen: a marker no newer than that means an idle
//! sleep; a newer one means doing a unit of work after taking the new value.
//! In backlog mode a poller works through bounded units until one comes
//! back smaller than requested.

use vstd::prelude::*;

use crate::db_util::Storage;
use crate::writer::db_last_change;

verus! {

/// What a live poller does next: wake and work, or sleep idle.  `latest`
/// is the marker value to carry into the next round; it never goes back.
#[derive(Debug, Clone, Copy, PartialEq, Eq, Structural)]
pub struct PollDecision {
    pub wake: bool,
    pub latest: i64,
}

/// Decides one live-mode poll round from the newest marker value seen so
/// far and the marker value just read.
pub fn poll_decision(latest_seen: i64, last_change: i64) -> (r: PollDecision)
    ensures
        r.wake == (last_change > latest_seen),
        r.latest == if last_change > latest_seen {
            last_change
        } else {
            latest_seen
        },
        r.latest >= latest_seen,
{
    if last_change > latest_seen {
        PollDecision { wake: true, latest: last_change }
    } else {
        PollDecision { wake: false, latest: latest_seen }
    }
}

/// Reads the change marker and decides the round: the poller wakes exactly
/// when the store's marker moved past what it had seen.
pub fn poll_step<S: Storage>(db: &S, latest_seen: i64) -> (r: PollDecision)
    ensures
        r.wake == (db.marker() > latest_seen),
        r.latest == if db.marker() > latest_seen {
            db.marker()
        } else {
            latest_seen
        },
{
    let last = db_last_change(db);
    poll_decision(latest_seen, last)
}

/// A backlog run terminates when a unit of work came back smaller than the
/// size it asked for: nothing more is waiting.
pub fn backlog_done(got: usize, requested: usize) -> (r: bool)
    ensures
        r == (got < requested),
{
    got < requested
}

} // verus!
