//! Polling for file claim updates: which new claims and releases a worker
//! is told about, and where its next poll starts.
//!
//! A worker's poll position is the ID of the next event it has not seen.
//! A release is reported only when the worker could have seen the claim it
//! ends: the claim came before the poll position or in the same batch
//! (a release without a recorded claim is always reported).

use vstd::prelude::*;

verus! {

/// Whether a file was claimed or released.
#[derive(Debug, Clone, Copy, PartialEq, Eq, Structural)]
pub enum ClaimEventType {
    Claimed,
    Released,
}

/// An entry of the file claim log.
#[derive(Debug)]
pub struct ClaimEvent {
    pub id: i64,
    pub file_path: String,
    pub worker_id: String,
    pub event: ClaimEventType,
    pub reason: Option<String>,
    pub timestamp: i64,
    pub end_timestamp: Option<i64>,
    /// For a release, the ID of the claim it ends, when recorded.
    pub claim_id: Option<i64>,
}

/// What a poll reports.
#[derive(Debug)]
pub struct ClaimUpdates {
    pub new_claims: Vec<ClaimEvent>,
    pub dropped_claims: Vec<ClaimEvent>,
    /// The worker's next poll position.
    pub sequence: i64,
}

/// A copy of an event.
fn copy_event(e: &ClaimEvent) -> (r: ClaimEvent)
    ensures
        r == *e,
{
    ClaimEvent {
        id: e.id,
        file_path: e.file_path.clone(),
        worker_id: e.worker_id.clone(),
        event: e.event,
        reason: match &e.reason {
            Some(s) => Some(s.clone()),
            None => None,
        },
        timestamp: e.timestamp,
        end_timestamp: e.end_timestamp,
        claim_id: e.claim_id,
    }
}

/// The claims among the events, in order.
pub open spec fn claims_of(events: Seq<ClaimEvent>) -> Seq<ClaimEvent>
    decreases events.len(),
{
    if events.len() == 0 {
        Seq::empty()
    } else if events.last().event == ClaimEventType::Claimed {
        claims_of(events.drop_last()).push(events.last())
    } else {
        claims_of(events.drop_last())
    }
}

/// Some claim among the events has the ID.
pub open spec fn claimed_in(events: Seq<ClaimEvent>, id: i64) -> bool {
    exists|i: int| 0 <= i < events.len() && events[i].event == ClaimEventType::Claimed && events[i].id == id
}

/// The release is reported: its claim is unrecorded, came before the poll
/// position, or is among the events.
pub open spec fn release_reported(e: ClaimEvent, last_seq: i64, events: Seq<ClaimEvent>) -> bool {
    match e.claim_id {
        Some(cid) => cid < last_seq || claimed_in(events, cid),
        None => true,
    }
}

/// The releases among `part` that are reported, in order.
pub open spec fn releases_of(part: Seq<ClaimEvent>, last_seq: i64, events: Seq<ClaimEvent>) -> Seq<ClaimEvent>
    decreases part.len(),
{
    if part.len() == 0 {
        Seq::empty()
    } else {
        let pre = releases_of(part.drop_last(), last_seq, events);
        let e = part.last();
        if e.event == ClaimEventType::Released && release_reported(e, last_seq, events) {
            pre.push(e)
        } else {
            pre
        }
    }
}

/// The largest event ID.
pub open spec fn max_id(events: Seq<ClaimEvent>) -> i64
    decreases events.len(),
{
    if events.len() == 0 {
        i64::MIN
    } else {
        let m = max_id(events.drop_last());
        if events.last().id > m { events.last().id } else { m }
    }
}

/// The next poll position: past the largest event ID, or unchanged when
/// there are no events.
pub open spec fn next_sequence(events: Seq<ClaimEvent>, last_seq: i64) -> int {
    if events.len() == 0 {
        last_seq as int
    } else {
        max_id(events) + 1
    }
}

/// Every event a poll reports lies before the next poll position, so a
/// claim seen in this poll counts as seen when its release comes later.
pub proof fn lemma_polled_before_next_position(events: Seq<ClaimEvent>, last_seq: i64)
    ensures
        forall|i: int| 0 <= i < events.len() ==> (#[trigger] events[i]).id < next_sequence(events, last_seq),
    decreases events.len(),
{
    if events.len() > 0 {
        let pre = events.drop_last();
        lemma_polled_before_next_position(pre, last_seq);
        assert forall|i: int| 0 <= i < events.len() implies (#[trigger] events[i]).id < next_sequence(
            events,
            last_seq,
        ) by {
            if i < pre.len() {
                assert(events[i] == pre[i]);
                if pre.len() > 0 {
                    assert(pre[i].id < next_sequence(pre, last_seq));
                }
            }
        }
    }
}

/// Whether the claim among the events with this ID exists.
fn claimed_among(events: &Vec<ClaimEvent>, id: i64) -> (r: bool)
    ensures
        r == claimed_in(events@, id),
{
    let mut i: usize = 0;
    while i < events.len()
        invariant
            i <= events@.len(),
            forall|k: int| 0 <= k < i ==> !(events@[k].event == ClaimEventType::Claimed && events@[k].id == id),
        decreases events@.len() - i,
    {
        if events[i].event == ClaimEventType::Claimed && events[i].id == id {
            return true;
        }
        i = i + 1;
    }
    false
}

/// Splits the events a worker has not seen (those from its poll position
/// `last_seq` on, in ID order) into the claims and the reported releases,
/// and computes its next poll position.
pub fn split_claim_updates(events: &Vec<ClaimEvent>, last_seq: i64) -> (r: ClaimUpdates)
    requires
        events@.len() > 0 ==> max_id(events@) < i64::MAX,
    ensures
        r.new_claims@ == claims_of(events@),
        r.dropped_claims@ == releases_of(events@, last_seq, events@),
        r.sequence as int == next_sequence(events@, last_seq),
{
    let mut claims: Vec<ClaimEvent> = Vec::new();
    let mut drops: Vec<ClaimEvent> = Vec::new();
    let mut max: i64 = i64::MIN;
    let mut i: usize = 0;
    while i < events.len()
        invariant
            i <= events@.len(),
            claims@ == claims_of(events@.take(i as int)),
            drops@ == releases_of(events@.take(i as int), last_seq, events@),
            max == max_id(events@.take(i as int)),
        decreases events@.len() - i,
    {
        proof {
            assert(events@.take(i + 1).drop_last() =~= events@.take(i as int));
            assert(events@.take(i + 1).last() == events@[i as int]);
        }
        let e = &events[i];
        if e.id > max {
            max = e.id;
        }
        match e.event {
            ClaimEventType::Claimed => {
                claims.push(copy_event(e));
            },
            ClaimEventType::Released => {
                let reported = match e.claim_id {
                    Some(cid) => cid < last_seq || claimed_among(events, cid),
                    None => true,
                };
                if reported {
                    drops.push(copy_event(e));
                }
            },
        }
        i = i + 1;
    }
    proof {
        assert(events@.take(events@.len() as int) =~= events@);
    }
    let sequence = if events.len() == 0 {
        last_seq
    } else {
        max + 1
    };
    ClaimUpdates { new_claims: claims, dropped_claims: drops, sequence }
}

/// What marking a file for a worker does.
#[derive(Debug, Clone, PartialEq, Eq)]
pub enum LockAction {
    /// Another worker holds the file: nothing changes and the holder is
    /// reported back as a warning.
    HeldBy(String),
    /// The worker already holds the file: its mark is refreshed.
    Refresh,
    /// Nobody holds the file: the worker takes it and a claim is logged.
    Acquire,
}

/// Decide a file mark by `worker_id`, given the current holder of the file.
pub fn plan_lock(holder: &Option<String>, worker_id: &str) -> (r: LockAction)
    ensures
        match holder {
            Some(h) => if h@ == worker_id@ {
                r == LockAction::Refresh
            } else {
                r matches LockAction::HeldBy(x) && x@ == h@
            },
            None => r == LockAction::Acquire,
        },
{
    match holder {
        Some(h) => {
            if crate::text::str_eq(h.as_str(), worker_id) {
                LockAction::Refresh
            } else {
                LockAction::HeldBy(h.clone())
            }
        },
        None => LockAction::Acquire,
    }
}

} // verus!
