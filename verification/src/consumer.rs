//! Broker consumer: the connection-lifecycle state machine and the
//! per-record processing policy.
//!
//! The loop around the state machine lives outside the library: it performs
//! the action the step function returns (connect, fetch, commit, sleep) and
//! hands the observed event back. Record processing is data-error tolerant:
//! a record that fails to decode is logged and skipped by the caller, and
//! every later record is still decoded, persisted and forwarded.

use vstd::prelude::*;

use crate::codec::{decode, spec_decode};
use crate::vehicle::{VehicleModel, VehicleList};

verus! {

/// Where the consumer stands in its connection lifecycle.
#[derive(Clone, Copy, Debug, PartialEq, Eq, Structural)]
pub enum ConsumerState {
    Disconnected,
    Connecting,
    Polling,
    Committing,
}

/// What the outside world reported back to the consumer loop.
#[derive(Clone, Copy, Debug, PartialEq, Eq, Structural)]
pub enum ConsumerEvent {
    RetryDelayElapsed,
    ConnectSucceeded,
    ConnectFailed,
    FetchSucceeded,
    FetchFailed,
    CommitSucceeded,
    CommitFailed,
}

/// What the consumer loop must do next.
#[derive(Clone, Copy, Debug, PartialEq, Eq, Structural)]
pub enum ConsumerAction {
    /// Try to create the broker connection.
    Connect,
    /// Fetch the next batch of raw records.
    Fetch,
    /// Process the fetched records, then acknowledge the consumed offset.
    ProcessAndCommit,
    /// Transient failure: wait for the fixed retry delay, then start over.
    SleepThenRetry,
}

/// The transition table. Any connect, fetch or commit failure goes back to
/// `Disconnected` and retries after the fixed delay; an event that its state
/// cannot produce is treated the same way.
pub open spec fn spec_step(s: ConsumerState, e: ConsumerEvent) -> (ConsumerState, ConsumerAction) {
    match (s, e) {
        (ConsumerState::Disconnected, ConsumerEvent::RetryDelayElapsed) => (
            ConsumerState::Connecting,
            ConsumerAction::Connect,
        ),
        (ConsumerState::Connecting, ConsumerEvent::ConnectSucceeded) => (
            ConsumerState::Polling,
            ConsumerAction::Fetch,
        ),
        (ConsumerState::Polling, ConsumerEvent::FetchSucceeded) => (
            ConsumerState::Committing,
            ConsumerAction::ProcessAndCommit,
        ),
        (ConsumerState::Committing, ConsumerEvent::CommitSucceeded) => (
            ConsumerState::Polling,
            ConsumerAction::Fetch,
        ),
        _ => (ConsumerState::Disconnected, ConsumerAction::SleepThenRetry),
    }
}

/// One step of the consumer loop: from the current state and the observed
/// event to the next state and the action the loop must perform.
pub fn step(s: ConsumerState, e: ConsumerEvent) -> (r: (ConsumerState, ConsumerAction))
    ensures
        r == spec_step(s, e),
{
    match (s, e) {
        (ConsumerState::Disconnected, ConsumerEvent::RetryDelayElapsed) => (
            ConsumerState::Connecting,
            ConsumerAction::Connect,
        ),
        (ConsumerState::Connecting, ConsumerEvent::ConnectSucceeded) => (
            ConsumerState::Polling,
            ConsumerAction::Fetch,
        ),
        (ConsumerState::Polling, ConsumerEvent::FetchSucceeded) => (
            ConsumerState::Committing,
            ConsumerAction::ProcessAndCommit,
        ),
        (ConsumerState::Committing, ConsumerEvent::CommitSucceeded) => (
            ConsumerState::Polling,
            ConsumerAction::Fetch,
        ),
        _ => (ConsumerState::Disconnected, ConsumerAction::SleepThenRetry),
    }
}

/// The batches the fetched raw records decode to, in fetch order; records
/// that fail to decode are left out.
pub open spec fn spec_process(records: Seq<Seq<u8>>) -> Seq<Seq<VehicleModel>>
    decreases records.len(),
{
    if records.len() == 0 {
        Seq::empty()
    } else {
        let rest = spec_process(records.drop_first());
        match spec_decode(records[0]) {
            Ok(b) => seq![b] + rest,
            Err(_) => rest,
        }
    }
}

/// How many of the fetched raw records fail to decode.
pub open spec fn spec_skipped(records: Seq<Seq<u8>>) -> nat
    decreases records.len(),
{
    if records.len() == 0 {
        0
    } else {
        (if spec_decode(records[0]) is Err {
            1nat
        } else {
            0nat
        }) + spec_skipped(records.drop_first())
    }
}

/// Decode one fetched batch of raw records. Returns the decoded batches in
/// fetch order together with the number of records that were skipped as
/// data errors; a failing record never aborts the remaining ones.
pub fn process_records(records: &Vec<Vec<u8>>) -> (r: (Vec<VehicleList>, usize))
    ensures
        r.0.deep_view() == spec_process(records.deep_view()),
        r.1 == spec_skipped(records.deep_view()),
        r.0@.len() + r.1 == records@.len(),
{
    let ghost full = records.deep_view();
    let mut decoded: Vec<VehicleList> = Vec::new();
    let mut skipped: usize = 0;
    let n = records.len();
    let mut k: usize = 0;
    proof {
        assert(full.skip(0) =~= full);
        assert(decoded.deep_view() + spec_process(full.skip(0)) =~= spec_process(full));
    }
    while k < n
        invariant
            n == records@.len(),
            full == records.deep_view(),
            k <= n,
            decoded@.len() + skipped == k,
            spec_process(full) == decoded.deep_view() + spec_process(full.skip(k as int)),
            spec_skipped(full) == skipped + spec_skipped(full.skip(k as int)),
        decreases n - k,
    {
        proof {
            assert(full.skip(k as int).drop_first() =~= full.skip(k + 1));
            assert(full.skip(k as int)[0] == full[k as int]);
            assert(full[k as int] == records@[k as int].deep_view());
            assert(records@[k as int].deep_view() =~= records@[k as int]@);
        }
        match decode(records[k].as_slice()) {
            Ok(list) => {
                let ghost pre = decoded.deep_view();
                let ghost model = list@;
                decoded.push(list);
                proof {
                    assert(decoded.deep_view() =~= pre.push(model));
                    assert(pre.push(model) + spec_process(full.skip(k + 1)) =~= pre + (seq![model]
                        + spec_process(full.skip(k + 1))));
                }
            },
            Err(_) => {
                skipped = skipped + 1;
            },
        }
        k = k + 1;
    }
    proof {
        assert(full.skip(n as int) =~= Seq::<Seq<u8>>::empty());
        assert(decoded.deep_view() + Seq::<Seq<VehicleModel>>::empty() =~= decoded.deep_view());
    }
    (decoded, skipped)
}

/// Partial-batch resilience: whatever came before it, a record that decodes
/// is in the processed output, and one that does not is merely skipped.
pub proof fn lemma_partial_batch_resilience(records: Seq<Seq<u8>>, j: int)
    requires
        0 <= j < records.len(),
        spec_decode(records[j]) is Ok,
    ensures
        spec_process(records).contains(spec_decode(records[j])->Ok_0),
    decreases records.len(),
{
    let b = spec_decode(records[j])->Ok_0;
    if j == 0 {
        let rest = spec_process(records.drop_first());
        assert((seq![b] + rest)[0] == b);
        assert(spec_process(records).contains(b));
    } else {
        lemma_partial_batch_resilience(records.drop_first(), j - 1);
        assert(records.drop_first()[j - 1] == records[j]);
        let rest = spec_process(records.drop_first());
        let w = choose|w: int| 0 <= w < rest.len() && rest[w] == b;
        match spec_decode(records[0]) {
            Ok(h) => {
                assert((seq![h] + rest)[w + 1] == b);
                assert(spec_process(records).contains(b));
            },
            Err(_) => {
                assert(spec_process(records) == rest);
            },
        }
    }
}

} // verus!
