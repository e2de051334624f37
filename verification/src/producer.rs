//! Broker producer: encoding a batch for publication and the drop-on-failure
//! policy.
//!
//! The producer waits for broker acknowledgment with a short bounded
//! timeout. On any failure it drops the batch and simply awaits the next
//! poll tick, which will carry fresh data: deliberate bounded staleness, not
//! durable delivery. The network call itself lives outside the library.

use vstd::prelude::*;
use vstd::string::StrSliceExecFns;

use crate::codec::{encode, spec_encode, wf_batch, wf_field, wf_vehicle};
use crate::vehicle::VehicleList;

verus! {

/// Why a publish attempt failed.
#[derive(Clone, Copy, Debug, PartialEq, Eq, Structural)]
pub enum PublishError {
    /// The broker did not acknowledge within the bounded wait.
    Timeout,
    /// The transport to the broker failed.
    Transport,
}

/// What the poller loop does after a publish attempt.
#[derive(Clone, Copy, Debug, PartialEq, Eq, Structural)]
pub enum ProducerAction {
    /// Acknowledged: nothing to do until the next poll tick.
    AwaitNextTick,
    /// Failed: log, drop this batch, and await the next poll tick all the
    /// same — no local retry, no buffering, no abort.
    DropBatchThenAwaitNextTick,
}

fn check_field(f: &Option<String>) -> (r: bool)
    ensures
        r == wf_field(f.deep_view()),
{
    match f {
        None => true,
        Some(s) => {
            let bytes = s.as_str().as_bytes_vec();
            !s.as_str().is_empty() && bytes.len() <= 0xFFFF_FFFFusize
        },
    }
}

/// Whether the wire format can carry this batch, decided executably: the
/// record count fits the count prefix, and each present descriptive field is
/// non-empty with a UTF-8 encoding that fits its length prefix.
pub fn check_batch(list: &VehicleList) -> (r: bool)
    ensures
        r == wf_batch(list@),
{
    if list.vehicles.len() > 0xFFFF_FFFFusize {
        return false;
    }
    let n = list.vehicles.len();
    let mut k: usize = 0;
    while k < n
        invariant
            n == list.vehicles@.len(),
            k <= n,
            list@.len() <= u32::MAX,
            forall|i: int| 0 <= i < k ==> wf_vehicle(#[trigger] list@[i]),
        decreases n - k,
    {
        proof {
            assert(list@[k as int] == list.vehicles@[k as int].deep_view());
        }
        let v = &list.vehicles[k];
        if !(check_field(&v.line) && check_field(&v.vehicle_ref) && check_field(&v.direction)) {
            return false;
        }
        k = k + 1;
    }
    true
}

/// Encode the batch if the wire format can carry it; report `None` instead
/// of encoding a batch it cannot.
pub fn try_encode(list: &VehicleList) -> (r: Option<Vec<u8>>)
    ensures
        r is Some <==> wf_batch(list@),
        (r matches Some(bytes) ==> bytes@ == spec_encode(list@)),
{
    if check_batch(list) {
        Some(encode(list))
    } else {
        None
    }
}

/// The bounded-staleness policy applied to one publish attempt: success
/// needs no action, and every failure drops the batch and goes on to the
/// next tick.
pub fn after_publish(result: &Result<(), PublishError>) -> (r: ProducerAction)
    ensures
        r == (match result {
            Ok(_) => ProducerAction::AwaitNextTick,
            Err(_) => ProducerAction::DropBatchThenAwaitNextTick,
        }),
        result is Err <==> r == ProducerAction::DropBatchThenAwaitNextTick,
{
    match result {
        Ok(_) => ProducerAction::AwaitNextTick,
        Err(_) => ProducerAction::DropBatchThenAwaitNextTick,
    }
}

} // verus!
