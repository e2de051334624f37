use wam_relay::codec::encode;
use wam_relay::consumer::{process_records, step, ConsumerAction, ConsumerEvent, ConsumerState};
use wam_relay::producer::{after_publish, try_encode, ProducerAction, PublishError};
use wam_relay::vehicle::{Vehicle, VehicleList};

fn record(ts: i64) -> Vec<u8> {
    let v = Vehicle {
        line: Some(String::from("T1")),
        vehicle_ref: None,
        direction: None,
        latitude_bits: 10,
        longitude_bits: 20,
        timestamp: ts,
    };
    encode(&VehicleList { vehicles: vec![v] })
}

#[test]
fn state_machine_follows_the_lifecycle() {
    let (s, a) = step(ConsumerState::Disconnected, ConsumerEvent::RetryDelayElapsed);
    assert_eq!(s, ConsumerState::Connecting);
    assert_eq!(a, ConsumerAction::Connect);
    let (s, a) = step(s, ConsumerEvent::ConnectSucceeded);
    assert_eq!(s, ConsumerState::Polling);
    assert_eq!(a, ConsumerAction::Fetch);
    let (s, a) = step(s, ConsumerEvent::FetchSucceeded);
    assert_eq!(s, ConsumerState::Committing);
    assert_eq!(a, ConsumerAction::ProcessAndCommit);
    let (s, a) = step(s, ConsumerEvent::CommitSucceeded);
    assert_eq!(s, ConsumerState::Polling);
    assert_eq!(a, ConsumerAction::Fetch);
}

#[test]
fn any_failure_goes_back_to_disconnected_and_retries() {
    for (state, event) in [
        (ConsumerState::Connecting, ConsumerEvent::ConnectFailed),
        (ConsumerState::Polling, ConsumerEvent::FetchFailed),
        (ConsumerState::Committing, ConsumerEvent::CommitFailed),
    ] {
        let (s, a) = step(state, event);
        assert_eq!(s, ConsumerState::Disconnected);
        assert_eq!(a, ConsumerAction::SleepThenRetry);
    }
}

#[test]
fn failing_record_is_skipped_and_later_records_survive() {
    // Record 2 of 4 is corrupt: records 3 and 4 are still decoded and
    // forwarded, in order; only the bad one is skipped.
    let records = vec![record(1), vec![9, 9, 9], record(3), record(4)];
    let (decoded, skipped) = process_records(&records);
    assert_eq!(skipped, 1);
    assert_eq!(decoded.len(), 3);
    assert_eq!(decoded[0].vehicles[0].timestamp, 1);
    assert_eq!(decoded[1].vehicles[0].timestamp, 3);
    assert_eq!(decoded[2].vehicles[0].timestamp, 4);
}

#[test]
fn all_records_good_means_nothing_skipped() {
    let records = vec![record(1), record(2)];
    let (decoded, skipped) = process_records(&records);
    assert_eq!(skipped, 0);
    assert_eq!(decoded.len(), 2);
}

#[test]
fn publish_timeout_drops_the_batch_and_the_loop_goes_on() {
    // A timed-out publish drops that batch; the next tick still encodes and
    // publishes fresh data, and nothing aborts.
    let tick1 = VehicleList { vehicles: vec![] };
    let payload1 = try_encode(&tick1).unwrap();
    assert!(!payload1.is_empty());
    let outcome: Result<(), PublishError> = Err(PublishError::Timeout);
    assert_eq!(after_publish(&outcome), ProducerAction::DropBatchThenAwaitNextTick);
    // Next tick, roughly one fixed delay later.
    let tick2 = VehicleList {
        vehicles: vec![Vehicle {
            line: None,
            vehicle_ref: None,
            direction: None,
            latitude_bits: 1,
            longitude_bits: 2,
            timestamp: 3,
        }],
    };
    let payload2 = try_encode(&tick2).unwrap();
    let outcome: Result<(), PublishError> = Ok(());
    assert_eq!(after_publish(&outcome), ProducerAction::AwaitNextTick);
    assert_ne!(payload1, payload2);
}

#[test]
fn transport_failure_is_also_dropped_not_retried() {
    let outcome: Result<(), PublishError> = Err(PublishError::Transport);
    assert_eq!(after_publish(&outcome), ProducerAction::DropBatchThenAwaitNextTick);
}
