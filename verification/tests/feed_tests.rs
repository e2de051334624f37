use wam_relay::feed::{build_vehicle_list, build_vehicle_list_now, Position, VehicleActivity};

fn activity(line: &str, with_location: bool, timestamp: Option<i64>) -> VehicleActivity {
    VehicleActivity {
        line: Some(String::from(line)),
        vehicle_ref: None,
        direction: None,
        location: if with_location {
            Some(Position { latitude_bits: (45.75_f64).to_bits(), longitude_bits: (4.85_f64).to_bits() })
        } else {
            None
        },
        timestamp,
    }
}

#[test]
fn activity_without_location_is_dropped() {
    // Three feed activities, one lacking a location: the batch holds
    // exactly the two usable records, in feed order.
    let acts = vec![
        activity("T1", true, Some(100)),
        activity("T2", false, Some(200)),
        activity("T3", true, Some(300)),
    ];
    let list = build_vehicle_list(&acts, 999);
    assert_eq!(list.vehicles.len(), 2);
    assert_eq!(list.vehicles[0].line.as_deref(), Some("T1"));
    assert_eq!(list.vehicles[1].line.as_deref(), Some("T3"));
    assert_eq!(list.vehicles[0].timestamp, 100);
    assert_eq!(list.vehicles[1].timestamp, 300);
}

#[test]
fn missing_timestamp_defaults_to_receipt_time() {
    let acts = vec![activity("T1", true, None)];
    let list = build_vehicle_list(&acts, 424242);
    assert_eq!(list.vehicles.len(), 1);
    assert_eq!(list.vehicles[0].timestamp, 424242);
}

#[test]
fn optional_fields_stay_absent_rather_than_failing_the_entry() {
    let a = VehicleActivity {
        line: None,
        vehicle_ref: Some(String::from("V-7")),
        direction: None,
        location: Some(Position { latitude_bits: 1, longitude_bits: 2 }),
        timestamp: Some(5),
    };
    let list = build_vehicle_list(&vec![a], 0);
    assert_eq!(list.vehicles.len(), 1);
    assert!(list.vehicles[0].line.is_none());
    assert_eq!(list.vehicles[0].vehicle_ref.as_deref(), Some("V-7"));
    assert!(list.vehicles[0].direction.is_none());
    assert_eq!(list.vehicles[0].latitude_bits, 1);
    assert_eq!(list.vehicles[0].longitude_bits, 2);
}

#[test]
fn empty_tick_yields_an_empty_batch() {
    let list = build_vehicle_list(&vec![], 7);
    assert_eq!(list.vehicles.len(), 0);
}

#[test]
fn receipt_time_variant_uses_the_returned_time() {
    let acts = vec![activity("T1", true, None), activity("T2", true, Some(50))];
    let (list, now) = build_vehicle_list_now(&acts);
    assert_eq!(list.vehicles.len(), 2);
    assert_eq!(list.vehicles[0].timestamp, now);
    assert_eq!(list.vehicles[1].timestamp, 50);
}
