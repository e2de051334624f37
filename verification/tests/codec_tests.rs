use wam_relay::codec::{decode, encode, CodecError};
use wam_relay::producer::try_encode;
use wam_relay::vehicle::{Vehicle, VehicleList};

fn sample_vehicle() -> Vehicle {
    Vehicle {
        line: Some(String::from("T1")),
        vehicle_ref: Some(String::from("V-42")),
        direction: Some(String::from("north")),
        latitude_bits: (45.7640_f64).to_bits(),
        longitude_bits: (4.8357_f64).to_bits(),
        timestamp: 1_722_340_000,
    }
}

fn assert_vehicle_eq(a: &Vehicle, b: &Vehicle) {
    assert_eq!(a.line, b.line);
    assert_eq!(a.vehicle_ref, b.vehicle_ref);
    assert_eq!(a.direction, b.direction);
    assert_eq!(a.latitude_bits, b.latitude_bits);
    assert_eq!(a.longitude_bits, b.longitude_bits);
    assert_eq!(a.timestamp, b.timestamp);
}

#[test]
fn round_trip_full_record() {
    let list = VehicleList { vehicles: vec![sample_vehicle()] };
    let bytes = encode(&list);
    let back = decode(bytes.as_slice()).expect("decoding an encoded batch must succeed");
    assert_eq!(back.vehicles.len(), 1);
    assert_vehicle_eq(&back.vehicles[0], &list.vehicles[0]);
}

#[test]
fn round_trip_absent_fields_and_negative_time() {
    let v = Vehicle {
        line: None,
        vehicle_ref: None,
        direction: Some(String::from("aller")),
        latitude_bits: 0,
        longitude_bits: u64::MAX,
        timestamp: -12345,
    };
    let list = VehicleList { vehicles: vec![v] };
    let bytes = encode(&list);
    let back = decode(bytes.as_slice()).unwrap();
    assert_eq!(back.vehicles.len(), 1);
    assert_vehicle_eq(&back.vehicles[0], &list.vehicles[0]);
}

#[test]
fn round_trip_empty_batch() {
    let list = VehicleList { vehicles: vec![] };
    let bytes = encode(&list);
    assert_eq!(bytes, vec![0u8, 0, 0, 0]);
    let back = decode(bytes.as_slice()).unwrap();
    assert_eq!(back.vehicles.len(), 0);
}

#[test]
fn round_trip_multibyte_strings() {
    let v = Vehicle {
        line: Some(String::from("métro B")),
        vehicle_ref: Some(String::from("gare Perrache–Confluence")),
        direction: Some(String::from("日本語テスト")),
        latitude_bits: 7,
        longitude_bits: 8,
        timestamp: 9,
    };
    let list = VehicleList { vehicles: vec![v] };
    let bytes = encode(&list);
    let back = decode(bytes.as_slice()).unwrap();
    assert_vehicle_eq(&back.vehicles[0], &list.vehicles[0]);
    // The length prefix counts UTF-8 bytes, not characters.
    assert_eq!(&bytes[4..8], &(8u32).to_le_bytes());
}

#[test]
fn round_trip_preserves_order() {
    let mut vehicles = Vec::new();
    for i in 0..5i64 {
        let mut v = sample_vehicle();
        v.timestamp = i;
        v.line = Some(format!("line-{}", i));
        vehicles.push(v);
    }
    let list = VehicleList { vehicles };
    let bytes = encode(&list);
    let back = decode(bytes.as_slice()).unwrap();
    assert_eq!(back.vehicles.len(), 5);
    for i in 0..5usize {
        assert_vehicle_eq(&back.vehicles[i], &list.vehicles[i]);
    }
}

#[test]
fn exact_wire_bytes_of_minimal_record() {
    // One record, all strings absent: count, three zero length prefixes,
    // then latitude, longitude and timestamp, all little-endian.
    let v = Vehicle {
        line: None,
        vehicle_ref: None,
        direction: None,
        latitude_bits: 1,
        longitude_bits: 2,
        timestamp: 3,
    };
    let bytes = encode(&VehicleList { vehicles: vec![v] });
    let mut expected = vec![1u8, 0, 0, 0];
    expected.extend_from_slice(&[0, 0, 0, 0]);
    expected.extend_from_slice(&[0, 0, 0, 0]);
    expected.extend_from_slice(&[0, 0, 0, 0]);
    expected.extend_from_slice(&1u64.to_le_bytes());
    expected.extend_from_slice(&2u64.to_le_bytes());
    expected.extend_from_slice(&3u64.to_le_bytes());
    assert_eq!(bytes, expected);
}

#[test]
fn exact_wire_bytes_of_string_field() {
    // The line "T1" is written as its length then its UTF-8 bytes.
    let v = Vehicle {
        line: Some(String::from("T1")),
        vehicle_ref: None,
        direction: None,
        latitude_bits: 0,
        longitude_bits: 0,
        timestamp: 0,
    };
    let bytes = encode(&VehicleList { vehicles: vec![v] });
    assert_eq!(&bytes[0..4], &[1, 0, 0, 0]);
    assert_eq!(&bytes[4..8], &[2, 0, 0, 0]);
    assert_eq!(&bytes[8..10], b"T1");
    assert_eq!(&bytes[10..14], &[0, 0, 0, 0]);
}

#[test]
fn decode_of_truncated_bytes_fails() {
    let list = VehicleList { vehicles: vec![sample_vehicle()] };
    let bytes = encode(&list);
    for cut in 0..bytes.len() {
        let r = decode(&bytes[0..cut]);
        assert_eq!(r.err(), Some(CodecError::Truncated), "cut at {}", cut);
    }
}

#[test]
fn decode_of_trailing_bytes_fails() {
    let list = VehicleList { vehicles: vec![sample_vehicle()] };
    let mut bytes = encode(&list);
    bytes.push(0);
    assert_eq!(decode(bytes.as_slice()).err(), Some(CodecError::TrailingBytes));
}

#[test]
fn decode_of_invalid_utf8_fails() {
    // A one-byte string field holding 0xFF is not UTF-8.
    let mut bytes = vec![1u8, 0, 0, 0];
    bytes.extend_from_slice(&[1, 0, 0, 0]);
    bytes.push(0xFF);
    bytes.extend_from_slice(&[0, 0, 0, 0]);
    bytes.extend_from_slice(&[0, 0, 0, 0]);
    bytes.extend_from_slice(&[0u8; 24]);
    assert_eq!(decode(bytes.as_slice()).err(), Some(CodecError::InvalidUtf8));
}

#[test]
fn decode_of_corrupted_bytes_never_panics() {
    let list = VehicleList { vehicles: vec![sample_vehicle()] };
    let bytes = encode(&list);
    // Flip every byte in turn; decoding must always return, never abort.
    for i in 0..bytes.len() {
        let mut corrupt = bytes.clone();
        corrupt[i] = !corrupt[i];
        let _ = decode(corrupt.as_slice());
    }
    // A wild record count asking for more data than there is.
    assert!(decode(&[0xFF, 0xFF, 0xFF, 0xFF, 1, 2, 3]).is_err());
}

#[test]
fn try_encode_rejects_empty_present_field() {
    // The empty string is the absence sentinel, so a present empty field
    // cannot be carried; `try_encode` refuses instead of mis-encoding.
    let v = Vehicle {
        line: Some(String::new()),
        vehicle_ref: None,
        direction: None,
        latitude_bits: 0,
        longitude_bits: 0,
        timestamp: 0,
    };
    assert!(try_encode(&VehicleList { vehicles: vec![v] }).is_none());
    let ok = VehicleList { vehicles: vec![sample_vehicle()] };
    let encoded = try_encode(&ok).expect("a well-formed batch encodes");
    assert_eq!(encoded, encode(&ok));
}
