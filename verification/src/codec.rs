//! Binary wire codec for vehicle batches.
//!
//! The format is a fixed, versionless binary schema: a 32-bit little-endian
//! record count, then for each record three length-prefixed optional UTF-8
//! strings (a zero length is the sentinel for an absent field), two 64-bit
//! position values (latitude and longitude bit patterns) and one 64-bit
//! timestamp (unix seconds), all little-endian.
//!
//! `spec_decode` is a total mathematical parser; `decode` is proved to agree
//! with it exactly, so decoding malformed or truncated bytes always returns a
//! `CodecError` and never aborts the caller. `lemma_round_trip` shows that
//! decoding an encoded batch gives the batch back.

use vstd::prelude::*;
use vstd::bytes::{
    spec_u32_to_le_bytes, spec_u32_from_le_bytes, lemma_auto_spec_u32_to_from_le_bytes,
    spec_u64_to_le_bytes, spec_u64_from_le_bytes, lemma_auto_spec_u64_to_from_le_bytes,
    u32_from_le_bytes, u32_to_le_bytes, u64_from_le_bytes, u64_to_le_bytes,
};
use vstd::utf8::{encode_utf8, decode_utf8, valid_utf8};
use vstd::slice::{slice_subrange, slice_to_vec};
use vstd::string::StrSliceExecFns;

use crate::vehicle::{Vehicle, VehicleModel, VehicleList};

verus! {

broadcast use vstd::utf8::group_utf8_lib;

/// Why a byte string failed to decode as a vehicle batch.
#[derive(Clone, Copy, Debug, PartialEq, Eq, Structural)]
pub enum CodecError {
    /// The input ended before the announced contents did.
    Truncated,
    /// A string field did not hold valid UTF-8.
    InvalidUtf8,
    /// Bytes remained after the announced record count was read.
    TrailingBytes,
}

/// An optional string field can be carried by the wire format: when present
/// it is non-empty (the empty string is the sentinel for absence) and its
/// UTF-8 encoding fits the 32-bit length prefix.
pub open spec fn wf_field(f: Option<Seq<char>>) -> bool {
    match f {
        None => true,
        Some(cs) => cs.len() > 0 && encode_utf8(cs).len() <= u32::MAX,
    }
}

/// All three descriptive fields of the record can be carried.
pub open spec fn wf_vehicle(v: VehicleModel) -> bool {
    wf_field(v.line) && wf_field(v.vehicle_ref) && wf_field(v.direction)
}

/// The batch fits the 32-bit record count and every record can be carried.
pub open spec fn wf_batch(b: Seq<VehicleModel>) -> bool {
    &&& b.len() <= u32::MAX
    &&& forall|i: int| 0 <= i < b.len() ==> wf_vehicle(#[trigger] b[i])
}

/// Wire form of one optional string: length prefix, then the UTF-8 bytes.
pub open spec fn spec_encode_field(f: Option<Seq<char>>) -> Seq<u8> {
    match f {
        None => spec_u32_to_le_bytes(0),
        Some(cs) => spec_u32_to_le_bytes(encode_utf8(cs).len() as u32) + encode_utf8(cs),
    }
}

/// Wire form of one record.
pub open spec fn spec_encode_vehicle(v: VehicleModel) -> Seq<u8> {
    spec_encode_field(v.line) + spec_encode_field(v.vehicle_ref) + spec_encode_field(v.direction)
        + spec_u64_to_le_bytes(v.latitude_bits) + spec_u64_to_le_bytes(v.longitude_bits)
        + spec_u64_to_le_bytes(v.timestamp as u64)
}

/// Wire form of the records of a batch, in order.
pub open spec fn spec_encode_records(b: Seq<VehicleModel>) -> Seq<u8>
    decreases b.len(),
{
    if b.len() == 0 {
        Seq::empty()
    } else {
        spec_encode_vehicle(b[0]) + spec_encode_records(b.drop_first())
    }
}

/// Wire form of a whole batch: record count, then the records.
pub open spec fn spec_encode(b: Seq<VehicleModel>) -> Seq<u8> {
    spec_u32_to_le_bytes(b.len() as u32) + spec_encode_records(b)
}

/// Read a 32-bit little-endian integer from the front of `s`.
pub open spec fn spec_take_u32(s: Seq<u8>) -> Result<(u32, Seq<u8>), CodecError> {
    if s.len() < 4 {
        Err(CodecError::Truncated)
    } else {
        Ok((spec_u32_from_le_bytes(s.subrange(0, 4)), s.skip(4)))
    }
}

/// Read a 64-bit little-endian integer from the front of `s`.
pub open spec fn spec_take_u64(s: Seq<u8>) -> Result<(u64, Seq<u8>), CodecError> {
    if s.len() < 8 {
        Err(CodecError::Truncated)
    } else {
        Ok((spec_u64_from_le_bytes(s.subrange(0, 8)), s.skip(8)))
    }
}

/// Read one length-prefixed optional string from the front of `s`.
pub open spec fn spec_take_field(s: Seq<u8>) -> Result<(Option<Seq<char>>, Seq<u8>), CodecError> {
    match spec_take_u32(s) {
        Err(e) => Err(e),
        Ok((n, rest)) => {
            if rest.len() < n {
                Err(CodecError::Truncated)
            } else if n == 0 {
                Ok((None, rest))
            } else {
                let sb = rest.subrange(0, n as int);
                if valid_utf8(sb) {
                    Ok((Some(decode_utf8(sb)), rest.skip(n as int)))
                } else {
                    Err(CodecError::InvalidUtf8)
                }
            }
        }
    }
}

/// Read one record from the front of `s`.
pub open spec fn spec_take_vehicle(s: Seq<u8>) -> Result<(VehicleModel, Seq<u8>), CodecError> {
    match spec_take_field(s) {
        Err(e) => Err(e),
        Ok((line, s1)) => match spec_take_field(s1) {
            Err(e) => Err(e),
            Ok((vehicle_ref, s2)) => match spec_take_field(s2) {
                Err(e) => Err(e),
                Ok((direction, s3)) => match spec_take_u64(s3) {
                    Err(e) => Err(e),
                    Ok((lat, s4)) => match spec_take_u64(s4) {
                        Err(e) => Err(e),
                        Ok((lon, s5)) => match spec_take_u64(s5) {
                            Err(e) => Err(e),
                            Ok((ts, s6)) => Ok((
                                VehicleModel {
                                    line,
                                    vehicle_ref,
                                    direction,
                                    latitude_bits: lat,
                                    longitude_bits: lon,
                                    timestamp: ts as i64,
                                },
                                s6,
                            )),
                        },
                    },
                },
            },
        },
    }
}

/// Read exactly `n` records, demanding that they consume all of `s`.
pub open spec fn spec_take_records(s: Seq<u8>, n: nat) -> Result<Seq<VehicleModel>, CodecError>
    decreases n,
{
    if n == 0 {
        if s.len() == 0 {
            Ok(Seq::empty())
        } else {
            Err(CodecError::TrailingBytes)
        }
    } else {
        match spec_take_vehicle(s) {
            Err(e) => Err(e),
            Ok((v, rest)) => match spec_take_records(rest, (n - 1) as nat) {
                Err(e) => Err(e),
                Ok(t) => Ok(seq![v] + t),
            },
        }
    }
}

/// The mathematical decoder: count, then exactly that many records, with
/// nothing left over.
pub open spec fn spec_decode(s: Seq<u8>) -> Result<Seq<VehicleModel>, CodecError> {
    match spec_take_u32(s) {
        Err(e) => Err(e),
        Ok((n, rest)) => spec_take_records(rest, n as nat),
    }
}

/// Relies on `String::from_utf8`: it succeeds exactly on valid UTF-8 input,
/// and the returned string's characters encode back to the input bytes.
#[verifier::external_body]
fn bytes_to_string(v: Vec<u8>) -> (r: Option<String>)
    ensures
        r is Some <==> valid_utf8(v@),
        (r matches Some(s) ==> encode_utf8(s@) == v@),
{
    match String::from_utf8(v) {
        Ok(s) => Some(s),
        Err(_) => None,
    }
}

fn take_u32(bytes: &[u8], i: usize) -> (r: Result<(u32, usize), CodecError>)
    requires
        i <= bytes@.len(),
    ensures
        (match r {
            Ok(p) => i <= p.1 <= bytes@.len()
                && spec_take_u32(bytes@.skip(i as int)) == Ok::<_, CodecError>((
                p.0,
                bytes@.skip(p.1 as int),
            )),
            Err(e) => spec_take_u32(bytes@.skip(i as int)) == Err::<(u32, Seq<u8>), _>(e),
        }),
{
    if bytes.len() - i < 4 {
        Err(CodecError::Truncated)
    } else {
        let s = slice_subrange(bytes, i, i + 4);
        let x = u32_from_le_bytes(s);
        proof {
            assert(bytes@.skip(i as int).subrange(0, 4) =~= bytes@.subrange(i as int, i + 4));
            assert(bytes@.skip(i as int).skip(4) =~= bytes@.skip(i + 4));
        }
        Ok((x, i + 4))
    }
}

fn take_u64(bytes: &[u8], i: usize) -> (r: Result<(u64, usize), CodecError>)
    requires
        i <= bytes@.len(),
    ensures
        (match r {
            Ok(p) => i <= p.1 <= bytes@.len()
                && spec_take_u64(bytes@.skip(i as int)) == Ok::<_, CodecError>((
                p.0,
                bytes@.skip(p.1 as int),
            )),
            Err(e) => spec_take_u64(bytes@.skip(i as int)) == Err::<(u64, Seq<u8>), _>(e),
        }),
{
    if bytes.len() - i < 8 {
        Err(CodecError::Truncated)
    } else {
        let s = slice_subrange(bytes, i, i + 8);
        let x = u64_from_le_bytes(s);
        proof {
            assert(bytes@.skip(i as int).subrange(0, 8) =~= bytes@.subrange(i as int, i + 8));
            assert(bytes@.skip(i as int).skip(8) =~= bytes@.skip(i + 8));
        }
        Ok((x, i + 8))
    }
}

fn take_field(bytes: &[u8], i: usize) -> (r: Result<(Option<String>, usize), CodecError>)
    requires
        i <= bytes@.len(),
    ensures
        (match r {
            Ok(p) => i <= p.1 <= bytes@.len()
                && spec_take_field(bytes@.skip(i as int)) == Ok::<_, CodecError>((
                p.0.deep_view(),
                bytes@.skip(p.1 as int),
            )),
            Err(e) => spec_take_field(bytes@.skip(i as int)) == Err::<
                (Option<Seq<char>>, Seq<u8>),
                _,
            >(e),
        }),
{
    match take_u32(bytes, i) {
        Err(e) => Err(e),
        Ok((n, j)) => {
            let nn = n as usize;
            if bytes.len() - j < nn {
                Err(CodecError::Truncated)
            } else if n == 0 {
                Ok((None, j))
            } else {
                let sb = slice_subrange(bytes, j, j + nn);
                proof {
                    assert(bytes@.skip(j as int).subrange(0, n as int) =~= bytes@.subrange(
                        j as int,
                        j + nn,
                    ));
                    assert(bytes@.skip(j as int).skip(n as int) =~= bytes@.skip(j + nn));
                }
                let v = slice_to_vec(sb);
                match bytes_to_string(v) {
                    Some(s) => {
                        proof {
                            vstd::utf8::encode_utf8_decode_utf8(s@);
                        }
                        Ok((Some(s), j + nn))
                    },
                    None => Err(CodecError::InvalidUtf8),
                }
            }
        },
    }
}

fn take_vehicle(bytes: &[u8], i: usize) -> (r: Result<(Vehicle, usize), CodecError>)
    requires
        i <= bytes@.len(),
    ensures
        (match r {
            Ok(p) => i <= p.1 <= bytes@.len()
                && spec_take_vehicle(bytes@.skip(i as int)) == Ok::<_, CodecError>((
                p.0@,
                bytes@.skip(p.1 as int),
            )),
            Err(e) => spec_take_vehicle(bytes@.skip(i as int)) == Err::<
                (VehicleModel, Seq<u8>),
                _,
            >(e),
        }),
{
    let (line, i1) = match take_field(bytes, i) {
        Err(e) => {
            return Err(e);
        },
        Ok(p) => p,
    };
    let (vehicle_ref, i2) = match take_field(bytes, i1) {
        Err(e) => {
            return Err(e);
        },
        Ok(p) => p,
    };
    let (direction, i3) = match take_field(bytes, i2) {
        Err(e) => {
            return Err(e);
        },
        Ok(p) => p,
    };
    let (latitude_bits, i4) = match take_u64(bytes, i3) {
        Err(e) => {
            return Err(e);
        },
        Ok(p) => p,
    };
    let (longitude_bits, i5) = match take_u64(bytes, i4) {
        Err(e) => {
            return Err(e);
        },
        Ok(p) => p,
    };
    let (ts, i6) = match take_u64(bytes, i5) {
        Err(e) => {
            return Err(e);
        },
        Ok(p) => p,
    };
    let v = Vehicle {
        line,
        vehicle_ref,
        direction,
        latitude_bits,
        longitude_bits,
        timestamp: ts as i64,
    };
    Ok((v, i6))
}

/// Decode a byte string into a vehicle batch. Agrees exactly with
/// `spec_decode`: every malformed input yields the error that the
/// mathematical parser gives, and never a crash.
pub fn decode(bytes: &[u8]) -> (r: Result<VehicleList, CodecError>)
    ensures
        (match r {
            Ok(list) => spec_decode(bytes@) == Ok::<_, CodecError>(list@),
            Err(e) => spec_decode(bytes@) == Err::<Seq<VehicleModel>, _>(e),
        }),
{
    proof {
        assert(bytes@.skip(0) =~= bytes@);
    }
    let (count, start) = match take_u32(bytes, 0) {
        Err(e) => {
            return Err(e);
        },
        Ok(p) => p,
    };
    let mut vehicles: Vec<Vehicle> = Vec::new();
    let mut i: usize = start;
    let mut k: u32 = 0;
    while k < count
        invariant
            k <= count,
            i <= bytes@.len(),
            spec_decode(bytes@) == (match spec_take_records(
                bytes@.skip(i as int),
                (count - k) as nat,
            ) {
                Ok(t) => Ok::<Seq<VehicleModel>, CodecError>(vehicles.deep_view() + t),
                Err(e) => Err::<Seq<VehicleModel>, CodecError>(e),
            }),
        decreases count - k,
    {
        match take_vehicle(bytes, i) {
            Err(e) => {
                return Err(e);
            },
            Ok((v, j)) => {
                let ghost old_models = vehicles.deep_view();
                vehicles.push(v);
                proof {
                    assert(vehicles.deep_view() =~= old_models.push(v@));
                    let rest = bytes@.skip(j as int);
                    let taken = spec_take_records(rest, (count - k - 1) as nat);
                    if taken is Ok {
                        let t = taken->Ok_0;
                        assert(old_models.push(v@) + t =~= old_models + (seq![v@] + t));
                    }
                }
                i = j;
                k = k + 1;
            },
        }
    }
    if i == bytes.len() {
        proof {
            assert(bytes@.skip(i as int).len() == 0);
            assert(vehicles.deep_view() + Seq::<VehicleModel>::empty() =~= vehicles.deep_view());
        }
        Ok(VehicleList { vehicles })
    } else {
        proof {
            assert(bytes@.skip(i as int).len() > 0);
        }
        Err(CodecError::TrailingBytes)
    }
}

fn encode_field(f: &Option<String>) -> (r: Vec<u8>)
    requires
        wf_field(f.deep_view()),
    ensures
        r@ == spec_encode_field(f.deep_view()),
{
    match f {
        None => u32_to_le_bytes(0),
        Some(s) => {
            let mut sb = s.as_str().as_bytes_vec();
            let n: u32 = sb.len() as u32;
            let mut out = u32_to_le_bytes(n);
            out.append(&mut sb);
            out
        },
    }
}

fn encode_vehicle(v: &Vehicle) -> (r: Vec<u8>)
    requires
        wf_vehicle(v@),
    ensures
        r@ == spec_encode_vehicle(v@),
{
    let mut out = encode_field(&v.line);
    let mut b1 = encode_field(&v.vehicle_ref);
    out.append(&mut b1);
    let mut b2 = encode_field(&v.direction);
    out.append(&mut b2);
    let mut b3 = u64_to_le_bytes(v.latitude_bits);
    out.append(&mut b3);
    let mut b4 = u64_to_le_bytes(v.longitude_bits);
    out.append(&mut b4);
    let mut b5 = u64_to_le_bytes(v.timestamp as u64);
    out.append(&mut b5);
    proof {
        assert(out@ =~= spec_encode_vehicle(v@));
    }
    out
}

/// `spec_encode_records` distributes over concatenation.
proof fn lemma_encode_records_concat(a: Seq<VehicleModel>, b: Seq<VehicleModel>)
    ensures
        spec_encode_records(a + b) == spec_encode_records(a) + spec_encode_records(b),
    decreases a.len(),
{
    if a.len() == 0 {
        assert(a + b =~= b);
        assert(spec_encode_records(a) + spec_encode_records(b) =~= spec_encode_records(b));
    } else {
        assert((a + b).drop_first() =~= a.drop_first() + b);
        lemma_encode_records_concat(a.drop_first(), b);
        assert(spec_encode_records(a + b) =~= spec_encode_records(a) + spec_encode_records(b));
    }
}

/// Encode a vehicle batch into its wire form.
pub fn encode(list: &VehicleList) -> (r: Vec<u8>)
    requires
        wf_batch(list@),
    ensures
        r@ == spec_encode(list@),
{
    let count: u32 = list.vehicles.len() as u32;
    let mut out = u32_to_le_bytes(count);
    let mut k: usize = 0;
    proof {
        assert(list@.take(0) =~= Seq::<VehicleModel>::empty());
        assert(out@ =~= spec_u32_to_le_bytes(count) + spec_encode_records(list@.take(0)));
    }
    while k < list.vehicles.len()
        invariant
            k <= list@.len(),
            wf_batch(list@),
            count == list@.len() as u32,
            list@.len() <= u32::MAX,
            out@ == spec_u32_to_le_bytes(count) + spec_encode_records(list@.take(k as int)),
        decreases list@.len() - k,
    {
        proof {
            assert(list@[k as int] == list.vehicles@[k as int].deep_view());
            assert(wf_vehicle(list@[k as int]));
        }
        let mut vb = encode_vehicle(&list.vehicles[k]);
        out.append(&mut vb);
        proof {
            assert(list@.take(k + 1) =~= list@.take(k as int) + seq![list@[k as int]]);
            let single = seq![list@[k as int]];
            lemma_encode_records_concat(list@.take(k as int), single);
            assert(single.drop_first() =~= Seq::<VehicleModel>::empty());
            assert(spec_encode_records(Seq::<VehicleModel>::empty()) == Seq::<u8>::empty());
            assert(spec_encode_records(single) == spec_encode_vehicle(single[0])
                + spec_encode_records(single.drop_first()));
            assert(spec_encode_vehicle(list@[k as int]) + Seq::<u8>::empty()
                =~= spec_encode_vehicle(list@[k as int]));
            assert(out@ =~= spec_u32_to_le_bytes(count) + spec_encode_records(
                list@.take(k + 1),
            ));
        }
        k = k + 1;
    }
    proof {
        assert(list@.take(list@.len() as int) =~= list@);
    }
    out
}

/// Reading a 32-bit prefix undoes writing one.
proof fn lemma_take_u32_inverts(x: u32, rest: Seq<u8>)
    ensures
        spec_take_u32(spec_u32_to_le_bytes(x) + rest) == Ok::<_, CodecError>((x, rest)),
{
    lemma_auto_spec_u32_to_from_le_bytes();
    let s = spec_u32_to_le_bytes(x) + rest;
    assert(s.subrange(0, 4) =~= spec_u32_to_le_bytes(x));
    assert(s.skip(4) =~= rest);
}

/// Reading a 64-bit value undoes writing one.
proof fn lemma_take_u64_inverts(x: u64, rest: Seq<u8>)
    ensures
        spec_take_u64(spec_u64_to_le_bytes(x) + rest) == Ok::<_, CodecError>((x, rest)),
{
    lemma_auto_spec_u64_to_from_le_bytes();
    let s = spec_u64_to_le_bytes(x) + rest;
    assert(s.subrange(0, 8) =~= spec_u64_to_le_bytes(x));
    assert(s.skip(8) =~= rest);
}

/// A non-empty character sequence has a non-empty UTF-8 encoding.
proof fn lemma_encode_utf8_nonempty(cs: Seq<char>)
    requires
        cs.len() > 0,
    ensures
        encode_utf8(cs).len() >= 1,
{
    assert(vstd::utf8::encode_scalar(cs[0] as u32).len() >= 1);
}

/// Reading an optional string field undoes writing one, for fields the wire
/// format can carry.
proof fn lemma_take_field_inverts(f: Option<Seq<char>>, rest: Seq<u8>)
    requires
        wf_field(f),
    ensures
        spec_take_field(spec_encode_field(f) + rest) == Ok::<_, CodecError>((f, rest)),
{
    match f {
        None => {
            lemma_take_u32_inverts(0, rest);
        },
        Some(cs) => {
            let eb = encode_utf8(cs);
            let n: u32 = eb.len() as u32;
            lemma_encode_utf8_nonempty(cs);
            assert(spec_encode_field(f) + rest =~= spec_u32_to_le_bytes(n) + (eb + rest));
            lemma_take_u32_inverts(n, eb + rest);
            assert((eb + rest).subrange(0, n as int) =~= eb);
            assert((eb + rest).skip(n as int) =~= rest);
            vstd::utf8::encode_utf8_decode_utf8(cs);
        },
    }
}

/// Reading one record undoes writing one, for records the wire format can
/// carry.
proof fn lemma_take_vehicle_inverts(v: VehicleModel, rest: Seq<u8>)
    requires
        wf_vehicle(v),
    ensures
        spec_take_vehicle(spec_encode_vehicle(v) + rest) == Ok::<_, CodecError>((v, rest)),
{
    let f1 = spec_encode_field(v.line);
    let f2 = spec_encode_field(v.vehicle_ref);
    let f3 = spec_encode_field(v.direction);
    let b1 = spec_u64_to_le_bytes(v.latitude_bits);
    let b2 = spec_u64_to_le_bytes(v.longitude_bits);
    let b3 = spec_u64_to_le_bytes(v.timestamp as u64);
    assert(spec_encode_vehicle(v) + rest =~= f1 + (f2 + (f3 + (b1 + (b2 + (b3 + rest))))));
    lemma_take_field_inverts(v.line, f2 + (f3 + (b1 + (b2 + (b3 + rest)))));
    lemma_take_field_inverts(v.vehicle_ref, f3 + (b1 + (b2 + (b3 + rest))));
    lemma_take_field_inverts(v.direction, b1 + (b2 + (b3 + rest)));
    lemma_take_u64_inverts(v.latitude_bits, b2 + (b3 + rest));
    lemma_take_u64_inverts(v.longitude_bits, b3 + rest);
    lemma_take_u64_inverts(v.timestamp as u64, rest);
    let ts = v.timestamp;
    assert((ts as u64) as i64 == ts) by (bit_vector);
}

/// Reading back every record of an encoded batch gives the batch.
#[verifier::rlimit(50)]
proof fn lemma_take_records_inverts(b: Seq<VehicleModel>)
    requires
        forall|i: int| 0 <= i < b.len() ==> wf_vehicle(#[trigger] b[i]),
    ensures
        spec_take_records(spec_encode_records(b), b.len()) == Ok::<_, CodecError>(b),
    decreases b.len(),
{
    if b.len() == 0 {
        assert(Seq::<VehicleModel>::empty() =~= b);
    } else {
        let tail = spec_encode_records(b.drop_first());
        lemma_take_vehicle_inverts(b[0], tail);
        lemma_take_records_inverts(b.drop_first());
        assert(seq![b[0]] + b.drop_first() =~= b);
    }
}

/// Round trip: decoding the encoding of any batch the wire format can carry
/// gives exactly that batch back.
pub proof fn lemma_round_trip(b: Seq<VehicleModel>)
    requires
        wf_batch(b),
    ensures
        spec_decode(spec_encode(b)) == Ok::<_, CodecError>(b),
{
    lemma_take_u32_inverts(b.len() as u32, spec_encode_records(b));
    lemma_take_records_inverts(b);
}

proof fn lemma_take_u32_sound(s: Seq<u8>)
    ensures
        (spec_take_u32(s) matches Ok(p) ==> s == spec_u32_to_le_bytes(p.0) + p.1),
{
    if spec_take_u32(s) is Ok {
        lemma_auto_spec_u32_to_from_le_bytes();
        let p = spec_take_u32(s)->Ok_0;
        assert(spec_u32_to_le_bytes(spec_u32_from_le_bytes(s.subrange(0, 4))) == s.subrange(0, 4));
        assert(s =~= s.subrange(0, 4) + s.skip(4));
    }
}

proof fn lemma_take_u64_sound(s: Seq<u8>)
    ensures
        (spec_take_u64(s) matches Ok(p) ==> s == spec_u64_to_le_bytes(p.0) + p.1),
{
    if spec_take_u64(s) is Ok {
        lemma_auto_spec_u64_to_from_le_bytes();
        assert(spec_u64_to_le_bytes(spec_u64_from_le_bytes(s.subrange(0, 8))) == s.subrange(0, 8));
        assert(s =~= s.subrange(0, 8) + s.skip(8));
    }
}

proof fn lemma_take_field_sound(s: Seq<u8>)
    ensures
        (spec_take_field(s) matches Ok(p) ==> wf_field(p.0) && s == spec_encode_field(p.0) + p.1),
{
    if spec_take_field(s) is Ok {
        lemma_take_u32_sound(s);
        let q = spec_take_u32(s)->Ok_0;
        let n = q.0;
        let rest = q.1;
        if n == 0 {
            assert(s =~= spec_u32_to_le_bytes(0) + rest);
        } else {
            let sb = rest.subrange(0, n as int);
            assert(valid_utf8(sb));
            let cs = decode_utf8(sb);
            assert(cs.len() > 0);
            vstd::utf8::decode_utf8_encode_utf8(sb);
            assert(encode_utf8(cs) == sb);
            assert(rest =~= sb + rest.skip(n as int));
            assert(s =~= spec_u32_to_le_bytes(n) + (sb + rest.skip(n as int)));
            assert(s =~= (spec_u32_to_le_bytes(n) + sb) + rest.skip(n as int));
        }
    }
}

proof fn lemma_take_vehicle_sound(s: Seq<u8>)
    ensures
        (spec_take_vehicle(s) matches Ok(p) ==> wf_vehicle(p.0) && s == spec_encode_vehicle(p.0)
            + p.1),
{
    if spec_take_vehicle(s) is Ok {
        let p = spec_take_vehicle(s)->Ok_0;
        let v = p.0;
        lemma_take_field_sound(s);
        let s1 = spec_take_field(s)->Ok_0.1;
        lemma_take_field_sound(s1);
        let s2 = spec_take_field(s1)->Ok_0.1;
        lemma_take_field_sound(s2);
        let s3 = spec_take_field(s2)->Ok_0.1;
        lemma_take_u64_sound(s3);
        let s4 = spec_take_u64(s3)->Ok_0.1;
        lemma_take_u64_sound(s4);
        let s5 = spec_take_u64(s4)->Ok_0.1;
        lemma_take_u64_sound(s5);
        let s6 = spec_take_u64(s5)->Ok_0.1;
        let ts = spec_take_u64(s5)->Ok_0.0;
        assert(ts as i64 == v.timestamp);
        assert((ts as i64) as u64 == ts) by (bit_vector);
        lemma_assemble_vehicle(
            v,
            s,
            s1,
            s2,
            s3,
            s4,
            s5,
            s6,
        );
    }
}

/// Re-assembling the six parsed pieces of one record gives its wire form.
proof fn lemma_assemble_vehicle(
    v: VehicleModel,
    s: Seq<u8>,
    s1: Seq<u8>,
    s2: Seq<u8>,
    s3: Seq<u8>,
    s4: Seq<u8>,
    s5: Seq<u8>,
    s6: Seq<u8>,
)
    requires
        s == spec_encode_field(v.line) + s1,
        s1 == spec_encode_field(v.vehicle_ref) + s2,
        s2 == spec_encode_field(v.direction) + s3,
        s3 == spec_u64_to_le_bytes(v.latitude_bits) + s4,
        s4 == spec_u64_to_le_bytes(v.longitude_bits) + s5,
        s5 == spec_u64_to_le_bytes(v.timestamp as u64) + s6,
    ensures
        s == spec_encode_vehicle(v) + s6,
{
    assert(s =~= spec_encode_vehicle(v) + s6);
}

proof fn lemma_take_records_sound(s: Seq<u8>, n: nat)
    ensures
        (spec_take_records(s, n) matches Ok(b) ==> b.len() == n && (forall|i: int|
            0 <= i < b.len() ==> wf_vehicle(#[trigger] b[i])) && s == spec_encode_records(b)),
    decreases n,
{
    if spec_take_records(s, n) is Ok {
        let b = spec_take_records(s, n)->Ok_0;
        if n == 0 {
            assert(s =~= spec_encode_records(b));
        } else {
            lemma_take_vehicle_sound(s);
            let p = spec_take_vehicle(s)->Ok_0;
            let v = p.0;
            let rest = p.1;
            lemma_take_records_sound(rest, (n - 1) as nat);
            let t = spec_take_records(rest, (n - 1) as nat)->Ok_0;
            assert(b == seq![v] + t);
            assert(b[0] == v);
            assert(b.drop_first() =~= t);
            assert(s =~= spec_encode_vehicle(v) + spec_encode_records(t));
        }
    }
}

/// Soundness of the decoder: a byte string that decodes is exactly the
/// encoding of the batch it decodes to — together with `lemma_round_trip`,
/// decoding is the exact inverse of encoding.
pub proof fn lemma_decode_sound(s: Seq<u8>)
    ensures
        (spec_decode(s) matches Ok(b) ==> wf_batch(b) && spec_encode(b) == s),
{
    if spec_decode(s) is Ok {
        let b = spec_decode(s)->Ok_0;
        lemma_take_u32_sound(s);
        let q = spec_take_u32(s)->Ok_0;
        lemma_take_records_sound(q.1, q.0 as nat);
        assert(b.len() == q.0 as nat);
        assert(b.len() as u32 == q.0);
    }
}

/// The encoding is injective: two batches the wire format can carry never
/// share a wire form, so a wire form determines its batch.
pub proof fn lemma_encode_injective(a: Seq<VehicleModel>, b: Seq<VehicleModel>)
    requires
        wf_batch(a),
        wf_batch(b),
        spec_encode(a) == spec_encode(b),
    ensures
        a == b,
{
    lemma_round_trip(a);
    lemma_round_trip(b);
}

} // verus!
