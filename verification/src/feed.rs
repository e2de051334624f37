//! Feed-parsing policy: turning the activities of one poll tick into a
//! canonical vehicle batch.
//!
//! An activity without a location is dropped silently (a usable record needs
//! a position); the descriptive fields stay absent rather than failing the
//! entry; a missing source timestamp defaults to the local receipt time.

use vstd::prelude::*;

use crate::vehicle::{Vehicle, VehicleModel, VehicleList};

verus! {

/// A position, carried as the bit patterns of the two 64-bit coordinates.
#[derive(Clone, Copy, PartialEq, Eq, Structural)]
pub struct Position {
    pub latitude_bits: u64,
    pub longitude_bits: u64,
}

/// One entry of the external feed, reduced to the fields the pipeline
/// reads: every field of the deeply optional source document is explicitly
/// optional here.
pub struct VehicleActivity {
    pub line: Option<String>,
    pub vehicle_ref: Option<String>,
    pub direction: Option<String>,
    pub location: Option<Position>,
    pub timestamp: Option<i64>,
}

/// Mathematical model of a feed activity.
pub struct ActivityModel {
    pub line: Option<Seq<char>>,
    pub vehicle_ref: Option<Seq<char>>,
    pub direction: Option<Seq<char>>,
    pub location: Option<Position>,
    pub timestamp: Option<i64>,
}

impl View for VehicleActivity {
    type V = ActivityModel;

    open spec fn view(&self) -> ActivityModel {
        ActivityModel {
            line: match self.line {
                Some(s) => Some(s@),
                None => None,
            },
            vehicle_ref: match self.vehicle_ref {
                Some(s) => Some(s@),
                None => None,
            },
            direction: match self.direction {
                Some(s) => Some(s@),
                None => None,
            },
            location: self.location,
            timestamp: self.timestamp,
        }
    }
}

impl DeepView for VehicleActivity {
    type V = ActivityModel;

    open spec fn deep_view(&self) -> ActivityModel {
        self.view()
    }
}

/// The record an activity with a location yields: position copied, missing
/// timestamp defaulted to the receipt time.
pub open spec fn spec_record_of(a: ActivityModel, pos: Position, now: i64) -> VehicleModel {
    VehicleModel {
        line: a.line,
        vehicle_ref: a.vehicle_ref,
        direction: a.direction,
        latitude_bits: pos.latitude_bits,
        longitude_bits: pos.longitude_bits,
        timestamp: match a.timestamp {
            Some(t) => t,
            None => now,
        },
    }
}

/// The batch one poll tick yields: the records of the activities that have
/// a location, in feed order; the others are dropped.
pub open spec fn spec_build(acts: Seq<ActivityModel>, now: i64) -> Seq<VehicleModel>
    decreases acts.len(),
{
    if acts.len() == 0 {
        Seq::empty()
    } else {
        let rest = spec_build(acts.drop_first(), now);
        match acts[0].location {
            None => rest,
            Some(pos) => seq![spec_record_of(acts[0], pos, now)] + rest,
        }
    }
}

fn clone_opt_string(o: &Option<String>) -> (r: Option<String>)
    ensures
        r.deep_view() == o.deep_view(),
{
    match o {
        Some(s) => Some(s.clone()),
        None => None,
    }
}

/// Build the canonical batch of one poll tick from the tick's activities,
/// with `now` as the local receipt time for entries without a source
/// timestamp.
pub fn build_vehicle_list(activities: &Vec<VehicleActivity>, now: i64) -> (r: VehicleList)
    ensures
        r@ == spec_build(activities.deep_view(), now),
{
    let ghost full = activities.deep_view();
    let mut vehicles: Vec<Vehicle> = Vec::new();
    let n = activities.len();
    let mut k: usize = 0;
    proof {
        assert(full.skip(0) =~= full);
        assert(vehicles.deep_view() + spec_build(full.skip(0), now) =~= spec_build(full, now));
    }
    while k < n
        invariant
            n == activities@.len(),
            full == activities.deep_view(),
            k <= n,
            spec_build(full, now) == vehicles.deep_view() + spec_build(full.skip(k as int), now),
        decreases n - k,
    {
        proof {
            assert(full.skip(k as int).drop_first() =~= full.skip(k + 1));
            assert(full.skip(k as int)[0] == full[k as int]);
            assert(full[k as int] == activities@[k as int].deep_view());
        }
        let a = &activities[k];
        match a.location {
            Some(pos) => {
                let ghost pre_models = vehicles.deep_view();
                vehicles.push(
                    Vehicle {
                        line: clone_opt_string(&a.line),
                        vehicle_ref: clone_opt_string(&a.vehicle_ref),
                        direction: clone_opt_string(&a.direction),
                        latitude_bits: pos.latitude_bits,
                        longitude_bits: pos.longitude_bits,
                        timestamp: match a.timestamp {
                            Some(t) => t,
                            None => now,
                        },
                    },
                );
                proof {
                    let rec = spec_record_of(full[k as int], pos, now);
                    assert(vehicles.deep_view() =~= pre_models.push(rec));
                    assert(pre_models.push(rec) + spec_build(full.skip(k + 1), now) =~= pre_models
                        + (seq![rec] + spec_build(full.skip(k + 1), now)));
                }
            },
            None => {
            },
        }
        k = k + 1;
    }
    proof {
        assert(full.skip(n as int) =~= Seq::<ActivityModel>::empty());
        assert(vehicles.deep_view() + Seq::<VehicleModel>::empty() =~= vehicles.deep_view());
    }
    VehicleList { vehicles }
}

/// Relies on `std::time::SystemTime::now`: the local clock read as unix
/// seconds, with a clock before the epoch read as a non-positive count and
/// an out-of-range count saturated. No branch panics, and nothing can be
/// promised of the value.
#[verifier::external_body]
fn now_unix_seconds() -> i64 {
    match std::time::SystemTime::now().duration_since(std::time::UNIX_EPOCH) {
        Ok(d) => i64::try_from(d.as_secs()).unwrap_or(i64::MAX),
        Err(e) => -(i64::try_from(e.duration().as_secs()).unwrap_or(i64::MAX)),
    }
}

/// Build the batch of one poll tick, reading the local clock for the receipt
/// time. Returns the batch together with the receipt time it used.
pub fn build_vehicle_list_now(activities: &Vec<VehicleActivity>) -> (r: (VehicleList, i64))
    ensures
        r.0@ == spec_build(activities.deep_view(), r.1),
{
    let now = now_unix_seconds();
    (build_vehicle_list(activities, now), now)
}

} // verus!
