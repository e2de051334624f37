//! Canonical vehicle records and their mathematical models.
//!
//! Latitude and longitude travel through the system as the raw bit patterns
//! of their 64-bit floating-point representation; the library never computes
//! with them, so it carries them as `u64` values. Timestamps are unix
//! seconds.

use vstd::prelude::*;

verus! {

/// One vehicle-position record. Descriptive fields are optional and
/// independently absent; position and timestamp are always present.
pub struct Vehicle {
    pub line: Option<String>,
    pub vehicle_ref: Option<String>,
    pub direction: Option<String>,
    pub latitude_bits: u64,
    pub longitude_bits: u64,
    pub timestamp: i64,
}

/// Mathematical model of a `Vehicle`: strings become character sequences.
pub struct VehicleModel {
    pub line: Option<Seq<char>>,
    pub vehicle_ref: Option<Seq<char>>,
    pub direction: Option<Seq<char>>,
    pub latitude_bits: u64,
    pub longitude_bits: u64,
    pub timestamp: i64,
}

impl View for Vehicle {
    type V = VehicleModel;

    open spec fn view(&self) -> VehicleModel {
        VehicleModel {
            line: match self.line {
                Some(s) => Some(s@),
                None => None,
            },
            vehicle_ref: match self.vehicle_ref {
                Some(s) => Some(s@),
                None => None,
            },
            direction: match self.direction {
                Some(s) => Some(s@),
                None => None,
            },
            latitude_bits: self.latitude_bits,
            longitude_bits: self.longitude_bits,
            timestamp: self.timestamp,
        }
    }
}

impl DeepView for Vehicle {
    type V = VehicleModel;

    open spec fn deep_view(&self) -> VehicleModel {
        self.view()
    }
}

/// An ordered batch of vehicle records captured at one poll tick. Record
/// order is preserved end-to-end through encode, transport, decode and
/// fan-out.
pub struct VehicleList {
    pub vehicles: Vec<Vehicle>,
}

impl View for VehicleList {
    type V = Seq<VehicleModel>;

    open spec fn view(&self) -> Seq<VehicleModel> {
        self.vehicles.deep_view()
    }
}

impl DeepView for VehicleList {
    type V = Seq<VehicleModel>;

    open spec fn deep_view(&self) -> Seq<VehicleModel> {
        self.view()
    }
}

} // verus!
