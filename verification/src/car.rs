//! One vehicle instance, owned by exactly one player.
//!
//! The server never interprets the vehicle descriptor: it is opaque
//! JSON-shaped text. The last accepted transform is kept as the raw JSON
//! bytes of the position packet that carried it; peers receive those
//! bytes, not a re-encoding.

use vstd::prelude::*;

verus! {

/// A car: its descriptor and the raw JSON of its last position update.
#[derive(Clone, Debug)]
pub struct Car {
    /// Opaque vehicle descriptor bytes, exactly as the owner sent them.
    pub car_json: Vec<u8>,
    /// Raw bytes of the JSON body of the last accepted `Z` packet.
    pub last_transform: Option<Vec<u8>>,
}

impl Car {
    /// A freshly spawned car with no transform yet.
    pub fn new(car_json: Vec<u8>) -> (r: Self)
        ensures
            r.car_json@ == car_json@,
            r.last_transform is None,
    {
        Car { car_json, last_transform: None }
    }
}

} // verus!
