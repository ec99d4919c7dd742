//! Readiness: whether the gateway should get traffic.

use crate::registry::Registry;
use vstd::prelude::*;

verus! {

/// The answer to a readiness probe.
#[derive(Clone, Copy, Debug, PartialEq, Eq, Structural)]
pub struct Readiness {
    pub ready: bool,
    pub db: bool,
    pub registry_sensors: usize,
    pub registry_generation: u64,
}

/// The gateway is ready where the database answers and the registry knows at
/// least one sensor.
pub fn readiness(registry: &Registry, db_ok: bool) -> (r: Readiness)
    ensures
        r.ready <==> db_ok && registry.sensors@.dom().len() > 0,
        r.db == db_ok,
        r.registry_sensors == registry.sensors@.dom().len(),
        r.registry_generation == registry.generation,
{
    broadcast use vstd::std_specs::hash::group_hash_axioms;

    let sensors: usize = registry.sensors.len();
    Readiness {
        ready: db_ok && sensors > 0,
        db: db_ok,
        registry_sensors: sensors,
        registry_generation: registry.generation,
    }
}

impl Readiness {
    /// The HTTP status of the answer: 200, or 503 where traffic should go
    /// elsewhere.
    pub fn status(&self) -> (r: u16)
        ensures
            r == if self.ready {
                200u16
            } else {
                503u16
            },
    {
        if self.ready {
            200
        } else {
            503
        }
    }
}

} // verus!
