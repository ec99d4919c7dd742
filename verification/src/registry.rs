//! The sensor registry: an immutable snapshot of every sensor, rebuilt whole
//! whenever the configuration changes.

use crate::ieee::{Double, Single};
use std::collections::HashMap;
use vstd::prelude::*;

verus! {

broadcast use vstd::std_specs::hash::group_hash_axioms;

/// The channel on which the control plane announces configuration changes.
pub const INVALIDATION_CHANNEL: &'static str = "hazshield:registry:invalidate";

/// Everything the hot path needs to know about one sensor.
#[derive(Clone, Copy, Debug, PartialEq, Eq, Structural)]
pub struct SensorMeta {
    pub zone_id: u128,
    pub warn_threshold: Double,
    pub crit_threshold: Double,
    /// The declared sample rate, from which the storage budget derives.
    pub sample_hz: Single,
    pub active: bool,
}

/// One row of the sensor table.
#[derive(Debug)]
pub struct SensorRow {
    pub sensor_id: u128,
    pub zone_id: u128,
    pub warn_threshold: Double,
    pub crit_threshold: Double,
    pub sample_hz: Single,
    pub status: String,
}

impl SensorRow {
    /// What the registry keeps of a row. Only the status "active" makes a sensor
    /// active.
    pub open spec fn meta(self) -> SensorMeta {
        SensorMeta {
            zone_id: self.zone_id,
            warn_threshold: self.warn_threshold,
            crit_threshold: self.crit_threshold,
            sample_hz: self.sample_hz,
            active: self.status@ == "active"@,
        }
    }
}

/// The sensors of a table, a later row replacing an earlier one of the same
/// sensor.
pub open spec fn sensors_of(rows: Seq<SensorRow>) -> Map<u128, SensorMeta>
    decreases rows.len(),
{
    if rows.len() == 0 {
        Map::empty()
    } else {
        sensors_of(rows.drop_last()).insert(rows.last().sensor_id, rows.last().meta())
    }
}

#[derive(Debug)]
pub struct Registry {
    pub sensors: HashMap<u128, SensorMeta>,
    /// Counts the snapshots, so that "which config is live" is always
    /// answerable.
    pub generation: u64,
}

impl Default for Registry {
    fn default() -> (r: Self)
        ensures
            (r.sensors@ == Map::<u128, SensorMeta>::empty()),
            r.generation == 0,
    {
        Registry { sensors: HashMap::new(), generation: 0 }
    }
}

impl Registry {
    /// The snapshot of a sensor table.
    pub fn load(rows: Vec<SensorRow>, generation: u64) -> (r: Self)
        ensures
            r.sensors@ == sensors_of(rows@),
            r.generation == generation,
    {
        let mut sensors: HashMap<u128, SensorMeta> = HashMap::new();
        let active: String = "active".to_owned();
        let mut next: usize = 0;
        while next < rows.len()
            invariant
                next <= rows.len(),
                active@ == "active"@,
                sensors@ == sensors_of(rows@.take(next as int)),
            decreases rows.len() - next,
        {
            let row: &SensorRow = &rows[next];
            let meta: SensorMeta = SensorMeta {
                zone_id: row.zone_id,
                warn_threshold: row.warn_threshold,
                crit_threshold: row.crit_threshold,
                sample_hz: row.sample_hz,
                active: row.status.eq(&active),
            };
            sensors.insert(row.sensor_id, meta);
            assert(rows@.take(next + 1).drop_last() =~= rows@.take(next as int));
            next = next + 1;
        }
        assert(rows@.take(next as int) =~= rows@);
        Registry { sensors, generation }
    }

    /// What a reload makes of the live snapshot: a fresh one of the next
    /// generation, or nothing where the table could not be read, so that the
    /// live one stays.
    pub fn reload(&self, rows: Option<Vec<SensorRow>>) -> (r: Option<Registry>)
        requires
            self.generation < u64::MAX,
        ensures
            r is Some == rows is Some,
            r matches Some(fresh) ==> {
                &&& fresh.sensors@ == sensors_of(rows->0@)
                &&& fresh.generation == self.generation + 1
            },
    {
        match rows {
            Some(rows) => Some(Registry::load(rows, self.generation + 1)),
            None => None,
        }
    }

    /// The sensor with the given identifier, if it is registered.
    pub fn find(&self, sensor_id: u128) -> (r: Option<SensorMeta>)
        ensures
            r == if self.sensors@.contains_key(sensor_id) {
                Some(self.sensors@[sensor_id])
            } else {
                None
            },
    {
        match self.sensors.get(&sensor_id) {
            Some(meta) => Some(*meta),
            None => None,
        }
    }
}

/// A snapshot knows exactly the sensors of its table.
pub proof fn law_snapshot_knows_the_table(rows: Seq<SensorRow>, sensor_id: u128)
    ensures
        sensors_of(rows).contains_key(sensor_id) <==> exists|i: int|
            0 <= i < rows.len() && (#[trigger] rows[i]).sensor_id == sensor_id,
    decreases rows.len(),
{
    if rows.len() > 0 {
        let rest = rows.drop_last();
        let last = rows.len() - 1;
        law_snapshot_knows_the_table(rest, sensor_id);
        if sensors_of(rest).contains_key(sensor_id) {
            let i = choose|i: int|
                0 <= i < rest.len() && (#[trigger] rest[i]).sensor_id == sensor_id;
            assert(rows[i].sensor_id == sensor_id);
        }
        if rows[last].sensor_id != sensor_id && !sensors_of(rest).contains_key(sensor_id) {
            assert forall|i: int| 0 <= i < rows.len() implies (#[trigger] rows[i]).sensor_id
                != sensor_id by {
                if i < last {
                    assert(rest[i] == rows[i]);
                }
            }
        }
    }
}

/// A sensor is what the last of its rows says.
pub proof fn law_last_row_wins(rows: Seq<SensorRow>, i: int)
    requires
        0 <= i < rows.len(),
        forall|j: int| i < j < rows.len() ==> (#[trigger] rows[j]).sensor_id != rows[i].sensor_id,
    ensures
        sensors_of(rows)[rows[i].sensor_id] == rows[i].meta(),
    decreases rows.len(),
{
    let rest = rows.drop_last();
    let last = rows.len() - 1;
    if i < last {
        assert(rows[last].sensor_id != rows[i].sensor_id);
        assert forall|j: int| i < j < rest.len() implies (#[trigger] rest[j]).sensor_id
            != rest[i].sensor_id by {
            assert(rows[j].sensor_id != rows[i].sensor_id);
        }
        law_last_row_wins(rest, i);
    }
}

/// A loaded sensor is what its last row says, field by field, and active exactly
/// where that row's status is the word "active".
pub proof fn law_a_sensor_is_its_last_row(rows: Seq<SensorRow>, i: int)
    requires
        0 <= i < rows.len(),
        forall|j: int| i < j < rows.len() ==> (#[trigger] rows[j]).sensor_id != rows[i].sensor_id,
    ensures
        ({
            let meta = sensors_of(rows)[rows[i].sensor_id];
            &&& sensors_of(rows).contains_key(rows[i].sensor_id)
            &&& meta.zone_id == rows[i].zone_id
            &&& meta.warn_threshold == rows[i].warn_threshold
            &&& meta.crit_threshold == rows[i].crit_threshold
            &&& meta.sample_hz == rows[i].sample_hz
            &&& meta.active <==> rows[i].status@ == "active"@
        }),
{
    law_last_row_wins(rows, i);
    law_snapshot_knows_the_table(rows, rows[i].sensor_id);
}

/// One row more concerns its own sensor only.
pub proof fn law_a_row_leaves_other_sensors_alone(
    rows: Seq<SensorRow>,
    row: SensorRow,
    other: u128,
)
    requires
        other != row.sensor_id,
    ensures
        sensors_of(rows.push(row)).contains_key(other) == sensors_of(rows).contains_key(other),
        sensors_of(rows).contains_key(other) ==> sensors_of(rows.push(row))[other] == sensors_of(
            rows,
        )[other],
{
    assert(rows.push(row).drop_last() =~= rows);
}

} // verus!
