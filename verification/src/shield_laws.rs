//! The flood shield as a whole: what a batch stores of one sensor, where the run's
//! questions are answered by the rate limiter.

use crate::ieee::{units, ONE};
use crate::ingest::{IngestAction, IngestEvent, RunView, Stage};
use crate::ingest_laws::{follow, fresh, law_run_stays_sound, legal, stored};
use crate::limiter::{bucket_found, burst, charged, refill_rate};
use crate::limiter_laws::{
    allowed, billion, bucket_after, found_at, law_any_interval_is_bounded, parts, rising, slack,
};
use crate::warm::StoredReading;
use vstd::prelude::*;

verus! {

/// The limiter's buckets after the events of a run, given the instants at which
/// they came.
pub open spec fn buckets_after(
    buckets: Map<u128, (u64, u64)>,
    start: RunView,
    events: Seq<IngestEvent>,
    clock: Seq<u64>,
) -> Map<u128, (u64, u64)>
    decreases events.len(),
{
    if events.len() == 0 {
        buckets
    } else {
        let before = buckets_after(buckets, start, events.drop_last(), clock);
        if events.last() is Budget {
            follow(start, events.drop_last()).limiter_after(before, clock[events.len() - 1])
        } else {
            before
        }
    }
}

/// Whether the answers of a run are those of the limiter.
pub open spec fn answered(
    buckets: Map<u128, (u64, u64)>,
    start: RunView,
    events: Seq<IngestEvent>,
    clock: Seq<u64>,
) -> bool
    decreases events.len(),
{
    events.len() > 0 ==> {
        let before = buckets_after(buckets, start, events.drop_last(), clock);
        &&& answered(buckets, start, events.drop_last(), clock)
        &&& events.last() matches IngestEvent::Budget { within } ==> within == (follow(
            start,
            events.drop_last(),
        ).budget_found(before, clock[events.len() - 1]) >= ONE)
    }
}

/// The instants at which the limiter was asked about one sensor.
pub open spec fn asked_at(
    start: RunView,
    events: Seq<IngestEvent>,
    clock: Seq<u64>,
    sensor_id: u128,
) -> Seq<u64>
    decreases events.len(),
{
    if events.len() == 0 {
        seq![]
    } else {
        let before = asked_at(start, events.drop_last(), clock, sensor_id);
        if events.last() is Budget && follow(start, events.drop_last()).current().sensor_id
            == sensor_id {
            before.push(clock[events.len() - 1])
        } else {
            before
        }
    }
}

/// How many readings of one sensor the limiter let through.
pub open spec fn granted(start: RunView, events: Seq<IngestEvent>, sensor_id: u128) -> nat
    decreases events.len(),
{
    if events.len() == 0 {
        0
    } else {
        granted(start, events.drop_last(), sensor_id) + if events.last() == (IngestEvent::Budget {
            within: true,
        }) && follow(start, events.drop_last()).current().sensor_id == sensor_id {
            1nat
        } else {
            0nat
        }
    }
}

/// How many of the readings are of one sensor.
pub open spec fn of_sensor(readings: Seq<StoredReading>, sensor_id: u128) -> nat {
    readings.filter(|reading: StoredReading| reading.sensor_id == sensor_id).len()
}

/// A reading of the sensor that was let through and is not stored yet.
spec fn let_through(state: RunView, sensor_id: u128) -> nat {
    if (state.stage == Stage::Hot || state.stage == Stage::Ticket) && state.within_budget
        && state.current().sensor_id == sensor_id {
        1
    } else {
        0
    }
}

proof fn lemma_of_sensor(readings: Seq<StoredReading>, reading: StoredReading, sensor_id: u128)
    ensures
        of_sensor(readings.push(reading), sensor_id) == of_sensor(readings, sensor_id)
            + if reading.sensor_id == sensor_id {
            1nat
        } else {
            0nat
        },
{
    reveal(Seq::filter);
    assert(readings.push(reading).drop_last() =~= readings);
}

proof fn lemma_stored_is_granted(start: RunView, events: Seq<IngestEvent>, sensor_id: u128)
    requires
        fresh(start),
        legal(start, events),
    ensures
        of_sensor(stored(start, events), sensor_id) + let_through(
            follow(start, events),
            sensor_id,
        ) <= granted(start, events, sensor_id),
    decreases events.len(),
{
    if events.len() == 0 {
        reveal(Seq::filter);
    } else {
        let earlier = events.drop_last();
        let state = follow(start, earlier);
        lemma_stored_is_granted(start, earlier, sensor_id);
        law_run_stays_sound(start, earlier);
        match state.after(events.last()).action {
            IngestAction::Store { reading } => {
                lemma_of_sensor(stored(start, earlier), reading, sensor_id);
            },
            _ => {},
        }
    }
}

/// What is stored of a sensor was let through by the limiter.
pub proof fn law_only_what_is_granted_is_stored(
    start: RunView,
    events: Seq<IngestEvent>,
    sensor_id: u128,
)
    requires
        fresh(start),
        legal(start, events),
    ensures
        of_sensor(stored(start, events), sensor_id) <= granted(start, events, sensor_id),
{
    lemma_stored_is_granted(start, events, sensor_id);
}

/// What the limiter lets through of a sensor is what its one bucket allows at the
/// instants of the questions about it; the other sensors make no difference.
pub proof fn law_what_is_granted_is_allowed(
    buckets: Map<u128, (u64, u64)>,
    start: RunView,
    events: Seq<IngestEvent>,
    clock: Seq<u64>,
    sensor_id: u128,
)
    requires
        fresh(start),
        legal(start, events),
        answered(buckets, start, events, clock),
    ensures
        ({
            let times = asked_at(start, events, clock, sensor_id);
            let declared_hz = start.sensors[sensor_id].sample_hz;
            let after = buckets_after(buckets, start, events, clock);
            if times.len() == 0 {
                &&& granted(start, events, sensor_id) == 0
                &&& after.contains_key(sensor_id) == buckets.contains_key(sensor_id)
                &&& after[sensor_id] == buckets[sensor_id]
            } else {
                let bucket = bucket_found(buckets, sensor_id, declared_hz, times[0]);
                &&& granted(start, events, sensor_id) == allowed(bucket, declared_hz, times)
                &&& after.contains_key(sensor_id)
                &&& after[sensor_id] == bucket_after(bucket, declared_hz, times)
            }
        }),
    decreases events.len(),
{
    if events.len() > 0 {
        let earlier = events.drop_last();
        let state = follow(start, earlier);
        law_what_is_granted_is_allowed(buckets, start, earlier, clock, sensor_id);
        law_run_stays_sound(start, earlier);
        if events.last() is Budget && state.current().sensor_id == sensor_id {
            let before = asked_at(start, earlier, clock, sensor_id);
            let now = clock[events.len() - 1];
            let times = before.push(now);
            let declared_hz = start.sensors[sensor_id].sample_hz;
            let bucket = bucket_found(buckets, sensor_id, declared_hz, times[0]);
            assert(times.drop_last() =~= before);
            assert(asked_at(start, events, clock, sensor_id) == times);
            let was = buckets_after(buckets, start, earlier, clock);
            let found = bucket_found(was, sensor_id, declared_hz, now);
            if before.len() == 0 {
                assert(bucket_after(bucket, declared_hz, before) == bucket);
                assert(allowed(bucket, declared_hz, before) == 0);
            } else {
                assert(times[0] == before[0]);
            }
            assert(found == bucket_after(bucket, declared_hz, before));
            assert(state.budget_found(was, now) == found_at(bucket, declared_hz, times));
            assert(bucket_after(bucket, declared_hz, times) == (
                charged(found_at(bucket, declared_hz, times)),
                times.last(),
            ));
        }
    }
}

/// The flood shield: what a batch stores of one sensor is at most a full bucket and
/// what the time between the first and the last question about it is worth, but for
/// the rounding.
pub proof fn law_a_batch_stores_within_the_budget(
    buckets: Map<u128, (u64, u64)>,
    start: RunView,
    events: Seq<IngestEvent>,
    clock: Seq<u64>,
    sensor_id: u128,
)
    requires
        fresh(start),
        legal(start, events),
        answered(buckets, start, events, clock),
        burst(start.sensors[sensor_id].sample_hz) < 0x4340_0000_0000_0000,
        buckets.contains_key(sensor_id) ==> buckets[sensor_id].0 <= burst(
            start.sensors[sensor_id].sample_hz,
        ),
        rising(asked_at(start, events, clock, sensor_id)),
    ensures
        ({
            let times = asked_at(start, events, clock, sensor_id);
            let declared_hz = start.sensors[sensor_id].sample_hz;
            let count = of_sensor(stored(start, events), sensor_id);
            let span = times.last() - times[0];
            if times.len() == 0 {
                count == 0
            } else {
                &&& count <= allowed(
                    bucket_found(buckets, sensor_id, declared_hz, times[0]),
                    declared_hz,
                    times,
                )
                &&& parts() * (billion() * (count * units(ONE as int))) <= parts() * (billion()
                    * units(burst(declared_hz) as int)) + parts() * (span * units(
                    refill_rate(declared_hz) as int,
                )) + slack(declared_hz, span, times.len() - 1)
            }
        }),
{
    let times = asked_at(start, events, clock, sensor_id);
    let declared_hz = start.sensors[sensor_id].sample_hz;
    let count = of_sensor(stored(start, events), sensor_id) as int;
    law_only_what_is_granted_is_stored(start, events, sensor_id);
    law_what_is_granted_is_allowed(buckets, start, events, clock, sensor_id);
    if times.len() > 0 {
        let n = times.len() as int;
        let bucket = bucket_found(buckets, sensor_id, declared_hz, times[0]);
        law_any_interval_is_bounded(bucket, declared_hz, times, 0, n);
        assert(times.take(n) =~= times);
        assert(allowed(bucket, declared_hz, times.take(0)) == 0);
        let all = allowed(bucket, declared_hz, times) as int;
        let one = units(ONE as int) as int;
        let u = parts();
        let b = billion();
        assert(u * (b * (count * one)) <= u * (b * (all * one))) by (nonlinear_arith)
            requires
                0 <= count <= all,
                one >= 0,
                u > 0,
                b > 0,
        ;
    }
}

} // verus!
