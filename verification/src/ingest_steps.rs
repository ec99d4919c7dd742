//! What a run does with each reading and with each answer, one at a time.

use crate::ingest::{
    below_watermark, next_accepted, verdict, violation_of, violations_in, IngestAction,
    IngestEvent, IngestSummary, RunView, Stage, Verdict,
};
use crate::limiter::{charged, tokens_found};
use crate::metrics::{Counter, MetricUpdate};
use crate::registry::SensorMeta;
use crate::types::{Quality, Reading, Severity};
use vstd::prelude::*;

verus! {

/// A reading of a registered, active sensor with a finite value.
pub open spec fn acceptable(sensors: Map<u128, SensorMeta>, reading: Reading) -> bool {
    &&& sensors.contains_key(reading.sensor_id)
    &&& sensors[reading.sensor_id].active
    &&& reading.value.finite()
}

/// A reading is unknown, else inactive, else invalid, else accepted: the first that
/// applies.
pub proof fn law_a_verdict_names_the_first_fault(sensors: Map<u128, SensorMeta>, reading: Reading)
    ensures
        verdict(sensors, reading) == Verdict::Unknown <==> !sensors.contains_key(
            reading.sensor_id,
        ),
        verdict(sensors, reading) == Verdict::Inactive <==> sensors.contains_key(reading.sensor_id)
            && !sensors[reading.sensor_id].active,
        verdict(sensors, reading) == Verdict::Invalid <==> sensors.contains_key(reading.sensor_id)
            && sensors[reading.sensor_id].active && !reading.value.finite(),
        verdict(sensors, reading) == Verdict::Accepted <==> acceptable(sensors, reading),
{
}

/// A violation is that of its reading: it carries the reading's own sensor, value
/// and instant, the zone that the registry holds for the sensor, and the threshold
/// of its severity.
pub proof fn law_a_violation_carries_its_reading(sensors: Map<u128, SensorMeta>, reading: Reading)
    ensures
        violation_of(sensors, reading) matches Some(violation) ==> {
            let meta = sensors[reading.sensor_id];
            &&& violation.sensor_id == reading.sensor_id
            &&& violation.value == reading.value
            &&& violation.ts == reading.ts
            &&& violation.zone_id == meta.zone_id
            &&& violation.severity == Severity::Critical ==> violation.threshold
                == meta.crit_threshold
            &&& violation.severity == Severity::Warn ==> violation.threshold == meta.warn_threshold
        },
{
}

/// A reading gives a violation exactly where it is acceptable and at or beyond a
/// threshold, and a critical one exactly where that is the critical one. Where the
/// critical threshold is at or above the warning one danger is above, otherwise
/// below.
pub proof fn law_a_breach_is_a_violation(sensors: Map<u128, SensorMeta>, reading: Reading)
    requires
        !sensors[reading.sensor_id].warn_threshold.nan(),
        !sensors[reading.sensor_id].crit_threshold.nan(),
    ensures
        ({
            let v = reading.value.value();
            let warn = sensors[reading.sensor_id].warn_threshold.value();
            let crit = sensors[reading.sensor_id].crit_threshold.value();
            let violation = violation_of(sensors, reading);
            &&& violation is Some <==> acceptable(sensors, reading) && (if crit >= warn {
                v >= warn
            } else {
                v <= warn
            })
            &&& violation is Some ==> (violation->0.severity == Severity::Critical <==> (if crit
                >= warn {
                v >= crit
            } else {
                v <= crit
            }))
        }),
{
}

/// No line that is a NaN is crossed. With one, the other is taken for a low line.
pub proof fn law_a_missing_line_is_not_crossed(sensors: Map<u128, SensorMeta>, reading: Reading)
    requires
        acceptable(sensors, reading),
    ensures
        ({
            let v = reading.value.value();
            let warn = sensors[reading.sensor_id].warn_threshold;
            let crit = sensors[reading.sensor_id].crit_threshold;
            let violation = violation_of(sensors, reading);
            &&& warn.nan() && crit.nan() ==> violation is None
            &&& warn.nan() && !crit.nan() ==> {
                &&& violation is Some <==> v <= crit.value()
                &&& violation is Some ==> violation->0.severity == Severity::Critical
            }
            &&& crit.nan() && !warn.nan() ==> {
                &&& violation is Some <==> v <= warn.value()
                &&& violation is Some ==> violation->0.severity == Severity::Warn
            }
        }),
{
}

/// One reading more adds its violation at the end, if it gives one, and leaves the
/// others as they are.
pub proof fn law_violations_grow_with_the_readings(
    sensors: Map<u128, SensorMeta>,
    readings: Seq<Reading>,
    reading: Reading,
)
    ensures
        violations_in(sensors, seq![]).len() == 0,
        violations_in(sensors, readings.push(reading)) == match violation_of(sensors, reading) {
            Some(violation) => violations_in(sensors, readings).push(violation),
            None => violations_in(sensors, readings),
        },
{
    let longer = readings.push(reading);
    assert(longer.drop_last() =~= readings);
    let f = |r: Reading| violation_of(sensors, r);
    match f(longer.last()) {
        Some(violation) => {
            let rest = longer.drop_last().filter_map(f);
            assert(rest + seq![violation] =~= rest.push(violation));
        },
        None => {},
    }
}

/// A summary counts each reading under what became of it: one reading more makes
/// exactly one of the four outcomes one more, and the violations of its severity.
pub proof fn law_a_summary_counts_one_reading_more(
    before: IngestSummary,
    after: IngestSummary,
    sensors: Map<u128, SensorMeta>,
    readings: Seq<Reading>,
    reading: Reading,
    over_budget: nat,
    degraded: bool,
)
    requires
        before.reports(sensors, readings, over_budget, degraded),
        after.reports(sensors, readings.push(reading), over_budget, degraded),
    ensures
        after.rejected_unknown == before.rejected_unknown + if !sensors.contains_key(
            reading.sensor_id,
        ) {
            1int
        } else {
            0int
        },
        after.rejected_inactive == before.rejected_inactive + if sensors.contains_key(
            reading.sensor_id,
        ) && !sensors[reading.sensor_id].active {
            1int
        } else {
            0int
        },
        after.rejected_invalid == before.rejected_invalid + if sensors.contains_key(
            reading.sensor_id,
        ) && sensors[reading.sensor_id].active && !reading.value.finite() {
            1int
        } else {
            0int
        },
        after.accepted == before.accepted + if acceptable(sensors, reading) {
            1int
        } else {
            0int
        },
        after.violations_warn == before.violations_warn + if (violation_of(
            sensors,
            reading,
        ) matches Some(violation) && violation.severity == Severity::Warn) {
            1int
        } else {
            0int
        },
        after.violations_critical == before.violations_critical + if (violation_of(
            sensors,
            reading,
        ) matches Some(violation) && violation.severity == Severity::Critical) {
            1int
        } else {
            0int
        },
        after.rate_limited == over_budget,
        after.degraded == degraded,
{
    reveal(Seq::filter);
    assert(readings.push(reading).drop_last() =~= readings);
}

/// An empty batch has nothing to count.
pub proof fn law_an_empty_batch_counts_nothing(
    summary: IngestSummary,
    sensors: Map<u128, SensorMeta>,
    over_budget: nat,
    degraded: bool,
)
    requires
        summary.reports(sensors, seq![], over_budget, degraded),
    ensures
        summary.accepted == 0,
        summary.rejected_unknown == 0,
        summary.rejected_inactive == 0,
        summary.rejected_invalid == 0,
        summary.violations_warn == 0,
        summary.violations_critical == 0,
        summary.rate_limited == over_budget,
        summary.degraded == degraded,
{
    reveal(Seq::filter);
}

/// Storage is sampled exactly where under a fifth of the warm lane's capacity, in
/// whole rows, is free.
pub proof fn law_sampling_starts_below_a_fifth(warm_free: usize, warm_capacity: usize)
    ensures
        below_watermark(warm_free as int, warm_capacity as int) <==> 5 * (warm_free + 1)
            <= warm_capacity,
{
}

/// Whether a run went on from its reading number `from`: past readings that are not
/// acceptable, to the first that is, which it asks about with its sensor's own rate;
/// or to its end, where there is none.
pub open spec fn went_on(before: RunView, after: RunView, action: IngestAction, from: int) -> bool {
    &&& after.sensors == before.sensors
    &&& after.readings == before.readings
    &&& after.degraded == before.degraded
    &&& from <= after.at <= before.readings.len()
    &&& forall|i: int|
        from <= i < after.at ==> !acceptable(before.sensors, #[trigger] before.readings[i])
    &&& after.at < before.readings.len() ==> {
        let reading = before.readings[after.at];
        &&& acceptable(before.sensors, reading)
        &&& after.stage == Stage::Budget
        &&& action == (IngestAction::AskBudget {
            sensor_id: reading.sensor_id,
            declared_hz: before.sensors[reading.sensor_id].sample_hz,
        })
    }
    &&& after.at == before.readings.len() ==> {
        &&& after.stage == Stage::Done
        &&& action == IngestAction::Finish
    }
}

/// Whether a run keeps to the reading in hand, in the given stage.
pub open spec fn stays(before: RunView, after: RunView, stage: Stage) -> bool {
    &&& after.sensors == before.sensors
    &&& after.readings == before.readings
    &&& after.degraded == before.degraded
    &&& after.at == before.at
    &&& after.stage == stage
}

/// Whether the reading in hand is what is handed to the warm lane.
pub open spec fn stores(state: RunView, action: IngestAction, quality: Quality) -> bool {
    &&& action is Store
    &&& action->Store_reading.sensor_id == state.readings[state.at].sensor_id
    &&& action->Store_reading.ts == state.readings[state.at].ts
    &&& action->Store_reading.value == state.readings[state.at].value
    &&& action->Store_reading.quality == quality
}

/// The one update that counts one.
pub open spec fn counts_one(updates: Seq<MetricUpdate>, counter: Counter) -> bool {
    updates.len() == 1 && updates[0] == (MetricUpdate::Count { counter, by: 1 })
}

/// The next accepted reading is the first one that is acceptable.
pub proof fn law_the_next_accepted_reading_is_the_first(
    sensors: Map<u128, SensorMeta>,
    readings: Seq<Reading>,
    from: int,
)
    requires
        0 <= from <= readings.len(),
    ensures
        from <= next_accepted(sensors, readings, from) <= readings.len(),
        forall|i: int|
            from <= i < next_accepted(sensors, readings, from) ==> !acceptable(
                sensors,
                #[trigger] readings[i],
            ),
        next_accepted(sensors, readings, from) < readings.len() ==> acceptable(
            sensors,
            readings[next_accepted(sensors, readings, from)],
        ),
    decreases readings.len() - from,
{
    if from < readings.len() && !acceptable(sensors, readings[from]) {
        law_the_next_accepted_reading_is_the_first(sensors, readings, from + 1);
    }
}

/// A run begins with the first acceptable reading of its batch.
pub proof fn law_a_run_begins_at_the_front(state: RunView)
    requires
        state.stage == Stage::Fresh,
    ensures
        ({
            let step = state.after(IngestEvent::Begin);
            &&& went_on(state, step.state, step.action, 0)
            &&& step.state.over_budget == state.over_budget
            &&& step.updates.len() == 0
        }),
{
    law_the_next_accepted_reading_is_the_first(state.sensors, state.readings, 0);
}

/// Whatever the limiter answers, a reading with a violation raises it; the answer
/// decides on storage alone, and a refusal is counted.
pub proof fn law_the_answer_never_silences_a_violation(state: RunView, within: bool)
    requires
        state.stage == Stage::Budget,
        0 <= state.at < state.readings.len(),
    ensures
        ({
            let step = state.after(IngestEvent::Budget { within });
            let violation = violation_of(state.sensors, state.readings[state.at]);
            &&& step.updates.len() == 0
            &&& step.state.over_budget == state.over_budget + if within {
                0int
            } else {
                1int
            }
            &&& step.state.within_budget == within
            &&& violation is Some ==> {
                &&& step.action == (IngestAction::Raise { violation: violation->0 })
                &&& stays(state, step.state, Stage::Hot)
            }
            &&& violation is None && !within ==> went_on(
                state,
                step.state,
                step.action,
                state.at + 1,
            )
            &&& violation is None && within && state.degraded ==> {
                &&& step.action == IngestAction::DrawTicket
                &&& stays(state, step.state, Stage::Ticket)
            }
            &&& violation is None && within && !state.degraded ==> {
                &&& stores(state, step.action, Quality::Good)
                &&& stays(state, step.state, Stage::Warm)
            }
        }),
{
    law_the_next_accepted_reading_is_the_first(state.sensors, state.readings, state.at + 1);
}

/// Once its violation is raised a reading goes on to storage as any other does; a
/// violation that the hot lane did not take is counted as lost.
pub proof fn law_a_raised_reading_goes_on_to_storage(state: RunView, delivered: bool)
    requires
        state.stage == Stage::Hot,
        0 <= state.at < state.readings.len(),
    ensures
        ({
            let step = state.after(IngestEvent::Raised { delivered });
            &&& delivered ==> step.updates.len() == 0
            &&& !delivered ==> counts_one(step.updates, Counter::HotLost)
            &&& step.state.over_budget == state.over_budget
            &&& !state.within_budget ==> went_on(state, step.state, step.action, state.at + 1)
            &&& state.within_budget && state.degraded ==> {
                &&& step.action == IngestAction::DrawTicket
                &&& stays(state, step.state, Stage::Ticket)
            }
            &&& state.within_budget && !state.degraded ==> {
                &&& stores(state, step.action, Quality::Good)
                &&& stays(state, step.state, Stage::Warm)
            }
        }),
{
    law_the_next_accepted_reading_is_the_first(state.sensors, state.readings, state.at + 1);
}

/// Every tenth ticket keeps its reading, marked as sampled; every other drops it.
/// Either is counted.
pub proof fn law_every_tenth_ticket_keeps_its_reading(state: RunView, number: u64)
    requires
        state.stage == Stage::Ticket,
        0 <= state.at < state.readings.len(),
    ensures
        ({
            let step = state.after(IngestEvent::Ticket { number });
            &&& step.state.over_budget == state.over_budget
            &&& number % 10 == 0 ==> {
                &&& stores(state, step.action, Quality::DegradedSampled)
                &&& stays(state, step.state, Stage::Warm)
                &&& counts_one(step.updates, Counter::WarmDegradedKept)
            }
            &&& number % 10 != 0 ==> {
                &&& went_on(state, step.state, step.action, state.at + 1)
                &&& counts_one(step.updates, Counter::WarmDegradedDropped)
            }
        }),
{
    law_the_next_accepted_reading_is_the_first(state.sensors, state.readings, state.at + 1);
}

/// After a reading was handed to the warm lane the run goes on; one that was not
/// taken is counted as dropped.
pub proof fn law_a_stored_reading_is_done(state: RunView, taken: bool)
    requires
        state.stage == Stage::Warm,
        0 <= state.at < state.readings.len(),
    ensures
        ({
            let step = state.after(IngestEvent::Stored { taken });
            &&& went_on(state, step.state, step.action, state.at + 1)
            &&& step.state.over_budget == state.over_budget
            &&& taken ==> step.updates.len() == 0
            &&& !taken ==> counts_one(step.updates, Counter::WarmDegradedDropped)
        }),
{
    law_the_next_accepted_reading_is_the_first(state.sensors, state.readings, state.at + 1);
}

/// Each answer fits one question only.
pub proof fn law_answers_fit_their_question(state: RunView, event: IngestEvent)
    ensures
        state.expects(event) <==> match event {
            IngestEvent::Begin => state.stage == Stage::Fresh,
            IngestEvent::Budget { .. } => state.stage == Stage::Budget,
            IngestEvent::Raised { .. } => state.stage == Stage::Hot,
            IngestEvent::Ticket { .. } => state.stage == Stage::Ticket,
            IngestEvent::Stored { .. } => state.stage == Stage::Warm,
        },
{
}

/// The limiter is asked about the sensor in hand, at the rate that the registry
/// holds for it, and only that sensor's bucket changes.
pub proof fn law_the_limiter_is_asked_about_the_reading_in_hand(
    state: RunView,
    buckets: Map<u128, (u64, u64)>,
    now: u64,
    other: u128,
)
    requires
        0 <= state.at < state.readings.len(),
        other != state.readings[state.at].sensor_id,
    ensures
        ({
            let id = state.readings[state.at].sensor_id;
            let found = tokens_found(buckets, id, state.sensors[id].sample_hz, now);
            let after = state.limiter_after(buckets, now);
            &&& state.budget_found(buckets, now) == found
            &&& after.contains_key(id)
            &&& after[id].0 == charged(found)
            &&& after[id].1 == now
            &&& after.contains_key(other) == buckets.contains_key(other)
            &&& buckets.contains_key(other) ==> after[other] == buckets[other]
        }),
{
}

} // verus!
