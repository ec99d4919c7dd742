//! Batches on their way through the gateway.

use hazshield_ingest::error::IngestError;
use hazshield_ingest::ieee::{Double, Single};
use hazshield_ingest::ingest::{
    ingest_batch, IngestAction, IngestEvent, IngestRun, IngestSummary,
};
use hazshield_ingest::limiter::RateLimiter;
use hazshield_ingest::metrics::{Counter, MetricUpdate};
use hazshield_ingest::registry::{Registry, SensorRow};
use hazshield_ingest::threshold::evaluate;
use hazshield_ingest::types::{Quality, Reading, ReadingBatch, Severity, Timestamp, Violation};
use hazshield_ingest::warm::StoredReading;

const GAS: u128 = 1;
const OXYGEN: u128 = 2;
const RETIRED: u128 = 3;

fn row(sensor_id: u128, warn: f64, crit: f64, status: &str) -> SensorRow {
    SensorRow {
        sensor_id,
        zone_id: 100 + sensor_id,
        warn_threshold: Double { bits: warn.to_bits() },
        crit_threshold: Double { bits: crit.to_bits() },
        sample_hz: Single { bits: 1.0f32.to_bits() },
        status: status.to_string(),
    }
}

fn registry() -> Registry {
    Registry::load(
        vec![
            row(GAS, 10.0, 20.0, "active"),
            row(OXYGEN, 19.5, 17.5, "active"),
            row(RETIRED, 10.0, 20.0, "retired"),
        ],
        1,
    )
}

fn ts() -> Timestamp {
    Timestamp::new(1_700_000_000, 0).unwrap()
}

fn batch(readings: &[(u128, f32)]) -> ReadingBatch {
    ReadingBatch {
        readings: readings
            .iter()
            .map(|&(sensor_id, value)| Reading {
                sensor_id,
                ts: ts(),
                value: Single { bits: value.to_bits() },
            })
            .collect(),
    }
}

/// What a run did.
#[derive(Default)]
struct Done {
    asked: Vec<(u128, u32)>,
    raised: Vec<Violation>,
    stored: Vec<StoredReading>,
    updates: Vec<MetricUpdate>,
}

/// Drives a run to its end. `within` answers for budgets, `first_ticket` is the
/// first number of the sampling sequence.
fn drive(
    run: &mut IngestRun,
    within: bool,
    delivered: bool,
    taken: bool,
    first_ticket: u64,
) -> (Done, IngestSummary) {
    let mut done = Done::default();
    let mut ticket = first_ticket;
    let mut event = IngestEvent::Begin;
    loop {
        let step = run.advance(event);
        done.updates.extend(step.updates);
        event = match step.action {
            IngestAction::AskBudget { sensor_id, declared_hz } => {
                done.asked.push((sensor_id, declared_hz.bits));
                IngestEvent::Budget { within }
            }
            IngestAction::Raise { violation } => {
                done.raised.push(violation);
                IngestEvent::Raised { delivered }
            }
            IngestAction::DrawTicket => {
                ticket += 1;
                IngestEvent::Ticket { number: ticket - 1 }
            }
            IngestAction::Store { reading } => {
                done.stored.push(reading);
                IngestEvent::Stored { taken }
            }
            IngestAction::Finish => break,
        };
    }
    (done, run.summary())
}

fn one(counter: Counter) -> MetricUpdate {
    MetricUpdate::Count { counter, by: 1 }
}

#[test]
fn a_batch_over_the_limit_is_refused_whole() {
    let registry = registry();
    let three = batch(&[(GAS, 1.0), (GAS, 1.0), (GAS, 1.0)]);
    assert!(matches!(
        ingest_batch(&registry, &three, 2, 100, 100),
        Err(IngestError::BatchTooLarge { got: 3, max: 2 })
    ));
    assert!(ingest_batch(&registry, &three, 3, 100, 100).is_ok());
}

#[test]
fn every_reading_is_counted_once() {
    let registry = registry();
    let readings = batch(&[
        (GAS, 5.0),
        (99, 5.0),
        (RETIRED, 5.0),
        (GAS, f32::INFINITY),
        (GAS, f32::NAN),
        (GAS, 12.0),
        (OXYGEN, 17.0),
        (RETIRED, f32::NAN),
    ]);
    let mut run = ingest_batch(&registry, &readings, 2_000, 100, 100).unwrap_or_else(|_| panic!());
    let (done, summary) = drive(&mut run, true, true, true, 0);
    assert_eq!(
        summary,
        IngestSummary {
            accepted: 3,
            rejected_unknown: 1,
            rejected_inactive: 2,
            violations_warn: 1,
            violations_critical: 1,
            rate_limited: 0,
            rejected_invalid: 2,
            degraded: false,
        }
    );
    assert_eq!(done.raised.len(), 2);
    assert_eq!(done.stored.len(), 3);
    assert_eq!(done.asked[0], (GAS, 1.0f32.to_bits()));
    assert!(done.updates.is_empty());
    assert_eq!(
        summary.updates(),
        vec![
            MetricUpdate::Count { counter: Counter::ReadingsAccepted, by: 3 },
            MetricUpdate::Count { counter: Counter::ReadingsUnknownSensor, by: 1 },
            MetricUpdate::Count { counter: Counter::ReadingsInactiveSensor, by: 2 },
            MetricUpdate::Count { counter: Counter::ViolationsWarn, by: 1 },
            MetricUpdate::Count { counter: Counter::ViolationsCritical, by: 1 },
        ]
    );
}

#[test]
fn a_violation_carries_the_line_it_crossed() {
    let registry = registry();
    let readings = batch(&[(GAS, 12.0), (GAS, 20.0), (OXYGEN, 19.0)]);
    let mut run = ingest_batch(&registry, &readings, 10, 100, 100).unwrap_or_else(|_| panic!());
    let (done, _) = drive(&mut run, true, true, true, 0);
    let lines: Vec<(u128, u128, Severity, f64)> = done
        .raised
        .iter()
        .map(|v| (v.sensor_id, v.zone_id, v.severity, f64::from_bits(v.threshold.bits)))
        .collect();
    assert_eq!(
        lines,
        vec![
            (GAS, 101, Severity::Warn, 10.0),
            (GAS, 101, Severity::Critical, 20.0),
            (OXYGEN, 102, Severity::Warn, 19.5),
        ]
    );
    assert_eq!(done.raised[0].value.bits, 12.0f32.to_bits());
    assert_eq!(done.raised[0].ts, ts());
}

#[test]
fn readings_over_budget_are_evaluated_but_not_stored() {
    let registry = registry();
    let readings = batch(&[(GAS, 5.0), (GAS, 25.0)]);
    let mut run = ingest_batch(&registry, &readings, 10, 100, 100).unwrap_or_else(|_| panic!());
    let (done, summary) = drive(&mut run, false, true, true, 0);
    assert_eq!(summary.rate_limited, 2);
    assert_eq!(summary.accepted, 2);
    assert_eq!(summary.violations_critical, 1);
    assert_eq!(done.raised.len(), 1);
    assert!(done.stored.is_empty());
}

#[test]
fn below_the_watermark_one_reading_in_ten_is_stored() {
    let registry = registry();
    let readings = batch(&[(GAS, 25.0); 30]);
    let mut run = ingest_batch(&registry, &readings, 100, 19, 100).unwrap_or_else(|_| panic!());
    let (done, summary) = drive(&mut run, true, true, true, 7);
    assert!(summary.degraded);
    assert_eq!(done.raised.len(), 30);
    assert_eq!(done.stored.len(), 3);
    assert!(done.stored.iter().all(|r| r.quality == Quality::DegradedSampled));
    let kept = done.updates.iter().filter(|u| **u == one(Counter::WarmDegradedKept)).count();
    let dropped = done.updates.iter().filter(|u| **u == one(Counter::WarmDegradedDropped)).count();
    assert_eq!((kept, dropped), (3, 27));
}

#[test]
fn the_watermark_is_a_fifth_of_the_capacity() {
    let registry = registry();
    let readings = batch(&[(GAS, 5.0)]);
    for (free, capacity, degraded) in
        [(20usize, 100usize, false), (19, 100, true), (0, 4, false), (0, 5, true), (0, 0, false)]
    {
        let mut run =
            ingest_batch(&registry, &readings, 10, free, capacity).unwrap_or_else(|_| panic!());
        let (_, summary) = drive(&mut run, true, true, true, 0);
        assert_eq!(summary.degraded, degraded, "{free} of {capacity}");
    }
}

#[test]
fn a_full_lane_drops_the_reading_and_counts_it() {
    let registry = registry();
    let readings = batch(&[(GAS, 5.0)]);
    let mut run = ingest_batch(&registry, &readings, 10, 100, 100).unwrap_or_else(|_| panic!());
    let (done, summary) = drive(&mut run, true, true, false, 0);
    assert_eq!(done.updates, vec![one(Counter::WarmDegradedDropped)]);
    assert_eq!(done.stored[0].quality, Quality::Good);
    assert_eq!(summary.accepted, 1);
}

#[test]
fn a_closed_hot_lane_counts_every_violation_as_lost() {
    let registry = registry();
    let readings = batch(&[(GAS, 25.0), (GAS, 5.0), (GAS, 12.0)]);
    let mut run = ingest_batch(&registry, &readings, 10, 100, 100).unwrap_or_else(|_| panic!());
    let (done, _) = drive(&mut run, true, false, true, 0);
    assert_eq!(done.updates, vec![one(Counter::HotLost), one(Counter::HotLost)]);
    assert_eq!(done.raised.len(), 2);
    assert_eq!(done.stored.len(), 3);
}

#[test]
fn an_empty_batch_is_done_at_once() {
    let registry = registry();
    let readings = batch(&[]);
    let mut run = ingest_batch(&registry, &readings, 0, 100, 100).unwrap_or_else(|_| panic!());
    let (done, summary) = drive(&mut run, true, true, true, 0);
    assert_eq!(summary, IngestSummary::default());
    assert!(done.asked.is_empty());
}

/// Evaluation in the machine's own arithmetic.
fn expected(value: f32, warn: f64, crit: f64) -> Option<Severity> {
    let v = value as f64;
    if crit >= warn {
        if v >= crit {
            Some(Severity::Critical)
        } else if v >= warn {
            Some(Severity::Warn)
        } else {
            None
        }
    } else if v <= crit {
        Some(Severity::Critical)
    } else if v <= warn {
        Some(Severity::Warn)
    } else {
        None
    }
}

#[test]
fn evaluation_is_that_of_double_precision_comparisons() {
    let lines = [
        10.0f64,
        10.1,
        20.0,
        19.5,
        17.55,
        -3.0,
        0.0,
        -0.0,
        f64::INFINITY,
        f64::NEG_INFINITY,
        f64::NAN,
    ];
    let values =
        [10.0f32, 10.1, 9.99, 20.0, 19.5, 17.55, 17.56, -3.0, 0.0, -0.0, f32::MAX, -f32::MAX];
    for warn in lines {
        for crit in lines {
            for value in values {
                let got = evaluate(
                    Single { bits: value.to_bits() },
                    Double { bits: warn.to_bits() },
                    Double { bits: crit.to_bits() },
                );
                assert_eq!(got, expected(value, warn, crit), "{value} {warn} {crit}");
            }
        }
    }
}

#[test]
fn a_sensor_with_equal_lines_alarms_high() {
    let line = Double { bits: 10.0f64.to_bits() };
    let above = Single { bits: 11.0f32.to_bits() };
    let below = Single { bits: 9.0f32.to_bits() };
    assert_eq!(evaluate(above, line, line), Some(Severity::Critical));
    assert_eq!(evaluate(below, line, line), None);
}

#[test]
fn a_run_takes_at_most_four_events_for_each_reading() {
    let registry = registry();
    let readings = batch(&[(GAS, 25.0); 20]);
    let mut run = ingest_batch(&registry, &readings, 100, 0, 100).unwrap_or_else(|_| panic!());
    let mut events = 1;
    let mut step = run.advance(IngestEvent::Begin);
    loop {
        let event = match step.action {
            IngestAction::AskBudget { .. } => IngestEvent::Budget { within: true },
            IngestAction::Raise { .. } => IngestEvent::Raised { delivered: true },
            IngestAction::DrawTicket => IngestEvent::Ticket { number: 0 },
            IngestAction::Store { .. } => IngestEvent::Stored { taken: true },
            IngestAction::Finish => break,
        };
        step = run.advance(event);
        events += 1;
    }
    assert_eq!(events, 4 * 20 + 1);
}

#[test]
fn danger_only_grows_towards_the_critical_line() {
    let (warn, crit) = (Double { bits: 19.5f64.to_bits() }, Double { bits: 17.55f64.to_bits() });
    let found: Vec<Option<Severity>> = [21.0f32, 19.5, 18.0, 17.55, 0.0, -5.0]
        .iter()
        .map(|v| evaluate(Single { bits: v.to_bits() }, warn, crit))
        .collect();
    let (w, c) = (Some(Severity::Warn), Some(Severity::Critical));
    assert_eq!(found, vec![None, w, w, c, c, c]);
}

/// Drives a run to its end with a limiter; the instants go up by `gap`.
fn drive_with(run: &mut IngestRun, limiter: &mut RateLimiter, gap: u64) -> (Done, IngestSummary) {
    let mut done = Done::default();
    let mut now: u64 = 0;
    let mut tickets: u64 = 0;
    let mut event = IngestEvent::Begin;
    loop {
        let step = run.advance(event);
        done.updates.extend(step.updates);
        event = match step.action {
            IngestAction::AskBudget { sensor_id, declared_hz } => {
                done.asked.push((sensor_id, declared_hz.bits));
                now += gap;
                run.ask(limiter, now)
            }
            IngestAction::Raise { violation } => {
                done.raised.push(violation);
                IngestEvent::Raised { delivered: true }
            }
            IngestAction::DrawTicket => {
                tickets += 1;
                IngestEvent::Ticket { number: tickets }
            }
            IngestAction::Store { reading } => {
                let taken = done.stored.len() % 4 != 3;
                done.stored.push(reading);
                IngestEvent::Stored { taken }
            }
            IngestAction::Finish => break,
        };
    }
    (done, run.summary())
}

#[test]
fn a_flooding_sensor_stores_its_burst_and_still_alarms() {
    let registry = registry();
    let mut readings = vec![(GAS, 25.0f32); 100];
    readings.push((OXYGEN, 20.9));
    let readings = batch(&readings);
    let mut limiter = RateLimiter::new();
    let mut run = ingest_batch(&registry, &readings, 200, 100, 100).unwrap_or_else(|_| panic!());
    let (done, summary) = drive_with(&mut run, &mut limiter, 0);
    assert_eq!(summary.rate_limited, 95);
    assert_eq!(done.raised.len(), 100);
    assert_eq!(done.stored.iter().filter(|r| r.sensor_id == GAS).count(), 5);
    assert_eq!(done.stored.iter().filter(|r| r.sensor_id == OXYGEN).count(), 1);
    // The bucket is still empty for the next batch.
    assert!(!limiter.allow(GAS, Single { bits: 1.0f32.to_bits() }, 0));
}

#[test]
fn the_limiter_is_asked_about_the_accepted_readings_in_order() {
    let registry = registry();
    let readings = batch(&[(99, 1.0), (OXYGEN, 20.0), (RETIRED, 1.0), (GAS, 1.0), (GAS, f32::NAN)]);
    let mut run = ingest_batch(&registry, &readings, 10, 100, 100).unwrap_or_else(|_| panic!());
    let (done, _) = drive_with(&mut run, &mut RateLimiter::new(), 1);
    let hz = 1.0f32.to_bits();
    assert_eq!(done.asked, vec![(OXYGEN, hz), (GAS, hz)]);
}

#[test]
fn every_accepted_reading_is_refused_taken_or_dropped() {
    let registry = registry();
    let readings = batch(&[(GAS, 5.0); 60]);
    for free in [100usize, 0] {
        let mut run =
            ingest_batch(&registry, &readings, 100, free, 100).unwrap_or_else(|_| panic!());
        let (done, summary) = drive_with(&mut run, &mut RateLimiter::new(), 300_000_000);
        let dropped = one(Counter::WarmDegradedDropped);
        let dropped = done.updates.iter().filter(|u| **u == dropped).count();
        let taken = done.stored.len() - done.stored.len() / 4;
        assert_eq!(summary.accepted, summary.rate_limited + taken + dropped);
        assert!(summary.rate_limited > 0 && taken > 0 && dropped > 0);
    }
}
