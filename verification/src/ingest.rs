//! Ingesting a batch: where readings meet thresholds.
//!
//! A batch is one [`IngestRun`]. The run decides; its driver performs: it lets the
//! run ask the rate limiter, hands violations to the hot lane and readings to the warm
//! lane, and reports back what came of it. Every reading of a batch is judged
//! against one registry snapshot.
//!
//! Storage bends under pressure: a reading over its sensor's budget is not
//! stored, and below a fifth of the warm lane's room only one reading in ten is.
//! Safety never bends: every accepted reading is evaluated, and every violation
//! is raised.

use crate::error::IngestError;
use crate::ieee::{Double, Single, ONE};
use crate::limiter::{charged, tokens_found, RateLimiter};
use crate::metrics::{Counter, MetricUpdate};
use crate::registry::{Registry, SensorMeta};
use crate::threshold::{breach, evaluate, line_of};
use crate::types::{Quality, Reading, ReadingBatch, Severity, Violation};
use crate::warm::StoredReading;
use vstd::prelude::*;

verus! {

/// What became of a batch.
#[derive(Clone, Copy, Debug, PartialEq, Eq, Structural)]
pub struct IngestSummary {
    pub accepted: usize,
    pub rejected_unknown: usize,
    pub rejected_inactive: usize,
    pub violations_warn: usize,
    pub violations_critical: usize,
    /// Evaluated for safety but not stored: over the sensor's rate budget.
    pub rate_limited: usize,
    /// Rejected outright: a non-finite value cannot be trusted.
    pub rejected_invalid: usize,
    /// Whether the gateway was sampling bulk storage (one in ten).
    pub degraded: bool,
}

impl Default for IngestSummary {
    fn default() -> (r: Self)
        ensures
            r == (IngestSummary {
                accepted: 0,
                rejected_unknown: 0,
                rejected_inactive: 0,
                violations_warn: 0,
                violations_critical: 0,
                rate_limited: 0,
                rejected_invalid: 0,
                degraded: false,
            }),
    {
        IngestSummary {
            accepted: 0,
            rejected_unknown: 0,
            rejected_inactive: 0,
            violations_warn: 0,
            violations_critical: 0,
            rate_limited: 0,
            rejected_invalid: 0,
            degraded: false,
        }
    }
}

/// What the registry says of a reading.
#[derive(Clone, Copy, Debug, PartialEq, Eq, Structural)]
pub enum Verdict {
    Unknown,
    Inactive,
    Invalid,
    Accepted,
}

/// A reading is accepted where its sensor is registered and active and its value
/// is finite; otherwise the first of these that fails is the verdict.
pub open spec fn verdict(sensors: Map<u128, SensorMeta>, reading: Reading) -> Verdict {
    if !sensors.contains_key(reading.sensor_id) {
        Verdict::Unknown
    } else if !sensors[reading.sensor_id].active {
        Verdict::Inactive
    } else if !reading.value.finite() {
        Verdict::Invalid
    } else {
        Verdict::Accepted
    }
}

/// The breach that a reading is, if it is accepted and is one.
pub open spec fn finding(sensors: Map<u128, SensorMeta>, reading: Reading) -> Option<Severity> {
    let meta = sensors[reading.sensor_id];
    if verdict(sensors, reading) == Verdict::Accepted {
        breach(reading.value, meta.warn_threshold, meta.crit_threshold)
    } else {
        None
    }
}

/// The violation that a reading gives rise to, if any.
pub open spec fn violation_of(sensors: Map<u128, SensorMeta>, reading: Reading) -> Option<
    Violation,
> {
    let meta = sensors[reading.sensor_id];
    match finding(sensors, reading) {
        Some(severity) => Some(
            Violation {
                sensor_id: reading.sensor_id,
                zone_id: meta.zone_id,
                severity,
                value: reading.value,
                threshold: line_of(severity, meta.warn_threshold, meta.crit_threshold),
                ts: reading.ts,
            },
        ),
        None => None,
    }
}

/// All violations of a batch, in the order of its readings.
pub open spec fn violations_in(sensors: Map<u128, SensorMeta>, readings: Seq<Reading>) -> Seq<
    Violation,
> {
    readings.filter_map(|reading: Reading| violation_of(sensors, reading))
}

/// How many readings have the given verdict.
pub open spec fn how_many(
    sensors: Map<u128, SensorMeta>,
    readings: Seq<Reading>,
    which: Verdict,
) -> nat {
    readings.filter(|reading: Reading| verdict(sensors, reading) == which).len()
}

/// How many readings are breaches of the given severity.
pub open spec fn how_severe(
    sensors: Map<u128, SensorMeta>,
    readings: Seq<Reading>,
    severity: Severity,
) -> nat {
    readings.filter(|reading: Reading| finding(sensors, reading) == Some(severity)).len()
}

impl IngestSummary {
    /// Whether this is the summary of `readings`, `over_budget` of which the
    /// rate limiter refused.
    pub open spec fn reports(
        self,
        sensors: Map<u128, SensorMeta>,
        readings: Seq<Reading>,
        over_budget: nat,
        degraded: bool,
    ) -> bool {
        &&& self.accepted == how_many(sensors, readings, Verdict::Accepted)
        &&& self.rejected_unknown == how_many(sensors, readings, Verdict::Unknown)
        &&& self.rejected_inactive == how_many(sensors, readings, Verdict::Inactive)
        &&& self.rejected_invalid == how_many(sensors, readings, Verdict::Invalid)
        &&& self.violations_warn == how_severe(sensors, readings, Severity::Warn)
        &&& self.violations_critical == how_severe(sensors, readings, Severity::Critical)
        &&& self.rate_limited == over_budget
        &&& self.degraded == degraded
    }

    /// What a finished batch adds to the metrics.
    pub fn updates(&self) -> (r: Vec<MetricUpdate>)
        ensures
            r@ == seq![
                MetricUpdate::Count {
                    counter: Counter::ReadingsAccepted,
                    by: self.accepted as u64,
                },
                MetricUpdate::Count {
                    counter: Counter::ReadingsUnknownSensor,
                    by: self.rejected_unknown as u64,
                },
                MetricUpdate::Count {
                    counter: Counter::ReadingsInactiveSensor,
                    by: self.rejected_inactive as u64,
                },
                MetricUpdate::Count {
                    counter: Counter::ViolationsWarn,
                    by: self.violations_warn as u64,
                },
                MetricUpdate::Count {
                    counter: Counter::ViolationsCritical,
                    by: self.violations_critical as u64,
                },
            ],
    {
        let mut updates: Vec<MetricUpdate> = Vec::new();
        updates.push(
            MetricUpdate::Count { counter: Counter::ReadingsAccepted, by: self.accepted as u64 },
        );
        updates.push(
            MetricUpdate::Count {
                counter: Counter::ReadingsUnknownSensor,
                by: self.rejected_unknown as u64,
            },
        );
        updates.push(
            MetricUpdate::Count {
                counter: Counter::ReadingsInactiveSensor,
                by: self.rejected_inactive as u64,
            },
        );
        updates.push(
            MetricUpdate::Count {
                counter: Counter::ViolationsWarn,
                by: self.violations_warn as u64,
            },
        );
        updates.push(
            MetricUpdate::Count {
                counter: Counter::ViolationsCritical,
                by: self.violations_critical as u64,
            },
        );
        updates
    }
}

/// What the driver of a run has to do next.
#[derive(Clone, Copy, Debug, PartialEq, Eq, Structural)]
pub enum IngestAction {
    /// Ask the rate limiter for the sensor's budget.
    AskBudget { sensor_id: u128, declared_hz: Single },
    /// Hand a violation to the hot lane, waiting for room there.
    Raise { violation: Violation },
    /// Draw the next number of the sampling sequence.
    DrawTicket,
    /// Hand a reading to the warm lane, not waiting for room there.
    Store { reading: StoredReading },
    /// Nothing: the batch is done.
    Finish,
}

/// What came of an action.
#[derive(Clone, Copy, Debug, PartialEq, Eq, Structural)]
pub enum IngestEvent {
    Begin,
    Budget { within: bool },
    Raised { delivered: bool },
    Ticket { number: u64 },
    Stored { taken: bool },
}

/// Where a run stands: which action it waits for.
#[derive(Clone, Copy, Debug, PartialEq, Eq, Structural)]
pub enum Stage {
    Fresh,
    Budget,
    Hot,
    Ticket,
    Warm,
    Done,
}

/// An action and the metric updates that come before it.
#[derive(Debug)]
pub struct IngestStep {
    pub updates: Vec<MetricUpdate>,
    pub action: IngestAction,
}

/// The state of a run.
pub struct RunView {
    pub sensors: Map<u128, SensorMeta>,
    pub readings: Seq<Reading>,
    pub degraded: bool,
    pub stage: Stage,
    /// The reading in hand.
    pub at: int,
    /// Whether the reading in hand is within its sensor's budget.
    pub within_budget: bool,
    /// How many readings so far were not.
    pub over_budget: nat,
}

/// What a step does: the next state, the metric updates and the action.
pub struct Transition {
    pub state: RunView,
    pub updates: Seq<MetricUpdate>,
    pub action: IngestAction,
}

/// The first accepted reading at `from` or after it.
pub open spec fn next_accepted(
    sensors: Map<u128, SensorMeta>,
    readings: Seq<Reading>,
    from: int,
) -> int
    decreases readings.len() - from,
{
    if from >= readings.len() {
        readings.len() as int
    } else if verdict(sensors, readings[from]) == Verdict::Accepted {
        from
    } else {
        next_accepted(sensors, readings, from + 1)
    }
}

/// One update that counts one.
pub open spec fn one(counter: Counter) -> Seq<MetricUpdate> {
    seq![MetricUpdate::Count { counter, by: 1 }]
}

impl RunView {
    /// The reading in hand.
    pub open spec fn current(self) -> Reading {
        self.readings[self.at]
    }

    /// The declared rate of its sensor.
    pub open spec fn declared_hz(self) -> Single {
        self.sensors[self.current().sensor_id].sample_hz
    }

    /// The tokens that a limiter with these buckets has for the reading in hand.
    pub open spec fn budget_found(self, buckets: Map<u128, (u64, u64)>, now: u64) -> u64 {
        tokens_found(buckets, self.current().sensor_id, self.declared_hz(), now)
    }

    /// The limiter's buckets once it was asked about the reading in hand.
    pub open spec fn limiter_after(self, buckets: Map<u128, (u64, u64)>, now: u64) -> Map<
        u128,
        (u64, u64),
    > {
        buckets.insert(
            self.current().sensor_id,
            (charged(self.budget_found(buckets, now)), now),
        )
    }

    /// The reading in hand as the warm lane carries it.
    pub open spec fn kept(self, quality: Quality) -> StoredReading {
        StoredReading {
            ts: self.current().ts,
            sensor_id: self.current().sensor_id,
            value: self.current().value,
            quality,
        }
    }

    /// Whether the event answers the action that the run waits for.
    pub open spec fn expects(self, event: IngestEvent) -> bool {
        match self.stage {
            Stage::Fresh => event is Begin,
            Stage::Budget => event is Budget,
            Stage::Hot => event is Raised,
            Stage::Ticket => event is Ticket,
            Stage::Warm => event is Stored,
            Stage::Done => false,
        }
    }

    /// Goes on with the first accepted reading from `from` on.
    pub open spec fn arrive(self, from: int, updates: Seq<MetricUpdate>) -> Transition {
        let at = next_accepted(self.sensors, self.readings, from);
        if at < self.readings.len() {
            Transition {
                state: RunView { stage: Stage::Budget, at, ..self },
                updates,
                action: IngestAction::AskBudget {
                    sensor_id: self.readings[at].sensor_id,
                    declared_hz: self.sensors[self.readings[at].sensor_id].sample_hz,
                },
            }
        } else {
            Transition {
                state: RunView { stage: Stage::Done, at, ..self },
                updates,
                action: IngestAction::Finish,
            }
        }
    }

    /// Storage of the reading in hand: none over budget, a ticket while
    /// sampling, and otherwise the reading as it is.
    pub open spec fn store(self, updates: Seq<MetricUpdate>) -> Transition {
        if !self.within_budget {
            self.arrive(self.at + 1, updates)
        } else if self.degraded {
            Transition {
                state: RunView { stage: Stage::Ticket, ..self },
                updates,
                action: IngestAction::DrawTicket,
            }
        } else {
            Transition {
                state: RunView { stage: Stage::Warm, ..self },
                updates,
                action: IngestAction::Store { reading: self.kept(Quality::Good) },
            }
        }
    }

    /// The step that an event leads to.
    pub open spec fn after(self, event: IngestEvent) -> Transition {
        match event {
            IngestEvent::Begin => self.arrive(0, seq![]),
            IngestEvent::Budget { within } => {
                let charged = RunView {
                    within_budget: within,
                    over_budget: self.over_budget + if within {
                        0nat
                    } else {
                        1nat
                    },
                    ..self
                };
                match violation_of(self.sensors, self.current()) {
                    Some(violation) => Transition {
                        state: RunView { stage: Stage::Hot, ..charged },
                        updates: seq![],
                        action: IngestAction::Raise { violation },
                    },
                    None => charged.store(seq![]),
                }
            },
            IngestEvent::Raised { delivered } => self.store(
                if delivered {
                    seq![]
                } else {
                    one(Counter::HotLost)
                },
            ),
            IngestEvent::Ticket { number } => if number % 10 == 0 {
                Transition {
                    state: RunView { stage: Stage::Warm, ..self },
                    updates: one(Counter::WarmDegradedKept),
                    action: IngestAction::Store { reading: self.kept(Quality::DegradedSampled) },
                }
            } else {
                self.arrive(self.at + 1, one(Counter::WarmDegradedDropped))
            },
            IngestEvent::Stored { taken } => self.arrive(
                self.at + 1,
                if taken {
                    seq![]
                } else {
                    one(Counter::WarmDegradedDropped)
                },
            ),
        }
    }
}

/// One batch on its way through the gateway.
pub struct IngestRun<'a> {
    registry: &'a Registry,
    readings: &'a Vec<Reading>,
    stage: Stage,
    at: usize,
    within_budget: bool,
    summary: IngestSummary,
}

impl<'a> View for IngestRun<'a> {
    type V = RunView;

    closed spec fn view(&self) -> RunView {
        RunView {
            sensors: self.registry.sensors@,
            readings: self.readings@,
            degraded: self.summary.degraded,
            stage: self.stage,
            at: self.at as int,
            within_budget: self.within_budget,
            over_budget: self.summary.rate_limited as nat,
        }
    }
}

spec fn bump(condition: bool) -> nat {
    if condition {
        1
    } else {
        0
    }
}

/// The counts of a summary after `judged` readings were judged and `evaluated`
/// of them evaluated.
spec fn tallied(
    summary: IngestSummary,
    sensors: Map<u128, SensorMeta>,
    readings: Seq<Reading>,
    judged: int,
    evaluated: int,
) -> bool {
    let seen = readings.take(judged);
    let weighed = readings.take(evaluated);
    &&& 0 <= evaluated <= judged <= readings.len()
    &&& summary.accepted == how_many(sensors, seen, Verdict::Accepted)
    &&& summary.rejected_unknown == how_many(sensors, seen, Verdict::Unknown)
    &&& summary.rejected_inactive == how_many(sensors, seen, Verdict::Inactive)
    &&& summary.rejected_invalid == how_many(sensors, seen, Verdict::Invalid)
    &&& summary.violations_warn == how_severe(sensors, weighed, Severity::Warn)
    &&& summary.violations_critical == how_severe(sensors, weighed, Severity::Critical)
    &&& summary.rate_limited + (judged - evaluated) <= summary.accepted
}

/// One reading more.
proof fn lemma_one_more(sensors: Map<u128, SensorMeta>, readings: Seq<Reading>, i: int)
    requires
        0 <= i < readings.len(),
    ensures
        forall|which: Verdict| #[trigger]
            how_many(sensors, readings.take(i + 1), which) == how_many(
                sensors,
                readings.take(i),
                which,
            ) + bump(verdict(sensors, readings[i]) == which),
        forall|severity: Severity| #[trigger]
            how_severe(sensors, readings.take(i + 1), severity) == how_severe(
                sensors,
                readings.take(i),
                severity,
            ) + bump(finding(sensors, readings[i]) == Some(severity)),
        forall|which: Verdict| #[trigger] how_many(sensors, readings.take(i), which) <= i,
        forall|severity: Severity| #[trigger] how_severe(sensors, readings.take(i), severity) <= i,
{
    reveal(Seq::filter);
    let longer = readings.take(i + 1);
    assert(longer.drop_last() =~= readings.take(i));
    assert(longer.last() == readings[i]);
    assert forall|which: Verdict| #[trigger] how_many(sensors, readings.take(i), which) <= i by {
        readings.take(i).lemma_filter_len(|reading: Reading| verdict(sensors, reading) == which);
    }
    assert forall|severity: Severity| #[trigger]
        how_severe(sensors, readings.take(i), severity) <= i by {
        readings.take(i).lemma_filter_len(
            |reading: Reading| finding(sensors, reading) == Some(severity),
        );
    }
}

/// No readings, no counts.
proof fn lemma_none_yet(sensors: Map<u128, SensorMeta>, readings: Seq<Reading>)
    ensures
        forall|which: Verdict| #[trigger] how_many(sensors, readings.take(0), which) == 0,
        forall|severity: Severity| #[trigger] how_severe(sensors, readings.take(0), severity) == 0,
{
    reveal(Seq::filter);
}

/// Whether the sampling watermark is crossed: less than a fifth of the warm
/// lane's capacity is free.
pub open spec fn below_watermark(warm_free: int, warm_capacity: int) -> bool {
    warm_free < warm_capacity / 5
}

/// Takes up a batch. A batch over the size limit is refused whole.
pub fn ingest_batch<'a>(
    registry: &'a Registry,
    batch: &'a ReadingBatch,
    max_batch_size: usize,
    warm_free: usize,
    warm_capacity: usize,
) -> (r: Result<IngestRun<'a>, IngestError>)
    ensures
        r is Err <==> batch.readings@.len() > max_batch_size,
        r matches Err(e) ==> e == (IngestError::BatchTooLarge {
            got: batch.readings@.len() as usize,
            max: max_batch_size,
        }),
        r matches Ok(run) ==> run.wf() && run@ == (RunView {
            sensors: registry.sensors@,
            readings: batch.readings@,
            degraded: below_watermark(warm_free as int, warm_capacity as int),
            stage: Stage::Fresh,
            at: 0,
            within_budget: false,
            over_budget: 0,
        }),
        r matches Ok(run) ==> (run@.degraded <==> 5 * (warm_free + 1) <= warm_capacity),
{
    if batch.readings.len() > max_batch_size {
        return Err(IngestError::BatchTooLarge { got: batch.readings.len(), max: max_batch_size });
    }
    let mut summary: IngestSummary = IngestSummary::default();
    summary.degraded = warm_free < warm_capacity / 5;
    proof {
        lemma_none_yet(registry.sensors@, batch.readings@);
    }
    Ok(
        IngestRun {
            registry,
            readings: &batch.readings,
            stage: Stage::Fresh,
            at: 0,
            within_budget: false,
            summary,
        },
    )
}

impl<'a> IngestRun<'a> {
    /// The counts cover exactly the readings done and the one in hand.
    pub closed spec fn wf(&self) -> bool {
        let sensors = self.registry.sensors@;
        let readings = self.readings@;
        let at = self.at as int;
        match self.stage {
            Stage::Fresh => at == 0 && tallied(self.summary, sensors, readings, 0, 0),
            Stage::Budget => {
                &&& at < readings.len()
                &&& verdict(sensors, readings[at]) == Verdict::Accepted
                &&& tallied(self.summary, sensors, readings, at + 1, at)
            },
            Stage::Done => {
                &&& at == readings.len()
                &&& tallied(self.summary, sensors, readings, at, at)
            },
            _ => {
                &&& at < readings.len()
                &&& verdict(sensors, readings[at]) == Verdict::Accepted
                &&& tallied(self.summary, sensors, readings, at + 1, at + 1)
            },
        }
    }

    /// Takes the answer to the last action and gives the next one.
    pub fn advance(&mut self, event: IngestEvent) -> (r: IngestStep)
        requires
            old(self).wf(),
            old(self)@.expects(event),
        ensures
            final(self).wf(),
            final(self)@ == old(self)@.after(event).state,
            r.updates@ == old(self)@.after(event).updates,
            r.action == old(self)@.after(event).action,
    {
        let mut updates: Vec<MetricUpdate> = Vec::new();
        assert(self.readings.len() == self.readings@.len());
        match event {
            IngestEvent::Begin => {
                let action: IngestAction = self.arrive(0);
                IngestStep { updates, action }
            },
            IngestEvent::Budget { within } => {
                match self.charge(within) {
                    Some(violation) => {
                        self.stage = Stage::Hot;
                        IngestStep { updates, action: IngestAction::Raise { violation } }
                    },
                    None => {
                        let action: IngestAction = self.place();
                        IngestStep { updates, action }
                    },
                }
            },
            IngestEvent::Raised { delivered } => {
                if !delivered {
                    updates.push(MetricUpdate::Count { counter: Counter::HotLost, by: 1 });
                }
                let action: IngestAction = self.place();
                IngestStep { updates, action }
            },
            IngestEvent::Ticket { number } => {
                if number % 10 == 0 {
                    updates.push(MetricUpdate::Count { counter: Counter::WarmDegradedKept, by: 1 });
                    let reading: StoredReading = self.keep(Quality::DegradedSampled);
                    self.stage = Stage::Warm;
                    IngestStep { updates, action: IngestAction::Store { reading } }
                } else {
                    updates.push(
                        MetricUpdate::Count { counter: Counter::WarmDegradedDropped, by: 1 },
                    );
                    let action: IngestAction = self.arrive(self.at + 1);
                    IngestStep { updates, action }
                }
            },
            IngestEvent::Stored { taken } => {
                if !taken {
                    updates.push(
                        MetricUpdate::Count { counter: Counter::WarmDegradedDropped, by: 1 },
                    );
                }
                let action: IngestAction = self.arrive(self.at + 1);
                IngestStep { updates, action }
            },
        }
    }

    /// Asks the rate limiter for the budget of the reading in hand, and gives its
    /// answer as the next event.
    pub fn ask(&self, limiter: &mut RateLimiter, now: u64) -> (r: IngestEvent)
        requires
            self.wf(),
            self@.stage == Stage::Budget,
            old(limiter).wf(),
        ensures
            final(limiter).wf(),
            self@.expects(r),
            r == (IngestEvent::Budget { within: self@.budget_found(old(limiter)@, now) >= ONE }),
            final(limiter)@ == self@.limiter_after(old(limiter)@, now),
            ({
                let id = self@.readings[self@.at].sensor_id;
                let found = tokens_found(old(limiter)@, id, self@.sensors[id].sample_hz, now);
                &&& r == (IngestEvent::Budget { within: found >= ONE })
                &&& final(limiter)@ == old(limiter)@.insert(id, (charged(found), now))
            }),
    {
        let reading: Reading = self.readings[self.at];
        let declared_hz: Single = match self.registry.find(reading.sensor_id) {
            Some(meta) => meta.sample_hz,
            None => Single { bits: 0 },
        };
        IngestEvent::Budget { within: limiter.allow(reading.sensor_id, declared_hz, now) }
    }

    /// Books the budget answer for the reading in hand and evaluates it.
    fn charge(&mut self, within: bool) -> (r: Option<Violation>)
        requires
            old(self).wf(),
            old(self)@.stage == Stage::Budget,
        ensures
            final(self)@ == (RunView {
                within_budget: within,
                over_budget: (old(self)@.over_budget + bump(!within)) as nat,
                ..old(self)@
            }),
            r == violation_of(old(self)@.sensors, old(self)@.current()),
            tallied(
                final(self).summary,
                final(self)@.sensors,
                final(self)@.readings,
                final(self)@.at + 1,
                final(self)@.at + 1,
            ),
    {
        let reading: Reading = self.readings[self.at];
        proof {
            lemma_one_more(self.registry.sensors@, self.readings@, self.at as int);
            assert(self.readings.len() == self.readings@.len());
        }
        self.within_budget = within;
        if !within {
            self.summary.rate_limited = self.summary.rate_limited + 1;
        }
        match self.registry.find(reading.sensor_id) {
            None => None,
            Some(meta) => {
                match evaluate(reading.value, meta.warn_threshold, meta.crit_threshold) {
                    None => None,
                    Some(severity) => {
                        let threshold: Double = match severity {
                            Severity::Warn => {
                                self.summary.violations_warn = self.summary.violations_warn + 1;
                                meta.warn_threshold
                            },
                            Severity::Critical => {
                                self.summary.violations_critical =
                                self.summary.violations_critical + 1;
                                meta.crit_threshold
                            },
                        };
                        Some(
                            Violation {
                                sensor_id: reading.sensor_id,
                                zone_id: meta.zone_id,
                                severity,
                                value: reading.value,
                                threshold,
                                ts: reading.ts,
                            },
                        )
                    },
                }
            },
        }
    }

    fn keep(&self, quality: Quality) -> (r: StoredReading)
        requires
            self@.at < self@.readings.len(),
        ensures
            r == self@.kept(quality),
    {
        let reading: Reading = self.readings[self.at];
        StoredReading {
            ts: reading.ts,
            sensor_id: reading.sensor_id,
            value: reading.value,
            quality,
        }
    }

    /// Decides the storage of the reading in hand.
    fn place(&mut self) -> (r: IngestAction)
        requires
            old(self)@.at < old(self)@.readings.len(),
            verdict(old(self)@.sensors, old(self)@.current()) == Verdict::Accepted,
            tallied(
                old(self).summary,
                old(self)@.sensors,
                old(self)@.readings,
                old(self)@.at + 1,
                old(self)@.at + 1,
            ),
        ensures
            final(self).wf(),
            final(self)@ == old(self)@.store(seq![]).state,
            r == old(self)@.store(seq![]).action,
    {
        assert(self.readings.len() == self.readings@.len());
        if !self.within_budget {
            self.arrive(self.at + 1)
        } else if self.summary.degraded {
            self.stage = Stage::Ticket;
            IngestAction::DrawTicket
        } else {
            let reading: StoredReading = self.keep(Quality::Good);
            self.stage = Stage::Warm;
            IngestAction::Store { reading }
        }
    }

    /// Judges the readings from `from` on, counting the rejected ones, up to the
    /// next accepted one.
    fn arrive(&mut self, from: usize) -> (r: IngestAction)
        requires
            tallied(
                old(self).summary,
                old(self)@.sensors,
                old(self)@.readings,
                from as int,
                from as int,
            ),
        ensures
            final(self).wf(),
            final(self)@ == old(self)@.arrive(from as int, seq![]).state,
            r == old(self)@.arrive(from as int, seq![]).action,
    {
        self.at = from;
        while self.at < self.readings.len()
            invariant
                self@ == (RunView { at: self.at as int, ..old(self)@ }),
                next_accepted(self@.sensors, self@.readings, from as int) == next_accepted(
                    self@.sensors,
                    self@.readings,
                    self.at as int,
                ),
                tallied(
                    self.summary,
                    self@.sensors,
                    self@.readings,
                    self.at as int,
                    self.at as int,
                ),
            decreases self.readings@.len() - self.at,
        {
            let reading: Reading = self.readings[self.at];
            proof {
                lemma_one_more(self.registry.sensors@, self.readings@, self.at as int);
            }
            match self.registry.find(reading.sensor_id) {
                None => {
                    self.summary.rejected_unknown = self.summary.rejected_unknown + 1;
                },
                Some(meta) => {
                    if !meta.active {
                        self.summary.rejected_inactive = self.summary.rejected_inactive + 1;
                    } else if !reading.value.is_finite() {
                        self.summary.rejected_invalid = self.summary.rejected_invalid + 1;
                    } else {
                        self.summary.accepted = self.summary.accepted + 1;
                        self.stage = Stage::Budget;
                        return IngestAction::AskBudget {
                            sensor_id: reading.sensor_id,
                            declared_hz: meta.sample_hz,
                        };
                    }
                },
            }
            self.at = self.at + 1;
        }
        self.stage = Stage::Done;
        IngestAction::Finish
    }

    /// The summary of a batch that is done.
    pub fn summary(&self) -> (r: IngestSummary)
        requires
            self.wf(),
            self@.stage == Stage::Done,
        ensures
            r.reports(self@.sensors, self@.readings, self@.over_budget, self@.degraded),
            r.rate_limited <= r.accepted,
    {
        proof {
            assert(self.readings@.take(self.at as int) =~= self.readings@);
        }
        self.summary
    }
}

} // verus!
