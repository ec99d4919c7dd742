//! What holds of every ingest run, whatever the rate limiter, the lanes and the
//! sampling sequence answer.

use crate::ieee::Single;
use crate::ingest::{
    finding, how_many, how_severe, next_accepted, verdict, violation_of, violations_in,
    IngestAction, IngestEvent, IngestSummary, RunView, Stage, Verdict,
};
use crate::metrics::{added, law_updates_add_up, Counter, MetricUpdate};
use crate::registry::SensorMeta;
use crate::types::{Quality, Reading, Severity, Violation};
use crate::warm::StoredReading;
use vstd::prelude::*;

verus! {

/// The state of a run before its first event.
pub open spec fn fresh(state: RunView) -> bool {
    state.stage == Stage::Fresh && state.at == 0 && state.over_budget == 0
}

/// The state that a sequence of events leads to.
pub open spec fn follow(start: RunView, events: Seq<IngestEvent>) -> RunView
    decreases events.len(),
{
    if events.len() == 0 {
        start
    } else {
        follow(start, events.drop_last()).after(events.last()).state
    }
}

/// Whether each event answers the action before it.
pub open spec fn legal(start: RunView, events: Seq<IngestEvent>) -> bool
    decreases events.len(),
{
    events.len() > 0 ==> {
        &&& legal(start, events.drop_last())
        &&& follow(start, events.drop_last()).expects(events.last())
    }
}

/// The violations that the events of a run raise, in order.
pub open spec fn raised(start: RunView, events: Seq<IngestEvent>) -> Seq<Violation>
    decreases events.len(),
{
    if events.len() == 0 {
        seq![]
    } else {
        let before = raised(start, events.drop_last());
        match follow(start, events.drop_last()).after(events.last()).action {
            IngestAction::Raise { violation } => before.push(violation),
            _ => before,
        }
    }
}

/// The readings that the events of a run hand to the warm lane, in order.
pub open spec fn stored(start: RunView, events: Seq<IngestEvent>) -> Seq<StoredReading>
    decreases events.len(),
{
    if events.len() == 0 {
        seq![]
    } else {
        let before = stored(start, events.drop_last());
        match follow(start, events.drop_last()).after(events.last()).action {
            IngestAction::Store { reading } => before.push(reading),
            _ => before,
        }
    }
}

/// The metric updates of a run, in order.
pub open spec fn reported(start: RunView, events: Seq<IngestEvent>) -> Seq<MetricUpdate>
    decreases events.len(),
{
    if events.len() == 0 {
        seq![]
    } else {
        reported(start, events.drop_last()) + follow(start, events.drop_last()).after(
            events.last(),
        ).updates
    }
}

/// How many violations the hot lane did not take.
pub open spec fn undelivered(events: Seq<IngestEvent>) -> nat
    decreases events.len(),
{
    if events.len() == 0 {
        0
    } else {
        undelivered(events.drop_last()) + if events.last() == (IngestEvent::Raised {
            delivered: false,
        }) {
            1nat
        } else {
            0nat
        }
    }
}

/// How many readings the rate limiter refused.
pub open spec fn refused(events: Seq<IngestEvent>) -> nat
    decreases events.len(),
{
    if events.len() == 0 {
        0
    } else {
        refused(events.drop_last()) + if events.last() == (IngestEvent::Budget {
            within: false,
        }) {
            1nat
        } else {
            0nat
        }
    }
}

proof fn lemma_next_accepted(sensors: Map<u128, SensorMeta>, readings: Seq<Reading>, from: int)
    requires
        0 <= from <= readings.len(),
    ensures
        from <= next_accepted(sensors, readings, from) <= readings.len(),
        next_accepted(sensors, readings, from) < readings.len() ==> verdict(
            sensors,
            readings[next_accepted(sensors, readings, from)],
        ) == Verdict::Accepted,
        violations_in(sensors, readings.take(next_accepted(sensors, readings, from)))
            == violations_in(sensors, readings.take(from)),
    decreases readings.len() - from,
{
    if from < readings.len() && verdict(sensors, readings[from]) != Verdict::Accepted {
        lemma_next_accepted(sensors, readings, from + 1);
        lemma_one_more_violation(sensors, readings, from);
    }
}

proof fn lemma_one_more_violation(
    sensors: Map<u128, SensorMeta>,
    readings: Seq<Reading>,
    i: int,
)
    requires
        0 <= i < readings.len(),
    ensures
        violations_in(sensors, readings.take(i + 1)) == match violation_of(sensors, readings[i]) {
            Some(violation) => violations_in(sensors, readings.take(i)).push(violation),
            None => violations_in(sensors, readings.take(i)),
        },
{
    let longer = readings.take(i + 1);
    assert(longer.drop_last() =~= readings.take(i));
    let f = |reading: Reading| violation_of(sensors, reading);
    match f(longer.last()) {
        Some(violation) => {
            let rest = longer.drop_last().filter_map(f);
            assert(rest + seq![violation] =~= rest.push(violation));
        },
        None => {},
    }
}

/// How many readings of the batch have been evaluated.
spec fn evaluated(state: RunView) -> int {
    match state.stage {
        Stage::Fresh => 0,
        Stage::Budget => state.at,
        Stage::Done => state.readings.len() as int,
        _ => state.at + 1,
    }
}

/// A state that a run can be in.
spec fn placed(state: RunView) -> bool {
    &&& 0 <= state.at <= state.readings.len()
    &&& state.stage == Stage::Fresh ==> state.at == 0
    &&& state.stage != Stage::Fresh && state.stage != Stage::Done ==> {
        &&& state.at < state.readings.len()
        &&& verdict(state.sensors, state.current()) == Verdict::Accepted
    }
    &&& state.stage == Stage::Ticket || state.stage == Stage::Warm ==> state.within_budget
}

/// What one event does: a violation is raised exactly where one more is evaluated.
proof fn lemma_step(state: RunView, event: IngestEvent)
    requires
        placed(state),
        state.expects(event),
    ensures
        ({
            let step = state.after(event);
            let before = violations_in(state.sensors, state.readings.take(evaluated(state)));
            let after = violations_in(
                state.sensors,
                state.readings.take(evaluated(step.state)),
            );
            &&& placed(step.state)
            &&& step.state.sensors == state.sensors
            &&& step.state.readings == state.readings
            &&& after == match step.action {
                IngestAction::Raise { violation } => before.push(violation),
                _ => before,
            }
        }),
{
    if event is Begin {
        lemma_next_accepted(state.sensors, state.readings, 0);
    } else {
        lemma_next_accepted(state.sensors, state.readings, state.at + 1);
        lemma_one_more_violation(state.sensors, state.readings, state.at);
    }
}

/// What one event counts as lost.
proof fn lemma_step_losses(state: RunView, event: IngestEvent)
    ensures
        added(state.after(event).updates, Counter::HotLost) == if event == (IngestEvent::Raised {
            delivered: false,
        }) {
            1nat
        } else {
            0nat
        },
{
    let updates = state.after(event).updates;
    reveal_with_fuel(added, 2);
    if updates.len() > 0 {
        assert(updates.drop_last() =~= seq![]);
    }
}

/// What holds after every event of a run.
spec fn on_track(start: RunView, events: Seq<IngestEvent>) -> bool {
    let state = follow(start, events);
    &&& placed(state)
    &&& state.sensors == start.sensors
    &&& state.readings == start.readings
    &&& raised(start, events) == violations_in(state.sensors, state.readings.take(evaluated(state)))
    &&& added(reported(start, events), Counter::HotLost) == undelivered(events)
    &&& state.over_budget == refused(events)
}

proof fn lemma_on_track(start: RunView, events: Seq<IngestEvent>)
    requires
        fresh(start),
        legal(start, events),
    ensures
        on_track(start, events),
    decreases events.len(),
{
    if events.len() == 0 {
        assert(violations_in(start.sensors, start.readings.take(0)) =~= seq![]);
    } else {
        let earlier = events.drop_last();
        lemma_on_track(start, earlier);
        let state = follow(start, earlier);
        lemma_step(state, events.last());
        lemma_step_losses(state, events.last());
        law_updates_add_up(
            reported(start, earlier),
            state.after(events.last()).updates,
            Counter::HotLost,
        );
    }
}

/// A run judges its batch by one snapshot from its first event to its last, and a
/// reading waits for storage only within its budget.
pub proof fn law_run_stays_sound(start: RunView, events: Seq<IngestEvent>)
    requires
        fresh(start),
        legal(start, events),
    ensures
        ({
            let state = follow(start, events);
            &&& state.sensors == start.sensors
            &&& state.readings == start.readings
            &&& 0 <= state.at <= state.readings.len()
            &&& state.stage == Stage::Ticket || state.stage == Stage::Warm ==> state.within_budget
        }),
{
    lemma_on_track(start, events);
}

/// Safety never bends: a batch that is done has raised exactly the violations of
/// its readings, in order, whatever the limiter refused, whether or not storage
/// was sampled, and whatever became of the violations before.
pub proof fn law_every_violation_is_raised(start: RunView, events: Seq<IngestEvent>)
    requires
        fresh(start),
        legal(start, events),
        follow(start, events).stage == Stage::Done,
    ensures
        raised(start, events) == violations_in(start.sensors, start.readings),
{
    lemma_on_track(start, events);
    assert(start.readings.take(start.readings.len() as int) =~= start.readings);
}

/// A violation that the hot lane does not take is counted as lost, and nothing
/// else is.
pub proof fn law_losses_are_counted(start: RunView, events: Seq<IngestEvent>)
    requires
        fresh(start),
        legal(start, events),
    ensures
        added(reported(start, events), Counter::HotLost) == undelivered(events),
{
    lemma_on_track(start, events);
}

/// Storage is gated: a reading is only handed to the warm lane if it is an
/// accepted reading of the batch, unaltered and within its sensor's budget.
pub proof fn law_only_budgeted_readings_are_stored(
    start: RunView,
    events: Seq<IngestEvent>,
    event: IngestEvent,
)
    requires
        fresh(start),
        legal(start, events.push(event)),
        follow(start, events).after(event).action is Store,
    ensures
        ({
            let state = follow(start, events).after(event).state;
            let reading = state.readings[state.at];
            &&& 0 <= state.at < start.readings.len()
            &&& state.readings == start.readings
            &&& verdict(start.sensors, reading) == Verdict::Accepted
            &&& state.within_budget
            &&& follow(start, events).after(event).action->Store_reading.ts == reading.ts
            &&& follow(start, events).after(event).action->Store_reading.sensor_id
                == reading.sensor_id
            &&& follow(start, events).after(event).action->Store_reading.value == reading.value
        }),
{
    let all = events.push(event);
    assert(all.drop_last() =~= events);
    lemma_on_track(start, events);
    lemma_on_track(start, all);
    let before = follow(start, events);
    if before.stage != Stage::Fresh {
        lemma_next_accepted(before.sensors, before.readings, before.at + 1);
    }
}

/// The readings that the storage policy keeps, in order: those within budget, and
/// while sampling those of them that draw a ticket divisible by ten.
pub open spec fn kept_readings(start: RunView, events: Seq<IngestEvent>) -> Seq<StoredReading>
    decreases events.len(),
{
    if events.len() == 0 {
        seq![]
    } else {
        let state = follow(start, events.drop_last());
        let before = kept_readings(start, events.drop_last());
        match events.last() {
            IngestEvent::Budget { within } => if within && !state.degraded {
                before.push(state.kept(Quality::Good))
            } else {
                before
            },
            IngestEvent::Ticket { number } => if number % 10 == 0 {
                before.push(state.kept(Quality::DegradedSampled))
            } else {
                before
            },
            _ => before,
        }
    }
}

/// A reading that will be stored once its violation is raised.
spec fn not_yet_stored(state: RunView) -> Seq<StoredReading> {
    if state.stage == Stage::Hot && state.within_budget && !state.degraded {
        seq![state.kept(Quality::Good)]
    } else {
        seq![]
    }
}

proof fn lemma_policy(start: RunView, events: Seq<IngestEvent>)
    requires
        fresh(start),
        legal(start, events),
    ensures
        stored(start, events) + not_yet_stored(follow(start, events)) == kept_readings(
            start,
            events,
        ),
    decreases events.len(),
{
    if events.len() > 0 {
        let earlier = events.drop_last();
        lemma_policy(start, earlier);
        lemma_on_track(start, earlier);
        assert(stored(start, events) + not_yet_stored(follow(start, events)) =~= kept_readings(
            start,
            events,
        ));
    }
}

/// Storage follows its policy: a batch that is done has handed to the warm lane
/// exactly the readings that the policy keeps, in order.
pub proof fn law_storage_follows_the_policy(start: RunView, events: Seq<IngestEvent>)
    requires
        fresh(start),
        legal(start, events),
        follow(start, events).stage == Stage::Done,
    ensures
        stored(start, events) == kept_readings(start, events),
{
    lemma_policy(start, events);
    assert(stored(start, events) + Seq::<StoredReading>::empty() =~= stored(start, events));
}

/// No batch stores more readings than it has.
pub proof fn law_storage_is_bounded(start: RunView, events: Seq<IngestEvent>)
    requires
        fresh(start),
        legal(start, events),
    ensures
        stored(start, events).len() <= start.readings.len(),
{
    lemma_stored_bounded(start, events);
}

proof fn lemma_stored_bounded(start: RunView, events: Seq<IngestEvent>)
    requires
        fresh(start),
        legal(start, events),
    ensures
        ({
            let state = follow(start, events);
            stored(start, events).len() <= state.at + if state.stage == Stage::Warm {
                1int
            } else {
                0int
            }
        }),
        follow(start, events).at <= start.readings.len(),
        follow(start, events).stage == Stage::Warm ==> follow(start, events).at
            < start.readings.len(),
    decreases events.len(),
{
    lemma_on_track(start, events);
    if events.len() > 0 {
        let earlier = events.drop_last();
        lemma_stored_bounded(start, earlier);
        lemma_on_track(start, earlier);
        let state = follow(start, earlier);
        lemma_next_accepted(state.sensors, state.readings, 0);
        if state.stage != Stage::Fresh {
            lemma_next_accepted(state.sensors, state.readings, state.at + 1);
        }
    }
}

/// While sampling, exactly one of any ten tickets in a row is kept.
pub proof fn law_one_ticket_in_ten(first: nat)
    ensures
        exists|kept: nat| first <= kept < first + 10 && #[trigger] (kept % 10) == 0,
        forall|a: nat, b: nat|
            first <= a < first + 10 && first <= b < first + 10 && #[trigger] (a % 10) == 0
                && #[trigger] (b % 10) == 0 ==> a == b,
{
    let kept = first + (10 - first % 10) % 10;
    assert(first <= kept < first + 10 && kept % 10 == 0);
}

/// Every reading is counted once: accepted, or rejected for one reason.
pub proof fn law_every_reading_is_counted(
    summary: IngestSummary,
    sensors: Map<u128, SensorMeta>,
    readings: Seq<Reading>,
    over_budget: nat,
    degraded: bool,
)
    requires
        summary.reports(sensors, readings, over_budget, degraded),
    ensures
        summary.accepted + summary.rejected_unknown + summary.rejected_inactive
            + summary.rejected_invalid == readings.len(),
{
    lemma_counts(sensors, readings);
}

/// The violations counted are the violations raised, and no reading raises two.
pub proof fn law_violations_are_counted(
    summary: IngestSummary,
    sensors: Map<u128, SensorMeta>,
    readings: Seq<Reading>,
    over_budget: nat,
    degraded: bool,
)
    requires
        summary.reports(sensors, readings, over_budget, degraded),
    ensures
        summary.violations_warn + summary.violations_critical == violations_in(
            sensors,
            readings,
        ).len(),
        summary.violations_warn + summary.violations_critical <= summary.accepted,
{
    lemma_counts(sensors, readings);
}

proof fn lemma_counts(sensors: Map<u128, SensorMeta>, readings: Seq<Reading>)
    ensures
        how_many(sensors, readings, Verdict::Accepted) + how_many(
            sensors,
            readings,
            Verdict::Unknown,
        ) + how_many(sensors, readings, Verdict::Inactive) + how_many(
            sensors,
            readings,
            Verdict::Invalid,
        ) == readings.len(),
        how_severe(sensors, readings, Severity::Warn) + how_severe(
            sensors,
            readings,
            Severity::Critical,
        ) == violations_in(sensors, readings).len(),
        violations_in(sensors, readings).len() <= how_many(sensors, readings, Verdict::Accepted),
    decreases readings.len(),
{
    reveal(Seq::filter);
    if readings.len() > 0 {
        lemma_counts(sensors, readings.drop_last());
        assert(finding(sensors, readings.last()) is Some == violation_of(
            sensors,
            readings.last(),
        ) is Some);
    }
}

/// What the rate limiter refused, and only that, is counted as rate limited.
pub proof fn law_refusals_are_counted(start: RunView, events: Seq<IngestEvent>)
    requires
        fresh(start),
        legal(start, events),
    ensures
        follow(start, events).over_budget == refused(events),
{
    lemma_on_track(start, events);
}

/// How many events a run can still take.
pub open spec fn events_left(state: RunView) -> int {
    let readings = 4 * (state.readings.len() - state.at);
    match state.stage {
        Stage::Fresh => readings + 1,
        Stage::Budget => readings,
        Stage::Hot => readings - 1,
        Stage::Ticket => readings - 2,
        Stage::Warm => readings - 3,
        Stage::Done => 0,
    }
}

/// Every run ends: each event brings it closer to its end, which is at most one
/// event and four for each reading away.
pub proof fn law_every_run_ends(start: RunView, events: Seq<IngestEvent>)
    requires
        fresh(start),
        legal(start, events),
    ensures
        0 <= events_left(follow(start, events)),
        events.len() + events_left(follow(start, events)) <= 4 * start.readings.len() + 1,
        events_left(follow(start, events)) == 0 <==> follow(start, events).stage == Stage::Done,
    decreases events.len(),
{
    lemma_on_track(start, events);
    if events.len() > 0 {
        let earlier = events.drop_last();
        law_every_run_ends(start, earlier);
        lemma_on_track(start, earlier);
        let state = follow(start, earlier);
        lemma_next_accepted(state.sensors, state.readings, 0);
        if state.stage != Stage::Fresh {
            lemma_next_accepted(state.sensors, state.readings, state.at + 1);
        }
    }
}

/// The questions that a run puts to the rate limiter, in order: which sensor, and
/// its declared rate.
pub open spec fn questions(start: RunView, events: Seq<IngestEvent>) -> Seq<(u128, Single)>
    decreases events.len(),
{
    if events.len() == 0 {
        seq![]
    } else {
        let before = questions(start, events.drop_last());
        match follow(start, events.drop_last()).after(events.last()).action {
            IngestAction::AskBudget { sensor_id, declared_hz } => before.push(
                (sensor_id, declared_hz),
            ),
            _ => before,
        }
    }
}

/// What there is to ask about a reading: nothing, unless it is accepted.
pub open spec fn question_of(sensors: Map<u128, SensorMeta>, reading: Reading) -> Option<
    (u128, Single),
> {
    if verdict(sensors, reading) == Verdict::Accepted {
        Some((reading.sensor_id, sensors[reading.sensor_id].sample_hz))
    } else {
        None
    }
}

/// What there is to ask about a batch, in the order of its readings.
pub open spec fn questions_in(sensors: Map<u128, SensorMeta>, readings: Seq<Reading>) -> Seq<
    (u128, Single),
> {
    readings.filter_map(|reading: Reading| question_of(sensors, reading))
}

/// One reading more: the question and the count of accepted ones.
proof fn lemma_one_more_judged(sensors: Map<u128, SensorMeta>, readings: Seq<Reading>, i: int)
    requires
        0 <= i < readings.len(),
    ensures
        questions_in(sensors, readings.take(i + 1)) == match question_of(sensors, readings[i]) {
            Some(question) => questions_in(sensors, readings.take(i)).push(question),
            None => questions_in(sensors, readings.take(i)),
        },
        how_many(sensors, readings.take(i + 1), Verdict::Accepted) == how_many(
            sensors,
            readings.take(i),
            Verdict::Accepted,
        ) + if verdict(sensors, readings[i]) == Verdict::Accepted {
            1nat
        } else {
            0nat
        },
{
    reveal(Seq::filter);
    let longer = readings.take(i + 1);
    assert(longer.drop_last() =~= readings.take(i));
    let f = |reading: Reading| question_of(sensors, reading);
    match f(longer.last()) {
        Some(question) => {
            let rest = longer.drop_last().filter_map(f);
            assert(rest + seq![question] =~= rest.push(question));
        },
        None => {},
    }
}

/// Rejected readings give no question and no count.
proof fn lemma_none_judged(sensors: Map<u128, SensorMeta>, readings: Seq<Reading>, from: int)
    requires
        0 <= from <= readings.len(),
    ensures
        ({
            let at = next_accepted(sensors, readings, from);
            &&& questions_in(sensors, readings.take(at)) == questions_in(
                sensors,
                readings.take(from),
            )
            &&& how_many(sensors, readings.take(at), Verdict::Accepted) == how_many(
                sensors,
                readings.take(from),
                Verdict::Accepted,
            )
        }),
    decreases readings.len() - from,
{
    if from < readings.len() && verdict(sensors, readings[from]) != Verdict::Accepted {
        lemma_none_judged(sensors, readings, from + 1);
        lemma_one_more_judged(sensors, readings, from);
    }
}

/// How many readings of the batch have been judged.
spec fn judged(state: RunView) -> int {
    match state.stage {
        Stage::Fresh => 0,
        Stage::Done => state.readings.len() as int,
        _ => state.at + 1,
    }
}

/// How the judged readings move on with one event.
proof fn lemma_judging_step(state: RunView, event: IngestEvent)
    requires
        placed(state),
        state.expects(event),
    ensures
        ({
            let step = state.after(event);
            let seen = state.readings.take(judged(state));
            let now = state.readings.take(judged(step.state));
            let asks = step.action is AskBudget;
            &&& questions_in(state.sensors, now) == match step.action {
                IngestAction::AskBudget { sensor_id, declared_hz } => questions_in(
                    state.sensors,
                    seen,
                ).push((sensor_id, declared_hz)),
                _ => questions_in(state.sensors, seen),
            }
            &&& how_many(state.sensors, now, Verdict::Accepted) == how_many(
                state.sensors,
                seen,
                Verdict::Accepted,
            ) + if asks {
                1nat
            } else {
                0nat
            }
        }),
{
    let from = if event is Begin {
        0
    } else {
        state.at + 1
    };
    let next = next_accepted(state.sensors, state.readings, from);
    lemma_next_accepted(state.sensors, state.readings, from);
    lemma_none_judged(state.sensors, state.readings, from);
    if next < state.readings.len() {
        lemma_one_more_judged(state.sensors, state.readings, next);
    }
}

/// The limiter is asked about every accepted reading and about no other, in the
/// order of the batch, with the rate that its sensor declares.
pub proof fn law_every_accepted_reading_is_asked_about(start: RunView, events: Seq<IngestEvent>)
    requires
        fresh(start),
        legal(start, events),
        follow(start, events).stage == Stage::Done,
    ensures
        questions(start, events) == questions_in(start.sensors, start.readings),
{
    lemma_questions(start, events);
    lemma_on_track(start, events);
    assert(start.readings.take(start.readings.len() as int) =~= start.readings);
}

proof fn lemma_questions(start: RunView, events: Seq<IngestEvent>)
    requires
        fresh(start),
        legal(start, events),
    ensures
        questions(start, events) == questions_in(
            start.sensors,
            start.readings.take(judged(follow(start, events))),
        ),
    decreases events.len(),
{
    if events.len() == 0 {
        assert(questions_in(start.sensors, start.readings.take(0)) =~= seq![]);
    } else {
        let earlier = events.drop_last();
        lemma_questions(start, earlier);
        lemma_on_track(start, earlier);
        lemma_judging_step(follow(start, earlier), events.last());
    }
}

/// How many readings the warm lane took.
pub open spec fn taken(events: Seq<IngestEvent>) -> nat
    decreases events.len(),
{
    if events.len() == 0 {
        0
    } else {
        taken(events.drop_last()) + if events.last() == (IngestEvent::Stored { taken: true }) {
            1nat
        } else {
            0nat
        }
    }
}

/// Whether the storage of the reading in hand is still to be settled.
spec fn unsettled(state: RunView) -> nat {
    match state.stage {
        Stage::Fresh | Stage::Done => 0,
        Stage::Hot => if state.within_budget {
            1
        } else {
            0
        },
        _ => 1,
    }
}

/// What one event settles: refused, taken or dropped, or nothing.
proof fn lemma_settling_step(state: RunView, event: IngestEvent)
    requires
        placed(state),
        state.expects(event),
    ensures
        ({
            let step = state.after(event);
            let settled = added(step.updates, Counter::WarmDegradedDropped) + if event == (
            IngestEvent::Stored { taken: true }) || event == (IngestEvent::Budget {
                within: false,
            }) {
                1nat
            } else {
                0nat
            };
            let asks = if step.action is AskBudget {
                1nat
            } else {
                0nat
            };
            unsettled(state) + asks == settled + unsettled(step.state)
        }),
{
    let updates = state.after(event).updates;
    reveal_with_fuel(added, 2);
    if updates.len() > 0 {
        assert(updates.drop_last() =~= seq![]);
    }
}

/// The storage audit: of the accepted readings of a batch that is done, each was
/// refused by the limiter, taken by the warm lane, or dropped and counted.
pub proof fn law_storage_is_accounted_for(start: RunView, events: Seq<IngestEvent>)
    requires
        fresh(start),
        legal(start, events),
        follow(start, events).stage == Stage::Done,
    ensures
        how_many(start.sensors, start.readings, Verdict::Accepted) == refused(events) + taken(
            events,
        ) + added(reported(start, events), Counter::WarmDegradedDropped),
{
    lemma_audit(start, events);
    lemma_on_track(start, events);
    assert(start.readings.take(start.readings.len() as int) =~= start.readings);
}

proof fn lemma_audit(start: RunView, events: Seq<IngestEvent>)
    requires
        fresh(start),
        legal(start, events),
    ensures
        how_many(
            start.sensors,
            start.readings.take(judged(follow(start, events))),
            Verdict::Accepted,
        ) == refused(events) + taken(events) + added(
            reported(start, events),
            Counter::WarmDegradedDropped,
        ) + unsettled(follow(start, events)),
    decreases events.len(),
{
    if events.len() == 0 {
        reveal(Seq::filter);
    } else {
        let earlier = events.drop_last();
        let state = follow(start, earlier);
        lemma_audit(start, earlier);
        lemma_on_track(start, earlier);
        lemma_judging_step(state, events.last());
        lemma_settling_step(state, events.last());
        law_updates_add_up(
            reported(start, earlier),
            state.after(events.last()).updates,
            Counter::WarmDegradedDropped,
        );
    }
}

} // verus!
