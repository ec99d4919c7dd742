//! The warm lane: a bounded channel, a batch writer and binary COPY.
//!
//! The writer collects rows and flushes them when a batch is full, when the
//! timer says so and when the channel closes. A failed flush keeps the buffer
//! and is tried again after a pause that grows. Bulk rows are droppable, so the
//! buffer is bounded: past its cap the oldest rows are shed, and counted.
//!
//! [`WarmWriter`] decides; its driver receives, waits and copies, and reports
//! back what came of it.

use crate::copy::{copy_bytes, encode_binary};
use crate::ieee::Single;
use crate::metrics::{added, law_updates_add_up, Counter, Gauge, MetricUpdate};
use crate::types::{Quality, Timestamp};
use vstd::prelude::*;

verus! {

/// What the warm lane carries: the reading plus its storage-quality flag.
#[derive(Clone, Copy, Debug, PartialEq, Eq, Structural)]
pub struct StoredReading {
    pub ts: Timestamp,
    pub sensor_id: u128,
    pub value: Single,
    pub quality: Quality,
}

/// A batch of this size is flushed at once.
pub const MAX_BATCH_ROWS: usize = 1_000;

/// The time between two ticks, in milliseconds.
pub const FLUSH_INTERVAL_MS: u64 = 250;

/// The cap on the buffer: some five batches.
pub const MAX_BUFFERED: usize = 5_000;

/// The shortest and the longest pause before a retry, in milliseconds.
pub const MIN_BACKOFF_MS: u64 = 250;

pub const MAX_BACKOFF_MS: u64 = 5_000;

/// Why the buffer is flushed.
#[derive(Clone, Copy, Debug, PartialEq, Eq, Structural)]
pub enum FlushReason {
    Size,
    Timer,
    Shutdown,
}

impl FlushReason {
    pub open spec fn label(self) -> Seq<char> {
        match self {
            FlushReason::Size => "size"@,
            FlushReason::Timer => "timer"@,
            FlushReason::Shutdown => "shutdown"@,
        }
    }

    /// The reason as the log shows it.
    pub fn name(self) -> (r: &'static str)
        ensures
            r@ == self.label(),
    {
        match self {
            FlushReason::Size => "size",
            FlushReason::Timer => "timer",
            FlushReason::Shutdown => "shutdown",
        }
    }
}

/// What the driver of the writer has to do next.
#[derive(Clone, Copy, Debug, PartialEq, Eq, Structural)]
pub enum WarmAction {
    /// Wait for a row, for the channel's end or for a tick, a row going first.
    Wait,
    /// Pause before the retry.
    Sleep { millis: u64 },
    /// Copy the buffer to the database.
    Flush { reason: FlushReason },
    /// Nothing: the writer is done.
    Stop,
}

/// What came of an action.
#[derive(Clone, Copy, Debug, PartialEq, Eq, Structural)]
pub enum WarmEvent {
    Received { row: StoredReading },
    Closed,
    Tick,
    Slept,
    Flushed { rows: u64 },
    FlushFailed,
}

/// Where the writer stands: which action it waits for.
#[derive(Clone, Copy, Debug, PartialEq, Eq, Structural)]
pub enum WarmStage {
    Waiting,
    Sleeping,
    Flushing { reason: FlushReason },
    Stopped,
}

/// An action and the metric updates that come before it.
#[derive(Debug)]
pub struct WarmStep {
    pub updates: Vec<MetricUpdate>,
    pub action: WarmAction,
}

/// The state of the writer.
pub struct WriterView {
    /// The rows not yet written, the oldest first.
    pub buffered: Seq<StoredReading>,
    /// The pause before the next retry; 0 while all is well.
    pub backoff: int,
    pub stage: WarmStage,
}

/// What a step does.
pub struct WarmTransition {
    pub state: WriterView,
    pub updates: Seq<MetricUpdate>,
    pub action: WarmAction,
}

/// The pause after one more failure: twice the last one, within bounds.
pub open spec fn next_backoff(backoff: int) -> int {
    if backoff * 2 < MIN_BACKOFF_MS {
        MIN_BACKOFF_MS as int
    } else if backoff * 2 > MAX_BACKOFF_MS {
        MAX_BACKOFF_MS as int
    } else {
        backoff * 2
    }
}

/// How many rows are over the cap.
pub open spec fn excess(buffered: Seq<StoredReading>) -> int {
    if buffered.len() > MAX_BUFFERED {
        buffered.len() - MAX_BUFFERED
    } else {
        0
    }
}

/// The level of the buffer.
pub open spec fn level(buffered: Seq<StoredReading>) -> Seq<MetricUpdate> {
    seq![MetricUpdate::Level { gauge: Gauge::WarmBuffered, to: buffered.len() as i64 }]
}

/// The count of the rows over the cap, if there are any.
pub open spec fn shedding(buffered: Seq<StoredReading>) -> Seq<MetricUpdate> {
    if excess(buffered) > 0 {
        seq![MetricUpdate::Count { counter: Counter::WarmShedRows, by: excess(buffered) as u64 }]
    } else {
        seq![]
    }
}

impl WriterView {
    /// Whether the writer can be in this state. While all is well a full batch
    /// never waits, and an outage never takes the buffer over its cap.
    pub open spec fn possible(self) -> bool {
        &&& self.backoff == 0 || MIN_BACKOFF_MS <= self.backoff <= MAX_BACKOFF_MS
        &&& self.stage is Sleeping ==> self.backoff > 0
        &&& self.stage is Flushing ==> self.buffered.len() > 0
        &&& if self.stage == (WarmStage::Flushing { reason: FlushReason::Size }) {
            self.backoff == 0 && self.buffered.len() == MAX_BATCH_ROWS
        } else {
            &&& self.backoff == 0 ==> self.buffered.len() < MAX_BATCH_ROWS
            &&& self.buffered.len() <= MAX_BUFFERED
        }
    }

    /// Whether the event answers the action that the writer waits for.
    pub open spec fn expects(self, event: WarmEvent) -> bool {
        match self.stage {
            WarmStage::Waiting => event is Received || event is Closed || event is Tick,
            WarmStage::Sleeping => event is Slept,
            WarmStage::Flushing { .. } => event is Flushed || event is FlushFailed,
            WarmStage::Stopped => false,
        }
    }

    /// Back to waiting, with the oldest rows over the cap shed.
    pub open spec fn rest(self, updates: Seq<MetricUpdate>) -> WarmTransition {
        let kept = self.buffered.skip(excess(self.buffered));
        WarmTransition {
            state: WriterView { buffered: kept, stage: WarmStage::Waiting, ..self },
            updates: updates + shedding(self.buffered) + level(kept),
            action: WarmAction::Wait,
        }
    }

    pub open spec fn flush(self, reason: FlushReason) -> WarmTransition {
        WarmTransition {
            state: WriterView { stage: WarmStage::Flushing { reason }, ..self },
            updates: seq![],
            action: WarmAction::Flush { reason },
        }
    }

    pub open spec fn stop(self, updates: Seq<MetricUpdate>) -> WarmTransition {
        WarmTransition {
            state: WriterView { stage: WarmStage::Stopped, ..self },
            updates,
            action: WarmAction::Stop,
        }
    }

    /// The timer's flush, if there is anything to flush.
    pub open spec fn timed(self) -> WarmTransition {
        if self.buffered.len() > 0 {
            self.flush(FlushReason::Timer)
        } else {
            self.rest(seq![])
        }
    }

    /// Goes on after a flush, whatever came of it.
    pub open spec fn flushed(self, updates: Seq<MetricUpdate>) -> WarmTransition {
        if self.stage == (WarmStage::Flushing { reason: FlushReason::Shutdown }) {
            self.stop(updates)
        } else {
            self.rest(updates)
        }
    }

    /// The step that an event leads to.
    pub open spec fn after(self, event: WarmEvent) -> WarmTransition {
        match event {
            WarmEvent::Received { row } => {
                let fuller = WriterView { buffered: self.buffered.push(row), ..self };
                if fuller.buffered.len() >= MAX_BATCH_ROWS && self.backoff == 0 {
                    fuller.flush(FlushReason::Size)
                } else {
                    fuller.rest(seq![])
                }
            },
            WarmEvent::Closed => if self.buffered.len() > 0 {
                self.flush(FlushReason::Shutdown)
            } else {
                self.stop(seq![])
            },
            WarmEvent::Tick => if self.backoff > 0 {
                WarmTransition {
                    state: WriterView { stage: WarmStage::Sleeping, ..self },
                    updates: seq![],
                    action: WarmAction::Sleep { millis: self.backoff as u64 },
                }
            } else {
                self.timed()
            },
            WarmEvent::Slept => self.timed(),
            WarmEvent::Flushed { rows } => {
                let emptied = WriterView { buffered: seq![], backoff: 0, ..self };
                emptied.flushed(
                    seq![MetricUpdate::Count { counter: Counter::WarmFlushedRows, by: rows }],
                )
            },
            WarmEvent::FlushFailed => {
                let held = WriterView { backoff: next_backoff(self.backoff), ..self };
                held.flushed(
                    seq![MetricUpdate::Count { counter: Counter::WarmFlushFailures, by: 1 }],
                )
            },
        }
    }
}

/// The batch writer.
#[derive(Debug)]
pub struct WarmWriter {
    buffer: Vec<StoredReading>,
    backoff_ms: u64,
    stage: WarmStage,
}

impl View for WarmWriter {
    type V = WriterView;

    closed spec fn view(&self) -> WriterView {
        WriterView {
            buffered: self.buffer@,
            backoff: self.backoff_ms as int,
            stage: self.stage,
        }
    }
}

impl WarmWriter {
    /// A writer with an empty buffer.
    pub fn new() -> (r: WarmWriter)
        ensures
            r@ == (WriterView { buffered: seq![], backoff: 0, stage: WarmStage::Waiting }),
            r@.possible(),
    {
        WarmWriter { buffer: Vec::new(), backoff_ms: 0, stage: WarmStage::Waiting }
    }

    /// Takes the answer to the last action and gives the next one.
    pub fn advance(&mut self, event: WarmEvent) -> (r: WarmStep)
        requires
            old(self)@.possible(),
            old(self)@.expects(event),
        ensures
            final(self)@.possible(),
            final(self)@ == old(self)@.after(event).state,
            r.updates@ == old(self)@.after(event).updates,
            r.action == old(self)@.after(event).action,
    {
        match event {
            WarmEvent::Received { row } => {
                self.buffer.push(row);
                if self.buffer.len() >= MAX_BATCH_ROWS && self.backoff_ms == 0 {
                    self.flush(FlushReason::Size)
                } else {
                    self.rest(Vec::new())
                }
            },
            WarmEvent::Closed => if self.buffer.len() > 0 {
                self.flush(FlushReason::Shutdown)
            } else {
                self.stop(Vec::new())
            },
            WarmEvent::Tick => if self.backoff_ms > 0 {
                self.stage = WarmStage::Sleeping;
                WarmStep {
                    updates: Vec::new(),
                    action: WarmAction::Sleep { millis: self.backoff_ms },
                }
            } else {
                self.timed()
            },
            WarmEvent::Slept => self.timed(),
            WarmEvent::Flushed { rows } => {
                self.buffer = Vec::new();
                self.backoff_ms = 0;
                let mut updates: Vec<MetricUpdate> = Vec::new();
                updates.push(MetricUpdate::Count { counter: Counter::WarmFlushedRows, by: rows });
                self.flushed(updates)
            },
            WarmEvent::FlushFailed => {
                let doubled: u64 = self.backoff_ms * 2;
                self.backoff_ms = if doubled < MIN_BACKOFF_MS {
                    MIN_BACKOFF_MS
                } else if doubled > MAX_BACKOFF_MS {
                    MAX_BACKOFF_MS
                } else {
                    doubled
                };
                let mut updates: Vec<MetricUpdate> = Vec::new();
                updates.push(MetricUpdate::Count { counter: Counter::WarmFlushFailures, by: 1 });
                self.flushed(updates)
            },
        }
    }

    /// Sheds what is over the cap and goes back to waiting.
    fn rest(&mut self, before: Vec<MetricUpdate>) -> (r: WarmStep)
        requires
            old(self)@.buffered.len() <= MAX_BUFFERED + 1,
        ensures
            final(self)@ == old(self)@.rest(before@).state,
            r.updates@ == old(self)@.rest(before@).updates,
            r.action == WarmAction::Wait,
    {
        let mut updates: Vec<MetricUpdate> = before;
        if self.buffer.len() > MAX_BUFFERED {
            let shed: usize = self.buffer.len() - MAX_BUFFERED;
            self.buffer = self.buffer.split_off(shed);
            updates.push(MetricUpdate::Count { counter: Counter::WarmShedRows, by: shed as u64 });
        }
        updates.push(
            MetricUpdate::Level { gauge: Gauge::WarmBuffered, to: self.buffer.len() as i64 },
        );
        self.stage = WarmStage::Waiting;
        proof {
            assert(old(self)@.buffered.skip(0) =~= old(self)@.buffered);
            assert(updates@ =~= old(self)@.rest(before@).updates);
        }
        WarmStep { updates, action: WarmAction::Wait }
    }

    fn flush(&mut self, reason: FlushReason) -> (r: WarmStep)
        ensures
            final(self)@ == old(self)@.flush(reason).state,
            r.updates@ == old(self)@.flush(reason).updates,
            r.action == old(self)@.flush(reason).action,
    {
        self.stage = WarmStage::Flushing { reason };
        WarmStep { updates: Vec::new(), action: WarmAction::Flush { reason } }
    }

    fn stop(&mut self, updates: Vec<MetricUpdate>) -> (r: WarmStep)
        ensures
            final(self)@ == old(self)@.stop(updates@).state,
            r.updates@ == updates@,
            r.action == WarmAction::Stop,
    {
        self.stage = WarmStage::Stopped;
        WarmStep { updates, action: WarmAction::Stop }
    }

    fn timed(&mut self) -> (r: WarmStep)
        requires
            old(self)@.buffered.len() <= MAX_BUFFERED,
        ensures
            final(self)@ == old(self)@.timed().state,
            r.updates@ == old(self)@.timed().updates,
            r.action == old(self)@.timed().action,
    {
        if self.buffer.len() > 0 {
            self.flush(FlushReason::Timer)
        } else {
            self.rest(Vec::new())
        }
    }

    fn flushed(&mut self, updates: Vec<MetricUpdate>) -> (r: WarmStep)
        requires
            old(self)@.stage is Flushing,
            old(self)@.buffered.len() <= MAX_BUFFERED,
        ensures
            final(self)@ == old(self)@.flushed(updates@).state,
            r.updates@ == old(self)@.flushed(updates@).updates,
            r.action == old(self)@.flushed(updates@).action,
    {
        match self.stage {
            WarmStage::Flushing { reason: FlushReason::Shutdown } => self.stop(updates),
            _ => self.rest(updates),
        }
    }

    /// How many rows wait to be written.
    pub fn buffered(&self) -> (r: usize)
        ensures
            r == self@.buffered.len(),
    {
        self.buffer.len()
    }

    /// The bytes that a flush copies: the whole buffer.
    pub fn payload(&self) -> (r: Vec<u8>)
        ensures
            r@ == copy_bytes(self@.buffered),
    {
        encode_binary(&self.buffer)
    }
}

/// The writer's first state.
pub open spec fn idle(state: WriterView) -> bool {
    state == (WriterView { buffered: seq![], backoff: 0, stage: WarmStage::Waiting })
}

/// The state that a sequence of events leads to.
pub open spec fn writer_follow(start: WriterView, events: Seq<WarmEvent>) -> WriterView
    decreases events.len(),
{
    if events.len() == 0 {
        start
    } else {
        writer_follow(start, events.drop_last()).after(events.last()).state
    }
}

/// Whether each event answers the action before it.
pub open spec fn writer_legal(start: WriterView, events: Seq<WarmEvent>) -> bool
    decreases events.len(),
{
    events.len() > 0 ==> {
        &&& writer_legal(start, events.drop_last())
        &&& writer_follow(start, events.drop_last()).expects(events.last())
    }
}

/// The rows that came in, in order.
pub open spec fn received(events: Seq<WarmEvent>) -> Seq<StoredReading>
    decreases events.len(),
{
    if events.len() == 0 {
        seq![]
    } else {
        match events.last() {
            WarmEvent::Received { row } => received(events.drop_last()).push(row),
            _ => received(events.drop_last()),
        }
    }
}

/// The rows that one event makes leave the buffer unwritten.
pub open spec fn shed_by(state: WriterView, event: WarmEvent) -> Seq<StoredReading> {
    match event {
        WarmEvent::Received { row } => {
            let fuller = state.buffered.push(row);
            if fuller.len() >= MAX_BATCH_ROWS && state.backoff == 0 {
                seq![]
            } else {
                fuller.take(excess(fuller))
            }
        },
        _ => seq![],
    }
}

/// The rows that left the buffer, in order: those that a successful flush
/// wrote, and those that were shed.
pub open spec fn departed(start: WriterView, events: Seq<WarmEvent>) -> Seq<StoredReading>
    decreases events.len(),
{
    if events.len() == 0 {
        seq![]
    } else {
        let state = writer_follow(start, events.drop_last());
        departed(start, events.drop_last()) + if events.last() is Flushed {
            state.buffered
        } else {
            shed_by(state, events.last())
        }
    }
}

/// How many rows were shed.
pub open spec fn shed_count(start: WriterView, events: Seq<WarmEvent>) -> nat
    decreases events.len(),
{
    if events.len() == 0 {
        0
    } else {
        shed_count(start, events.drop_last()) + shed_by(
            writer_follow(start, events.drop_last()),
            events.last(),
        ).len()
    }
}

/// All metric updates, in order.
pub open spec fn writer_reported(start: WriterView, events: Seq<WarmEvent>) -> Seq<MetricUpdate>
    decreases events.len(),
{
    if events.len() == 0 {
        seq![]
    } else {
        writer_reported(start, events.drop_last()) + writer_follow(start, events.drop_last()).after(
            events.last(),
        ).updates
    }
}

/// Every state that the writer gets into is a possible one: its buffer is
/// bounded, and its pauses are.
pub proof fn law_writer_stays_bounded(start: WriterView, events: Seq<WarmEvent>)
    requires
        idle(start),
        writer_legal(start, events),
    ensures
        writer_follow(start, events).possible(),
        writer_follow(start, events).buffered.len() <= MAX_BUFFERED,
    decreases events.len(),
{
    if events.len() > 0 {
        law_writer_stays_bounded(start, events.drop_last());
    }
}

/// Rows leave in the order in which they came, each written or shed, and all
/// others are still buffered: no failure loses a row.
pub proof fn law_rows_leave_in_order(start: WriterView, events: Seq<WarmEvent>)
    requires
        idle(start),
        writer_legal(start, events),
    ensures
        departed(start, events) + writer_follow(start, events).buffered == received(events),
    decreases events.len(),
{
    if events.len() > 0 {
        let earlier = events.drop_last();
        law_rows_leave_in_order(start, earlier);
        law_writer_stays_bounded(start, earlier);
        assert(departed(start, events) + writer_follow(start, events).buffered =~= received(
            events,
        ));
    } else {
        assert(departed(start, events) + start.buffered =~= received(events));
    }
}

/// Rows are shed only in an outage, the oldest ones, and only above the cap.
pub proof fn law_shedding_needs_an_outage(state: WriterView, event: WarmEvent)
    requires
        state.possible(),
        state.expects(event),
        shed_by(state, event).len() > 0,
    ensures
        state.backoff > 0,
        state.buffered.len() == MAX_BUFFERED,
        shed_by(state, event) == seq![state.buffered[0]],
{
}

/// What is shed is counted.
pub proof fn law_shed_rows_are_counted(start: WriterView, events: Seq<WarmEvent>)
    requires
        idle(start),
        writer_legal(start, events),
    ensures
        added(writer_reported(start, events), Counter::WarmShedRows) == shed_count(start, events),
    decreases events.len(),
{
    if events.len() > 0 {
        let earlier = events.drop_last();
        law_shed_rows_are_counted(start, earlier);
        law_writer_stays_bounded(start, earlier);
        let state = writer_follow(start, earlier);
        lemma_shed_step(state, events.last());
        law_updates_add_up(
            writer_reported(start, earlier),
            state.after(events.last()).updates,
            Counter::WarmShedRows,
        );
    }
}

proof fn lemma_shed_step(state: WriterView, event: WarmEvent)
    requires
        state.possible(),
        state.expects(event),
    ensures
        added(state.after(event).updates, Counter::WarmShedRows) == shed_by(state, event).len(),
{
    reveal_with_fuel(added, 4);
    let updates = state.after(event).updates;
    if updates.len() == 2 {
        assert(updates.drop_last().drop_last() =~= seq![]);
    }
}

/// A failure keeps every row, and the pause before the retry at least a quarter
/// of a second and at most five.
pub proof fn law_failure_keeps_the_rows(state: WriterView)
    requires
        state.possible(),
        state.stage is Flushing,
    ensures
        state.after(WarmEvent::FlushFailed).state.buffered == state.buffered,
        MIN_BACKOFF_MS <= state.after(WarmEvent::FlushFailed).state.backoff <= MAX_BACKOFF_MS,
        state.backoff <= state.after(WarmEvent::FlushFailed).state.backoff,
{
    assert(state.buffered.skip(0) =~= state.buffered);
}

/// A closed channel is drained: what is buffered is flushed, and then the writer
/// stops, whatever came of it.
pub proof fn law_shutdown_drains(state: WriterView, outcome: WarmEvent)
    requires
        state.possible(),
        state.stage == WarmStage::Waiting,
        state.buffered.len() > 0,
        outcome is Flushed || outcome is FlushFailed,
    ensures
        ({
            let draining = state.after(WarmEvent::Closed);
            &&& draining.action == WarmAction::Flush { reason: FlushReason::Shutdown }
            &&& draining.state.buffered == state.buffered
            &&& draining.state.after(outcome).action == WarmAction::Stop
        }),
{
}

} // verus!
