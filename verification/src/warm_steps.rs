//! What the warm lane does with each thing that can happen, one thing at a time.

use crate::metrics::{Counter, Gauge, MetricUpdate};
use crate::warm::{FlushReason, StoredReading, WarmAction, WarmEvent, WarmStage, WriterView};
use vstd::prelude::*;

verus! {

/// The level of the buffer, as the last update says it.
pub open spec fn says_level(updates: Seq<MetricUpdate>, rows: int) -> bool {
    updates.len() > 0 && updates.last() == (MetricUpdate::Level {
        gauge: Gauge::WarmBuffered,
        to: rows as i64,
    })
}

/// The timer flushes what there is: a healthy writer's tick gives a flush of the
/// whole buffer wherever a row is buffered, and nothing but the level where none is.
pub proof fn law_a_tick_flushes_what_there_is(state: WriterView)
    requires
        state.stage == WarmStage::Waiting,
        state.backoff == 0,
    ensures
        ({
            let step = state.after(WarmEvent::Tick);
            &&& step.state.backoff == 0
            &&& step.action == (WarmAction::Flush { reason: FlushReason::Timer })
                <==> state.buffered.len() > 0
            &&& step.action == WarmAction::Wait <==> state.buffered.len() == 0
            &&& state.buffered.len() > 0 ==> {
                &&& step.state.buffered == state.buffered
                &&& step.state.stage == (WarmStage::Flushing { reason: FlushReason::Timer })
                &&& step.updates.len() == 0
            }
            &&& state.buffered.len() == 0 ==> {
                &&& step.state == state
                &&& step.updates.len() == 1
                &&& says_level(step.updates, 0)
            }
        }),
{
    assert(state.buffered.skip(0) =~= state.buffered);
    assert(state.buffered.len() == 0 ==> state.buffered =~= seq![]);
}

/// A retry waits for its pause and is made: in an outage a tick pauses for exactly
/// the backoff, and after it the whole buffer is flushed.
pub proof fn law_a_retry_is_made_after_its_pause(state: WriterView)
    requires
        state.stage == WarmStage::Waiting,
        0 < state.backoff <= u64::MAX,
        state.buffered.len() > 0,
    ensures
        ({
            let pause = state.after(WarmEvent::Tick);
            let retry = pause.state.after(WarmEvent::Slept);
            &&& pause.action == (WarmAction::Sleep { millis: state.backoff as u64 })
            &&& pause.state.stage == WarmStage::Sleeping
            &&& pause.state.buffered == state.buffered
            &&& pause.state.backoff == state.backoff
            &&& pause.updates.len() == 0
            &&& retry.action == (WarmAction::Flush { reason: FlushReason::Timer })
            &&& retry.state.stage == (WarmStage::Flushing { reason: FlushReason::Timer })
            &&& retry.state.buffered == state.buffered
            &&& retry.state.backoff == state.backoff
            &&& retry.updates.len() == 0
        }),
{
}

/// A pause over an empty buffer leads back to waiting, and the backoff stays.
pub proof fn law_a_pause_without_rows_changes_nothing(state: WriterView)
    requires
        state.stage == WarmStage::Waiting,
        0 < state.backoff <= u64::MAX,
        state.buffered.len() == 0,
    ensures
        ({
            let pause = state.after(WarmEvent::Tick);
            let end = pause.state.after(WarmEvent::Slept);
            &&& pause.action == (WarmAction::Sleep { millis: state.backoff as u64 })
            &&& pause.updates.len() == 0
            &&& end.action == WarmAction::Wait
            &&& end.state == state
            &&& end.updates.len() == 1
            &&& says_level(end.updates, 0)
        }),
{
    assert(state.buffered.skip(0) =~= state.buffered);
}

/// A row that comes in is the newest of the buffer. A healthy writer flushes from a
/// thousand rows on; otherwise it waits, with the newest five thousand rows at most,
/// and the rows that do not fit, the oldest, are counted.
pub proof fn law_a_row_is_buffered_last(state: WriterView, row: StoredReading)
    requires
        state.stage == WarmStage::Waiting,
        state.buffered.len() < 0x7fff_ffff,
    ensures
        ({
            let step = state.after(WarmEvent::Received { row });
            let rows = state.buffered.len() + 1;
            let lost = rows - step.state.buffered.len();
            &&& step.state.buffered.len() > 0
            &&& step.state.buffered.last() == row
            &&& step.state.backoff == state.backoff
            &&& forall|i: int|
                0 <= i < step.state.buffered.len() - 1 ==> #[trigger] step.state.buffered[i]
                    == state.buffered[i + lost]
            &&& step.action == (WarmAction::Flush { reason: FlushReason::Size }) <==> rows >= 1_000
                && state.backoff == 0
            &&& step.action == WarmAction::Wait <==> rows < 1_000 || state.backoff != 0
            &&& step.action is Flush ==> {
                &&& lost == 0
                &&& step.state.stage == (WarmStage::Flushing { reason: FlushReason::Size })
                &&& step.updates.len() == 0
            }
            &&& step.action == WarmAction::Wait ==> {
                &&& step.state.stage == WarmStage::Waiting
                &&& lost == if rows > 5_000 {
                    rows - 5_000
                } else {
                    0
                }
                &&& says_level(step.updates, step.state.buffered.len() as int)
                &&& step.updates.len() == if lost > 0 {
                    2nat
                } else {
                    1nat
                }
                &&& lost > 0 ==> step.updates[0] == (MetricUpdate::Count {
                    counter: Counter::WarmShedRows,
                    by: lost as u64,
                })
            }
        }),
{
}

/// A flush that worked empties the buffer and ends the outage; its rows are counted.
pub proof fn law_a_flush_empties_the_buffer(state: WriterView, reason: FlushReason, rows: u64)
    requires
        state.stage == (WarmStage::Flushing { reason }),
    ensures
        ({
            let step = state.after(WarmEvent::Flushed { rows });
            &&& step.state.buffered.len() == 0
            &&& step.state.backoff == 0
            &&& step.updates[0] == (MetricUpdate::Count {
                counter: Counter::WarmFlushedRows,
                by: rows,
            })
            &&& reason == FlushReason::Shutdown ==> {
                &&& step.action == WarmAction::Stop
                &&& step.state.stage == WarmStage::Stopped
                &&& step.updates.len() == 1
            }
            &&& reason != FlushReason::Shutdown ==> {
                &&& step.action == WarmAction::Wait
                &&& step.state.stage == WarmStage::Waiting
                &&& step.updates.len() == 2
                &&& says_level(step.updates, 0)
            }
        }),
{
}

/// A flush that failed keeps every row and is counted. The pause before the next try
/// is a quarter of a second after the first failure, doubles with each more, and
/// stays at five seconds once there.
pub proof fn law_a_failed_flush_backs_off(state: WriterView, reason: FlushReason)
    requires
        state.stage == (WarmStage::Flushing { reason }),
        state.buffered.len() <= 5_000,
        state.backoff == 0 || 250 <= state.backoff <= 5_000,
    ensures
        ({
            let step = state.after(WarmEvent::FlushFailed);
            &&& step.state.buffered == state.buffered
            &&& state.backoff == 0 ==> step.state.backoff == 250
            &&& 0 < state.backoff <= 2_500 ==> step.state.backoff == 2 * state.backoff
            &&& state.backoff > 2_500 ==> step.state.backoff == 5_000
            &&& step.updates[0] == (MetricUpdate::Count {
                counter: Counter::WarmFlushFailures,
                by: 1,
            })
            &&& reason == FlushReason::Shutdown ==> {
                &&& step.action == WarmAction::Stop
                &&& step.state.stage == WarmStage::Stopped
                &&& step.updates.len() == 1
            }
            &&& reason != FlushReason::Shutdown ==> {
                &&& step.action == WarmAction::Wait
                &&& step.state.stage == WarmStage::Waiting
                &&& step.updates.len() == 2
                &&& says_level(step.updates, state.buffered.len() as int)
            }
        }),
{
    assert(state.buffered.skip(0) =~= state.buffered);
}

/// A closed channel flushes what is buffered for the last time, and stops at once
/// where nothing is.
pub proof fn law_a_closed_channel_flushes_once_more(state: WriterView)
    requires
        state.stage == WarmStage::Waiting,
    ensures
        ({
            let step = state.after(WarmEvent::Closed);
            &&& step.state.buffered == state.buffered
            &&& step.state.backoff == state.backoff
            &&& step.updates.len() == 0
            &&& step.action == (WarmAction::Flush { reason: FlushReason::Shutdown })
                <==> state.buffered.len() > 0
            &&& step.action == WarmAction::Stop <==> state.buffered.len() == 0
            &&& step.state.stage == if state.buffered.len() > 0 {
                WarmStage::Flushing { reason: FlushReason::Shutdown }
            } else {
                WarmStage::Stopped
            }
        }),
{
}

/// Each thing that can happen is an answer to what the writer last asked for, and to
/// nothing else.
pub proof fn law_events_answer_the_writer(state: WriterView, event: WarmEvent)
    ensures
        state.expects(event) <==> match event {
            WarmEvent::Received { .. } => state.stage == WarmStage::Waiting,
            WarmEvent::Closed => state.stage == WarmStage::Waiting,
            WarmEvent::Tick => state.stage == WarmStage::Waiting,
            WarmEvent::Slept => state.stage == WarmStage::Sleeping,
            WarmEvent::Flushed { .. } => state.stage is Flushing,
            WarmEvent::FlushFailed => state.stage is Flushing,
        },
{
}

} // verus!
