//! What the hot lane does with each thing that can happen, one thing at a time, and
//! with a whole replay.

use crate::hot::{
    append_words, publish_words, HotAction, HotEvent, HotStage, HotView, Link, SpoolRead,
};
use crate::metrics::{Counter, Gauge, MetricUpdate};
use crate::spool::lines_in;
use crate::text::decimal_digits;
use vstd::prelude::*;

verus! {

/// What is left of a state once an event did not concern it.
pub open spec fn untouched(before: HotView, after: HotView) -> bool {
    &&& after.link == before.link
    &&& after.payload == before.payload
    &&& after.lines == before.lines
    &&& after.replayed == before.replayed
}

/// A violation that comes in is taken as it is, and goes to the stream where there
/// is one and to the spool where there is none.
pub proof fn law_an_arrival_goes_where_the_link_says(state: HotView, payload: String)
    requires
        state.stage == HotStage::Waiting,
    ensures
        ({
            let step = state.after(HotEvent::Arrived { payload });
            &&& step.state.in_hand() == payload@
            &&& step.state.payload == payload@
            &&& step.state.link == state.link
            &&& step.state.lines == state.lines
            &&& step.state.replayed == state.replayed
            &&& step.updates.len() == 0
            &&& step.action == HotAction::Append <==> state.link == Link::Up
            &&& step.action == HotAction::Spill <==> state.link != Link::Up
            &&& step.state.stage == if state.link == Link::Up {
                HotStage::Appending { replay: false }
            } else {
                HotStage::Spilling
            }
        }),
{
}

/// What is appended is published next; nothing else changes and nothing is counted
/// yet.
pub proof fn law_an_append_is_followed_by_its_publication(state: HotView, replay: bool)
    requires
        state.stage == (HotStage::Appending { replay }),
    ensures
        ({
            let step = state.after(HotEvent::Appended { ok: true });
            &&& step.action == HotAction::Publish
            &&& step.state.stage == (HotStage::Publishing { replay })
            &&& step.state.in_hand() == state.in_hand()
            &&& untouched(state, step.state)
            &&& step.updates.len() == 0
        }),
{
}

/// A live violation that cannot be appended is spilled at once, and the stream
/// counts as away.
pub proof fn law_a_failed_append_is_spilled(state: HotView)
    requires
        state.stage == (HotStage::Appending { replay: false }),
    ensures
        ({
            let step = state.after(HotEvent::Appended { ok: false });
            &&& step.action == HotAction::Spill
            &&& step.state.stage == HotStage::Spilling
            &&& step.state.in_hand() == state.payload
            &&& step.state.link == Link::Down
            &&& step.updates.len() == 1
            &&& step.updates[0] == (MetricUpdate::Level { gauge: Gauge::HotRedisUp, to: 0 })
        }),
{
}

/// A replay that fails is cut short where it failed: the line that failed and all
/// after it are what is left.
pub proof fn law_a_failed_replay_keeps_its_rest(state: HotView)
    requires
        state.stage == (HotStage::Appending { replay: true }),
    ensures
        ({
            let step = state.after(HotEvent::Appended { ok: false });
            let end = step.state.after(HotEvent::Rewritten);
            &&& step.action == HotAction::RewriteSpool
            &&& step.state.stage == HotStage::Rewriting
            &&& untouched(state, step.state)
            &&& step.updates.len() == 0
            &&& end.action == HotAction::Wait { probe: state.link == Link::Down }
            &&& end.state.stage == HotStage::Waiting
            &&& end.state.link == state.link
            &&& end.state.lines.len() == 0
            &&& end.updates.len() == 1
            &&& end.updates[0] == (MetricUpdate::Count {
                counter: Counter::HotReplayed,
                by: state.replayed as u64,
            })
        }),
{
}

/// A live violation that is published is counted as sent, and the lane waits for the
/// next.
pub proof fn law_a_publication_ends_a_live_violation(state: HotView)
    requires
        state.stage == (HotStage::Publishing { replay: false }),
        state.link == Link::Up,
    ensures
        ({
            let step = state.after(HotEvent::Published);
            &&& step.action == HotAction::Wait { probe: false }
            &&& step.state.stage == HotStage::Waiting
            &&& step.state.link == Link::Up
            &&& step.updates.len() == 2
            &&& step.updates[0] == (MetricUpdate::Count { counter: Counter::HotSent, by: 1 })
            &&& step.updates[1] == (MetricUpdate::Level { gauge: Gauge::HotRedisUp, to: 1 })
        }),
{
}

/// A violation that is spilled is counted once, as spilled or as lost, and the lane
/// waits for the next; with a stream to come back, for that too.
pub proof fn law_a_spill_ends_a_violation(state: HotView, ok: bool)
    requires
        state.stage == HotStage::Spilling,
        state.link != Link::Up,
    ensures
        ({
            let step = state.after(HotEvent::Spilled { ok });
            let counter = if ok {
                Counter::HotSpilled
            } else {
                Counter::HotLost
            };
            &&& step.action == HotAction::Wait { probe: state.link == Link::Down }
            &&& step.state.stage == HotStage::Waiting
            &&& step.state.link == state.link
            &&& step.updates.len() == if state.link == Link::Down {
                2nat
            } else {
                1nat
            }
            &&& step.updates[0] == (MetricUpdate::Count { counter, by: 1 })
            &&& state.link == Link::Down ==> step.updates[1] == (MetricUpdate::Level {
                gauge: Gauge::HotRedisUp,
                to: 0,
            })
        }),
{
}

/// A probe tries to connect. Where that fails nothing changes; where it works the
/// spool is read before anything else.
pub proof fn law_a_probe_connects_and_reads_the_spool(state: HotView)
    requires
        state.stage == HotStage::Waiting,
        state.link == Link::Down,
        state.lines.len() == 0,
        state.replayed == 0,
    ensures
        ({
            let step = state.after(HotEvent::Probe);
            let failed = step.state.after(HotEvent::Connected { ok: false });
            let worked = step.state.after(HotEvent::Connected { ok: true });
            &&& step.action == HotAction::Connect
            &&& untouched(state, step.state)
            &&& step.updates.len() == 0
            &&& failed.action == HotAction::Wait { probe: true }
            &&& failed.state == state
            &&& failed.updates.len() == 0
            &&& worked.action == HotAction::ReadSpool
            &&& worked.state.stage == HotStage::Reading
            &&& untouched(state, worked.state)
            &&& worked.updates.len() == 0
        }),
{
    assert(state.lines =~= seq![]);
}

/// An absent spool needs no replay: the stream is back at once.
pub proof fn law_an_absent_spool_brings_the_stream_back(state: HotView)
    requires
        state.stage == HotStage::Reading,
    ensures
        ({
            let step = state.after(HotEvent::Read { outcome: SpoolRead::Absent });
            &&& step.action == HotAction::Wait { probe: false }
            &&& step.state.stage == HotStage::Waiting
            &&& step.state.link == Link::Up
            &&& step.updates.len() == 1
            &&& step.updates[0] == (MetricUpdate::Level { gauge: Gauge::HotRedisUp, to: 1 })
        }),
{
}

/// A closed channel stops the lane, and nothing is sent, spilled or counted for it.
pub proof fn law_a_closed_channel_stops_the_lane(state: HotView)
    requires
        state.stage == HotStage::Waiting,
    ensures
        state.after(HotEvent::Closed).action == HotAction::Stop,
        state.after(HotEvent::Closed).state.stage == HotStage::Stopped,
        state.after(HotEvent::Closed).updates.len() == 0,
{
}

/// The state in the middle of a replay, with so many lines done.
pub open spec fn replay_at(state: HotView, done: int) -> HotView
    decreases done,
{
    if done <= 0 {
        state
    } else {
        replay_at(state, done - 1).after(HotEvent::Appended { ok: true }).state.after(
            HotEvent::Published,
        ).state
    }
}

/// A replay drains the spool. Where every append works, each line of the spool is
/// appended and published, in order and once, whatever their number; only then the
/// spool is removed, and with that the stream is back. All lines are counted, at the
/// end.
pub proof fn law_a_replay_drains_the_spool(state: HotView, content: String, done: int)
    requires
        state.stage == HotStage::Reading,
        state.link == Link::Down,
        0 <= done <= lines_in(content@).len(),
    ensures
        ({
            let lines = lines_in(content@);
            let read = state.after(HotEvent::Read { outcome: SpoolRead::Text { content } });
            let here = replay_at(read.state, done);
            let appended = here.after(HotEvent::Appended { ok: true });
            let published = appended.state.after(HotEvent::Published);
            let removed = here.after(HotEvent::Removed);
            &&& read.action == if lines.len() == 0 {
                HotAction::RemoveSpool
            } else {
                HotAction::Append
            }
            &&& read.updates.len() == 0
            &&& here.link == Link::Down
            &&& here.lines == lines
            &&& here.replayed == done
            &&& done < lines.len() ==> {
                &&& here.stage == (HotStage::Appending { replay: true })
                &&& here.in_hand() == lines[done]
                &&& appended.action == HotAction::Publish
                &&& appended.updates.len() == 0
                &&& appended.state.in_hand() == lines[done]
                &&& published.action == if done + 1 < lines.len() {
                    HotAction::Append
                } else {
                    HotAction::RemoveSpool
                }
                &&& published.updates.len() == if done + 1 < lines.len() {
                    0nat
                } else {
                    1nat
                }
                &&& done + 1 == lines.len() ==> published.updates[0] == (MetricUpdate::Count {
                    counter: Counter::HotReplayed,
                    by: lines.len() as u64,
                })
            }
            &&& done == lines.len() ==> {
                &&& here.stage == HotStage::Removing
                &&& removed.action == HotAction::Wait { probe: false }
                &&& removed.state.stage == HotStage::Waiting
                &&& removed.state.link == Link::Up
                &&& removed.updates.len() == 1
                &&& removed.updates[0] == (MetricUpdate::Level {
                    gauge: Gauge::HotRedisUp,
                    to: 1,
                })
            }
        }),
    decreases done,
{
    if done > 0 {
        law_a_replay_drains_the_spool(state, content, done - 1);
    }
}

/// Nothing happens without its reason: each action comes only in answer to what
/// calls for it.
pub proof fn law_every_action_has_its_reason(state: HotView, event: HotEvent)
    requires
        state.expects(event),
    ensures
        ({
            let action = state.after(event).action;
            &&& action == HotAction::RewriteSpool <==> event == (HotEvent::Appended { ok: false })
                && state.stage == (HotStage::Appending { replay: true })
            &&& action == HotAction::Spill <==> (event is Arrived && state.link != Link::Up) || (
            event == (HotEvent::Appended { ok: false }) && state.stage == (HotStage::Appending {
                replay: false,
            }))
            &&& action == HotAction::Publish <==> event == (HotEvent::Appended { ok: true })
            &&& action == HotAction::Connect <==> event is Probe
            &&& action == HotAction::ReadSpool <==> event == (HotEvent::Connected { ok: true })
            &&& action == HotAction::Stop <==> event is Closed
            &&& action == HotAction::RemoveSpool ==> event is Published || event is Read
            &&& action == HotAction::Append ==> event is Arrived || event is Published || event
                is Read
        }),
{
}

/// The stream counts as back only where the spool is absent or removed, and as away
/// only where a live append failed.
pub proof fn law_the_link_changes_for_a_reason(state: HotView, event: HotEvent)
    requires
        state.expects(event),
        state.after(event).state.link != state.link,
    ensures
        state.after(event).state.link == Link::Up <==> event is Removed || event == (
        HotEvent::Read { outcome: SpoolRead::Absent }),
        state.after(event).state.link == Link::Down <==> event == (HotEvent::Appended {
            ok: false,
        }) && state.stage == (HotStage::Appending { replay: false }),
        state.after(event).state.link != Link::SpillOnly,
{
}

/// Each thing that can happen is an answer to what the lane last asked for, and to
/// nothing else.
pub proof fn law_events_answer_the_stage(state: HotView, event: HotEvent)
    ensures
        state.expects(event) <==> match event {
            HotEvent::Arrived { .. } => state.stage == HotStage::Waiting,
            HotEvent::Closed => state.stage == HotStage::Waiting,
            HotEvent::Probe => state.stage == HotStage::Waiting && state.link == Link::Down,
            HotEvent::Connected { .. } => state.stage == HotStage::Connecting,
            HotEvent::Read { .. } => state.stage == HotStage::Reading,
            HotEvent::Appended { .. } => state.stage is Appending,
            HotEvent::Published => state.stage is Publishing,
            HotEvent::Spilled { .. } => state.stage == HotStage::Spilling,
            HotEvent::Rewritten => state.stage == HotStage::Rewriting,
            HotEvent::Removed => state.stage == HotStage::Removing,
        },
{
}

/// A violation travels unaltered: it is the last word of both commands, once.
pub proof fn law_commands_carry_the_payload(payload: Seq<char>)
    ensures
        append_words(payload).len() == 8,
        append_words(payload)[0] == "XADD"@,
        append_words(payload)[1] == "hazshield:violations"@,
        append_words(payload)[2] == "MAXLEN"@,
        append_words(payload)[3] == "~"@,
        append_words(payload)[4] == "100000"@,
        append_words(payload)[5] == "*"@,
        append_words(payload)[6] == "v"@,
        append_words(payload)[7] == payload,
        publish_words(payload).len() == 3,
        publish_words(payload)[0] == "PUBLISH"@,
        publish_words(payload)[1] == "hazshield:violations:live"@,
        publish_words(payload)[2] == payload,
{
    reveal_strlit("100000");
    reveal_with_fuel(decimal_digits, 7);
    assert(decimal_digits(100_000) =~= "100000"@);
}

} // verus!
