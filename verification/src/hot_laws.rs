//! What holds of the hot lane, whatever the stream and the spool do.

use crate::hot::{HotAction, HotEvent, HotStage, HotView, Link, SpoolRead};
use crate::metrics::{added, law_updates_add_up, Counter, MetricUpdate};
use crate::spool::{clean, law_spilled_lines_read_back, lines_in, spill_text};
use vstd::prelude::*;

verus! {

/// A dispatcher before its first event.
pub open spec fn unconnected(state: HotView) -> bool {
    &&& state.stage == HotStage::Waiting
    &&& state.link != Link::Up
    &&& state.lines == Seq::<Seq<char>>::empty()
    &&& state.replayed == 0
}

/// The state that a sequence of events leads to.
pub open spec fn hot_follow(start: HotView, events: Seq<HotEvent>) -> HotView
    decreases events.len(),
{
    if events.len() == 0 {
        start
    } else {
        hot_follow(start, events.drop_last()).after(events.last()).state
    }
}

/// Whether each event answers the action before it.
pub open spec fn hot_legal(start: HotView, events: Seq<HotEvent>) -> bool
    decreases events.len(),
{
    events.len() > 0 ==> {
        &&& hot_legal(start, events.drop_last())
        &&& hot_follow(start, events.drop_last()).expects(events.last())
    }
}

/// All metric updates, in order.
pub open spec fn hot_reported(start: HotView, events: Seq<HotEvent>) -> Seq<MetricUpdate>
    decreases events.len(),
{
    if events.len() == 0 {
        seq![]
    } else {
        hot_reported(start, events.drop_last()) + hot_follow(start, events.drop_last()).after(
            events.last(),
        ).updates
    }
}

/// The stream after one event.
pub open spec fn stream_after(
    stream: Seq<Seq<char>>,
    state: HotView,
    event: HotEvent,
) -> Seq<Seq<char>> {
    if event == (HotEvent::Appended { ok: true }) {
        stream.push(state.in_hand())
    } else {
        stream
    }
}

/// The lines of the spool after one event.
pub open spec fn spool_after(
    spool: Seq<Seq<char>>,
    state: HotView,
    event: HotEvent,
) -> Seq<Seq<char>> {
    match event {
        HotEvent::Spilled { ok: true } => spool.push(state.in_hand()),
        HotEvent::Rewritten => state.lines.skip(state.replayed),
        HotEvent::Removed => seq![],
        _ => spool,
    }
}

/// The violations that came in and were not lost, after one event.
pub open spec fn survivors_after(before: Seq<Seq<char>>, event: HotEvent) -> Seq<Seq<char>> {
    match event {
        HotEvent::Arrived { payload } => before.push(payload@),
        HotEvent::Spilled { ok: false } => before.drop_last(),
        _ => before,
    }
}

/// The violations appended to the stream, in order. An append that is reported
/// as failed counts as not made; where it was made after all, the violation is
/// in the stream once more.
pub open spec fn streamed(start: HotView, events: Seq<HotEvent>) -> Seq<Seq<char>>
    decreases events.len(),
{
    if events.len() == 0 {
        seq![]
    } else {
        stream_after(
            streamed(start, events.drop_last()),
            hot_follow(start, events.drop_last()),
            events.last(),
        )
    }
}

/// The lines of the spool, given those that it had at first.
/// A rewrite or a removal counts as made; where it was not, the spool still holds
/// what was sent, and it is sent once more. A spill that is reported as failed
/// counts as having left nothing behind; where it left a part of its line, the next
/// spill continues that line, and [`spool_keeps`] no longer holds.
pub open spec fn spooled(
    at_first: Seq<Seq<char>>,
    start: HotView,
    events: Seq<HotEvent>,
) -> Seq<Seq<char>>
    decreases events.len(),
{
    if events.len() == 0 {
        at_first
    } else {
        spool_after(
            spooled(at_first, start, events.drop_last()),
            hot_follow(start, events.drop_last()),
            events.last(),
        )
    }
}

/// Whether the spool, where it is read, gives back what was written to it, and
/// held nothing where it is absent. Reads may fail at any time.
pub open spec fn spool_keeps(
    at_first: Seq<Seq<char>>,
    start: HotView,
    events: Seq<HotEvent>,
) -> bool
    decreases events.len(),
{
    events.len() > 0 ==> {
        let before = spooled(at_first, start, events.drop_last());
        &&& spool_keeps(at_first, start, events.drop_last())
        &&& match events.last() {
            HotEvent::Read { outcome: SpoolRead::Text { content } } => content@ == spill_text(
                before,
            ),
            HotEvent::Read { outcome: SpoolRead::Absent } => before.len() == 0,
            _ => true,
        }
    }
}

/// The violations that came in and were not lost, in order.
pub open spec fn survivors(events: Seq<HotEvent>) -> Seq<Seq<char>>
    decreases events.len(),
{
    if events.len() == 0 {
        seq![]
    } else {
        survivors_after(survivors(events.drop_last()), events.last())
    }
}

/// Whether every violation that came in is one clean line.
pub open spec fn all_clean(events: Seq<HotEvent>) -> bool {
    forall|i: int|
        0 <= i < events.len() ==> (#[trigger] events[i] matches HotEvent::Arrived { payload }
            ==> clean(payload@))
}

/// The violation that came in last, while it is neither streamed nor spilled.
pub open spec fn undecided(state: HotView) -> Seq<Seq<char>> {
    if state.stage == (HotStage::Appending { replay: false }) || state.stage
        == HotStage::Spilling {
        seq![state.payload]
    } else {
        seq![]
    }
}

/// Whether the dispatcher is in the middle of a replay.
pub open spec fn replaying(state: HotView) -> bool {
    ||| state.stage == (HotStage::Appending { replay: true })
    ||| state.stage == (HotStage::Publishing { replay: true })
    ||| state.stage == HotStage::Rewriting
    ||| state.stage == HotStage::Removing
}

/// How many lines of the replay are in the stream.
pub open spec fn replay_streamed(state: HotView) -> int {
    if state.stage == (HotStage::Publishing { replay: true }) {
        state.replayed + 1
    } else {
        state.replayed
    }
}

/// What of the spool is not in the stream yet.
pub open spec fn waiting_to_replay(state: HotView, spool: Seq<Seq<char>>) -> Seq<Seq<char>> {
    if replaying(state) {
        state.lines.skip(replay_streamed(state))
    } else {
        spool
    }
}

/// What holds of the stream and the spool after every event: put one after the
/// other, with the violation in hand, they are `total`.
spec fn balanced(
    state: HotView,
    spool: Seq<Seq<char>>,
    stream: Seq<Seq<char>>,
    total: Seq<Seq<char>>,
) -> bool {
    &&& state.possible()
    &&& state.link == Link::Up ==> spool.len() == 0
    &&& replaying(state) ==> spool == state.lines
    &&& forall|i: int| 0 <= i < spool.len() ==> clean(#[trigger] spool[i])
    &&& undecided(state).len() > 0 ==> clean(state.payload)
    &&& stream + waiting_to_replay(state, spool) + undecided(state) == total
}

proof fn lemma_balanced_step(
    state: HotView,
    spool: Seq<Seq<char>>,
    stream: Seq<Seq<char>>,
    total: Seq<Seq<char>>,
    event: HotEvent,
)
    requires
        balanced(state, spool, stream, total),
        state.expects(event),
        event matches HotEvent::Arrived { payload } ==> clean(payload@),
        event matches HotEvent::Read { outcome: SpoolRead::Text { content } } ==> lines_in(content@)
            == spool,
        event == (HotEvent::Read { outcome: SpoolRead::Absent }) ==> spool.len() == 0,
    ensures
        balanced(
            state.after(event).state,
            spool_after(spool, state, event),
            stream_after(stream, state, event),
            survivors_after(total, event),
        ),
{
    let next = state.after(event).state;
    let spool2 = spool_after(spool, state, event);
    let stream2 = stream_after(stream, state, event);
    let total2 = survivors_after(total, event);
    let parts = stream2 + waiting_to_replay(next, spool2) + undecided(next);
    match event {
        HotEvent::Spilled { ok } => {
            if ok {
                assert(parts =~= total2);
            } else {
                assert(total.drop_last() =~= stream + spool);
                assert(parts =~= total2);
            }
        },
        HotEvent::Read { .. } => {
            assert(spool.skip(0) =~= spool);
            assert(parts =~= total2);
        },
        HotEvent::Appended { ok } => {
            if ok {
                assert(parts =~= total2);
            } else {
                assert(parts =~= total2);
            }
        },
        HotEvent::Rewritten => {
            assert(parts =~= total2);
        },
        HotEvent::Removed => {
            assert(state.lines.skip(state.replayed) =~= seq![]);
            assert(parts =~= total2);
        },
        _ => {
            assert(parts =~= total2);
        },
    }
}

proof fn lemma_balanced(at_first: Seq<Seq<char>>, start: HotView, events: Seq<HotEvent>)
    requires
        unconnected(start),
        hot_legal(start, events),
        spool_keeps(at_first, start, events),
        all_clean(events),
        forall|i: int| 0 <= i < at_first.len() ==> clean(#[trigger] at_first[i]),
    ensures
        balanced(
            hot_follow(start, events),
            spooled(at_first, start, events),
            streamed(start, events),
            at_first + survivors(events),
        ),
        undecided(hot_follow(start, events)).len() > 0 ==> survivors(events).len() > 0,
    decreases events.len(),
{
    if events.len() == 0 {
        assert(streamed(start, events) + waiting_to_replay(start, at_first) + undecided(start)
            =~= at_first + survivors(events));
    } else {
        let earlier = events.drop_last();
        let event = events.last();
        assert forall|i: int| 0 <= i < earlier.len() implies (#[trigger] earlier[i] matches
            HotEvent::Arrived { payload } ==> clean(payload@)) by {
            assert(events[i] == earlier[i]);
        }
        assert(events[events.len() - 1] == event);
        lemma_balanced(at_first, start, earlier);
        let state = hot_follow(start, earlier);
        let spool = spooled(at_first, start, earlier);
        law_spilled_lines_read_back(spool);
        lemma_balanced_step(
            state,
            spool,
            streamed(start, earlier),
            at_first + survivors(earlier),
            event,
        );
        assert(survivors_after(at_first + survivors(earlier), event) =~= at_first
            + survivors_after(survivors(earlier), event));
    }
}

/// No violation is dropped, doubled or overtaken: the stream, followed by what
/// the spool still holds and the violation in hand, is what the spool held at
/// first followed by every violation that came in and was not lost, in order.
pub proof fn law_nothing_is_dropped(
    at_first: Seq<Seq<char>>,
    start: HotView,
    events: Seq<HotEvent>,
)
    requires
        unconnected(start),
        hot_legal(start, events),
        spool_keeps(at_first, start, events),
        all_clean(events),
        forall|i: int| 0 <= i < at_first.len() ==> clean(#[trigger] at_first[i]),
    ensures
        ({
            let state = hot_follow(start, events);
            streamed(start, events) + waiting_to_replay(
                state,
                spooled(at_first, start, events),
            ) + undecided(state) == at_first + survivors(events)
        }),
{
    lemma_balanced(at_first, start, events);
}

/// Live traffic waits for the replay: while the stream is taken to be there, the
/// spool is empty.
pub proof fn law_live_traffic_finds_the_spool_empty(
    at_first: Seq<Seq<char>>,
    start: HotView,
    events: Seq<HotEvent>,
)
    requires
        unconnected(start),
        hot_legal(start, events),
        spool_keeps(at_first, start, events),
        all_clean(events),
        forall|i: int| 0 <= i < at_first.len() ==> clean(#[trigger] at_first[i]),
        hot_follow(start, events).link == Link::Up,
    ensures
        spooled(at_first, start, events).len() == 0,
{
    lemma_balanced(at_first, start, events);
}

/// Every state that the dispatcher gets into is a possible one.
pub proof fn law_dispatcher_stays_sound(start: HotView, events: Seq<HotEvent>)
    requires
        unconnected(start),
        hot_legal(start, events),
    ensures
        hot_follow(start, events).possible(),
    decreases events.len(),
{
    if events.len() > 0 {
        law_dispatcher_stays_sound(start, events.drop_last());
    }
}

/// A spool that cannot be read is left alone: the stream still counts as away,
/// nothing is sent or counted, and the next probe tries again.
pub proof fn law_an_unreadable_spool_is_kept(
    state: HotView,
    spool: Seq<Seq<char>>,
    stream: Seq<Seq<char>>,
)
    requires
        state.possible(),
        state.stage == HotStage::Reading,
    ensures
        ({
            let event = HotEvent::Read { outcome: SpoolRead::Unreadable };
            let step = state.after(event);
            &&& step.state.link == Link::Down
            &&& step.action == HotAction::Wait { probe: true }
            &&& step.updates == Seq::<MetricUpdate>::empty()
            &&& spool_after(spool, state, event) == spool
            &&& stream_after(stream, state, event) == stream
        }),
{
}

/// The durable leg goes first: what is published was just appended.
pub proof fn law_publishing_follows_appending(state: HotView, event: HotEvent)
    requires
        state.possible(),
        state.expects(event),
        state.after(event).action == HotAction::Publish,
    ensures
        event == (HotEvent::Appended { ok: true }),
        state.after(event).state.in_hand() == state.in_hand(),
{
}

/// How many violations came in.
pub open spec fn arrivals(events: Seq<HotEvent>) -> nat
    decreases events.len(),
{
    if events.len() == 0 {
        0
    } else {
        arrivals(events.drop_last()) + if events.last() is Arrived {
            1nat
        } else {
            0nat
        }
    }
}

/// How many violations could not be spilled.
pub open spec fn failed_spills(events: Seq<HotEvent>) -> nat
    decreases events.len(),
{
    if events.len() == 0 {
        0
    } else {
        failed_spills(events.drop_last()) + if events.last() == (HotEvent::Spilled {
            ok: false,
        }) {
            1nat
        } else {
            0nat
        }
    }
}

/// Whether the violation that came in last is not counted yet.
pub open spec fn uncounted(state: HotView) -> nat {
    match state.stage {
        HotStage::Appending { replay: false } => 1,
        HotStage::Publishing { replay: false } => 1,
        HotStage::Spilling => 1,
        _ => 0,
    }
}

proof fn lemma_count_step(state: HotView, event: HotEvent)
    requires
        state.possible(),
        state.expects(event),
    ensures
        ({
            let updates = state.after(event).updates;
            let counted = added(updates, Counter::HotSent) + added(updates, Counter::HotSpilled)
                + added(updates, Counter::HotLost);
            &&& uncounted(state) + if event is Arrived {
                1nat
            } else {
                0nat
            } == counted + uncounted(state.after(event).state)
            &&& added(updates, Counter::HotLost) == if event == (HotEvent::Spilled { ok: false }) {
                1nat
            } else {
                0nat
            }
        }),
{
    reveal_with_fuel(added, 3);
    let updates = state.after(event).updates;
    if updates.len() == 1 {
        assert(updates.drop_last() =~= seq![]);
    } else if updates.len() == 2 {
        assert(updates.drop_last().drop_last() =~= seq![]);
    }
}

/// Every violation that came in is counted once, as sent, as spilled or as lost;
/// and one is lost only where the spool did not take it.
pub proof fn law_every_violation_is_counted_once(start: HotView, events: Seq<HotEvent>)
    requires
        unconnected(start),
        hot_legal(start, events),
    ensures
        ({
            let updates = hot_reported(start, events);
            &&& arrivals(events) == added(updates, Counter::HotSent) + added(
                updates,
                Counter::HotSpilled,
            ) + added(updates, Counter::HotLost) + uncounted(hot_follow(start, events))
            &&& added(updates, Counter::HotLost) == failed_spills(events)
        }),
    decreases events.len(),
{
    if events.len() > 0 {
        let earlier = events.drop_last();
        law_every_violation_is_counted_once(start, earlier);
        law_dispatcher_stays_sound(start, earlier);
        let state = hot_follow(start, earlier);
        let updates = state.after(events.last()).updates;
        lemma_count_step(state, events.last());
        law_updates_add_up(hot_reported(start, earlier), updates, Counter::HotSent);
        law_updates_add_up(hot_reported(start, earlier), updates, Counter::HotSpilled);
        law_updates_add_up(hot_reported(start, earlier), updates, Counter::HotLost);
    }
}

/// How many lines of the spool were appended to the stream.
pub open spec fn replay_appends(start: HotView, events: Seq<HotEvent>) -> nat
    decreases events.len(),
{
    if events.len() == 0 {
        0
    } else {
        let state = hot_follow(start, events.drop_last());
        replay_appends(start, events.drop_last()) + if state.stage == (HotStage::Appending {
            replay: true,
        }) && events.last() == (HotEvent::Appended { ok: true }) {
            1nat
        } else {
            0nat
        }
    }
}

/// How many lines of the replay that goes on are appended but not counted yet.
pub open spec fn uncounted_replay(state: HotView) -> int {
    if replaying(state) && state.stage != HotStage::Removing {
        replay_streamed(state)
    } else {
        0
    }
}

proof fn lemma_replay_step(state: HotView, event: HotEvent)
    requires
        state.possible(),
        state.expects(event),
        state.lines.len() <= u64::MAX,
        state.after(event).state.lines.len() <= u64::MAX,
    ensures
        uncounted_replay(state) + if state.stage == (HotStage::Appending { replay: true }) && event
            == (HotEvent::Appended { ok: true }) {
            1int
        } else {
            0int
        } == added(state.after(event).updates, Counter::HotReplayed) + uncounted_replay(
            state.after(event).state,
        ),
{
    reveal_with_fuel(added, 3);
    let updates = state.after(event).updates;
    if updates.len() == 1 {
        assert(updates.drop_last() =~= seq![]);
    } else if updates.len() == 2 {
        assert(updates.drop_last().drop_last() =~= seq![]);
    }
}

/// Whether no replay is longer than a count can hold.
pub open spec fn replays_fit(start: HotView, events: Seq<HotEvent>) -> bool
    decreases events.len(),
{
    &&& hot_follow(start, events).lines.len() <= u64::MAX
    &&& events.len() > 0 ==> replays_fit(start, events.drop_last())
}

/// What is replayed is counted, each line once.
pub proof fn law_replayed_lines_are_counted(start: HotView, events: Seq<HotEvent>)
    requires
        unconnected(start),
        hot_legal(start, events),
        replays_fit(start, events),
    ensures
        replay_appends(start, events) == added(
            hot_reported(start, events),
            Counter::HotReplayed,
        ) + uncounted_replay(hot_follow(start, events)),
    decreases events.len(),
{
    if events.len() > 0 {
        let earlier = events.drop_last();
        law_replayed_lines_are_counted(start, earlier);
        law_dispatcher_stays_sound(start, earlier);
        let state = hot_follow(start, earlier);
        lemma_replay_step(state, events.last());
        law_updates_add_up(
            hot_reported(start, earlier),
            state.after(events.last()).updates,
            Counter::HotReplayed,
        );
    }
}

} // verus!
