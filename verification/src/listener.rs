//! The doorbell: a channel that announces configuration changes. A message says
//! only that something changed, never what; the table stays the one source.
//!
//! [`Listener`] decides; its driver subscribes, waits and reloads.

use vstd::prelude::*;

verus! {

/// The pause before the next attempt to subscribe, in seconds.
pub const RETRY_SECS: u64 = 5;

/// What the driver of the listener has to do next.
#[derive(Clone, Copy, Debug, PartialEq, Eq, Structural)]
pub enum ListenerAction {
    Subscribe,
    /// Wait for a message, whatever it holds, or for the end of the channel.
    AwaitDoorbell,
    Sleep { secs: u64 },
    /// Rebuild the registry from the table.
    Reload,
}

/// What came of an action.
#[derive(Clone, Copy, Debug, PartialEq, Eq, Structural)]
pub enum ListenerEvent {
    Subscribed { ok: bool },
    Doorbell,
    Ended,
    Slept,
    /// The reload is over, whether or not the table could be read.
    Reloaded,
}

/// Where the listener stands: which action it waits for.
#[derive(Clone, Copy, Debug, PartialEq, Eq, Structural)]
pub enum Listener {
    Subscribing,
    Listening,
    Sleeping,
    Reloading { subscribed: bool },
}

impl Listener {
    /// Whether the event answers the action that the listener waits for.
    pub open spec fn expects(self, event: ListenerEvent) -> bool {
        match self {
            Listener::Subscribing => event is Subscribed,
            Listener::Listening => event is Doorbell || event is Ended,
            Listener::Sleeping => event is Slept,
            Listener::Reloading { .. } => event is Reloaded,
        }
    }

    /// The state that an event leads to.
    pub open spec fn after(self, event: ListenerEvent) -> Listener {
        match event {
            ListenerEvent::Subscribed { ok } => if ok {
                Listener::Listening
            } else {
                Listener::Sleeping
            },
            ListenerEvent::Doorbell => Listener::Reloading { subscribed: true },
            ListenerEvent::Ended => Listener::Sleeping,
            ListenerEvent::Slept => Listener::Reloading { subscribed: false },
            ListenerEvent::Reloaded => if self == (Listener::Reloading { subscribed: true }) {
                Listener::Listening
            } else {
                Listener::Subscribing
            },
        }
    }

    /// The action of a state.
    pub open spec fn awaits(self) -> ListenerAction {
        match self {
            Listener::Subscribing => ListenerAction::Subscribe,
            Listener::Listening => ListenerAction::AwaitDoorbell,
            Listener::Sleeping => ListenerAction::Sleep { secs: RETRY_SECS },
            Listener::Reloading { .. } => ListenerAction::Reload,
        }
    }

    /// A listener that has not subscribed yet.
    pub fn new() -> (r: Listener)
        ensures
            r == Listener::Subscribing,
    {
        Listener::Subscribing
    }

    /// What to do.
    pub fn action(self) -> (r: ListenerAction)
        ensures
            r == self.awaits(),
    {
        match self {
            Listener::Subscribing => ListenerAction::Subscribe,
            Listener::Listening => ListenerAction::AwaitDoorbell,
            Listener::Sleeping => ListenerAction::Sleep { secs: RETRY_SECS },
            Listener::Reloading { .. } => ListenerAction::Reload,
        }
    }

    /// Takes the answer to the last action.
    pub fn advance(&mut self, event: ListenerEvent)
        requires
            old(self).expects(event),
        ensures
            *final(self) == old(self).after(event),
    {
        let subscribed: bool = match *self {
            Listener::Reloading { subscribed } => subscribed,
            _ => false,
        };
        *self = match event {
            ListenerEvent::Subscribed { ok } => if ok {
                Listener::Listening
            } else {
                Listener::Sleeping
            },
            ListenerEvent::Doorbell => Listener::Reloading { subscribed: true },
            ListenerEvent::Ended => Listener::Sleeping,
            ListenerEvent::Slept => Listener::Reloading { subscribed: false },
            ListenerEvent::Reloaded => if subscribed {
                Listener::Listening
            } else {
                Listener::Subscribing
            },
        };
    }
}

/// The state that a sequence of events leads to.
pub open spec fn listener_follow(start: Listener, events: Seq<ListenerEvent>) -> Listener
    decreases events.len(),
{
    if events.len() == 0 {
        start
    } else {
        listener_follow(start, events.drop_last()).after(events.last())
    }
}

/// Whether each event answers the action before it.
pub open spec fn listener_legal(start: Listener, events: Seq<ListenerEvent>) -> bool
    decreases events.len(),
{
    events.len() > 0 ==> {
        &&& listener_legal(start, events.drop_last())
        &&& listener_follow(start, events.drop_last()).expects(events.last())
    }
}

/// How often an event of one kind came.
pub open spec fn how_often(events: Seq<ListenerEvent>, kind: spec_fn(ListenerEvent) -> bool) -> nat
    decreases events.len(),
{
    if events.len() == 0 {
        0
    } else {
        how_often(events.drop_last(), kind) + if kind(events.last()) {
            1nat
        } else {
            0nat
        }
    }
}

/// A doorbell rang, or the channel was away so that one may have been missed.
pub open spec fn possible_change() -> spec_fn(ListenerEvent) -> bool {
    |event: ListenerEvent|
        event is Doorbell || event is Ended || event == (ListenerEvent::Subscribed { ok: false })
}

/// The registry was rebuilt.
pub open spec fn rebuilt() -> spec_fn(ListenerEvent) -> bool {
    |event: ListenerEvent| event is Reloaded
}

/// Every change is followed up: the registry is rebuilt once for each doorbell
/// and for each gap in which one may have been missed, but for one that is being
/// followed up.
pub proof fn law_every_change_is_followed_up(events: Seq<ListenerEvent>)
    requires
        listener_legal(Listener::Subscribing, events),
    ensures
        ({
            let state = listener_follow(Listener::Subscribing, events);
            how_often(events, possible_change()) == how_often(events, rebuilt()) + if state
                is Sleeping || state is Reloading {
                1nat
            } else {
                0nat
            }
        }),
    decreases events.len(),
{
    if events.len() > 0 {
        law_every_change_is_followed_up(events.drop_last());
        let event = events.last();
        assert(rebuilt()(event) == event is Reloaded);
        assert(possible_change()(event) == (event is Doorbell || event is Ended || event == (
        ListenerEvent::Subscribed { ok: false })));
    }
}

/// A gap is closed before the next subscription: after the channel was away, the
/// registry is rebuilt first.
pub proof fn law_resubscribing_follows_a_reload(state: Listener, event: ListenerEvent)
    requires
        state.expects(event),
        state.after(event) == Listener::Subscribing,
    ensures
        event is Reloaded,
        state == (Listener::Reloading { subscribed: false }),
{
}

/// A subscription that works is listened to, and one that fails is tried again
/// after a pause of five seconds and a reload.
pub proof fn law_a_subscription_is_tried_until_it_works(ok: bool)
    ensures
        ({
            let next = Listener::Subscribing.after(ListenerEvent::Subscribed { ok });
            &&& Listener::Subscribing.awaits() == ListenerAction::Subscribe
            &&& ok ==> next == Listener::Listening && next.awaits()
                == ListenerAction::AwaitDoorbell
            &&& !ok ==> next == Listener::Sleeping && next.awaits() == (ListenerAction::Sleep {
                secs: 5,
            })
        }),
{
}

/// A doorbell is answered by one reload, after which the listener listens again.
pub proof fn law_a_doorbell_is_answered_by_a_reload()
    ensures
        ({
            let rung = Listener::Listening.after(ListenerEvent::Doorbell);
            &&& rung.awaits() == ListenerAction::Reload
            &&& rung.expects(ListenerEvent::Reloaded)
            &&& rung.after(ListenerEvent::Reloaded) == Listener::Listening
            &&& Listener::Listening.awaits() == ListenerAction::AwaitDoorbell
        }),
{
}

/// A channel that ends is left for five seconds, the registry is rebuilt, and the
/// listener subscribes anew.
pub proof fn law_a_lost_channel_is_made_good()
    ensures
        ({
            let asleep = Listener::Listening.after(ListenerEvent::Ended);
            let awake = asleep.after(ListenerEvent::Slept);
            &&& asleep.awaits() == (ListenerAction::Sleep { secs: 5 })
            &&& asleep.expects(ListenerEvent::Slept)
            &&& awake.awaits() == ListenerAction::Reload
            &&& awake.expects(ListenerEvent::Reloaded)
            &&& awake.after(ListenerEvent::Reloaded) == Listener::Subscribing
            &&& Listener::Subscribing.awaits() == ListenerAction::Subscribe
        }),
{
}

/// Each thing that can happen is an answer to what the listener last asked for.
pub proof fn law_events_answer_the_listener(state: Listener, event: ListenerEvent)
    ensures
        state.expects(event) <==> match event {
            ListenerEvent::Subscribed { .. } => state.awaits() == ListenerAction::Subscribe,
            ListenerEvent::Doorbell => state.awaits() == ListenerAction::AwaitDoorbell,
            ListenerEvent::Ended => state.awaits() == ListenerAction::AwaitDoorbell,
            ListenerEvent::Slept => state.awaits() is Sleep,
            ListenerEvent::Reloaded => state.awaits() == ListenerAction::Reload,
        },
{
}

} // verus!
