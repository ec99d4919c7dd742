//! The hot lane: violations go to a stream and to a live channel, with a spool
//! file so that none is dropped while the stream is away.
//!
//! Each violation is appended to the stream first (durable), then published on
//! the live channel (best effort). While the stream is away, violations are
//! spilled to the spool. When it is back, the spool is replayed first, the
//! oldest violation first; only then live traffic goes on. A spool that cannot be
//! read is not a spool that is drained: it stays as it is, violations are spilled
//! as before, and the next probe tries again.
//!
//! [`HotDispatcher`] decides; its driver receives, connects, sends and touches
//! the spool, and reports back what came of it.

use crate::metrics::{Counter, Gauge, MetricUpdate};
use crate::spool::{lines_in, remainder, spill_line, spill_text, spilled_lines, texts};
use crate::text::{decimal, decimal_digits};
use vstd::prelude::*;

verus! {

/// The stream that violations are appended to.
pub const STREAM: &'static str = "hazshield:violations";

/// The channel that violations are published on.
pub const LIVE_CHANNEL: &'static str = "hazshield:violations:live";

/// The length that the stream is trimmed to, roughly.
pub const STREAM_MAXLEN: u64 = 100_000;

/// The time between two attempts to reconnect, in seconds.
pub const PROBE_INTERVAL_SECS: u64 = 2;

/// The name of the spool file in its directory.
pub const SPILL_FILE: &'static str = "violations.spill";

#[verifier::external_type_specification]
#[verifier::external_body]
pub struct ExCmd(redis::Cmd);

/// The words that a command holds, its name first.
pub uninterp spec fn command_words(command: redis::Cmd) -> Seq<Seq<char>>;

/// Calls `redis::cmd`. Claimed: the command holds one word, its name.
#[verifier::external_body]
fn new_command(name: &str) -> (r: redis::Cmd)
    ensures
        command_words(r) == seq![name@],
{
    redis::cmd(name)
}

/// Calls `redis::Cmd::arg` with a string. Claimed: the string is appended to the
/// command's words, as one word.
#[verifier::external_body]
fn add_word(command: &mut redis::Cmd, word: &str)
    ensures
        command_words(*final(command)) == command_words(*old(command)).push(word@),
{
    command.arg(word);
}

/// The words that append a violation to the stream.
pub open spec fn append_words(payload: Seq<char>) -> Seq<Seq<char>> {
    seq![
        "XADD"@,
        STREAM@,
        "MAXLEN"@,
        "~"@,
        decimal_digits(STREAM_MAXLEN as nat),
        "*"@,
        "v"@,
        payload,
    ]
}

/// The words that publish a violation on the live channel.
pub open spec fn publish_words(payload: Seq<char>) -> Seq<Seq<char>> {
    seq!["PUBLISH"@, LIVE_CHANNEL@, payload]
}

/// The command that appends a violation to the stream.
pub fn append_command(payload: &str) -> (r: redis::Cmd)
    ensures
        command_words(r) == append_words(payload@),
{
    let mut command: redis::Cmd = new_command("XADD");
    add_word(&mut command, STREAM);
    add_word(&mut command, "MAXLEN");
    add_word(&mut command, "~");
    let length: String = decimal(STREAM_MAXLEN);
    add_word(&mut command, length.as_str());
    add_word(&mut command, "*");
    add_word(&mut command, "v");
    add_word(&mut command, payload);
    assert(command_words(command) =~= append_words(payload@));
    command
}

/// The command that publishes a violation on the live channel.
pub fn publish_command(payload: &str) -> (r: redis::Cmd)
    ensures
        command_words(r) == publish_words(payload@),
{
    let mut command: redis::Cmd = new_command("PUBLISH");
    add_word(&mut command, LIVE_CHANNEL);
    add_word(&mut command, payload);
    assert(command_words(command) =~= publish_words(payload@));
    command
}

/// The state of the connection to the stream.
#[derive(Clone, Copy, Debug, PartialEq, Eq, Structural)]
pub enum Link {
    /// There is nothing to connect to: every violation is spilled.
    SpillOnly,
    Down,
    Up,
}

/// What the driver of the dispatcher has to do next.
#[derive(Clone, Copy, Debug, PartialEq, Eq, Structural)]
pub enum HotAction {
    /// Wait for a violation or the channel's end; with `probe`, for the next
    /// probe too.
    Wait { probe: bool },
    /// Try to connect.
    Connect,
    /// Read the whole spool.
    ReadSpool,
    /// Append the violation in hand to the stream.
    Append,
    /// Publish the violation in hand.
    Publish,
    /// Append the violation in hand to the spool.
    Spill,
    /// Write the spool anew, with what is left of the replay.
    RewriteSpool,
    /// Remove the spool.
    RemoveSpool,
    /// Nothing: the dispatcher is done.
    Stop,
}

/// What reading the spool gave.
#[derive(Debug)]
pub enum SpoolRead {
    /// Its whole content.
    Text { content: String },
    /// There is no spool, so there is nothing to replay.
    Absent,
    /// There may be a spool, but it could not be read as text.
    Unreadable,
}

/// What came of an action.
#[derive(Debug)]
pub enum HotEvent {
    /// A violation came in, as it is sent and spilled.
    Arrived { payload: String },
    Closed,
    Probe,
    Connected { ok: bool },
    Read { outcome: SpoolRead },
    Appended { ok: bool },
    Published,
    Spilled { ok: bool },
    Rewritten,
    Removed,
}

/// Where the dispatcher stands: which action it waits for.
#[derive(Clone, Copy, Debug, PartialEq, Eq, Structural)]
pub enum HotStage {
    Waiting,
    Connecting,
    Reading,
    Appending { replay: bool },
    Publishing { replay: bool },
    Spilling,
    Rewriting,
    Removing,
    Stopped,
}

/// An action and the metric updates that come before it.
#[derive(Debug)]
pub struct HotStep {
    pub updates: Vec<MetricUpdate>,
    pub action: HotAction,
}

/// The state of the dispatcher.
pub struct HotView {
    pub link: Link,
    pub stage: HotStage,
    /// The violation that came in last.
    pub payload: Seq<char>,
    /// What is being replayed, the oldest violation first.
    pub lines: Seq<Seq<char>>,
    /// How many of these are done.
    pub replayed: int,
}

/// What a step does.
pub struct HotTransition {
    pub state: HotView,
    pub updates: Seq<MetricUpdate>,
    pub action: HotAction,
}

/// One count.
pub open spec fn count(counter: Counter, by: int) -> MetricUpdate {
    MetricUpdate::Count { counter, by: by as u64 }
}

/// Whether the stream is there, as a metric.
pub open spec fn redis_up(up: bool) -> MetricUpdate {
    MetricUpdate::Level {
        gauge: Gauge::HotRedisUp,
        to: if up {
            1
        } else {
            0
        },
    }
}

impl HotView {
    /// Whether the dispatcher can be in this state.
    pub open spec fn possible(self) -> bool {
        match self.stage {
            HotStage::Waiting | HotStage::Stopped => true,
            HotStage::Spilling => self.link != Link::Up,
            HotStage::Appending { replay } | HotStage::Publishing { replay } => if replay {
                self.link == Link::Down && 0 <= self.replayed < self.lines.len()
            } else {
                self.link == Link::Up
            },
            HotStage::Rewriting => self.link == Link::Down && 0 <= self.replayed
                < self.lines.len(),
            HotStage::Removing => self.link == Link::Down && self.replayed == self.lines.len(),
            HotStage::Connecting | HotStage::Reading => self.link == Link::Down,
        }
    }

    /// Whether the event answers the action that the dispatcher waits for.
    pub open spec fn expects(self, event: HotEvent) -> bool {
        match self.stage {
            HotStage::Waiting => {
                ||| event is Arrived
                ||| event is Closed
                ||| event is Probe && self.link == Link::Down
            },
            HotStage::Connecting => event is Connected,
            HotStage::Reading => event is Read,
            HotStage::Appending { .. } => event is Appended,
            HotStage::Publishing { .. } => event is Published,
            HotStage::Spilling => event is Spilled,
            HotStage::Rewriting => event is Rewritten,
            HotStage::Removing => event is Removed,
            HotStage::Stopped => false,
        }
    }

    /// The violation in hand.
    pub open spec fn in_hand(self) -> Seq<char> {
        match self.stage {
            HotStage::Appending { replay } | HotStage::Publishing { replay } => if replay {
                self.lines[self.replayed]
            } else {
                self.payload
            },
            _ => self.payload,
        }
    }

    pub open spec fn to(
        self,
        stage: HotStage,
        updates: Seq<MetricUpdate>,
        action: HotAction,
    ) -> HotTransition {
        HotTransition { state: HotView { stage, ..self }, updates, action }
    }

    /// Back to waiting, with nothing left to replay.
    pub open spec fn rest(self, updates: Seq<MetricUpdate>) -> HotTransition {
        HotView { lines: seq![], replayed: 0, ..self }.to(
            HotStage::Waiting,
            updates,
            HotAction::Wait { probe: self.link == Link::Down },
        )
    }

    /// The violation that came in is done.
    pub open spec fn settled(self, counter: Counter) -> HotTransition {
        self.rest(
            if self.link == Link::SpillOnly {
                seq![count(counter, 1)]
            } else {
                seq![count(counter, 1), redis_up(self.link == Link::Up)]
            },
        )
    }

    /// The stream is back and the spool is empty.
    pub open spec fn reconnected(self) -> HotTransition {
        HotView { link: Link::Up, ..self }.rest(seq![redis_up(true)])
    }

    /// The next line of the replay, or its end.
    pub open spec fn replay(self) -> HotTransition {
        if self.replayed < self.lines.len() {
            self.to(HotStage::Appending { replay: true }, seq![], HotAction::Append)
        } else {
            self.to(
                HotStage::Removing,
                if self.lines.len() > 0 {
                    seq![count(Counter::HotReplayed, self.lines.len() as int)]
                } else {
                    seq![]
                },
                HotAction::RemoveSpool,
            )
        }
    }

    /// The step that an event leads to.
    pub open spec fn after(self, event: HotEvent) -> HotTransition {
        match event {
            HotEvent::Arrived { payload } => {
                let holding = HotView { payload: payload@, ..self };
                if self.link == Link::Up {
                    holding.to(HotStage::Appending { replay: false }, seq![], HotAction::Append)
                } else {
                    holding.to(HotStage::Spilling, seq![], HotAction::Spill)
                }
            },
            HotEvent::Closed => self.to(HotStage::Stopped, seq![], HotAction::Stop),
            HotEvent::Probe => self.to(HotStage::Connecting, seq![], HotAction::Connect),
            HotEvent::Connected { ok } => if ok {
                self.to(HotStage::Reading, seq![], HotAction::ReadSpool)
            } else {
                self.rest(seq![])
            },
            HotEvent::Read { outcome } => match outcome {
                SpoolRead::Text { content } => HotView {
                    lines: lines_in(content@),
                    replayed: 0,
                    ..self
                }.replay(),
                SpoolRead::Absent => self.reconnected(),
                SpoolRead::Unreadable => self.rest(seq![]),
            },
            HotEvent::Appended { ok } => {
                let replay = self.stage == (HotStage::Appending { replay: true });
                if ok {
                    self.to(HotStage::Publishing { replay }, seq![], HotAction::Publish)
                } else if replay {
                    self.to(HotStage::Rewriting, seq![], HotAction::RewriteSpool)
                } else {
                    HotView { link: Link::Down, ..self }.to(
                        HotStage::Spilling,
                        seq![redis_up(false)],
                        HotAction::Spill,
                    )
                }
            },
            HotEvent::Published => if self.stage == (HotStage::Publishing { replay: true }) {
                HotView { replayed: self.replayed + 1, ..self }.replay()
            } else {
                self.settled(Counter::HotSent)
            },
            HotEvent::Spilled { ok } => self.settled(
                if ok {
                    Counter::HotSpilled
                } else {
                    Counter::HotLost
                },
            ),
            HotEvent::Rewritten => self.rest(seq![count(Counter::HotReplayed, self.replayed)]),
            HotEvent::Removed => self.reconnected(),
        }
    }
}

/// The dispatcher of violations.
#[derive(Debug)]
pub struct HotDispatcher {
    link: Link,
    stage: HotStage,
    payload: String,
    lines: Vec<String>,
    replayed: usize,
}

impl View for HotDispatcher {
    type V = HotView;

    closed spec fn view(&self) -> HotView {
        HotView {
            link: self.link,
            stage: self.stage,
            payload: self.payload@,
            lines: texts(self.lines@),
            replayed: self.replayed as int,
        }
    }
}

impl HotDispatcher {
    /// A dispatcher that has not connected yet.
    pub fn new() -> (r: HotDispatcher)
        ensures
            r@ == (HotView {
                link: Link::Down,
                stage: HotStage::Waiting,
                payload: seq![],
                lines: seq![],
                replayed: 0,
            }),
    {
        Self::start(Link::Down)
    }

    /// A dispatcher without a stream to connect to.
    pub fn spill_only() -> (r: HotDispatcher)
        ensures
            r@ == (HotView {
                link: Link::SpillOnly,
                stage: HotStage::Waiting,
                payload: seq![],
                lines: seq![],
                replayed: 0,
            }),
    {
        Self::start(Link::SpillOnly)
    }

    fn start(link: Link) -> (r: HotDispatcher)
        ensures
            r@ == (HotView {
                link,
                stage: HotStage::Waiting,
                payload: seq![],
                lines: seq![],
                replayed: 0,
            }),
    {
        let lines: Vec<String> = Vec::new();
        assert(texts(lines@) =~= seq![]);
        HotDispatcher { link, stage: HotStage::Waiting, payload: String::new(), lines, replayed: 0 }
    }

    /// Takes the answer to the last action and gives the next one.
    pub fn advance(&mut self, event: HotEvent) -> (r: HotStep)
        requires
            old(self)@.possible(),
            old(self)@.expects(event),
        ensures
            final(self)@.possible(),
            final(self)@ == old(self)@.after(event).state,
            r.updates@ == old(self)@.after(event).updates,
            r.action == old(self)@.after(event).action,
    {
        match event {
            HotEvent::Arrived { payload } => {
                self.payload = payload;
                if self.link == Link::Up {
                    self.to(HotStage::Appending { replay: false }, HotAction::Append)
                } else {
                    self.to(HotStage::Spilling, HotAction::Spill)
                }
            },
            HotEvent::Closed => self.to(HotStage::Stopped, HotAction::Stop),
            HotEvent::Probe => self.to(HotStage::Connecting, HotAction::Connect),
            HotEvent::Connected { ok } => if ok {
                self.to(HotStage::Reading, HotAction::ReadSpool)
            } else {
                self.rest(Vec::new())
            },
            HotEvent::Read { outcome } => match outcome {
                SpoolRead::Text { content } => {
                    self.lines = spilled_lines(content.as_str());
                    self.replayed = 0;
                    self.replay()
                },
                SpoolRead::Absent => self.reconnected(),
                SpoolRead::Unreadable => self.rest(Vec::new()),
            },
            HotEvent::Appended { ok } => {
                let replay: bool = match self.stage {
                    HotStage::Appending { replay } => replay,
                    _ => false,
                };
                if ok {
                    self.to(HotStage::Publishing { replay }, HotAction::Publish)
                } else if replay {
                    self.to(HotStage::Rewriting, HotAction::RewriteSpool)
                } else {
                    self.link = Link::Down;
                    self.stage = HotStage::Spilling;
                    let mut updates: Vec<MetricUpdate> = Vec::new();
                    updates.push(MetricUpdate::Level { gauge: Gauge::HotRedisUp, to: 0 });
                    HotStep { updates, action: HotAction::Spill }
                }
            },
            HotEvent::Published => {
                let replay: bool = match self.stage {
                    HotStage::Publishing { replay } => replay,
                    _ => false,
                };
                if replay {
                    assert(self.lines.len() == self.lines@.len());
                    self.replayed = self.replayed + 1;
                    self.replay()
                } else {
                    self.settled(Counter::HotSent)
                }
            },
            HotEvent::Spilled { ok } => self.settled(
                if ok {
                    Counter::HotSpilled
                } else {
                    Counter::HotLost
                },
            ),
            HotEvent::Rewritten => {
                let mut updates: Vec<MetricUpdate> = Vec::new();
                updates.push(
                    MetricUpdate::Count {
                        counter: Counter::HotReplayed,
                        by: self.replayed as u64,
                    },
                );
                self.rest(updates)
            },
            HotEvent::Removed => self.reconnected(),
        }
    }

    fn to(&mut self, stage: HotStage, action: HotAction) -> (r: HotStep)
        ensures
            final(self)@ == old(self)@.to(stage, seq![], action).state,
            r.updates@ == Seq::<MetricUpdate>::empty(),
            r.action == action,
    {
        self.stage = stage;
        HotStep { updates: Vec::new(), action }
    }

    fn rest(&mut self, updates: Vec<MetricUpdate>) -> (r: HotStep)
        ensures
            final(self)@ == old(self)@.rest(updates@).state,
            r.updates@ == updates@,
            r.action == old(self)@.rest(updates@).action,
    {
        self.lines = Vec::new();
        self.replayed = 0;
        self.stage = HotStage::Waiting;
        assert(texts(self.lines@) =~= seq![]);
        let probe: bool = self.link == Link::Down;
        HotStep { updates, action: HotAction::Wait { probe } }
    }

    fn settled(&mut self, counter: Counter) -> (r: HotStep)
        ensures
            final(self)@ == old(self)@.settled(counter).state,
            r.updates@ == old(self)@.settled(counter).updates,
            r.action == old(self)@.settled(counter).action,
    {
        let mut updates: Vec<MetricUpdate> = Vec::new();
        updates.push(MetricUpdate::Count { counter, by: 1 });
        match self.link {
            Link::SpillOnly => {},
            Link::Down => {
                updates.push(MetricUpdate::Level { gauge: Gauge::HotRedisUp, to: 0 });
            },
            Link::Up => {
                updates.push(MetricUpdate::Level { gauge: Gauge::HotRedisUp, to: 1 });
            },
        }
        assert(updates@ =~= old(self)@.settled(counter).updates);
        self.rest(updates)
    }

    fn reconnected(&mut self) -> (r: HotStep)
        ensures
            final(self)@ == old(self)@.reconnected().state,
            r.updates@ == old(self)@.reconnected().updates,
            r.action == old(self)@.reconnected().action,
    {
        self.link = Link::Up;
        let mut updates: Vec<MetricUpdate> = Vec::new();
        updates.push(MetricUpdate::Level { gauge: Gauge::HotRedisUp, to: 1 });
        self.rest(updates)
    }

    fn replay(&mut self) -> (r: HotStep)
        ensures
            final(self)@ == old(self)@.replay().state,
            r.updates@ == old(self)@.replay().updates,
            r.action == old(self)@.replay().action,
    {
        if self.replayed < self.lines.len() {
            self.to(HotStage::Appending { replay: true }, HotAction::Append)
        } else {
            let mut updates: Vec<MetricUpdate> = Vec::new();
            if self.lines.len() > 0 {
                updates.push(
                    MetricUpdate::Count {
                        counter: Counter::HotReplayed,
                        by: self.lines.len() as u64,
                    },
                );
            }
            self.stage = HotStage::Removing;
            HotStep { updates, action: HotAction::RemoveSpool }
        }
    }

    /// Whether the stream is there. Where it is not, a connection made is of no
    /// more use once the dispatcher waits again.
    pub fn connected(&self) -> (r: bool)
        ensures
            r == (self@.link == Link::Up),
    {
        self.link == Link::Up
    }

    /// The violation to append, to publish or to spill.
    pub fn in_hand(&self) -> (r: &str)
        requires
            self@.possible(),
        ensures
            r@ == self@.in_hand(),
    {
        match self.stage {
            HotStage::Appending { replay: true } | HotStage::Publishing { replay: true } => {
                self.lines[self.replayed].as_str()
            },
            _ => self.payload.as_str(),
        }
    }

    /// What to append to the spool.
    pub fn spill(&self) -> (r: String)
        requires
            self@.possible(),
            self@.stage == HotStage::Spilling,
        ensures
            r@ == self@.in_hand().push('\n'),
    {
        spill_line(self.payload.as_str())
    }

    /// What to leave in the spool when the replay is cut short: exactly what was
    /// not sent.
    pub fn unsent(&self) -> (r: String)
        requires
            self@.possible(),
            self@.stage == HotStage::Rewriting,
        ensures
            r@ == spill_text(self@.lines.skip(self@.replayed)),
    {
        remainder(&self.lines, self.replayed)
    }
}

} // verus!
