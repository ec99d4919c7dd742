//! The dispatcher of violations and its spool.

use hazshield_ingest::hot::{
    append_command, publish_command, HotAction, HotDispatcher, HotEvent, LIVE_CHANNEL,
    SpoolRead, PROBE_INTERVAL_SECS, SPILL_FILE, STREAM,
};
use hazshield_ingest::metrics::{Counter, Gauge, MetricUpdate};
use hazshield_ingest::spool::{remainder, spill_line, spilled_lines};

fn words(command: &redis::Cmd) -> Vec<String> {
    command
        .args_iter()
        .map(|arg| match arg {
            redis::Arg::Simple(bytes) => String::from_utf8(bytes.to_vec()).unwrap(),
            redis::Arg::Cursor => panic!("no cursor"),
        })
        .collect()
}

fn arrived(payload: &str) -> HotEvent {
    HotEvent::Arrived { payload: payload.to_string() }
}

fn read(content: &str) -> HotEvent {
    HotEvent::Read { outcome: SpoolRead::Text { content: content.to_string() } }
}

fn up(to: i64) -> MetricUpdate {
    MetricUpdate::Level { gauge: Gauge::HotRedisUp, to }
}

fn counted(counter: Counter, by: u64) -> MetricUpdate {
    MetricUpdate::Count { counter, by }
}

/// A dispatcher with a stream and an empty spool.
fn connected() -> HotDispatcher {
    let mut dispatcher = HotDispatcher::new();
    dispatcher.advance(HotEvent::Probe);
    dispatcher.advance(HotEvent::Connected { ok: true });
    let step = dispatcher.advance(HotEvent::Read { outcome: SpoolRead::Absent });
    assert_eq!(step.action, HotAction::Wait { probe: false });
    assert_eq!(step.updates, vec![up(1)]);
    assert!(dispatcher.connected());
    dispatcher
}

#[test]
fn commands_hold_their_words() {
    assert_eq!(
        words(&append_command("{\"a\":1}")),
        vec!["XADD", "hazshield:violations", "MAXLEN", "~", "100000", "*", "v", "{\"a\":1}"]
    );
    assert_eq!(
        words(&publish_command("{\"a\":1}")),
        vec!["PUBLISH", "hazshield:violations:live", "{\"a\":1}"]
    );
    assert_eq!((STREAM, LIVE_CHANNEL), ("hazshield:violations", "hazshield:violations:live"));
    assert_eq!((PROBE_INTERVAL_SECS, SPILL_FILE), (2, "violations.spill"));
}

#[test]
fn the_command_is_the_one_built_with_numbers() {
    let mut expected = redis::cmd("XADD");
    expected.arg(STREAM).arg("MAXLEN").arg("~").arg(100_000usize).arg("*").arg("v").arg("x");
    assert_eq!(append_command("x").get_packed_command(), expected.get_packed_command());
}

#[test]
fn a_violation_is_appended_and_published() {
    let mut dispatcher = connected();
    let step = dispatcher.advance(arrived("one"));
    assert_eq!(step.action, HotAction::Append);
    assert_eq!(dispatcher.in_hand(), "one");
    let step = dispatcher.advance(HotEvent::Appended { ok: true });
    assert_eq!(step.action, HotAction::Publish);
    assert_eq!(dispatcher.in_hand(), "one");
    let step = dispatcher.advance(HotEvent::Published);
    assert_eq!(step.action, HotAction::Wait { probe: false });
    assert_eq!(step.updates, vec![counted(Counter::HotSent, 1), up(1)]);
}

#[test]
fn a_failed_send_is_spilled() {
    let mut dispatcher = connected();
    dispatcher.advance(arrived("one"));
    let step = dispatcher.advance(HotEvent::Appended { ok: false });
    assert_eq!(step.action, HotAction::Spill);
    assert_eq!(step.updates, vec![up(0)]);
    assert_eq!(dispatcher.spill(), "one\n");
    assert!(!dispatcher.connected());
    let step = dispatcher.advance(HotEvent::Spilled { ok: true });
    assert_eq!(step.action, HotAction::Wait { probe: true });
    assert_eq!(step.updates, vec![counted(Counter::HotSpilled, 1), up(0)]);
}

#[test]
fn a_spool_that_takes_nothing_loses_the_violation() {
    let mut dispatcher = HotDispatcher::new();
    assert_eq!(dispatcher.advance(arrived("one")).action, HotAction::Spill);
    let step = dispatcher.advance(HotEvent::Spilled { ok: false });
    assert_eq!(step.updates, vec![counted(Counter::HotLost, 1), up(0)]);
}

#[test]
fn a_failed_probe_changes_nothing() {
    let mut dispatcher = HotDispatcher::new();
    assert_eq!(dispatcher.advance(HotEvent::Probe).action, HotAction::Connect);
    let step = dispatcher.advance(HotEvent::Connected { ok: false });
    assert_eq!(step.action, HotAction::Wait { probe: true });
    assert!(step.updates.is_empty());
}

#[test]
fn the_spool_is_replayed_first_and_the_oldest_line_first() {
    let mut dispatcher = HotDispatcher::new();
    dispatcher.advance(HotEvent::Probe);
    assert_eq!(dispatcher.advance(HotEvent::Connected { ok: true }).action, HotAction::ReadSpool);
    let mut step = dispatcher.advance(read("old\nnew\n"));
    let mut sent: Vec<String> = Vec::new();
    while step.action == HotAction::Append {
        sent.push(dispatcher.in_hand().to_string());
        assert_eq!(dispatcher.advance(HotEvent::Appended { ok: true }).action, HotAction::Publish);
        step = dispatcher.advance(HotEvent::Published);
    }
    assert_eq!(sent, vec!["old", "new"]);
    assert_eq!(step.action, HotAction::RemoveSpool);
    assert_eq!(step.updates, vec![counted(Counter::HotReplayed, 2)]);
    assert!(!dispatcher.connected());
    let step = dispatcher.advance(HotEvent::Removed);
    assert_eq!(step.updates, vec![up(1)]);
    assert!(dispatcher.connected());
}

#[test]
fn a_replay_cut_short_leaves_exactly_what_was_not_sent() {
    let mut dispatcher = HotDispatcher::new();
    dispatcher.advance(HotEvent::Probe);
    dispatcher.advance(HotEvent::Connected { ok: true });
    dispatcher.advance(read("a\nb\nc\n"));
    dispatcher.advance(HotEvent::Appended { ok: true });
    dispatcher.advance(HotEvent::Published);
    let step = dispatcher.advance(HotEvent::Appended { ok: false });
    assert_eq!(step.action, HotAction::RewriteSpool);
    assert_eq!(dispatcher.unsent(), "b\nc\n");
    let step = dispatcher.advance(HotEvent::Rewritten);
    assert_eq!(step.action, HotAction::Wait { probe: true });
    assert_eq!(step.updates, vec![counted(Counter::HotReplayed, 1)]);
    assert!(!dispatcher.connected());
}

#[test]
fn an_empty_spool_is_removed() {
    let mut dispatcher = HotDispatcher::new();
    dispatcher.advance(HotEvent::Probe);
    dispatcher.advance(HotEvent::Connected { ok: true });
    let step = dispatcher.advance(read("\n\r\n"));
    assert_eq!(step.action, HotAction::RemoveSpool);
    assert!(step.updates.is_empty());
}

#[test]
fn an_unreadable_spool_is_kept_and_tried_again() {
    let mut dispatcher = HotDispatcher::new();
    dispatcher.advance(HotEvent::Probe);
    dispatcher.advance(HotEvent::Connected { ok: true });
    let step = dispatcher.advance(HotEvent::Read { outcome: SpoolRead::Unreadable });
    assert_eq!(step.action, HotAction::Wait { probe: true });
    assert!(step.updates.is_empty());
    assert!(!dispatcher.connected());
    assert_eq!(dispatcher.advance(arrived("new")).action, HotAction::Spill);
    dispatcher.advance(HotEvent::Spilled { ok: true });
    assert_eq!(dispatcher.advance(HotEvent::Probe).action, HotAction::Connect);
}

#[test]
fn without_a_stream_everything_is_spilled() {
    let mut dispatcher = HotDispatcher::spill_only();
    assert_eq!(dispatcher.advance(arrived("x")).action, HotAction::Spill);
    let step = dispatcher.advance(HotEvent::Spilled { ok: true });
    assert_eq!(step.action, HotAction::Wait { probe: false });
    assert_eq!(step.updates, vec![counted(Counter::HotSpilled, 1)]);
    assert_eq!(dispatcher.advance(HotEvent::Closed).action, HotAction::Stop);
}

#[test]
fn lines_are_those_of_the_standard_library() {
    for content in [
        "",
        "\n",
        "a",
        "a\n",
        "a\nb",
        "a\r\nb\r\n",
        "a\r",
        "a\r\r\nb",
        "\r",
        "\r\n",
        "\r\r\n",
        "a\rb\n",
        "\n\na\n\n\nb\n\n",
        "ä\r\nö€\n\u{1F600}",
    ] {
        let expected: Vec<String> =
            content.lines().filter(|line| !line.is_empty()).map(str::to_string).collect();
        assert_eq!(spilled_lines(content), expected, "{content:?}");
    }
}

#[test]
fn spilled_text_reads_back() {
    let lines: Vec<String> = vec!["{\"a\":1}".to_string(), "ä".to_string(), "c c".to_string()];
    let text: String = lines.iter().map(|line| spill_line(line)).collect();
    assert_eq!(text, "{\"a\":1}\nä\nc c\n");
    assert_eq!(spilled_lines(&text), lines);
    assert_eq!(remainder(&lines, 0), text);
    assert_eq!(remainder(&lines, 2), "c c\n");
    assert_eq!(remainder(&lines, 3), "");
}

#[test]
fn nothing_is_dropped_over_an_outage() {
    let mut dispatcher = HotDispatcher::new();
    let mut stream: Vec<String> = Vec::new();
    let mut spool: Option<String> = None;
    let mut appends = 0;
    let mut reads = 0;
    for i in 0..40 {
        // The stream takes two appends and fails on the third.
        let mut probes = i % 4;
        let mut step = dispatcher.advance(arrived(&format!("v{i}")));
        loop {
            let event = match step.action {
                HotAction::Append => {
                    appends += 1;
                    let ok = appends % 3 != 0;
                    if ok {
                        stream.push(dispatcher.in_hand().to_string());
                    }
                    HotEvent::Appended { ok }
                }
                HotAction::Publish => HotEvent::Published,
                HotAction::Spill => {
                    spool.get_or_insert_with(String::new).push_str(&dispatcher.spill());
                    HotEvent::Spilled { ok: true }
                }
                HotAction::Connect => HotEvent::Connected { ok: true },
                // Every other read fails.
                HotAction::ReadSpool => {
                    reads += 1;
                    HotEvent::Read {
                        outcome: match &spool {
                            _ if reads % 2 == 0 => SpoolRead::Unreadable,
                            Some(content) => SpoolRead::Text { content: content.clone() },
                            None => SpoolRead::Absent,
                        },
                    }
                }
                HotAction::RewriteSpool => {
                    spool = Some(dispatcher.unsent());
                    HotEvent::Rewritten
                }
                HotAction::RemoveSpool => {
                    spool = None;
                    HotEvent::Removed
                }
                HotAction::Wait { probe } if probe && probes < 3 && appends % 3 != 0 => {
                    probes += 1;
                    HotEvent::Probe
                }
                HotAction::Wait { .. } | HotAction::Stop => {
                    appends += 1;
                    break;
                }
            };
            step = dispatcher.advance(event);
        }
    }
    stream.extend(spilled_lines(&spool.unwrap_or_default()));
    assert_eq!(stream, (0..40).map(|i| format!("v{i}")).collect::<Vec<String>>());
}
