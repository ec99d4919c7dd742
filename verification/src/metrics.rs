//! The gateway's flight instruments: which metrics there are, and what the lanes
//! report to them.
//!
//! The lanes never touch a metric. They hand out [`MetricUpdate`]s, and whoever
//! performs a lane's actions applies them.

use vstd::prelude::*;

verus! {

/// A monotonic count.
#[derive(Clone, Copy, Debug, PartialEq, Eq, Structural)]
pub enum Counter {
    ReadingsAccepted,
    ReadingsUnknownSensor,
    ReadingsInactiveSensor,
    ViolationsWarn,
    ViolationsCritical,
    WarmFlushedRows,
    WarmFlushFailures,
    WarmShedRows,
    WarmDegradedKept,
    WarmDegradedDropped,
    HotSent,
    HotSpilled,
    HotReplayed,
    HotLost,
}

/// A level that goes up and down.
#[derive(Clone, Copy, Debug, PartialEq, Eq, Structural)]
pub enum Gauge {
    WarmBuffered,
    HotRedisUp,
}

/// One change of a metric.
#[derive(Clone, Copy, Debug, PartialEq, Eq, Structural)]
pub enum MetricUpdate {
    Count { counter: Counter, by: u64 },
    Level { gauge: Gauge, to: i64 },
}

/// How much the updates add to one counter.
pub open spec fn added(updates: Seq<MetricUpdate>, counter: Counter) -> nat
    decreases updates.len(),
{
    if updates.len() == 0 {
        0
    } else {
        let rest = added(updates.drop_last(), counter);
        match updates.last() {
            MetricUpdate::Count { counter: c, by } => if c == counter {
                rest + by as nat
            } else {
                rest
            },
            MetricUpdate::Level { .. } => rest,
        }
    }
}

/// Updates given one after the other add up.
pub proof fn law_updates_add_up(
    first: Seq<MetricUpdate>,
    second: Seq<MetricUpdate>,
    counter: Counter,
)
    ensures
        added(first + second, counter) == added(first, counter) + added(second, counter),
    decreases second.len(),
{
    if second.len() == 0 {
        assert(first + second =~= first);
    } else {
        law_updates_add_up(first, second.drop_last(), counter);
        assert((first + second).drop_last() =~= first + second.drop_last());
    }
}

/// The metrics that there are.
#[derive(Clone, Copy, Debug, PartialEq, Eq, Structural)]
pub enum Family {
    Readings,
    Violations,
    BatchSize,
    HandlerSeconds,
    WarmFlushedRows,
    WarmFlushFailures,
    WarmShedRows,
    WarmDegraded,
    WarmBufferedRows,
    WarmFlushSeconds,
    HotSent,
    HotSpilled,
    HotReplayed,
    HotLost,
    HotRedisUp,
}

/// What a metric records.
#[derive(Clone, Copy, Debug, PartialEq, Eq, Structural)]
pub enum FamilyKind {
    /// One count.
    Counts,
    /// One count for each value of a label.
    CountsBy,
    /// A level.
    Level,
    /// How many observations lie below each of some bounds.
    Histogram,
}

impl Family {
    pub open spec fn title(self) -> Seq<char> {
        match self {
            Family::Readings => "ingest_readings_total"@,
            Family::Violations => "ingest_violations_total"@,
            Family::BatchSize => "ingest_batch_size"@,
            Family::HandlerSeconds => "ingest_handler_seconds"@,
            Family::WarmFlushedRows => "warm_flushed_rows_total"@,
            Family::WarmFlushFailures => "warm_flush_failures_total"@,
            Family::WarmShedRows => "warm_shed_rows_total"@,
            Family::WarmDegraded => "warm_degraded_total"@,
            Family::WarmBufferedRows => "warm_buffered_rows"@,
            Family::WarmFlushSeconds => "warm_flush_seconds"@,
            Family::HotSent => "hot_violations_sent_total"@,
            Family::HotSpilled => "hot_violations_spilled_total"@,
            Family::HotReplayed => "hot_violations_replayed_total"@,
            Family::HotLost => "hot_violations_lost_total"@,
            Family::HotRedisUp => "hot_redis_up"@,
        }
    }

    /// The name that the metric is exposed under.
    pub fn name(self) -> (r: &'static str)
        ensures
            r@ == self.title(),
    {
        match self {
            Family::Readings => "ingest_readings_total",
            Family::Violations => "ingest_violations_total",
            Family::BatchSize => "ingest_batch_size",
            Family::HandlerSeconds => "ingest_handler_seconds",
            Family::WarmFlushedRows => "warm_flushed_rows_total",
            Family::WarmFlushFailures => "warm_flush_failures_total",
            Family::WarmShedRows => "warm_shed_rows_total",
            Family::WarmDegraded => "warm_degraded_total",
            Family::WarmBufferedRows => "warm_buffered_rows",
            Family::WarmFlushSeconds => "warm_flush_seconds",
            Family::HotSent => "hot_violations_sent_total",
            Family::HotSpilled => "hot_violations_spilled_total",
            Family::HotReplayed => "hot_violations_replayed_total",
            Family::HotLost => "hot_violations_lost_total",
            Family::HotRedisUp => "hot_redis_up",
        }
    }

    pub open spec fn purpose(self) -> Seq<char> {
        match self {
            Family::Readings => "Readings by processing result"@,
            Family::Violations => "Threshold violations by severity"@,
            Family::BatchSize => "Readings per batch"@,
            Family::HandlerSeconds => "Ingest handler latency"@,
            Family::WarmFlushedRows => "Rows written via COPY"@,
            Family::WarmFlushFailures => "Failed COPY flushes"@,
            Family::WarmShedRows => "Bulk rows shed during outage"@,
            Family::WarmDegraded => "Degraded-mode decisions"@,
            Family::WarmBufferedRows => "Rows waiting in writer buffer"@,
            Family::WarmFlushSeconds => "COPY flush latency"@,
            Family::HotSent => "Violations XADDed to the stream"@,
            Family::HotSpilled => "Violations written to spill file"@,
            Family::HotReplayed => "Spilled violations replayed to stream"@,
            Family::HotLost => "Violations LOST (spill unwritable) — must stay 0"@,
            Family::HotRedisUp => "1 when the hot lane has Redis"@,
        }
    }

    /// The line of help that goes with it.
    pub fn help(self) -> (r: &'static str)
        ensures
            r@ == self.purpose(),
    {
        match self {
            Family::Readings => "Readings by processing result",
            Family::Violations => "Threshold violations by severity",
            Family::BatchSize => "Readings per batch",
            Family::HandlerSeconds => "Ingest handler latency",
            Family::WarmFlushedRows => "Rows written via COPY",
            Family::WarmFlushFailures => "Failed COPY flushes",
            Family::WarmShedRows => "Bulk rows shed during outage",
            Family::WarmDegraded => "Degraded-mode decisions",
            Family::WarmBufferedRows => "Rows waiting in writer buffer",
            Family::WarmFlushSeconds => "COPY flush latency",
            Family::HotSent => "Violations XADDed to the stream",
            Family::HotSpilled => "Violations written to spill file",
            Family::HotReplayed => "Spilled violations replayed to stream",
            Family::HotLost => "Violations LOST (spill unwritable) — must stay 0",
            Family::HotRedisUp => "1 when the hot lane has Redis",
        }
    }

    /// What it records.
    pub open spec fn kind(self) -> FamilyKind {
        match self {
            Family::Readings | Family::Violations | Family::WarmDegraded => FamilyKind::CountsBy,
            Family::WarmBufferedRows | Family::HotRedisUp => FamilyKind::Level,
            Family::BatchSize | Family::HandlerSeconds | Family::WarmFlushSeconds =>
            FamilyKind::Histogram,
            _ => FamilyKind::Counts,
        }
    }

    pub fn recorded(self) -> (r: FamilyKind)
        ensures
            r == self.kind(),
    {
        match self {
            Family::Readings | Family::Violations | Family::WarmDegraded => FamilyKind::CountsBy,
            Family::WarmBufferedRows | Family::HotRedisUp => FamilyKind::Level,
            Family::BatchSize | Family::HandlerSeconds | Family::WarmFlushSeconds =>
            FamilyKind::Histogram,
            _ => FamilyKind::Counts,
        }
    }

    /// The label whose values it counts by; empty where there is none.
    pub open spec fn label_text(self) -> Seq<char> {
        match self {
            Family::Readings => "result"@,
            Family::Violations => "severity"@,
            Family::WarmDegraded => "action"@,
            _ => ""@,
        }
    }

    pub fn label(self) -> (r: &'static str)
        ensures
            r@ == self.label_text(),
    {
        match self {
            Family::Readings => "result",
            Family::Violations => "severity",
            Family::WarmDegraded => "action",
            _ => "",
        }
    }

    /// The bounds of a histogram, in millionths; none for other metrics.
    pub open spec fn bounds(self) -> Seq<u64> {
        match self {
            Family::BatchSize => seq![
                10_000_000u64,
                50_000_000u64,
                100_000_000u64,
                250_000_000u64,
                500_000_000u64,
                1_000_000_000u64,
                2_000_000_000u64,
            ],
            Family::HandlerSeconds => seq![
                500u64,
                1_000u64,
                2_500u64,
                5_000u64,
                10_000u64,
                25_000u64,
                50_000u64,
                100_000u64,
            ],
            Family::WarmFlushSeconds => seq![
                1_000u64,
                2_500u64,
                5_000u64,
                10_000u64,
                25_000u64,
                50_000u64,
                100_000u64,
                250_000u64,
            ],
            _ => seq![],
        }
    }

    /// The bounds of the metric's buckets, in millionths.
    pub fn buckets(self) -> (r: Vec<u64>)
        ensures
            r@ == self.bounds(),
    {
        match self {
            Family::BatchSize => vec![
                10_000_000,
                50_000_000,
                100_000_000,
                250_000_000,
                500_000_000,
                1_000_000_000,
                2_000_000_000,
            ],
            Family::HandlerSeconds => vec![
                500,
                1_000,
                2_500,
                5_000,
                10_000,
                25_000,
                50_000,
                100_000,
            ],
            Family::WarmFlushSeconds => vec![
                1_000,
                2_500,
                5_000,
                10_000,
                25_000,
                50_000,
                100_000,
                250_000,
            ],
            _ => Vec::new(),
        }
    }
}

/// Every metric.
pub open spec fn every_family() -> Seq<Family> {
    seq![
        Family::Readings,
        Family::Violations,
        Family::BatchSize,
        Family::HandlerSeconds,
        Family::WarmFlushedRows,
        Family::WarmFlushFailures,
        Family::WarmShedRows,
        Family::WarmDegraded,
        Family::WarmBufferedRows,
        Family::WarmFlushSeconds,
        Family::HotSent,
        Family::HotSpilled,
        Family::HotReplayed,
        Family::HotLost,
        Family::HotRedisUp,
    ]
}

/// All metrics, as they are registered.
pub fn families() -> (r: Vec<Family>)
    ensures
        r@ == every_family(),
{
    vec![
        Family::Readings,
        Family::Violations,
        Family::BatchSize,
        Family::HandlerSeconds,
        Family::WarmFlushedRows,
        Family::WarmFlushFailures,
        Family::WarmShedRows,
        Family::WarmDegraded,
        Family::WarmBufferedRows,
        Family::WarmFlushSeconds,
        Family::HotSent,
        Family::HotSpilled,
        Family::HotReplayed,
        Family::HotLost,
        Family::HotRedisUp,
    ]
}

/// The list names every metric once.
pub proof fn law_every_family_is_listed_once(family: Family)
    ensures
        exists|i: int| 0 <= i < every_family().len() && #[trigger] every_family()[i] == family,
        every_family().no_duplicates(),
{
    let all = every_family();
    match family {
        Family::Readings => {
            assert(all[0] == family);
        },
        Family::Violations => {
            assert(all[1] == family);
        },
        Family::BatchSize => {
            assert(all[2] == family);
        },
        Family::HandlerSeconds => {
            assert(all[3] == family);
        },
        Family::WarmFlushedRows => {
            assert(all[4] == family);
        },
        Family::WarmFlushFailures => {
            assert(all[5] == family);
        },
        Family::WarmShedRows => {
            assert(all[6] == family);
        },
        Family::WarmDegraded => {
            assert(all[7] == family);
        },
        Family::WarmBufferedRows => {
            assert(all[8] == family);
        },
        Family::WarmFlushSeconds => {
            assert(all[9] == family);
        },
        Family::HotSent => {
            assert(all[10] == family);
        },
        Family::HotSpilled => {
            assert(all[11] == family);
        },
        Family::HotReplayed => {
            assert(all[12] == family);
        },
        Family::HotLost => {
            assert(all[13] == family);
        },
        Family::HotRedisUp => {
            assert(all[14] == family);
        },
    }
}

/// A fingerprint of a name: its length and three of its characters.
spec fn fingerprint(name: Seq<char>) -> (nat, char, char, char) {
    (name.len(), name[0], name[5], name[15])
}

/// No two metrics have the same name, so that registering them cannot clash.
pub proof fn law_names_are_distinct(a: Family, b: Family)
    requires
        a.title() == b.title(),
    ensures
        a == b,
{
    reveal_strlit("ingest_readings_total");
    reveal_strlit("ingest_violations_total");
    reveal_strlit("ingest_batch_size");
    reveal_strlit("ingest_handler_seconds");
    reveal_strlit("warm_flushed_rows_total");
    reveal_strlit("warm_flush_failures_total");
    reveal_strlit("warm_shed_rows_total");
    reveal_strlit("warm_degraded_total");
    reveal_strlit("warm_buffered_rows");
    reveal_strlit("warm_flush_seconds");
    reveal_strlit("hot_violations_sent_total");
    reveal_strlit("hot_violations_spilled_total");
    reveal_strlit("hot_violations_replayed_total");
    reveal_strlit("hot_violations_lost_total");
    reveal_strlit("hot_redis_up");
    assert(fingerprint(a.title()) == fingerprint(b.title()));
}

/// A histogram has bounds, in rising order; no other metric has any.
pub proof fn law_bounds_rise(family: Family)
    ensures
        family.kind() == FamilyKind::Histogram <==> family.bounds().len() > 0,
        forall|i: int, j: int|
            0 <= i < j < family.bounds().len() ==> family.bounds()[i] < family.bounds()[j],
{
}

impl Counter {
    pub open spec fn belongs_to(self) -> Family {
        match self {
            Counter::ReadingsAccepted => Family::Readings,
            Counter::ReadingsUnknownSensor => Family::Readings,
            Counter::ReadingsInactiveSensor => Family::Readings,
            Counter::ViolationsWarn => Family::Violations,
            Counter::ViolationsCritical => Family::Violations,
            Counter::WarmFlushedRows => Family::WarmFlushedRows,
            Counter::WarmFlushFailures => Family::WarmFlushFailures,
            Counter::WarmShedRows => Family::WarmShedRows,
            Counter::WarmDegradedKept => Family::WarmDegraded,
            Counter::WarmDegradedDropped => Family::WarmDegraded,
            Counter::HotSent => Family::HotSent,
            Counter::HotSpilled => Family::HotSpilled,
            Counter::HotReplayed => Family::HotReplayed,
            Counter::HotLost => Family::HotLost,
        }
    }

    /// The metric that the count is part of.
    pub fn family(self) -> (r: Family)
        ensures
            r == self.belongs_to(),
    {
        match self {
            Counter::ReadingsAccepted => Family::Readings,
            Counter::ReadingsUnknownSensor => Family::Readings,
            Counter::ReadingsInactiveSensor => Family::Readings,
            Counter::ViolationsWarn => Family::Violations,
            Counter::ViolationsCritical => Family::Violations,
            Counter::WarmFlushedRows => Family::WarmFlushedRows,
            Counter::WarmFlushFailures => Family::WarmFlushFailures,
            Counter::WarmShedRows => Family::WarmShedRows,
            Counter::WarmDegradedKept => Family::WarmDegraded,
            Counter::WarmDegradedDropped => Family::WarmDegraded,
            Counter::HotSent => Family::HotSent,
            Counter::HotSpilled => Family::HotSpilled,
            Counter::HotReplayed => Family::HotReplayed,
            Counter::HotLost => Family::HotLost,
        }
    }

    pub open spec fn labelled(self) -> Seq<char> {
        match self {
            Counter::ReadingsAccepted => "accepted"@,
            Counter::ReadingsUnknownSensor => "unknown_sensor"@,
            Counter::ReadingsInactiveSensor => "inactive_sensor"@,
            Counter::ViolationsWarn => "warn"@,
            Counter::ViolationsCritical => "critical"@,
            Counter::WarmFlushedRows => ""@,
            Counter::WarmFlushFailures => ""@,
            Counter::WarmShedRows => ""@,
            Counter::WarmDegradedKept => "kept"@,
            Counter::WarmDegradedDropped => "dropped"@,
            Counter::HotSent => ""@,
            Counter::HotSpilled => ""@,
            Counter::HotReplayed => ""@,
            Counter::HotLost => ""@,
        }
    }

    /// The value of the metric's label; empty where it has none.
    pub fn label_value(self) -> (r: &'static str)
        ensures
            r@ == self.labelled(),
    {
        match self {
            Counter::ReadingsAccepted => "accepted",
            Counter::ReadingsUnknownSensor => "unknown_sensor",
            Counter::ReadingsInactiveSensor => "inactive_sensor",
            Counter::ViolationsWarn => "warn",
            Counter::ViolationsCritical => "critical",
            Counter::WarmFlushedRows => "",
            Counter::WarmFlushFailures => "",
            Counter::WarmShedRows => "",
            Counter::WarmDegradedKept => "kept",
            Counter::WarmDegradedDropped => "dropped",
            Counter::HotSent => "",
            Counter::HotSpilled => "",
            Counter::HotReplayed => "",
            Counter::HotLost => "",
        }
    }
}

impl Gauge {
    pub open spec fn belongs_to(self) -> Family {
        match self {
            Gauge::WarmBuffered => Family::WarmBufferedRows,
            Gauge::HotRedisUp => Family::HotRedisUp,
        }
    }

    /// The metric that holds the level.
    pub fn family(self) -> (r: Family)
        ensures
            r == self.belongs_to(),
    {
        match self {
            Gauge::WarmBuffered => Family::WarmBufferedRows,
            Gauge::HotRedisUp => Family::HotRedisUp,
        }
    }
}

/// Each count has a place of its own: no two share a metric and a label value.
pub proof fn law_counts_are_kept_apart(a: Counter, b: Counter)
    requires
        a.belongs_to() == b.belongs_to(),
        a.labelled() == b.labelled(),
    ensures
        a == b,
{
    reveal_strlit("");
    reveal_strlit("accepted");
    reveal_strlit("critical");
    reveal_strlit("dropped");
    reveal_strlit("inactive_sensor");
    reveal_strlit("kept");
    reveal_strlit("unknown_sensor");
    reveal_strlit("warn");
    assert("accepted"@.len() == 8 && "unknown_sensor"@.len() == 14 && "inactive_sensor"@.len()
        == 15);
    assert("warn"@.len() == 4 && "critical"@.len() == 8);
    assert("kept"@.len() == 4 && "dropped"@.len() == 7);
}

/// A count that is one of several has a label value; one that stands alone has
/// none.
pub proof fn law_labels_fit(counter: Counter)
    ensures
        counter.belongs_to().kind() == FamilyKind::CountsBy <==> counter.labelled().len() > 0,
        counter.belongs_to().kind() == FamilyKind::CountsBy || counter.belongs_to().kind()
            == FamilyKind::Counts,
{
    reveal_strlit("");
    reveal_strlit("accepted");
    reveal_strlit("critical");
    reveal_strlit("dropped");
    reveal_strlit("inactive_sensor");
    reveal_strlit("kept");
    reveal_strlit("unknown_sensor");
    reveal_strlit("warn");
}

} // verus!
