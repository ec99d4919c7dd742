//! The names and numbers that dashboards, logs and the database rely on.

use crate::ieee::{lemma_units_of_parts, lemma_units_ordered, units, Double, INFINITE};
use crate::metrics::{added, Counter, Family, FamilyKind, Gauge, MetricUpdate};
use crate::plant::{
    asset_kind, critical_of, links, names, plans_asset, rate_of, sensor_kind,
    zone_purpose, zone_title, AssetPlan, LinkKind,
};
use crate::rounding::{law_rounding_error_is_small, lemma_one, quotient};
use crate::text::decimal_digits;
use crate::types::SensorKind;
use crate::warm::FlushReason;
use vstd::arithmetic::power2::{
    lemma2_to64, lemma2_to64_rest, lemma_pow2_adds, lemma_pow2_pos, pow2,
};
use vstd::prelude::*;

verus! {

/// The names that dashboards know the metrics by.
pub proof fn law_metrics_keep_their_names(family: Family)
    ensures
        family == Family::Readings ==> family.title() == "ingest_readings_total"@,
        family == Family::Violations ==> family.title() == "ingest_violations_total"@,
        family == Family::BatchSize ==> family.title() == "ingest_batch_size"@,
        family == Family::HandlerSeconds ==> family.title() == "ingest_handler_seconds"@,
        family == Family::WarmFlushedRows ==> family.title() == "warm_flushed_rows_total"@,
        family == Family::WarmFlushFailures ==> family.title() == "warm_flush_failures_total"@,
        family == Family::WarmShedRows ==> family.title() == "warm_shed_rows_total"@,
        family == Family::WarmDegraded ==> family.title() == "warm_degraded_total"@,
        family == Family::WarmBufferedRows ==> family.title() == "warm_buffered_rows"@,
        family == Family::WarmFlushSeconds ==> family.title() == "warm_flush_seconds"@,
        family == Family::HotSent ==> family.title() == "hot_violations_sent_total"@,
        family == Family::HotSpilled ==> family.title() == "hot_violations_spilled_total"@,
        family == Family::HotReplayed ==> family.title() == "hot_violations_replayed_total"@,
        family == Family::HotLost ==> family.title() == "hot_violations_lost_total"@,
        family == Family::HotRedisUp ==> family.title() == "hot_redis_up"@,
{
}

/// What the metrics say of themselves.
pub proof fn law_metrics_explain_themselves(family: Family)
    ensures
        family == Family::Readings ==> family.purpose() == "Readings by processing result"@,
        family == Family::Violations ==> family.purpose() == "Threshold violations by severity"@,
        family == Family::BatchSize ==> family.purpose() == "Readings per batch"@,
        family == Family::HandlerSeconds ==> family.purpose() == "Ingest handler latency"@,
        family == Family::WarmFlushedRows ==> family.purpose() == "Rows written via COPY"@,
        family == Family::WarmFlushFailures ==> family.purpose() == "Failed COPY flushes"@,
        family == Family::WarmShedRows ==> family.purpose() == "Bulk rows shed during outage"@,
        family == Family::WarmDegraded ==> family.purpose() == "Degraded-mode decisions"@,
        family == Family::WarmBufferedRows ==> family.purpose() == "Rows waiting in writer buffer"@,
        family == Family::WarmFlushSeconds ==> family.purpose() == "COPY flush latency"@,
        family == Family::HotSent ==> family.purpose() == "Violations XADDed to the stream"@,
        family == Family::HotSpilled ==> family.purpose() == "Violations written to spill file"@,
        family == Family::HotReplayed ==> family.purpose()
            == "Spilled violations replayed to stream"@,
        family == Family::HotLost ==> family.purpose()
            == "Violations LOST (spill unwritable) — must stay 0"@,
        family == Family::HotRedisUp ==> family.purpose() == "1 when the hot lane has Redis"@,
{
}

/// Which metrics are levels, which are histograms, which are counted by a label and
/// by which; all others are plain counts.
pub proof fn law_metrics_record_what_they_say(family: Family)
    ensures
        family.kind() == FamilyKind::Level <==> family == Family::WarmBufferedRows || family
            == Family::HotRedisUp,
        family.kind() == FamilyKind::Histogram <==> family == Family::BatchSize || family
            == Family::HandlerSeconds || family == Family::WarmFlushSeconds,
        family.kind() == FamilyKind::CountsBy <==> family == Family::Readings || family
            == Family::Violations || family == Family::WarmDegraded,
        family == Family::Readings ==> family.label_text() == "result"@,
        family == Family::Violations ==> family.label_text() == "severity"@,
        family == Family::WarmDegraded ==> family.label_text() == "action"@,
        family.kind() != FamilyKind::CountsBy ==> family.label_text() == ""@,
{
}

/// The bounds of the histograms, in millionths.
pub proof fn law_histograms_keep_their_bounds()
    ensures
        Family::BatchSize.bounds() == seq![
            10_000_000u64,
            50_000_000u64,
            100_000_000u64,
            250_000_000u64,
            500_000_000u64,
            1_000_000_000u64,
            2_000_000_000u64,
        ],
        Family::HandlerSeconds.bounds() == seq![
            500u64,
            1_000u64,
            2_500u64,
            5_000u64,
            10_000u64,
            25_000u64,
            50_000u64,
            100_000u64,
        ],
        Family::WarmFlushSeconds.bounds() == seq![
            1_000u64,
            2_500u64,
            5_000u64,
            10_000u64,
            25_000u64,
            50_000u64,
            100_000u64,
            250_000u64,
        ],
{
}

/// Where each count is kept.
pub proof fn law_counts_keep_their_place(counter: Counter)
    ensures
        counter == Counter::ReadingsAccepted ==> counter.belongs_to() == Family::Readings
            && counter.labelled() == "accepted"@,
        counter == Counter::ReadingsUnknownSensor ==> counter.belongs_to() == Family::Readings
            && counter.labelled() == "unknown_sensor"@,
        counter == Counter::ReadingsInactiveSensor ==> counter.belongs_to() == Family::Readings
            && counter.labelled() == "inactive_sensor"@,
        counter == Counter::ViolationsWarn ==> counter.belongs_to() == Family::Violations
            && counter.labelled() == "warn"@,
        counter == Counter::ViolationsCritical ==> counter.belongs_to() == Family::Violations
            && counter.labelled() == "critical"@,
        counter == Counter::WarmFlushedRows ==> counter.belongs_to() == Family::WarmFlushedRows
            && counter.labelled() == ""@,
        counter == Counter::WarmFlushFailures ==> counter.belongs_to() == Family::WarmFlushFailures
            && counter.labelled() == ""@,
        counter == Counter::WarmShedRows ==> counter.belongs_to() == Family::WarmShedRows
            && counter.labelled() == ""@,
        counter == Counter::WarmDegradedKept ==> counter.belongs_to() == Family::WarmDegraded
            && counter.labelled() == "kept"@,
        counter == Counter::WarmDegradedDropped ==> counter.belongs_to() == Family::WarmDegraded
            && counter.labelled() == "dropped"@,
        counter == Counter::HotSent ==> counter.belongs_to() == Family::HotSent
            && counter.labelled() == ""@,
        counter == Counter::HotSpilled ==> counter.belongs_to() == Family::HotSpilled
            && counter.labelled() == ""@,
        counter == Counter::HotReplayed ==> counter.belongs_to() == Family::HotReplayed
            && counter.labelled() == ""@,
        counter == Counter::HotLost ==> counter.belongs_to() == Family::HotLost
            && counter.labelled() == ""@,
{
}

/// Where each level is kept.
pub proof fn law_levels_keep_their_place(gauge: Gauge)
    ensures
        gauge == Gauge::WarmBuffered ==> gauge.belongs_to() == Family::WarmBufferedRows,
        gauge == Gauge::HotRedisUp ==> gauge.belongs_to() == Family::HotRedisUp,
{
}

/// A count adds to its own counter, by what it says, and to no other; a level adds to
/// none.
pub proof fn law_a_count_adds_to_its_counter(
    updates: Seq<MetricUpdate>,
    update: MetricUpdate,
    counter: Counter,
)
    ensures
        added(seq![], counter) == 0,
        added(updates.push(update), counter) == added(updates, counter) + match update {
            MetricUpdate::Count { counter: c, by } => if c == counter {
                by as nat
            } else {
                0
            },
            MetricUpdate::Level { .. } => 0,
        },
{
    assert(updates.push(update).drop_last() =~= updates);
}

/// The words for why the warm lane flushes.
pub proof fn law_flushes_name_their_reason(reason: FlushReason)
    ensures
        reason == FlushReason::Size ==> reason.label() == "size"@,
        reason == FlushReason::Timer ==> reason.label() == "timer"@,
        reason == FlushReason::Shutdown ==> reason.label() == "shutdown"@,
{
}

/// The zones of the plant.
pub proof fn law_zones_keep_their_names(zone: int)
    ensures
        zone == 0 ==> zone_title(zone) == "Crusher Hall A"@ && zone_purpose(zone)
            == "crusher_hall"@,
        zone == 1 ==> zone_title(zone) == "Crusher Hall B"@ && zone_purpose(zone)
            == "crusher_hall"@,
        zone == 2 ==> zone_title(zone) == "Conveyor Gallery 1"@ && zone_purpose(zone)
            == "conveyor_gallery"@,
        zone == 3 ==> zone_title(zone) == "Conveyor Gallery 2"@ && zone_purpose(zone)
            == "conveyor_gallery"@,
        zone == 4 ==> zone_title(zone) == "Conveyor Gallery 3"@ && zone_purpose(zone)
            == "conveyor_gallery"@,
        zone == 5 ==> zone_title(zone) == "Mill Floor"@ && zone_purpose(zone)
            == "processing"@,
        zone == 6 ==> zone_title(zone) == "Flotation Hall"@ && zone_purpose(zone)
            == "processing"@,
        zone == 7 ==> zone_title(zone) == "Thickener Deck"@ && zone_purpose(zone)
            == "processing"@,
        zone == 8 ==> zone_title(zone) == "Reagent Store"@ && zone_purpose(zone)
            == "storage"@,
        zone == 9 ==> zone_title(zone) == "Concentrate Shed"@ && zone_purpose(zone)
            == "storage"@,
        zone == 10 ==> zone_title(zone) == "Vent Shaft North"@ && zone_purpose(zone)
            == "vent_shaft"@,
        zone == 11 ==> zone_title(zone) == "Vent Shaft South"@ && zone_purpose(zone)
            == "vent_shaft"@,
        zone == 12 ==> zone_title(zone) == "Substation 1"@ && zone_purpose(zone)
            == "electrical"@,
        zone == 13 ==> zone_title(zone) == "Substation 2"@ && zone_purpose(zone)
            == "electrical"@,
        zone == 14 ==> zone_title(zone) == "Control Annex"@ && zone_purpose(zone)
            == "control"@,
        zone == 15 ==> zone_title(zone) == "Workshop"@ && zone_purpose(zone)
            == "maintenance"@,
        zone == 16 ==> zone_title(zone) == "Tailings Pump House"@ && zone_purpose(zone)
            == "pumping"@,
        zone == 17 ==> zone_title(zone) == "Water Treatment"@ && zone_purpose(zone)
            == "utilities"@,
{
}

/// The words for how zones are linked.
pub proof fn law_links_have_their_words(kind: LinkKind)
    ensures
        kind == LinkKind::Passage ==> kind.label() == "passage"@,
        kind == LinkKind::Conveyor ==> kind.label() == "conveyor"@,
        kind == LinkKind::Duct ==> kind.label() == "duct"@,
{
}

/// The links of the plant: each zone to the next, and seven across.
pub proof fn law_links_of_the_plant(zone: int)
    ensures
        links().len() == 24,
        0 <= zone < 17 ==> {
            &&& links()[zone].from == zone
            &&& links()[zone].to == zone + 1
            &&& links()[zone].kind == LinkKind::Passage
        },
        links()[17].from == 0 && links()[17].to == 5 && links()[17].kind
            == LinkKind::Conveyor,
        links()[18].from == 1 && links()[18].to == 5 && links()[18].kind
            == LinkKind::Conveyor,
        links()[19].from == 5 && links()[19].to == 6 && links()[19].kind
            == LinkKind::Conveyor,
        links()[20].from == 10 && links()[20].to == 0 && links()[20].kind
            == LinkKind::Duct,
        links()[21].from == 10 && links()[21].to == 5 && links()[21].kind
            == LinkKind::Duct,
        links()[22].from == 11 && links()[22].to == 6 && links()[22].kind
            == LinkKind::Duct,
        links()[23].from == 16 && links()[23].to == 17 && links()[23].kind
            == LinkKind::Passage,
{
}

/// The kinds of a zone's assets, in turn, six by six.
pub proof fn law_assets_take_turns(number: int)
    requires
        0 <= number,
    ensures
        asset_kind(number + 6) == asset_kind(number),
        number % 6 == 0 ==> asset_kind(number) == "ball_mill"@,
        number % 6 == 1 ==> asset_kind(number) == "conveyor_drive"@,
        number % 6 == 2 ==> asset_kind(number) == "vent_fan"@,
        number % 6 == 3 ==> asset_kind(number) == "pump"@,
        number % 6 == 4 ==> asset_kind(number) == "screen"@,
        number % 6 == 5 ==> asset_kind(number) == "feeder"@,
{
}

/// An asset is named by its number, counted from one, and is isolated in two steps:
/// it is stopped, and then locked out.
pub proof fn law_an_asset_is_stopped_and_locked_out(plan: AssetPlan, number: int)
    requires
        plans_asset(plan, number),
    ensures
        plan.name@ == "asset-"@ + decimal_digits((number + 1) as nat),
        plan.kind@ == asset_kind(number),
        plan.steps@.len() == 2,
        plan.steps@[0].step == 1,
        plan.steps@[0].action@ == "stop "@ + plan.kind@,
        plan.steps@[0].after@.len() == 0,
        plan.steps@[1].step == 2,
        plan.steps@[1].action@ == "lockout-tagout"@,
        plan.steps@[1].after@.len() == 1,
        plan.steps@[1].after@[0] == 1,
{
}

/// The texts of a list are those of its entries.
pub proof fn law_names_are_those_of_the_texts(texts: Seq<&'static str>, i: int)
    requires
        0 <= i < texts.len(),
    ensures
        names(texts).len() == texts.len(),
        names(texts)[i] == texts[i]@,
{
}

/// Sensors take the nine kinds in turn.
pub proof fn law_sensors_take_turns(number: int)
    requires
        0 <= number,
    ensures
        sensor_kind(number + 9) == sensor_kind(number),
        number % 9 == 0 ==> sensor_kind(number) == SensorKind::GasCh4,
        number % 9 == 1 ==> sensor_kind(number) == SensorKind::GasCo,
        number % 9 == 2 ==> sensor_kind(number) == SensorKind::O2,
        number % 9 == 3 ==> sensor_kind(number) == SensorKind::Temp,
        number % 9 == 4 ==> sensor_kind(number) == SensorKind::Vibration,
        number % 9 == 5 ==> sensor_kind(number) == SensorKind::Pressure,
        number % 9 == 6 ==> sensor_kind(number) == SensorKind::Airflow,
        number % 9 == 7 ==> sensor_kind(number) == SensorKind::DustPm10,
        number % 9 == 8 ==> sensor_kind(number) == SensorKind::Seismic,
{
}

/// The unit of each kind, where its warning thresholds are drawn from, and how many
/// tenths of that its critical one is.
pub proof fn law_kinds_keep_their_numbers(kind: SensorKind)
    ensures
        kind == SensorKind::GasCh4 ==> kind.unit_label() == "%LEL"@ && kind.warn_tenths()
            == (100u64, 200u64) && kind.crit_tenths() == 20,
        kind == SensorKind::GasCo ==> kind.unit_label() == "ppm"@ && kind.warn_tenths()
            == (250u64, 350u64) && kind.crit_tenths() == 18,
        kind == SensorKind::O2 ==> kind.unit_label() == "%vol"@ && kind.warn_tenths()
            == (190u64, 195u64) && kind.crit_tenths() == 9,
        kind == SensorKind::Temp ==> kind.unit_label() == "degC"@ && kind.warn_tenths()
            == (600u64, 750u64) && kind.crit_tenths() == 14,
        kind == SensorKind::Vibration ==> kind.unit_label() == "mm_s"@ && kind.warn_tenths()
            == (45u64, 70u64) && kind.crit_tenths() == 16,
        kind == SensorKind::Pressure ==> kind.unit_label() == "kPa"@ && kind.warn_tenths()
            == (5500u64, 7000u64) && kind.crit_tenths() == 13,
        kind == SensorKind::Airflow ==> kind.unit_label() == "m3_s"@ && kind.warn_tenths()
            == (200u64, 300u64) && kind.crit_tenths() == 7,
        kind == SensorKind::DustPm10 ==> kind.unit_label() == "ug_m3"@ && kind.warn_tenths()
            == (1200u64, 1800u64) && kind.crit_tenths() == 15,
        kind == SensorKind::Seismic ==> kind.unit_label() == "mm_s"@ && kind.warn_tenths()
            == (20u64, 40u64) && kind.crit_tenths() == 25,
{
}

/// Vibration is sampled ten times a second, everything else once.
pub proof fn law_vibration_is_sampled_ten_times_a_second(kind: SensorKind)
    ensures
        rate_of(kind).value() == if kind == SensorKind::Vibration {
            10 * pow2(1074)
        } else {
            1 * pow2(1074)
        },
{
    lemma2_to64();
    lemma2_to64_rest();
    // 10.0 is 1.25 times 2^3, and 1.0 is 1 times 2^0.
    lemma_pow2_adds(129, 925);
    lemma_pow2_adds(126, 925);
    lemma_pow2_adds(20, 1054);
    lemma_pow2_adds(23, 1051);
    assert(pow2(20) == 0x10_0000);
    assert(pow2(23) == 0x80_0000);
    let a = pow2(129) as int;
    let b = pow2(126) as int;
    let q = pow2(925) as int;
    let x = pow2(1054) as int;
    let y = pow2(1051) as int;
    assert((0xA0_0000 * a) * q == 10 * (0x10_0000 * x)) by (nonlinear_arith)
        requires
            a * q == x,
    ;
    assert((0x80_0000 * b) * q == 0x80_0000 * y) by (nonlinear_arith)
        requires
            b * q == y,
    ;
}

/// A critical threshold is so many tenths of the warning one, but for two roundings of
/// one part in 2^53 each. This needs a threshold well inside the normal range.
pub proof fn law_a_critical_threshold_is_its_share(kind: SensorKind, warn: Double)
    requires
        0x20_0000_0000_0000 <= warn.bits < 0x7f00_0000_0000_0000,
    ensures
        ({
            let u = 0x20_0000_0000_0000int;
            let exact = kind.crit_tenths() * units(warn.bits as int);
            let crit = units(critical_of(kind, warn).bits as int);
            &&& u * u * (10 * crit) <= (u + 1) * (u + 1) * exact
            &&& u * u * (10 * crit) >= (u - 1) * (u - 1) * exact
        }),
{
    let u = 0x20_0000_0000_0000int;
    let p = pow2(1074) as int;
    let t = kind.crit_tenths() as int;
    let w = units(warn.bits as int) as int;
    let factor = quotient(kind.crit_tenths() as nat, 10);
    let f = units(factor as int) as int;
    let c = units(critical_of(kind, warn).bits as int) as int;
    lemma_pow2_pos(1074);
    lemma_large_numbers();
    lemma_one();
    let n = (kind.crit_tenths() as nat * pow2(1074)) as nat;
    assert(t * p >= 7 * p && t * p <= 25 * p) by (nonlinear_arith)
        requires
            7 <= t <= 25,
            p > 0,
    ;
    law_rounding_error_is_small(n, 10);
    lemma_units_ordered(0x20_0000_0000_0000, warn.bits as int);
    lemma_units_ordered(warn.bits as int, 0x7f00_0000_0000_0000);
    lemma_units_of_parts(1, 0x10_0000_0000_0000);
    lemma2_to64();
    assert(w >= 0x20_0000_0000_0000);
    assert(u * (10 * f - t * p) <= t * p && u * (t * p - 10 * f) <= t * p);
    assert(10 * f >= 6 * p && 10 * f <= 26 * p);
    assert(w * f >= 0x10_0000_0000_0000 * p) by (nonlinear_arith)
        requires
            w >= 0x20_0000_0000_0000,
            10 * f >= 6 * p,
            p > 0,
    ;
    assert(w * f < p * units(INFINITE as int)) by {
        let top = units(0x7f00_0000_0000_0000) as int;
        let inf = units(INFINITE as int) as int;
        assert(w * f <= 3 * (top * p)) by (nonlinear_arith)
            requires
                0 <= w <= top,
                0 <= 10 * f <= 26 * p,
        ;
        assert(3 * (top * p) < p * inf) by (nonlinear_arith)
            requires
                4 * top <= inf,
                top > 0,
                p > 0,
        ;
    }
    law_rounding_error_is_small(units(warn.bits as int) * units(factor as int), pow2(1074));
    assert(u * (p * c - w * f) <= w * f && u * (w * f - p * c) <= w * f);
    lemma_two_roundings(u, p, t, w, f, c);
}

proof fn lemma_large_numbers()
    ensures
        pow2(1074) >= 0x20_0000_0000_0000 * 10,
        4 * units(0x7f00_0000_0000_0000) <= units(INFINITE as int),
        pow2(1074) * 100 <= units(INFINITE as int),
{
    lemma2_to64();
    lemma2_to64_rest();
    lemma_pow2_adds(60, 1014);
    lemma_pow2_pos(1014);
    let x = pow2(1014) as int;
    assert(0x1000_0000_0000_0000 * x >= 0x1000_0000_0000_0000) by (nonlinear_arith)
        requires
            x >= 1,
    ;
    lemma_units_of_parts(2031, 0x10_0000_0000_0000);
    lemma_units_of_parts(2046, 0x10_0000_0000_0000);
    lemma_pow2_adds(15, 2031);
    lemma_pow2_adds(1074, 972);
    lemma_pow2_adds(10, 962);
    lemma_pow2_pos(2031);
    lemma_pow2_pos(962);
    lemma_pow2_pos(1074);
    let y = pow2(2031) as int;
    assert(4 * (0x10_0000_0000_0000 * y) <= 0x10_0000_0000_0000 * (0x8000 * y))
        by (nonlinear_arith)
        requires
            y >= 1,
    ;
    let p = pow2(1074) as int;
    let z = pow2(962) as int;
    assert(p * 100 <= 0x10_0000_0000_0000 * (p * (1024 * z))) by (nonlinear_arith)
        requires
            z >= 1,
            p >= 1,
    ;
}

/// One rounding after the other.
proof fn lemma_two_roundings(u: int, p: int, t: int, w: int, f: int, c: int)
    requires
        u == 0x20_0000_0000_0000,
        p > 0,
        t >= 0,
        w >= 0,
        f >= 0,
        c >= 0,
        u * (10 * f - t * p) <= t * p,
        u * (t * p - 10 * f) <= t * p,
        u * (p * c - w * f) <= w * f,
        u * (w * f - p * c) <= w * f,
    ensures
        u * u * (10 * c) <= (u + 1) * (u + 1) * (t * w),
        u * u * (10 * c) >= (u - 1) * (u - 1) * (t * w),
{
    assert(u * (10 * f) <= (u + 1) * (t * p) && u * (10 * f) >= (u - 1) * (t * p))
        by (nonlinear_arith)
        requires
            u * (10 * f - t * p) <= t * p,
            u * (t * p - 10 * f) <= t * p,
    ;
    assert(u * (p * c) <= (u + 1) * (w * f) && u * (p * c) >= (u - 1) * (w * f))
        by (nonlinear_arith)
        requires
            u * (p * c - w * f) <= w * f,
            u * (w * f - p * c) <= w * f,
    ;
    let k = 10 * u;
    assert(k * (u * (p * c)) == (u * u * (10 * c)) * p) by (nonlinear_arith)
        requires
            k == 10 * u,
    ;
    assert(k * ((u + 1) * (w * f)) == ((u + 1) * w) * (u * (10 * f))) by (nonlinear_arith)
        requires
            k == 10 * u,
    ;
    assert(k * ((u - 1) * (w * f)) == ((u - 1) * w) * (u * (10 * f))) by (nonlinear_arith)
        requires
            k == 10 * u,
    ;
    assert(k * (u * (p * c)) <= k * ((u + 1) * (w * f)) && k * (u * (p * c)) >= k * ((u - 1) * (w
        * f))) by (nonlinear_arith)
        requires
            u * (p * c) <= (u + 1) * (w * f),
            u * (p * c) >= (u - 1) * (w * f),
            k > 0,
    ;
    let a = (u + 1) * w;
    let b = (u - 1) * w;
    assert(a >= 0 && b >= 0) by (nonlinear_arith)
        requires
            a == (u + 1) * w,
            b == (u - 1) * w,
            u > 1,
            w >= 0,
    ;
    assert(a * (u * (10 * f)) <= a * ((u + 1) * (t * p))) by (nonlinear_arith)
        requires
            u * (10 * f) <= (u + 1) * (t * p),
            a >= 0,
    ;
    assert(b * (u * (10 * f)) >= b * ((u - 1) * (t * p))) by (nonlinear_arith)
        requires
            u * (10 * f) >= (u - 1) * (t * p),
            b >= 0,
    ;
    assert(a * ((u + 1) * (t * p)) == ((u + 1) * (u + 1) * (t * w)) * p) by (nonlinear_arith)
        requires
            a == (u + 1) * w,
    ;
    assert(b * ((u - 1) * (t * p)) == ((u - 1) * (u - 1) * (t * w)) * p) by (nonlinear_arith)
        requires
            b == (u - 1) * w,
    ;
    let x = u * u * (10 * c);
    let high = (u + 1) * (u + 1) * (t * w);
    let low = (u - 1) * (u - 1) * (t * w);
    assert(x <= high && x >= low) by (nonlinear_arith)
        requires
            x * p <= high * p,
            x * p >= low * p,
            p > 0,
    ;
}

} // verus!
