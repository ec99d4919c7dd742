//! The plan of a realistic plant: one site, its zones and how they adjoin, their
//! assets, and sensors with thresholds that fit their kind.
//!
//! Thresholds are drawn for each sensor from a range of its kind, so that a zone
//! that gets dangerous gives a stagger of alarms.

use crate::ieee::{
    lemma_units_of_parts, lemma_units_ordered, lemma_units_step, scale_of, units, Double, Single,
    INFINITE, ONE,
};
use crate::rounding::{
    distance, from_fraction, law_integers_are_exact, law_products_are_monotone,
    law_rounding_is_total, law_rounding_keeps_doubles, lemma_one, multiply, product, quotient,
};
use crate::text::{decimal, decimal_digits};
use crate::threshold::alarms_high;
use crate::types::SensorKind;
use vstd::arithmetic::power2::{lemma_pow2_adds, lemma_pow2_pos, pow2};
use vstd::prelude::*;
use vstd::string::StringExecFns;

verus! {

pub const SITE_NAME: &'static str = "Pilbara Processing Facility";

pub const N_ZONES: usize = 18;

pub const ASSETS_PER_ZONE: usize = 10;

pub const N_ASSETS: usize = 180;

pub const N_SENSORS: usize = 3000;

/// How many sensors one statement inserts.
pub const INSERT_ROWS: usize = 500;

/// The seed of the threshold draws, so that plants are reproducible.
pub const SEED: u64 = 9843;

/// The characters of each text.
pub open spec fn names(texts: Seq<&'static str>) -> Seq<Seq<char>> {
    texts.map_values(|text: &'static str| text@)
}

/// The tables that are cleared before the plant is built, those that refer to
/// others first.
pub fn cleared_tables() -> (r: Vec<&'static str>)
    ensures
        names(r@) == seq!["sensor"@, "asset"@, "zone_adjacency"@, "zone"@, "site"@],
{
    let tables: Vec<&'static str> = vec!["sensor", "asset", "zone_adjacency", "zone", "site"];
    assert(names(tables@) =~= seq!["sensor"@, "asset"@, "zone_adjacency"@, "zone"@, "site"@]);
    tables
}

/// The name of a zone.
pub open spec fn zone_title(zone: int) -> Seq<char> {
    seq![
        "Crusher Hall A"@,
        "Crusher Hall B"@,
        "Conveyor Gallery 1"@,
        "Conveyor Gallery 2"@,
        "Conveyor Gallery 3"@,
        "Mill Floor"@,
        "Flotation Hall"@,
        "Thickener Deck"@,
        "Reagent Store"@,
        "Concentrate Shed"@,
        "Vent Shaft North"@,
        "Vent Shaft South"@,
        "Substation 1"@,
        "Substation 2"@,
        "Control Annex"@,
        "Workshop"@,
        "Tailings Pump House"@,
        "Water Treatment"@,
    ][zone]
}

/// What a zone is for.
pub open spec fn zone_purpose(zone: int) -> Seq<char> {
    seq![
        "crusher_hall"@,
        "crusher_hall"@,
        "conveyor_gallery"@,
        "conveyor_gallery"@,
        "conveyor_gallery"@,
        "processing"@,
        "processing"@,
        "processing"@,
        "storage"@,
        "storage"@,
        "vent_shaft"@,
        "vent_shaft"@,
        "electrical"@,
        "electrical"@,
        "control"@,
        "maintenance"@,
        "pumping"@,
        "utilities"@,
    ][zone]
}

/// A zone of the plant.
#[derive(Clone, Copy, Debug)]
pub struct ZonePlan {
    pub name: &'static str,
    pub kind: &'static str,
}

/// The zone with the given number.
pub fn zone(number: usize) -> (r: ZonePlan)
    requires
        number < N_ZONES,
    ensures
        r.name@ == zone_title(number as int),
        r.kind@ == zone_purpose(number as int),
{
    match number {
        0 => ZonePlan { name: "Crusher Hall A", kind: "crusher_hall" },
        1 => ZonePlan { name: "Crusher Hall B", kind: "crusher_hall" },
        2 => ZonePlan { name: "Conveyor Gallery 1", kind: "conveyor_gallery" },
        3 => ZonePlan { name: "Conveyor Gallery 2", kind: "conveyor_gallery" },
        4 => ZonePlan { name: "Conveyor Gallery 3", kind: "conveyor_gallery" },
        5 => ZonePlan { name: "Mill Floor", kind: "processing" },
        6 => ZonePlan { name: "Flotation Hall", kind: "processing" },
        7 => ZonePlan { name: "Thickener Deck", kind: "processing" },
        8 => ZonePlan { name: "Reagent Store", kind: "storage" },
        9 => ZonePlan { name: "Concentrate Shed", kind: "storage" },
        10 => ZonePlan { name: "Vent Shaft North", kind: "vent_shaft" },
        11 => ZonePlan { name: "Vent Shaft South", kind: "vent_shaft" },
        12 => ZonePlan { name: "Substation 1", kind: "electrical" },
        13 => ZonePlan { name: "Substation 2", kind: "electrical" },
        14 => ZonePlan { name: "Control Annex", kind: "control" },
        15 => ZonePlan { name: "Workshop", kind: "maintenance" },
        16 => ZonePlan { name: "Tailings Pump House", kind: "pumping" },
        _ => ZonePlan { name: "Water Treatment", kind: "utilities" },
    }
}

/// How two zones are linked.
#[derive(Clone, Copy, Debug, PartialEq, Eq, Structural)]
pub enum LinkKind {
    Passage,
    Conveyor,
    Duct,
}

impl LinkKind {
    pub open spec fn label(self) -> Seq<char> {
        match self {
            LinkKind::Passage => "passage"@,
            LinkKind::Conveyor => "conveyor"@,
            LinkKind::Duct => "duct"@,
        }
    }

    pub fn name(self) -> (r: &'static str)
        ensures
            r@ == self.label(),
    {
        match self {
            LinkKind::Passage => "passage",
            LinkKind::Conveyor => "conveyor",
            LinkKind::Duct => "duct",
        }
    }
}

/// A link from one zone to another.
#[derive(Clone, Copy, Debug, PartialEq, Eq, Structural)]
pub struct ZoneLink {
    pub from: usize,
    pub to: usize,
    pub kind: LinkKind,
}

pub open spec fn link(from: int, to: int, kind: LinkKind) -> ZoneLink {
    ZoneLink { from: from as usize, to: to as usize, kind }
}

/// The same link from the other end.
pub open spec fn turned(l: ZoneLink) -> ZoneLink {
    ZoneLink { from: l.to, to: l.from, kind: l.kind }
}

/// A spine, on which each zone adjoins the next, and some links across it.
pub open spec fn links() -> Seq<ZoneLink> {
    Seq::new((N_ZONES - 1) as nat, |i: int| link(i, i + 1, LinkKind::Passage)) + seq![
        link(0, 5, LinkKind::Conveyor),
        link(1, 5, LinkKind::Conveyor),
        link(5, 6, LinkKind::Conveyor),
        link(10, 0, LinkKind::Duct),
        link(10, 5, LinkKind::Duct),
        link(11, 6, LinkKind::Duct),
        link(16, 17, LinkKind::Passage),
    ]
}

/// Each link in both directions, one after the other.
pub open spec fn both_ways(links: Seq<ZoneLink>) -> Seq<ZoneLink>
    decreases links.len(),
{
    if links.len() == 0 {
        seq![]
    } else {
        both_ways(links.drop_last()).push(links.last()).push(turned(links.last()))
    }
}

/// How the zones adjoin, in both directions.
pub fn adjacency() -> (r: Vec<ZoneLink>)
    ensures
        r@ == both_ways(links()),
{
    let mut plan: Vec<ZoneLink> = Vec::new();
    let mut i: usize = 0;
    while i < N_ZONES - 1
        invariant
            i <= N_ZONES - 1,
            plan@ == Seq::new(i as nat, |j: int| link(j, j + 1, LinkKind::Passage)),
        decreases N_ZONES - 1 - i,
    {
        plan.push(ZoneLink { from: i, to: i + 1, kind: LinkKind::Passage });
        i = i + 1;
        assert(plan@ =~= Seq::new(i as nat, |j: int| link(j, j + 1, LinkKind::Passage)));
    }
    plan.push(ZoneLink { from: 0, to: 5, kind: LinkKind::Conveyor });
    plan.push(ZoneLink { from: 1, to: 5, kind: LinkKind::Conveyor });
    plan.push(ZoneLink { from: 5, to: 6, kind: LinkKind::Conveyor });
    plan.push(ZoneLink { from: 10, to: 0, kind: LinkKind::Duct });
    plan.push(ZoneLink { from: 10, to: 5, kind: LinkKind::Duct });
    plan.push(ZoneLink { from: 11, to: 6, kind: LinkKind::Duct });
    plan.push(ZoneLink { from: 16, to: 17, kind: LinkKind::Passage });
    assert(plan@ =~= links());
    let mut both: Vec<ZoneLink> = Vec::new();
    let mut done: usize = 0;
    while done < plan.len()
        invariant
            done <= plan@.len(),
            plan@ == links(),
            both@ == both_ways(plan@.take(done as int)),
        decreases plan@.len() - done,
    {
        let l: ZoneLink = plan[done];
        both.push(l);
        both.push(ZoneLink { from: l.to, to: l.from, kind: l.kind });
        done = done + 1;
        assert(plan@.take(done as int).drop_last() =~= plan@.take(done - 1));
    }
    assert(plan@.take(done as int) =~= plan@);
    both
}

proof fn lemma_both_ways(links: Seq<ZoneLink>, i: int)
    requires
        0 <= i < links.len(),
    ensures
        both_ways(links).len() == 2 * links.len(),
        both_ways(links)[2 * i] == links[i],
        both_ways(links)[2 * i + 1] == turned(links[i]),
    decreases links.len(),
{
    let fewer = links.drop_last();
    if fewer.len() > 0 {
        lemma_both_ways(fewer, if i < fewer.len() { i } else { 0 });
    } else {
        assert(both_ways(fewer) =~= seq![]);
    }
}

/// Whoever can go one way can come back: with each link its turned one is there.
pub proof fn law_adjacency_is_symmetric(i: int)
    requires
        0 <= i < both_ways(links()).len(),
    ensures
        both_ways(links()).contains(turned(both_ways(links())[i])),
{
    let both = both_ways(links());
    lemma_both_ways(links(), 0);
    lemma_both_ways(links(), i / 2);
    if i % 2 == 0 {
        assert(both[i] == links()[i / 2]);
        assert(both[i + 1] == turned(both[i]));
    } else {
        assert(both[i] == turned(links()[i / 2]));
        assert(both[i - 1] == turned(both[i]));
    }
}

/// The plant is in one piece: each zone adjoins the next.
pub proof fn law_neighbours_adjoin(zone: int)
    requires
        0 <= zone < N_ZONES - 1,
    ensures
        both_ways(links()).contains(link(zone, zone + 1, LinkKind::Passage)),
        both_ways(links()).contains(link(zone + 1, zone, LinkKind::Passage)),
{
    lemma_both_ways(links(), zone);
    assert(links()[zone] == link(zone, zone + 1, LinkKind::Passage));
    assert(both_ways(links())[2 * zone] == link(zone, zone + 1, LinkKind::Passage));
    assert(both_ways(links())[2 * zone + 1] == link(zone + 1, zone, LinkKind::Passage));
}

/// Links join two different zones that there are.
pub proof fn law_links_join_zones(i: int)
    requires
        0 <= i < links().len(),
    ensures
        links()[i].from < N_ZONES,
        links()[i].to < N_ZONES,
        links()[i].from != links()[i].to,
{
}

/// The kind of the asset with the given number in its zone.
pub open spec fn asset_kind(number: int) -> Seq<char> {
    seq![
        "ball_mill"@,
        "conveyor_drive"@,
        "vent_fan"@,
        "pump"@,
        "screen"@,
        "feeder"@,
    ][number % 6]
}

/// One step of isolating an asset, and the steps that come before it.
#[derive(Debug)]
pub struct IsolationStep {
    pub step: u64,
    pub action: String,
    pub after: Vec<u64>,
}

/// An asset of a zone.
#[derive(Debug)]
pub struct AssetPlan {
    pub name: String,
    pub kind: &'static str,
    pub steps: Vec<IsolationStep>,
}

/// Whether `plan` is the plan of the asset with the given number in its zone.
pub open spec fn plans_asset(plan: AssetPlan, number: int) -> bool {
    &&& plan.name@ == "asset-"@ + decimal_digits((number + 1) as nat)
    &&& plan.kind@ == asset_kind(number)
    &&& plan.steps@.len() == 2
    &&& plan.steps@[0].step == 1
    &&& plan.steps@[0].action@ == "stop "@ + asset_kind(number)
    &&& plan.steps@[0].after@ == Seq::<u64>::empty()
    &&& plan.steps@[1].step == 2
    &&& plan.steps@[1].action@ == "lockout-tagout"@
    &&& plan.steps@[1].after@ == seq![1u64]
}

/// The asset with the given number in its zone.
pub fn asset(number: usize) -> (r: AssetPlan)
    requires
        number < ASSETS_PER_ZONE,
    ensures
        plans_asset(r, number as int),
{
    let kind: &'static str = match number % 6 {
        0 => "ball_mill",
        1 => "conveyor_drive",
        2 => "vent_fan",
        3 => "pump",
        4 => "screen",
        _ => "feeder",
    };
    let mut name: String = "asset-".to_owned();
    let digits: String = decimal((number + 1) as u64);
    name.append(digits.as_str());
    let mut stop: String = "stop ".to_owned();
    stop.append(kind);
    let mut steps: Vec<IsolationStep> = Vec::new();
    steps.push(IsolationStep { step: 1, action: stop, after: Vec::new() });
    let mut after: Vec<u64> = Vec::new();
    after.push(1);
    steps.push(IsolationStep { step: 2, action: "lockout-tagout".to_owned(), after });
    AssetPlan { name, kind, steps }
}

/// Every step of an isolation waits only for steps that come before it.
pub proof fn law_steps_wait_for_earlier_ones(plan: AssetPlan, number: int, i: int, j: int)
    requires
        plans_asset(plan, number),
        0 <= i < plan.steps@.len(),
        0 <= j < plan.steps@[i].after@.len(),
    ensures
        exists|k: int|
            0 <= k < i && (#[trigger] plan.steps@[k]).step == plan.steps@[i].after@[j],
{
    assert(plan.steps@[0].step == plan.steps@[i].after@[j]);
}

/// The kind of a sensor, by its number.
pub open spec fn sensor_kind(number: int) -> SensorKind {
    seq![
        SensorKind::GasCh4,
        SensorKind::GasCo,
        SensorKind::O2,
        SensorKind::Temp,
        SensorKind::Vibration,
        SensorKind::Pressure,
        SensorKind::Airflow,
        SensorKind::DustPm10,
        SensorKind::Seismic,
    ][number % 9]
}

impl SensorKind {
    /// The unit of the kind's values.
    pub open spec fn unit_label(self) -> Seq<char> {
        match self {
            SensorKind::GasCh4 => "%LEL"@,
            SensorKind::GasCo => "ppm"@,
            SensorKind::O2 => "%vol"@,
            SensorKind::Temp => "degC"@,
            SensorKind::Vibration => "mm_s"@,
            SensorKind::Pressure => "kPa"@,
            SensorKind::Airflow => "m3_s"@,
            SensorKind::DustPm10 => "ug_m3"@,
            SensorKind::Seismic => "mm_s"@,
        }
    }

    pub fn unit(self) -> (r: &'static str)
        ensures
            r@ == self.unit_label(),
    {
        match self {
            SensorKind::GasCh4 => "%LEL",
            SensorKind::GasCo => "ppm",
            SensorKind::O2 => "%vol",
            SensorKind::Temp => "degC",
            SensorKind::Vibration => "mm_s",
            SensorKind::Pressure => "kPa",
            SensorKind::Airflow => "m3_s",
            SensorKind::DustPm10 => "ug_m3",
            SensorKind::Seismic => "mm_s",
        }
    }

    /// Where warning thresholds of the kind are drawn from, in tenths: from the
    /// first up to the second, which is left out.
    pub open spec fn warn_tenths(self) -> (u64, u64) {
        match self {
            SensorKind::GasCh4 => (100, 200),
            SensorKind::GasCo => (250, 350),
            SensorKind::O2 => (190, 195),
            SensorKind::Temp => (600, 750),
            SensorKind::Vibration => (45, 70),
            SensorKind::Pressure => (5500, 7000),
            SensorKind::Airflow => (200, 300),
            SensorKind::DustPm10 => (1200, 1800),
            SensorKind::Seismic => (20, 40),
        }
    }

    pub fn warn_range(self) -> (r: (u64, u64))
        ensures
            r == self.warn_tenths(),
    {
        match self {
            SensorKind::GasCh4 => (100, 200),
            SensorKind::GasCo => (250, 350),
            SensorKind::O2 => (190, 195),
            SensorKind::Temp => (600, 750),
            SensorKind::Vibration => (45, 70),
            SensorKind::Pressure => (5500, 7000),
            SensorKind::Airflow => (200, 300),
            SensorKind::DustPm10 => (1200, 1800),
            SensorKind::Seismic => (20, 40),
        }
    }

    /// How many tenths of the warning threshold the critical one is. Oxygen and
    /// airflow alarm low.
    pub open spec fn crit_tenths(self) -> u64 {
        match self {
            SensorKind::GasCh4 => 20,
            SensorKind::GasCo => 18,
            SensorKind::O2 => 9,
            SensorKind::Temp => 14,
            SensorKind::Vibration => 16,
            SensorKind::Pressure => 13,
            SensorKind::Airflow => 7,
            SensorKind::DustPm10 => 15,
            SensorKind::Seismic => 25,
        }
    }

    pub fn crit_factor(self) -> (r: u64)
        ensures
            r == self.crit_tenths(),
    {
        match self {
            SensorKind::GasCh4 => 20,
            SensorKind::GasCo => 18,
            SensorKind::O2 => 9,
            SensorKind::Temp => 14,
            SensorKind::Vibration => 16,
            SensorKind::Pressure => 13,
            SensorKind::Airflow => 7,
            SensorKind::DustPm10 => 15,
            SensorKind::Seismic => 25,
        }
    }
}

/// A sensor of the plant.
#[derive(Clone, Copy, Debug, PartialEq, Eq, Structural)]
pub struct SensorPlan {
    /// The asset that it watches, counted over all zones.
    pub asset: usize,
    pub kind: SensorKind,
    pub sample_hz: Single,
    pub warn_threshold: Double,
    pub crit_threshold: Double,
}

/// The sample rate of a kind: 10.0 for vibration, and 1.0.
pub open spec fn rate_of(kind: SensorKind) -> Single {
    if kind == SensorKind::Vibration {
        Single { bits: 0x4120_0000 }
    } else {
        Single { bits: 0x3F80_0000 }
    }
}

/// The critical threshold that goes with a warning threshold.
pub open spec fn critical_of(kind: SensorKind, warn: Double) -> Double {
    Double { bits: product(warn.bits, quotient(kind.crit_tenths() as nat, 10)) }
}

/// The sensor with the given number and warning threshold. Sensors are dealt out
/// to the assets in turn, and the kinds to the sensors.
pub fn sensor(number: usize, warn: Double) -> (r: SensorPlan)
    requires
        warn.bits < INFINITE,
    ensures
        r == (SensorPlan {
            asset: (number % N_ASSETS) as usize,
            kind: sensor_kind(number as int),
            sample_hz: rate_of(sensor_kind(number as int)),
            warn_threshold: warn,
            crit_threshold: critical_of(sensor_kind(number as int), warn),
        }),
{
    let kind: SensorKind = match number % 9 {
        0 => SensorKind::GasCh4,
        1 => SensorKind::GasCo,
        2 => SensorKind::O2,
        3 => SensorKind::Temp,
        4 => SensorKind::Vibration,
        5 => SensorKind::Pressure,
        6 => SensorKind::Airflow,
        7 => SensorKind::DustPm10,
        _ => SensorKind::Seismic,
    };
    let tenths: u64 = kind.crit_factor();
    proof {
        lemma_small_factor(tenths);
    }
    let factor: u64 = from_fraction(tenths, 10);
    let sample_hz: Single = match kind {
        SensorKind::Vibration => Single { bits: 0x4120_0000 },
        _ => Single { bits: 0x3F80_0000 },
    };
    SensorPlan {
        asset: number % N_ASSETS,
        kind,
        sample_hz,
        warn_threshold: warn,
        crit_threshold: Double { bits: multiply(warn.bits, factor) },
    }
}

/// The runs of sensors that are inserted together: each from the first number up
/// to the second, which is left out.
pub open spec fn runs(total: int) -> Seq<(usize, usize)>
    decreases total,
{
    if total <= 0 {
        seq![]
    } else {
        let start = (total - 1) / 500 * 500;
        runs(start).push((start as usize, total as usize))
    }
}

/// Splits the numbers below `total` into runs of [`INSERT_ROWS`], the last one
/// shorter where they do not come out even.
pub fn insert_runs(total: usize) -> (r: Vec<(usize, usize)>)
    ensures
        r@ == runs(total as int),
{
    let mut all: Vec<(usize, usize)> = Vec::new();
    let mut start: usize = 0;
    while start < total
        invariant
            start <= total,
            start % 500 == 0 || start == total,
            all@ == runs(start as int),
        decreases total - start,
    {
        let end: usize = if total - start > INSERT_ROWS {
            start + INSERT_ROWS
        } else {
            total
        };
        all.push((start, end));
        assert((end - 1) / 500 * 500 == start);
        start = end;
    }
    all
}

/// The runs go on without a gap from nothing to the end, and none is empty or
/// longer than [`INSERT_ROWS`].
pub proof fn law_runs_leave_no_gap(total: usize, i: int)
    requires
        0 <= i < runs(total as int).len(),
    ensures
        runs(total as int)[0].0 == 0,
        runs(total as int).last().1 == total,
        runs(total as int)[i].0 < runs(total as int)[i].1,
        runs(total as int)[i].1 - runs(total as int)[i].0 <= INSERT_ROWS,
        runs(total as int)[i].1 - runs(total as int)[i].0 <= 500,
        i + 1 < runs(total as int).len() ==> {
            &&& runs(total as int)[i].1 == runs(total as int)[i + 1].0
            &&& runs(total as int)[i].1 - runs(total as int)[i].0 == 500
        },
    decreases total,
{
    let start = (total - 1) / 500 * 500;
    let rest = runs(start);
    if start > 0 {
        law_runs_leave_no_gap(start as usize, if i < rest.len() {
            i
        } else {
            0
        });
    } else {
        assert(rest =~= seq![]);
    }
}

proof fn lemma_small_factor(tenths: u64)
    requires
        tenths <= 100,
    ensures
        quotient(tenths as nat, 10) < INFINITE,
{
    let p = pow2(1074);
    let n = (tenths as nat * p) as nat;
    let r = quotient(tenths as nat, 10) as int;
    let m = quotient(100, 1) as int;
    law_integers_are_exact(100);
    law_rounding_is_total(n, 10);
    lemma_pow2_pos(1074);
    assert(tenths * p <= 100 * p) by (nonlinear_arith)
        requires
            tenths <= 100,
            p > 0,
    ;
    if r > m {
        lemma_units_ordered(m, r);
        assert(distance(n, 10, m) < distance(n, 10, r));
    }
}

/// A factor of at most nine tenths is at most fifteen sixteenths once rounded.
proof fn lemma_low_factor(tenths: u64)
    requires
        tenths <= 9,
    ensures
        16 * units(quotient(tenths as nat, 10) as int) <= 15 * pow2(1074),
{
    let p = pow2(1074);
    let n = (tenths as nat * p) as nat;
    let r = quotient(tenths as nat, 10) as int;
    // The magnitude of 15/16.
    let m = 0x3FEE_0000_0000_0000int;
    lemma_units_of_parts(1021, 0x1E_0000_0000_0000);
    lemma_pow2_adds(53, 1021);
    vstd::arithmetic::power2::lemma2_to64_rest();
    assert(16 * units(m) == 15 * p) by {
        let q = pow2(1021) as int;
        assert(units(m) == 0x1E_0000_0000_0000 * q);
        assert(p == 0x20_0000_0000_0000 * q);
    }
    law_rounding_is_total(n, 10);
    assert(tenths * p <= 9 * p) by (nonlinear_arith)
        requires
            tenths <= 9,
            p >= 0,
    ;
    if r > m {
        lemma_units_ordered(m, r);
        assert(distance(n, 10, m) < distance(n, 10, r));
    }
    lemma_units_ordered(r, m);
}

/// A factor of at least one is at least one once rounded.
proof fn lemma_high_factor(tenths: u64)
    requires
        10 <= tenths,
    ensures
        quotient(tenths as nat, 10) >= ONE,
{
    let p = pow2(1074);
    let n = (tenths as nat * p) as nat;
    let r = quotient(tenths as nat, 10) as int;
    lemma_one();
    law_rounding_is_total(n, 10);
    assert(tenths * p >= 10 * p) by (nonlinear_arith)
        requires
            tenths >= 10,
            p >= 0,
    ;
    if r < ONE {
        lemma_units_ordered(r, ONE as int);
        assert(distance(n, 10, ONE as int) < distance(n, 10, r));
    }
}

/// The next number below is nearly as large.
proof fn lemma_step_is_small(magnitude: int)
    requires
        0x10_0000_0000_0000 <= magnitude,
    ensures
        15 * units(magnitude) <= 16 * units(magnitude - 1),
        units(magnitude - 1) < units(magnitude),
{
    let below = magnitude - 1;
    lemma_units_step(below);
    let scale = scale_of(below);
    let significand = (below - scale * 0x10_0000_0000_0000) as nat;
    lemma_units_of_parts(scale, significand);
    let s = significand as int;
    let q = pow2(scale) as int;
    lemma_pow2_pos(scale);
    assert(16 * q <= s * q) by (nonlinear_arith)
        requires
            s >= 16,
            q > 0,
    ;
}

/// Thresholds point the right way: of all kinds, oxygen and airflow alarm low,
/// and the others alarm high, whatever the warning threshold.
pub proof fn law_kinds_alarm_in_their_direction(kind: SensorKind, warn: Double)
    requires
        0x10_0000_0000_0000 <= warn.bits < INFINITE,
    ensures
        alarms_high(warn, critical_of(kind, warn)) <==> kind != SensorKind::O2 && kind
            != SensorKind::Airflow,
{
    let p = pow2(1074);
    let w = warn.bits as int;
    let factor = quotient(kind.crit_tenths() as nat, 10);
    let crit = critical_of(kind, warn);
    let n = units(w) * units(factor as int);
    let r = crit.bits as int;
    lemma_pow2_pos(1074);
    law_rounding_is_total(n, p);
    if kind == SensorKind::O2 || kind == SensorKind::Airflow {
        lemma_low_factor(kind.crit_tenths());
        lemma_step_is_small(w);
        let x = units(w) as int;
        let y = units(w - 1) as int;
        let f = units(factor as int) as int;
        let q = p as int;
        assert(x * f <= q * y && q * y < q * x) by (nonlinear_arith)
            requires
                16 * f <= 15 * q,
                15 * x <= 16 * y,
                y < x,
                q > 0,
                x >= 0,
                f >= 0,
        ;
        if r >= w {
            lemma_units_ordered(w, r);
            let z = units(r) as int;
            assert(q * x <= q * z) by (nonlinear_arith)
                requires
                    x <= z,
                    q > 0,
            ;
            assert(distance(n, p, w - 1) < distance(n, p, r));
        }
        lemma_units_ordered(r, w);
    } else {
        lemma_high_factor(kind.crit_tenths());
        lemma_one();
        law_products_are_monotone(ONE, factor, warn.bits);
        let x = units(w) as int;
        let f = units(factor as int) as int;
        assert(x * f == f * x) by (nonlinear_arith);
        law_rounding_keeps_doubles(p, w);
        assert(units(ONE as int) * units(w) == p * units(w));
        assert(r >= w);
        lemma_units_ordered(w, r);
    }
}

/// Every number below the total stands in a run.
pub proof fn law_every_sensor_is_inserted(total: usize, number: int)
    requires
        0 <= number < total,
    ensures
        exists|i: int|
            0 <= i < runs(total as int).len() && (#[trigger] runs(total as int)[i]).0 <= number
                < runs(total as int)[i].1,
    decreases total,
{
    let start = (total - 1) / 500 * 500;
    let all = runs(total as int);
    if number >= start {
        let last = all.len() - 1;
        assert(all[last].0 <= number < all[last].1);
    } else {
        law_every_sensor_is_inserted(start as usize, number);
        let rest = runs(start);
        let i = choose|i: int|
            0 <= i < rest.len() && (#[trigger] rest[i]).0 <= number < rest[i].1;
        assert(all[i] == rest[i]);
    }
}

/// Each link is listed twice, one way and the other, one after the other.
pub proof fn law_each_link_is_listed_both_ways(i: int)
    requires
        0 <= i < links().len(),
    ensures
        ({
            let both = both_ways(links());
            &&& both.len() == 2 * links().len()
            &&& both[2 * i] == links()[i]
            &&& both[2 * i + 1].from == links()[i].to
            &&& both[2 * i + 1].to == links()[i].from
            &&& both[2 * i + 1].kind == links()[i].kind
        }),
{
    lemma_both_ways(links(), i);
}

} // verus!
