//! The metric table and the plan of the plant.

use hazshield_ingest::ieee::Double;
use hazshield_ingest::metrics::{families, Counter, Family, FamilyKind, Gauge};
use hazshield_ingest::plant::{
    adjacency, asset, cleared_tables, insert_runs, sensor, zone, LinkKind, ASSETS_PER_ZONE,
    N_ASSETS, N_SENSORS, N_ZONES, SITE_NAME,
};
use hazshield_ingest::types::SensorKind;

#[test]
fn every_metric_can_be_registered() {
    let registry = prometheus::Registry::new();
    for family in families() {
        let collector: Box<dyn prometheus::core::Collector> = match family.recorded() {
            FamilyKind::Counts => {
                Box::new(prometheus::IntCounter::new(family.name(), family.help()).unwrap())
            }
            FamilyKind::CountsBy => Box::new(
                prometheus::IntCounterVec::new(
                    prometheus::Opts::new(family.name(), family.help()),
                    &[family.label()],
                )
                .unwrap(),
            ),
            FamilyKind::Level => {
                Box::new(prometheus::IntGauge::new(family.name(), family.help()).unwrap())
            }
            FamilyKind::Histogram => Box::new(
                prometheus::Histogram::with_opts(
                    prometheus::HistogramOpts::new(family.name(), family.help())
                        .buckets(family.buckets().iter().map(|&b| b as f64 / 1e6).collect()),
                )
                .unwrap(),
            ),
        };
        registry.register(collector).unwrap();
    }
    assert_eq!(families().len(), 15);
}

#[test]
fn metrics_have_their_names_and_labels() {
    assert_eq!(Family::Readings.name(), "ingest_readings_total");
    assert_eq!(Family::Readings.label(), "result");
    assert_eq!(Family::Violations.label(), "severity");
    assert_eq!(Family::WarmDegraded.label(), "action");
    assert_eq!(Family::HotLost.name(), "hot_violations_lost_total");
    assert_eq!(Family::HotLost.label(), "");
    assert_eq!(Counter::ReadingsUnknownSensor.family(), Family::Readings);
    assert_eq!(Counter::ReadingsUnknownSensor.label_value(), "unknown_sensor");
    assert_eq!(Counter::WarmDegradedKept.label_value(), "kept");
    assert_eq!(Counter::HotSent.label_value(), "");
    assert_eq!(Gauge::WarmBuffered.family().name(), "warm_buffered_rows");
    assert_eq!(Gauge::HotRedisUp.family().name(), "hot_redis_up");
}

#[test]
fn buckets_resolve_the_latency_target() {
    let seconds: Vec<f64> =
        Family::HandlerSeconds.buckets().iter().map(|&b| b as f64 / 1e6).collect();
    assert_eq!(seconds, vec![0.0005, 0.001, 0.0025, 0.005, 0.01, 0.025, 0.05, 0.1]);
    let flush: Vec<f64> =
        Family::WarmFlushSeconds.buckets().iter().map(|&b| b as f64 / 1e6).collect();
    assert_eq!(flush, vec![0.001, 0.0025, 0.005, 0.01, 0.025, 0.05, 0.1, 0.25]);
    let sizes: Vec<f64> = Family::BatchSize.buckets().iter().map(|&b| b as f64 / 1e6).collect();
    assert_eq!(sizes, vec![10.0, 50.0, 100.0, 250.0, 500.0, 1000.0, 2000.0]);
    assert!(Family::HotSent.buckets().is_empty());
}

#[test]
fn zones_have_their_names() {
    assert_eq!(N_ZONES, 18);
    assert_eq!((zone(0).name, zone(0).kind), ("Crusher Hall A", "crusher_hall"));
    assert_eq!((zone(8).name, zone(8).kind), ("Reagent Store", "storage"));
    assert_eq!((zone(17).name, zone(17).kind), ("Water Treatment", "utilities"));
    assert_eq!(SITE_NAME, "Pilbara Processing Facility");
    assert_eq!(cleared_tables(), vec!["sensor", "asset", "zone_adjacency", "zone", "site"]);
}

#[test]
fn zones_adjoin_in_both_directions() {
    let links = adjacency();
    assert_eq!(links.len(), 48);
    assert_eq!((links[0].from, links[0].to, links[0].kind), (0, 1, LinkKind::Passage));
    assert_eq!((links[1].from, links[1].to), (1, 0));
    assert_eq!((links[34].from, links[34].to, links[34].kind), (0, 5, LinkKind::Conveyor));
    assert_eq!((links[40].from, links[40].to, links[40].kind.name()), (10, 0, "duct"));
    assert_eq!((links[47].from, links[47].to, links[47].kind.name()), (17, 16, "passage"));
    for l in &links {
        assert!(links.iter().any(|b| b.from == l.to && b.to == l.from && b.kind == l.kind));
    }
}

#[test]
fn assets_have_names_kinds_and_isolation_steps() {
    assert_eq!(N_ASSETS, N_ZONES * ASSETS_PER_ZONE);
    let first = asset(0);
    assert_eq!((first.name.as_str(), first.kind), ("asset-1", "ball_mill"));
    assert_eq!(first.steps[0].action, "stop ball_mill");
    assert_eq!((first.steps[0].step, first.steps[0].after.len()), (1, 0));
    assert_eq!((first.steps[1].step, first.steps[1].action.as_str()), (2, "lockout-tagout"));
    assert_eq!(first.steps[1].after, vec![1]);
    let last = asset(9);
    assert_eq!((last.name.as_str(), last.kind), ("asset-10", "pump"));
}

#[test]
fn sensors_are_dealt_out_in_turn() {
    let warn = Double { bits: 12.5f64.to_bits() };
    let plan = sensor(184, warn);
    assert_eq!(plan.asset, 4);
    assert_eq!(plan.kind, SensorKind::Vibration);
    assert_eq!(plan.sample_hz.bits, 10.0f32.to_bits());
    assert_eq!(sensor(0, warn).sample_hz.bits, 1.0f32.to_bits());
    assert_eq!(sensor(0, warn).kind.unit(), "%LEL");
    assert_eq!(sensor(0, warn).kind.warn_range(), (100, 200));
}

#[test]
fn critical_thresholds_are_those_of_double_precision_arithmetic() {
    let factors = [2.0f64, 1.8, 0.9, 1.4, 1.6, 1.3, 0.7, 1.5, 2.5];
    for number in 0..9usize {
        for warn in [10.0f64, 12.345678901234567, 19.0, 19.499999999999996, 1e-300, 1e308] {
            let plan = sensor(number, Double { bits: warn.to_bits() });
            assert_eq!(plan.crit_threshold.bits, (warn * factors[number]).to_bits());
            let low = matches!(plan.kind, SensorKind::O2 | SensorKind::Airflow);
            assert_eq!(!plan.crit_threshold.ge(plan.warn_threshold), low);
        }
    }
}

#[test]
fn sensors_are_inserted_in_runs() {
    let runs = insert_runs(N_SENSORS);
    assert_eq!(
        runs,
        vec![(0, 500), (500, 1000), (1000, 1500), (1500, 2000), (2000, 2500), (2500, 3000)]
    );
    assert_eq!(insert_runs(501), vec![(0, 500), (500, 501)]);
    assert!(insert_runs(0).is_empty());
}
