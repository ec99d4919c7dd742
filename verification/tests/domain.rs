//! Instants, names, configuration, readiness, errors.

use hazshield_ingest::config::{
    default_bind, default_channel_capacity, default_max_batch, Config, Environment, PREFIX,
};
use hazshield_ingest::error::IngestError;
use hazshield_ingest::health::readiness;
use hazshield_ingest::ieee::{Double, Single};
use hazshield_ingest::listener::{Listener, ListenerAction, ListenerEvent, RETRY_SECS};
use hazshield_ingest::registry::{Registry, SensorRow, INVALIDATION_CHANNEL};
use hazshield_ingest::types::{Quality, SensorKind, Severity, Timestamp};

fn row(sensor_id: u128, status: &str, warn: f64) -> SensorRow {
    SensorRow {
        sensor_id,
        zone_id: 70,
        warn_threshold: Double { bits: warn.to_bits() },
        crit_threshold: Double { bits: 40.0f64.to_bits() },
        sample_hz: Single { bits: 1.0f32.to_bits() },
        status: status.to_string(),
    }
}

#[test]
fn instants_are_those_of_the_calendar() {
    for (secs, nanos) in [
        (0i64, 0u32),
        (-1, 999_999_999),
        (1_700_000_000, 123_456_789),
        (59, 1_500_000_000),
        (60, 1_500_000_000),
        (0, 2_000_000_000),
        (-8_334_601_228_800, 0),
        (-8_334_601_228_801, 999_999_999),
        (8_210_266_876_799, 999_999_999),
        (8_210_266_876_800, 0),
    ] {
        let expected = chrono::DateTime::from_timestamp(secs, nanos);
        let got = Timestamp::new(secs, nanos);
        assert_eq!(got.is_some(), expected.is_some(), "{secs} {nanos}");
        if let (Some(e), Some(g)) = (expected, got) {
            assert_eq!(g.timestamp_micros(), e.timestamp_micros());
            assert_eq!((g.secs(), g.nanos()), (e.timestamp(), e.timestamp_subsec_nanos()));
        }
    }
    let known = Timestamp::new(1_700_000_000, 123_456_789).unwrap();
    assert_eq!(known.timestamp_micros(), 1_700_000_000_123_456);
}

#[test]
fn names_are_those_of_the_schema() {
    assert_eq!(SensorKind::GasCh4.name(), "gas_ch4");
    assert_eq!(SensorKind::O2.name(), "o2");
    assert_eq!(SensorKind::DustPm10.name(), "dust_pm10");
    assert_eq!(Severity::Warn.name(), "warn");
    assert_eq!(Severity::Critical.name(), "critical");
    assert_eq!(Quality::Good.code(), 0);
    assert_eq!(Quality::Suspect.code(), 1);
    assert_eq!(Quality::DegradedSampled.code(), 2);
}

#[test]
fn missing_variables_have_defaults() {
    let config = Config::load(Environment {
        bind_addr: None,
        database_url: "postgres://db".to_string(),
        redis_url: "redis://cache".to_string(),
        spool_dir: "/var/spool".to_string(),
        warm_channel_capacity: None,
        max_batch_size: None,
    });
    assert_eq!(config.bind_addr, "127.0.0.1:8020");
    assert_eq!(config.database_url, "postgres://db");
    assert_eq!(config.redis_url, "redis://cache");
    assert_eq!(config.spool_dir, "/var/spool");
    assert_eq!(config.warm_channel_capacity, 50_000);
    assert_eq!(config.max_batch_size, 2_000);
    assert_eq!(config.bind_addr, default_bind());
    assert_eq!(config.warm_channel_capacity, default_channel_capacity());
    assert_eq!(config.max_batch_size, default_max_batch());
    assert_eq!(PREFIX, "HAZ_");
}

#[test]
fn given_variables_win() {
    let config = Config::load(Environment {
        bind_addr: Some("0.0.0.0:80".to_string()),
        database_url: "d".to_string(),
        redis_url: "r".to_string(),
        spool_dir: "s".to_string(),
        warm_channel_capacity: Some(7),
        max_batch_size: Some(8),
    });
    assert_eq!(config.bind_addr, "0.0.0.0:80");
    assert_eq!((config.warm_channel_capacity, config.max_batch_size), (7, 8));
}

#[test]
fn a_batch_over_the_limit_is_payload_too_large() {
    let error = IngestError::BatchTooLarge { got: 2001, max: 2000 };
    assert_eq!(error.status(), 413);
    assert_eq!(error.message(), "batch of 2001 exceeds max 2000");
}

#[test]
fn a_snapshot_holds_the_last_row_of_each_sensor() {
    let registry = Registry::load(
        vec![row(1, "active", 10.0), row(2, "retired", 20.0), row(1, "active", 11.0)],
        3,
    );
    assert_eq!(registry.generation, 3);
    assert_eq!(registry.sensors.len(), 2);
    assert_eq!(registry.find(1).unwrap().warn_threshold.bits, 11.0f64.to_bits());
    assert!(registry.find(1).unwrap().active);
    assert!(!registry.find(2).unwrap().active);
    assert_eq!(registry.find(2).unwrap().zone_id, 70);
    assert!(registry.find(3).is_none());
    assert_eq!(INVALIDATION_CHANNEL, "hazshield:registry:invalidate");
}

#[test]
fn only_the_exact_status_is_active() {
    for status in ["Active", "active ", "", "inactive"] {
        let registry = Registry::load(vec![row(1, status, 10.0)], 1);
        assert!(!registry.find(1).unwrap().active, "{status:?}");
    }
}

#[test]
fn a_reload_counts_up_and_a_failed_one_keeps_the_snapshot() {
    let live = Registry::load(vec![row(1, "active", 10.0)], 4);
    let fresh = live.reload(Some(vec![row(2, "active", 10.0)])).unwrap();
    assert_eq!(fresh.generation, 5);
    assert!(fresh.find(2).is_some() && fresh.find(1).is_none());
    assert!(live.reload(None).is_none());
    assert!(live.find(1).is_some());
}

#[test]
fn readiness_needs_the_database_and_a_sensor() {
    let full = Registry::load(vec![row(1, "active", 10.0)], 9);
    let empty = Registry::default();
    let ready = readiness(&full, true);
    assert!(ready.ready && ready.db);
    assert_eq!((ready.registry_sensors, ready.registry_generation, ready.status()), (1, 9, 200));
    assert_eq!(readiness(&full, false).status(), 503);
    assert!(!readiness(&full, false).db);
    assert_eq!(readiness(&empty, true).status(), 503);
    assert!(!readiness(&empty, true).ready);
}

#[test]
fn a_gap_in_the_doorbell_is_followed_by_a_reload() {
    let mut listener = Listener::new();
    assert_eq!(listener.action(), ListenerAction::Subscribe);
    listener.advance(ListenerEvent::Subscribed { ok: true });
    assert_eq!(listener.action(), ListenerAction::AwaitDoorbell);
    listener.advance(ListenerEvent::Doorbell);
    assert_eq!(listener.action(), ListenerAction::Reload);
    listener.advance(ListenerEvent::Reloaded);
    assert_eq!(listener.action(), ListenerAction::AwaitDoorbell);
    listener.advance(ListenerEvent::Ended);
    assert_eq!(listener.action(), ListenerAction::Sleep { secs: RETRY_SECS });
    assert_eq!(RETRY_SECS, 5);
    listener.advance(ListenerEvent::Slept);
    assert_eq!(listener.action(), ListenerAction::Reload);
    listener.advance(ListenerEvent::Reloaded);
    assert_eq!(listener.action(), ListenerAction::Subscribe);
    listener.advance(ListenerEvent::Subscribed { ok: false });
    assert_eq!(listener.action(), ListenerAction::Sleep { secs: 5 });
}
