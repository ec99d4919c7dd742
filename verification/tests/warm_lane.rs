//! The batch writer and the binary COPY format.

use hazshield_ingest::copy::{encode_binary, COPY_STATEMENT, PG_EPOCH_MICROS};
use hazshield_ingest::ieee::Single;
use hazshield_ingest::metrics::{Counter, Gauge, MetricUpdate};
use hazshield_ingest::types::{Quality, Timestamp};
use hazshield_ingest::warm::{
    FlushReason, StoredReading, WarmAction, WarmEvent, WarmWriter, FLUSH_INTERVAL_MS,
    MAX_BATCH_ROWS, MAX_BUFFERED,
};

fn row(secs: i64) -> StoredReading {
    StoredReading {
        ts: Timestamp::new(secs, 123_456_789).unwrap(),
        sensor_id: 0x0011_2233_4455_6677_8899_aabb_ccdd_eeff,
        value: Single { bits: 3.14f32.to_bits() },
        quality: Quality::DegradedSampled,
    }
}

fn level(to: i64) -> MetricUpdate {
    MetricUpdate::Level { gauge: Gauge::WarmBuffered, to }
}

fn counted(counter: Counter, by: u64) -> MetricUpdate {
    MetricUpdate::Count { counter, by }
}

/// A writer whose last flush failed with this many rows in the buffer.
fn in_outage(rows: usize) -> WarmWriter {
    let mut writer = WarmWriter::new();
    for i in 0..MAX_BATCH_ROWS {
        writer.advance(WarmEvent::Received { row: row(i as i64) });
    }
    writer.advance(WarmEvent::FlushFailed);
    for i in MAX_BATCH_ROWS..rows {
        writer.advance(WarmEvent::Received { row: row(i as i64) });
    }
    assert_eq!(writer.buffered(), rows);
    writer
}

/// The instant of each row of a COPY, in whole seconds.
fn seconds_in(bytes: &[u8]) -> Vec<i64> {
    let rows = (bytes.len() - 21) / 48;
    (0..rows)
        .map(|i| {
            let at = 19 + 48 * i + 6;
            let mut field = [0u8; 8];
            field.copy_from_slice(&bytes[at..at + 8]);
            (i64::from_be_bytes(field) + PG_EPOCH_MICROS).div_euclid(1_000_000)
        })
        .collect()
}

#[test]
fn no_rows_are_a_header_and_a_trailer() {
    let bytes = encode_binary(&[]);
    assert_eq!(bytes, b"PGCOPY\n\xff\r\n\0\0\0\0\0\0\0\0\0\xff\xff".to_vec());
}

#[test]
fn a_row_is_encoded_field_by_field() {
    let reading = row(1_700_000_000);
    let mut expected: Vec<u8> = b"PGCOPY\n\xff\r\n\0".to_vec();
    expected.extend_from_slice(&0i32.to_be_bytes());
    expected.extend_from_slice(&0i32.to_be_bytes());
    expected.extend_from_slice(&4i16.to_be_bytes());
    expected.extend_from_slice(&8i32.to_be_bytes());
    expected.extend_from_slice(&(1_700_000_000_123_456i64 - 946_684_800_000_000).to_be_bytes());
    expected.extend_from_slice(&16i32.to_be_bytes());
    expected.extend_from_slice(uuid::Uuid::from_u128(reading.sensor_id).as_bytes());
    expected.extend_from_slice(&4i32.to_be_bytes());
    expected.extend_from_slice(&3.14f32.to_be_bytes());
    expected.extend_from_slice(&2i32.to_be_bytes());
    expected.extend_from_slice(&2i16.to_be_bytes());
    expected.extend_from_slice(&(-1i16).to_be_bytes());
    assert_eq!(encode_binary(&[reading]), expected);
    assert_eq!(encode_binary(&[reading])[37], 0x00);
    assert_eq!(encode_binary(&[reading])[38], 0x11);
    assert_eq!(encode_binary(&[reading])[52], 0xff);
}

#[test]
fn instants_before_the_epoch_are_negative() {
    let bytes = encode_binary(&[row(0)]);
    assert_eq!(seconds_in(&bytes), vec![0]);
    assert_eq!(bytes[25], 0xff);
}

#[test]
fn the_statement_names_the_columns_in_the_order_of_the_fields() {
    assert_eq!(
        COPY_STATEMENT,
        "COPY sensor_readings (time, sensor_id, value, quality) FROM STDIN WITH (FORMAT binary)"
    );
}

#[test]
fn a_full_batch_is_flushed_at_once() {
    let mut writer = WarmWriter::new();
    for i in 0..MAX_BATCH_ROWS - 1 {
        let step = writer.advance(WarmEvent::Received { row: row(i as i64) });
        assert_eq!(step.action, WarmAction::Wait);
        assert_eq!(step.updates, vec![level(i as i64 + 1)]);
    }
    let step = writer.advance(WarmEvent::Received { row: row(999) });
    assert_eq!(step.action, WarmAction::Flush { reason: FlushReason::Size });
    assert!(step.updates.is_empty());
    assert_eq!(seconds_in(&writer.payload()), (0..1_000).collect::<Vec<i64>>());
    let step = writer.advance(WarmEvent::Flushed { rows: 1_000 });
    assert_eq!(step.action, WarmAction::Wait);
    assert_eq!(step.updates, vec![counted(Counter::WarmFlushedRows, 1_000), level(0)]);
    assert_eq!(writer.buffered(), 0);
}

#[test]
fn the_timer_flushes_what_there_is() {
    let mut writer = WarmWriter::new();
    let step = writer.advance(WarmEvent::Tick);
    assert_eq!(step.action, WarmAction::Wait);
    assert_eq!(step.updates, vec![level(0)]);
    writer.advance(WarmEvent::Received { row: row(1) });
    let step = writer.advance(WarmEvent::Tick);
    assert_eq!(step.action, WarmAction::Flush { reason: FlushReason::Timer });
    let step = writer.advance(WarmEvent::Flushed { rows: 1 });
    assert_eq!(step.updates, vec![counted(Counter::WarmFlushedRows, 1), level(0)]);
}

#[test]
fn a_failure_keeps_the_rows_and_the_pause_doubles_up_to_its_bound() {
    let mut writer = WarmWriter::new();
    writer.advance(WarmEvent::Received { row: row(5) });
    writer.advance(WarmEvent::Tick);
    let step = writer.advance(WarmEvent::FlushFailed);
    assert_eq!(step.updates, vec![counted(Counter::WarmFlushFailures, 1), level(1)]);
    for pause in [250u64, 500, 1_000, 2_000, 4_000, 5_000, 5_000] {
        let step = writer.advance(WarmEvent::Tick);
        assert_eq!(step.action, WarmAction::Sleep { millis: pause });
        let step = writer.advance(WarmEvent::Slept);
        assert_eq!(step.action, WarmAction::Flush { reason: FlushReason::Timer });
        writer.advance(WarmEvent::FlushFailed);
        assert_eq!(seconds_in(&writer.payload()), vec![5]);
    }
    writer.advance(WarmEvent::Tick);
    writer.advance(WarmEvent::Slept);
    writer.advance(WarmEvent::Flushed { rows: 1 });
    writer.advance(WarmEvent::Received { row: row(6) });
    let step = writer.advance(WarmEvent::Tick);
    assert_eq!(step.action, WarmAction::Flush { reason: FlushReason::Timer });
}

#[test]
fn an_outage_holds_back_full_batches() {
    let mut writer = in_outage(MAX_BATCH_ROWS);
    let step = writer.advance(WarmEvent::Received { row: row(1_000) });
    assert_eq!(step.action, WarmAction::Wait);
    assert_eq!(writer.buffered(), 1_001);
}

#[test]
fn a_buffer_over_its_cap_sheds_the_oldest_row() {
    let mut writer = in_outage(MAX_BUFFERED);
    let step = writer.advance(WarmEvent::Received { row: row(5_000) });
    assert_eq!(step.updates, vec![counted(Counter::WarmShedRows, 1), level(5_000)]);
    assert_eq!(seconds_in(&writer.payload()), (1..=5_000).collect::<Vec<i64>>());
}

#[test]
fn a_closed_channel_is_drained() {
    let mut writer = WarmWriter::new();
    writer.advance(WarmEvent::Received { row: row(1) });
    let step = writer.advance(WarmEvent::Closed);
    assert_eq!(step.action, WarmAction::Flush { reason: FlushReason::Shutdown });
    let step = writer.advance(WarmEvent::Flushed { rows: 1 });
    assert_eq!(step.action, WarmAction::Stop);
    assert_eq!(step.updates, vec![counted(Counter::WarmFlushedRows, 1)]);

    let mut failing = in_outage(MAX_BATCH_ROWS);
    failing.advance(WarmEvent::Closed);
    let step = failing.advance(WarmEvent::FlushFailed);
    assert_eq!(step.action, WarmAction::Stop);
    assert_eq!(step.updates, vec![counted(Counter::WarmFlushFailures, 1)]);

    let mut empty = WarmWriter::new();
    assert_eq!(empty.advance(WarmEvent::Closed).action, WarmAction::Stop);
}

#[test]
fn reasons_have_names() {
    assert_eq!(FlushReason::Size.name(), "size");
    assert_eq!(FlushReason::Timer.name(), "timer");
    assert_eq!(FlushReason::Shutdown.name(), "shutdown");
    assert_eq!(FLUSH_INTERVAL_MS, 250);
}

#[test]
fn rows_copied_together_are_rows_copied_one_after_the_other() {
    let body = |rows: &[StoredReading]| {
        let bytes = encode_binary(rows);
        bytes[19..bytes.len() - 2].to_vec()
    };
    let (a, b) = ([row(1), row(2)], [row(3)]);
    assert_eq!(body(&[row(1), row(2), row(3)]), [body(&a), body(&b)].concat());
}

#[test]
fn the_same_bytes_mean_the_same_rows_to_the_microsecond() {
    let mut other = row(1);
    other.ts = Timestamp::new(1, 123_456_999).unwrap();
    assert_eq!(encode_binary(&[row(1)]), encode_binary(&[other]));
    other.ts = Timestamp::new(1, 123_457_000).unwrap();
    assert_ne!(encode_binary(&[row(1)]), encode_binary(&[other]));
    assert_ne!(encode_binary(&[row(1), row(2)]), encode_binary(&[row(2), row(1)]));
}
