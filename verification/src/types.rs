//! Domain types: the vocabulary that the wire format, the code and the database
//! share. Identifiers are the 128-bit values of UUIDs.

use crate::ieee::{Double, Single};
use vstd::prelude::*;

verus! {

/// Whether `secs` seconds since 1970 and `nanos` nanoseconds name an instant:
/// the year lies between -262143 and 262142, and only the last second of a
/// minute may run to two seconds' worth of nanoseconds (a leap second).
pub open spec fn valid_instant(secs: int, nanos: int) -> bool {
    &&& -8_334_601_228_800 <= secs <= 8_210_266_876_799
    &&& 0 <= nanos < 2_000_000_000
    &&& nanos >= 1_000_000_000 ==> secs % 60 == 59
}

/// The microseconds since 1970 that an instant stands for.
pub open spec fn instant_micros(secs: int, nanos: int) -> int {
    secs * 1_000_000 + nanos / 1_000
}

/// Calls `chrono::DateTime::from_timestamp` and, on the instant that it gives,
/// `timestamp_micros`. Claimed: an instant is given exactly for the seconds and
/// nanoseconds of [`valid_instant`], and its microseconds are those of
/// [`instant_micros`].
#[verifier::external_body]
fn micros_since_1970(secs: i64, nanos: u32) -> (r: Option<i64>)
    ensures
        r == if valid_instant(secs as int, nanos as int) {
            Some(instant_micros(secs as int, nanos as int) as i64)
        } else {
            None
        },
{
    match chrono::DateTime::from_timestamp(secs, nanos) {
        Some(instant) => Some(instant.timestamp_micros()),
        None => None,
    }
}

/// An instant in UTC. It is always a valid one.
#[derive(Clone, Copy, Debug, PartialEq, Eq, Structural)]
pub struct Timestamp {
    secs: i64,
    nanos: u32,
}

impl Timestamp {
    #[verifier::type_invariant]
    pub closed spec fn valid(self) -> bool {
        valid_instant(self.secs as int, self.nanos as int)
    }

    /// Whole seconds since 1970.
    pub closed spec fn seconds(self) -> int {
        self.secs as int
    }

    /// Nanoseconds since the last whole second.
    pub closed spec fn subsecond(self) -> int {
        self.nanos as int
    }

    /// Microseconds since 1970.
    pub open spec fn epoch_micros(self) -> int {
        instant_micros(self.seconds(), self.subsecond())
    }

    /// The instant `secs` seconds and `nanos` nanoseconds after the start of
    /// 1970, if there is one.
    pub fn new(secs: i64, nanos: u32) -> (r: Option<Timestamp>)
        ensures
            r is Some == valid_instant(secs as int, nanos as int),
            r matches Some(t) ==> t.seconds() == secs && t.subsecond() == nanos,
    {
        match micros_since_1970(secs, nanos) {
            Some(_) => Some(Timestamp { secs, nanos }),
            None => None,
        }
    }

    pub fn secs(&self) -> (r: i64)
        ensures
            r == self.seconds(),
    {
        self.secs
    }

    pub fn nanos(&self) -> (r: u32)
        ensures
            r == self.subsecond(),
    {
        self.nanos
    }

    /// Microseconds since 1970, the finer part cut off.
    pub fn timestamp_micros(&self) -> (r: i64)
        ensures
            r == self.epoch_micros(),
            -8_334_601_228_800_000_000 <= r < 8_210_266_876_801_000_000,
    {
        proof {
            use_type_invariant(self);
        }
        match micros_since_1970(self.secs, self.nanos) {
            Some(micros) => micros,
            None => 0,
        }
    }
}

/// The microseconds of an instant stay far inside 64 bits.
pub proof fn lemma_valid_range(ts: Timestamp)
    requires
        ts.valid(),
    ensures
        -8_334_601_228_800_000_000 <= ts.epoch_micros() < 8_210_266_876_801_000_000,
{
}

/// Two instants with the same seconds and nanoseconds are the same.
pub proof fn law_instants_are_their_parts(a: Timestamp, b: Timestamp)
    requires
        a.seconds() == b.seconds(),
        a.subsecond() == b.subsecond(),
    ensures
        a == b,
{
}

/// One sensor reading as it arrives on the wire.
#[derive(Clone, Copy, Debug, PartialEq, Eq, Structural)]
pub struct Reading {
    pub sensor_id: u128,
    /// The sensor's own timestamp (event time), not the arrival time.
    pub ts: Timestamp,
    pub value: Single,
}

/// A batch as posted by collectors: the unit of ingestion.
#[derive(Debug)]
pub struct ReadingBatch {
    pub readings: Vec<Reading>,
}

/// What a sensor measures.
#[derive(Clone, Copy, Debug, PartialEq, Eq, Structural)]
pub enum SensorKind {
    GasCh4,
    GasCo,
    O2,
    Temp,
    Vibration,
    Pressure,
    Airflow,
    DustPm10,
    Seismic,
}

/// Severity of a threshold breach.
#[derive(Clone, Copy, Debug, PartialEq, Eq, Structural)]
pub enum Severity {
    Warn,
    Critical,
}

/// A detected violation: the hot-lane event.
#[derive(Clone, Copy, Debug, PartialEq, Eq, Structural)]
pub struct Violation {
    pub sensor_id: u128,
    pub zone_id: u128,
    pub severity: Severity,
    pub value: Single,
    pub threshold: Double,
    pub ts: Timestamp,
}

/// Quality flag persisted with each reading.
#[derive(Clone, Copy, Debug, PartialEq, Eq, Structural)]
pub enum Quality {
    Good,
    Suspect,
    DegradedSampled,
}

impl Quality {
    /// The number that the database stores.
    pub open spec fn number(self) -> int {
        match self {
            Quality::Good => 0,
            Quality::Suspect => 1,
            Quality::DegradedSampled => 2,
        }
    }

    pub fn code(self) -> (r: i16)
        ensures
            r == self.number(),
    {
        match self {
            Quality::Good => 0,
            Quality::Suspect => 1,
            Quality::DegradedSampled => 2,
        }
    }
}

/// The names that the wire format and the database use.
impl SensorKind {
    pub open spec fn label(self) -> Seq<char> {
        match self {
            SensorKind::GasCh4 => "gas_ch4"@,
            SensorKind::GasCo => "gas_co"@,
            SensorKind::O2 => "o2"@,
            SensorKind::Temp => "temp"@,
            SensorKind::Vibration => "vibration"@,
            SensorKind::Pressure => "pressure"@,
            SensorKind::Airflow => "airflow"@,
            SensorKind::DustPm10 => "dust_pm10"@,
            SensorKind::Seismic => "seismic"@,
        }
    }

    pub fn name(self) -> (r: &'static str)
        ensures
            r@ == self.label(),
    {
        match self {
            SensorKind::GasCh4 => "gas_ch4",
            SensorKind::GasCo => "gas_co",
            SensorKind::O2 => "o2",
            SensorKind::Temp => "temp",
            SensorKind::Vibration => "vibration",
            SensorKind::Pressure => "pressure",
            SensorKind::Airflow => "airflow",
            SensorKind::DustPm10 => "dust_pm10",
            SensorKind::Seismic => "seismic",
        }
    }
}

impl Severity {
    pub open spec fn label(self) -> Seq<char> {
        match self {
            Severity::Warn => "warn"@,
            Severity::Critical => "critical"@,
        }
    }

    pub fn name(self) -> (r: &'static str)
        ensures
            r@ == self.label(),
    {
        match self {
            Severity::Warn => "warn",
            Severity::Critical => "critical",
        }
    }
}

/// Instants count microseconds: a million to the second, and a thousand nanoseconds
/// to each, cut off.
pub proof fn law_instants_count_microseconds(ts: Timestamp)
    requires
        ts.valid(),
    ensures
        1_000 * (ts.epoch_micros() - 1_000_000 * ts.seconds()) <= ts.subsecond() < 1_000 * (
        ts.epoch_micros() - 1_000_000 * ts.seconds()) + 1_000,
{
}

/// The words of the schema for what sensors measure.
pub proof fn law_kinds_have_the_words_of_the_schema(kind: SensorKind)
    ensures
        kind == SensorKind::GasCh4 ==> kind.label() == "gas_ch4"@,
        kind == SensorKind::GasCo ==> kind.label() == "gas_co"@,
        kind == SensorKind::O2 ==> kind.label() == "o2"@,
        kind == SensorKind::Temp ==> kind.label() == "temp"@,
        kind == SensorKind::Vibration ==> kind.label() == "vibration"@,
        kind == SensorKind::Pressure ==> kind.label() == "pressure"@,
        kind == SensorKind::Airflow ==> kind.label() == "airflow"@,
        kind == SensorKind::DustPm10 ==> kind.label() == "dust_pm10"@,
        kind == SensorKind::Seismic ==> kind.label() == "seismic"@,
{
}

/// The words and numbers of the schema for severity and quality.
pub proof fn law_flags_have_the_words_of_the_schema(severity: Severity, quality: Quality)
    ensures
        severity == Severity::Warn ==> severity.label() == "warn"@,
        severity == Severity::Critical ==> severity.label() == "critical"@,
        quality == Quality::Good <==> quality.number() == 0,
        quality == Quality::Suspect <==> quality.number() == 1,
        quality == Quality::DegradedSampled <==> quality.number() == 2,
{
}

} // verus!
