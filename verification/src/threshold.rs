//! Threshold evaluation.
//!
//! Most sensors alarm high: danger is above the line. Oxygen and airflow alarm
//! low: danger is below it. The direction is inferred from the thresholds: a
//! critical line at or above the warning line means a high alarm, one below it
//! a low alarm.

use crate::ieee::{Double, Single};
use crate::types::Severity;
use vstd::prelude::*;

verus! {

/// Whether a sensor with these thresholds alarms on high values.
pub open spec fn alarms_high(warn: Double, crit: Double) -> bool {
    crit.at_least(warn)
}

/// Whether `value` is at the line or beyond it, in the direction of danger. No
/// value crosses a line that is a NaN.
pub open spec fn crosses(value: Single, line: Double, high: bool) -> bool {
    &&& !line.nan()
    &&& if high {
        value.value() >= line.value()
    } else {
        value.value() <= line.value()
    }
}

/// How severe `value` is, if it is a breach at all.
pub open spec fn breach(value: Single, warn: Double, crit: Double) -> Option<Severity> {
    let high = alarms_high(warn, crit);
    if crosses(value, crit, high) {
        Some(Severity::Critical)
    } else if crosses(value, warn, high) {
        Some(Severity::Warn)
    } else {
        None
    }
}

/// The threshold that a breach of the given severity crossed.
pub open spec fn line_of(severity: Severity, warn: Double, crit: Double) -> Double {
    match severity {
        Severity::Critical => crit,
        Severity::Warn => warn,
    }
}

/// Evaluates a value against the two thresholds of its sensor.
pub fn evaluate(value: Single, warn: Double, crit: Double) -> (r: Option<Severity>)
    requires
        value.finite(),
    ensures
        r == breach(value, warn, crit),
{
    let v: Double = value.widen();
    if crit.ge(warn) {
        if v.ge(crit) {
            Some(Severity::Critical)
        } else if v.ge(warn) {
            Some(Severity::Warn)
        } else {
            None
        }
    } else {
        if v.le(crit) {
            Some(Severity::Critical)
        } else if v.le(warn) {
            Some(Severity::Warn)
        } else {
            None
        }
    }
}

/// How grave a finding is: nothing, a warning, or critical.
pub open spec fn gravity(finding: Option<Severity>) -> int {
    match finding {
        None => 0,
        Some(Severity::Warn) => 1,
        Some(Severity::Critical) => 2,
    }
}

/// Moving further in the direction of danger never makes a finding less grave.
pub proof fn law_danger_only_grows(near: Single, far: Single, warn: Double, crit: Double)
    requires
        alarms_high(warn, crit) ==> near.value() <= far.value(),
        !alarms_high(warn, crit) ==> near.value() >= far.value(),
    ensures
        gravity(breach(near, warn, crit)) <= gravity(breach(far, warn, crit)),
{
}

/// Where both thresholds are numbers, a critical value has crossed the warning
/// line as well.
pub proof fn law_critical_is_beyond_warn(value: Single, warn: Double, crit: Double)
    requires
        !warn.nan(),
        !crit.nan(),
        breach(value, warn, crit) == Some(Severity::Critical),
    ensures
        crosses(value, warn, alarms_high(warn, crit)),
{
}

/// Every breach is reported with a line that the value really crossed.
pub proof fn law_reported_line_is_crossed(value: Single, warn: Double, crit: Double)
    ensures
        breach(value, warn, crit) matches Some(severity) ==> crosses(
            value,
            line_of(severity, warn, crit),
            alarms_high(warn, crit),
        ),
{
}

/// Danger above: where the critical line is at or above the warning line, a value is
/// critical from the one on, a warning from the other on, and harmless below both.
pub proof fn law_high_alarms(value: Single, warn: Double, crit: Double)
    requires
        !warn.nan(),
        !crit.nan(),
        crit.value() >= warn.value(),
    ensures
        breach(value, warn, crit) == Some(Severity::Critical) <==> value.value() >= crit.value(),
        breach(value, warn, crit) == Some(Severity::Warn) <==> warn.value() <= value.value()
            < crit.value(),
        breach(value, warn, crit) is None <==> value.value() < warn.value(),
{
}

/// Danger below: where the critical line is below the warning line, a value is
/// critical from the one down, a warning from the other down, and harmless above
/// both.
pub proof fn law_low_alarms(value: Single, warn: Double, crit: Double)
    requires
        !warn.nan(),
        !crit.nan(),
        crit.value() < warn.value(),
    ensures
        breach(value, warn, crit) == Some(Severity::Critical) <==> value.value() <= crit.value(),
        breach(value, warn, crit) == Some(Severity::Warn) <==> crit.value() < value.value()
            <= warn.value(),
        breach(value, warn, crit) is None <==> value.value() > warn.value(),
{
}

/// A line that is a NaN is never crossed, and the other is then a low line.
pub proof fn law_no_value_crosses_a_nan(value: Single, warn: Double, crit: Double)
    ensures
        warn.nan() && crit.nan() ==> breach(value, warn, crit) is None,
        warn.nan() && !crit.nan() ==> {
            &&& breach(value, warn, crit) == Some(Severity::Critical) <==> value.value()
                <= crit.value()
            &&& breach(value, warn, crit) is None <==> value.value() > crit.value()
        },
        crit.nan() && !warn.nan() ==> {
            &&& breach(value, warn, crit) == Some(Severity::Warn) <==> value.value()
                <= warn.value()
            &&& breach(value, warn, crit) is None <==> value.value() > warn.value()
        },
{
}

} // verus!
