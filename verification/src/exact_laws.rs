//! The token bucket in exact arithmetic: what the budget promises before any
//! rounding, and where double precision keeps to it to the last digit.
//!
//! Exact tokens are counted in units of 2^-1074, a billion of them to the unit, so
//! that a nanosecond of refill is a whole number.

use crate::ieee::{lemma_units_of_parts, lemma_units_ordered, units, Single, ONE};
use crate::limiter::{
    burst, elapsed_between, is_rate, law_budget_is_exact, lemma_fraction, refill_rate, refilled,
    seconds,
};
use crate::limiter_laws::{
    allowed, allowed_between, billion, bucket_after, found_at,
    law_every_stored_reading_is_paid_for, rising,
};
use crate::rounding::{
    law_integers_are_exact, law_rounding_keeps_doubles, law_subtracting_one_is_exact,
    law_zero_is_neutral, lemma_one, product, quotient, sum,
};
use vstd::arithmetic::power2::{lemma_pow2_pos, pow2};
use vstd::prelude::*;

verus! {

/// One token.
pub open spec fn exact_token() -> int {
    billion() * units(ONE as int)
}

/// A full bucket: five seconds of the declared rate.
pub open spec fn exact_burst(declared_hz: Single) -> int {
    billion() * (5 * declared_hz.value())
}

/// What a span is worth: twice the declared rate, for so long.
pub open spec fn exact_worth(declared_hz: Single, nanos: int) -> int {
    nanos * (2 * declared_hz.value())
}

/// A bucket of so many tokens, so much later.
pub open spec fn exact_refilled(tokens: int, nanos: int, declared_hz: Single) -> int {
    let grown = tokens + exact_worth(declared_hz, nanos);
    if grown <= exact_burst(declared_hz) {
        grown
    } else {
        exact_burst(declared_hz)
    }
}

/// What a reading leaves.
pub open spec fn exact_charged(tokens: int) -> int {
    if tokens >= exact_token() {
        tokens - exact_token()
    } else {
        tokens
    }
}

/// One bucket after readings at the given instants: its tokens and the instant of
/// its last reading.
pub open spec fn exact_after(bucket: (int, u64), declared_hz: Single, times: Seq<u64>) -> (int, u64)
    decreases times.len(), 2int,
{
    if times.len() == 0 {
        bucket
    } else {
        (exact_charged(exact_found(bucket, declared_hz, times)), times.last())
    }
}

/// The tokens that the last of the readings finds.
pub open spec fn exact_found(bucket: (int, u64), declared_hz: Single, times: Seq<u64>) -> int
    decreases times.len(), 1int,
{
    if times.len() == 0 {
        bucket.0
    } else {
        let before = exact_after(bucket, declared_hz, times.drop_last());
        exact_refilled(
            before.0,
            elapsed_between(before.1, times.last()) as int,
            declared_hz,
        )
    }
}

/// How many of the readings are within budget.
pub open spec fn exact_allowed(bucket: (int, u64), declared_hz: Single, times: Seq<u64>) -> nat
    decreases times.len(),
{
    if times.len() == 0 {
        0
    } else {
        exact_allowed(bucket, declared_hz, times.drop_last()) + if exact_found(
            bucket,
            declared_hz,
            times,
        ) >= exact_token() {
            1nat
        } else {
            0nat
        }
    }
}

/// How many of the readings from number `from` up to number `to`, which is left
/// out, are within budget.
pub open spec fn exact_allowed_between(
    bucket: (int, u64),
    declared_hz: Single,
    times: Seq<u64>,
    from: int,
    to: int,
) -> int {
    exact_allowed(bucket, declared_hz, times.take(to)) - exact_allowed(
        bucket,
        declared_hz,
        times.take(from),
    )
}

/// In exact arithmetic, over any interval from `since` until `until`, whatever came
/// before it, a sensor stores at most five seconds of its declared rate and twice
/// that rate times the length of the interval.
pub proof fn law_exact_storage_is_bounded(
    bucket: (int, u64),
    declared_hz: Single,
    times: Seq<u64>,
    from: int,
    to: int,
    since: u64,
    until: u64,
)
    requires
        is_rate(declared_hz),
        declared_hz.finite(),
        0 <= bucket.0,
        rising(times),
        0 <= from < to <= times.len(),
        since <= times[from],
        times[to - 1] <= until,
    ensures
        exact_allowed_between(bucket, declared_hz, times, from, to) * exact_token()
            <= exact_burst(declared_hz) + exact_worth(declared_hz, until - since),
{
    lemma_exact_interval(bucket, declared_hz, times, from, to);
    lemma_never_in_debt(bucket, declared_hz, times.take(to));
    let v = declared_hz.value();
    let short = times[to - 1] - times[from];
    let long = until - since;
    assert(short * (2 * v) <= long * (2 * v)) by (nonlinear_arith)
        requires
            short <= long,
            v >= 0,
    ;
}

proof fn lemma_never_in_debt(bucket: (int, u64), declared_hz: Single, times: Seq<u64>)
    requires
        is_rate(declared_hz),
        0 <= bucket.0,
    ensures
        exact_after(bucket, declared_hz, times).0 >= 0,
    decreases times.len(),
{
    if times.len() > 0 {
        let before = exact_after(bucket, declared_hz, times.drop_last());
        lemma_never_in_debt(bucket, declared_hz, times.drop_last());
        let e = elapsed_between(before.1, times.last()) as int;
        let v = declared_hz.value();
        assert(e * (2 * v) >= 0) by (nonlinear_arith)
            requires
                e >= 0,
                v >= 0,
        ;
    }
}

proof fn lemma_exact_interval(
    bucket: (int, u64),
    declared_hz: Single,
    times: Seq<u64>,
    from: int,
    to: int,
)
    requires
        is_rate(declared_hz),
        rising(times),
        0 <= from < to <= times.len(),
    ensures
        exact_allowed_between(bucket, declared_hz, times, from, to) * exact_token() + exact_after(
            bucket,
            declared_hz,
            times.take(to),
        ).0 <= exact_burst(declared_hz) + exact_worth(declared_hz, times[to - 1] - times[from]),
    decreases to,
{
    let now = times.take(to);
    let earlier = times.take(to - 1);
    assert(now.drop_last() =~= earlier);
    let one = exact_token();
    let found = exact_found(bucket, declared_hz, now);
    let left = exact_after(bucket, declared_hz, now).0;
    let n = exact_allowed_between(bucket, declared_hz, times, from, to);
    let v = declared_hz.value();
    assert(1 * one == one && 0 * one == 0) by (nonlinear_arith);
    assert(left == exact_charged(found));
    if to == from + 1 {
        assert(0 * (2 * v) == 0) by (nonlinear_arith);
    } else {
        lemma_exact_interval(bucket, declared_hz, times, from, to - 1);
        let m = exact_allowed_between(bucket, declared_hz, times, from, to - 1);
        let x = n - m;
        assert(earlier.last() == times[to - 2]);
        assert(times[to - 2] <= times[to - 1]);
        let a = times[to - 2] - times[from];
        let e = times[to - 1] - times[to - 2];
        assert((a + e) * (2 * v) == a * (2 * v) + e * (2 * v)) by (nonlinear_arith);
        assert(n * one == m * one + x * one) by (nonlinear_arith)
            requires
                n == m + x,
        ;
    }
}

/// Whether every refill of the readings comes out in double precision as it does in
/// exact arithmetic.
pub open spec fn rounds_nothing(
    bucket: (u64, u64),
    declared_hz: Single,
    times: Seq<u64>,
) -> bool
    decreases times.len(),
{
    times.len() > 0 ==> {
        let before = bucket_after(bucket, declared_hz, times.drop_last());
        &&& rounds_nothing(bucket, declared_hz, times.drop_last())
        &&& billion() * units(found_at(bucket, declared_hz, times) as int) == exact_refilled(
            billion() * units(before.0 as int),
            elapsed_between(before.1, times.last()) as int,
            declared_hz,
        )
    }
}

/// A bucket as exact arithmetic sees it.
pub open spec fn exactly(bucket: (u64, u64)) -> (int, u64) {
    (billion() * units(bucket.0 as int), bucket.1)
}

/// Where no refill is rounded, the limiter decides as exact arithmetic does.
pub proof fn law_unrounded_decisions_are_exact(
    bucket: (u64, u64),
    declared_hz: Single,
    times: Seq<u64>,
)
    requires
        bucket.0 <= burst(declared_hz) < 0x4340_0000_0000_0000,
        rounds_nothing(bucket, declared_hz, times),
    ensures
        allowed(bucket, declared_hz, times) == exact_allowed(exactly(bucket), declared_hz, times),
        exactly(bucket_after(bucket, declared_hz, times)) == exact_after(
            exactly(bucket),
            declared_hz,
            times,
        ),
    decreases times.len(),
{
    if times.len() > 0 {
        let earlier = times.drop_last();
        law_unrounded_decisions_are_exact(bucket, declared_hz, earlier);
        law_every_stored_reading_is_paid_for(bucket, declared_hz, earlier);
        let found = found_at(bucket, declared_hz, times);
        assert(found <= burst(declared_hz));
        assert(exact_found(exactly(bucket), declared_hz, times) == billion() * units(
            found as int,
        ));
        lemma_units_ordered(ONE as int, found as int);
        lemma_units_ordered(found as int, ONE as int);
        if found >= ONE {
            law_subtracting_one_is_exact(found);
        }
    }
}

proof fn lemma_unrounded_before(
    bucket: (u64, u64),
    declared_hz: Single,
    times: Seq<u64>,
    to: int,
)
    requires
        rounds_nothing(bucket, declared_hz, times),
        0 <= to <= times.len(),
    ensures
        rounds_nothing(bucket, declared_hz, times.take(to)),
    decreases times.len(),
{
    if to == times.len() {
        assert(times.take(to) =~= times);
    } else {
        lemma_unrounded_before(bucket, declared_hz, times.drop_last(), to);
        assert(times.drop_last().take(to) =~= times.take(to));
    }
}

/// Where no refill is rounded, over any interval a sensor stores at most five
/// seconds of its declared rate and twice that rate times the length of the
/// interval, to the last reading.
pub proof fn law_unrounded_storage_is_bounded(
    bucket: (u64, u64),
    declared_hz: Single,
    times: Seq<u64>,
    from: int,
    to: int,
    since: u64,
    until: u64,
)
    requires
        is_rate(declared_hz),
        declared_hz.finite(),
        bucket.0 <= burst(declared_hz) < 0x4340_0000_0000_0000,
        rounds_nothing(bucket, declared_hz, times),
        rising(times),
        0 <= from < to <= times.len(),
        since <= times[from],
        times[to - 1] <= until,
    ensures
        allowed_between(bucket, declared_hz, times, from, to) * exact_token() <= exact_burst(
            declared_hz,
        ) + exact_worth(declared_hz, until - since),
{
    lemma_unrounded_before(bucket, declared_hz, times, from);
    lemma_unrounded_before(bucket, declared_hz, times, to);
    law_unrounded_decisions_are_exact(bucket, declared_hz, times.take(from));
    law_unrounded_decisions_are_exact(bucket, declared_hz, times.take(to));
    law_exact_storage_is_bounded(
        exactly(bucket),
        declared_hz,
        times,
        from,
        to,
        since,
        until,
    );
}

/// A whole number of seconds refills a bucket of whole tokens by whole tokens.
proof fn lemma_whole_refill(tokens: u64, held: nat, secs: nat, declared_hz: Single, hz: nat)
    requires
        is_rate(declared_hz),
        declared_hz.finite(),
        declared_hz.value() == hz * pow2(1074),
        hz <= 0x2_0000,
        secs * 1_000_000_000 <= u64::MAX,
        units(tokens as int) == held * pow2(1074),
        held <= 5 * hz,
    ensures
        ({
            let grown = held + 2 * hz * secs;
            units(refilled(tokens, secs * 1_000_000_000, declared_hz) as int) == if grown <= 5
                * hz {
                grown * pow2(1074)
            } else {
                (5 * hz) * pow2(1074)
            }
        }),
{
    let nanos = secs * 1_000_000_000;
    let p = pow2(1074) as int;
    let h = hz as int;
    let m = secs as int;
    let k = held as int;
    lemma_pow2_pos(1074);
    law_budget_is_exact(declared_hz);
    assert(nanos / 1_000_000_000 == secs && nanos % 1_000_000_000 == 0);
    law_integers_are_exact(secs);
    lemma_fraction(0);
    law_zero_is_neutral(quotient(secs, 1));
    assert(seconds(nanos) == quotient(secs, 1));
    assert(0 <= 2 * h * m < 0x12_0000_0000_0000) by (nonlinear_arith)
        requires
            0 <= h <= 0x2_0000,
            0 <= m <= 18_446_744_073,
    ;
    let due = quotient((2 * hz * secs) as nat, 1);
    law_integers_are_exact((2 * hz * secs) as nat);
    law_rounding_keeps_doubles(pow2(1074), due as int);
    assert((m * p) * (2 * (h * p)) == p * ((2 * h * m) * p)) by (nonlinear_arith);
    assert(product(seconds(nanos), refill_rate(declared_hz)) == due);
    let grown = quotient((held + 2 * hz * secs) as nat, 1);
    law_integers_are_exact((held + 2 * hz * secs) as nat);
    assert((k + 2 * h * m) * p == k * p + (2 * h * m) * p) by (nonlinear_arith);
    assert(1 * units(grown as int) == units(grown as int));
    law_rounding_keeps_doubles(1, grown as int);
    assert(sum(tokens, due) == grown);
    let cap = burst(declared_hz);
    let full = 5 * h;
    let all = k + 2 * h * m;
    assert(units(cap as int) == full * p) by (nonlinear_arith)
        requires
            units(cap as int) == 5 * (h * p),
            full == 5 * h,
    ;
    if all <= full {
        assert(all * p <= full * p) by (nonlinear_arith)
            requires
                all <= full,
                p > 0,
        ;
    } else {
        assert(all * p > full * p) by (nonlinear_arith)
            requires
                all > full,
                p > 0,
        ;
    }
    lemma_units_ordered(cap as int, grown as int);
    lemma_units_ordered(grown as int, cap as int);
}

/// Nothing is rounded where the declared rate is a whole number of hertz, up to
/// 2^17, the bucket holds whole tokens and readings come on the second.
pub proof fn law_whole_seconds_round_nothing(
    bucket: (u64, u64),
    declared_hz: Single,
    times: Seq<u64>,
    hz: nat,
    held: nat,
)
    requires
        is_rate(declared_hz),
        declared_hz.finite(),
        declared_hz.value() == hz * pow2(1074),
        hz <= 0x2_0000,
        units(bucket.0 as int) == held * pow2(1074),
        held <= 5 * hz,
        bucket.1 % 1_000_000_000 == 0,
        forall|i: int| 0 <= i < times.len() ==> (#[trigger] times[i]) % 1_000_000_000 == 0,
    ensures
        rounds_nothing(bucket, declared_hz, times),
{
    lemma_whole_tokens(bucket, declared_hz, times, hz, held);
}

proof fn lemma_whole_tokens(
    bucket: (u64, u64),
    declared_hz: Single,
    times: Seq<u64>,
    hz: nat,
    held: nat,
) -> (left: nat)
    requires
        is_rate(declared_hz),
        declared_hz.finite(),
        declared_hz.value() == hz * pow2(1074),
        hz <= 0x2_0000,
        units(bucket.0 as int) == held * pow2(1074),
        held <= 5 * hz,
        bucket.1 % 1_000_000_000 == 0,
        forall|i: int| 0 <= i < times.len() ==> (#[trigger] times[i]) % 1_000_000_000 == 0,
    ensures
        rounds_nothing(bucket, declared_hz, times),
        left <= 5 * hz,
        units(bucket_after(bucket, declared_hz, times).0 as int) == left * pow2(1074),
        bucket_after(bucket, declared_hz, times).1 % 1_000_000_000 == 0,
    decreases times.len(),
{
    if times.len() == 0 {
        held
    } else {
        let earlier = times.drop_last();
        let n = times.len() - 1;
        assert forall|i: int| 0 <= i < earlier.len() implies (#[trigger] earlier[i])
            % 1_000_000_000 == 0 by {
            assert(times[i] % 1_000_000_000 == 0);
        }
        assert(times[n] % 1_000_000_000 == 0);
        let before = bucket_after(bucket, declared_hz, earlier);
        let k = lemma_whole_tokens(bucket, declared_hz, earlier, hz, held);
        let nanos = elapsed_between(before.1, times.last());
        let secs = nanos / 1_000_000_000;
        assert(nanos == secs * 1_000_000_000);
        lemma_whole_refill(before.0, k, secs, declared_hz, hz);
        let found = found_at(bucket, declared_hz, times);
        let p = pow2(1074) as int;
        let h = hz as int;
        let m = secs as int;
        let grown = k + 2 * hz * secs;
        let got = if grown <= 5 * hz {
            grown as nat
        } else {
            5 * hz
        };
        lemma_pow2_pos(1074);
        lemma_one();
        let b = billion();
        assert((m * b) * (2 * (h * p)) == b * ((2 * h * m) * p)) by (nonlinear_arith);
        assert((k + 2 * h * m) * p == k * p + (2 * h * m) * p) by (nonlinear_arith);
        assert((5 * h) * p == 5 * (h * p)) by (nonlinear_arith);
        let all = k + 2 * h * m;
        let full = 5 * h;
        assert(all <= full <==> b * (all * p) <= b * (full * p)) by (nonlinear_arith)
            requires
                p > 0,
                b == 1_000_000_000,
        ;
        assert(b * (all * p) == b * (k * p) + b * ((2 * h * m) * p)) by (nonlinear_arith)
            requires
                all * p == k * p + (2 * h * m) * p,
        ;
        let g = got as int;
        lemma_units_ordered(ONE as int, found as int);
        lemma_units_ordered(found as int, ONE as int);
        assert(found >= ONE <==> g >= 1) by {
            assert(g >= 1 ==> g * p >= p) by (nonlinear_arith)
                requires
                    p > 0,
            ;
            assert(g == 0 ==> g * p == 0) by (nonlinear_arith);
        }
        if found >= ONE {
            lemma_below_limit(found, got);
            law_subtracting_one_is_exact(found);
            assert((g - 1) * p == g * p - p) by (nonlinear_arith);
            (got - 1) as nat
        } else {
            got
        }
    }
}

/// A whole number of tokens below 2^53 lies below 2^53.
proof fn lemma_below_limit(magnitude: u64, tokens: nat)
    requires
        units(magnitude as int) == tokens * pow2(1074),
        tokens < 0x20_0000_0000_0000,
    ensures
        magnitude < 0x4340_0000_0000_0000,
{
    lemma_units_of_parts(1074, 0x20_0000_0000_0000);
    let p = pow2(1074) as int;
    let t = tokens as int;
    lemma_pow2_pos(1074);
    assert(t * p < 0x20_0000_0000_0000 * p) by (nonlinear_arith)
        requires
            t < 0x20_0000_0000_0000,
            p > 0,
    ;
    lemma_units_ordered(0x4340_0000_0000_0000, magnitude as int);
}

} // verus!
