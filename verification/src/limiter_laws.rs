//! What holds of a bucket over many readings: what it pays for, how much a sensor
//! can store in any span of time, and that one which keeps its rate is never
//! refused.

use crate::ieee::{
    lemma_pow2_at_least, lemma_units_ordered, single_units, units, Single, INFINITE, ONE,
};
use crate::limiter::{
    burst, charged, elapsed_between, is_rate, law_budget_is_exact, law_refill_only_adds,
    law_slow_sensors_have_no_whole_token, law_tokens_are_capped, lemma_fraction,
    lemma_seconds_finite, refill_rate, refilled, seconds, tokens_found,
};
use crate::rounding::{
    difference, distance, law_integers_are_exact, law_rounding_error_is_small,
    law_rounding_is_monotone, law_rounding_is_total, law_rounding_keeps_doubles,
    law_subtracting_one_is_exact, law_sums_are_monotone, law_zero_is_neutral, lemma_one, nearest,
    product, quotient, sum,
};
use vstd::arithmetic::power2::{
    lemma2_to64, lemma2_to64_rest, lemma_pow2_adds, lemma_pow2_pos, pow2,
};
use vstd::prelude::*;

verus! {

/// One bucket after readings at the given instants.
pub open spec fn bucket_after(
    bucket: (u64, u64),
    declared_hz: Single,
    times: Seq<u64>,
) -> (u64, u64)
    decreases times.len(), 2int,
{
    if times.len() == 0 {
        bucket
    } else {
        (charged(found_at(bucket, declared_hz, times)), times.last())
    }
}

/// The tokens that the last of the readings finds.
pub open spec fn found_at(bucket: (u64, u64), declared_hz: Single, times: Seq<u64>) -> u64
    decreases times.len(), 1int,
{
    if times.len() == 0 {
        bucket.0
    } else {
        let before = bucket_after(bucket, declared_hz, times.drop_last());
        refilled(before.0, elapsed_between(before.1, times.last()), declared_hz)
    }
}

/// How many of the readings are within budget.
pub open spec fn allowed(bucket: (u64, u64), declared_hz: Single, times: Seq<u64>) -> nat
    decreases times.len(),
{
    if times.len() == 0 {
        0
    } else {
        allowed(bucket, declared_hz, times.drop_last()) + if found_at(bucket, declared_hz, times)
            >= ONE {
            1nat
        } else {
            0nat
        }
    }
}

/// What the refills before the readings added, in units of 2^-1074.
pub open spec fn gained(bucket: (u64, u64), declared_hz: Single, times: Seq<u64>) -> int
    decreases times.len(),
{
    if times.len() == 0 {
        0
    } else {
        gained(bucket, declared_hz, times.drop_last()) + units(
            found_at(bucket, declared_hz, times) as int,
        ) - units(bucket_after(bucket, declared_hz, times.drop_last()).0 as int)
    }
}

/// Every stored reading is paid for with one whole token: what a bucket held and
/// what its refills added is what was stored and what is left. This needs a
/// burst below 2^53 tokens, from where on a single token is no longer exact.
pub proof fn law_every_stored_reading_is_paid_for(
    bucket: (u64, u64),
    declared_hz: Single,
    times: Seq<u64>,
)
    requires
        bucket.0 <= burst(declared_hz) < 0x4340_0000_0000_0000,
    ensures
        units(bucket.0 as int) + gained(bucket, declared_hz, times) == allowed(
            bucket,
            declared_hz,
            times,
        ) * units(ONE as int) + units(bucket_after(bucket, declared_hz, times).0 as int),
        bucket_after(bucket, declared_hz, times).0 <= burst(declared_hz),
    decreases times.len(),
{
    let one = units(ONE as int) as int;
    if times.len() == 0 {
        assert(0 * one == 0) by (nonlinear_arith);
    } else {
        let earlier = times.drop_last();
        law_every_stored_reading_is_paid_for(bucket, declared_hz, earlier);
        let found = found_at(bucket, declared_hz, times);
        let k = allowed(bucket, declared_hz, earlier) as int;
        assert((k + 1) * one == k * one + one) by (nonlinear_arith);
        if found >= ONE {
            law_subtracting_one_is_exact(found);
            lemma_units_ordered(found as int, difference(found, ONE) as int);
        }
    }
}

/// The calls for one sensor charge one bucket: each finds what the calls before it
/// left there.
pub proof fn law_calls_charge_one_bucket(
    buckets: Map<u128, (u64, u64)>,
    sensor_id: u128,
    declared_hz: Single,
    times: Seq<u64>,
    now: u64,
)
    requires
        buckets.contains_key(sensor_id),
    ensures
        ({
            let bucket = buckets[sensor_id];
            let kept = buckets.insert(
                sensor_id,
                bucket_after(bucket, declared_hz, times),
            );
            &&& tokens_found(kept, sensor_id, declared_hz, now) == found_at(
                bucket,
                declared_hz,
                times.push(now),
            )
            &&& (charged(tokens_found(kept, sensor_id, declared_hz, now)), now)
                == bucket_after(bucket, declared_hz, times.push(now))
        }),
{
    assert(times.push(now).drop_last() =~= times);
}

/// A sensor not seen before starts with a full bucket, charged for its first
/// reading.
pub proof fn law_a_new_sensor_starts_full(
    buckets: Map<u128, (u64, u64)>,
    sensor_id: u128,
    declared_hz: Single,
    now: u64,
)
    requires
        !buckets.contains_key(sensor_id),
    ensures
        tokens_found(buckets, sensor_id, declared_hz, now) == found_at(
            (burst(declared_hz), now),
            declared_hz,
            seq![now],
        ),
        (charged(tokens_found(buckets, sensor_id, declared_hz, now)), now) == bucket_after(
            (burst(declared_hz), now),
            declared_hz,
            seq![now],
        ),
{
    let times = seq![now];
    let full = (burst(declared_hz), now);
    assert(times.drop_last() =~= seq![]);
    assert(bucket_after(full, declared_hz, times.drop_last()) == full);
    assert(bucket_after(full, declared_hz, times) == (
        charged(found_at(full, declared_hz, times)),
        times.last(),
    ));
}

/// 2^53: rounding is off by at most one part in this many.
pub open spec fn parts() -> int {
    0x20_0000_0000_0000
}

/// Nanoseconds in a second.
pub open spec fn billion() -> int {
    1_000_000_000
}

/// The seconds of a span, against its nanoseconds: at most two roundings more,
/// and at least half.
proof fn lemma_seconds_near(elapsed: nat)
    requires
        elapsed <= u64::MAX,
    ensures
        parts() * parts() * (billion() * units(seconds(elapsed) as int)) <= (parts() + 1) * (
        parts() + 1) * (elapsed * pow2(1074)),
        2 * billion() * units(seconds(elapsed) as int) >= elapsed * pow2(1074),
{
    let p = pow2(1074) as int;
    let w = (elapsed / 1_000_000_000) as int;
    let f = (elapsed % 1_000_000_000) as int;
    let whole = quotient(elapsed / 1_000_000_000, 1);
    let part = quotient(elapsed % 1_000_000_000, 1_000_000_000);
    let q = units(part as int) as int;
    let s = units(seconds(elapsed) as int) as int;
    let n = (elapsed % 1_000_000_000) * pow2(1074);
    lemma_pow2_pos(1074);
    lemma_seconds_finite(elapsed);
    lemma_fraction(elapsed % 1_000_000_000);
    lemma_one();
    lemma_unit_is_large();
    if f == 0 {
        assert(0 * p == 0) by (nonlinear_arith);
    } else {
        assert(f * p >= p) by (nonlinear_arith)
            requires
                f >= 1,
                p > 0,
        ;
    }
    law_rounding_error_is_small(n, 1_000_000_000);
    law_rounding_error_is_small(units(whole as int) + units(part as int), 1);
    assert(n < 1_000_000_000 * units(INFINITE as int)) by {
        lemma_units_ordered(ONE as int, INFINITE as int);
        assert(f * p < 1_000_000_000 * p) by (nonlinear_arith)
            requires
                f < 1_000_000_000,
                p > 0,
        ;
    }
    let u = parts();
    let b = billion();
    assert(u * u * (b * s) <= (u + 1) * (u + 1) * (elapsed * p)) by (nonlinear_arith)
        requires
            u == 0x20_0000_0000_0000,
            b == 1_000_000_000,
            u * (s - (w * p + q)) <= w * p + q,
            u * (b * q - f * p) <= f * p,
            elapsed == b * w + f,
            w >= 0,
            f >= 0,
            p > 0,
    {
        let x = w * p + q;
        assert(u * s <= (u + 1) * x) by (nonlinear_arith)
            requires
                u * (s - x) <= x,
        ;
        assert(u * (b * q) <= (u + 1) * (f * p)) by (nonlinear_arith)
            requires
                u * (b * q - f * p) <= f * p,
        ;
        assert(u * (b * x) <= (u + 1) * (elapsed * p)) by (nonlinear_arith)
            requires
                u * (b * q) <= (u + 1) * (f * p),
                x == w * p + q,
                elapsed == b * w + f,
                w >= 0,
                p > 0,
                b == 1_000_000_000,
        {
            assert(b * x == b * (w * p) + b * q);
            assert(elapsed * p == b * (w * p) + f * p);
            assert(b * (w * p) >= 0);
        }
        assert(u * u * (b * s) == (u * b) * (u * s));
        assert((u * b) * (u * s) <= (u * b) * ((u + 1) * x));
        assert((u * b) * ((u + 1) * x) == (u + 1) * (u * (b * x)));
        assert((u + 1) * (u * (b * x)) <= (u + 1) * ((u + 1) * (elapsed * p)));
        assert((u + 1) * ((u + 1) * (elapsed * p)) == (u + 1) * (u + 1) * (elapsed * p));
    }
    law_zero_is_neutral(whole);
    law_zero_is_neutral(part);
    law_sums_are_monotone(whole, 0, whole, part);
    law_sums_are_monotone(part, 0, part, whole);
    lemma_units_ordered(whole as int, seconds(elapsed) as int);
    lemma_units_ordered(part as int, seconds(elapsed) as int);
    if w >= 1 {
        assert(2 * b * s >= elapsed * p) by (nonlinear_arith)
            requires
                b == 1_000_000_000,
                s >= w * p,
                elapsed == b * w + f,
                f < b,
                w >= 1,
                p > 0,
        ;
    } else {
        assert(2 * b * s >= elapsed * p) by (nonlinear_arith)
            requires
                b == 1_000_000_000,
                s >= q,
                elapsed == f,
                0x20_0000_0000_0000 * (f * p - b * q) <= f * p,
                f >= 0,
                p > 0,
        ;
    }
}

/// The refill rate is nothing, or far above the smallest doubles.
proof fn lemma_rate_is_sizable(declared_hz: Single)
    requires
        refill_rate(declared_hz) != INFINITE,
    ensures
        units(refill_rate(declared_hz) as int) == 0 || units(refill_rate(declared_hz) as int)
            >= 0x10_0000_0000_0000 * 2_000_000_000,
        refill_rate(declared_hz) < INFINITE,
{
    lemma2_to64();
    lemma2_to64_rest();
    if is_rate(declared_hz) {
        law_budget_is_exact(declared_hz);
        lemma_pow2_adds(53, 872);
        lemma_pow2_at_least(53, 872);
        let k = single_units(declared_hz.magnitude()) as int;
        let x = pow2(872) as int;
        let q = pow2(925) as int;
        assert(q >= 0x20_0000_0000_0000 * 0x20_0000_0000_0000) by (nonlinear_arith)
            requires
                q == 0x20_0000_0000_0000 * x,
                x >= 0x20_0000_0000_0000,
        ;
        assert(k * q == 0 || k * q >= q) by (nonlinear_arith)
            requires
                k >= 0,
                q > 0,
        ;
    } else {
        lemma_one();
        lemma_pow2_adds(53, 1021);
        lemma_pow2_at_least(53, 1021);
        let x = pow2(1021) as int;
        assert(0x20_0000_0000_0000 * x >= 0x20_0000_0000_0000 * 0x20_0000_0000_0000)
            by (nonlinear_arith)
            requires
                x >= 0x20_0000_0000_0000,
        ;
    }
}

/// What a span of time is worth in tokens: the rate times the span, and at most
/// four parts in 2^53 more.
proof fn lemma_due_is_near(elapsed: nat, declared_hz: Single)
    requires
        elapsed <= u64::MAX,
        refill_rate(declared_hz) != INFINITE,
    ensures
        parts() * (billion() * units(
            product(seconds(elapsed), refill_rate(declared_hz)) as int,
        )) <= (parts() + 4) * (elapsed * units(refill_rate(declared_hz) as int)),
{
    let p = pow2(1074) as int;
    let rate = refill_rate(declared_hz);
    let r = units(rate as int) as int;
    let s = units(seconds(elapsed) as int) as int;
    let e = elapsed as int;
    let due = units(product(seconds(elapsed), rate) as int) as int;
    let n = units(seconds(elapsed) as int) * units(rate as int);
    let u = parts();
    let b = billion();
    lemma_pow2_pos(1074);
    lemma_seconds_near(elapsed);
    lemma_worth_is_normal(elapsed, declared_hz);
    law_rounding_error_is_small(n, pow2(1074));
    assert(u * (p * due - s * r) <= s * r);
    assert(u * (b * due) <= (u + 4) * (e * r)) by (nonlinear_arith)
        requires
            u == 0x20_0000_0000_0000,
            b == 1_000_000_000,
            u * (p * due - s * r) <= s * r,
            u * u * (b * s) <= (u + 1) * (u + 1) * (e * p),
            p > 0,
            e >= 0,
            r >= 0,
            s >= 0,
            due >= 0,
    {
        assert(u * (p * due) <= (u + 1) * (s * r)) by (nonlinear_arith)
            requires
                u * (p * due - s * r) <= s * r,
        ;
        let left = u * u * b;
        assert(left * (u * (p * due)) <= left * ((u + 1) * (s * r))) by (nonlinear_arith)
            requires
                u * (p * due) <= (u + 1) * (s * r),
                left > 0,
        ;
        assert(left * ((u + 1) * (s * r)) == (u + 1) * r * (u * u * (b * s)))
            by (nonlinear_arith)
            requires
                left == u * u * b,
        ;
        let k = (u + 1) * r;
        assert(k * (u * u * (b * s)) <= k * ((u + 1) * (u + 1) * (e * p))) by (nonlinear_arith)
            requires
                u * u * (b * s) <= (u + 1) * (u + 1) * (e * p),
                k >= 0,
        ;
        let cube = (u + 1) * (u + 1) * (u + 1);
        assert(k * ((u + 1) * (u + 1) * (e * p)) == cube * (e * r) * p) by (nonlinear_arith)
            requires
                k == (u + 1) * r,
                cube == (u + 1) * (u + 1) * (u + 1),
        ;
        assert(left * (u * (p * due)) == (u * u) * (u * (b * due)) * p) by (nonlinear_arith)
            requires
                left == u * u * b,
        ;
        let x = (u * u) * (u * (b * due));
        let y = cube * (e * r);
        assert(x <= y) by (nonlinear_arith)
            requires
                x * p <= y * p,
                p > 0,
        ;
        let worth = e * r;
        assert(worth >= 0) by (nonlinear_arith)
            requires
                worth == e * r,
                e >= 0,
                r >= 0,
        ;
        assert(cube <= (u * u) * (u + 4)) by (nonlinear_arith)
            requires
                cube == (u + 1) * (u + 1) * (u + 1),
                u == 0x20_0000_0000_0000,
        ;
        assert(cube * worth <= (u * u) * (u + 4) * worth) by (nonlinear_arith)
            requires
                cube <= (u * u) * (u + 4),
                worth >= 0,
        ;
        assert((u * u) * (u + 4) * worth == (u * u) * ((u + 4) * worth)) by (nonlinear_arith);
        let a = u * (b * due);
        let c = (u + 4) * worth;
        assert(a <= c) by (nonlinear_arith)
            requires
                (u * u) * a <= (u * u) * c,
                u > 0,
        ;
    }
}

/// A refill adds what the span is worth, but for the rounding: four parts in 2^53
/// of that, and one part in 2^53 of a full bucket.
pub proof fn law_refill_is_what_time_is_worth(tokens: u64, elapsed: nat, declared_hz: Single)
    requires
        elapsed <= u64::MAX,
        tokens <= burst(declared_hz) < INFINITE,
    ensures
        parts() * (billion() * (units(refilled(tokens, elapsed, declared_hz) as int) - units(
            tokens as int,
        ))) <= (parts() + 4) * (elapsed * units(refill_rate(declared_hz) as int)) + billion()
            * units(burst(declared_hz) as int),
{
    let rate = refill_rate(declared_hz);
    let cap = burst(declared_hz);
    if rate == INFINITE {
        if is_rate(declared_hz) && declared_hz.finite() {
            law_budget_is_exact(declared_hz);
        }
    }
    let due = product(seconds(elapsed), rate);
    let grown = sum(tokens, due);
    let r = refilled(tokens, elapsed, declared_hz);
    lemma_due_is_near(elapsed, declared_hz);
    law_tokens_are_capped(tokens, elapsed, declared_hz);
    law_rounding_error_is_small(units(tokens as int) + units(due as int), 1);
    lemma_units_ordered(r as int, cap as int);
    lemma_units_ordered(r as int, grown as int);
    let t = units(tokens as int) as int;
    let d = units(due as int) as int;
    let full = units(cap as int) as int;
    let got = units(r as int) as int;
    assert(parts() * (got - t - d) <= full);
    let u = parts();
    let b = billion();
    assert(u * (b * (got - t)) == u * (b * d) + b * (u * (got - t - d))) by (nonlinear_arith);
}

/// Whether instants come in order.
pub open spec fn rising(times: Seq<u64>) -> bool {
    forall|i: int, j: int| 0 <= i <= j < times.len() ==> times[i] <= times[j]
}

/// The rounding that `calls` refills over `nanos` can come to: four parts in 2^53
/// of what the span is worth, and for each refill one part in 2^53 of a full
/// bucket. Together with [`parts`] and [`billion`] as the common denominator.
pub open spec fn slack(declared_hz: Single, nanos: int, calls: int) -> int {
    4 * (nanos * units(refill_rate(declared_hz) as int)) + billion() * (calls * units(
        burst(declared_hz) as int,
    ))
}

/// One more reading, after which the tokens left and the readings stored account
/// for what was there and what the time was worth.
proof fn lemma_one_more_reading(bucket: (u64, u64), declared_hz: Single, times: Seq<u64>)
    requires
        times.len() > 0,
        bucket.0 <= burst(declared_hz) < 0x4340_0000_0000_0000,
    ensures
        ({
            let earlier = times.drop_last();
            let before = bucket_after(bucket, declared_hz, earlier);
            let found = found_at(bucket, declared_hz, times);
            let stored = allowed(bucket, declared_hz, times) - allowed(
                bucket,
                declared_hz,
                earlier,
            );
            &&& before.0 <= burst(declared_hz)
            &&& found <= burst(declared_hz)
            &&& stored * units(ONE as int) + units(
                bucket_after(bucket, declared_hz, times).0 as int,
            ) == units(found as int)
            &&& parts() * (billion() * (units(found as int) - units(before.0 as int))) <= (parts()
                + 4) * (elapsed_between(before.1, times.last()) * units(
                refill_rate(declared_hz) as int,
            )) + billion() * units(burst(declared_hz) as int)
        }),
{
    let earlier = times.drop_last();
    let before = bucket_after(bucket, declared_hz, earlier);
    let found = found_at(bucket, declared_hz, times);
    law_every_stored_reading_is_paid_for(bucket, declared_hz, earlier);
    law_refill_is_what_time_is_worth(
        before.0,
        elapsed_between(before.1, times.last()),
        declared_hz,
    );
    let one = units(ONE as int) as int;
    assert(1 * one == one && 0 * one == 0) by (nonlinear_arith);
    if found >= ONE {
        law_subtracting_one_is_exact(found);
    }
}

/// What refills add over a run of readings is what the time from the bucket's last
/// reading to the last of them is worth, but for the rounding.
pub proof fn law_gain_is_bounded_by_time(
    bucket: (u64, u64),
    declared_hz: Single,
    times: Seq<u64>,
)
    requires
        bucket.0 <= burst(declared_hz) < 0x4340_0000_0000_0000,
        rising(times),
        times.len() > 0,
        bucket.1 <= times[0],
    ensures
        parts() * (billion() * gained(bucket, declared_hz, times)) <= parts() * ((times.last()
            - bucket.1) * units(refill_rate(declared_hz) as int)) + slack(
            declared_hz,
            times.last() - bucket.1,
            times.len() as int,
        ),
    decreases times.len(),
{
    let earlier = times.drop_last();
    let before = bucket_after(bucket, declared_hz, earlier);
    let r = units(refill_rate(declared_hz) as int) as int;
    let c = units(burst(declared_hz) as int) as int;
    let u = parts();
    let b = billion();
    let k = earlier.len() as int;
    lemma_one_more_reading(bucket, declared_hz, times);
    let gain = units(found_at(bucket, declared_hz, times) as int) - units(before.0 as int);
    let g = gained(bucket, declared_hz, earlier);
    assert(u * (b * (g + gain)) == u * (b * g) + u * (b * gain)) by (nonlinear_arith);
    if k == 0 {
        assert(gained(bucket, declared_hz, earlier) == 0);
        let t = times.last() - bucket.1;
        assert(u * (b * 0) == 0 && 1 * c == c) by (nonlinear_arith);
        assert((u + 4) * (t * r) == u * (t * r) + 4 * (t * r)) by (nonlinear_arith);
    } else {
        assert(earlier[0] == times[0]);
        assert(before.1 == earlier.last() == times[k - 1]);
        assert(rising(earlier));
        law_gain_is_bounded_by_time(bucket, declared_hz, earlier);
        let a = earlier.last() - bucket.1;
        let e = times.last() - earlier.last();
        assert((a + e) * r == a * r + e * r) by (nonlinear_arith);
        assert((u + 4) * (e * r) == u * (e * r) + 4 * (e * r)) by (nonlinear_arith);
        assert(u * (a * r + e * r) == u * (a * r) + u * (e * r)) by (nonlinear_arith);
        assert((k + 1) * c == k * c + c) by (nonlinear_arith);
    }
}

/// What a sensor stores is bounded by what its bucket held and what the time since
/// is worth, but for the rounding.
pub proof fn law_storage_is_bounded_by_time(
    bucket: (u64, u64),
    declared_hz: Single,
    times: Seq<u64>,
)
    requires
        bucket.0 <= burst(declared_hz) < 0x4340_0000_0000_0000,
        rising(times),
        times.len() > 0,
        bucket.1 <= times[0],
    ensures
        parts() * (billion() * (allowed(bucket, declared_hz, times) * units(ONE as int)))
            <= parts() * (billion() * units(bucket.0 as int)) + parts() * ((times.last()
            - bucket.1) * units(refill_rate(declared_hz) as int)) + slack(
            declared_hz,
            times.last() - bucket.1,
            times.len() as int,
        ),
{
    law_every_stored_reading_is_paid_for(bucket, declared_hz, times);
    law_gain_is_bounded_by_time(bucket, declared_hz, times);
    let stored = allowed(bucket, declared_hz, times) * units(ONE as int);
    let t = units(bucket.0 as int) as int;
    let g = gained(bucket, declared_hz, times);
    let u = parts();
    let b = billion();
    assert(u * (b * stored) <= u * (b * (t + g))) by (nonlinear_arith)
        requires
            stored <= t + g,
            u > 0,
            b > 0,
    ;
    assert(u * (b * (t + g)) == u * (b * t) + u * (b * g)) by (nonlinear_arith);
}

/// How many of the readings from number `from` up to number `to`, which is left
/// out, are within budget.
pub open spec fn allowed_between(
    bucket: (u64, u64),
    declared_hz: Single,
    times: Seq<u64>,
    from: int,
    to: int,
) -> int {
    allowed(bucket, declared_hz, times.take(to)) - allowed(bucket, declared_hz, times.take(from))
}

/// The flood shield: over any interval, whatever came before it, a sensor stores at
/// most a full bucket and what the interval is worth, but for the rounding.
pub proof fn law_any_interval_is_bounded(
    bucket: (u64, u64),
    declared_hz: Single,
    times: Seq<u64>,
    from: int,
    to: int,
)
    requires
        bucket.0 <= burst(declared_hz) < 0x4340_0000_0000_0000,
        rising(times),
        0 <= from < to <= times.len(),
    ensures
        parts() * (billion() * (allowed_between(bucket, declared_hz, times, from, to) * units(
            ONE as int,
        ))) <= parts() * (billion() * units(burst(declared_hz) as int)) + parts() * ((times[to - 1]
            - times[from]) * units(refill_rate(declared_hz) as int)) + slack(
            declared_hz,
            times[to - 1] - times[from],
            to - from - 1,
        ),
{
    lemma_interval(bucket, declared_hz, times, from, to);
    let stored = allowed_between(bucket, declared_hz, times, from, to) * units(ONE as int);
    let left = units(bucket_after(bucket, declared_hz, times.take(to)).0 as int) as int;
    let c = units(burst(declared_hz) as int) as int;
    let u = parts();
    let b = billion();
    assert(u * (b * (stored + left - c)) >= u * (b * (stored - c))) by (nonlinear_arith)
        requires
            left >= 0,
            u > 0,
            b > 0,
    ;
    assert(u * (b * (stored - c)) == u * (b * stored) - u * (b * c)) by (nonlinear_arith);
}

proof fn lemma_interval(
    bucket: (u64, u64),
    declared_hz: Single,
    times: Seq<u64>,
    from: int,
    to: int,
)
    requires
        bucket.0 <= burst(declared_hz) < 0x4340_0000_0000_0000,
        rising(times),
        0 <= from < to <= times.len(),
    ensures
        parts() * (billion() * (allowed_between(bucket, declared_hz, times, from, to) * units(
            ONE as int,
        ) + units(bucket_after(bucket, declared_hz, times.take(to)).0 as int) - units(
            burst(declared_hz) as int,
        ))) <= parts() * ((times[to - 1] - times[from]) * units(refill_rate(declared_hz) as int))
            + slack(declared_hz, times[to - 1] - times[from], to - from - 1),
    decreases to,
{
    let now = times.take(to);
    let earlier = times.take(to - 1);
    assert(now.drop_last() =~= earlier);
    lemma_one_more_reading(bucket, declared_hz, now);
    let one = units(ONE as int) as int;
    let r = units(refill_rate(declared_hz) as int) as int;
    let c = units(burst(declared_hz) as int) as int;
    let u = parts();
    let b = billion();
    let found = units(found_at(bucket, declared_hz, now) as int) as int;
    let kept = units(bucket_after(bucket, declared_hz, now).0 as int) as int;
    let n = allowed_between(bucket, declared_hz, times, from, to);
    lemma_units_ordered(found_at(bucket, declared_hz, now) as int, burst(declared_hz) as int);
    if to == from + 1 {
        assert(n * one + kept == found);
        assert(0 * r == 0 && 0 * c == 0 && u * 0 == 0) by (nonlinear_arith);
        assert(u * (b * (found - c)) <= 0) by (nonlinear_arith)
            requires
                found <= c,
                u > 0,
                b > 0,
        ;
    } else {
        lemma_interval(bucket, declared_hz, times, from, to - 1);
        let m = allowed_between(bucket, declared_hz, times, from, to - 1);
        let before = units(bucket_after(bucket, declared_hz, earlier).0 as int) as int;
        assert(earlier.last() == times[to - 2]);
        assert(times[to - 2] <= times[to - 1] && times[from] <= times[to - 2]);
        let a = times[to - 2] - times[from];
        let e = times[to - 1] - times[to - 2];
        let k = to - from - 2;
        let x = n - m;
        assert(n * one == m * one + x * one) by (nonlinear_arith)
            requires
                n == m + x,
        ;
        let old_sum = m * one + before - c;
        let gain = found - before;
        assert(n * one + kept - c == old_sum + gain);
        assert(u * (b * (old_sum + gain)) == u * (b * old_sum) + u * (b * gain))
            by (nonlinear_arith);
        assert((a + e) * r == a * r + e * r) by (nonlinear_arith);
        assert((u + 4) * (e * r) == u * (e * r) + 4 * (e * r)) by (nonlinear_arith);
        assert(u * (a * r + e * r) == u * (a * r) + u * (e * r)) by (nonlinear_arith);
        assert((k + 1) * c == k * c + c) by (nonlinear_arith);
    }
}

/// The same in terms of the declared rate: over any interval, a sensor stores at
/// most five seconds of its rate and twice its rate times the length of the
/// interval; while the rounding stays below one token, at most one reading more.
pub proof fn law_any_interval_is_bounded_by_the_declared_rate(
    bucket: (u64, u64),
    declared_hz: Single,
    times: Seq<u64>,
    from: int,
    to: int,
)
    requires
        is_rate(declared_hz),
        declared_hz.finite(),
        bucket.0 <= burst(declared_hz) < 0x4340_0000_0000_0000,
        rising(times),
        0 <= from < to <= times.len(),
        slack(declared_hz, times[to - 1] - times[from], to - from - 1) <= parts() * (billion()
            * units(ONE as int)),
    ensures
        billion() * (allowed_between(bucket, declared_hz, times, from, to) * units(ONE as int))
            <= billion() * (5 * declared_hz.value()) + (times[to - 1] - times[from]) * (2
            * declared_hz.value()) + billion() * units(ONE as int),
{
    law_any_interval_is_bounded(bucket, declared_hz, times, from, to);
    law_budget_is_exact(declared_hz);
    let u = parts();
    let b = billion();
    let x = b * (allowed_between(bucket, declared_hz, times, from, to) * units(ONE as int));
    let y = b * (5 * declared_hz.value());
    let z = (times[to - 1] - times[from]) * (2 * declared_hz.value());
    let w = b * units(ONE as int);
    assert(x <= y + z + w) by (nonlinear_arith)
        requires
            u * x <= u * y + u * z + u * w,
            u > 0,
    ;
}

/// Whether the readings come no faster than declared: between one and the next the
/// declared rate is good for at least one.
pub open spec fn keeps_rate(declared_hz: Single, times: Seq<u64>) -> bool {
    forall|i: int, j: int|
        0 <= i && j == i + 1 && j < times.len() ==> (#[trigger] times[j] - #[trigger] times[i])
            * declared_hz.value() >= billion() * units(ONE as int)
}

/// A span in which one reading is due refills at least one token.
proof fn lemma_due_is_a_token(elapsed: nat, declared_hz: Single)
    requires
        elapsed <= u64::MAX,
        is_rate(declared_hz),
        declared_hz.finite(),
        elapsed * declared_hz.value() >= billion() * units(ONE as int),
    ensures
        product(seconds(elapsed), refill_rate(declared_hz)) >= ONE,
{
    let p = pow2(1074) as int;
    let v = declared_hz.value();
    let e = elapsed as int;
    let s = units(seconds(elapsed) as int) as int;
    let b = billion();
    lemma_one();
    lemma_pow2_pos(1074);
    lemma_seconds_near(elapsed);
    law_budget_is_exact(declared_hz);
    assert(s * (2 * v) >= p * p) by (nonlinear_arith)
        requires
            2 * b * s >= e * p,
            e * v >= b * p,
            b == 1_000_000_000,
            v >= 0,
            p > 0,
            s >= 0,
    {
        assert((2 * b * s) * v >= (e * p) * v) by (nonlinear_arith)
            requires
                2 * b * s >= e * p,
                v >= 0,
        ;
        assert((e * p) * v == (e * v) * p) by (nonlinear_arith);
        assert((e * v) * p >= (b * p) * p) by (nonlinear_arith)
            requires
                e * v >= b * p,
                p > 0,
        ;
        assert((2 * b * s) * v == b * (s * (2 * v))) by (nonlinear_arith);
        assert((b * p) * p == b * (p * p)) by (nonlinear_arith);
    }
    law_rounding_is_monotone(
        (pow2(1074) * units(ONE as int)) as nat,
        units(seconds(elapsed) as int) * units(refill_rate(declared_hz) as int),
        pow2(1074),
    );
    law_rounding_keeps_doubles(pow2(1074), ONE as int);
}

/// A sensor that keeps its declared rate is never refused, once its bucket holds a
/// token; a new sensor's does, from 0.2 Hz on.
pub proof fn law_the_declared_rate_is_never_refused(
    bucket: (u64, u64),
    declared_hz: Single,
    times: Seq<u64>,
)
    requires
        is_rate(declared_hz),
        declared_hz.finite(),
        5 * declared_hz.value() >= units(ONE as int),
        ONE <= bucket.0 <= burst(declared_hz),
        keeps_rate(declared_hz, times),
    ensures
        allowed(bucket, declared_hz, times) == times.len(),
    decreases times.len(),
{
    if times.len() > 0 {
        let earlier = times.drop_last();
        let k = earlier.len() as int;
        assert forall|i: int, j: int| 0 <= i && j == i + 1 && j < earlier.len() implies (
        #[trigger] earlier[j] - #[trigger] earlier[i]) * declared_hz.value() >= billion() * units(
            ONE as int,
        ) by {
            assert(earlier[j] == times[j] && earlier[i] == times[i]);
        }
        law_the_declared_rate_is_never_refused(bucket, declared_hz, earlier);
        law_budget_is_exact(declared_hz);
        law_slow_sensors_have_no_whole_token(declared_hz);
        let before = bucket_after(bucket, declared_hz, earlier);
        let elapsed = elapsed_between(before.1, times.last());
        if k == 0 {
            law_refill_only_adds(bucket.0, elapsed, declared_hz);
        } else {
            let gap = times[k] - times[k - 1];
            let v = declared_hz.value();
            lemma_one();
            lemma_pow2_pos(1074);
            assert(gap >= 0) by (nonlinear_arith)
                requires
                    gap * v > 0,
                    v >= 0,
            ;
            assert(before.1 == times[k - 1]);
            lemma_due_is_a_token(elapsed, declared_hz);
            let due = product(seconds(elapsed), refill_rate(declared_hz));
            law_rounding_is_total(
                units(seconds(elapsed) as int) * units(refill_rate(declared_hz) as int),
                pow2(1074),
            );
            law_zero_is_neutral(due);
            law_sums_are_monotone(0, due, before.0, due);
        }
    }
}

/// Seconds are those of the span, but for two roundings: at most two parts in 2^53
/// more or less, and the roundings of these.
pub proof fn law_seconds_are_those_of_the_span(elapsed: nat)
    requires
        elapsed <= u64::MAX,
    ensures
        parts() * parts() * (billion() * units(seconds(elapsed) as int)) <= (parts() + 1) * (
        parts() + 1) * (elapsed * pow2(1074)),
        parts() * parts() * (billion() * units(seconds(elapsed) as int)) >= (parts() - 1) * (
        parts() - 1) * (elapsed * pow2(1074)),
{
    lemma_seconds_near(elapsed);
    let p = pow2(1074) as int;
    let w = (elapsed / 1_000_000_000) as int;
    let f = (elapsed % 1_000_000_000) as int;
    let whole = quotient(elapsed / 1_000_000_000, 1);
    let part = quotient(elapsed % 1_000_000_000, 1_000_000_000);
    let q = units(part as int) as int;
    let s = units(seconds(elapsed) as int) as int;
    let n = (elapsed % 1_000_000_000) * pow2(1074);
    lemma_pow2_pos(1074);
    lemma_seconds_finite(elapsed);
    lemma_fraction(elapsed % 1_000_000_000);
    lemma_one();
    lemma_unit_is_large();
    if f == 0 {
        assert(0 * p == 0) by (nonlinear_arith);
    } else {
        assert(f * p >= p) by (nonlinear_arith)
            requires
                f >= 1,
                p > 0,
        ;
    }
    law_rounding_error_is_small(n, 1_000_000_000);
    law_rounding_error_is_small(units(whole as int) + units(part as int), 1);
    lemma_units_ordered(ONE as int, INFINITE as int);
    assert(f * p < 1_000_000_000 * p) by (nonlinear_arith)
        requires
            f < 1_000_000_000,
            p > 0,
    ;
    let x = w * p + q;
    assert(x < units(INFINITE as int)) by {
        let m = quotient((elapsed / 1_000_000_000 + 1) as nat, 1);
        law_integers_are_exact((elapsed / 1_000_000_000 + 1) as nat);
        lemma_units_ordered(m as int, INFINITE as int);
        lemma_units_ordered(part as int, ONE as int);
        assert((w + 1) * p == w * p + p) by (nonlinear_arith);
    }
    let u = parts();
    let b = billion();
    assert(u * s >= (u - 1) * x) by (nonlinear_arith)
        requires
            u * (x - s) <= x,
    ;
    assert(u * (b * q) >= (u - 1) * (f * p)) by (nonlinear_arith)
        requires
            u * (f * p - b * q) <= f * p,
    ;
    assert(w * p >= 0) by (nonlinear_arith)
        requires
            w >= 0,
            p > 0,
    ;
    let e = elapsed as int;
    assert(e * p == b * (w * p) + f * p) by (nonlinear_arith)
        requires
            e == b * w + f,
    ;
    assert(b * x == b * (w * p) + b * q) by (nonlinear_arith)
        requires
            x == w * p + q,
    ;
    let wide = b * (w * p);
    assert(wide >= 0);
    assert(u * (wide + b * q) == u * wide + u * (b * q)) by (nonlinear_arith);
    assert((u - 1) * (wide + f * p) == u * wide - wide + (u - 1) * (f * p)) by (nonlinear_arith);
    assert(u * (b * x) >= (u - 1) * (e * p));
    assert(u * u * (b * s) == (u * b) * (u * s)) by (nonlinear_arith);
    assert((u * b) * (u * s) >= (u * b) * ((u - 1) * x)) by (nonlinear_arith)
        requires
            u * s >= (u - 1) * x,
            u > 0,
            b > 0,
    ;
    assert((u * b) * ((u - 1) * x) == (u - 1) * (u * (b * x))) by (nonlinear_arith);
    assert((u - 1) * (u * (b * x)) >= (u - 1) * ((u - 1) * (e * p))) by (nonlinear_arith)
        requires
            u * (b * x) >= (u - 1) * (e * p),
            u > 1,
    ;
    assert((u - 1) * ((u - 1) * (e * p)) == (u - 1) * (u - 1) * (e * p)) by (nonlinear_arith);
}

proof fn lemma_unit_is_large()
    ensures
        pow2(1074) >= 0x10_0000_0000_0000 * 1_000_000_000,
{
    lemma2_to64();
    lemma2_to64_rest();
    lemma_pow2_at_least(53, 1021);
    lemma_pow2_adds(53, 1021);
    let x = pow2(1021) as int;
    assert(0x20_0000_0000_0000 * x >= 0x20_0000_0000_0000 * 0x20_0000_0000_0000)
        by (nonlinear_arith)
        requires
            x >= 0x20_0000_0000_0000,
    ;
}

/// A quotient beyond all doubles rounds to the infinity.
proof fn lemma_beyond_all(numerator: nat, denominator: nat)
    requires
        denominator > 0,
        numerator >= denominator * units(INFINITE as int),
    ensures
        nearest(numerator, denominator) == INFINITE,
{
    law_rounding_is_total(numerator, denominator);
    let r = nearest(numerator, denominator) as int;
    if r < INFINITE {
        lemma_units_ordered(r, INFINITE as int);
        let d = denominator as int;
        let x = units(r) as int;
        let y = units(INFINITE as int) as int;
        assert(d * x < d * y) by (nonlinear_arith)
            requires
                x < y,
                d > 0,
        ;
        assert(distance(numerator, denominator, INFINITE as int) < distance(
            numerator,
            denominator,
            r,
        ));
    }
}

/// A refill is no less than the time is worth: it fills the bucket, or adds what the
/// span is worth but for the rounding, three parts in 2^53 of that and two of a full
/// bucket.
pub proof fn law_time_is_never_short_changed(tokens: u64, elapsed: nat, declared_hz: Single)
    requires
        elapsed <= u64::MAX,
        tokens <= burst(declared_hz) < INFINITE,
    ensures
        refilled(tokens, elapsed, declared_hz) == burst(declared_hz) || parts() * (billion() * (
        units(refilled(tokens, elapsed, declared_hz) as int) - units(tokens as int))) + billion()
            * (2 * units(burst(declared_hz) as int)) >= (parts() - 3) * (elapsed * units(
            refill_rate(declared_hz) as int,
        )),
{
    let rate = refill_rate(declared_hz);
    let cap = burst(declared_hz);
    let got = refilled(tokens, elapsed, declared_hz);
    if got != cap {
        if rate == INFINITE {
            if is_rate(declared_hz) && declared_hz.finite() {
                law_budget_is_exact(declared_hz);
            }
        }
        let p = pow2(1074) as int;
        let due = product(seconds(elapsed), rate);
        let s = units(seconds(elapsed) as int) as int;
        let r = units(rate as int) as int;
        let e = elapsed as int;
        let d = units(due as int) as int;
        let t = units(tokens as int) as int;
        let g = units(got as int) as int;
        let full = units(cap as int) as int;
        let n = units(seconds(elapsed) as int) * units(rate as int);
        let u = parts();
        let b = billion();
        lemma_pow2_pos(1074);
        lemma_rate_is_sizable(declared_hz);
        lemma_seconds_near(elapsed);
        law_seconds_are_those_of_the_span(elapsed);
        assert(got == sum(tokens, due));
        assert(n < pow2(1074) * units(INFINITE as int)) by {
            if n >= pow2(1074) * units(INFINITE as int) {
                lemma_beyond_all(n, pow2(1074));
                law_zero_is_neutral(due);
                law_sums_are_monotone(0, due, tokens, due);
            }
        }
        assert(t + d < units(INFINITE as int)) by {
            if t + d >= units(INFINITE as int) {
                lemma_beyond_all((t + d) as nat, 1);
            }
        }
        law_rounding_error_is_small((t + d) as nat, 1);
        lemma_worth_is_normal(elapsed, declared_hz);
        law_rounding_error_is_small(n, pow2(1074));
        lemma_units_ordered(got as int, cap as int);
        assert(u * (b * d) >= (u - 3) * (e * r)) by {
            lemma_due_is_enough(e, r, s, d, p);
        }
        assert(t + d <= 2 * full) by (nonlinear_arith)
            requires
                u * ((t + d) - g) <= t + d,
                u == 0x20_0000_0000_0000,
                0 <= g <= full,
                t + d >= 0,
        ;
        assert(u * (b * (g - t)) == u * (b * d) - b * (u * (t + d - g))) by (nonlinear_arith);
        assert(b * (u * (t + d - g)) <= b * (2 * full)) by (nonlinear_arith)
            requires
                u * (t + d - g) <= 2 * full,
                b > 0,
        ;
    }
}

/// What a span is worth is nothing, or in the normal range of doubles.
proof fn lemma_worth_is_normal(elapsed: nat, declared_hz: Single)
    requires
        elapsed <= u64::MAX,
        refill_rate(declared_hz) != INFINITE,
    ensures
        ({
            let n = units(seconds(elapsed) as int) * units(refill_rate(declared_hz) as int);
            n == 0 || n >= 0x10_0000_0000_0000 * pow2(1074)
        }),
{
    let p = pow2(1074) as int;
    let r = units(refill_rate(declared_hz) as int) as int;
    let s = units(seconds(elapsed) as int) as int;
    let e = elapsed as int;
    let u = parts();
    let b = billion();
    lemma_pow2_pos(1074);
    lemma_seconds_near(elapsed);
    lemma_rate_is_sizable(declared_hz);
    if r == 0 || s == 0 {
        assert(s * r == 0) by (nonlinear_arith)
            requires
                r == 0 || s == 0,
        ;
    } else {
        if e == 0 {
            assert(e * p == 0) by (nonlinear_arith)
                requires
                    e == 0,
            ;
            assert((u + 1) * (u + 1) * (e * p) == 0) by (nonlinear_arith)
                requires
                    e * p == 0,
            ;
            assert(u * u * (b * s) > 0) by (nonlinear_arith)
                requires
                    u > 0,
                    b > 0,
                    s > 0,
            ;
        }
        assert(2 * b * s >= p) by (nonlinear_arith)
            requires
                2 * b * s >= e * p,
                e >= 1,
                p > 0,
        ;
        assert(s * r >= s * (0x10_0000_0000_0000 * 2_000_000_000)) by (nonlinear_arith)
            requires
                r >= 0x10_0000_0000_0000 * 2_000_000_000,
                s > 0,
        ;
        assert(s * (0x10_0000_0000_0000 * 2_000_000_000) >= 0x10_0000_0000_0000 * p)
            by (nonlinear_arith)
            requires
                2 * b * s >= p,
                b == 1_000_000_000,
        ;
        assert(units(seconds(elapsed) as int) * units(refill_rate(declared_hz) as int) == s * r);
    }
}

/// Three roundings down take at most three parts in 2^53.
proof fn lemma_due_is_enough(e: int, r: int, s: int, due: int, p: int)
    requires
        e >= 0,
        r >= 0,
        s >= 0,
        due >= 0,
        p > 0,
        parts() * (s * r - p * due) <= s * r,
        parts() * parts() * (billion() * s) >= (parts() - 1) * (parts() - 1) * (e * p),
    ensures
        parts() * (billion() * due) >= (parts() - 3) * (e * r),
{
    let u = parts();
    let b = billion();
    assert(u * (p * due) >= (u - 1) * (s * r)) by (nonlinear_arith)
        requires
            u * (s * r - p * due) <= s * r,
    ;
    let left = u * u * b;
    assert(left > 0) by (nonlinear_arith)
        requires
            left == u * u * b,
            u > 0,
            b > 0,
    ;
    assert(left * (u * (p * due)) >= left * ((u - 1) * (s * r))) by (nonlinear_arith)
        requires
            u * (p * due) >= (u - 1) * (s * r),
            left > 0,
    ;
    let k = (u - 1) * r;
    assert(k >= 0) by (nonlinear_arith)
        requires
            k == (u - 1) * r,
            u > 1,
            r >= 0,
    ;
    assert(left * ((u - 1) * (s * r)) == k * (u * u * (b * s))) by (nonlinear_arith)
        requires
            left == u * u * b,
            k == (u - 1) * r,
    ;
    assert(k * (u * u * (b * s)) >= k * ((u - 1) * (u - 1) * (e * p))) by (nonlinear_arith)
        requires
            u * u * (b * s) >= (u - 1) * (u - 1) * (e * p),
            k >= 0,
    ;
    let cube = (u - 1) * (u - 1) * (u - 1);
    let worth = e * r;
    assert(k * ((u - 1) * (u - 1) * (e * p)) == cube * worth * p) by (nonlinear_arith)
        requires
            k == (u - 1) * r,
            cube == (u - 1) * (u - 1) * (u - 1),
            worth == e * r,
    ;
    assert(left * (u * (p * due)) == (u * u) * (u * (b * due)) * p) by (nonlinear_arith)
        requires
            left == u * u * b,
    ;
    let x = (u * u) * (u * (b * due));
    let y = cube * worth;
    assert(x >= y) by (nonlinear_arith)
        requires
            x * p >= y * p,
            p > 0,
    ;
    assert(worth >= 0) by (nonlinear_arith)
        requires
            worth == e * r,
            e >= 0,
            r >= 0,
    ;
    assert(cube >= (u * u) * (u - 3)) by (nonlinear_arith)
        requires
            cube == (u - 1) * (u - 1) * (u - 1),
            u == 0x20_0000_0000_0000,
    ;
    assert(cube * worth >= (u * u) * (u - 3) * worth) by (nonlinear_arith)
        requires
            cube >= (u * u) * (u - 3),
            worth >= 0,
    ;
    assert((u * u) * (u - 3) * worth == (u * u) * ((u - 3) * worth)) by (nonlinear_arith);
    let a = u * (b * due);
    let c = (u - 3) * worth;
    assert(a >= c) by (nonlinear_arith)
        requires
            (u * u) * a >= (u * u) * c,
            u > 0,
    ;
}

} // verus!
