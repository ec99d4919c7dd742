//! Per-sensor token buckets: the flood shield.
//!
//! The limiter gates storage, not safety: a reading over budget is evaluated
//! and counted like any other, and only its storage is refused. The budget
//! derives from the sensor's declared sample rate: a bucket refills at twice
//! that rate and holds five seconds of it. A sensor declared below 0.2 Hz has a
//! bucket too small for a whole token, so its readings are evaluated but never
//! stored.
//!
//! Buckets refill lazily, on access. Tokens are double-precision numbers, held
//! as magnitude bits; instants are nanoseconds on a monotonic clock.

use crate::ieee::{
    lemma_units_of_parts, lemma_units_ordered, single_units, units, Double, Single, INFINITE, ONE,
    SIGN_BIT,
};
use crate::rounding::{
    add_magnitudes, difference, from_fraction, from_integer, law_integers_are_exact,
    law_products_are_monotone, law_rounding_is_monotone, law_rounding_is_total,
    law_rounding_keeps_doubles, law_subtracting_one_is_exact, law_sums_are_monotone,
    law_zero_absorbs, law_zero_is_neutral, lemma_one, lemma_representable, multiply, nearest,
    product, quotient, scale_by, subtract, sum,
};
use dashmap::DashMap;
use vstd::arithmetic::power2::{
    lemma2_to64, lemma2_to64_rest, lemma_pow2_adds, lemma_pow2_pos, pow2,
};
use vstd::prelude::*;

verus! {

/// The magnitude bits of 5.0: what a bucket holds that has no rate to go by.
pub const FIVE: u64 = 0x4014_0000_0000_0000;

/// Whether the declared rate is one: neither a NaN nor below zero.
pub open spec fn is_rate(declared_hz: Single) -> bool {
    !declared_hz.nan() && declared_hz.value() >= 0
}

/// `declared_hz * factor`, or `fallback` where what is declared is no rate.
pub open spec fn budget(declared_hz: Single, factor: nat, fallback: u64) -> u64 {
    if !is_rate(declared_hz) {
        fallback
    } else if !declared_hz.finite() {
        INFINITE
    } else {
        nearest(factor * declared_hz.value() as nat, 1)
    }
}

/// Tokens per second: twice the declared rate. Where what is declared is no rate,
/// one.
pub open spec fn refill_rate(declared_hz: Single) -> u64 {
    budget(declared_hz, 2, ONE)
}

/// What a bucket holds when full: five seconds of the declared rate. Where what is
/// declared is no rate, five tokens.
pub open spec fn burst(declared_hz: Single) -> u64 {
    budget(declared_hz, 5, FIVE)
}

/// A number of nanoseconds as seconds: the whole seconds and the fraction, each
/// rounded, and their rounded sum.
pub open spec fn seconds(nanos: nat) -> u64 {
    sum(quotient(nanos / 1_000_000_000, 1), quotient(nanos % 1_000_000_000, 1_000_000_000))
}

/// The tokens of a bucket that held `tokens`, `elapsed` nanoseconds later.
pub open spec fn refilled(tokens: u64, elapsed: nat, declared_hz: Single) -> u64 {
    let rate = refill_rate(declared_hz);
    let cap = burst(declared_hz);
    if rate == INFINITE {
        cap
    } else {
        let grown = sum(tokens, product(seconds(elapsed), rate));
        if grown <= cap {
            grown
        } else {
            cap
        }
    }
}

/// What is left after a reading was charged: one token less, where there is one.
pub open spec fn charged(tokens: u64) -> u64 {
    if tokens >= ONE {
        difference(tokens, ONE)
    } else {
        tokens
    }
}

/// The bucket that a reading finds: the sensor's own, or a full one for a sensor
/// not seen before.
pub open spec fn bucket_found(
    buckets: Map<u128, (u64, u64)>,
    sensor_id: u128,
    declared_hz: Single,
    now: u64,
) -> (u64, u64) {
    if buckets.contains_key(sensor_id) {
        buckets[sensor_id]
    } else {
        (burst(declared_hz), now)
    }
}

/// The nanoseconds from `last` to `now`, none where the clock ran backwards.
pub open spec fn elapsed_between(last: u64, now: u64) -> nat {
    if now >= last {
        (now - last) as nat
    } else {
        0
    }
}

/// The tokens that a reading at `now` finds in its bucket after the refill.
pub open spec fn tokens_found(
    buckets: Map<u128, (u64, u64)>,
    sensor_id: u128,
    declared_hz: Single,
    now: u64,
) -> u64 {
    let found = bucket_found(buckets, sensor_id, declared_hz, now);
    refilled(found.0, elapsed_between(found.1, now), declared_hz)
}

#[verifier::external_type_specification]
#[verifier::external_body]
#[verifier::reject_recursive_types(K)]
#[verifier::reject_recursive_types(V)]
#[verifier::reject_recursive_types(S)]
pub struct ExDashMap<K, V, S>(dashmap::DashMap<K, V, S>);

/// What a `DashMap` of buckets holds: for each sensor its tokens and the instant
/// of its last reading.
pub uninterp spec fn bucket_contents(map: DashMap<u128, (u64, u64)>) -> Map<u128, (u64, u64)>;

/// Calls `DashMap::new`. Claimed: the map is empty.
#[verifier::external_body]
fn no_buckets() -> (r: DashMap<u128, (u64, u64)>)
    ensures
        (bucket_contents(r) == Map::<u128, (u64, u64)>::empty()),
{
    DashMap::new()
}

/// Calls `DashMap::entry` and `Entry::or_insert`. Claimed: the value under the
/// key is handed out, and `full` is put there first where there is none; nothing
/// else changes.
#[verifier::external_body]
fn entry_or_insert(
    map: &mut DashMap<u128, (u64, u64)>,
    sensor_id: u128,
    full: (u64, u64),
) -> (r: (u64, u64))
    ensures
        r == if bucket_contents(*old(map)).contains_key(sensor_id) {
            bucket_contents(*old(map))[sensor_id]
        } else {
            full
        },
        bucket_contents(*final(map)) == bucket_contents(*old(map)).insert(sensor_id, r),
{
    *map.entry(sensor_id).or_insert(full)
}

/// Calls `DashMap::insert`. Claimed: the value stands under the key afterwards,
/// and nothing else changes.
#[verifier::external_body]
fn put_bucket(map: &mut DashMap<u128, (u64, u64)>, sensor_id: u128, bucket: (u64, u64))
    ensures
        bucket_contents(*final(map)) == bucket_contents(*old(map)).insert(sensor_id, bucket),
{
    map.insert(sensor_id, bucket);
}

/// One token bucket per sensor seen.
pub struct RateLimiter {
    buckets: DashMap<u128, (u64, u64)>,
}

impl View for RateLimiter {
    type V = Map<u128, (u64, u64)>;

    closed spec fn view(&self) -> Map<u128, (u64, u64)> {
        bucket_contents(self.buckets)
    }
}

impl RateLimiter {
    /// No bucket holds a NaN or a debt.
    pub open spec fn wf(&self) -> bool {
        forall|id: u128| #[trigger] self@.contains_key(id) ==> self@[id].0 <= INFINITE
    }

    pub fn new() -> (r: Self)
        ensures
            r.wf(),
            (r@ == Map::<u128, (u64, u64)>::empty()),
    {
        RateLimiter { buckets: no_buckets() }
    }

    /// True: within budget, store the reading. False: over budget, evaluate it
    /// only. `declared_hz` comes from the registry; `now` is in nanoseconds.
    /// Callers that share a limiter take turns.
    pub fn allow(&mut self, sensor_id: u128, declared_hz: Single, now: u64) -> (r: bool)
        requires
            old(self).wf(),
        ensures
            final(self).wf(),
            r == (tokens_found(old(self)@, sensor_id, declared_hz, now) >= ONE),
            final(self)@ == old(self)@.insert(
                sensor_id,
                (charged(tokens_found(old(self)@, sensor_id, declared_hz, now)), now),
            ),
            forall|other: u128| other != sensor_id ==> {
                &&& #[trigger] final(self)@.contains_key(other) == old(self)@.contains_key(other)
                &&& final(self)@[other] == old(self)@[other]
            },
    {
        let rate: u64 = budget_of(declared_hz, 2, ONE);
        let cap: u64 = budget_of(declared_hz, 5, FIVE);
        let (tokens, last): (u64, u64) = entry_or_insert(&mut self.buckets, sensor_id, (cap, now));
        let elapsed: u64 = if now >= last {
            now - last
        } else {
            0
        };
        let held: u64 = refill(tokens, elapsed, rate, cap);
        let allowed: bool = held >= ONE;
        let left: u64 = if allowed {
            subtract(held, ONE)
        } else {
            held
        };
        put_bucket(&mut self.buckets, sensor_id, (left, now));
        proof {
            let before = old(self)@;
            assert(self@ =~= before.insert(sensor_id, (left, now)));
        }
        allowed
    }
}

/// The bits tell what is below zero; the zero with a sign is not.
proof fn lemma_sign(x: Single)
    ensures
        x.value() < 0 <==> x.bits > 0x8000_0000,
{
    let size = single_units(x.magnitude()) as int;
    let exponent = x.magnitude() / 0x80_0000;
    let p = pow2(925) as int;
    lemma_pow2_pos(925);
    if x.magnitude() > 0 {
        if exponent > 0 {
            let s = 0x80_0000 + x.magnitude() % 0x80_0000;
            let q = pow2((exponent - 1) as nat) as int;
            lemma_pow2_pos((exponent - 1) as nat);
            assert(s * q > 0) by (nonlinear_arith)
                requires
                    s > 0,
                    q > 0,
            ;
        }
        assert(size > 0);
        assert(size * p > 0) by (nonlinear_arith)
            requires
                size > 0,
                p > 0,
        ;
    } else {
        assert(0 * p == 0) by (nonlinear_arith);
    }
}

fn budget_of(declared_hz: Single, factor: u64, fallback: u64) -> (r: u64)
    requires
        factor < 100,
        fallback <= INFINITE,
    ensures
        r == budget(declared_hz, factor as nat, fallback),
        r <= INFINITE,
{
    let wide: Double = declared_hz.widen();
    proof {
        lemma_sign(declared_hz);
        law_rounding_is_total(factor as nat * declared_hz.value() as nat, 1);
    }
    if wide.is_nan() || declared_hz.bits > 0x8000_0000u32 {
        fallback
    } else if !declared_hz.is_finite() {
        INFINITE
    } else {
        scale_by(wide.bits % SIGN_BIT, factor)
    }
}

fn seconds_of(nanos: u64) -> (r: u64)
    ensures
        r == seconds(nanos as nat),
        r < INFINITE,
{
    let whole: u64 = from_integer(nanos / 1_000_000_000);
    let part: u64 = from_fraction(nanos % 1_000_000_000, 1_000_000_000);
    proof {
        lemma_seconds_finite(nanos as nat);
    }
    add_magnitudes(whole, part)
}

fn refill(tokens: u64, elapsed: u64, rate: u64, cap: u64) -> (r: u64)
    requires
        tokens <= INFINITE,
        rate <= INFINITE,
        cap <= INFINITE,
    ensures
        r <= cap,
        r == if rate == INFINITE {
            cap
        } else {
            let grown = sum(tokens, product(seconds(elapsed as nat), rate));
            if grown <= cap {
                grown
            } else {
                cap
            }
        },
{
    if rate == INFINITE {
        return cap;
    }
    let passed: u64 = seconds_of(elapsed);
    let grown: u64 = add_magnitudes(tokens, multiply(passed, rate));
    if grown <= cap {
        grown
    } else {
        cap
    }
}

/// The fraction of a second is at most one second, and nothing rounds to
/// nothing.
pub proof fn lemma_fraction(nanos: nat)
    requires
        nanos < 1_000_000_000,
    ensures
        quotient(nanos, 1_000_000_000) <= ONE,
        quotient(0, 1_000_000_000) == 0,
{
    lemma_one();
    let p = pow2(1074) as int;
    let n = nanos as int;
    assert(n * p <= 1_000_000_000 * p) by (nonlinear_arith)
        requires
            0 <= n < 1_000_000_000,
            p >= 0,
    ;
    law_rounding_is_monotone(nanos * pow2(1074), 1_000_000_000 * pow2(1074), 1_000_000_000);
    law_rounding_keeps_doubles(1_000_000_000, ONE as int);
    assert(0 * p == 0) by (nonlinear_arith);
    law_rounding_keeps_doubles(1_000_000_000, 0);
}

pub proof fn lemma_seconds_finite(nanos: nat)
    requires
        nanos <= u64::MAX,
    ensures
        seconds(nanos) < INFINITE,
        quotient(nanos / 1_000_000_000, 1) < INFINITE,
        units(quotient(nanos / 1_000_000_000, 1) as int) == (nanos / 1_000_000_000) * pow2(1074),
{
    let whole = nanos / 1_000_000_000;
    law_integers_are_exact(whole);
    law_integers_are_exact(whole + 1);
    lemma_fraction(nanos % 1_000_000_000);
    lemma_one();
    let part = quotient(nanos % 1_000_000_000, 1_000_000_000);
    lemma_units_ordered(part as int, ONE as int);
    let p = pow2(1074) as int;
    let w = whole as int;
    assert((w + 1) * p == w * p + p) by (nonlinear_arith);
    law_rounding_is_monotone(
        units(quotient(whole, 1) as int) + units(part as int),
        (whole + 1) * pow2(1074),
        1,
    );
}

/// More time never counts as less: the seconds of a longer span are no fewer.
pub proof fn law_seconds_are_monotone(short: nat, long: nat)
    requires
        short <= long <= u64::MAX,
    ensures
        seconds(short) <= seconds(long),
{
    let a = short / 1_000_000_000;
    let b = long / 1_000_000_000;
    let fa = short % 1_000_000_000;
    let fb = long % 1_000_000_000;
    let p = pow2(1074) as int;
    if a == b {
        let x = fa as int;
        let y = fb as int;
        assert(x * p <= y * p) by (nonlinear_arith)
            requires
                x <= y,
                p >= 0,
        ;
        law_rounding_is_monotone(fa * pow2(1074), fb * pow2(1074), 1_000_000_000);
        law_sums_are_monotone(
            quotient(a, 1),
            quotient(fa, 1_000_000_000),
            quotient(b, 1),
            quotient(fb, 1_000_000_000),
        );
    } else {
        lemma_seconds_finite(short);
        lemma_seconds_finite(long);
        lemma_fraction(fa);
        lemma_one();
        let part = quotient(fa, 1_000_000_000);
        lemma_units_ordered(part as int, ONE as int);
        let x = a as int;
        let y = b as int;
        assert(x * p + p <= y * p) by (nonlinear_arith)
            requires
                x + 1 <= y,
                p >= 0,
        ;
        law_rounding_is_monotone(
            units(quotient(a, 1) as int) + units(part as int),
            units(quotient(b, 1) as int) + units(quotient(fb, 1_000_000_000) as int),
            1,
        );
    }
}

/// A small multiple of a single is a double.
proof fn lemma_multiple_is_exact(x: Single, factor: nat)
    requires
        x.finite(),
        x.value() >= 0,
        factor <= 5,
    ensures
        units(nearest(factor * x.value() as nat, 1) as int) == factor * x.value(),
        nearest(factor * x.value() as nat, 1) < INFINITE,
{
    lemma_sign(x);
    let magnitude = x.magnitude();
    let exponent = magnitude / 0x80_0000;
    let fraction = magnitude % 0x80_0000;
    let significand = if exponent == 0 {
        fraction as nat
    } else {
        (0x80_0000 + fraction) as nat
    };
    let scale = if exponent == 0 {
        0nat
    } else {
        (exponent - 1) as nat
    };
    lemma2_to64();
    lemma_pow2_adds(scale, 925);
    let s = significand as int;
    let f = factor as int;
    let p = pow2(scale) as int;
    let q = pow2(925) as int;
    assert(s * 1 == s);
    assert(single_units(magnitude) == s * p);
    if x.negative() {
        assert(x.value() == 0);
        assert(magnitude == 0);
        assert(0 * q == 0) by (nonlinear_arith);
    }
    assert(x.value() == (s * p) * q);
    assert(f * ((s * p) * q) == (f * s) * (p * q)) by (nonlinear_arith);
    assert(0 <= f * s < 0x20_0000_0000_0000) by (nonlinear_arith)
        requires
            0 <= f <= 5,
            0 <= s < 0x100_0000,
    ;
    let m = lemma_representable((f * s) as nat, scale + 925);
    assert(1 * units(m) == units(m));
    law_rounding_keeps_doubles(1, m);
}

/// Budgets are those of the declared rate, to the last digit: a bucket refills at
/// exactly twice that rate and holds exactly five seconds of it.
pub proof fn law_budget_is_exact(declared_hz: Single)
    requires
        is_rate(declared_hz),
        declared_hz.finite(),
    ensures
        units(refill_rate(declared_hz) as int) == 2 * declared_hz.value(),
        units(burst(declared_hz) as int) == 5 * declared_hz.value(),
        refill_rate(declared_hz) < INFINITE,
        burst(declared_hz) < INFINITE,
{
    lemma_multiple_is_exact(declared_hz, 2);
    lemma_multiple_is_exact(declared_hz, 5);
}

proof fn lemma_budget_range(declared_hz: Single)
    ensures
        burst(declared_hz) <= INFINITE,
        refill_rate(declared_hz) <= INFINITE,
{
    law_rounding_is_total(5 * declared_hz.value() as nat, 1);
    law_rounding_is_total(2 * declared_hz.value() as nat, 1);
}

/// A bucket holds a whole token when full exactly where the declared rate is
/// 0.2 Hz or more, or is no rate.
pub proof fn law_slow_sensors_have_no_whole_token(declared_hz: Single)
    ensures
        burst(declared_hz) >= ONE <==> (is_rate(declared_hz) && declared_hz.finite() ==> 5
            * declared_hz.value() >= units(ONE as int)),
{
    if is_rate(declared_hz) && declared_hz.finite() {
        law_budget_is_exact(declared_hz);
        lemma_units_ordered(ONE as int, burst(declared_hz) as int);
        lemma_units_ordered(burst(declared_hz) as int, ONE as int);
    }
}

/// Below 0.2 Hz no reading is ever within budget, however long the sensor waits.
pub proof fn law_slow_sensors_are_never_stored(tokens: u64, elapsed: nat, declared_hz: Single)
    requires
        is_rate(declared_hz),
        declared_hz.finite(),
        5 * declared_hz.value() < units(ONE as int),
    ensures
        refilled(tokens, elapsed, declared_hz) < ONE,
{
    law_slow_sensors_have_no_whole_token(declared_hz);
    law_tokens_are_capped(tokens, elapsed, declared_hz);
}

/// A bucket never holds more than its burst.
pub proof fn law_tokens_are_capped(tokens: u64, elapsed: nat, declared_hz: Single)
    ensures
        refilled(tokens, elapsed, declared_hz) <= burst(declared_hz),
{
}

/// Waiting never costs tokens: a refill leaves at least what was there, up to
/// the cap.
pub proof fn law_refill_only_adds(tokens: u64, elapsed: nat, declared_hz: Single)
    requires
        tokens <= INFINITE,
    ensures
        tokens <= burst(declared_hz) ==> refilled(tokens, elapsed, declared_hz) >= tokens,
        tokens > burst(declared_hz) ==> refilled(tokens, elapsed, declared_hz) == burst(
            declared_hz,
        ),
{
    if refill_rate(declared_hz) == INFINITE {
        lemma_unlimited(declared_hz);
    } else {
        law_zero_is_neutral(tokens);
        law_sums_are_monotone(
            tokens,
            0,
            tokens,
            product(seconds(elapsed), refill_rate(declared_hz)),
        );
    }
}

/// An infinite refill rate comes with a bottomless bucket.
proof fn lemma_unlimited(declared_hz: Single)
    requires
        refill_rate(declared_hz) == INFINITE,
    ensures
        burst(declared_hz) == INFINITE,
{
    if is_rate(declared_hz) && declared_hz.finite() {
        let v = declared_hz.value() as nat;
        law_rounding_is_total(5 * v, 1);
        law_rounding_is_monotone(2 * v, 5 * v, 1);
    }
}

/// The longer a sensor waits, the more tokens it finds.
pub proof fn law_refill_is_monotone(tokens: u64, short: nat, long: nat, declared_hz: Single)
    requires
        short <= long <= u64::MAX,
    ensures
        refilled(tokens, short, declared_hz) <= refilled(tokens, long, declared_hz),
{
    law_seconds_are_monotone(short, long);
    let rate = refill_rate(declared_hz);
    law_products_are_monotone(seconds(short), seconds(long), rate);
    law_sums_are_monotone(
        tokens,
        product(seconds(short), rate),
        tokens,
        product(seconds(long), rate),
    );
}

/// No time, no refill: a bucket within its cap stays as it is.
pub proof fn law_no_time_no_refill(tokens: u64, declared_hz: Single)
    requires
        tokens <= burst(declared_hz),
        refill_rate(declared_hz) != INFINITE,
    ensures
        refilled(tokens, 0, declared_hz) == tokens,
{
    lemma_budget_range(declared_hz);
    lemma_fraction(0);
    let p = pow2(1074) as int;
    assert(0 * p == 0) by (nonlinear_arith);
    law_rounding_keeps_doubles(1, 0);
    assert(quotient(0, 1) == 0);
    law_zero_is_neutral(0);
    assert(seconds(0) == 0);
    law_zero_absorbs(refill_rate(declared_hz));
    law_zero_is_neutral(tokens);
}

/// A sensor's first reading finds a full bucket, and is within budget where that
/// is a whole token.
pub proof fn law_first_reading_finds_a_full_bucket(
    buckets: Map<u128, (u64, u64)>,
    sensor_id: u128,
    declared_hz: Single,
    now: u64,
)
    requires
        !buckets.contains_key(sensor_id),
    ensures
        tokens_found(buckets, sensor_id, declared_hz, now) == burst(declared_hz),
        tokens_found(buckets, sensor_id, declared_hz, now) >= ONE <==> (is_rate(declared_hz)
            && declared_hz.finite() ==> 5 * declared_hz.value() >= units(ONE as int)),
{
    law_slow_sensors_have_no_whole_token(declared_hz);
    if refill_rate(declared_hz) != INFINITE {
        law_no_time_no_refill(burst(declared_hz), declared_hz);
    }
}

/// The tokens left of `tokens` after `readings` readings at one instant.
pub open spec fn drained(tokens: u64, readings: nat) -> u64
    decreases readings,
{
    if readings == 0 {
        tokens
    } else {
        charged(drained(tokens, (readings - 1) as nat))
    }
}

/// At one instant a bucket below 2^53 tokens pays for exactly as many readings
/// as it holds whole tokens: each takes one, and the next finds one exactly
/// while that many are left.
pub proof fn law_burst_is_spent_token_by_token(tokens: u64, readings: nat)
    requires
        tokens < 0x4340_0000_0000_0000,
        readings * units(ONE as int) <= units(tokens as int),
    ensures
        drained(tokens, readings) <= tokens,
        units(drained(tokens, readings) as int) == units(tokens as int) - readings * units(
            ONE as int,
        ),
        drained(tokens, readings) >= ONE <==> (readings + 1) * units(ONE as int) <= units(
            tokens as int,
        ),
    decreases readings,
{
    let one = units(ONE as int) as int;
    let k = readings as int;
    assert((k + 1) * one == k * one + one && (k - 1) * one == k * one - one) by (nonlinear_arith);
    if readings == 0 {
        assert(0 * one == 0) by (nonlinear_arith);
    } else {
        law_burst_is_spent_token_by_token(tokens, (readings - 1) as nat);
        let before = drained(tokens, (readings - 1) as nat);
        law_subtracting_one_is_exact(before);
        lemma_units_ordered(before as int, difference(before, ONE) as int);
    }
    let left = drained(tokens, readings);
    lemma_units_ordered(left as int, ONE as int);
    lemma_units_ordered(ONE as int, left as int);
}

/// Which of `shards` limiters keeps a sensor's bucket: always the same one.
pub fn shard_of(sensor_id: u128, shards: usize) -> (r: usize)
    requires
        shards > 0,
    ensures
        r == sensor_id % (shards as u128),
        r < shards,
{
    (sensor_id % shards as u128) as usize
}

/// What is declared and is no rate is given one token a second and five in all, and
/// an infinite rate no limit.
pub proof fn law_what_is_no_rate_has_five_tokens(declared_hz: Single)
    ensures
        declared_hz.nan() || declared_hz.value() < 0 ==> {
            &&& units(refill_rate(declared_hz) as int) == pow2(1074)
            &&& units(burst(declared_hz) as int) == 5 * pow2(1074)
        },
        !declared_hz.nan() && declared_hz.value() >= 0 && !declared_hz.finite() ==> {
            &&& refill_rate(declared_hz) == 0x7ff0_0000_0000_0000
            &&& burst(declared_hz) == 0x7ff0_0000_0000_0000
        },
{
    lemma_one();
    lemma_units_of_parts(1024, 0x14_0000_0000_0000);
    lemma2_to64();
    lemma2_to64_rest();
    lemma_pow2_adds(50, 1024);
    let q = pow2(1024) as int;
    assert(0x14_0000_0000_0000 * q == 5 * (0x4_0000_0000_0000 * q)) by (nonlinear_arith);
}

/// A reading is charged one whole token where there is one, and nothing where there
/// is none. From 2^53 tokens on a single token is no longer exact.
pub proof fn law_a_reading_costs_one_token(tokens: u64)
    requires
        tokens < 0x4340_0000_0000_0000,
    ensures
        units(tokens as int) >= pow2(1074) ==> units(charged(tokens) as int) == units(tokens as int)
            - pow2(1074),
        units(tokens as int) < pow2(1074) ==> charged(tokens) == tokens,
{
    lemma_one();
    lemma_units_ordered(ONE as int, tokens as int);
    lemma_units_ordered(tokens as int, ONE as int);
    if tokens >= ONE {
        law_subtracting_one_is_exact(tokens);
    }
}

/// A known sensor finds what its bucket held, refilled for the time since its last
/// reading; other buckets make no difference. A clock that ran backwards refills
/// nothing.
pub proof fn law_a_known_sensor_finds_its_own_bucket(
    buckets: Map<u128, (u64, u64)>,
    others: Map<u128, (u64, u64)>,
    sensor_id: u128,
    declared_hz: Single,
    now: u64,
)
    requires
        buckets.contains_key(sensor_id),
        others.contains_key(sensor_id),
        others[sensor_id] == buckets[sensor_id],
    ensures
        tokens_found(buckets, sensor_id, declared_hz, now) == tokens_found(
            others,
            sensor_id,
            declared_hz,
            now,
        ),
        now >= buckets[sensor_id].1 ==> tokens_found(buckets, sensor_id, declared_hz, now)
            == refilled(
            buckets[sensor_id].0,
            (now - buckets[sensor_id].1) as nat,
            declared_hz,
        ),
        now < buckets[sensor_id].1 ==> tokens_found(buckets, sensor_id, declared_hz, now)
            == refilled(buckets[sensor_id].0, 0, declared_hz),
{
}

} // verus!
