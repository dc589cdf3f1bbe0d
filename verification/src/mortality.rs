//! The yearly chance of death.
//!
//! A citizen of a given age dies within the year with probability
//! `0.12 * x^2.25`, where `x` is `(age - 30) / 30` and at least `0.01`.  The
//! library works in whole millionths: the threshold is that probability times
//! a million, rounded down and capped at a million, and a citizen dies when a
//! uniform draw below a million falls under it.

use vstd::prelude::*;

verus! {

/// One million: the scale of a death threshold.
pub const DEATH_SCALE: u32 = 1_000_000;

/// The age from which death within the year is certain.
pub const CERTAIN_DEATH_AGE: u32 = 107;

/// The fourth power.
pub open spec fn pow4(t: int) -> int {
    (t * t) * (t * t)
}

/// The ninth power.
pub open spec fn pow9(d: int) -> int {
    pow4(d) * pow4(d) * d
}

/// `120000^4`: the factor `0.12`, in millionths, to the fourth power.
pub open spec fn weight() -> int {
    207_360_000_000_000_000_000
}

/// `x = max((age - 30) / 30, 0.01)` as a fraction: numerator and denominator.
pub open spec fn age_ratio(age: int) -> (int, int) {
    if age > 30 {
        (age - 30, 30)
    } else {
        (1, 100)
    }
}

/// Whether `t` is the death threshold at `age`, in millionths.
///
/// With `x = n / m`, an integer `t >= 0` is at most `120000 * x^(9/4)` exactly
/// when `t^4 * m^9 <= 120000^4 * n^9`; the threshold is the largest such `t`,
/// or one million where that is smaller.
pub open spec fn is_death_threshold(age: int, t: int) -> bool {
    let (n, m) = age_ratio(age);
    if pow4(1_000_000) * pow9(m) <= weight() * pow9(n) {
        t == 1_000_000
    } else {
        &&& 0 <= t < 1_000_000
        &&& pow4(t) * pow9(m) <= weight() * pow9(n)
        &&& weight() * pow9(n) < pow4(t + 1) * pow9(m)
    }
}

proof fn product_grows(a: int, b: int, c: int, d: int)
    requires
        0 <= a <= b,
        0 <= c <= d,
    ensures
        0 <= a * c <= b * d,
{
    assert(0 <= a * c <= b * d) by (nonlinear_arith)
        requires
            0 <= a <= b,
            0 <= c <= d,
    ;
}

/// Fourth powers grow with their base.
pub proof fn pow4_grows(a: int, b: int)
    requires
        0 <= a <= b,
    ensures
        0 <= pow4(a) <= pow4(b),
{
    product_grows(a, b, a, b);
    product_grows(a * a, b * b, a * a, b * b);
}

/// Ninth powers grow with their base.
pub proof fn pow9_grows(a: int, b: int)
    requires
        0 <= a <= b,
    ensures
        0 <= pow9(a) <= pow9(b),
{
    pow4_grows(a, b);
    product_grows(pow4(a), pow4(b), pow4(a), pow4(b));
    product_grows(pow4(a) * pow4(a), pow4(b) * pow4(b), a, b);
}

proof fn constants()
    ensures
        pow9(30) == 19_683_000_000_000,
        pow9(100) == 1_000_000_000_000_000_000,
        pow9(1) == 1,
        pow9(76) == 84_590_643_846_578_176,
        pow9(77) == 95_151_694_449_171_437,
        pow4(1_000_000) == 1_000_000_000_000_000_000_000_000,
        pow4(3) == 81,
        pow4(4) == 256,
{
    assert(30 * 30 == 900 && 900 * 900 == 810_000 && 810_000 * 810_000 == 656_100_000_000
        && 656_100_000_000 * 30 == 19_683_000_000_000) by (nonlinear_arith);
    assert(100 * 100 == 10_000 && 10_000 * 10_000 == 100_000_000 && 100_000_000 * 100_000_000
        == 10_000_000_000_000_000 && 10_000_000_000_000_000 * 100
        == 1_000_000_000_000_000_000) by (nonlinear_arith);
    assert(76 * 76 == 5776 && 5776 * 5776 == 33_362_176 && 33_362_176 * 33_362_176
        == 1_113_034_787_454_976 && 1_113_034_787_454_976 * 76 == 84_590_643_846_578_176)
        by (nonlinear_arith);
    assert(77 * 77 == 5929 && 5929 * 5929 == 35_153_041 && 35_153_041 * 35_153_041
        == 1_235_736_291_547_681 && 1_235_736_291_547_681 * 77 == 95_151_694_449_171_437)
        by (nonlinear_arith);
    assert(1_000_000 * 1_000_000 == 1_000_000_000_000 && 1_000_000_000_000 * 1_000_000_000_000
        == 1_000_000_000_000_000_000_000_000) by (nonlinear_arith);
    assert(3 * 3 == 9 && 9 * 9 == 81 && 4 * 4 == 16 && 16 * 16 == 256) by (nonlinear_arith);
}

/// At most one value is the death threshold of an age.
pub proof fn death_threshold_is_unique(age: int, s: int, t: int)
    requires
        is_death_threshold(age, s),
        is_death_threshold(age, t),
    ensures
        s == t,
{
    let (n, m) = age_ratio(age);
    constants();
    if !(pow4(1_000_000) * pow9(m) <= weight() * pow9(n)) {
        if s < t {
            pow4_grows(s + 1, t);
            product_grows(pow4(s + 1), pow4(t), pow9(m), pow9(m));
        } else if t < s {
            pow4_grows(t + 1, s);
            product_grows(pow4(t + 1), pow4(s), pow9(m), pow9(m));
        }
    }
}

/// The death threshold never falls as a citizen ages.
pub proof fn death_threshold_never_falls(younger: int, older: int, s: int, t: int)
    requires
        younger <= older,
        is_death_threshold(younger, s),
        is_death_threshold(older, t),
    ensures
        s <= t,
{
    constants();
    let (n1, m1) = age_ratio(younger);
    let (n2, m2) = age_ratio(older);
    if s > t {
        // then `older` is not capped, and t + 1 <= s <= 1_000_000
        pow4_grows(t + 1, s);
        pow4_grows(s, 1_000_000);
        if older <= 30 {
            // both ages use the same ratio
            product_grows(pow4(t + 1), pow4(s), pow9(m2), pow9(m2));
        } else if younger > 30 {
            pow9_grows(n1, n2);
            product_grows(weight(), weight(), pow9(n1), pow9(n2));
            product_grows(pow4(t + 1), pow4(s), pow9(m2), pow9(m2));
            product_grows(pow4(s), pow4(1_000_000), pow9(m2), pow9(m2));
        } else {
            // younger at the floor ratio 1/100, older above it
            pow9_grows(1, n2);
            product_grows(weight(), weight(), 1, pow9(n2));
            assert(pow4(s) * pow9(100) <= weight());
            assert(pow4(s) <= 207) by (nonlinear_arith)
                requires
                    pow4(s) * 1_000_000_000_000_000_000 <= 207_360_000_000_000_000_000,
            ;
            product_grows(pow4(t + 1), pow4(s), pow9(30), pow9(30));
            assert(pow4(t + 1) * pow9(30) <= 207 * 19_683_000_000_000) by (nonlinear_arith)
                requires
                    0 <= pow4(t + 1) <= 207,
                    pow9(30) == 19_683_000_000_000,
            ;
        }
    }
}

/// From `CERTAIN_DEATH_AGE` on the threshold is the whole scale.
pub proof fn death_is_certain_in_old_age(age: int, t: int)
    requires
        age >= CERTAIN_DEATH_AGE,
        is_death_threshold(age, t),
    ensures
        t == DEATH_SCALE,
{
    constants();
    pow9_grows(77, age - 30);
    product_grows(weight(), weight(), pow9(77), pow9(age - 30));
}

proof fn largest_fitting(target: int, low: int, high: int) -> (t: int)
    requires
        0 <= low < high,
        pow4(low) * pow9(30) <= target,
        target < pow4(high) * pow9(30),
    ensures
        low <= t < high,
        pow4(t) * pow9(30) <= target,
        target < pow4(t + 1) * pow9(30),
    decreases high - low,
{
    if pow4(low + 1) * pow9(30) <= target {
        if low + 1 == high {
            low
        } else {
            largest_fitting(target, low + 1, high)
        }
    } else {
        low
    }
}

/// Every age has a death threshold.
pub proof fn death_threshold_exists(age: int) -> (t: int)
    ensures
        is_death_threshold(age, t),
{
    constants();
    let (n, m) = age_ratio(age);
    if age <= 30 {
        3
    } else if pow4(1_000_000) * pow9(m) <= weight() * pow9(n) {
        1_000_000
    } else {
        pow9_grows(1, n);
        product_grows(weight(), weight(), 1, pow9(n));
        assert(pow4(0) == 0);
        largest_fitting(weight() * pow9(n), 0, 1_000_000)
    }
}

/// The death threshold at `age`, in millionths.
pub open spec fn threshold_at(age: int) -> int {
    choose|t: int| is_death_threshold(age, t)
}

/// `threshold_at` is the death threshold, and lies within the scale.
pub proof fn threshold_at_is_the_threshold(age: int)
    ensures
        is_death_threshold(age, threshold_at(age)),
        0 <= threshold_at(age) <= DEATH_SCALE,
{
    let t = death_threshold_exists(age);
}

/// The chance of death never falls with age.
pub proof fn death_chance_never_falls(younger: int, older: int)
    requires
        younger <= older,
    ensures
        threshold_at(younger) <= threshold_at(older),
{
    threshold_at_is_the_threshold(younger);
    threshold_at_is_the_threshold(older);
    death_threshold_never_falls(younger, older, threshold_at(younger), threshold_at(older));
}

/// `(t + 1)^4 <= t^3 * (t + 5)` from seven on.
proof fn next_fourth_power(t: int)
    requires
        t >= 7,
    ensures
        pow4(t + 1) <= (t * t) * (t * t) + 5 * ((t * t) * t),
{
    let w = t * t;
    let b2 = (t + 1) * (t + 1);
    assert(b2 == w + 2 * t + 1) by (nonlinear_arith)
        requires
            w == t * t,
            b2 == (t + 1) * (t + 1),
    ;
    assert(w >= 7 * t) by (nonlinear_arith)
        requires
            w == t * t,
            t >= 7,
    ;
    assert(b2 * b2 <= w * w + 5 * (w * t)) by (nonlinear_arith)
        requires
            b2 == w + 2 * t + 1,
            w >= 7 * t,
            t >= 7,
    ;
}

/// `(n + 1)^9 >= n^9 + 9 * n^8`.
proof fn next_ninth_power(n: int)
    requires
        n >= 1,
    ensures
        pow9(n + 1) >= pow9(n) + 9 * (pow4(n) * pow4(n)),
        pow4(n) > 0,
        pow9(n) > 0,
{
    let s = n * n;
    let q = s * s;
    let r = s * n;
    let a2 = (n + 1) * (n + 1);
    let fourth = a2 * a2;
    assert(s >= 1) by (nonlinear_arith)
        requires
            s == n * n,
            n >= 1,
    ;
    assert(q >= 1 && r >= 1) by (nonlinear_arith)
        requires
            q == s * s,
            r == s * n,
            s >= 1,
            n >= 1,
    ;
    assert(a2 == s + 2 * n + 1) by (nonlinear_arith)
        requires
            s == n * n,
            a2 == (n + 1) * (n + 1),
    ;
    assert(fourth >= q + 4 * r) by (nonlinear_arith)
        requires
            fourth == a2 * a2,
            a2 == s + 2 * n + 1,
            q == s * s,
            r == s * n,
            s >= 1,
            n >= 1,
    ;
    assert(fourth * fourth >= q * q + 8 * (q * r)) by (nonlinear_arith)
        requires
            fourth >= q + 4 * r,
            q >= 1,
            r >= 1,
    ;
    assert(r * n == q) by (nonlinear_arith)
        requires
            r == s * n,
            q == s * s,
            s == n * n,
    ;
    assert((q * r) * n == q * q) by (nonlinear_arith)
        requires
            r * n == q,
    ;
    let e = fourth * fourth;
    assert(q * q >= 1 && q * r >= 1) by (nonlinear_arith)
        requires
            q >= 1,
            r >= 1,
    ;
    assert(e * (n + 1) >= (q * q) * n + 9 * (q * q)) by (nonlinear_arith)
        requires
            e >= q * q + 8 * (q * r),
            (q * r) * n == q * q,
            q * q >= 1,
            q * r >= 1,
            n >= 1,
    ;
    assert(pow9(n + 1) == e * (n + 1));
    assert(pow9(n) == (q * q) * n);
    assert(pow4(n) == q);
    assert((q * q) * n >= 1) by (nonlinear_arith)
        requires
            q * q >= 1,
            n >= 1,
    ;
}

/// The threshold at thirty-one is fifty-six millionths or more.
proof fn threshold_at_thirty_one(t: int)
    requires
        is_death_threshold(31, t),
    ensures
        t >= 56,
{
    constants();
    assert(pow4(56) == 9_834_496) by (nonlinear_arith);
    assert(pow9(1) == 1);
    if t < 56 {
        pow4_grows(t + 1, 56);
        product_grows(pow4(t + 1), pow4(56), pow9(30), pow9(30));
        assert(9_834_496 * 19_683_000_000_000 <= 207_360_000_000_000_000_000) by (nonlinear_arith);
    }
}

/// From thirty-one on the chance of death rises with every year, until
/// death is certain.
pub proof fn death_chance_rises(age: int)
    requires
        age >= 31,
        threshold_at(age) < DEATH_SCALE,
    ensures
        threshold_at(age) < threshold_at(age + 1),
{
    constants();
    threshold_at_is_the_threshold(age);
    threshold_at_is_the_threshold(age + 1);
    threshold_at_is_the_threshold(31);
    death_chance_never_falls(31, age);
    threshold_at_thirty_one(threshold_at(31));
    let t = threshold_at(age);
    let u = threshold_at(age + 1);
    let n = age - 30;
    let unit = pow9(30);
    let held = pow9(n);
    let next = pow9(n + 1);
    assert(n <= 76) by {
        if n >= 77 {
            pow9_grows(77, n);
            product_grows(weight(), weight(), pow9(77), pow9(n));
        }
    }
    if u <= t {
        // then the older age is not capped, and `t + 1` does not fit it
        pow4_grows(u + 1, t + 1);
        product_grows(pow4(u + 1), pow4(t + 1), unit, unit);
        assert(weight() * next < pow4(t + 1) * unit);
        next_fourth_power(t);
        next_ninth_power(n);
        let w = t * t;
        let q = pow4(n);
        let top = pow4(t + 1);
        assert(held == (q * q) * n);
        assert(pow4(t) == w * w);
        // (t + 1)^4 * n^9 <= t^4 * (n + 1)^9
        assert(5 * (t * n) <= 9 * w) by (nonlinear_arith)
            requires
                w == t * t,
                5 * n <= 9 * t,
                t >= 0,
        ;
        let x = w * (q * q);
        assert(x >= 0) by (nonlinear_arith)
            requires
                x == w * (q * q),
                w == t * t,
        ;
        assert(x * (5 * (t * n)) <= x * (9 * w)) by (nonlinear_arith)
            requires
                x >= 0,
                5 * (t * n) <= 9 * w,
        ;
        assert((w * w + 5 * (w * t)) * held == (w * w) * held + x * (5 * (t * n)))
            by (nonlinear_arith)
            requires
                held == (q * q) * n,
                x == w * (q * q),
        ;
        assert((w * w) * (held + 9 * (q * q)) == (w * w) * held + x * (9 * w)) by (nonlinear_arith)
            requires
                x == w * (q * q),
        ;
        assert(top * held <= (w * w + 5 * (w * t)) * held) by (nonlinear_arith)
            requires
                top <= w * w + 5 * (w * t),
                held > 0,
        ;
        assert((w * w) * (held + 9 * (q * q)) <= (w * w) * next) by (nonlinear_arith)
            requires
                next >= held + 9 * (q * q),
                w * w >= 0,
        ;
        assert(top * held <= pow4(t) * next);
        // and so `t + 1` fits the older age
        let fit = pow4(t) * unit;
        let room = weight() * held;
        assert(fit <= room);
        assert((top * unit) * held <= (weight() * next) * held) by (nonlinear_arith)
            requires
                top * held <= pow4(t) * next,
                fit == pow4(t) * unit,
                room == weight() * held,
                fit <= room,
                unit >= 0,
                next >= 0,
        ;
        assert(top * unit <= weight() * next) by (nonlinear_arith)
            requires
                (top * unit) * held <= (weight() * next) * held,
                held > 0,
        ;
    }
}

/// From `CERTAIN_DEATH_AGE` on, every draw below the scale falls under the threshold.
pub proof fn old_age_is_fatal(age: int)
    requires
        age >= CERTAIN_DEATH_AGE,
    ensures
        threshold_at(age) == DEATH_SCALE,
{
    threshold_at_is_the_threshold(age);
    death_is_certain_in_old_age(age, threshold_at(age));
}

/// The death threshold at `age`, in millionths.
pub fn death_threshold(age: u32) -> (t: u32)
    ensures
        t == threshold_at(age as int),
        is_death_threshold(age as int, t as int),
        t <= DEATH_SCALE,
{
    proof {
        constants();
    }
    let t: u32 = threshold_search(age);
    proof {
        threshold_at_is_the_threshold(age as int);
        death_threshold_is_unique(age as int, t as int, threshold_at(age as int));
    }
    t
}

fn threshold_search(age: u32) -> (t: u32)
    ensures
        is_death_threshold(age as int, t as int),
{
    proof {
        constants();
    }
    if age <= 30 {
        return 3;
    }
    let d: u32 = age - 30;
    if d >= 77 {
        proof {
            pow9_grows(77, d as int);
            product_grows(weight(), weight(), pow9(77), pow9(d as int));
        }
        return 1_000_000;
    }
    proof {
        pow9_grows(d as int, 76);
        pow4_grows(d as int, 76);
        product_grows(d as int, 76, d as int, 76);
        product_grows(weight(), weight(), pow9(d as int), pow9(76));
        assert(pow4(76) == 33_362_176) by (nonlinear_arith);
        product_grows(pow4(d as int), pow4(76), pow4(d as int), pow4(76));
    }
    let wide: u128 = d as u128;
    let square: u128 = wide * wide;
    let fourth: u128 = square * square;
    let eighth: u128 = fourth * fourth;
    let ninth: u128 = eighth * wide;
    let target: u128 = 207_360_000_000_000_000_000 * ninth;
    let unit: u128 = 19_683_000_000_000;
    let mut low: u32 = 0;
    let mut high: u32 = 1_000_000;
    while high - low > 1
        invariant
            0 <= low < high <= 1_000_000,
            unit == pow9(30),
            target == weight() * pow9(d as int),
            pow4(low as int) * pow9(30) <= target,
            target < pow4(high as int) * pow9(30),
        decreases high - low,
    {
        let mid: u32 = low + (high - low) / 2;
        proof {
            pow4_grows(mid as int, 1_000_000);
            product_grows(mid as int, 1_000_000, mid as int, 1_000_000);
            product_grows(pow4(mid as int), pow4(1_000_000), pow9(30), pow9(30));
            constants();
        }
        let m: u128 = mid as u128;
        let m2: u128 = m * m;
        let m4: u128 = m2 * m2;
        if m4 * unit <= target {
            low = mid;
        } else {
            high = mid;
        }
    }
    low
}

} // verus!
