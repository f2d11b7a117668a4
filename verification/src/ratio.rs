//! Fractions with the accuracy of single precision: 24 significant bits,
//! rounded to the nearest, ties to the even neighbour.
//!
//! A fraction is held as a whole number of units of 2^-28. Every
//! single-precision number between 2^-5 and 1 is such a number of units, so
//! nothing is lost.

use vstd::prelude::*;

verus! {

/// How many units make one.
pub const ONE: u64 = 0x1000_0000;

/// 0.05 in single precision.
pub const FIVE_HUNDREDTHS: u32 = 13_421_773;

/// 0.5.
pub const HALF: u32 = 0x0800_0000;

/// 0.95 in single precision.
pub const NINETY_FIVE_HUNDREDTHS: u32 = 255_013_680;

/// The distance between neighbouring numbers of 24 significant bits at `v`.
pub open spec fn step(v: nat) -> nat
    decreases v,
{
    if v < 0x100_0000 {
        1
    } else {
        2 * step(v / 2)
    }
}

/// The multiple of `s` nearest to `v`, ties to the even multiple.
pub open spec fn nearest(v: nat, s: nat) -> nat {
    let q = v / s;
    let r = v % s;
    if 2 * r < s || (2 * r == s && q % 2 == 0) {
        q * s
    } else {
        (q + 1) * s
    }
}

/// The number of 24 significant bits nearest to `v`, ties to even.
pub open spec fn rounded(v: nat) -> nat {
    nearest(v, step(v))
}

/// The whole part of the single-precision product of `w` and a fraction.
pub open spec fn scaled_nat(w: nat, units: nat) -> nat {
    rounded(rounded(w) * units) / (ONE as nat)
}

/// The single-precision product of `w` and a fraction, cut off toward zero.
pub open spec fn scaled(w: int, units: nat) -> int {
    if w >= 0 {
        scaled_nat(w as nat, units) as int
    } else {
        -(scaled_nat((-w) as nat, units) as int)
    }
}

/// The single-precision sum of two fractions, kept between 0.05 and 0.95.
pub open spec fn clamped(v: int) -> int {
    if v < FIVE_HUNDREDTHS {
        FIVE_HUNDREDTHS as int
    } else if v > NINETY_FIVE_HUNDREDTHS {
        NINETY_FIVE_HUNDREDTHS as int
    } else {
        v
    }
}

proof fn lemma_step(v: nat)
    ensures
        step(v) >= 1,
        step(v) <= v + 1,
        v < 0x100_0000 ==> step(v) == 1,
        v >= 0x100_0000 ==> step(v) * 0x80_0000 <= v,
    decreases v,
{
    if v >= 0x100_0000 {
        lemma_step(v / 2);
    }
}

proof fn lemma_rounded(v: nat)
    ensures
        v <= rounded(v) + step(v),
        rounded(v) <= v + step(v),
        v < 0x100_0000 ==> rounded(v) == v,
{
    lemma_step(v);
    let s = step(v);
    let q = v / s;
    vstd::arithmetic::div_mod::lemma_fundamental_div_mod(v as int, s as int);
    assert((q + 1) * s == s * q + s) by (nonlinear_arith);
    assert(q * s == s * q) by (nonlinear_arith);
    if v < 0x100_0000 {
        assert(s == 1);
        assert(q * 1 == q);
    }
}

fn step_of(v: u64) -> (s: u64)
    ensures
        s == step(v as nat),
        1 <= s,
        s <= v + 1,
{
    let mut s: u64 = 1;
    let mut rest: u64 = v;
    proof {
        lemma_step(v as nat);
    }
    while rest >= 0x100_0000
        invariant
            step(v as nat) == s * step(rest as nat),
            s >= 1,
            s * rest <= v,
        decreases rest,
    {
        proof {
            let half = (rest / 2) as nat;
            assert(step(rest as nat) == 2 * step(half));
            assert(s * (2 * step(half)) == (2 * s) * step(half)) by (nonlinear_arith);
            assert((2 * s) * half <= s * rest) by (nonlinear_arith)
                requires
                    2 * half <= rest,
                    s >= 1,
            ;
            assert(2 * s <= v) by (nonlinear_arith)
                requires
                    (2 * s) * half <= v,
                    half >= 1,
            ;
        }
        s = s * 2;
        rest = rest / 2;
    }
    assert(s * 1 == s);
    proof {
        lemma_step(v as nat);
    }
    s
}

/// The number of 24 significant bits nearest to `v`.
fn round(v: u64) -> (r: u64)
    requires
        v <= 0x1000_0000_0000_0000,
    ensures
        r == rounded(v as nat),
        r <= 2 * v + 1,
{
    let s: u64 = step_of(v);
    let q: u64 = v / s;
    let r: u64 = v % s;
    proof {
        vstd::arithmetic::div_mod::lemma_fundamental_div_mod(v as int, s as int);
        assert(q * s <= v) by (nonlinear_arith)
            requires
                v == s * q + r,
                r >= 0,
        ;
        assert((q + 1) * s == q * s + s) by (nonlinear_arith);
        lemma_rounded(v as nat);
    }
    if 2 * r < s || (2 * r == s && q % 2 == 0) {
        q * s
    } else {
        (q + 1) * s
    }
}

/// The single-precision product of `w` and a fraction, cut off toward zero.
pub fn scale(w: i32, units: u32) -> (r: i32)
    requires
        -0x0800_0000 <= w <= 0x0800_0000,
        units <= ONE,
    ensures
        r == scaled(w as int, units as nat),
        -0x1000_0000 < r < 0x1000_0000,
        units < ONE && 0 <= w ==> 0 <= r,
        w < 0 ==> r <= 0,
{
    let m: u64 = if w >= 0 {
        w as u64
    } else {
        (-w) as u64
    };
    let a: u64 = round(m);
    proof {
        lemma_rounded(m as nat);
        lemma_step(m as nat);
        assert(a <= 0x0800_0000 + 16 + 1) by {
            lemma_round_bound(m as nat);
        }
        assert(a * units <= 0x0900_0000 * 0x1000_0000) by (nonlinear_arith)
            requires
                0 <= a <= 0x0900_0000,
                0 <= units <= 0x1000_0000,
        ;
    }
    let p: u64 = a * units as u64;
    let b: u64 = round(p);
    proof {
        lemma_product_bound(p as nat);
    }
    let q: u64 = b / ONE;
    if w >= 0 {
        q as i32
    } else {
        -(q as i32)
    }
}

proof fn lemma_round_bound(m: nat)
    requires
        m <= 0x0800_0000,
    ensures
        rounded(m) <= 0x0800_0000 + 17,
{
    lemma_step(m);
    lemma_rounded(m);
    if m >= 0x100_0000 {
        assert(step(m) * 0x80_0000 <= m);
        assert(step(m) <= 16);
    }
}

proof fn lemma_product_bound(p: nat)
    requires
        p <= 0x0900_0000 * 0x1000_0000,
    ensures
        rounded(p) / 0x1000_0000 < 0x1000_0000,
{
    lemma_step(p);
    lemma_rounded(p);
    if p >= 0x100_0000 {
        assert(step(p) * 0x80_0000 <= p);
        assert(step(p) <= p / 0x80_0000);
    }
}

/// How finely a quotient is cut up before it is rounded.
pub const FINE: u64 = 0x100_0000;

/// The whole part of the single-precision share of `w` in percent: the product
/// is rounded, and so is its hundredth part.
pub open spec fn percent(w: nat, pct: nat) -> nat {
    let n = rounded(w * pct) * (FINE as nat);
    let s = step(n / 100);
    nearest(n, 100 * s) / 100 / (FINE as nat)
}

/// The single-precision share of `w` in percent, cut off to a whole number.
pub fn share(w: i32, pct: u32) -> (r: i32)
    requires
        0 <= w <= 0x4_0000,
        pct <= 10_000,
    ensures
        r == percent(w as nat, pct as nat),
        0 <= r <= 0x200_0000,
{
    assert(0 <= w * pct <= 0x4_0000 * 10_000) by (nonlinear_arith)
        requires
            0 <= w <= 0x4_0000,
            0 <= pct <= 10_000,
    ;
    let p: u64 = round(w as u64 * pct as u64);
    proof {
        lemma_round_up((w * pct) as nat);
    }
    let n: u64 = p * FINE;
    let s: u64 = step_of(n / 100);
    let t: u64 = 100 * s;
    let q: u64 = n / t;
    let r: u64 = n % t;
    proof {
        lemma_step((n / 100) as nat);
        vstd::arithmetic::div_mod::lemma_fundamental_div_mod(n as int, t as int);
        assert(q * t == t * q) by (nonlinear_arith);
        assert((q + 1) * t == t * q + t) by (nonlinear_arith);
        assert(t <= n + 100);
    }
    let m: u64 = if 2 * r < t || (2 * r == t && q % 2 == 0) {
        q * t
    } else {
        (q + 1) * t
    };
    (m / 100 / FINE) as i32
}

/// Adds 0.05 to a fraction (takes it away where `up` is false) in single
/// precision and keeps the result between 0.05 and 0.95.
pub open spec fn adjusted(units: nat, up: bool) -> nat {
    if up {
        clamped(rounded(units + FIVE_HUNDREDTHS as nat) as int) as nat
    } else if units < FIVE_HUNDREDTHS {
        FIVE_HUNDREDTHS as nat
    } else {
        clamped(rounded((units - FIVE_HUNDREDTHS) as nat) as int) as nat
    }
}

/// Moves a fraction by one step of 0.05 within 0.05 and 0.95.
pub fn adjust(units: u32, up: bool) -> (r: u32)
    requires
        units <= ONE,
    ensures
        r == adjusted(units as nat, up),
        FIVE_HUNDREDTHS <= r <= NINETY_FIVE_HUNDREDTHS,
{
    let v: u64 = if up {
        round(units as u64 + FIVE_HUNDREDTHS as u64)
    } else if units < FIVE_HUNDREDTHS {
        0
    } else {
        round(units as u64 - FIVE_HUNDREDTHS as u64)
    };
    if v < FIVE_HUNDREDTHS as u64 {
        FIVE_HUNDREDTHS
    } else if v > NINETY_FIVE_HUNDREDTHS as u64 {
        NINETY_FIVE_HUNDREDTHS
    } else {
        v as u32
    }
}

/// A fraction of at most one never makes a length longer. Lengths that need
/// more than 24 bits may be rounded up first, so there the fraction is to be at
/// most 0.95.
pub proof fn law_scaling_shrinks(w: nat, units: nat)
    requires
        w < 0x100_0000 || (w <= 0x0800_0000 && units <= NINETY_FIVE_HUNDREDTHS),
        units <= ONE,
    ensures
        0 <= scaled(w as int, units) <= w,
{
    if w >= 0x100_0000 {
        lemma_shrinks_far(w, units);
        return;
    }
    lemma_rounded(w);
    let p = w * units;
    let bound = w * 0x1000_0000;
    assert(p <= bound) by (nonlinear_arith)
        requires
            p == w * units,
            units <= 0x1000_0000,
            bound == w * 0x1000_0000,
    ;
    lemma_rounding_keeps_bound(p, w);
}

/// Rounding adds at most one part in 2^23.
proof fn lemma_round_up(v: nat)
    ensures
        rounded(v) * 0x80_0000 <= v * 0x80_0001,
{
    lemma_step(v);
    lemma_rounded(v);
}

proof fn lemma_shrinks_far(w: nat, units: nat)
    requires
        0x100_0000 <= w <= 0x0800_0000,
        units <= NINETY_FIVE_HUNDREDTHS,
    ensures
        scaled_nat(w, units) <= w,
{
    let a = rounded(w);
    let p = a * units;
    let b = rounded(p);
    lemma_round_up(w);
    lemma_round_up(p);
    assert(p <= a * 255_013_680) by (nonlinear_arith)
        requires
            p == a * units,
            units <= 255_013_680,
            0 <= a,
    ;
    assert(b <= w * 0x1000_0000);
    assert(b / 0x1000_0000 <= w);
}

/// However it is rounded, a fraction of at most one makes a length longer by a
/// few pixels at most.
pub proof fn lemma_scaled_close(w: nat, units: nat)
    requires
        w <= 0x0800_0000,
        units <= ONE,
    ensures
        0 <= scaled(w as int, units) <= w + 64,
{
    let a = rounded(w);
    let p = a * units;
    let b = rounded(p);
    lemma_round_up(w);
    lemma_round_up(p);
    assert(p <= a * 0x1000_0000) by (nonlinear_arith)
        requires
            p == a * units,
            units <= 0x1000_0000,
            0 <= a,
    ;
    assert(a <= w + 16);
    assert(b <= (w + 64) * 0x1000_0000);
    assert(b / 0x1000_0000 <= w + 64);
}

/// Rounding does not cross a whole number of ones.
proof fn lemma_rounding_keeps_bound(p: nat, w: nat)
    requires
        w < 0x100_0000,
        p <= w * 0x1000_0000,
    ensures
        rounded(p) <= w * 0x1000_0000,
{
    vstd::arithmetic::power2::lemma2_to64();
    lemma_step_is_power(p, 28);
    let e = choose|e: nat| e <= 28 && step(p) == vstd::arithmetic::power2::pow2(e);
    let s = step(p);
    let c = vstd::arithmetic::power2::pow2((28 - e) as nat);
    vstd::arithmetic::power2::lemma_pow2_adds((28 - e) as nat, e);
    vstd::arithmetic::power2::lemma_pow2_pos(e);
    vstd::arithmetic::power2::lemma_pow2_pos((28 - e) as nat);
    assert(c * s == 0x1000_0000);
    let m = w * c;
    assert(w * 0x1000_0000 == m * s) by (nonlinear_arith)
        requires
            c * s == 0x1000_0000,
            m == w * c,
    ;
    vstd::arithmetic::div_mod::lemma_fundamental_div_mod(p as int, s as int);
    let q = p / s;
    assert(q * s == s * q && (q + 1) * s == s * q + s) by (nonlinear_arith);
    if rounded(p) == (q + 1) * s && p % s > 0 {
        assert(s * q < m * s);
        assert(q < m) by (nonlinear_arith)
            requires
                s * q < m * s,
                s >= 1,
        ;
        assert((q + 1) * s <= m * s) by (nonlinear_arith)
            requires
                q + 1 <= m,
                s >= 1,
        ;
    }
}

/// The step of a number below 2^(24 + k) is a power of two of at most 2^k.
proof fn lemma_step_is_power(p: nat, k: nat)
    requires
        p < 0x100_0000 * vstd::arithmetic::power2::pow2(k),
    ensures
        exists|e: nat| e <= k && step(p) == #[trigger] vstd::arithmetic::power2::pow2(e),
    decreases k,
{
    vstd::arithmetic::power2::lemma2_to64();
    if p < 0x100_0000 {
        assert(step(p) == vstd::arithmetic::power2::pow2(0));
    } else {
        assert(k > 0);
        vstd::arithmetic::power2::lemma_pow2_unfold(k);
        lemma_step_is_power(p / 2, (k - 1) as nat);
        let e = choose|e: nat|
            e <= k - 1 && step(p / 2) == #[trigger] vstd::arithmetic::power2::pow2(e);
        vstd::arithmetic::power2::lemma_pow2_unfold(e + 1);
        assert(step(p) == vstd::arithmetic::power2::pow2(e + 1));
    }
}

/// Adjusting moves a fraction by a twentieth, but for the last bits, within 0.05
/// and 0.95.
pub proof fn lemma_adjusted(units: nat, up: bool)
    requires
        units <= ONE,
    ensures
        ({
            let to = if up {
                units + FIVE_HUNDREDTHS
            } else {
                units - FIVE_HUNDREDTHS
            };
            &&& FIVE_HUNDREDTHS <= adjusted(units, up) <= NINETY_FIVE_HUNDREDTHS
            &&& to < FIVE_HUNDREDTHS - 16 ==> adjusted(units, up) == FIVE_HUNDREDTHS
            &&& to > NINETY_FIVE_HUNDREDTHS + 16 ==> adjusted(units, up) == NINETY_FIVE_HUNDREDTHS
            &&& FIVE_HUNDREDTHS <= to <= NINETY_FIVE_HUNDREDTHS ==> -16 <= adjusted(units, up) - to
                <= 16
        }),
{
    let to = if up {
        units + FIVE_HUNDREDTHS
    } else {
        units - FIVE_HUNDREDTHS
    };
    if to >= 0 {
        lemma_small_round(to as nat);
    }
}

/// Rounding a number below 2^29 changes its last five bits at most.
proof fn lemma_small_round(v: nat)
    requires
        v < 0x2000_0000,
    ensures
        -16 <= rounded(v) - v <= 16,
{
    lemma_step(v);
    let s = step(v);
    assert(s <= 32) by {
        reveal_with_fuel(step, 7);
    }
    vstd::arithmetic::div_mod::lemma_fundamental_div_mod(v as int, s as int);
    let q = v / s;
    assert(q * s == s * q && (q + 1) * s == s * q + s) by (nonlinear_arith);
}

/// A fraction of a length is that fraction of it, to the pixel.
pub proof fn law_scaled_is_a_share(w: nat, units: nat)
    requires
        w < 0x100_0000,
        units <= ONE,
    ensures
        w * units - 0x1000_0000 - w * 32 < scaled(w as int, units) * 0x1000_0000,
        scaled(w as int, units) * 0x1000_0000 <= w * units + w * 32 + 1,
{
    lemma_rounded(w);
    let p = w * units;
    lemma_step(p);
    lemma_rounded(p);
    assert(p <= w * 0x1000_0000) by (nonlinear_arith)
        requires
            p == w * units,
            units <= 0x1000_0000,
    ;
    assert(step(p) <= w * 32 + 1);
    let b = rounded(p);
    vstd::arithmetic::div_mod::lemma_fundamental_div_mod(b as int, 0x1000_0000);
}

/// A share in percent is that share, cut off to a whole number, as long as the
/// product needs no more than 24 bits.
pub proof fn law_percent_is_a_share(w: nat, pct: nat)
    requires
        w * pct < 0x100_0000,
    ensures
        percent(w, pct) == (w * pct) / 100,
{
    let p = w * pct;
    lemma_rounded(p);
    let n = p * 0x100_0000;
    let s = step(n / 100);
    lemma_step(n / 100);
    vstd::arithmetic::power2::lemma2_to64();
    lemma_step_is_power(n / 100, 24);
    let e = choose|e: nat| e <= 24 && s == vstd::arithmetic::power2::pow2(e);
    let c = vstd::arithmetic::power2::pow2((24 - e) as nat);
    vstd::arithmetic::power2::lemma_pow2_adds((24 - e) as nat, e);
    assert(c * s == 0x100_0000);
    let t = 100 * s;
    let q = n / t;
    let r = n % t;
    vstd::arithmetic::div_mod::lemma_fundamental_div_mod(n as int, t as int);
    assert(q * t == t * q && (q + 1) * t == t * q + t) by (nonlinear_arith);
    let m = nearest(n, t);
    let a = p / 100;
    let b = p % 100;
    assert(s * 0x80_0000 <= n / 100 || s == 1);
    // The whole part is a number of steps, so that rounding does not go below it.
    let k = a * c;
    assert(a * 0x100_0000 == k * s) by (nonlinear_arith)
        requires
            k == a * c,
            c * s == 0x100_0000,
    ;
    assert(k * t == 100 * (k * s)) by (nonlinear_arith)
        requires
            t == 100 * s,
    ;
    assert(k <= q) by (nonlinear_arith)
        requires
            k * t <= n,
            n == t * q + r,
            r < t,
            t > 0,
    ;
    assert(k * t <= q * t) by (nonlinear_arith)
        requires
            k <= q,
            t > 0,
    ;
    assert(m >= k * t);
    assert(2 * m <= 2 * n + t);
    assert(m < 100 * (a + 1) * 0x100_0000);
    assert(m / 100 / 0x100_0000 == a);
}

} // verus!
