//! One-decimal numbers: what formatting a double with one decimal shows for a
//! quotient of integers, computed with integers alone.

use crate::text::{cat2, cat3, dec, dec_u64};
use vstd::prelude::*;

verus! {

/// `n / d` rounded to the nearest integer, ties to the even one.
pub open spec fn half_even(n: nat, d: nat) -> nat {
    let q = n / d;
    let r = n % d;
    if 2 * r < d || (2 * r == d && q % 2 == 0) {
        q
    } else {
        q + 1
    }
}

/// 2 to the 53rd: below it every integer is a double.
pub open spec fn exact_limit() -> nat {
    0x20_0000_0000_0000
}

/// The distance between neighbouring doubles near the integer `n`, at least one.
pub open spec fn double_gap(n: nat) -> nat
    decreases n,
{
    if n < exact_limit() {
        1
    } else {
        2 * double_gap(n / 2)
    }
}

/// The double nearest to the integer `n`.
pub open spec fn nearest_double(n: nat) -> nat {
    half_even(n, double_gap(n)) * double_gap(n)
}

/// The smallest power of two times `s` that lifts `x` to `1000 * 2^52`.
pub open spec fn lift(x: nat, s: nat) -> nat
    decreases 1000 * exact_limit() - x,
{
    if 0 < x && 2 * x < 1000 * exact_limit() {
        lift(2 * x, 2 * s)
    } else {
        s
    }
}

/// The power of two times `s` that brings `x` below `1000 * 2^53`.
pub open spec fn lower(x: nat, s: nat) -> nat
    decreases x,
{
    if x >= 1000 * exact_limit() {
        lower(x / 2, 2 * s)
    } else {
        s
    }
}

/// Tenths of `n / 1024`.
pub open spec fn kilo_tenths(n: nat) -> nat {
    half_even(nearest_double(n) * 10, 1024)
}

/// Tenths of `n / 2^20`.
pub open spec fn mega_tenths(n: nat) -> nat {
    half_even(nearest_double(n) * 10, 1048576)
}

/// Tenths of the double nearest to `n / 1000`.
pub open spec fn milli_tenths(n: nat) -> nat {
    let a = nearest_double(n);
    if a >= 1000 * exact_limit() {
        let s = lower(a, 1);
        half_even(a, 1000 * s) * s * 10
    } else {
        let s = lift(a, 1);
        half_even(half_even(a * s, 1000) * 10, s)
    }
}

/// A number of tenths with one decimal.
pub open spec fn one_decimal(tenths: nat) -> Seq<char> {
    dec(tenths / 10) + "."@ + dec(tenths % 10)
}

fn round_half_even(n: u128, d: u128) -> (r: u128)
    requires
        0 < d < 0x8000_0000_0000_0000_0000_0000_0000_0000,
        n < 0x8000_0000_0000_0000_0000_0000_0000_0000,
    ensures
        r == half_even(n as nat, d as nat),
        r <= n / d + 1,
{
    let q = n / d;
    let r = n % d;
    assert(r < d && q <= n) by (nonlinear_arith)
        requires
            r == n % d,
            q == n / d,
            d > 0,
    ;
    if 2 * r < d || (2 * r == d && q % 2 == 0) {
        q
    } else {
        q + 1
    }
}

fn gap_of(n: u64) -> (g: u64)
    ensures
        g == double_gap(n as nat),
        1 <= g,
        g == 1 || g <= n,
    decreases n,
{
    if n < 0x20_0000_0000_0000 {
        1
    } else {
        2 * gap_of(n / 2)
    }
}

fn to_double(n: u64) -> (r: u128)
    ensures
        r == nearest_double(n as nat),
        r <= 0x2_0000_0000_0000_0000,
{
    let gap = gap_of(n) as u128;
    let q = round_half_even(n as u128, gap);
    assert(q * gap <= n + gap) by (nonlinear_arith)
        requires
            q <= (n as u128) / gap + 1,
            gap >= 1,
    ;
    q * gap
}

fn lift_of(a: u128) -> (s: u128)
    requires
        a < 1000 * exact_limit(),
    ensures
        s == lift(a as nat, 1),
        1 <= s,
        s == 1 || s < 1000 * exact_limit(),
        a * s < 1000 * exact_limit(),
{
    let mut x: u128 = a;
    let mut s: u128 = 1;
    while 0 < x && 2 * x < 9_007_199_254_740_992_000
        invariant
            lift(x as nat, s as nat) == lift(a as nat, 1),
            x < 1000 * exact_limit(),
            x == a * s,
            1 <= s,
            s == 1 || s <= x,
            a == 0 ==> x == 0,
        decreases 1000 * exact_limit() - x,
    {
        proof {
            assert(a * (s * 2) == 2 * (a * s)) by (nonlinear_arith);
            assert(s <= x) by (nonlinear_arith)
                requires
                    x == a * s,
                    x > 0,
                    s >= 1,
            ;
        }
        x = x * 2;
        s = s * 2;
    }
    s
}

fn lower_of(a: u128) -> (s: u128)
    requires
        a <= 0x2_0000_0000_0000_0000,
    ensures
        s == lower(a as nat, 1),
        1 <= s <= 0x10000,
{
    let mut x: u128 = a;
    let mut s: u128 = 1;
    assert(s * x == a) by (nonlinear_arith)
        requires
            s == 1,
            x == a,
    ;
    while x >= 9_007_199_254_740_992_000
        invariant
            lower(x as nat, s as nat) == lower(a as nat, 1),
            s * x <= a,
            a <= 0x2_0000_0000_0000_0000,
            1 <= s <= 0x10000,
        decreases x,
    {
        proof {
            assert(s <= 0x1000) by (nonlinear_arith)
                requires
                    s * x <= a,
                    a <= 0x2_0000_0000_0000_0000,
                    x >= 9_007_199_254_740_992_000,
                    s >= 1,
            ;
            assert((s * 2) * (x / 2) <= s * x) by (nonlinear_arith)
                requires
                    s >= 1,
            ;
        }
        x = x / 2;
        s = s * 2;
    }
    s
}

/// `n / 1024` with one decimal.
pub fn kilo_text(n: u64) -> (s: String)
    ensures
        s@ == one_decimal(kilo_tenths(n as nat)),
{
    let d = to_double(n);
    let t = round_half_even(d * 10, 1024);
    tenths_text(t)
}

/// `n / 2^20` with one decimal.
pub fn mega_text(n: u64) -> (s: String)
    ensures
        s@ == one_decimal(mega_tenths(n as nat)),
{
    let d = to_double(n);
    let t = round_half_even(d * 10, 1048576);
    tenths_text(t)
}

/// `n / 1000` with one decimal.
pub fn milli_text(n: u64) -> (s: String)
    ensures
        s@ == one_decimal(milli_tenths(n as nat)),
{
    let a = to_double(n);
    if a >= 9_007_199_254_740_992_000 {
        let s = lower_of(a);
        let q = round_half_even(a, 1000 * s);
        let d: u128 = 1000 * s;
        assert(q <= a + 1) by (nonlinear_arith)
            requires
                q <= a / d + 1,
                d >= 1,
        ;
        assert(q * s <= 0x10_0000_0000_0000_0000_0000_0000) by (nonlinear_arith)
            requires
                q <= 0x4_0000_0000_0000_0000,
                s <= 0x10000,
        ;
        tenths_text(q * s * 10)
    } else {
        let s = lift_of(a);
        let m = round_half_even(a * s, 1000);
        let t = round_half_even(m * 10, s);
        assert(t <= m * 10 + 1) by (nonlinear_arith)
            requires
                t <= ((m * 10) as u128) / s + 1,
                s >= 1,
        ;
        tenths_text(t)
    }
}

fn tenths_text(t: u128) -> (s: String)
    ensures
        s@ == one_decimal(t as nat),
{
    let whole = dec_u128(t / 10);
    let tenth = dec_u128(t % 10);
    cat3(whole.as_str(), ".", tenth.as_str())
}

fn dec_u128(n: u128) -> (s: String)
    ensures
        s@ == dec(n as nat),
    decreases n,
{
    if n < 10 {
        dec_u64(n as u64)
    } else {
        let head = dec_u128(n / 10);
        let last = dec_u64((n % 10) as u64);
        proof {
            assert(head@ + last@ =~= dec(n as nat));
        }
        cat2(head.as_str(), last.as_str())
    }
}

/// A byte count for people: bytes, kilobytes or megabytes.
pub open spec fn human_size(bytes: nat) -> Seq<char> {
    if bytes >= 1048576 {
        one_decimal(mega_tenths(bytes)) + " MB"@
    } else if bytes >= 1024 {
        one_decimal(kilo_tenths(bytes)) + " KB"@
    } else {
        dec(bytes) + " B"@
    }
}

/// A byte count for people: bytes, kilobytes or megabytes.
pub fn human_bytes(bytes: u64) -> (s: String)
    ensures
        s@ == human_size(bytes as nat),
{
    if bytes >= 1048576 {
        let n = mega_text(bytes);
        cat2(n.as_str(), " MB")
    } else if bytes >= 1024 {
        let n = kilo_text(bytes);
        cat2(n.as_str(), " KB")
    } else {
        let n = dec_u64(bytes);
        cat2(n.as_str(), " B")
    }
}

} // verus!
