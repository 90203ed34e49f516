//! Quotients as double-precision numbers, written with a fixed number of
//! decimals, in exact integer arithmetic.

use crate::number::{decimal, padded, push_decimal, push_padded};
use vstd::prelude::*;

verus! {

/// `n / d` rounded to an integer, halves to the even one.
pub open spec fn half_even(n: nat, d: nat) -> nat {
    let q = n / d;
    let r = n % d;
    if 2 * r < d || (2 * r == d && q % 2 == 0) {
        q
    } else {
        q + 1
    }
}

/// 2 to the 52nd, the least significand of a normal double.
pub const LEAST: u64 = 4503599627370496;

/// The distance between the doubles around the integer `n`.
pub open spec fn spacing(n: nat) -> nat
    decreases n,
{
    if n < 2 * LEAST {
        1
    } else {
        2 * spacing(n / 2)
    }
}

/// The double nearest to the integer `n`.
pub open spec fn double_of(n: nat) -> nat {
    half_even(n, spacing(n)) * spacing(n)
}

/// 2 to the power of `s`.
pub open spec fn two_to(s: nat) -> nat
    decreases s,
{
    if s == 0 {
        1
    } else {
        2 * two_to((s - 1) as nat)
    }
}

/// How many times `n` must be doubled for its quotient by `d` to have the
/// significand of a double.
pub open spec fn doublings(n: nat, d: nat) -> nat
    decreases
        (if n < LEAST * d {
            LEAST * d - n
        } else {
            0
        }),
{
    if n == 0 || n >= LEAST * d {
        0
    } else {
        1 + doublings(2 * n, d)
    }
}

/// The double nearest to `n / d`, as a numerator over a power of two: the
/// exponent is `doublings(n, d)`. It holds for quotients below 2 to the 53rd.
pub open spec fn significand(n: nat, d: nat) -> nat {
    half_even(n * two_to(doublings(n, d)), d)
}

/// The double nearest to `n / d`, `n` itself taken as a double, times
/// `scale` and rounded to an integer.
pub open spec fn scaled_quotient(n: nat, d: nat, scale: nat) -> nat {
    let v = double_of(n);
    half_even(significand(v, d) * scale, two_to(doublings(v, d)))
}

/// `n / d` rounded to an integer, halves to the even one.
fn round_half_even(n: u128, d: u128) -> (q: u128)
    requires
        0 < d < 0x4000_0000_0000_0000_0000_0000_0000_0000,
        n < 0x4000_0000_0000_0000_0000_0000_0000_0000,
    ensures
        q == half_even(n as nat, d as nat),
        q <= n / d + 1,
{
    let q: u128 = n / d;
    let r: u128 = n % d;
    assert(q <= n) by (nonlinear_arith)
        requires
            q == n / d,
            d > 0,
    ;
    if 2 * r < d || (2 * r == d && q % 2 == 0) {
        q
    } else {
        q + 1
    }
}

/// The double nearest to the integer `n`.
fn nearest_double(n: u64) -> (v: u128)
    ensures
        v == double_of(n as nat),
        v <= 0x2_0000_0000_0000_0000,
        n < 2 * LEAST ==> v == n,
{
    let mut x: u64 = n;
    let mut step: u128 = 1;
    while x >= 2 * LEAST
        invariant
            spacing(n as nat) == step * spacing(x as nat),
            1 <= step,
            step * x <= n,
            step == 1 || x >= 1,
            n < 2 * LEAST ==> x == n && step == 1,
        decreases x,
    {
        proof {
            assert(step * spacing(x as nat) == (2 * step) * spacing((x / 2) as nat))
                by (nonlinear_arith)
                requires
                    spacing(x as nat) == 2 * spacing((x / 2) as nat),
            ;
            assert((2 * step) * (x / 2) <= step * x) by (nonlinear_arith)
                requires
                    x / 2 * 2 <= x,
                    step >= 1,
            ;
            assert(step * 2 <= step * x) by (nonlinear_arith)
                requires
                    x >= 2,
                    step >= 1,
            ;
        }
        x = x / 2;
        step = step * 2;
    }
    assert(step * 1 == step);
    assert(spacing(n as nat) == step);
    proof {
        assert(step <= n || step == 1) by (nonlinear_arith)
            requires
                step * x <= n,
                step >= 1,
                step == 1 || x >= 1,
        ;
    }
    let q: u128 = round_half_even(n as u128, step);
    proof {
        assert(q * step <= n + step) by (nonlinear_arith)
            requires
                q <= n as u128 / step + 1,
                step >= 1,
        ;
        if step == 1 {
            assert(n as nat / 1 == n && n as nat % 1 == 0);
        }
    }
    q * step
}

/// The double nearest to `n / d`, times `scale` and rounded to an integer.
fn round_quotient(n: u64, d: u64, scale: u64) -> (r: u64)
    requires
        1000 <= d <= 0x1_0000_0000,
        n < 0x20_0000_0000_0000 || d >= 0xf_0000,
        scale <= 100,
    ensures
        r == scaled_quotient(n as nat, d as nat, scale as nat),
{
    let v: u128 = nearest_double(n);
    let least: u128 = LEAST as u128;
    let bound: u128 = least * (d as u128);
    assert(bound == LEAST * d);
    let mut x: u128 = v;
    let mut p: u128 = 1;
    let ghost mut s: nat = 0;
    while x != 0 && x < bound
        invariant
            bound == LEAST * d,
            bound <= 0x10_0000_0000_0000 * 0x1_0000_0000,
            x < 2 * bound,
            x == 0 ==> v == 0 && p == 1,
            x > 0 ==> p <= x,
            x == v * p,
            p == two_to(s),
            p >= 1,
            doublings(v as nat, d as nat) == s + doublings(x as nat, d as nat),
        decreases
            (if x < bound {
                bound - x
            } else {
                0
            }),
    {
        assert(v * (p * 2) == (v * p) * 2) by (nonlinear_arith);
        x = x * 2;
        p = p * 2;
        proof {
            s = s + 1;
        }
    }
    assert(doublings(v as nat, d as nat) == s);
    let m: u128 = round_half_even(x, d as u128);
    proof {
        assert(x / (d as u128) <= 2 * LEAST) by (nonlinear_arith)
            requires
                x < 2 * (LEAST * d),
                d > 0,
        ;
    }
    proof {
        assert(m * scale <= (2 * LEAST + 1) * 100) by (nonlinear_arith)
            requires
                m <= 2 * LEAST + 1,
                scale <= 100,
        ;
        let k = m * scale;
        assert(k as u128 / p <= k) by (nonlinear_arith)
            requires
                p >= 1,
                k >= 0,
                k as u128 == k,
        ;
    }
    let r: u128 = round_half_even(m * (scale as u128), p);
    r as u64
}

// ---------------------------------------------------------------------------
// Sizes and bit rates
// ---------------------------------------------------------------------------

/// `n / d` with two decimals.
pub open spec fn two_decimals(n: nat, d: nat) -> Seq<char> {
    let hundredths = scaled_quotient(n, d, 100);
    decimal(hundredths / 100) + "."@ + padded(hundredths % 100, 2)
}

/// `n / d` with two decimals.
fn push_two_decimals(out: &mut String, n: u64, d: u64)
    requires
        1000 <= d <= 0x1_0000_0000,
        n < 0x20_0000_0000_0000 || d >= 0xf_0000,
    ensures
        final(out)@ == old(out)@ + two_decimals(n as nat, d as nat),
{
    let h: u64 = round_quotient(n, d, 100);
    push_decimal(out, h / 100);
    out.append(".");
    push_padded(out, h % 100, 2);
    assert(out@ == old(out)@ + two_decimals(n as nat, d as nat));
}

/// The size of a file in the largest unit that it reaches, up to gigabytes.
pub open spec fn size_text(bytes: nat) -> Seq<char> {
    if bytes < 1024 {
        decimal(bytes) + " B"@
    } else if bytes < 1048576 {
        two_decimals(bytes, 1024) + " KB"@
    } else if bytes < 1073741824 {
        two_decimals(bytes, 1048576) + " MB"@
    } else {
        two_decimals(bytes, 1073741824) + " GB"@
    }
}

/// The size of a file in the largest unit that it reaches.
pub fn file_size_text(bytes: u64) -> (text: String)
    ensures
        text@ == size_text(bytes as nat),
{
    let mut text = String::new();
    if bytes < 1024 {
        push_decimal(&mut text, bytes);
        text.append(" B");
    } else if bytes < 1048576 {
        push_two_decimals(&mut text, bytes, 1024);
        text.append(" KB");
    } else if bytes < 1073741824 {
        push_two_decimals(&mut text, bytes, 1048576);
        text.append(" MB");
    } else {
        push_two_decimals(&mut text, bytes, 1073741824);
        text.append(" GB");
    }
    assert(text@ == size_text(bytes as nat));
    text
}

/// A bit rate in megabits or kilobits per second.
pub open spec fn rate_text(bits_per_second: nat) -> Seq<char> {
    if bits_per_second >= 1000000 {
        two_decimals(bits_per_second, 1000000) + " Mbps"@
    } else {
        decimal(scaled_quotient(bits_per_second, 1000, 1)) + " kbps"@
    }
}

/// A bit rate in megabits or kilobits per second.
pub fn bitrate_text(bits_per_second: u64) -> (text: String)
    ensures
        text@ == rate_text(bits_per_second as nat),
{
    let mut text = String::new();
    if bits_per_second >= 1000000 {
        push_two_decimals(&mut text, bits_per_second, 1000000);
        text.append(" Mbps");
    } else {
        let k: u64 = round_quotient(bits_per_second, 1000, 1);
        push_decimal(&mut text, k);
        text.append(" kbps");
    }
    assert(text@ == rate_text(bits_per_second as nat));
    text
}

} // verus!
