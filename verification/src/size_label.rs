//! Byte counts as people read them: `512 B`, `1.5 KB`, `2.0 MB`.
use crate::text::{decimal, push_decimal};
use vstd::prelude::*;
use vstd::string::*;

verus! {

/// The integer nearest to `n / d`, and the even one of two that are equally near.
pub open spec fn nearest(n: nat, d: nat) -> nat {
    let q = n / d;
    let r = n % d;
    if 2 * r > d || (2 * r == d && q % 2 == 1) {
        q + 1
    } else {
        q
    }
}

/// Distance of the multiples among which a number is rounded when it is held
/// in a double: its 53 leading bits are kept.
pub open spec fn double_step(n: nat) -> nat
    decreases n,
{
    if n < 0x20_0000_0000_0000 {
        1
    } else {
        2 * double_step(n / 2)
    }
}

/// The number that a double holds in place of `n`.
pub open spec fn as_double(n: nat) -> nat {
    nearest(n, double_step(n)) * double_step(n)
}

/// `n / unit` with one digit after the point.
pub open spec fn one_decimal(n: nat, unit: nat) -> Seq<char> {
    let tenths = nearest(10 * as_double(n), unit);
    decimal(tenths / 10) + "."@ + decimal(tenths % 10)
}

/// The label of a byte count.
pub open spec fn size_label(bytes: nat) -> Seq<char> {
    if bytes < 1024 {
        decimal(bytes) + " B"@
    } else if bytes < 1024 * 1024 {
        one_decimal(bytes, 1024) + " KB"@
    } else {
        one_decimal(bytes, 1024 * 1024) + " MB"@
    }
}

fn nearest_u128(n: u128, d: u128) -> (r: u128)
    requires
        0 < d <= 0x8000_0000_0000_0000,
        n <= 0xffff_ffff_ffff_ffff_ffff,
    ensures
        r == nearest(n as nat, d as nat),
        r <= n + 1,
{
    let q: u128 = n / d;
    let r: u128 = n % d;
    assert(q <= n) by (nonlinear_arith)
        requires
            q == n / d,
            d > 0,
    ;
    if 2 * r > d || (2 * r == d && q % 2 == 1) {
        q + 1
    } else {
        q
    }
}

proof fn lemma_double_step(n: nat)
    requires
        n < 0x1_0000_0000_0000_0000,
    ensures
        1 <= double_step(n) <= 2048,
{
    reveal_with_fuel(double_step, 13);
}

proof fn lemma_nearest(n: nat, d: nat)
    requires
        d > 0,
    ensures
        2 * nearest(n, d) * d <= 2 * n + d,
{
    let q = n / d;
    let r = n % d;
    assert(n == q * d + r) by (nonlinear_arith)
        requires
            q == n / d,
            r == n % d,
            d > 0,
    ;
    assert(2 * (q + 1) * d == 2 * (q * d) + 2 * d) by (nonlinear_arith);
    assert(2 * q * d == 2 * (q * d)) by (nonlinear_arith);
}

/// The tenths of a label fit beside the byte count itself.
proof fn lemma_tenths_bound(n: nat, unit: nat)
    requires
        n <= usize::MAX,
        1024 <= unit,
    ensures
        nearest(10 * as_double(n), unit) / 10 <= usize::MAX,
{
    let step = double_step(n);
    lemma_double_step(n);
    lemma_nearest(n, step);
    let held = as_double(n);
    assert(2 * held <= 2 * n + 2048) by (nonlinear_arith)
        requires
            held == nearest(n, step) * step,
            2 * nearest(n, step) * step <= 2 * n + step,
            step <= 2048,
    ;
    lemma_nearest(10 * held, unit);
    let t = nearest(10 * held, unit);
    if t >= 1 {
        assert((2 * t - 1) * 1024 <= (2 * t - 1) * unit && (2 * t - 1) * unit == 2 * t * unit
            - unit) by (nonlinear_arith)
            requires
                1024 <= unit,
                t >= 1,
        ;
    }
}

fn double_step_u128(n: u128) -> (r: u128)
    requires
        n < 0x1_0000_0000_0000_0000,
    ensures
        r == double_step(n as nat),
        1 <= r <= 2048,
    decreases n,
{
    proof {
        lemma_double_step(n as nat);
    }
    if n < 0x20_0000_0000_0000 {
        1
    } else {
        2 * double_step_u128(n / 2)
    }
}

fn push_one_decimal(out: &mut String, n: usize, unit: u128)
    requires
        1024 <= unit <= 1024 * 1024,
    ensures
        final(out)@ == old(out)@ + one_decimal(n as nat, unit as nat),
{
    let step: u128 = double_step_u128(n as u128);
    let steps: u128 = nearest_u128(n as u128, step);
    assert(steps * step <= (n + 1) * 2048) by (nonlinear_arith)
        requires
            steps <= n + 1,
            1 <= step <= 2048,
    ;
    let held: u128 = steps * step;
    let tenths: u128 = nearest_u128(10 * held, unit);
    proof {
        lemma_tenths_bound(n as nat, unit as nat);
    }
    let whole: usize = (tenths / 10) as usize;
    push_decimal(out, whole);
    out.append(".");
    push_decimal(out, (tenths % 10) as usize);
    assert(out@ =~= old(out)@ + one_decimal(n as nat, unit as nat));
}

/// Formats a byte count as a human-readable label.
pub fn format_bytes(bytes: usize) -> (r: String)
    ensures
        r@ == size_label(bytes as nat),
{
    let mut out = String::new();
    if bytes < 1024 {
        push_decimal(&mut out, bytes);
        out.append(" B");
    } else if bytes < 1024 * 1024 {
        push_one_decimal(&mut out, bytes, 1024);
        out.append(" KB");
    } else {
        push_one_decimal(&mut out, bytes, 1024 * 1024);
        out.append(" MB");
    }
    assert(out@ =~= size_label(bytes as nat));
    out
}

} // verus!
