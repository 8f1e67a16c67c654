//! Human-readable file sizes, as shown in logs and on download pages.
use vstd::prelude::*;
use crate::num::{decimal, zero_pad, decimal_exec, zero_pad_exec};
use crate::text::{string_of, extend_chars};

verus! {

/// `n / d` rounded to the nearest integer, ties to even: how a value that
/// is exact in binary is rounded when printed with a fixed number of places.
pub open spec fn rounded_div(n: nat, d: nat) -> nat
    recommends
        d > 0,
{
    let q = n / d;
    let r = n % d;
    if 2 * r > d {
        q + 1
    } else if 2 * r < d {
        q
    } else if q % 2 == 0 {
        q
    } else {
        q + 1
    }
}

/// 2^53: below it every integer is exact as an `f64`.
pub open spec fn f64_exact_limit() -> nat {
    9007199254740992
}

/// The spacing of the `f64` values next to `b`: the smallest power of two
/// `p` (from `p` on, doubling) for which `b / p` has at most 53 bits.
pub open spec fn f64_spacing(b: nat, p: nat) -> nat
    decreases 4096 - p,
{
    if p == 0 || p >= 2048 || b / p < f64_exact_limit() {
        p
    } else {
        f64_spacing(b, 2 * p)
    }
}

/// The value of `b as f64` for a `u64`: `b` rounded to 53 significant bits,
/// ties to even.
pub open spec fn as_f64_value(b: nat) -> nat {
    let p = f64_spacing(b, 1);
    rounded_div(b, p) * p
}

/// `units` hundredths or tenths (`places` is 1 or 2) printed with that many
/// decimal places.
pub open spec fn fixed_point(units: nat, places: nat) -> Seq<char> {
    let scale: nat = if places == 1 { 10 } else { 100 };
    decimal(units / scale) + seq!['.'] + zero_pad(decimal(units % scale), places)
}

/// The size text: bytes below 1 KiB, then KB and MB with one decimal place,
/// then GB with two (binary units, values rounded as `{:.1}` / `{:.2}` print them).
pub open spec fn size_text(b: nat) -> Seq<char> {
    if b < 1024 {
        decimal(b) + seq![' ', 'B']
    } else if b < 1048576 {
        fixed_point(rounded_div(10 * b, 1024), 1) + seq![' ', 'K', 'B']
    } else if b < 1073741824 {
        fixed_point(rounded_div(10 * b, 1048576), 1) + seq![' ', 'M', 'B']
    } else {
        fixed_point(rounded_div(100 * as_f64_value(b), 1073741824), 2) + seq![' ', 'G', 'B']
    }
}

fn rounded_div_exec(n: u128, d: u128) -> (r: u128)
    requires
        d > 0,
        d < u128::MAX / 2,
        n < u128::MAX / 2,
    ensures
        r == rounded_div(n as nat, d as nat),
{
    let q = n / d;
    let r = n % d;
    assert(q <= n) by (nonlinear_arith)
        requires
            d > 0,
            q == n / d,
    ;
    if 2 * r > d {
        q + 1
    } else if 2 * r < d {
        q
    } else if q % 2 == 0 {
        q
    } else {
        q + 1
    }
}

fn fixed_point_exec(units: u128, places: usize) -> (r: Vec<char>)
    requires
        places == 1 || places == 2,
        units <= u64::MAX,
    ensures
        r@ == fixed_point(units as nat, places as nat),
{
    let scale: u128 = if places == 1 { 10 } else { 100 };
    let whole = (units / scale) as u64;
    let frac = (units % scale) as u64;
    let mut out = decimal_exec(whole);
    out.push('.');
    let f = zero_pad_exec(decimal_exec(frac), places);
    extend_chars(&mut out, &f);
    out
}

/// `b as f64` as an integer (exact, since the value is an integer).
fn as_f64_exec(b: u64) -> (r: u128)
    ensures
        r == as_f64_value(b as nat),
        r <= 0x1_0000_0000_0000_1000u128,
{
    let mut p: u64 = 1;
    while p < 2048 && b / p >= 9007199254740992
        invariant
            1 <= p < 4096,
            f64_spacing(b as nat, p as nat) == f64_spacing(b as nat, 1),
        decreases 4096 - p,
    {
        p = p * 2;
    }
    let m = rounded_div_exec(b as u128, p as u128);
    let bq = (b as u128) / (p as u128);
    assert(m <= bq + 1);
    assert(bq * (p as u128) <= b as u128) by (nonlinear_arith)
        requires
            p >= 1,
            bq == (b as u128) / (p as u128),
    ;
    assert(m * (p as u128) <= (b as u128) + (p as u128)) by (nonlinear_arith)
        requires
            p >= 1,
            m <= bq + 1,
            bq * (p as u128) <= b as u128,
    ;
    m * (p as u128)
}

/// The human-readable size of `bytes` (`1.5 KB`, `3.2 MB`, `1.25 GB`, `512 B`).
pub fn fmt_size(bytes: u64) -> (r: String)
    ensures
        r@ == size_text(bytes as nat),
{
    let mut out: Vec<char>;
    if bytes < 1024 {
        out = decimal_exec(bytes);
        out.push(' ');
        out.push('B');
    } else if bytes < 1048576 {
        let t = rounded_div_exec(10 * (bytes as u128), 1024);
        out = fixed_point_exec(t, 1);
        out.push(' ');
        out.push('K');
        out.push('B');
    } else if bytes < 1073741824 {
        let t = rounded_div_exec(10 * (bytes as u128), 1048576);
        out = fixed_point_exec(t, 1);
        out.push(' ');
        out.push('M');
        out.push('B');
    } else {
        let f = as_f64_exec(bytes);
        let t = rounded_div_exec(100 * f, 1073741824);
        out = fixed_point_exec(t, 2);
        out.push(' ');
        out.push('G');
        out.push('B');
    }
    assert(out@ =~= size_text(bytes as nat));
    string_of(&out)
}

}
