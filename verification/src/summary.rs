//! The per-file summary line: path, byte count, and the count in KiB and
//! MiB with four decimal places.
//!
//! The KiB and MiB figures are the exact quotients by 1024 and 1048576,
//! rounded to four decimal places with ties to even, which is how the
//! runtime formats the (exactly representable) binary fractions these
//! quotients are.

use vstd::prelude::*;
use vstd::string::StringSliceAdditionalSpecFns;

verus! {

/// The decimal digit character for `n`.
pub open spec fn dec_digit(n: u8) -> u8
    recommends
        n < 10,
{
    (0x30 + n) as u8
}

/// The decimal numeral of `v`, most significant digit first, no padding.
pub open spec fn dec_rep(v: nat) -> Seq<u8>
    decreases v,
{
    if v < 10 {
        seq![dec_digit(v as u8)]
    } else {
        dec_rep(v / 10) + seq![dec_digit((v % 10) as u8)]
    }
}

/// The decimal numeral of `v` written with exactly `digits` digits, zero
/// padded; a width too small keeps only the low digits.
pub open spec fn dec_rep_pad(v: nat, digits: nat) -> Seq<u8>
    decreases digits,
{
    if digits == 0 {
        Seq::empty()
    } else {
        dec_rep_pad(v / 10, (digits - 1) as nat) + seq![dec_digit((v % 10) as u8)]
    }
}

/// `num / den` rounded to the nearest integer, ties to even.
pub open spec fn round_half_even(num: nat, den: nat) -> nat
    recommends
        den > 0,
{
    let q = num / den;
    let r = num % den;
    if 2 * r > den || (2 * r == den && q % 2 == 1) {
        q + 1
    } else {
        q
    }
}

/// The quotient `num / den` written with four decimal places.
pub open spec fn fixed4_rep(num: nat, den: nat) -> Seq<u8>
    recommends
        den > 0,
{
    let scaled = round_half_even(num * 10000, den);
    dec_rep(scaled / 10000) + ".".spec_bytes() + dec_rep_pad(scaled % 10000, 4)
}

/// The summary for a file at `path` of which `total` bytes were dumped: a
/// blank line, then the path, the byte count, and the count in KiB and MiB.
pub open spec fn summary_rep(path: Seq<u8>, total: nat) -> Seq<u8> {
    "\n".spec_bytes() + path + ": ".spec_bytes() + dec_rep(total) + " bytes, ".spec_bytes()
        + fixed4_rep(total, 1024) + " KiB ".spec_bytes() + fixed4_rep(total, 1048576)
        + " MiB\n".spec_bytes()
}

/// Appends the decimal numeral of `v`.
fn push_dec(out: &mut Vec<u8>, v: u128)
    ensures
        final(out)@ == old(out)@ + dec_rep(v as nat),
    decreases v,
{
    if v < 10 {
        out.push(0x30 + v as u8);
        assert(old(out)@ + dec_rep(v as nat) =~= old(out)@.push(dec_digit(v as u8)));
    } else {
        push_dec(out, v / 10);
        out.push(0x30 + (v % 10) as u8);
        assert(old(out)@ + dec_rep(v as nat) =~= (old(out)@ + dec_rep((v / 10) as nat)).push(
            dec_digit((v % 10) as u8),
        ));
    }
}

/// Appends the decimal numeral of `v`, zero padded to exactly `digits`.
fn push_dec_pad(out: &mut Vec<u8>, v: u128, digits: usize)
    ensures
        final(out)@ == old(out)@ + dec_rep_pad(v as nat, digits as nat),
    decreases digits,
{
    if digits > 0 {
        push_dec_pad(out, v / 10, digits - 1);
        out.push(0x30 + (v % 10) as u8);
        assert(old(out)@ + dec_rep_pad(v as nat, digits as nat) =~= (old(out)@ + dec_rep_pad(
            (v / 10) as nat,
            (digits - 1) as nat,
        )).push(dec_digit((v % 10) as u8)));
    } else {
        assert(old(out)@ + dec_rep_pad(v as nat, 0) =~= old(out)@);
    }
}

/// Appends `num / den` with four decimal places.
fn push_fixed4(out: &mut Vec<u8>, num: u64, den: u64)
    requires
        den > 0,
    ensures
        final(out)@ == old(out)@ + fixed4_rep(num as nat, den as nat),
{
    let scaled_num: u128 = num as u128 * 10000;
    let d: u128 = den as u128;
    let q: u128 = scaled_num / d;
    let r: u128 = scaled_num % d;
    let scaled: u128 = if 2 * r > d || (2 * r == d && q % 2 == 1) {
        q + 1
    } else {
        q
    };
    assert(scaled == round_half_even((num * 10000) as nat, den as nat));
    push_dec(out, scaled / 10000);
    crate::render::push_bytes(out, ".".as_bytes());
    push_dec_pad(out, scaled % 10000, 4);
}

/// Builds the summary line for a dumped file.
pub fn summary_line(path: &str, total: u64) -> (out: Vec<u8>)
    ensures
        out@ == summary_rep(path.spec_bytes(), total as nat),
{
    let mut out: Vec<u8> = Vec::new();
    crate::render::push_bytes(&mut out, "\n".as_bytes());
    crate::render::push_bytes(&mut out, path.as_bytes());
    crate::render::push_bytes(&mut out, ": ".as_bytes());
    push_dec(&mut out, total as u128);
    crate::render::push_bytes(&mut out, " bytes, ".as_bytes());
    push_fixed4(&mut out, total, 1024);
    crate::render::push_bytes(&mut out, " KiB ".as_bytes());
    push_fixed4(&mut out, total, 1048576);
    crate::render::push_bytes(&mut out, " MiB\n".as_bytes());
    out
}

} // verus!
