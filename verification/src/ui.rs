//! Rendering of byte counts for people.

use crate::text::decimal;
use crate::text::digit;
use crate::text::push_char;
use crate::text::push_decimal;
use crate::text::push_text;
use vstd::arithmetic::div_mod::lemma_div_denominator;
use vstd::prelude::*;

verus! {

/// Bytes in a kibibyte.
pub const KIB: u64 = 1024;

/// Bytes in a mebibyte.
pub const MIB: u64 = 1048576;

/// Bytes in a gibibyte.
pub const GIB: u64 = 1073741824;

/// Counts below this bound are held exactly by a double-precision number:
/// two to the power 53.
pub const EXACT_BOUND: u64 = 0x20_0000_0000_0000;

/// The spacing of double-precision numbers around `n`: one below
/// `EXACT_BOUND`, and doubling with each doubling of `n` beyond.
pub open spec fn granule(n: nat) -> nat
    decreases n,
{
    if n < EXACT_BOUND {
        1
    } else {
        2 * granule(n / 2)
    }
}

/// `n / d` rounded to the nearest integer, a tie going to the even one.
pub open spec fn round_half_even(n: nat, d: nat) -> nat {
    let q = n / d;
    let r = n % d;
    if 2 * r > d || (2 * r == d && q % 2 == 1) {
        q + 1
    } else {
        q
    }
}

/// The double-precision number nearest to `bytes`, a tie going to the one
/// with the even significand.
pub open spec fn as_double(bytes: u64) -> nat {
    round_half_even(bytes as nat, granule(bytes as nat)) * granule(bytes as nat)
}

/// The count in tenths of `unit`, rounded to the nearest tenth, a tie going
/// to the even one.
pub open spec fn tenths(bytes: u64, unit: u64) -> nat {
    round_half_even(10 * as_double(bytes), unit as nat)
}

/// The count in `unit` with one digit after the point.
pub open spec fn scaled(bytes: u64, unit: u64) -> Seq<char> {
    decimal(tenths(bytes, unit) / 10) + seq!['.', digit(tenths(bytes, unit) % 10)]
}

/// A byte count as people read it: in the largest of GiB, MiB and KiB that
/// it reaches, with one digit after the point, or in whole bytes below a
/// kibibyte.  The count is taken as a double-precision number, so beyond
/// `EXACT_BOUND` it is rounded to 53 significant bits before it is scaled.
pub open spec fn rendered(bytes: u64) -> Seq<char> {
    if bytes >= GIB {
        scaled(bytes, GIB) + " GiB"@
    } else if bytes >= MIB {
        scaled(bytes, MIB) + " MiB"@
    } else if bytes >= KIB {
        scaled(bytes, KIB) + " KiB"@
    } else {
        decimal(bytes as nat) + " B"@
    }
}

fn divide_half_even(n: u128, d: u128) -> (q: u128)
    requires
        0 < d <= u64::MAX,
        n < 0x1000_0000_0000_0000_0000,
    ensures
        q == round_half_even(n as nat, d as nat),
        q <= n / d + 1,
{
    let q: u128 = n / d;
    let r: u128 = n % d;
    if 2 * r > d || (2 * r == d && q % 2 == 1) {
        q + 1
    } else {
        q
    }
}

/// The double-precision number nearest to `bytes`.
fn nearest_double(bytes: u64) -> (value: u128)
    ensures
        value == as_double(bytes),
        value <= bytes + 4096,
{
    let mut unit: u64 = 1;
    let mut top: u64 = bytes;
    while top >= EXACT_BOUND
        invariant
            1 <= unit <= 4096,
            top == bytes / unit,
            top * unit <= bytes,
            granule(bytes as nat) == unit * granule(top as nat),
        decreases top,
    {
        proof {
            lemma_div_denominator(bytes as int, unit as int, 2);
            assert(unit * (2 * granule((top / 2) as nat)) == (unit * 2) * granule(
                (top / 2) as nat,
            )) by (nonlinear_arith);
            assert(unit < 2048) by (nonlinear_arith)
                requires
                    top >= 0x20_0000_0000_0000,
                    top * unit <= bytes,
                    bytes < 0x1_0000_0000_0000_0000,
                    unit >= 1,
            ;
            assert((top / 2) * (unit * 2) <= top * unit) by (nonlinear_arith)
                requires
                    top >= 0,
                    unit >= 1,
            ;
        }
        top = top / 2;
        unit = unit * 2;
    }
    assert(granule(bytes as nat) == unit) by (nonlinear_arith)
        requires
            granule(bytes as nat) == unit * granule(top as nat),
            granule(top as nat) == 1,
    ;
    let q: u128 = divide_half_even(bytes as u128, unit as u128);
    assert(q * unit <= bytes + 4096) by (nonlinear_arith)
        requires
            q <= top + 1,
            top * unit <= bytes,
            1 <= unit <= 4096,
    ;
    q * (unit as u128)
}

/// Appends the count in `unit` with one digit after the point.
fn push_scaled(text: &mut String, bytes: u64, unit: u64)
    requires
        unit >= KIB,
    ensures
        final(text)@ == old(text)@ + scaled(bytes, unit),
{
    let value: u128 = nearest_double(bytes);
    let t: u128 = divide_half_even(10 * value, unit as u128);
    assert(t <= u64::MAX) by (nonlinear_arith)
        requires
            t <= (10 * value) / (unit as int) + 1,
            value <= 0x1_0000_0000_0000_1000,
            unit >= 1024,
    ;
    let whole: u64 = (t / 10) as u64;
    let tenth: u8 = (t % 10) as u8;
    push_decimal(text, whole);
    push_char(text, '.');
    push_char(text, (tenth + 48) as char);
}

/// Namespace of the rendering functions.
pub struct UIRenderer;

impl UIRenderer {
    /// Renders a byte count in binary units: `"512 B"`, `"1.5 KiB"`,
    /// `"2.0 GiB"`.
    pub fn format_bytes(bytes: u64) -> (text: String)
        ensures
            text@ == rendered(bytes),
    {
        let mut text = String::new();
        if bytes >= GIB {
            push_scaled(&mut text, bytes, GIB);
            push_text(&mut text, " GiB");
        } else if bytes >= MIB {
            push_scaled(&mut text, bytes, MIB);
            push_text(&mut text, " MiB");
        } else if bytes >= KIB {
            push_scaled(&mut text, bytes, KIB);
            push_text(&mut text, " KiB");
        } else {
            push_decimal(&mut text, bytes);
            push_text(&mut text, " B");
        }
        text
    }
}

} // verus!
