//! Human-readable byte counts.
use vstd::prelude::*;
use crate::text::{decimal, decimal_digit, format_decimal, push_char};

verus! {

pub const KIB: u64 = 1024;
pub const MIB: u64 = 1048576;
pub const GIB: u64 = 1073741824;

/// `n / d` rounded to the nearest integer, halves to the even neighbour.
pub open spec fn rounded_ratio(n: nat, d: nat) -> nat
    recommends
        d > 0,
{
    let q = n / d;
    let r = n % d;
    if 2 * r > d {
        q + 1
    } else if 2 * r < d {
        q
    } else if q % 2 == 0 {
        q
    } else {
        q + 1
    }
}

/// A count of hundredths written with two decimal places.
pub open spec fn two_places(h: nat) -> Seq<char> {
    decimal(h / 100) + seq!['.', decimal_digit((h % 100) / 10), decimal_digit(h % 10)]
}

/// The text for a byte count: bytes up to 1024, then KiB, MiB or GiB with
/// two decimals, the ratio rounded to nearest and halves to even.
pub open spec fn humanised(b: nat) -> Seq<char> {
    if b > GIB {
        two_places(rounded_ratio(b * 100, GIB as nat)) + seq!['G', 'i', 'B']
    } else if b > MIB {
        two_places(rounded_ratio(b * 100, MIB as nat)) + seq!['M', 'i', 'B']
    } else if b > KIB {
        two_places(rounded_ratio(b * 100, KIB as nat)) + seq!['K', 'i', 'B']
    } else {
        decimal(b) + seq![' ', 'b', 'y', 't', 'e', 's']
    }
}

fn scaled(b: u64, unit: u64) -> (r: String)
    requires
        unit >= KIB,
    ensures
        r@ == two_places(rounded_ratio(b as nat * 100, unit as nat)),
{
    let n: u128 = b as u128 * 100;
    let d: u128 = unit as u128;
    let q: u128 = n / d;
    let rem: u128 = n % d;
    proof {
        assert(q * d <= n) by (nonlinear_arith)
            requires q == n / d, d > 0;
        assert(q * 1024 <= q * d) by (nonlinear_arith)
            requires d >= 1024;
    }
    let h: u128 = if 2 * rem > d {
        q + 1
    } else if 2 * rem < d {
        q
    } else if q % 2 == 0 {
        q
    } else {
        q + 1
    };
    assert(h == rounded_ratio(b as nat * 100, unit as nat));
    let whole: u64 = (h / 100) as u64;
    let frac: u128 = h % 100;
    let mut r = format_decimal(whole);
    push_char(&mut r, '.');
    push_char(&mut r, ((frac / 10) as u8 + 48) as char);
    push_char(&mut r, ((frac % 10) as u8 + 48) as char);
    assert(h % 10 == frac % 10);
    r
}

/// Renders a byte count for people: `"512 bytes"`, `"1.50KiB"`, `"2.00GiB"`.
pub fn humanise_bytes(b: u64) -> (r: String)
    ensures
        r@ == humanised(b as nat),
{
    let mut r;
    if b > GIB {
        r = scaled(b, GIB);
        push_char(&mut r, 'G');
    } else if b > MIB {
        r = scaled(b, MIB);
        push_char(&mut r, 'M');
    } else if b > KIB {
        r = scaled(b, KIB);
        push_char(&mut r, 'K');
    } else {
        r = format_decimal(b);
        push_char(&mut r, ' ');
        push_char(&mut r, 'b');
        push_char(&mut r, 'y');
        push_char(&mut r, 't');
        push_char(&mut r, 'e');
        push_char(&mut r, 's');
        return r;
    }
    push_char(&mut r, 'i');
    push_char(&mut r, 'B');
    r
}

} // verus!
