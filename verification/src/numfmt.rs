//! Decimal rendering of the integers that appear in the compiled action
//! string and in the JSON logs, and of the fixed-point normalized cursor
//! coordinates.

use vstd::prelude::*;

use crate::snapshot::NORM_SCALE;

verus! {

/// The decimal digit character of `d`.
pub open spec fn digit_char(d: nat) -> char {
    if d == 0 {
        '0'
    } else if d == 1 {
        '1'
    } else if d == 2 {
        '2'
    } else if d == 3 {
        '3'
    } else if d == 4 {
        '4'
    } else if d == 5 {
        '5'
    } else if d == 6 {
        '6'
    } else if d == 7 {
        '7'
    } else if d == 8 {
        '8'
    } else {
        '9'
    }
}

/// The decimal digits of `n`, most significant first, no sign and no
/// leading zero except for zero itself.
pub open spec fn dec_digits(n: nat) -> Seq<char>
    decreases n,
{
    if n < 10 {
        seq![digit_char(n)]
    } else {
        dec_digits(n / 10) + seq![digit_char(n % 10)]
    }
}

/// The decimal rendering of `v`, with a leading minus when negative.
pub open spec fn dec_int(v: int) -> Seq<char> {
    if v < 0 {
        seq!['-'] + dec_digits((-v) as nat)
    } else {
        dec_digits(v as nat)
    }
}

/// The decimal digit of `d` as a string slice.
fn digit_str(d: u64) -> (r: &'static str)
    requires
        d < 10,
    ensures
        r@ =~= seq![digit_char(d as nat)],
{
    if d == 0 {
        proof { reveal_strlit("0"); }
        "0"
    } else if d == 1 {
        proof { reveal_strlit("1"); }
        "1"
    } else if d == 2 {
        proof { reveal_strlit("2"); }
        "2"
    } else if d == 3 {
        proof { reveal_strlit("3"); }
        "3"
    } else if d == 4 {
        proof { reveal_strlit("4"); }
        "4"
    } else if d == 5 {
        proof { reveal_strlit("5"); }
        "5"
    } else if d == 6 {
        proof { reveal_strlit("6"); }
        "6"
    } else if d == 7 {
        proof { reveal_strlit("7"); }
        "7"
    } else if d == 8 {
        proof { reveal_strlit("8"); }
        "8"
    } else {
        proof { reveal_strlit("9"); }
        "9"
    }
}

/// `n` in decimal.
pub fn u64_to_string(n: u64) -> (s: String)
    ensures
        s@ == dec_digits(n as nat),
    decreases n,
{
    if n < 10 {
        String::from_str(digit_str(n))
    } else {
        let mut s = u64_to_string(n / 10);
        s.append(digit_str(n % 10));
        s
    }
}

/// `v` in decimal, with a leading minus when negative.
pub fn i64_to_string(v: i64) -> (s: String)
    ensures
        s@ == dec_int(v as int),
{
    if v < 0 {
        let mag: u64 = if v == i64::MIN {
            9223372036854775808
        } else {
            (0 - v) as u64
        };
        proof {
            reveal_strlit("-");
        }
        let mut s = String::from_str("-");
        s.append(u64_to_string(mag).as_str());
        proof {
            assert(s@ =~= seq!['-'] + dec_digits((-(v as int)) as nat));
        }
        s
    } else {
        u64_to_string(v as u64)
    }
}

/// `v` in decimal, with a leading minus when negative.
pub fn i32_to_string(v: i32) -> (s: String)
    ensures
        s@ == dec_int(v as int),
{
    i64_to_string(v as i64)
}

/// Ten to the `e`.
pub open spec fn p10(e: nat) -> nat {
    vstd::arithmetic::power::pow(10, e) as nat
}

/// The lowest `width` decimal digits of `f`, zero-padded to `width`.
pub open spec fn dec_digits_fixed(f: nat, width: nat) -> Seq<char>
    decreases width,
{
    if width == 0 {
        Seq::empty()
    } else {
        dec_digits_fixed(f / 10, (width - 1) as nat) + seq![digit_char(f % 10)]
    }
}

/// Trailing zeros dropped, but at least one digit kept.
pub open spec fn strip_trailing_zeros(s: Seq<char>) -> Seq<char>
    decreases s.len(),
{
    if s.len() > 1 && s.last() == '0' {
        strip_trailing_zeros(s.drop_last())
    } else {
        s
    }
}

/// The decimal rendering of a fixed-point normalized coordinate: the
/// integer part, a point, and the fraction with trailing zeros dropped,
/// as `0.5` for half of [`NORM_SCALE`].
pub open spec fn norm_chars(v: nat) -> Seq<char> {
    dec_digits(v / (NORM_SCALE as nat)) + seq!['.'] + strip_trailing_zeros(
        dec_digits_fixed(v % (NORM_SCALE as nat), 6),
    )
}

/// A normalized coordinate in decimal, as `0.5` for half of [`NORM_SCALE`].
pub fn norm_to_string(v: u32) -> (s: String)
    ensures
        s@ == norm_chars(v as nat),
{
    let int_part: u32 = v / NORM_SCALE;
    let mut frac: u32 = v % NORM_SCALE;
    // Width of the fraction after dropping trailing zeros.
    let mut width: u64 = 6;
    while width > 1 && frac % 10 == 0
        invariant
            1 <= width <= 6,
            strip_trailing_zeros(dec_digits_fixed((v % NORM_SCALE) as nat, 6))
                == strip_trailing_zeros(dec_digits_fixed(frac as nat, width as nat)),
            frac < 1000000,
        decreases width,
    {
        proof {
            lemma_fixed_len(frac as nat, width as nat);
            assert(dec_digits_fixed(frac as nat, width as nat)
                == dec_digits_fixed((frac / 10) as nat, (width - 1) as nat)
                + seq![digit_char((frac % 10) as nat)]);
            assert(dec_digits_fixed(frac as nat, width as nat).last() == digit_char(
                (frac % 10) as nat,
            ));
            assert(dec_digits_fixed(frac as nat, width as nat).drop_last() =~= dec_digits_fixed(
                (frac / 10) as nat,
                (width - 1) as nat,
            ));
        }
        frac = frac / 10;
        width = width - 1;
    }
    proof {
        lemma_fixed_no_trailing_zero(frac as nat, width as nat);
    }
    let mut s = u64_to_string(int_part as u64);
    s.append(".");
    proof {
        reveal_strlit(".");
    }
    let mut digits: u64 = width;
    proof {
        reveal_with_fuel(vstd::arithmetic::power::pow, 7);
        assert(dec_digits_fixed((frac as nat) / p10(width as nat), 0nat) =~= Seq::<char>::empty());
        assert(s@ =~= dec_digits((v / NORM_SCALE) as nat) + seq!['.'] + dec_digits_fixed(
            (frac as nat) / p10(width as nat),
            0,
        ));
    }
    // Emit the remaining fraction digits, most significant first.
    while digits > 0
        invariant
            digits <= width <= 6,
            frac < 1000000,
            strip_trailing_zeros(dec_digits_fixed((v % NORM_SCALE) as nat, 6)) == dec_digits_fixed(
                frac as nat,
                width as nat,
            ),
            s@ == dec_digits((v / NORM_SCALE) as nat) + seq!['.'] + dec_digits_fixed(
                (frac as nat) / p10(digits as nat),
                (width - digits) as nat,
            ),
        decreases digits,
    {
        let divisor = pow10(digits - 1);
        let d = (frac / divisor as u32) % 10;
        s.append(digit_str(d as u64));
        proof {
            lemma_fixed_step(frac as nat, digits as nat, (width - digits) as nat);
            assert(d as nat == ((frac as nat) / p10((digits - 1) as nat)) % 10);
            assert(s@ =~= dec_digits((v / NORM_SCALE) as nat) + seq!['.'] + dec_digits_fixed(
                (frac as nat) / p10((digits - 1) as nat),
                (width - digits + 1) as nat,
            ));
        }
        digits = digits - 1;
    }
    proof {
        reveal_with_fuel(vstd::arithmetic::power::pow, 1);
        assert(p10(0) == 1);
        assert((frac as nat) / 1 == frac as nat);
        assert(strip_trailing_zeros(dec_digits_fixed(frac as nat, width as nat))
            == dec_digits_fixed(frac as nat, width as nat));
    }
    s
}

/// Ten to the `e`, for exponents that fit a u32 range of digits.
fn pow10(e: u64) -> (r: u64)
    requires
        e <= 6,
    ensures
        r == p10(e as nat),
        1 <= r <= 1000000,
{
    proof {
        reveal_with_fuel(vstd::arithmetic::power::pow, 7);
        assert(p10(1) == 10);
        assert(p10(2) == 100);
        assert(p10(3) == 1000);
        assert(p10(4) == 10000);
        assert(p10(5) == 100000);
        assert(p10(6) == 1000000);
    }
    if e == 0 {
        1
    } else if e == 1 {
        10
    } else if e == 2 {
        100
    } else if e == 3 {
        1000
    } else if e == 4 {
        10000
    } else if e == 5 {
        100000
    } else {
        1000000
    }
}

/// A fraction that is not a multiple of ten (or of width one) keeps all
/// its digits when trailing zeros are dropped.
proof fn lemma_fixed_no_trailing_zero(f: nat, width: nat)
    requires
        width >= 1,
        width > 1 ==> f % 10 != 0,
    ensures
        strip_trailing_zeros(dec_digits_fixed(f, width)) == dec_digits_fixed(f, width),
{
    let s = dec_digits_fixed(f, width);
    assert(s == dec_digits_fixed(f / 10, (width - 1) as nat) + seq![digit_char(f % 10)]);
    assert(s.len() == width) by {
        lemma_fixed_len(f, width);
    }
    if width > 1 {
        assert(s.last() == digit_char(f % 10));
        assert(digit_char(f % 10) != '0');
    }
}

/// `dec_digits_fixed` renders exactly `width` characters.
proof fn lemma_fixed_len(f: nat, width: nat)
    ensures
        dec_digits_fixed(f, width).len() == width,
    decreases width,
{
    if width > 0 {
        lemma_fixed_len(f / 10, (width - 1) as nat);
    }
}

/// Peeling the most significant of the remaining `digits` digits off the
/// fixed-width rendering appends that digit's character.
proof fn lemma_fixed_step(f: nat, digits: nat, done: nat)
    requires
        digits >= 1,
    ensures
        dec_digits_fixed(f / p10((digits - 1) as nat), (done + 1) as nat) == dec_digits_fixed(
            f / p10(digits),
            done,
        ) + seq![digit_char((f / p10((digits - 1) as nat)) % 10)],
{
    let p1 = p10((digits - 1) as nat);
    let p = p10(digits);
    reveal_with_fuel(vstd::arithmetic::power::pow, 2);
    assert(vstd::arithmetic::power::pow(10, digits) == 10 * vstd::arithmetic::power::pow(
        10,
        (digits - 1) as nat,
    ));
    vstd::arithmetic::power::lemma_pow_positive(10, (digits - 1) as nat);
    assert(p1 > 0);
    assert(p == 10 * p1);
    assert((f / p1) / 10 == f / p) by {
        vstd::arithmetic::div_mod::lemma_div_denominator(f as int, p1 as int, 10);
    }
    assert(dec_digits_fixed(f / p1, (done + 1) as nat) == dec_digits_fixed((f / p1) / 10, done)
        + seq![digit_char((f / p1) % 10)]);
}

} // verus!
