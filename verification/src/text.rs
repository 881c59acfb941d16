//! Decimal text of the numbers that the CSV files carry.

use vstd::prelude::*;

verus! {

/// The character of a decimal digit.
pub open spec fn digit_char(d: int) -> char {
    (d + 48) as char
}

/// The decimal digits of `n`, most significant first, without leading zeros.
pub open spec fn digits_of(n: nat) -> Seq<char>
    decreases n,
{
    if n < 10 {
        seq![digit_char(n as int)]
    } else {
        digits_of(n / 10).push(digit_char((n % 10) as int))
    }
}

/// The text that Rust's `to_string` gives an integer: an optional minus sign
/// followed by the digits of its magnitude.
pub open spec fn int_text(n: int) -> Seq<char> {
    if n < 0 {
        seq!['-'] + digits_of((-n) as nat)
    } else {
        digits_of(n as nat)
    }
}

/// The lowest `width` decimal digits of `n`, padded with zeros on the left.
pub open spec fn padded_digits(n: nat, width: nat) -> Seq<char>
    decreases width,
{
    if width == 0 {
        Seq::empty()
    } else {
        padded_digits(n / 10, (width - 1) as nat).push(digit_char((n % 10) as int))
    }
}

/// A fraction `f / 10^w` with its trailing zero digits removed: the numerator
/// and the number of digits that remain.
pub open spec fn strip_trailing_zeros(f: nat, w: nat) -> (nat, nat)
    decreases w,
{
    if w > 0 && f % 10 == 0 {
        strip_trailing_zeros(f / 10, (w - 1) as nat)
    } else {
        (f, w)
    }
}

/// The shortest decimal text of `ppm / 1_000_000`, as Rust prints a float
/// that holds exactly this value: the integer part, then, when the fraction
/// is not zero, a point and the fraction's digits without trailing zeros.
pub open spec fn millionths_text(ppm: nat) -> Seq<char> {
    let whole = digits_of(ppm / 1_000_000);
    let (f, w) = strip_trailing_zeros(ppm % 1_000_000, 6);
    if w == 0 {
        whole
    } else {
        whole + seq!['.'] + padded_digits(f, w)
    }
}

/// The one-character text of a decimal digit.
fn digit_str(d: u64) -> (r: &'static str)
    requires
        d < 10,
    ensures
        r@ == seq![digit_char(d as int)],
{
    proof {
        reveal_strlit("0");
        reveal_strlit("1");
        reveal_strlit("2");
        reveal_strlit("3");
        reveal_strlit("4");
        reveal_strlit("5");
        reveal_strlit("6");
        reveal_strlit("7");
        reveal_strlit("8");
        reveal_strlit("9");
    }
    if d == 0 {
        "0"
    } else if d == 1 {
        "1"
    } else if d == 2 {
        "2"
    } else if d == 3 {
        "3"
    } else if d == 4 {
        "4"
    } else if d == 5 {
        "5"
    } else if d == 6 {
        "6"
    } else if d == 7 {
        "7"
    } else if d == 8 {
        "8"
    } else {
        "9"
    }
}

/// Appends the digits of `n` to `out`.
fn push_digits(out: &mut String, n: u64)
    ensures
        final(out)@ == old(out)@ + digits_of(n as nat),
    decreases n,
{
    if n >= 10 {
        push_digits(out, n / 10);
    }
    let s = digit_str(n % 10);
    out.append(s);
    assert(final(out)@ =~= old(out)@ + digits_of(n as nat));
}

/// Appends the lowest `width` digits of `n`, zero padded, to `out`.
fn push_padded(out: &mut String, n: u64, width: u64)
    ensures
        final(out)@ == old(out)@ + padded_digits(n as nat, width as nat),
    decreases width,
{
    if width > 0 {
        push_padded(out, n / 10, width - 1);
        let s = digit_str(n % 10);
        out.append(s);
    }
    assert(final(out)@ =~= old(out)@ + padded_digits(n as nat, width as nat));
}

/// The decimal text of an integer, as `to_string` writes it.
pub fn int_to_text(n: i64) -> (r: String)
    ensures
        r@ == int_text(n as int),
{
    let mut out = String::new();
    if n < 0 {
        out.append("-");
        proof {
            reveal_strlit("-");
        }
        let magnitude: u64 = if n == i64::MIN {
            9_223_372_036_854_775_808u64
        } else {
            (-n) as u64
        };
        push_digits(&mut out, magnitude);
    } else {
        push_digits(&mut out, n as u64);
    }
    assert(out@ =~= int_text(n as int));
    out
}

/// The decimal text of an unsigned integer.
pub fn uint_to_text(n: u64) -> (r: String)
    ensures
        r@ == int_text(n as int),
{
    let mut out = String::new();
    push_digits(&mut out, n);
    assert(out@ =~= int_text(n as int));
    out
}

/// `n` as exactly `width` zero-padded digits.
pub fn padded_to_text(n: u64, width: u64) -> (r: String)
    ensures
        r@ == padded_digits(n as nat, width as nat),
{
    let mut out = String::new();
    push_padded(&mut out, n, width);
    assert(out@ =~= padded_digits(n as nat, width as nat));
    out
}

/// The text of the fraction `ppm / 1_000_000`, as Rust prints the float of
/// that value.
pub fn millionths_to_text(ppm: u32) -> (r: String)
    ensures
        r@ == millionths_text(ppm as nat),
{
    let mut out = String::new();
    push_digits(&mut out, (ppm / 1_000_000) as u64);
    let mut f: u64 = (ppm % 1_000_000) as u64;
    let mut w: u64 = 6;
    while w > 0 && f % 10 == 0
        invariant
            w <= 6,
            strip_trailing_zeros(f as nat, w as nat) == strip_trailing_zeros(
                (ppm % 1_000_000) as nat,
                6,
            ),
        decreases w,
    {
        f = f / 10;
        w = w - 1;
    }
    if w > 0 {
        out.append(".");
        proof {
            reveal_strlit(".");
        }
        push_padded(&mut out, f, w);
    }
    assert(out@ =~= millionths_text(ppm as nat));
    out
}

} // verus!
