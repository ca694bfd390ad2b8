//! Number formatting for listings: upper-case hexadecimal with a minimum
//! width, and plain decimal.

use vstd::prelude::*;
use vstd::string::*;

verus! {

/// The sixteen hexadecimal digits, upper case.
pub open spec fn hex_digits() -> Seq<char> {
    seq!['0', '1', '2', '3', '4', '5', '6', '7', '8', '9', 'A', 'B', 'C', 'D', 'E', 'F']
}

/// The character for one digit below sixteen.
pub open spec fn hex_char(d: nat) -> char {
    hex_digits()[d as int]
}

/// `value` in upper-case hexadecimal, most significant digit first, padded
/// with zeros on the left to at least `width` digits. A value that needs more
/// digits than `width` gets them all; zero with width 0 is the single digit 0.
pub open spec fn hex_upper(value: nat, width: nat) -> Seq<char>
    decreases value, width,
{
    if value < 16 && width <= 1 {
        seq![hex_char(value)]
    } else {
        hex_upper(
            value / 16,
            if width > 0 {
                (width - 1) as nat
            } else {
                0
            },
        ).push(hex_char(value % 16))
    }
}

/// `value` in decimal, without padding.
pub open spec fn decimal(value: nat) -> Seq<char>
    decreases value,
{
    if value < 10 {
        seq![hex_char(value)]
    } else {
        decimal(value / 10).push(hex_char(value % 10))
    }
}

/// A hexadecimal rendering is never empty.
pub proof fn lemma_hex_nonempty(value: nat, width: nat)
    ensures
        hex_upper(value, width).len() >= 1,
{
}

/// A decimal rendering is never empty.
pub proof fn lemma_decimal_nonempty(value: nat)
    ensures
        decimal(value).len() >= 1,
    decreases value,
{
    if value >= 10 {
        lemma_decimal_nonempty(value / 10);
    }
}

/// The one-character string for a digit below sixteen.
fn digit_str(d: u64) -> (r: &'static str)
    requires
        d < 16,
    ensures
        r@ == seq![hex_char(d as nat)],
{
    proof {
        reveal_strlit("0");
        reveal_strlit("1");
        reveal_strlit("2");
        reveal_strlit("3");
        reveal_strlit("4");
        reveal_strlit("5");
        reveal_strlit("6");
        reveal_strlit("7");
        reveal_strlit("8");
        reveal_strlit("9");
        reveal_strlit("A");
        reveal_strlit("B");
        reveal_strlit("C");
        reveal_strlit("D");
        reveal_strlit("E");
        reveal_strlit("F");
    }
    let r = match d {
        0 => "0",
        1 => "1",
        2 => "2",
        3 => "3",
        4 => "4",
        5 => "5",
        6 => "6",
        7 => "7",
        8 => "8",
        9 => "9",
        10 => "A",
        11 => "B",
        12 => "C",
        13 => "D",
        14 => "E",
        _ => "F",
    };
    assert(r@ =~= seq![hex_char(d as nat)]);
    r
}

/// Appends `value` in upper-case hexadecimal, at least `width` digits wide.
pub fn push_hex(out: &mut String, value: u64, width: u32)
    ensures
        final(out)@ == old(out)@ + hex_upper(value as nat, width as nat),
    decreases value, width,
{
    if value < 16 && width <= 1 {
        out.append(digit_str(value));
        assert(out@ =~= old(out)@ + hex_upper(value as nat, width as nat));
    } else {
        let rest: u32 = if width > 0 {
            width - 1
        } else {
            0
        };
        push_hex(out, value / 16, rest);
        out.append(digit_str(value % 16));
        assert(out@ =~= old(out)@ + hex_upper(value as nat, width as nat));
    }
}

/// Appends `value` in decimal.
pub fn push_decimal(out: &mut String, value: u64)
    ensures
        final(out)@ == old(out)@ + decimal(value as nat),
    decreases value,
{
    if value < 10 {
        out.append(digit_str(value));
        assert(out@ =~= old(out)@ + decimal(value as nat));
    } else {
        push_decimal(out, value / 10);
        out.append(digit_str(value % 10));
        assert(out@ =~= old(out)@ + decimal(value as nat));
    }
}

} // verus!
