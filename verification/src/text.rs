//! Numbers as text, for error details.

use vstd::prelude::*;

verus! {

/// The character of a digit in base 10 or 16.
pub open spec fn digit(value: int) -> char {
    if value < 10 {
        ('0' as int + value) as char
    } else {
        ('A' as int + value - 10) as char
    }
}

/// `value` in base 10, without leading zeros.
pub open spec fn decimal(value: nat) -> Seq<char>
    decreases value,
{
    if value < 10 {
        seq![digit(value as int)]
    } else {
        decimal(value / 10).push(digit((value % 10) as int))
    }
}

/// The three low hexadecimal digits of `value`, in upper case.
pub open spec fn hex3(value: int) -> Seq<char> {
    seq![digit(value / 0x100 % 0x10), digit(value / 0x10 % 0x10), digit(value % 0x10)]
}

fn digit_text(value: usize) -> (text: &'static str)
    requires
        value < 0x10,
    ensures
        text@ == seq![digit(value as int)],
{
    proof {
        reveal_strlit("0");
        reveal_strlit("1");
        reveal_strlit("2");
        reveal_strlit("3");
        reveal_strlit("4");
        reveal_strlit("5");
        reveal_strlit("6");
        reveal_strlit("7");
        reveal_strlit("8");
        reveal_strlit("9");
        reveal_strlit("A");
        reveal_strlit("B");
        reveal_strlit("C");
        reveal_strlit("D");
        reveal_strlit("E");
        reveal_strlit("F");
    }
    let text = match value {
        0 => "0",
        1 => "1",
        2 => "2",
        3 => "3",
        4 => "4",
        5 => "5",
        6 => "6",
        7 => "7",
        8 => "8",
        9 => "9",
        10 => "A",
        11 => "B",
        12 => "C",
        13 => "D",
        14 => "E",
        _ => "F",
    };
    assert(text@ =~= seq![digit(value as int)]);
    text
}

/// Append `value` in base 10.
pub fn push_decimal(text: &mut String, value: usize)
    ensures
        final(text)@ == old(text)@ + decimal(value as nat),
    decreases value,
{
    let ghost before = text@;
    if value >= 10 {
        push_decimal(text, value / 10);
    }
    text.append(digit_text(value % 10));
    assert(text@ =~= before + decimal(value as nat));
}

/// Append the three low hexadecimal digits of `value`.
pub fn push_hex3(text: &mut String, value: u16)
    ensures
        final(text)@ == old(text)@ + hex3(value as int),
{
    let ghost before = text@;
    text.append(digit_text((value / 0x100 % 0x10) as usize));
    text.append(digit_text((value / 0x10 % 0x10) as usize));
    text.append(digit_text((value % 0x10) as usize));
    assert(text@ =~= before + hex3(value as int));
}

/// The number that a text of decimal digits stands for.
pub open spec fn number(text: Seq<char>) -> int
    decreases text.len(),
{
    if text.len() == 0 {
        0
    } else {
        10 * number(text.drop_last()) + (text.last() as int - '0' as int)
    }
}

/// A number is written in decimal digits that stand for it, and starts with a
/// zero only where it is less than ten.
pub proof fn decimals_read_back(value: nat)
    ensures
        number(decimal(value)) == value,
        decimal(value).len() > 0,
        forall|i: int|
            0 <= i < decimal(value).len() ==> '0' as int <= #[trigger] decimal(value)[i] as int
                <= '9' as int,
        value >= 10 ==> decimal(value)[0] != '0',
    decreases value,
{
    if value >= 10 {
        decimals_read_back(value / 10);
        assert(decimal(value).drop_last() =~= decimal(value / 10));
    } else {
        assert(number(decimal(value).drop_last()) == 0);
    }
}

/// What a hexadecimal digit in upper case stands for.
pub open spec fn weight(c: char) -> int {
    if '0' as int <= c as int <= '9' as int {
        c as int - '0' as int
    } else if 'A' as int <= c as int <= 'F' as int {
        c as int - 'A' as int + 10
    } else {
        -1
    }
}

/// A number below 0x1000 is written in three hexadecimal digits, in upper case,
/// that stand for it.
pub proof fn hexadecimals_read_back(value: int)
    requires
        0 <= value < 0x1000,
    ensures
        hex3(value).len() == 3,
        forall|i: int| 0 <= i < 3 ==> 0 <= weight(#[trigger] hex3(value)[i]) < 16,
        0x100 * weight(hex3(value)[0]) + 0x10 * weight(hex3(value)[1]) + weight(hex3(value)[2])
            == value,
{
}

} // verus!
