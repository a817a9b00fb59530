//! Numbers, bytes and strings as text.

use vstd::prelude::*;

verus! {

/// The digits of a number.
pub open spec fn decimal(number: nat) -> Seq<char>
    decreases number,
{
    let digit = ('0' as int + number % 10) as char;
    if number < 10 {
        seq![digit]
    } else {
        decimal(number / 10).push(digit)
    }
}

/// The digit of a number below ten.
fn digit_text(number: u16) -> (text: &'static str)
    requires
        number < 10,
    ensures
        text@ == decimal(number as nat),
{
    proof {
        reveal_strlit("0");
        reveal_strlit("1");
        reveal_strlit("2");
        reveal_strlit("3");
        reveal_strlit("4");
        reveal_strlit("5");
        reveal_strlit("6");
        reveal_strlit("7");
        reveal_strlit("8");
        reveal_strlit("9");
    }
    let text = match number {
        0 => "0",
        1 => "1",
        2 => "2",
        3 => "3",
        4 => "4",
        5 => "5",
        6 => "6",
        7 => "7",
        8 => "8",
        _ => "9",
    };
    assert(text@ =~= decimal(number as nat));
    text
}

/// Writes a number in decimal digits.
pub fn decimal_text(number: u16) -> (text: String)
    ensures
        text@ == decimal(number as nat),
    decreases number,
{
    if number < 10 {
        String::from_str(digit_text(number))
    } else {
        let mut text = decimal_text(number / 10);
        text.append(digit_text(number % 10));
        assert(text@ =~= decimal(number as nat));
        text
    }
}

/// Bytes as decimal numbers, separated by commas.
pub open spec fn byte_list(bytes: Seq<u8>) -> Seq<char>
    decreases bytes.len(),
{
    if bytes.len() == 0 {
        seq![]
    } else if bytes.len() == 1 {
        decimal(bytes[0] as nat)
    } else {
        byte_list(bytes.drop_last()) + ", "@ + decimal(bytes.last() as nat)
    }
}

/// Writes out bytes as decimal numbers, separated by commas.
pub fn write_byte_list(bytes: &[u8]) -> (text: String)
    ensures
        text@ == byte_list(bytes@),
{
    let mut text = String::new();
    let mut i: usize = 0;
    assert(text@ =~= byte_list(bytes@.take(0)));
    while i < bytes.len()
        invariant
            i <= bytes@.len(),
            text@ == byte_list(bytes@.take(i as int)),
        decreases bytes@.len() - i,
    {
        if i > 0 {
            text.append(", ");
        }
        let digits = decimal_text(bytes[i] as u16);
        text.append(digits.as_str());
        proof {
            assert(bytes@.take(i + 1).drop_last() =~= bytes@.take(i as int));
            assert(text@ =~= byte_list(bytes@.take(i + 1)));
        }
        i += 1;
    }
    assert(bytes@.take(i as int) =~= bytes@);
    text
}

/// The text that the `Debug` form of a string of the standard library has.
pub uninterp spec fn quoted(text: Seq<char>) -> Seq<char>;

/// Calls `fmt` of `Debug` of the standard library on a string. The form is named and not stated: it
/// is the string in double quotes, in which the characters that do not print are escaped.
#[verifier::external_body]
pub(crate) fn quote(text: &str) -> (form: String)
    ensures
        form@ == quoted(text@),
{
    format!("{text:?}")
}

/// The number that digits stand for.
pub open spec fn digits_value(digits: Seq<char>) -> nat
    decreases digits.len(),
{
    if digits.len() == 0 {
        0
    } else {
        (10 * digits_value(digits.drop_last()) + (digits.last() as int - '0' as int)) as nat
    }
}

/// The digits of a number stand for it, and there is no leading zero but in zero itself.
pub proof fn digits_stand_for_their_number(number: nat)
    ensures
        digits_value(decimal(number)) == number,
        decimal(number).len() > 0,
        forall|i: int|
            0 <= i < decimal(number).len() ==> '0' <= #[trigger] decimal(number)[i] && decimal(
                number,
            )[i] <= '9',
        number > 0 ==> decimal(number)[0] != '0',
    decreases number,
{
    let digits = decimal(number);
    if number < 10 {
        assert(digits.drop_last() =~= seq![]);
        assert(digits_value(seq![]) == 0);
    } else {
        let before = number / 10;
        digits_stand_for_their_number(before);
        assert(digits.drop_last() =~= decimal(before));
    }
}

/// A number is written with the digits that stand for it.
pub proof fn a_number_is_written_with_its_digits(number: u16, text: String)
    requires
        call_ensures(decimal_text, (number,), text),
    ensures
        digits_value(text@) == number,
        text@.len() > 0,
        forall|i: int| 0 <= i < text@.len() ==> '0' <= #[trigger] text@[i] && text@[i] <= '9',
        number > 0 ==> text@[0] != '0',
{
    digits_stand_for_their_number(number as nat);
}

/// A list with one more byte is the list, a comma and the byte in digits; nothing is written of no
/// bytes.
pub proof fn a_further_byte_is_written_behind_a_comma(
    bytes: &[u8],
    text: String,
    more: &[u8],
    longer: String,
)
    requires
        call_ensures(write_byte_list, (bytes,), text),
        call_ensures(write_byte_list, (more,), longer),
        more@.len() > 0,
        more@.drop_last() == bytes@,
    ensures
        bytes@.len() == 0 ==> text@.len() == 0 && digits_value(longer@) == more@.last(),
        bytes@.len() > 0 ==> longer@.len() > text@.len() + 2 && longer@.take(text@.len() as int)
            == text@ && longer@[text@.len() as int] == ',' && longer@[text@.len() as int + 1] == ' '
            && digits_value(longer@.skip(text@.len() as int + 2)) == more@.last(),
{
    reveal_strlit(", ");
    let digits = decimal(more@.last() as nat);
    digits_stand_for_their_number(more@.last() as nat);
    if bytes@.len() > 0 {
        assert(longer@ == text@ + ", "@ + digits);
        assert(longer@.take(text@.len() as int) =~= text@);
        assert(longer@.skip(text@.len() as int + 2) =~= digits);
    }
}

} // verus!
