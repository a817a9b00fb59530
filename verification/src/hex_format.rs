//! Bytes as hexadecimal text.

use vstd::prelude::*;

verus! {

/// The lowercase hexadecimal digit of a value below sixteen.
pub open spec fn hex_digit(value: int) -> char {
    if value < 10 {
        ('0' as int + value) as char
    } else {
        ('a' as int + value - 10) as char
    }
}

/// The bytes as text, two digits for each, the upper one first.
pub open spec fn hex_text(bytes: Seq<u8>) -> Seq<char> {
    Seq::new(
        2 * bytes.len(),
        |i: int|
            hex_digit(
                if i % 2 == 0 {
                    bytes[i / 2] as int / 16
                } else {
                    bytes[i / 2] as int % 16
                },
            ),
    )
}

/// Calls `encode` of the `hex` crate: it writes two lowercase digits for each byte.
#[verifier::external_body]
fn hex_encode(bytes: &[u8]) -> (text: String)
    ensures
        text@ == hex_text(bytes@),
{
    hex::encode(bytes)
}

/// The bytes as text with the prefix of hexadecimal numbers.
pub fn to_hex(bytes: &[u8]) -> (text: String)
    ensures
        text@ == "0x"@ + hex_text(bytes@),
{
    let mut text = String::from_str("0x");
    let digits = hex_encode(bytes);
    text.append(digits.as_str());
    text
}

/// The text tells the bytes: no two byte strings are written alike.
pub proof fn hex_text_tells_the_bytes(a: Seq<u8>, b: Seq<u8>)
    requires
        hex_text(a) == hex_text(b),
    ensures
        a == b,
{
    assert(hex_text(a).len() == 2 * a.len() && hex_text(b).len() == 2 * b.len());
    assert forall|i: int| 0 <= i < a.len() implies a[i] == b[i] by {
        assert(hex_text(a)[2 * i] == hex_text(b)[2 * i]);
        assert(hex_text(a)[2 * i + 1] == hex_text(b)[2 * i + 1]);
        assert((2 * i) / 2 == i && (2 * i) % 2 == 0);
        assert((2 * i + 1) / 2 == i && (2 * i + 1) % 2 == 1);
        assert(hex_text(a)[2 * i] == hex_digit(a[i] as int / 16));
        assert(hex_text(b)[2 * i] == hex_digit(b[i] as int / 16));
        assert(hex_text(a)[2 * i + 1] == hex_digit(a[i] as int % 16));
        assert(hex_text(b)[2 * i + 1] == hex_digit(b[i] as int % 16));
        lemma_digits_differ(a[i] as int / 16, b[i] as int / 16);
        lemma_digits_differ(a[i] as int % 16, b[i] as int % 16);
    }
    assert(a =~= b);
}

proof fn lemma_digits_differ(a: int, b: int)
    requires
        0 <= a < 16,
        0 <= b < 16,
        hex_digit(a) == hex_digit(b),
    ensures
        a == b,
{
}

/// The value of a hexadecimal digit.
pub open spec fn digit_value(digit: char) -> int {
    if '0' <= digit && digit <= '9' {
        digit as int - '0' as int
    } else if 'a' <= digit && digit <= 'f' {
        digit as int - 'a' as int + 10
    } else {
        -1
    }
}

/// Behind the prefix stand two lowercase digits for each byte, which have its value.
pub proof fn the_digits_have_the_value_of_the_bytes(bytes: &[u8], text: String)
    requires
        call_ensures(to_hex, (bytes,), text),
    ensures
        text@.len() == 2 + 2 * bytes@.len(),
        text@[0] == '0' && text@[1] == 'x',
        forall|i: int|
            0 <= i < bytes@.len() ==> #[trigger] bytes@[i] == 16 * digit_value(text@[2 + 2 * i])
                + digit_value(text@[3 + 2 * i]) && digit_value(text@[2 + 2 * i]) >= 0 && digit_value(
                text@[3 + 2 * i],
            ) >= 0,
{
    reveal_strlit("0x");
    assert forall|i: int| 0 <= i < bytes@.len() implies #[trigger] bytes@[i] == 16 * digit_value(
        text@[2 + 2 * i],
    ) + digit_value(text@[3 + 2 * i]) && digit_value(text@[2 + 2 * i]) >= 0 && digit_value(
        text@[3 + 2 * i],
    ) >= 0 by {
        assert((2 * i) / 2 == i && (2 * i) % 2 == 0);
        assert((2 * i + 1) / 2 == i && (2 * i + 1) % 2 == 1);
        assert(text@[2 + 2 * i] == hex_text(bytes@)[2 * i]);
        assert(text@[3 + 2 * i] == hex_text(bytes@)[2 * i + 1]);
        assert(hex_text(bytes@)[2 * i] == hex_digit(bytes@[i] as int / 16));
        assert(hex_text(bytes@)[2 * i + 1] == hex_digit(bytes@[i] as int % 16));
    }
}

} // verus!
