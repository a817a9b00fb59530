//! Byte strings in the SCALE encoding: a compact length, then that many bytes.

use vstd::prelude::*;

verus! {

/// The little-endian value of four bytes from `at` on.
pub open spec fn little_endian(bytes: Seq<u8>, at: int) -> nat {
    (bytes[at] + 0x100 * bytes[at + 1] + 0x1_0000 * bytes[at + 2] + 0x100_0000 * bytes[at
        + 3]) as nat
}

/// The compact length that the bytes begin with: how many bytes it takes, and its value. The two
/// low bits of the first byte give the width. A value that a smaller width could hold is refused.
pub open spec fn compact_length(bytes: Seq<u8>) -> Option<(nat, nat)> {
    if bytes.len() == 0 {
        None
    } else if bytes[0] % 4 == 0 {
        Some((1, (bytes[0] / 4) as nat))
    } else if bytes[0] % 4 == 1 {
        let value = (bytes[0] + 0x100 * bytes[1]) / 4;
        if bytes.len() >= 2 && value > 0x3f {
            Some((2, value as nat))
        } else {
            None
        }
    } else if bytes[0] % 4 == 2 {
        let value = little_endian(bytes, 0) / 4;
        if bytes.len() >= 4 && value > 0x3fff {
            Some((4, value))
        } else {
            None
        }
    } else {
        let value = little_endian(bytes, 1);
        if bytes[0] == 3 && bytes.len() >= 5 && value > 0x3fff_ffff {
            Some((5, value))
        } else {
            None
        }
    }
}

/// The byte string that the bytes begin with. What follows it does not matter.
pub open spec fn byte_string(bytes: Seq<u8>) -> Option<Seq<u8>> {
    match compact_length(bytes) {
        Some((width, length)) => if bytes.len() >= width + length {
            Some(bytes.subrange(width as int, (width + length) as int))
        } else {
            None
        },
        None => None,
    }
}

/// Calls `Vec::<u8>::decode` of the `parity-scale-codec` crate: it reads a compact length and then
/// that many bytes from the front of the input, and fails where the length is not in its shortest
/// form or the input is too short.
#[verifier::external_body]
pub(crate) fn decode_byte_string(bytes: &[u8]) -> (decoded: Option<Vec<u8>>)
    ensures
        match decoded {
            Some(value) => byte_string(bytes@) == Some(value@),
            None => byte_string(bytes@) is None,
        },
{
    let mut input = bytes;
    <Vec<u8> as parity_scale_codec::Decode>::decode(&mut input).ok()
}

/// The four little-endian bytes of a value.
pub open spec fn little_endian_bytes(value: nat) -> Seq<u8>
    recommends
        value <= u32::MAX,
{
    seq![
        (value % 0x100) as u8,
        (value / 0x100 % 0x100) as u8,
        (value / 0x1_0000 % 0x100) as u8,
        (value / 0x100_0000) as u8,
    ]
}

/// The compact form of a length.
pub open spec fn compact_form(length: nat) -> Seq<u8>
    recommends
        length <= u32::MAX,
{
    if length <= 0x3f {
        seq![(4 * length) as u8]
    } else if length <= 0x3fff {
        seq![((4 * length + 1) % 0x100) as u8, ((4 * length + 1) / 0x100) as u8]
    } else if length <= 0x3fff_ffff {
        little_endian_bytes(4 * length + 2)
    } else {
        seq![3u8] + little_endian_bytes(length)
    }
}

/// Writes the four little-endian bytes of a value.
fn write_little_endian(bytes: &mut Vec<u8>, value: u32)
    ensures
        final(bytes)@ == old(bytes)@ + little_endian_bytes(value as nat),
{
    let ghost before = bytes@;
    bytes.push((value % 0x100) as u8);
    bytes.push((value / 0x100 % 0x100) as u8);
    bytes.push((value / 0x1_0000 % 0x100) as u8);
    bytes.push((value / 0x100_0000) as u8);
    assert(bytes@ =~= before + little_endian_bytes(value as nat));
}

/// Writes a byte string: the compact form of its length, then its bytes.
pub fn encode_byte_string(bytes: &[u8]) -> (encoded: Vec<u8>)
    requires
        bytes@.len() <= u32::MAX,
    ensures
        encoded@ == compact_form(bytes@.len()) + bytes@,
{
    let length: u32 = bytes.len() as u32;
    let mut encoded: Vec<u8> = Vec::new();
    if length <= 0x3f {
        encoded.push((4 * length) as u8);
    } else if length <= 0x3fff {
        encoded.push(((4 * length + 1) % 0x100) as u8);
        encoded.push(((4 * length + 1) / 0x100) as u8);
    } else if length <= 0x3fff_ffff {
        write_little_endian(&mut encoded, 4 * length + 2);
    } else {
        encoded.push(3);
        write_little_endian(&mut encoded, length);
    }
    assert(encoded@ =~= compact_form(bytes@.len()));
    encoded.extend_from_slice(bytes);
    assert(encoded@ =~= compact_form(bytes@.len()) + bytes@);
    encoded
}

proof fn lemma_little_endian(bytes: Seq<u8>, at: int, value: nat)
    requires
        0 <= at,
        at + 4 <= bytes.len(),
        value <= u32::MAX,
        bytes.subrange(at, at + 4) == little_endian_bytes(value),
    ensures
        little_endian(bytes, at) == value,
        bytes[at] % 4 == value % 4,
{
    let four = bytes.subrange(at, at + 4);
    assert(bytes[at] == four[0] && bytes[at + 1] == four[1] && bytes[at + 2] == four[2] && bytes[at
        + 3] == four[3]);
    let high = value / 0x100;
    assert(high / 0x100 == value / 0x1_0000);
    assert(high / 0x1_0000 == value / 0x100_0000);
    assert(value == value % 0x100 + 0x100 * high);
    assert(high == high % 0x100 + 0x100 * (high / 0x100));
    assert(value / 0x1_0000 == value / 0x1_0000 % 0x100 + 0x100 * (value / 0x100_0000));
}

/// The length is read off its compact form, whatever follows it.
proof fn lemma_compact_form(length: nat, rest: Seq<u8>)
    requires
        length <= u32::MAX,
    ensures
        compact_length(compact_form(length) + rest) == Some((compact_form(length).len(), length)),
{
    let form = compact_form(length);
    let bytes = form + rest;
    assert(bytes.len() >= form.len());
    if length <= 0x3f {
        assert(bytes[0] == 4 * length);
    } else if length <= 0x3fff {
        assert(bytes[0] == (4 * length + 1) % 0x100);
        assert(bytes[1] == (4 * length + 1) / 0x100);
        assert(bytes[0] + 0x100 * bytes[1] == 4 * length + 1);
    } else if length <= 0x3fff_ffff {
        assert(bytes.subrange(0, 4) =~= form);
        lemma_little_endian(bytes, 0, 4 * length + 2);
    } else {
        assert(bytes[0] == 3);
        assert(bytes.subrange(1, 5) =~= little_endian_bytes(length));
        lemma_little_endian(bytes, 1, length);
    }
}

/// A byte string is read back as it was written, whatever follows it.
pub proof fn a_byte_string_is_read_back(value: Seq<u8>, rest: Seq<u8>)
    requires
        value.len() <= u32::MAX,
    ensures
        byte_string(compact_form(value.len()) + value + rest) == Some(value),
{
    let form = compact_form(value.len());
    let bytes = form + value + rest;
    assert(bytes =~= form + (value + rest));
    lemma_compact_form(value.len(), value + rest);
    assert(bytes.subrange(form.len() as int, (form.len() + value.len()) as int) =~= value);
}

/// What is read as a byte string follows the compact form of its length.
pub proof fn a_byte_string_begins_with_its_length(bytes: Seq<u8>, value: Seq<u8>)
    requires
        byte_string(bytes) == Some(value),
    ensures
        value.len() <= u32::MAX,
        bytes.len() >= compact_form(value.len()).len() + value.len(),
        bytes.take((compact_form(value.len()).len() + value.len()) as int) == compact_form(
            value.len(),
        ) + value,
{
    let (width, length) = compact_length(bytes)->0;
    let form = compact_form(length);
    assert(value.len() == length);
    if bytes[0] % 4 == 0 {
        assert(form[0] == bytes[0]);
        assert(bytes.take(1) =~= form);
    } else if bytes[0] % 4 == 1 {
        let two = bytes[0] + 0x100 * bytes[1];
        assert(two % 4 == 1) by {
            assert(two == bytes[0] + 4 * (0x40 * bytes[1]));
        }
        assert(4 * length + 1 == two);
        assert(bytes.take(2) =~= form);
    } else if bytes[0] % 4 == 2 {
        let four = little_endian(bytes, 0);
        assert(four % 4 == 2) by {
            assert(four == bytes[0] + 4 * (0x40 * bytes[1] + 0x4000 * bytes[2] + 0x40_0000
                * bytes[3]));
        }
        assert(4 * length + 2 == four);
        lemma_little_endian_bytes(bytes, 0);
        assert(bytes.take(4) =~= form);
    } else {
        lemma_little_endian_bytes(bytes, 1);
        assert(bytes.take(5) =~= form);
    }
    assert(bytes.take((width + length) as int) =~= form + value);
}

proof fn lemma_little_endian_bytes(bytes: Seq<u8>, at: int)
    requires
        0 <= at,
        at + 4 <= bytes.len(),
    ensures
        little_endian(bytes, at) <= u32::MAX,
        bytes.subrange(at, at + 4) == little_endian_bytes(little_endian(bytes, at)),
{
    let value = little_endian(bytes, at);
    let (a, b, c, d) = (
        bytes[at] as int,
        bytes[at + 1] as int,
        bytes[at + 2] as int,
        bytes[at + 3] as int,
    );
    assert(value == a + 0x100 * (b + 0x100 * (c + 0x100 * d)));
    assert(value / 0x100 == b + 0x100 * (c + 0x100 * d));
    assert(value / 0x1_0000 == c + 0x100 * d);
    assert(value / 0x100_0000 == d);
    assert(bytes.subrange(at, at + 4) =~= little_endian_bytes(value));
}

/// A byte string that is written is read back, whatever follows it.
pub proof fn what_is_encoded_is_decoded(bytes: &[u8], encoded: Vec<u8>, rest: Seq<u8>)
    requires
        bytes@.len() <= u32::MAX,
        call_ensures(encode_byte_string, (bytes,), encoded),
    ensures
        byte_string(encoded@ + rest) == Some(bytes@),
{
    a_byte_string_is_read_back(bytes@, rest);
}

} // verus!
