use vstd::prelude::*;

verus! {

/// `hex::FromHexError`, the error of `hex::decode`. It is handed on, and nothing is read
/// of it.
#[verifier::external_type_specification]
#[verifier::external_body]
pub struct ExFromHexError(hex::FromHexError);

/// The value of one hexadecimal digit, given as its ASCII byte, in either case.
pub open spec fn hex_digit_value(c: u8) -> Option<u8> {
    if 0x30 <= c <= 0x39 {
        Some((c - 0x30) as u8)
    } else if 0x41 <= c <= 0x46 {
        Some((c - 0x41 + 10) as u8)
    } else if 0x61 <= c <= 0x66 {
        Some((c - 0x61 + 10) as u8)
    } else {
        None
    }
}

/// Whether `text` is an even number of hexadecimal digits.
pub open spec fn is_hex_text(text: Seq<u8>) -> bool {
    &&& text.len() % 2 == 0
    &&& forall|i: int| 0 <= i < text.len() ==> hex_digit_value(#[trigger] text[i]).is_some()
}

/// The bytes that hexadecimal text stands for: each pair of digits is one byte, the first
/// digit its upper half.
pub open spec fn hex_bytes(text: Seq<u8>) -> Seq<u8> {
    Seq::new(
        text.len() / 2,
        |i: int|
            (hex_digit_value(text[2 * i]).unwrap() * 16 + hex_digit_value(
                text[2 * i + 1],
            ).unwrap()) as u8,
    )
}

/// Calls `hex::decode`. It fails on an odd number of bytes and on a byte that is no
/// hexadecimal digit, and else returns one byte for each pair of digits.
#[verifier::external_body]
pub(crate) fn hex_decode(text: &[u8]) -> (res: Result<Vec<u8>, hex::FromHexError>)
    ensures
        res.is_ok() <==> is_hex_text(text@),
        res matches Ok(bytes) ==> bytes@ == hex_bytes(text@),
{
    hex::decode(text)
}

} // verus!
