//! Identifiers as hexadecimal text, as requests carry them and answers show
//! them.

use crate::error::ChainbillsError;
use cosmwasm_std::{HexBinary, StdError};
use vstd::prelude::*;

verus! {

/// `StdError` of cosmwasm_std, which `HexBinary::from_hex` fails with.
/// Nothing is read from it.
#[verifier::external_type_specification]
#[verifier::external_body]
pub struct ExStdError(StdError);

/// The value of a hexadecimal digit, in either case.
pub open spec fn hex_digit(c: char) -> Option<u8> {
    if '0' <= c <= '9' {
        Some((c as u8 - '0' as u8) as u8)
    } else if 'a' <= c <= 'f' {
        Some((c as u8 - 'a' as u8 + 10) as u8)
    } else if 'A' <= c <= 'F' {
        Some((c as u8 - 'A' as u8 + 10) as u8)
    } else {
        None
    }
}

/// The lower-case hexadecimal digit of a value below sixteen.
pub open spec fn lower_hex_char(value: u8) -> char {
    if value < 10 {
        ('0' as u8 + value) as char
    } else {
        ('a' as u8 + value - 10) as char
    }
}

/// The bytes that a hexadecimal text stands for, two digits to the byte,
/// the upper half first. A text of odd length, or one that holds anything
/// but hexadecimal digits, stands for nothing.
pub open spec fn hex_decoded(text: Seq<char>) -> Option<Seq<u8>> {
    if text.len() % 2 == 0 && forall|i: int| 0 <= i < text.len() ==> hex_digit(text[i]) is Some {
        Some(
            Seq::new(
                text.len() / 2,
                |i: int| (hex_digit(text[2 * i])->0 * 16 + hex_digit(text[2 * i + 1])->0) as u8,
            ),
        )
    } else {
        None
    }
}

/// The lower-case hexadecimal text of some bytes, two digits to the byte,
/// the upper half first.
pub open spec fn hex_encoded(bytes: Seq<u8>) -> Seq<char> {
    Seq::new(
        2 * bytes.len(),
        |i: int|
            if i % 2 == 0 {
                lower_hex_char(bytes[i / 2] / 16)
            } else {
                lower_hex_char(bytes[i / 2] % 16)
            },
    )
}

/// `HexBinary::from_hex` of cosmwasm_std: the bytes that the text stands
/// for, and an error exactly when it stands for none.
#[verifier::external_body]
fn from_hex(input: &str) -> (r: Result<Vec<u8>, StdError>)
    ensures
        match r {
            Ok(bytes) => hex_decoded(input@) == Some(bytes@),
            Err(_) => hex_decoded(input@) is None,
        },
{
    HexBinary::from_hex(input).map(|binary| binary.to_vec())
}

/// `HexBinary::to_hex` of cosmwasm_std: the lower-case hexadecimal text of
/// the bytes.
#[verifier::external_body]
fn to_hex(bytes: &[u8; 32]) -> (r: String)
    ensures
        r@ == hex_encoded(bytes@),
{
    HexBinary::from(bytes).to_hex()
}

/// The identifier that a hexadecimal text stands for: `InvalidHex` when the
/// text is not hexadecimal, and nothing when it stands for more or fewer
/// than thirty-two bytes.
pub open spec fn id_of_hex(text: Seq<char>) -> Result<Option<Seq<u8>>, ChainbillsError> {
    match hex_decoded(text) {
        None => Err(ChainbillsError::InvalidHex),
        Some(bytes) => Ok(if bytes.len() == 32 { Some(bytes) } else { None }),
    }
}

/// Reads an identifier from hexadecimal text.
pub fn parse_id(text: &str) -> (r: Result<Option<[u8; 32]>, ChainbillsError>)
    ensures
        match r {
            Err(e) => id_of_hex(text@) == Err::<Option<Seq<u8>>, ChainbillsError>(e),
            Ok(None) => id_of_hex(text@) == Ok::<Option<Seq<u8>>, ChainbillsError>(None),
            Ok(Some(id)) => id_of_hex(text@) == Ok::<Option<Seq<u8>>, ChainbillsError>(
                Some(id@),
            ),
        },
{
    let bytes = match from_hex(text) {
        Ok(bytes) => bytes,
        Err(_) => {
            return Err(ChainbillsError::InvalidHex);
        },
    };
    if bytes.len() != 32 {
        return Ok(None);
    }
    let mut id = [0u8; 32];
    let mut i: usize = 0;
    while i < 32
        invariant
            i <= 32,
            bytes@.len() == 32,
            forall|j: int| 0 <= j < i ==> id[j] == bytes@[j],
        decreases 32 - i,
    {
        id[i] = bytes[i];
        i += 1;
    }
    assert(id@ =~= bytes@);
    Ok(Some(id))
}

/// Writes an identifier as lower-case hexadecimal text.
pub fn show_id(id: &[u8; 32]) -> (text: String)
    ensures
        text@ == hex_encoded(id@),
{
    to_hex(id)
}

/// Text written for some bytes reads back as the same bytes.
pub proof fn lemma_hex_round_trip(bytes: Seq<u8>)
    ensures
        hex_decoded(hex_encoded(bytes)) == Some(bytes),
{
    let text = hex_encoded(bytes);
    assert forall|i: int| 0 <= i < text.len() implies hex_digit(text[i]) is Some by {
        lemma_digit_round_trip(bytes[i / 2] / 16);
        lemma_digit_round_trip(bytes[i / 2] % 16);
    }
    let decoded = hex_decoded(text)->0;
    assert forall|i: int| 0 <= i < bytes.len() implies decoded[i] == bytes[i] by {
        lemma_digit_round_trip(bytes[i] / 16);
        lemma_digit_round_trip(bytes[i] % 16);
        assert(text[2 * i] == lower_hex_char(bytes[i] / 16));
        assert(text[2 * i + 1] == lower_hex_char(bytes[i] % 16));
    }
    assert(decoded =~= bytes);
}

proof fn lemma_digit_round_trip(value: u8)
    requires
        value < 16,
    ensures
        hex_digit(lower_hex_char(value)) == Some(value),
{
}

} // verus!
