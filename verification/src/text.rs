//! Text at the boundary: UTF-8 decoding and the textual form of a UUID.

use vstd::prelude::*;
use vstd::utf8::{decode_utf8, valid_utf8};

verus! {

#[verifier::external_type_specification]
#[verifier::external_body]
pub struct ExUuidError(uuid::Error);

/// The lower-case hexadecimal digit of a number below 16.
pub open spec fn hex_digit(n: int) -> char {
    if n < 10 {
        (0x30 + n) as char
    } else {
        (0x57 + n) as char
    }
}

/// Two lower-case hexadecimal digits for each byte, in order.
pub open spec fn hex_text(bytes: Seq<u8>) -> Seq<char>
    decreases bytes.len(),
{
    if bytes.len() == 0 {
        Seq::empty()
    } else {
        hex_text(bytes.drop_last()).push(hex_digit(bytes.last() as int / 16)).push(
            hex_digit(bytes.last() as int % 16),
        )
    }
}

/// The canonical text of the 16 bytes of a UUID: lower-case hexadecimal
/// digits in groups of 8, 4, 4, 4 and 12, with a hyphen between groups.
pub open spec fn uuid_text(bytes: Seq<u8>) -> Seq<char> {
    hex_text(bytes.subrange(0, 4)).push('-') + hex_text(bytes.subrange(4, 6)).push('-') + hex_text(
        bytes.subrange(6, 8),
    ).push('-') + hex_text(bytes.subrange(8, 10)).push('-') + hex_text(bytes.subrange(10, 16))
}

/// Each byte gives two digits.
pub proof fn lemma_hex_text_len(bytes: Seq<u8>)
    ensures
        hex_text(bytes).len() == 2 * bytes.len(),
    decreases bytes.len(),
{
    if bytes.len() > 0 {
        lemma_hex_text_len(bytes.drop_last());
    }
}

/// The canonical text of 16 bytes has 36 characters, with hyphens at the
/// positions 8, 13, 18 and 23.
pub proof fn lemma_uuid_text_shape(bytes: Seq<u8>)
    requires
        bytes.len() == 16,
    ensures
        uuid_text(bytes).len() == 36,
        uuid_text(bytes)[8] == '-',
        uuid_text(bytes)[13] == '-',
        uuid_text(bytes)[18] == '-',
        uuid_text(bytes)[23] == '-',
{
    lemma_hex_text_len(bytes.subrange(0, 4));
    lemma_hex_text_len(bytes.subrange(4, 6));
    lemma_hex_text_len(bytes.subrange(6, 8));
    lemma_hex_text_len(bytes.subrange(8, 10));
    lemma_hex_text_len(bytes.subrange(10, 16));
}

/// The 16 bytes that the UUID parser reads from a text, or `None` where it
/// rejects the text.
pub uninterp spec fn uuid_parse(text: Seq<char>) -> Option<Seq<u8>>;

/// Calls `String::from_utf8`. The contract claims what its documentation
/// says: it succeeds exactly on valid UTF-8, and the string then holds the
/// characters that the bytes encode.
#[verifier::external_body]
pub(crate) fn utf8_to_string(bytes: Vec<u8>) -> (r: Option<String>)
    ensures
        r is Some <==> valid_utf8(bytes@),
        r is Some ==> r.unwrap()@ == decode_utf8(bytes@),
{
    match String::from_utf8(bytes) {
        Ok(s) => Some(s),
        Err(_) => None,
    }
}

/// Calls `uuid::Uuid::from_bytes` and formats the value with `to_string`.
/// The contract claims that the text is the hyphenated lower-case form of
/// the 16 bytes.
#[verifier::external_body]
pub(crate) fn uuid_format(bytes: &Vec<u8>) -> (s: String)
    requires
        bytes@.len() == 16,
    ensures
        s@ == uuid_text(bytes@),
{
    let raw: [u8; 16] = bytes.as_slice().try_into().unwrap();
    uuid::Uuid::from_bytes(raw).to_string()
}

/// Calls `uuid::Uuid::parse_str`. The contract names the parser's answer and
/// claims two things of it: an accepted text gives 16 bytes, and the
/// canonical text of 16 bytes is accepted and gives those bytes back.
#[verifier::external_body]
pub(crate) fn uuid_parse_text(text: &str) -> (r: Result<Vec<u8>, uuid::Error>)
    ensures
        match r {
            Ok(bytes) => uuid_parse(text@) == Some(bytes@) && bytes@.len() == 16,
            Err(_) => uuid_parse(text@) is None,
        },
        forall|b: Seq<u8>|
            b.len() == 16 && #[trigger] uuid_text(b) == text@ ==> r is Ok && r.unwrap()@ == b,
{
    match uuid::Uuid::parse_str(text) {
        Ok(id) => Ok(id.as_bytes().to_vec()),
        Err(e) => Err(e),
    }
}

} // verus!
