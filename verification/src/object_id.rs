//! Object ids: the twelve-byte keys under which credits and subscriptions
//! are stored, written as 24 hexadecimal digits.
use vstd::prelude::*;
use vstd::utf8::encode_utf8;

use crate::error::Error;
use mongodb::bson::oid::Error as ObjectIdError;

verus! {

/// The value of a hexadecimal digit (either case), or -1 for any other
/// byte.
pub open spec fn hex_value(b: u8) -> int {
    if 48 <= b <= 57 {
        b - 48
    } else if 97 <= b <= 102 {
        b - 87
    } else if 65 <= b <= 70 {
        b - 55
    } else {
        -1
    }
}

/// `text` is the hexadecimal form of an object id: 24 hexadecimal digits.
pub open spec fn is_object_id_text(text: Seq<u8>) -> bool {
    &&& text.len() == 24
    &&& forall|i: int| 0 <= i < 24 ==> hex_value(#[trigger] text[i]) >= 0
}

/// The twelve bytes that the hexadecimal digits `text` stand for.
pub open spec fn decode_object_id_text(text: Seq<u8>) -> Seq<u8> {
    Seq::new(12, |i: int| (hex_value(text[2 * i]) * 16 + hex_value(text[2 * i + 1])) as u8)
}

/// The lower-case hexadecimal digit for `v` (0 to 15).
pub open spec fn lower_hex_digit(v: int) -> char {
    if v < 10 {
        (48 + v) as char
    } else {
        (87 + v) as char
    }
}

/// The 24 lower-case hexadecimal digits of the bytes `id`, most significant
/// half of each byte first.
pub open spec fn object_id_hex_text(id: Seq<u8>) -> Seq<char> {
    Seq::new(
        24,
        |i: int|
            lower_hex_digit(
                if i % 2 == 0 {
                    id[i / 2] as int / 16
                } else {
                    id[i / 2] as int % 16
                },
            ),
    )
}

/// `text` is written in 24 lower-case hexadecimal digits.
pub open spec fn is_lower_object_id_text(text: Seq<char>) -> bool {
    &&& text.len() == 24
    &&& forall|i: int|
        0 <= i < 24 ==> ('0' <= #[trigger] text[i] <= '9' || 'a' <= text[i] <= 'f')
}

/// `mongodb::bson::oid::ObjectId::parse_str`, keeping the parsed id's
/// bytes. The text is accepted exactly when it is 24 hexadecimal digits of
/// either case, and then each pair of digits gives one byte (this is how
/// the `hex` crate's `decode`, which `parse_str` calls, reads it).
#[verifier::external_body]
fn parse_object_id(text: &str) -> (parsed: core::result::Result<[u8; 12], ObjectIdError>)
    ensures
        parsed is Ok <==> is_object_id_text(encode_utf8(text@)),
        parsed matches Ok(id) ==> id@ == decode_object_id_text(encode_utf8(text@)),
{
    match mongodb::bson::oid::ObjectId::parse_str(text) {
        Ok(id) => Ok(id.bytes()),
        Err(err) => Err(err),
    }
}

/// `mongodb::bson::oid::ObjectId::to_hex` on the id with the given bytes:
/// the `hex` crate's lower-case encoding, two digits per byte.
#[verifier::external_body]
fn object_id_to_hex(id: [u8; 12]) -> (text: String)
    ensures
        text@ == object_id_hex_text(id@),
{
    mongodb::bson::oid::ObjectId::from_bytes(id).to_hex()
}

/// `mongodb::bson::oid::ObjectId::new`, keeping the new id's bytes. The
/// bytes come from the clock, a random value drawn once per process and a
/// counter, so nothing is stated of them. The call panics on a clock set
/// before 1970 or past 2106, which no precondition can rule out.
#[verifier::external_body]
fn fresh_object_id() -> (id: [u8; 12]) {
    mongodb::bson::oid::ObjectId::new().bytes()
}

/// A new object id for a record about to be stored.
pub(crate) fn new_object_id() -> (id: [u8; 12])
    ensures
        is_lower_object_id_text(object_id_hex_text(id@)),
        decode_object_id_text(encode_utf8(object_id_hex_text(id@))) == id@,
{
    let id = fresh_object_id();
    proof {
        lemma_hex_text_round_trip(id@);
    }
    id
}

/// Reads an object id written in hexadecimal. An id that is not 24
/// hexadecimal digits is refused with `Error::DbObjectIdError`.
pub fn parse_object_id_text(text: &str) -> (parsed: core::result::Result<[u8; 12], Error>)
    ensures
        parsed is Ok <==> is_object_id_text(encode_utf8(text@)),
        parsed matches Ok(id) ==> id@ == decode_object_id_text(encode_utf8(text@)),
        parsed matches Err(e) ==> e is DbObjectIdError,
{
    match parse_object_id(text) {
        Ok(id) => Ok(id),
        Err(err) => Err(Error::DbObjectIdError(err)),
    }
}

/// Writes an object id in lower-case hexadecimal.
pub fn object_id_text(id: [u8; 12]) -> (text: String)
    ensures
        text@ == object_id_hex_text(id@),
{
    object_id_to_hex(id)
}

/// Reading back the lower-case hexadecimal form of an id gives the same
/// id.
pub proof fn lemma_hex_text_round_trip(id: Seq<u8>)
    requires
        id.len() == 12,
    ensures
        is_lower_object_id_text(object_id_hex_text(id)),
        is_object_id_text(encode_utf8(object_id_hex_text(id))),
        decode_object_id_text(encode_utf8(object_id_hex_text(id))) == id,
{
    let t = object_id_hex_text(id);
    assert forall|i: int| 0 <= i < 24 implies ('0' <= #[trigger] t[i] <= '9' || 'a' <= t[i] <= 'f') by {
        assert(0 <= id[i / 2] / 16 < 16);
        assert(0 <= id[i / 2] % 16 < 16);
    }
    lemma_lower_text_bytes(t);
    let b = encode_utf8(t);
    assert forall|k: int| 0 <= k < 12 implies #[trigger] decode_object_id_text(b)[k] == id[k] by {
        assert(t[2 * k] as u8 == b[2 * k]);
        assert(t[2 * k + 1] as u8 == b[2 * k + 1]);
        assert((2 * k) / 2 == k);
        assert((2 * k + 1) / 2 == k);
        assert((2 * k) % 2 == 0);
        assert((2 * k + 1) % 2 == 1);
        assert(id[k] / 16 * 16 + id[k] % 16 == id[k]);
    }
    assert(decode_object_id_text(b) =~= id);
}

/// Writing out an id read from lower-case hexadecimal gives the same text.
pub proof fn lemma_lower_text_round_trip(text: Seq<char>)
    requires
        is_lower_object_id_text(text),
    ensures
        is_object_id_text(encode_utf8(text)),
        object_id_hex_text(decode_object_id_text(encode_utf8(text))) == text,
{
    lemma_lower_text_bytes(text);
    let b = encode_utf8(text);
    let id = decode_object_id_text(b);
    assert forall|i: int| 0 <= i < 24 implies #[trigger] object_id_hex_text(id)[i] == text[i] by {
        let k = i / 2;
        assert(text[2 * k] as u8 == b[2 * k]);
        assert(text[2 * k + 1] as u8 == b[2 * k + 1]);
        let hi = hex_value(b[2 * k]);
        let lo = hex_value(b[2 * k + 1]);
        assert(0 <= hi < 16 && 0 <= lo < 16);
        assert(id[k] == hi * 16 + lo);
        assert((hi * 16 + lo) / 16 == hi) by (nonlinear_arith)
            requires
                0 <= hi < 16,
                0 <= lo < 16,
        ;
        assert((hi * 16 + lo) % 16 == lo) by (nonlinear_arith)
            requires
                0 <= hi < 16,
                0 <= lo < 16,
        ;
    }
    assert(object_id_hex_text(id) =~= text);
}

/// Lower-case hexadecimal text is ASCII: its bytes are its characters.
proof fn lemma_lower_text_bytes(text: Seq<char>)
    requires
        is_lower_object_id_text(text),
    ensures
        is_object_id_text(encode_utf8(text)),
        encode_utf8(text).len() == 24,
        forall|i: int| 0 <= i < 24 ==> #[trigger] encode_utf8(text)[i] == text[i] as u8,
{
    assert(vstd::utf8::is_ascii_chars(text));
    vstd::utf8::is_ascii_chars_encode_utf8(text);
    let b = encode_utf8(text);
    assert forall|i: int| 0 <= i < 24 implies hex_value(#[trigger] b[i]) >= 0 by {
        assert(text[i] as u8 == b[i]);
    }
}

} // verus!
