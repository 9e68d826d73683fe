//! The encodings that other crates compute for this library: percent-encoding
//! of URI segments, JSON string literals, the text of a correlation id, and
//! OSC frames. Every function in this file is trusted: Verus takes its contract
//! as given and does not look into its body.

use vstd::prelude::*;
use vstd::utf8::encode_utf8;

verus! {

/// The percent-encoded form that `rocket::http::RawStr::percent_encode` gives
/// a text.
pub uninterp spec fn percent_encoded(text: Seq<char>) -> Seq<char>;

/// Calls `rocket::http::RawStr::percent_encode`, the encoding rocket applies to
/// every dynamic path segment of a URI it builds. Trusted: the result is a
/// function of the text alone.
#[verifier::external_body]
pub(crate) fn percent_encode(text: &str) -> (encoded: String)
    ensures
        encoded@ == percent_encoded(text@),
{
    rocket::http::RawStr::new(text).percent_encode().as_str().to_owned()
}

/// The JSON string literal, quotes included, that `serde_json::to_string`
/// writes for a text.
pub uninterp spec fn json_quoted(text: Seq<char>) -> Seq<char>;

/// Calls `serde_json::to_string` on a string slice. Trusted: the result is a
/// function of the text alone. Serialising a string slice into memory has no
/// way to fail, so the fallback is never taken.
#[verifier::external_body]
pub(crate) fn json_quote(text: &str) -> (quoted: String)
    ensures
        quoted@ == json_quoted(text@),
{
    serde_json::to_string(text).unwrap_or_default()
}

/// The lower-case hexadecimal digit for a value below sixteen.
pub open spec fn hex_digit(value: int) -> char {
    "0123456789abcdef"@[value]
}

/// The `count` hexadecimal digits of `id` that end `low` digits from the right,
/// most significant first.
pub open spec fn hex_digits(id: u128, low: nat, count: nat) -> Seq<char>
    decreases count,
{
    if count == 0 {
        Seq::empty()
    } else {
        hex_digits(id, low + 1, (count - 1) as nat).push(
            hex_digit(((id as int) / vstd::arithmetic::power::pow(16, low)) % 16),
        )
    }
}

/// The hyphenated lower-case text of a 128-bit id: groups of 8, 4, 4, 4 and 12
/// hexadecimal digits, most significant first.
pub open spec fn hyphenated(id: u128) -> Seq<char> {
    hex_digits(id, 24, 8) + seq!['-'] + hex_digits(id, 20, 4) + seq!['-'] + hex_digits(id, 16, 4)
        + seq!['-'] + hex_digits(id, 12, 4) + seq!['-'] + hex_digits(id, 0, 12)
}

/// Calls `uuid::Uuid::from_u128` and the `Display` of `uuid::Uuid`. Trusted:
/// the text is the hyphenated lower-case form of the id.
#[verifier::external_body]
pub(crate) fn id_text(id: u128) -> (text: String)
    ensures
        text@ == hyphenated(id),
{
    uuid::Uuid::from_u128(id).to_string()
}

/// Whether a 128-bit id carries the version and variant bits of a random
/// (version 4) UUID.
pub open spec fn is_random_id(id: u128) -> bool {
    id & 0x0000_0000_0000_f000_c000_0000_0000_0000u128
        == 0x0000_0000_0000_4000_8000_0000_0000_0000u128
}

/// Calls `uuid::Uuid::new_v4` and `uuid::Uuid::as_u128`. Trusted: the id is
/// random, so only its version and variant bits are known.
#[verifier::external_body]
pub(crate) fn fresh_id() -> (id: u128)
    ensures
        is_random_id(id),
{
    uuid::Uuid::new_v4().as_u128()
}

/// An OSC string: the bytes, then one to four zero bytes, so that the length
/// is a multiple of four.
pub open spec fn osc_padded(bytes: Seq<u8>) -> Seq<u8> {
    bytes + Seq::new((4 - bytes.len() % 4) as nat, |i: int| 0u8)
}

/// The OSC message with address `addr` and one string argument `arg`: the
/// padded address, the padded type tags `,s`, and the padded argument.
pub open spec fn osc_text_message(addr: Seq<char>, arg: Seq<char>) -> Seq<u8> {
    osc_padded(encode_utf8(addr)) + seq![0x2cu8, 0x73u8, 0u8, 0u8] + osc_padded(
        encode_utf8(arg),
    )
}

/// Calls `rosc::encoder::encode` on a message with one string argument.
/// Trusted: the bytes are those of `osc_text_message`. Encoding into memory
/// has no way to fail, so the fallback is never taken.
#[verifier::external_body]
pub(crate) fn osc_encode_text_message(addr: &str, arg: &str) -> (frame: Vec<u8>)
    ensures
        frame@ == osc_text_message(addr@, arg@),
{
    let message = rosc::OscMessage {
        addr: addr.to_owned(),
        args: vec![rosc::OscType::String(arg.to_owned())],
    };
    rosc::encoder::encode(&rosc::OscPacket::Message(message)).unwrap_or_default()
}

/// What `rosc::decoder::decode_udp` finds in a frame, as far as this library
/// reads it: nothing if the bytes are no single OSC message, else the address
/// and, for each argument in order, its text if it is a string.
pub uninterp spec fn osc_decoded(bytes: Seq<u8>) -> Option<(Seq<char>, Seq<Option<Seq<char>>>)>;

/// Calls `rosc::decoder::decode_udp`. Trusted: the result is a function of the
/// bytes alone. A bundle and a frame that does not decode both give `None`.
#[verifier::external_body]
pub(crate) fn osc_decode_message(bytes: &[u8]) -> (message: Option<(String, Vec<Option<String>>)>)
    ensures
        message.deep_view() == osc_decoded(bytes@),
{
    match rosc::decoder::decode_udp(bytes) {
        Ok((_, rosc::OscPacket::Message(m))) => Some(
            (
                m.addr,
                m.args.into_iter().map(
                    |arg|
                        match arg {
                            rosc::OscType::String(text) => Some(text),
                            _ => None,
                        },
                ).collect(),
            ),
        ),
        _ => None,
    }
}

} // verus!
