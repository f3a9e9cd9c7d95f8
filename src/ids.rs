//! Group and peer identifiers: 128-bit values, written as hyphenated UUIDs.
use vstd::prelude::*;

verus! {

/// The lower-case hexadecimal digit for `d`, which is below 16.
pub open spec fn hex_digit(d: u128) -> char {
    if d < 10 {
        (48 + d) as char
    } else {
        (87 + d) as char
    }
}

/// Which of the 32 digits stands at position `i` of the hyphenated text.
pub open spec fn digit_index(i: int) -> int {
    if i < 8 {
        i
    } else if i < 13 {
        i - 1
    } else if i < 18 {
        i - 2
    } else if i < 23 {
        i - 3
    } else {
        i - 4
    }
}

/// The hyphenated text of a UUID with the value `id`: its 32 hexadecimal
/// digits in lower case, most significant first, with `-` at positions 8,
/// 13, 18 and 23.
pub open spec fn hyphenated(id: u128) -> Seq<char> {
    Seq::new(
        36,
        |i: int|
            if i == 8 || i == 13 || i == 18 || i == 23 {
                '-'
            } else {
                hex_digit((id >> ((4 * (31 - digit_index(i))) as u128)) & 0xf)
            },
    )
}

/// Relies on `uuid::Uuid::new_v4`: a random identifier; nothing is known of
/// its value.
#[verifier::external_body]
pub fn fresh_id() -> (r: u128) {
    uuid::Uuid::new_v4().as_u128()
}

/// Relies on `uuid::Uuid::from_u128` and its `Display`: the hyphenated
/// lower-case form.
#[verifier::external_body]
pub fn id_text(id: u128) -> (r: String)
    ensures
        r@ == hyphenated(id),
{
    uuid::Uuid::from_u128(id).to_string()
}

/// The MessagePack encoding of an array of strings.
pub uninterp spec fn msgpack_strings(names: Seq<Seq<char>>) -> Seq<u8>;

/// Relies on `rmp_serde::to_vec` on a vector of strings: its MessagePack
/// encoding. It writes into a `Vec` and fails only where that allocation
/// fails, which, as for every `Vec` here, is not modelled.
#[verifier::external_body]
pub(crate) fn encode_names(names: &Vec<String>) -> (r: Option<Vec<u8>>)
    ensures
        r is Some,
        r matches Some(b) ==> b@ == msgpack_strings(names.deep_view()),
{
    rmp_serde::to_vec(names).ok()
}

} // verus!
