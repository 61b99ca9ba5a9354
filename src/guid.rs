//! Globally unique identifiers in their little-endian binary layout.

use vstd::prelude::*;
use crate::error::DecodeError;
use crate::text::{hex_byte, push_hex_byte};

verus! {

/// The canonical hyphenated text of the GUID in the first sixteen bytes of `b`:
/// the first three groups are little-endian, the last two are in byte order.
pub open spec fn guid_text(b: Seq<u8>) -> Seq<char> {
    hex_byte(b[3], true) + hex_byte(b[2], true) + hex_byte(b[1], true) + hex_byte(b[0], true)
        + seq!['-'] + hex_byte(b[5], true) + hex_byte(b[4], true) + seq!['-'] + hex_byte(b[7], true)
        + hex_byte(b[6], true) + seq!['-'] + hex_byte(b[8], true) + hex_byte(b[9], true) + seq!['-']
        + hex_byte(b[10], true) + hex_byte(b[11], true) + hex_byte(b[12], true) + hex_byte(b[13], true)
        + hex_byte(b[14], true) + hex_byte(b[15], true)
}

/// Decodes the GUID in the first sixteen bytes of `b` into its canonical text.
pub fn decode_guid_le(b: &[u8]) -> (r: Result<String, DecodeError>)
    ensures
        b@.len() < 16 <==> r is Err,
        r is Err ==> r == Err::<String, DecodeError>(DecodeError::MalformedBuffer),
        r matches Ok(s) ==> s@ == guid_text(b@),
{
    if b.len() < 16 {
        return Err(DecodeError::MalformedBuffer);
    }
    proof { reveal_strlit("-"); }
    let mut s = String::new();
    push_hex_byte(&mut s, b[3], true);
    push_hex_byte(&mut s, b[2], true);
    push_hex_byte(&mut s, b[1], true);
    push_hex_byte(&mut s, b[0], true);
    s.append("-");
    push_hex_byte(&mut s, b[5], true);
    push_hex_byte(&mut s, b[4], true);
    s.append("-");
    push_hex_byte(&mut s, b[7], true);
    push_hex_byte(&mut s, b[6], true);
    s.append("-");
    push_hex_byte(&mut s, b[8], true);
    push_hex_byte(&mut s, b[9], true);
    s.append("-");
    push_hex_byte(&mut s, b[10], true);
    push_hex_byte(&mut s, b[11], true);
    push_hex_byte(&mut s, b[12], true);
    push_hex_byte(&mut s, b[13], true);
    push_hex_byte(&mut s, b[14], true);
    push_hex_byte(&mut s, b[15], true);
    assert(s@ =~= guid_text(b@));
    Ok(s)
}

} // verus!
