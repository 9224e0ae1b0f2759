//! Chunk identifiers.

use vstd::prelude::*;

verus! {

/// Whether `c` is a decimal digit or one of the letters `a` to `f`.
pub open spec fn is_lower_hex(c: char) -> bool {
    let u = c as u32;
    ||| 0x30 <= u <= 0x39
    ||| 0x61 <= u <= 0x66
}

/// Whether `id` has the shape of a random (version 4) UUID written in its
/// hyphenated lower-case form: five groups of 8, 4, 4, 4 and 12 hexadecimal
/// digits, the third starting with `4` and the fourth with `8`, `9`, `a` or
/// `b`.
pub open spec fn is_chunk_id(id: Seq<char>) -> bool {
    &&& id.len() == 36
    &&& id[8] == '-' && id[13] == '-' && id[18] == '-' && id[23] == '-'
    &&& forall|i: int|
        0 <= i < 36 && i != 8 && i != 13 && i != 18 && i != 23 ==> is_lower_hex(#[trigger] id[i])
    &&& id[14] == '4'
    &&& (id[19] == '8' || id[19] == '9' || id[19] == 'a' || id[19] == 'b')
}

/// A fresh identifier from `uuid::Uuid::new_v4`, written out by the `Display`
/// of `Uuid`. Two calls may give any two identifiers, so the contract claims
/// only the shape that every outcome has: `new_v4` fixes the version and
/// variant bits of 128 random bits, and `Display` writes the hyphenated
/// lower-case form. The call fails only where the operating system hands out
/// no random bytes.
#[verifier::external_body]
pub(crate) fn new_chunk_id() -> (id: String)
    ensures
        is_chunk_id(id@),
{
    uuid::Uuid::new_v4().to_string()
}

} // verus!
