//! Random identifiers, from `uuid`.

use vstd::prelude::*;
use uuid::Uuid;

verus! {

/// A lower-case hexadecimal digit.
pub open spec fn is_lower_hex(c: char) -> bool {
    ('0' <= c <= '9') || ('a' <= c <= 'f')
}

/// The hyphenated text of a version-4 UUID: 36 characters, hyphens at 8, 13,
/// 18 and 23, the version digit `4` at 14, lower-case hex digits elsewhere.
pub open spec fn is_uuid_v4_text(s: Seq<char>) -> bool {
    &&& s.len() == 36
    &&& forall|i: int|
        0 <= i < 36 ==> if i == 8 || i == 13 || i == 18 || i == 23 {
            s[i] == '-'
        } else {
            is_lower_hex(#[trigger] s[i])
        }
    &&& s[14] == '4'
}

/// `Uuid::new_v4().to_string()`: a random UUID. uuid's source sets the
/// version nibble to 4 and writes the hyphenated lower-case form; which
/// UUID it draws is not claimed, nor that two calls differ. uuid panics when
/// the system's random source fails, which no argument can rule out.
#[verifier::external_body]
pub(crate) fn new_id() -> (r: String)
    ensures
        is_uuid_v4_text(r@),
{
    Uuid::new_v4().to_string()
}

} // verus!
