//! Fresh record identifiers.

use vstd::prelude::*;

verus! {

/// A lower-case hexadecimal digit.
pub open spec fn hex_digit(c: char) -> bool {
    '0' <= c <= '9' || 'a' <= c <= 'f'
}

/// The shape every record identifier has: five hyphen-separated groups of
/// lower-case hexadecimal digits, marked as a random identifier.
pub open spec fn id_shape(id: Seq<char>) -> bool {
    &&& id.len() == 36
    &&& id[8] == '-' && id[13] == '-' && id[18] == '-' && id[23] == '-'
    &&& id[14] == '4'
    &&& id[19] == '8' || id[19] == '9' || id[19] == 'a' || id[19] == 'b'
    &&& forall|i: int|
        #![trigger id[i]]
        0 <= i < 36 && i != 8 && i != 13 && i != 18 && i != 23 ==> hex_digit(id[i])
}

/// `uuid::Uuid::new_v4`, printed with its `Display`: a random identifier in
/// the hyphenated lower-case form, with the version digit 4 and the variant
/// digit 8, 9, a or b. Which one comes is chance, so only the shape is
/// claimed; that two calls differ is likely, not certain, and is not claimed.
#[verifier::external_body]
pub(crate) fn fresh_id() -> (id: String)
    ensures
        id_shape(id@),
{
    uuid::Uuid::new_v4().to_string()
}

} // verus!
