//! The placeholder that stands in a template where the version literal
//! stood: a random token, made by the `uuid` crate.

use vstd::prelude::*;

verus! {

pub open spec fn is_lower_hex(c: char) -> bool {
    ('0' <= c <= '9') || ('a' <= c <= 'f')
}

/// The form of every placeholder: 36 characters, hyphens at the indices 8,
/// 13, 18 and 23, lower-case hexadecimal digits everywhere else.
pub open spec fn is_placeholder(key: Seq<char>) -> bool {
    &&& key.len() == 36
    &&& forall|i: int|
        0 <= i < 36 ==> if i == 8 || i == 13 || i == 18 || i == 23 {
            #[trigger] key[i] == '-'
        } else {
            is_lower_hex(key[i])
        }
}

/// A fresh random token: `uuid::Uuid::new_v4`, written out by the `Display`
/// of `uuid::Uuid`.
///
/// Not verified. The token is random, so the contract states only the form
/// that `Display` gives every UUID (lower-case, hyphenated). That the token
/// occurs nowhere in a given document is likely and not promised. The call
/// panics where the operating system hands out no random bytes.
#[verifier::external_body]
pub(crate) fn new_placeholder() -> (key: String)
    ensures
        is_placeholder(key@),
{
    uuid::Uuid::new_v4().to_string()
}

/// A placeholder is not empty and holds no double quote.
pub proof fn lemma_placeholder_plain(key: Seq<char>)
    requires
        is_placeholder(key),
    ensures
        key.len() > 0,
        forall|i: int| 0 <= i < key.len() ==> key[i] != '"',
{
    assert forall|i: int| 0 <= i < key.len() implies key[i] != '"' by {
        assert(if i == 8 || i == 13 || i == 18 || i == 23 {
            key[i] == '-'
        } else {
            is_lower_hex(key[i])
        });
    }
}

} // verus!
