//! Identifiers of files and directories: random 128-bit values in their
//! hyphenated lower-case hexadecimal form.

use vstd::prelude::*;

verus! {

/// `c` is a lower-case hexadecimal digit.
pub open spec fn is_hex_digit(c: char) -> bool {
    ('0' <= c && c <= '9') || ('a' <= c && c <= 'f')
}

/// A hyphen stands at position `i` of the canonical form.
pub open spec fn is_hyphen_position(i: int) -> bool {
    i == 8 || i == 13 || i == 18 || i == 23
}

/// `id` has the canonical form: 36 characters, hyphens after the 8th, 12th,
/// 16th and 20th digit, lower-case hexadecimal digits elsewhere.
pub open spec fn is_canonical_id(id: Seq<char>) -> bool {
    &&& id.len() == 36
    &&& forall|i: int|
        0 <= i < 36 ==> if is_hyphen_position(i) {
            #[trigger] id[i] == '-'
        } else {
            is_hex_digit(id[i])
        }
}

/// A canonical identifier holds neither a `.` nor a `/`.
pub proof fn lemma_canonical_id_is_plain(id: Seq<char>)
    requires
        is_canonical_id(id),
    ensures
        forall|i: int| 0 <= i < id.len() ==> id[i] != '.' && id[i] != '/',
{
    assert forall|i: int| 0 <= i < id.len() implies id[i] != '.' && id[i] != '/' by {
        if is_hyphen_position(i) {
            assert(id[i] == '-');
        } else {
            assert(is_hex_digit(id[i]));
        }
    }
}

/// A fresh identifier. Calls `uuid::Uuid::new_v4` and renders the value with
/// its `Display`, which writes the hyphenated lower-case form. The value is
/// random, so nothing but its form is claimed. The call panics where the
/// system has no source of random bytes.
#[verifier::external_body]
pub(crate) fn fresh_id() -> (id: String)
    ensures
        is_canonical_id(id@),
{
    uuid::Uuid::new_v4().to_string()
}

} // verus!
