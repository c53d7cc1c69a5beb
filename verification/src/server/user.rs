//! User identities.

use crate::table::Key;
use vstd::prelude::*;

verus! {

/// A user, known by a 32-byte public key. Two users are the same user
/// when their keys hold the same bytes.
#[derive(Clone, Copy, Debug, PartialEq, Eq)]
pub struct User {
    pub key: Key,
}

/// Keys with the same bytes are the same key.
pub proof fn lemma_key_bytes(a: Key, b: Key)
    requires
        a@ == b@,
    ensures
        a == b,
{
}

} // verus!
