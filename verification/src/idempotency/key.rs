//! Client-supplied idempotency keys.  A key scopes "the same logical
//! operation" across retried requests; a key is accepted when it is
//! non-empty and at most 50 characters long.

use vstd::prelude::*;
use vstd::string::StrSliceExecFns;

verus! {

/// The longest accepted key, in characters.
pub open spec fn max_key_len() -> int {
    50
}

/// A key is valid when it is non-empty and no longer than
/// [`max_key_len`] characters.
pub open spec fn valid_key(s: Seq<char>) -> bool {
    0 < s.len() <= max_key_len()
}

/// A validated idempotency key.  Values of this type always satisfy
/// [`valid_key`].
pub struct IdempotencyKey {
    key: String,
}

impl View for IdempotencyKey {
    type V = Seq<char>;

    closed spec fn view(&self) -> Seq<char> {
        self.key@
    }
}

impl IdempotencyKey {
    /// Every constructed key is valid.
    pub closed spec fn wf(&self) -> bool {
        valid_key(self.key@)
    }

    /// Accepts exactly the strings that [`valid_key`] allows; the accepted
    /// key carries the given string unchanged.
    pub fn try_from(s: String) -> (r: Result<IdempotencyKey, String>)
        ensures
            r matches Ok(k) ==> k@ == s@ && k.wf(),
            r is Ok <==> valid_key(s@),
    {
        let text = s.as_str();
        if text.is_empty() {
            return Err(String::from_str("Idempotency key cannot be empty"));
        }
        if text.unicode_len() > 50 {
            return Err(String::from_str("The length of idempotency key cannot exceed 50"));
        }
        Ok(IdempotencyKey { key: s })
    }

    /// The key's text as an owned-string reference.
    pub fn as_string(&self) -> (r: &String)
        ensures
            r@ == self@,
    {
        &self.key
    }

    /// The key's text.
    pub fn as_ref(&self) -> (r: &str)
        ensures
            r@ == self@,
    {
        self.key.as_str()
    }
}

} // verus!
