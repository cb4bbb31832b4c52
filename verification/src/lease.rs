//! Lease IDs.
use vstd::prelude::*;
use vstd::utf8::*;

verus! {

/// The longest lease ID, in UTF-8 bytes.
pub const MAX_LEASE_BYTES: usize = 256;

/// A text that may name a lease: not empty, at most [`MAX_LEASE_BYTES`] long,
/// and free of `/` and of the null character.
pub open spec fn valid_lease(text: Seq<char>) -> bool {
    &&& text.len() > 0
    &&& encode_utf8(text).len() <= MAX_LEASE_BYTES
    &&& !text.contains('/')
    &&& !text.contains('\0')
}

/// The identifier that a client chooses for its database. Connections with the
/// same lease ID share a database.
#[derive(Debug, PartialEq, Eq)]
pub struct LeaseId {
    value: String,
}

/// The text may not name a lease.
#[derive(Debug, Clone, Copy, PartialEq, Eq, Structural)]
pub struct InvalidLeaseId;

impl View for LeaseId {
    type V = Seq<char>;

    closed spec fn view(&self) -> Seq<char> {
        self.value@
    }
}

impl LeaseId {
    #[verifier::type_invariant]
    spec fn value_is_valid(self) -> bool {
        valid_lease(self.value@)
    }

    /// Accept `value` as a lease ID, unchanged, or reject it.
    pub fn new(value: String) -> (r: Result<LeaseId, InvalidLeaseId>)
        ensures
            match r {
                Ok(lease) => valid_lease(value@) && lease@ == value@,
                Err(_) => !valid_lease(value@),
            },
    {
        if value.as_str().is_empty() || value.as_str().as_bytes().len() > MAX_LEASE_BYTES {
            return Err(InvalidLeaseId);
        }
        let chars = crate::text::to_chars(value.as_str());
        let mut i: usize = 0;
        while i < chars.len()
            invariant
                i <= chars@.len(),
                chars@ == value@,
                forall|k: int| 0 <= k < i ==> #[trigger] chars@[k] != '/' && chars@[k] != '\0',
            decreases chars@.len() - i,
        {
            if chars[i] == '/' || chars[i] == '\0' {
                return Err(InvalidLeaseId);
            }
            i += 1;
        }
        Ok(LeaseId { value })
    }

    /// The text of the lease ID.
    pub fn as_str(&self) -> (text: &str)
        ensures
            text@ == self@,
            valid_lease(text@),
    {
        proof {
            use_type_invariant(self);
        }
        self.value.as_str()
    }
}

impl Clone for LeaseId {
    fn clone(&self) -> (copy: LeaseId)
        ensures
            copy@ == self@,
    {
        proof {
            use_type_invariant(self);
        }
        LeaseId { value: self.value.clone() }
    }
}

} // verus!
