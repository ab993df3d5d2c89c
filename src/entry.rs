//! The stored unit and its expiration policy.

use vstd::prelude::*;

verus! {

/// One stored value with its optional expiry (UNIX seconds).
pub struct Entry {
    pub value: serde_json::Value,
    pub expires_at: Option<u64>,
}

/// An entry is alive at `now` unless it has an expiry strictly before `now`.
pub open spec fn alive(e: Entry, now: u64) -> bool {
    match e.expires_at {
        Some(t) => now <= t,
        None => true,
    }
}

impl Entry {
    /// True iff the entry has an expiry and `now` is past it.
    pub fn is_expired(&self, now: u64) -> (r: bool)
        ensures
            r == !alive(*self, now),
    {
        match self.expires_at {
            Some(t) => now > t,
            None => false,
        }
    }

    /// A copy of the entry.
    pub fn duplicate(&self) -> (r: Entry)
        ensures
            r == *self,
    {
        Entry { value: self.value.clone(), expires_at: self.expires_at }
    }
}

} // verus!
