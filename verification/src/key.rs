//! Bucket keys: the identity under which two requests share one counter.

use vstd::prelude::*;

verus! {

/// The scope of one rate-limit bucket.
#[derive(Clone, Copy, PartialEq, Eq, Structural, Debug)]
pub enum Scope {
    /// One counter per client id and provider.
    PerUser,
    /// One counter per group and provider.
    PerGroup,
    /// One counter for the whole provider.
    PerProviderGlobal,
}

/// The mathematical identity of a bucket key.
pub type KeyAbs = (Scope, Seq<char>, Seq<char>, u64);

/// Names one shared counter. Two requests that map to the same key, field for
/// field, share the same bucket.
#[derive(Debug)]
pub struct BucketKey {
    /// Which kind of counter this is.
    pub scope: Scope,
    /// The provider the counter belongs to.
    pub provider: String,
    /// The client id (per-user), the group name (per-group), or empty
    /// (provider-global).
    pub subject: String,
    /// Distinguishes windows where a policy keeps several per key.
    pub window_id: u64,
}

impl BucketKey {
    /// The key as a mathematical value.
    pub open spec fn abs(self) -> KeyAbs {
        (self.scope, self.provider@, self.subject@, self.window_id)
    }
}

impl Clone for BucketKey {
    fn clone(&self) -> (r: Self)
        ensures
            r == *self,
    {
        BucketKey {
            scope: self.scope,
            provider: self.provider.clone(),
            subject: self.subject.clone(),
            window_id: self.window_id,
        }
    }
}

/// Whether two keys name the same counter.
pub fn key_eq(a: &BucketKey, b: &BucketKey) -> (r: bool)
    ensures
        r == (a.abs() == b.abs()),
{
    a.scope == b.scope && a.provider == b.provider && a.subject == b.subject && a.window_id
        == b.window_id
}

} // verus!
