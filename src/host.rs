//! The `ic0` system calls on stable memory that the library relies on.
use vstd::prelude::*;

verus! {

/// A page count of stable memory as the system reported it.
///
/// Only `host_size` makes one. Stable memory never shrinks, so the count stays
/// a lower bound on the memory's size for the rest of the canister's run.
pub struct HostSize {
    pages: u64,
}

impl HostSize {
    /// The page count reported.
    pub closed spec fn count(&self) -> nat {
        self.pages as nat
    }

    /// The page count reported.
    pub fn pages(&self) -> (r: u64)
        ensures
            r == self.count(),
    {
        self.pages
    }
}

/// Relies on ic0::stable64_size: the current page count of the stable memory.
#[verifier::external_body]
pub fn host_size() -> (r: HostSize) {
    HostSize { pages: ic0::stable64_size() }
}

/// Relies on ic0::stable64_grow: grows by `new_pages` and returns the prior
/// page count, or `u64::MAX` where the system refused.
#[verifier::external_body]
pub fn host_grow(new_pages: u64) -> (r: u64) {
    ic0::stable64_grow(new_pages)
}

/// Relies on ic0::stable64_write: copies `buf` into stable memory at `offset`.
/// The system traps unless the range lies within stable memory, which `size`
/// (reported by the system, and memory never shrinks) bounds from below.
#[verifier::external_body]
pub fn host_write(offset: u64, buf: &[u8], size: &HostSize)
    requires
        offset + buf@.len() <= size.count() * 65536,
{
    ic0::stable64_write(buf, offset)
}

/// Relies on ic0::stable64_read: fills the whole of `buf` from stable memory at
/// `offset`; the buffer keeps its length. The system traps unless the range
/// lies within stable memory, which `size` bounds from below.
#[verifier::external_body]
pub fn host_read(offset: u64, buf: &mut Vec<u8>, size: &HostSize)
    requires
        offset + old(buf)@.len() <= size.count() * 65536,
    ensures
        final(buf)@.len() == old(buf)@.len(),
{
    ic0::stable64_read(buf.as_mut_slice(), offset)
}

} // verus!
