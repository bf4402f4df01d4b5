//! The canister's own stable memory, reached through the `ic0` system API.
//!
//! The region is shared by every handle in the canister, so no handle can
//! state its bytes: `region` is `None` and only the shape of each result is
//! promised. Outside a canister the system API is absent and `ic0` panics.
use vstd::prelude::*;
use crate::host::{host_grow, host_read, host_size, host_write};
use crate::stable_memory::{StableMemory, StableMemoryError, WASM_PAGE_SIZE_IN_BYTES};

verus! {

/// Whether `len` bytes at `offset` lie within `pages` pages.
pub fn range_fits(offset: u64, len: usize, pages: u64) -> (r: bool)
    ensures
        r == (offset + len <= pages * 65536),
{
    let total = (pages as u128) * 65536u128;
    (offset as u128) + (len as u128) <= total
}

/// The 32-bit report of a page count: a count beyond what 32 bits hold reads
/// as `u32::MAX`.
pub fn narrow_size(pages: u64) -> (r: u32)
    ensures
        r == if pages > u32::MAX {
            u32::MAX as int
        } else {
            pages as int
        },
{
    if pages > u32::MAX as u64 {
        u32::MAX
    } else {
        pages as u32
    }
}

/// A zeroed buffer as long as `pages` pages, or `None` where that many bytes
/// cannot be held.
pub fn zeroed_region(pages: u32) -> (r: Option<Vec<u8>>)
    ensures
        match r {
            Some(v) => v@ == Seq::new((pages * 65536) as nat, |i: int| 0u8),
            None => pages * 65536 > usize::MAX,
        },
{
    let size = pages as u64 * WASM_PAGE_SIZE_IN_BYTES;
    if size > usize::MAX as u64 {
        return None;
    }
    let v: Vec<u8> = vec![0u8; size as usize];
    assert(v@ =~= Seq::new((pages * 65536) as nat, |i: int| 0u8));
    Some(v)
}

/// The result of a 64-bit grow, given the raw value that the system returned:
/// the system reports a refusal as `u64::MAX`, otherwise the prior page count.
pub fn grow_outcome64(raw: u64) -> (r: Result<u64, StableMemoryError>)
    ensures
        r == if raw == u64::MAX {
            Err(StableMemoryError::OutOfMemory)
        } else {
            Ok::<u64, StableMemoryError>(raw)
        },
{
    if raw == u64::MAX {
        Err(StableMemoryError::OutOfMemory)
    } else {
        Ok(raw)
    }
}

/// The result of a 32-bit grow, given the raw value that the system returned:
/// a prior page count that 32 bits cannot report counts as a refusal.
pub fn grow_outcome(raw: u64) -> (r: Result<u32, StableMemoryError>)
    ensures
        r == if raw > u32::MAX {
            Err(StableMemoryError::OutOfMemory)
        } else {
            Ok::<u32, StableMemoryError>(raw as u32)
        },
{
    if raw > u32::MAX as u64 {
        Err(StableMemoryError::OutOfMemory)
    } else {
        Ok(raw as u32)
    }
}

/// The stable memory of the running canister.
#[derive(Clone, Copy, Debug)]
pub struct CanisterStableMemory {}

impl Default for CanisterStableMemory {
    fn default() -> (r: CanisterStableMemory) {
        CanisterStableMemory {  }
    }
}

impl StableMemory for CanisterStableMemory {
    /// Shared with the whole canister, so never stated.
    open spec fn region(&self) -> Option<Seq<u8>> {
        None
    }

    /// The system may always refuse.
    open spec fn grow_succeeds(&self, new_pages: int) -> bool {
        false
    }

    fn stable_size(&self) -> (r: u32) {
        stable_size()
    }

    fn stable64_size(&self) -> (r: u64) {
        stable64_size()
    }

    fn stable_grow(&mut self, new_pages: u32) -> (r: Result<u32, StableMemoryError>) {
        stable_grow(new_pages)
    }

    fn stable64_grow(&mut self, new_pages: u64) -> (r: Result<u64, StableMemoryError>) {
        stable64_grow(new_pages)
    }

    // The raw calls below refuse a range past the end of stable memory rather
    // than trap. A cursor hands them only ranges below its cached capacity,
    // which was read from the system, and stable memory never shrinks, so the
    // refusal is not reached through a cursor; the trait's signature has no
    // room to report it.
    fn stable_write(&mut self, offset: u32, buf: &[u8]) {
        let _ = stable_write(offset, buf);
    }

    fn stable64_write(&mut self, offset: u64, buf: &[u8]) {
        let _ = stable64_write(offset, buf);
    }

    fn stable_read(&self, offset: u32, buf: &mut Vec<u8>) {
        let _ = stable_read(offset, buf);
    }

    fn stable64_read(&self, offset: u64, buf: &mut Vec<u8>) {
        let _ = stable64_read(offset, buf);
    }
}

/// Gets current size of the stable memory (in WASM pages); a size beyond what
/// 32 bits hold reads as `u32::MAX` (see `narrow_size`).
pub fn stable_size() -> (r: u32) {
    narrow_size(host_size().pages())
}

/// Similar to `stable_size` but with support for 64-bit addressed memory.
pub fn stable64_size() -> (r: u64) {
    host_size().pages()
}

/// Attempts to grow the stable memory by `new_pages` (added pages).
///
/// Returns an error if it wasn't possible. Otherwise, returns the previous
/// size that was reserved.
pub fn stable_grow(new_pages: u32) -> (r: Result<u32, StableMemoryError>)
    ensures
        r matches Err(e) ==> e == StableMemoryError::OutOfMemory,
{
    grow_outcome(host_grow(new_pages as u64))
}

/// Similar to `stable_grow` but with support for 64-bit addressed memory.
pub fn stable64_grow(new_pages: u64) -> (r: Result<u64, StableMemoryError>)
    ensures
        r matches Err(e) ==> e == StableMemoryError::OutOfMemory,
        r matches Ok(prev) ==> prev < u64::MAX,
{
    grow_outcome64(host_grow(new_pages))
}

/// Writes data to the stable memory location specified by an offset.
///
/// Writing past the current size of stable memory is a mistake of the
/// caller (grow it first). The system would trap on it; this function
/// instead writes nothing and returns `OutOfBounds`, so that the library
/// never panics.
pub fn stable_write(offset: u32, buf: &[u8]) -> (r: Result<(), StableMemoryError>)
    ensures
        r matches Err(e) ==> e == StableMemoryError::OutOfBounds,
{
    stable64_write(offset as u64, buf)
}

/// Similar to `stable_write` but with support for 64-bit addressed memory.
pub fn stable64_write(offset: u64, buf: &[u8]) -> (r: Result<(), StableMemoryError>)
    ensures
        r matches Err(e) ==> e == StableMemoryError::OutOfBounds,
{
    let size = host_size();
    if range_fits(offset, buf.len(), size.pages()) {
        host_write(offset, buf, &size);
        Ok(())
    } else {
        Err(StableMemoryError::OutOfBounds)
    }
}

/// Reads data from the stable memory location specified by an offset, filling
/// the whole of `buf`. Where the range exceeds the current size of stable
/// memory nothing is read and the result is `OutOfBounds`.
pub fn stable_read(offset: u32, buf: &mut Vec<u8>) -> (r: Result<(), StableMemoryError>)
    ensures
        final(buf)@.len() == old(buf)@.len(),
        r matches Err(e) ==> e == StableMemoryError::OutOfBounds && final(buf)@ == old(buf)@,
{
    stable64_read(offset as u64, buf)
}

/// Similar to `stable_read` but with support for 64-bit addressed memory.
pub fn stable64_read(offset: u64, buf: &mut Vec<u8>) -> (r: Result<(), StableMemoryError>)
    ensures
        final(buf)@.len() == old(buf)@.len(),
        r matches Err(e) ==> e == StableMemoryError::OutOfBounds && final(buf)@ == old(buf)@,
{
    let size = host_size();
    if range_fits(offset, buf.len(), size.pages()) {
        host_read(offset, buf, &size);
        Ok(())
    } else {
        Err(StableMemoryError::OutOfBounds)
    }
}

/// Returns a copy of the stable memory.
///
/// This maps the whole memory (even if not all of it has been written to):
/// the copy is as long as the pages that stable memory held (see
/// `zeroed_region`), or empty where that many bytes cannot be held.
pub fn stable_bytes() -> (r: Vec<u8>)
    ensures
        r@.len() % (WASM_PAGE_SIZE_IN_BYTES as nat) == 0,
{
    let pages = stable_size();
    match zeroed_region(pages) {
        Some(mut vec) => {
            let _ = stable_read(0, &mut vec);
            assert((pages * 65536) % 65536 == 0) by (nonlinear_arith);
            vec
        },
        None => Vec::new(),
    }
}

} // verus!
