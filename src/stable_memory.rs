//! The capability through which cursors reach a paged memory region.
use vstd::prelude::*;

verus! {

/// Number of bytes in one page of stable memory (64 KiB).
pub const WASM_PAGE_SIZE_IN_BYTES: u64 = 65536;

/// A possible error value when dealing with stable memory.
#[derive(Debug, Clone, Copy, PartialEq, Eq, Structural)]
pub enum StableMemoryError {
    /// No more stable memory could be allocated.
    OutOfMemory,
    /// Attempted to read more stable memory than had been allocated.
    OutOfBounds,
}

impl StableMemoryError {
    /// A human readable description of the error.
    pub fn message(&self) -> (r: String)
        ensures
            *self == StableMemoryError::OutOfMemory ==> r@ == "Out of memory"@,
            *self == StableMemoryError::OutOfBounds ==> r@ == "Read exceeds allocated memory"@,
    {
        match self {
            StableMemoryError::OutOfMemory => String::from_str("Out of memory"),
            StableMemoryError::OutOfBounds => String::from_str("Read exceeds allocated memory"),
        }
    }
}

/// The page size as a mathematical integer.
pub open spec fn page() -> int {
    WASM_PAGE_SIZE_IN_BYTES as int
}

/// A region of `pages` fresh pages: all bytes zero.
pub open spec fn zero_pages(pages: int) -> Seq<u8> {
    Seq::new((pages * page()) as nat, |i: int| 0u8)
}

/// `region`, where it is known, spans exactly `pages` pages.
pub open spec fn known_pages(region: Option<Seq<u8>>, pages: int) -> bool {
    region matches Some(s) ==> s.len() == pages * page()
}

/// `s` with the bytes from `offset` on replaced by `data`.
pub open spec fn splice(s: Seq<u8>, offset: int, data: Seq<u8>) -> Seq<u8> {
    Seq::new(
        s.len(),
        |i: int|
            if offset <= i < offset + data.len() {
                data[i - offset]
            } else {
                s[i]
            },
    )
}

/// What a grow of `new_pages` pages that reported `r` does to a region.
pub open spec fn grow_effect(
    before: Option<Seq<u8>>,
    after: Option<Seq<u8>>,
    new_pages: int,
    r: Result<int, StableMemoryError>,
) -> bool {
    match r {
        Ok(prev) => match before {
            Some(s) => {
                &&& s.len() == prev * page()
                &&& after == Some(s + zero_pages(new_pages))
            },
            None => after is None,
        },
        Err(e) => e == StableMemoryError::OutOfMemory && after == before,
    }
}

/// What a raw write of `data` at `offset` does to a region.
pub open spec fn write_raw_effect(
    before: Option<Seq<u8>>,
    after: Option<Seq<u8>>,
    offset: int,
    data: Seq<u8>,
) -> bool {
    match before {
        Some(s) => after == Some(splice(s, offset, data)),
        None => after is None,
    }
}

/// What a raw read at `offset` into a buffer of `len` bytes hands back.
pub open spec fn read_raw_effect(region: Option<Seq<u8>>, offset: int, out: Seq<u8>) -> bool {
    region matches Some(s) ==> out == s.subrange(offset, offset + out.len())
}

/// The range `[offset, offset + len)` lies inside `region`, where it is known.
pub open spec fn fits(region: Option<Seq<u8>>, offset: int, len: int) -> bool {
    region matches Some(s) ==> offset + len <= s.len()
}

/// A successful grow by `new_pages` of a known region of `pages` pages
/// reports `pages` as the prior size and leaves `pages + new_pages` pages.
pub proof fn lemma_grow_reports_prior(
    s: Seq<u8>,
    after: Option<Seq<u8>>,
    pages: int,
    new_pages: int,
    prev: int,
)
    requires
        s.len() == pages * page(),
        new_pages >= 0,
        grow_effect(Some(s), after, new_pages, Ok(prev)),
    ensures
        prev == pages,
        known_pages(after, pages + new_pages),
{
    assert(prev == pages) by (nonlinear_arith)
        requires s.len() == pages * 65536, s.len() == prev * 65536;
    assert((pages + new_pages) * 65536 == pages * 65536 + new_pages * 65536) by (nonlinear_arith);
    assert(new_pages * 65536 >= 0) by (nonlinear_arith) requires new_pages >= 0;
}

/// A trait defining the stable memory API that a cursor makes use of.
///
/// `region` gives the bytes of the memory where the implementation can state
/// them; a memory shared with a host (whose bytes other code may change) gives
/// `None`, and then only the shape of each result is promised.
pub trait StableMemory: Sized {
    /// The bytes of the whole region, where known.
    spec fn region(&self) -> Option<Seq<u8>>;

    /// A grow by `new_pages` pages is sure to succeed. A memory that cannot
    /// promise this (a host may always refuse) says `false`.
    spec fn grow_succeeds(&self, new_pages: int) -> bool;

    /// Gets current size of the stable memory (in WASM pages).
    fn stable_size(&self) -> (r: u32)
        ensures
            known_pages(self.region(), r as int),
    ;

    /// Similar to `stable_size` but with support for 64-bit addressed memory.
    fn stable64_size(&self) -> (r: u64)
        ensures
            known_pages(self.region(), r as int),
    ;

    /// Attempts to grow the stable memory by `new_pages` (added pages).
    ///
    /// Returns an error if it wasn't possible. Otherwise, returns the previous
    /// size that was reserved.
    fn stable_grow(&mut self, new_pages: u32) -> (r: Result<u32, StableMemoryError>)
        ensures
            old(self).grow_succeeds(new_pages as int) ==> r is Ok,
            grow_effect(
                old(self).region(),
                final(self).region(),
                new_pages as int,
                match r {
                    Ok(p) => Ok(p as int),
                    Err(e) => Err(e),
                },
            ),
    ;

    /// Similar to `stable_grow` but with support for 64-bit addressed memory.
    fn stable64_grow(&mut self, new_pages: u64) -> (r: Result<u64, StableMemoryError>)
        ensures
            old(self).grow_succeeds(new_pages as int) ==> r is Ok,
            grow_effect(
                old(self).region(),
                final(self).region(),
                new_pages as int,
                match r {
                    Ok(p) => Ok(p as int),
                    Err(e) => Err(e),
                },
            ),
    ;

    /// Writes data to the stable memory location specified by an offset.
    fn stable_write(&mut self, offset: u32, buf: &[u8])
        requires
            fits(old(self).region(), offset as int, buf@.len() as int),
        ensures
            write_raw_effect(old(self).region(), final(self).region(), offset as int, buf@),
    ;

    /// Similar to `stable_write` but with support for 64-bit addressed memory.
    fn stable64_write(&mut self, offset: u64, buf: &[u8])
        requires
            fits(old(self).region(), offset as int, buf@.len() as int),
        ensures
            write_raw_effect(old(self).region(), final(self).region(), offset as int, buf@),
    ;

    /// Reads data from the stable memory location specified by an offset,
    /// filling the whole of `buf`.
    fn stable_read(&self, offset: u32, buf: &mut Vec<u8>)
        requires
            fits(self.region(), offset as int, old(buf)@.len() as int),
        ensures
            final(buf)@.len() == old(buf)@.len(),
            read_raw_effect(self.region(), offset as int, final(buf)@),
    ;

    /// Similar to `stable_read` but with support for 64-bit addressed memory.
    fn stable64_read(&self, offset: u64, buf: &mut Vec<u8>)
        requires
            fits(self.region(), offset as int, old(buf)@.len() as int),
        ensures
            final(buf)@.len() == old(buf)@.len(),
            read_raw_effect(self.region(), offset as int, final(buf)@),
    ;
}

} // verus!
