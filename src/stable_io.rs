//! The cursor engine: an offset and a cached page count over a stable memory,
//! for 32-bit and 64-bit addresses alike.
use vstd::prelude::*;
use vstd::arithmetic::div_mod::{lemma_mod_mod, lemma_small_mod};
use crate::canister_static::CanisterStableMemory;
use crate::stable_memory::{
    known_pages, lemma_grow_reports_prior, page, zero_pages, StableMemory, StableMemoryError,
    WASM_PAGE_SIZE_IN_BYTES,
};

verus! {

/// Largest 32-bit address.
pub const MAX_ADDRESS_32: u64 = 4294967295;

/// Largest 64-bit address.
pub const MAX_ADDRESS_64: u64 = 18446744073709551615;

/// Where a seek is measured from, as in `std::io::SeekFrom`.
#[derive(Debug, Clone, Copy, PartialEq, Eq, Structural)]
pub enum SeekFrom {
    /// An absolute offset.
    Start(u64),
    /// An offset from the end of the cached capacity.
    End(i64),
    /// An offset from the current position.
    Current(i64),
}

/// The largest address of the given width.
pub open spec fn addr_max(wide: bool) -> int {
    if wide {
        MAX_ADDRESS_64 as int
    } else {
        MAX_ADDRESS_32 as int
    }
}

/// The number of addresses of the given width.
pub open spec fn addr_count(wide: bool) -> int {
    addr_max(wide) + 1
}

/// The furthest offset a cursor of the given width reaches: just past the
/// last 32-bit address (4 GiB), or the last 64-bit address.
pub open spec fn offset_limit(wide: bool) -> int {
    if wide {
        MAX_ADDRESS_64 as int
    } else {
        MAX_ADDRESS_32 as int + 1
    }
}

/// The bytes that `pages` pages span, as far as offsets of the width reach.
pub open spec fn capacity_bytes(pages: int, wide: bool) -> int {
    if pages * page() > offset_limit(wide) {
        offset_limit(wide)
    } else {
        pages * page()
    }
}

/// The whole pages needed to hold `bytes` bytes (rounded up).
pub open spec fn pages_for(bytes: int) -> int {
    if bytes % page() == 0 {
        bytes / page()
    } else {
        bytes / page() + 1
    }
}

/// The outcome of a read of `len` bytes at `offset` with `cap` bytes cached:
/// all of them, a short read up to `cap`, or out of bounds.
pub open spec fn read_outcome(offset: int, len: int, cap: int) -> Result<int, StableMemoryError> {
    if offset + len <= cap {
        Ok(len)
    } else if offset < cap {
        Ok(cap - offset)
    } else {
        Err(StableMemoryError::OutOfBounds)
    }
}

/// `v` as an address of the given width: itself where it is one, else
/// wrapped around.
pub open spec fn wrap_address(v: int, wide: bool) -> int {
    if 0 <= v <= addr_max(wide) {
        v
    } else {
        v % addr_count(wide)
    }
}

/// The offset that a seek moves to, wrapped to the address width.
pub open spec fn seek_target(offset: int, cap: int, pos: SeekFrom, wide: bool) -> int {
    match pos {
        SeekFrom::Start(n) => wrap_address(n as int, wide),
        SeekFrom::End(n) => wrap_address(cap + n, wide),
        SeekFrom::Current(n) => wrap_address(offset + n, wide),
    }
}

/// The region after a growing write of `data` at `offset`: pages are added
/// (zeroed) until the write fits, then the bytes are replaced.
pub open spec fn write_effect(s: Seq<u8>, offset: int, data: Seq<u8>) -> Seq<u8> {
    let grown = pages_for(offset + data.len()) * page();
    let len = if grown > s.len() {
        grown
    } else {
        s.len() as int
    };
    Seq::new(
        len as nat,
        |i: int|
            if offset <= i < offset + data.len() {
                data[i - offset]
            } else if i < s.len() {
                s[i]
            } else {
                0u8
            },
    )
}

/// What a grow of `new_pages` pages that returned `r` does to a cursor.
pub open spec fn grow_spec<M: StableMemory>(
    before: StableIO<M>,
    after: StableIO<M>,
    new_pages: u64,
    r: Result<(), StableMemoryError>,
) -> bool {
    &&& after.is_wide() == before.is_wide()
    &&& after.pos() == before.pos()
    &&& before.region() is None ==> after.region() is None
    &&& before.pages() + new_pages > addr_max(before.is_wide()) ==> r == Err::<
        (),
        StableMemoryError,
    >(StableMemoryError::OutOfMemory)
    &&& before.mem().grow_succeeds(new_pages as int) && before.pages() + new_pages <= addr_max(
        before.is_wide(),
    ) ==> r is Ok
    &&& match r {
            Ok(()) => before.region() matches Some(s) ==> {
                &&& after.pages() == before.pages() + new_pages
                &&& after.region() == Some(s + zero_pages(new_pages as int))
            },
            Err(e) => {
                &&& e == StableMemoryError::OutOfMemory
                &&& after.pages() == before.pages()
                &&& after.region() == before.region()
            },
        }
}

/// What a write of `buf` that returned `r` does to a cursor.
pub open spec fn write_spec<M: StableMemory>(
    before: StableIO<M>,
    after: StableIO<M>,
    buf: Seq<u8>,
    r: Result<usize, StableMemoryError>,
) -> bool {
    &&& after.is_wide() == before.is_wide()
    &&& before.region() is None ==> after.region() is None
    &&& pages_for(before.pos() + buf.len()) <= before.pages() ==> r is Ok
    &&& before.mem().grow_succeeds(pages_for(before.pos() + buf.len()) - before.pages()) ==> r is Ok
    &&& match r {
            Ok(n) => {
                &&& n == buf.len()
                &&& after.pos() == before.pos() + n
                &&& pages_for(before.pos() + buf.len()) <= before.pages() ==> after.pages()
                    == before.pages()
                &&& before.region() matches Some(s) ==> {
                    &&& after.pages() == if pages_for(before.pos() + buf.len())
                        > before.pages() {
                        pages_for(before.pos() + buf.len())
                    } else {
                        before.pages()
                    }
                    &&& after.region() == Some(write_effect(s, before.pos(), buf))
                }
            },
            Err(e) => {
                &&& e == StableMemoryError::OutOfMemory
                &&& pages_for(before.pos() + buf.len()) > before.pages()
                &&& after.pos() == before.pos()
                &&& after.pages() == before.pages()
                &&& after.region() == before.region()
            },
        }
}

/// What a read into a buffer holding `old_buf` does to the cursor and the
/// buffer (now `new_buf`), and what it returns.
pub open spec fn read_spec<M: StableMemory>(
    before: StableIO<M>,
    after: StableIO<M>,
    old_buf: Seq<u8>,
    new_buf: Seq<u8>,
    r: Result<usize, StableMemoryError>,
) -> bool {
    &&& after.is_wide() == before.is_wide()
    &&& after.pages() == before.pages()
    &&& after.mem() == before.mem()
    &&& new_buf.len() == old_buf.len()
    &&& match r {
            Ok(n) => Ok(n as int),
            Err(e) => Err(e),
        } == read_outcome(before.pos(), old_buf.len() as int, before.cap())
    &&& match r {
            Ok(n) => {
                &&& after.pos() == before.pos() + n
                &&& new_buf.subrange(n as int, new_buf.len() as int) == old_buf.subrange(
                    n as int,
                    old_buf.len() as int,
                )
                &&& before.region() matches Some(s) ==> new_buf.subrange(0, n as int)
                    == s.subrange(before.pos(), before.pos() + n)
            },
            Err(_) => {
                &&& after.pos() == before.pos()
                &&& new_buf == old_buf
            },
        }
}

/// What a seek to `pos` that returned `r` does to a cursor.
pub open spec fn seek_spec<M: StableMemory>(
    before: StableIO<M>,
    after: StableIO<M>,
    pos: SeekFrom,
    r: u64,
) -> bool {
    &&& after.is_wide() == before.is_wide()
    &&& after.pages() == before.pages()
    &&& after.mem() == before.mem()
    &&& r == after.pos()
    &&& after.pos() == seek_target(before.pos(), before.cap(), pos, before.is_wide())
}

/// The capacity after a grow by `new_pages` that the memory reported began
/// at `prev` pages, as far as `max` pages are counted.
pub fn capacity_after_grow(prev: u64, new_pages: u64, max: u64) -> (r: u64)
    ensures
        r == if prev + new_pages > max {
            max as int
        } else {
            prev + new_pages
        },
{
    if prev > max || new_pages > max - prev {
        max
    } else {
        prev + new_pages
    }
}

/// Performs generic IO (read, write, and seek) on stable memory.
///
/// Writing overwrites what stable memory holds at the offset, and grows the
/// memory as needed. The capacity (in pages) is cached when the cursor is made
/// and updated only by its own grows.
pub struct StableIO<M: StableMemory> {
    /// The offset of the next read or write.
    offset: u64,
    /// The capacity, in pages.
    capacity: u64,
    /// The stable memory read and written.
    memory: M,
    /// Addresses are 64-bit (else 32-bit).
    wide: bool,
}

impl Default for StableIO<CanisterStableMemory> {
    /// A 32-bit cursor at offset 0 over the canister's stable memory.
    fn default() -> (r: Self)
        ensures
            r.wf(),
            r.pos() == 0,
            !r.is_wide(),
    {
        Self::with_memory(CanisterStableMemory::default(), 0)
    }
}

impl<M: StableMemory> StableIO<M> {
    /// The offset of the next read or write.
    pub closed spec fn pos(&self) -> int {
        self.offset as int
    }

    /// The cached capacity, in pages.
    pub closed spec fn pages(&self) -> int {
        self.capacity as int
    }

    /// Addresses are 64-bit.
    pub closed spec fn is_wide(&self) -> bool {
        self.wide
    }

    /// The memory's bytes, where known.
    pub closed spec fn region(&self) -> Option<Seq<u8>> {
        self.memory.region()
    }

    /// The memory itself.
    pub closed spec fn mem(&self) -> M {
        self.memory
    }

    /// The cached capacity in bytes, as far as addresses reach.
    pub open spec fn cap(&self) -> int {
        capacity_bytes(self.pages(), self.is_wide())
    }

    /// Offset and capacity fit the width, and a known region spans exactly
    /// the cached capacity.
    pub open spec fn wf(&self) -> bool {
        &&& 0 <= self.pos() <= offset_limit(self.is_wide())
        &&& 0 <= self.pages() <= addr_max(self.is_wide())
        &&& self.region() == self.mem().region()
        &&& known_pages(self.region(), self.pages())
    }

    /// Creates a new 32-bit `StableIO` over the selected memory.
    pub fn with_memory(memory: M, offset: u32) -> (r: Self)
        ensures
            r.wf(),
            !r.is_wide(),
            r.pos() == offset,
            r.mem() == memory,
            known_pages(memory.region(), r.pages()),
    {
        let capacity = memory.stable_size() as u64;
        StableIO { offset: offset as u64, capacity, memory, wide: false }
    }

    /// Creates a new 64-bit `StableIO` over the selected memory.
    pub fn with_memory64(memory: M, offset: u64) -> (r: Self)
        ensures
            r.wf(),
            r.is_wide(),
            r.pos() == offset,
            r.mem() == memory,
            known_pages(memory.region(), r.pages()),
    {
        let capacity = memory.stable64_size();
        StableIO { offset, capacity, memory, wide: true }
    }

    /// Returns the offset of the cursor.
    pub fn offset(&self) -> (r: u64)
        ensures
            r == self.pos(),
    {
        self.offset
    }

    /// Returns the cached capacity, in pages.
    pub fn capacity(&self) -> (r: u64)
        ensures
            r == self.pages(),
    {
        self.capacity
    }

    /// The memory read and written.
    pub fn memory(&self) -> (r: &M)
        ensures
            *r == self.mem(),
    {
        &self.memory
    }

    /// Gives the memory back.
    pub fn into_memory(self) -> (r: M)
        ensures
            r == self.mem(),
    {
        self.memory
    }

    /// The largest address of the cursor's width.
    pub fn max_address(&self) -> (r: u64)
        ensures
            r == addr_max(self.is_wide()),
    {
        if self.wide {
            MAX_ADDRESS_64
        } else {
            MAX_ADDRESS_32
        }
    }

    fn capacity_in_bytes(&self) -> (r: u64)
        ensures
            r == capacity_bytes(self.capacity as int, self.wide),
    {
        let limit: u64 = if self.wide {
            MAX_ADDRESS_64
        } else {
            MAX_ADDRESS_32 + 1
        };
        if self.capacity > limit / WASM_PAGE_SIZE_IN_BYTES {
            proof {
                let c = self.capacity as int;
                assert(c * 65536 > limit) by (nonlinear_arith)
                    requires c > limit / 65536, limit >= 0;
            }
            limit
        } else {
            proof {
                let c = self.capacity as int;
                assert(c * 65536 <= limit) by (nonlinear_arith)
                    requires c <= limit / 65536, limit >= 0;
            }
            self.capacity * WASM_PAGE_SIZE_IN_BYTES
        }
    }

    /// Attempts to grow the memory by adding new pages.
    ///
    /// Fails where the memory refuses, or where the width cannot count the
    /// pages that would result; a failure changes nothing. On success the
    /// capacity is the memory's own prior page count plus `new_pages`.
    pub fn grow(&mut self, new_pages: u64) -> (r: Result<(), StableMemoryError>)
        requires
            old(self).wf(),
        ensures
            final(self).wf(),
            grow_spec(*old(self), *final(self), new_pages, r),
    {
        let ghost before = self.memory.region();
        let old_capacity = self.capacity;
        let max = self.max_address();
        if new_pages > max - self.capacity {
            return Err(StableMemoryError::OutOfMemory);
        }
        let grown = if self.wide {
            self.memory.stable64_grow(new_pages)
        } else {
            match self.memory.stable_grow(new_pages as u32) {
                Ok(p) => Ok(p as u64),
                Err(e) => Err(e),
            }
        };
        match grown {
            Ok(old_page_count) => {
                proof {
                    if let Some(s) = before {
                        lemma_grow_reports_prior(
                            s,
                            self.memory.region(),
                            old_capacity as int,
                            new_pages as int,
                            old_page_count as int,
                        );
                    }
                }
                self.capacity = capacity_after_grow(old_page_count, new_pages, max);
                Ok(())
            },
            Err(e) => Err(e),
        }
    }

    /// Writes a byte slice at the offset, growing the memory by exactly the
    /// pages that are missing first.
    ///
    /// The only condition where this will error out is if it cannot grow the
    /// memory; then nothing changes.
    pub fn write(&mut self, buf: &[u8]) -> (r: Result<usize, StableMemoryError>)
        requires
            old(self).wf(),
            old(self).pos() + buf@.len() <= addr_max(old(self).is_wide()),
        ensures
            final(self).wf(),
            write_spec(*old(self), *final(self), buf@, r),
    {
        let ghost before = self.memory.region();
        let end = self.offset + buf.len() as u64;
        let required_pages = end / WASM_PAGE_SIZE_IN_BYTES + if end % WASM_PAGE_SIZE_IN_BYTES != 0 {
            1u64
        } else {
            0u64
        };
        proof {
            lemma_pages_for(end as int);
        }
        if required_pages > self.capacity {
            let additional = required_pages - self.capacity;
            match self.grow(additional) {
                Ok(()) => {},
                Err(e) => {
                    return Err(e);
                },
            }
        }
        proof {
            if let Some(s) = before {
                let c = self.capacity as int;
                assert(c * 65536 >= required_pages * 65536) by (nonlinear_arith)
                    requires c >= required_pages;
                assert(self.memory.region() matches Some(t) && t.len() >= end);
            }
        }
        let offset = self.offset;
        if self.wide {
            self.memory.stable64_write(offset, buf);
        } else {
            self.memory.stable_write(offset as u32, buf);
        }
        self.offset = end;
        proof {
            if let Some(s) = before {
                let s2 = self.memory.region().unwrap();
                assert(s2 =~= write_effect(s, offset as int, buf@));
            }
        }
        Ok(buf.len())
    }

    /// Reads from the offset into `buf`, as far as the cached capacity goes.
    ///
    /// Where `buf` reaches past the cached capacity, only the bytes below it
    /// are read (a short read); where the offset is at or past it and `buf`
    /// is not empty, the read fails with `OutOfBounds` and nothing changes.
    /// The capacity is not asked of the memory again, so bytes that another
    /// handle grew the memory for are out of bounds here.
    pub fn read(&mut self, buf: &mut Vec<u8>) -> (r: Result<usize, StableMemoryError>)
        requires
            old(self).wf(),
        ensures
            final(self).wf(),
            read_spec(*old(self), *final(self), old(buf)@, final(buf)@, r),
    {
        let cap_bytes = self.capacity_in_bytes();
        proof {
            let c = self.capacity as int;
            assert(c * 65536 >= cap_bytes) by (nonlinear_arith)
                requires cap_bytes == capacity_bytes(c, self.wide);
        }
        let n = buf.len();
        let count: usize = if (n as u64) > cap_bytes || self.offset > cap_bytes - n as u64 {
            if self.offset < cap_bytes {
                (cap_bytes - self.offset) as usize
            } else {
                return Err(StableMemoryError::OutOfBounds);
            }
        } else {
            n
        };
        let offset = self.offset;
        if count == 0 {
            assert(buf@.subrange(0, 0) =~= Seq::<u8>::empty());
            assert(buf@.subrange(0, n as int) =~= buf@);
            proof {
                if let Some(s) = self.memory.region() {
                    assert(s.subrange(offset as int, offset as int) =~= Seq::<u8>::empty());
                }
            }
        } else if count == n {
            self.read_raw(offset, buf);
            assert(buf@.subrange(n as int, n as int) =~= old(buf)@.subrange(n as int, n as int));
            assert(buf@.subrange(0, n as int) =~= buf@);
        } else {
            let mut part: Vec<u8> = vec![0u8; count];
            self.read_raw(offset, &mut part);
            let ghost orig = buf@;
            let mut i: usize = 0;
            while i < count
                invariant
                    i <= count,
                    count < n,
                    buf@.len() == n,
                    part@.len() == count,
                    forall|j: int| 0 <= j < i ==> #[trigger] buf@[j] == part@[j],
                    forall|j: int| i <= j < n ==> #[trigger] buf@[j] == orig[j],
                decreases count - i,
            {
                buf.set(i, part[i]);
                i = i + 1;
            }
            assert(buf@.subrange(0, count as int) =~= part@);
            assert(buf@.subrange(count as int, n as int) =~= orig.subrange(count as int, n as int));
        }
        self.offset = offset + count as u64;
        Ok(count)
    }

    fn read_raw(&self, offset: u64, buf: &mut Vec<u8>)
        requires
            self.wf(),
            offset + old(buf)@.len() <= capacity_bytes(self.capacity as int, self.wide),
            self.capacity * page() >= capacity_bytes(self.capacity as int, self.wide),
        ensures
            final(buf)@.len() == old(buf)@.len(),
            self.memory.region() matches Some(s) ==> final(buf)@ == s.subrange(
                offset as int,
                offset + old(buf)@.len(),
            ),
    {
        if self.wide {
            self.memory.stable64_read(offset, buf);
        } else {
            self.memory.stable_read(offset as u32, buf);
        }
    }

    /// Moves the offset; where it lands is checked only by the next read or
    /// write. Returns the new offset.
    pub fn seek(&mut self, pos: SeekFrom) -> (r: u64)
        requires
            old(self).wf(),
        ensures
            final(self).wf(),
            seek_spec(*old(self), *final(self), pos, r),
    {
        let target: u64 = match pos {
            SeekFrom::Start(n) => n,
            SeekFrom::End(n) => self.capacity_in_bytes().wrapping_add_signed(n),
            SeekFrom::Current(n) => self.offset.wrapping_add_signed(n),
        };
        let ghost v: int = match pos {
            SeekFrom::Start(n) => n as int,
            SeekFrom::End(n) => self.cap() + n,
            SeekFrom::Current(n) => self.offset + n,
        };
        proof {
            let r64 = MAX_ADDRESS_64 as int + 1;
            assert(target as int == v % r64);
        }
        proof {
            if 0 <= v <= addr_max(self.wide) {
                lemma_small_mod(v as nat, addr_count(self.wide) as nat);
            }
        }
        self.offset = if self.wide {
            target
        } else {
            proof {
                lemma_mod_mod(v, 4294967296, 4294967296);
                assert(4294967296int * 4294967296int == MAX_ADDRESS_64 as int + 1);
            }
            target % (MAX_ADDRESS_32 + 1)
        };
        self.offset
    }
}

/// Whole pages for `bytes`, spelled as the cursor computes them, cover them
/// and stay within one page of them.
proof fn lemma_pages_for(bytes: int)
    requires
        0 <= bytes,
    ensures
        pages_for(bytes) * page() >= bytes,
        pages_for(bytes) * page() < bytes + page(),
        pages_for(bytes) >= 0,
{
    assert(page() == 65536);
    let q = bytes / 65536;
    let m = bytes % 65536;
    assert(q * 65536 + m == bytes && 0 <= m < 65536 && q >= 0) by (nonlinear_arith)
        requires q == bytes / 65536, m == bytes % 65536, bytes >= 0;
    assert((q + 1) * 65536 == q * 65536 + 65536) by (nonlinear_arith);
}

/// More bytes never need fewer pages.
pub proof fn lemma_pages_for_monotone(a: int, b: int)
    requires
        0 <= a <= b,
    ensures
        pages_for(a) <= pages_for(b),
{
    lemma_pages_for(a);
    lemma_pages_for(b);
    let x = pages_for(a);
    let y = pages_for(b);
    assert(x <= y) by (nonlinear_arith)
        requires x * 65536 < a + 65536, y * 65536 >= b, a <= b;
}

/// Writing `a` at `offset` and then `b` right after it leaves the region as
/// one write of `a + b` at `offset` does: batching writes changes nothing.
pub proof fn lemma_write_then_write(s: Seq<u8>, offset: int, a: Seq<u8>, b: Seq<u8>)
    requires
        0 <= offset,
    ensures
        write_effect(write_effect(s, offset, a), offset + a.len(), b) == write_effect(
            s,
            offset,
            a + b,
        ),
{
    lemma_pages_for_monotone(offset + a.len(), offset + a.len() + b.len());
    lemma_pages_for(offset + a.len() + b.len());
    lemma_pages_for(offset + a.len());
    let first = write_effect(s, offset, a);
    let both = write_effect(first, offset + a.len(), b);
    let once = write_effect(s, offset, a + b);
    let p1 = pages_for(offset + a.len());
    let p2 = pages_for(offset + a.len() + b.len());
    assert(p1 * page() <= p2 * page()) by (nonlinear_arith)
        requires p1 <= p2;
    assert(both.len() == once.len());
    assert forall|i: int| 0 <= i < both.len() implies both[i] == once[i] by {
        if offset <= i < offset + a.len() {
            assert((a + b)[i - offset] == a[i - offset]);
        } else if offset + a.len() <= i < offset + a.len() + b.len() {
            assert((a + b)[i - offset] == b[i - offset - a.len()]);
        }
    }
    assert(both =~= once);
}

/// The bytes of all `bufs`, one after another.
pub open spec fn concat_all(bufs: Seq<Seq<u8>>) -> Seq<u8>
    decreases bufs.len(),
{
    if bufs.len() == 0 {
        Seq::empty()
    } else {
        concat_all(bufs.drop_last()) + bufs.last()
    }
}

/// `states` is a run of successful writes of `bufs`: each state is the one
/// before with the next buffer written.
pub open spec fn write_run<M: StableMemory>(states: Seq<StableIO<M>>, bufs: Seq<Seq<u8>>) -> bool {
    &&& states.len() == bufs.len() + 1
    &&& forall|i: int|
        0 <= i < bufs.len() ==> #[trigger] states[i].wf() && write_spec(
            states[i],
            states[i + 1],
            bufs[i],
            Ok::<usize, StableMemoryError>(bufs[i].len() as usize),
        )
}

/// After any run of successful writes the offset is the first offset plus all
/// the bytes written; where the region is known, the cached capacity covers
/// the offset once anything was written.
pub proof fn lemma_write_run_offset<M: StableMemory>(states: Seq<StableIO<M>>, bufs: Seq<Seq<u8>>)
    requires
        write_run(states, bufs),
    ensures
        states.last().pos() == states[0].pos() + concat_all(bufs).len(),
        states[0].region() is Some ==> states.last().region() is Some,
        states[0].region() is Some && bufs.len() > 0 ==> states.last().pages() * page()
            >= states.last().pos(),
    decreases bufs.len(),
{
    if bufs.len() > 0 {
        let k = bufs.len() - 1;
        let shorter = states.subrange(0, k + 1);
        assert(write_run(shorter, bufs.drop_last())) by {
            assert forall|i: int| 0 <= i < bufs.drop_last().len() implies #[trigger] shorter[i].wf()
                && write_spec(
                shorter[i],
                shorter[i + 1],
                bufs.drop_last()[i],
                Ok::<usize, StableMemoryError>(bufs.drop_last()[i].len() as usize),
            ) by {
                assert(states[i].wf());
            }
        }
        lemma_write_run_offset(shorter, bufs.drop_last());
        assert(states[k].wf());
        let b = states[k];
        let a = states[k + 1];
        if b.region() is Some {
            let need = pages_for(b.pos() + bufs[k].len());
            lemma_pages_for(b.pos() + bufs[k].len());
            let p = a.pages();
            if need > b.pages() {
                assert(p == need);
            } else {
                assert(p == b.pages());
                assert(p * page() >= need * page()) by (nonlinear_arith)
                    requires p >= need;
            }
        }
    }
}

/// A successful grow of a cursor over a known region by `new_pages` adds
/// exactly that many pages to its capacity and to the region.
pub proof fn lemma_grow_adds_pages<M: StableMemory>(
    before: StableIO<M>,
    after: StableIO<M>,
    new_pages: u64,
)
    requires
        before.wf(),
        before.region() is Some,
        grow_spec(before, after, new_pages, Ok(())),
    ensures
        after.pages() == before.pages() + new_pages,
        known_pages(after.region(), before.pages() + new_pages),
{
    let s = before.region().unwrap();
    let c = before.pages();
    let k = new_pages as int;
    assert((c + k) * 65536 == c * 65536 + k * 65536) by (nonlinear_arith);
    assert(k * 65536 >= 0) by (nonlinear_arith) requires k >= 0;
}

/// A write that reaches past the cached capacity of a known region grows it
/// by exactly the missing pages: the capacity becomes the pages that the
/// written range needs, no more.
pub proof fn lemma_write_grows_exactly<M: StableMemory>(
    before: StableIO<M>,
    after: StableIO<M>,
    buf: Seq<u8>,
    n: usize,
)
    requires
        before.wf(),
        before.region() is Some,
        write_spec(before, after, buf, Ok(n)),
        pages_for(before.pos() + buf.len()) > before.pages(),
    ensures
        after.pages() - before.pages() == pages_for(before.pos() + buf.len()) - before.pages(),
        after.region() matches Some(t) && t.len() == pages_for(before.pos() + buf.len()) * page(),
{
    let s = before.region().unwrap();
    let need = pages_for(before.pos() + buf.len());
    lemma_pages_for(before.pos() + buf.len());
    assert(need * page() > s.len()) by (nonlinear_arith)
        requires need > before.pages(), s.len() == before.pages() * 65536;
}

/// A read whose range lies within the cached capacity reads all of it and
/// moves the offset past it.
pub proof fn lemma_read_within<M: StableMemory>(
    before: StableIO<M>,
    after: StableIO<M>,
    old_buf: Seq<u8>,
    new_buf: Seq<u8>,
    r: Result<usize, StableMemoryError>,
)
    requires
        before.wf(),
        read_spec(before, after, old_buf, new_buf, r),
        before.pos() + old_buf.len() <= before.cap(),
    ensures
        r == Ok::<usize, StableMemoryError>(old_buf.len() as usize),
        after.pos() == before.pos() + old_buf.len(),
{
}

/// A read of a non-empty buffer that starts at the end of the cached capacity
/// or past it is out of bounds; one that starts below it but reaches past it
/// is a short read up to the end.
pub proof fn lemma_read_at_end<M: StableMemory>(
    before: StableIO<M>,
    after: StableIO<M>,
    old_buf: Seq<u8>,
    new_buf: Seq<u8>,
    r: Result<usize, StableMemoryError>,
)
    requires
        before.wf(),
        read_spec(before, after, old_buf, new_buf, r),
        old_buf.len() > 0,
    ensures
        before.pos() >= before.cap() ==> r == Err::<usize, StableMemoryError>(
            StableMemoryError::OutOfBounds,
        ),
        before.pos() < before.cap() < before.pos() + old_buf.len() ==> r == Ok::<
            usize,
            StableMemoryError,
        >((before.cap() - before.pos()) as usize) && after.pos() == before.cap(),
{
}

/// Writing `data` at an offset and then reading as many bytes at that offset,
/// through a fresh cursor of the same width over the memory written, gives
/// `data` back.
pub proof fn lemma_write_then_read<M: StableMemory>(
    w0: StableIO<M>,
    w1: StableIO<M>,
    data: Seq<u8>,
    n: usize,
    r0: StableIO<M>,
    r1: StableIO<M>,
    old_buf: Seq<u8>,
    new_buf: Seq<u8>,
    r: Result<usize, StableMemoryError>,
)
    requires
        w0.wf(),
        w0.region() is Some,
        w0.pos() + data.len() <= addr_max(w0.is_wide()),
        write_spec(w0, w1, data, Ok(n)),
        r0.wf(),
        r0.mem() == w1.mem(),
        r0.is_wide() == w0.is_wide(),
        r0.pos() == w0.pos(),
        read_spec(r0, r1, old_buf, new_buf, r),
        old_buf.len() == data.len(),
    ensures
        r == Ok::<usize, StableMemoryError>(data.len() as usize),
        new_buf == data,
{
    let s = w0.region().unwrap();
    let t = w1.region().unwrap();
    let o = w0.pos();
    let need = pages_for(o + data.len());
    lemma_pages_for(o + data.len());
    let p = w1.pages();
    let q = r0.pages();
    assert(q == p) by (nonlinear_arith)
        requires t.len() == p * 65536, t.len() == q * 65536;
    if need > w0.pages() {
        assert(p == need);
    } else {
        assert(p * 65536 >= need * 65536) by (nonlinear_arith)
            requires p >= need;
    }
    assert(o + data.len() <= r0.cap());
    assert(t.subrange(o, o + data.len()) =~= data);
    assert(new_buf.subrange(0, data.len() as int) =~= new_buf);
}

} // verus!
