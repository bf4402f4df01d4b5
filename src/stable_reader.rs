//! Sequential reading of stable memory, plain and buffered.
use vstd::prelude::*;
use vstd::arithmetic::div_mod::lemma_small_mod;
use vstd::math::min;
use crate::canister_static::CanisterStableMemory;
use crate::stable_io::{read_outcome, read_spec, seek_spec, seek_target, SeekFrom, StableIO, MAX_ADDRESS_32};
use crate::stable_memory::{known_pages, StableMemory, StableMemoryError};

verus! {

/// A reader of stable memory, with 32-bit addresses.
///
/// Keeps an offset and reads off stable memory consecutively.
pub struct StableReader<M: StableMemory>(StableIO<M>);

impl Default for StableReader<CanisterStableMemory> {
    /// A reader at offset 0 of the canister's stable memory.
    fn default() -> (r: Self)
        ensures
            r.wf(),
            r.io().pos() == 0,
    {
        StableReader(StableIO::default())
    }
}

impl<M: StableMemory> StableReader<M> {
    /// The cursor read through.
    pub closed spec fn io(&self) -> StableIO<M> {
        self.0
    }

    /// The cursor is well formed and has 32-bit addresses.
    pub open spec fn wf(&self) -> bool {
        self.io().wf() && !self.io().is_wide()
    }

    /// Creates a new `StableReader` which reads from the selected memory, at
    /// `offset` taken modulo 2^32.
    pub fn with_memory(memory: M, offset: usize) -> (r: Self)
        ensures
            r.wf(),
            r.io().pos() == offset as int % (MAX_ADDRESS_32 as int + 1),
            offset <= MAX_ADDRESS_32 ==> r.io().pos() == offset,
            r.io().mem() == memory,
            known_pages(memory.region(), r.io().pages()),
    {
        let narrow = ((offset as u64) % (MAX_ADDRESS_32 + 1)) as u32;
        proof {
            if offset <= MAX_ADDRESS_32 {
                lemma_small_mod(offset as nat, MAX_ADDRESS_32 as nat + 1);
            }
        }
        StableReader(StableIO::with_memory(memory, narrow))
    }

    /// Returns the offset of the reader (as far as `usize` reaches: only a
    /// 32-bit target cannot hold the offset just past 4 GiB).
    pub fn offset(&self) -> (r: usize)
        requires
            self.wf(),
        ensures
            r == if self.io().pos() <= usize::MAX {
                self.io().pos()
            } else {
                usize::MAX as int
            },
    {
        let o = self.0.offset();
        if o > usize::MAX as u64 {
            usize::MAX
        } else {
            o as usize
        }
    }

    /// Returns the offset of the reader as a `u64`.
    pub fn io_offset(&self) -> (r: u64)
        ensures
            r == self.io().pos(),
    {
        self.0.offset()
    }

    /// Reads data from the stable memory at the offset; see `StableIO::read`.
    ///
    /// The stable memory size is cached when the reader is made, so bytes
    /// that a later grow (by another handle) added read as out of bounds.
    pub fn read(&mut self, buf: &mut Vec<u8>) -> (r: Result<usize, StableMemoryError>)
        requires
            old(self).wf(),
        ensures
            final(self).wf(),
            read_spec(old(self).io(), final(self).io(), old(buf)@, final(buf)@, r),
    {
        self.0.read(buf)
    }

    /// Moves the offset; see `StableIO::seek`.
    pub fn seek(&mut self, pos: SeekFrom) -> (r: u64)
        requires
            old(self).wf(),
        ensures
            final(self).wf(),
            seek_spec(old(self).io(), final(self).io(), pos, r),
    {
        self.0.seek(pos)
    }

    /// A reader over the cursor `io`, which must have 32-bit addresses.
    pub fn from_io(io: StableIO<M>) -> (r: Self)
        requires
            io.wf(),
            !io.is_wide(),
        ensures
            r.wf(),
            r.io() == io,
    {
        StableReader(io)
    }

    /// Gives the memory back.
    pub fn into_memory(self) -> (r: M)
        ensures
            r == self.io().mem(),
    {
        self.0.into_memory()
    }
}

/// The bytes a read of `len` bytes at `offset` with `cap` bytes cached hands
/// out; a read out of bounds hands out none.
pub open spec fn read_amount(offset: int, len: int, cap: int) -> int {
    match read_outcome(offset, len, cap) {
        Ok(k) => k,
        Err(_) => 0,
    }
}

/// A reader of stable memory which reads bytes a chunk at a time as each
/// chunk is required.
pub struct BufferedStableReader<M: StableMemory> {
    inner: StableReader<M>,
    /// Bytes read ahead; `buf[pos..]` are not yet handed out.
    buf: Vec<u8>,
    pos: usize,
    capacity: usize,
}

impl BufferedStableReader<CanisterStableMemory> {
    /// Creates a new `BufferedStableReader` over the canister's stable memory,
    /// from offset 0.
    pub fn new(buffer_size: usize) -> (r: BufferedStableReader<CanisterStableMemory>)
        ensures
            r.wf(),
            r.buffer_size() == buffer_size,
            r.pending() == Seq::<u8>::empty(),
            r.reader().io().pos() == 0,
    {
        BufferedStableReader::with_reader(buffer_size, StableReader::default())
    }
}

impl<M: StableMemory> BufferedStableReader<M> {
    /// The reader underneath.
    pub closed spec fn reader(&self) -> StableReader<M> {
        self.inner
    }

    /// Bytes read ahead and not yet handed out.
    pub closed spec fn pending(&self) -> Seq<u8> {
        self.buf@.subrange(self.pos as int, self.buf@.len() as int)
    }

    /// The size of the read-ahead buffer.
    pub closed spec fn buffer_size(&self) -> nat {
        self.capacity as nat
    }

    /// The reader is well formed, the buffer holds no more than its size, and
    /// the bytes read ahead are those just below the reader's offset.
    pub closed spec fn wf(&self) -> bool {
        &&& self.inner.wf()
        &&& self.pos <= self.buf@.len() <= self.capacity
        &&& self.pending().len() <= self.inner.io().pos()
        &&& self.pending().len() > 0 ==> (self.inner.io().region() matches Some(s) ==> {
            &&& self.inner.io().pos() <= s.len()
            &&& self.pending() == s.subrange(
                self.inner.io().pos() - self.pending().len(),
                self.inner.io().pos(),
            )
        })
    }

    /// The position of the next byte handed out.
    pub open spec fn logical_pos(&self) -> int {
        self.reader().io().pos() - self.pending().len()
    }

    /// Creates a new `BufferedStableReader` which reads through `reader`.
    pub fn with_reader(buffer_size: usize, reader: StableReader<M>) -> (r: BufferedStableReader<M>)
        requires
            reader.wf(),
        ensures
            r.wf(),
            r.reader() == reader,
            r.buffer_size() == buffer_size,
            r.pending() == Seq::<u8>::empty(),
    {
        let r = BufferedStableReader {
            inner: reader,
            buf: Vec::new(),
            pos: 0,
            capacity: buffer_size,
        };
        assert(r.buf@.subrange(0, 0) =~= Seq::<u8>::empty());
        r
    }

    /// Returns the offset of the reader underneath, which is past the bytes
    /// read ahead.
    pub fn offset(&self) -> (r: usize)
        requires
            self.wf(),
        ensures
            r == if self.reader().io().pos() <= usize::MAX {
                self.reader().io().pos()
            } else {
                usize::MAX as int
            },
    {
        self.inner.offset()
    }

    /// Reads into `out`: from the bytes read ahead, else (when `out` is
    /// smaller than the buffer) after reading one buffer's worth ahead, else
    /// directly. A read that the reader refuses ends the stream: it hands out
    /// no bytes.
    pub fn read(&mut self, out: &mut Vec<u8>) -> (r: usize)
        requires
            old(self).wf(),
        ensures
            final(self).wf(),
            final(self).buffer_size() == old(self).buffer_size(),
            final(self).reader().io().mem() == old(self).reader().io().mem(),
            final(self).reader().io().pages() == old(self).reader().io().pages(),
            r <= old(out)@.len(),
            final(out)@.len() == old(out)@.len(),
            final(self).logical_pos() == old(self).logical_pos() + r,
            final(out)@.subrange(r as int, final(out)@.len() as int) == old(out)@.subrange(
                r as int,
                old(out)@.len() as int,
            ),
            r > 0 ==> (old(self).reader().io().region() matches Some(s) ==> final(out)@.subrange(
                0,
                r as int,
            ) == s.subrange(old(self).logical_pos(), old(self).logical_pos() + r)),
            old(out)@.len() > 0 && old(self).pending().len() > 0 ==> r > 0,
            old(out)@.len() > 0 && old(self).logical_pos() < old(self).reader().io().cap() ==> r
                > 0,
            old(self).pending().len() > 0 ==> {
                &&& r == min(old(self).pending().len() as int, old(out)@.len() as int)
                &&& final(self).reader().io().pos() == old(self).reader().io().pos()
            },
            old(self).pending().len() == 0 && old(out)@.len() >= old(self).buffer_size() ==> {
                &&& r == read_amount(
                    old(self).reader().io().pos(),
                    old(out)@.len() as int,
                    old(self).reader().io().cap(),
                )
                &&& final(self).reader().io().pos() == old(self).reader().io().pos() + r
            },
            old(self).pending().len() == 0 && old(out)@.len() < old(self).buffer_size() ==> {
                let ahead = read_amount(
                    old(self).reader().io().pos(),
                    old(self).buffer_size() as int,
                    old(self).reader().io().cap(),
                );
                &&& final(self).reader().io().pos() == old(self).reader().io().pos() + ahead
                &&& r == min(ahead, old(out)@.len() as int)
            },
    {
        if self.pos == self.buf.len() && out.len() >= self.capacity {
            proof {
                assert(self.pending() =~= Seq::<u8>::empty());
            }
            let res = self.inner.read(out);
            let got: usize = match res {
                Ok(k) => k,
                Err(_) => 0,
            };
            proof {
                assert(self.pending() =~= Seq::<u8>::empty());
                if res is Err {
                    assert(out@.subrange(0, 0) =~= Seq::<u8>::empty());
                }
            }
            return got;
        }
        if self.pos == self.buf.len() {
            let mut fresh: Vec<u8> = vec![0u8; self.capacity];
            let res = self.inner.read(&mut fresh);
            match res {
                Ok(k) => {
                    fresh.truncate(k);
                    self.buf = fresh;
                },
                Err(_) => {
                    self.buf = Vec::new();
                },
            }
            self.pos = 0;
            proof {
                assert(self.pending() =~= self.buf@);
            }
        }
        assert(self.wf());
        let ghost s1 = *self;
        let blen = self.buf.len();
        let avail = blen - self.pos;
        let count = if avail < out.len() {
            avail
        } else {
            out.len()
        };
        let ghost orig = out@;
        let mut i: usize = 0;
        while i < count
            invariant
                i <= count,
                count <= out@.len(),
                out@.len() == orig.len(),
                blen == self.buf@.len(),
                self.pos + count <= blen,
                forall|j: int| 0 <= j < i ==> #[trigger] out@[j] == self.buf@[self.pos + j],
                forall|j: int| i <= j < orig.len() ==> #[trigger] out@[j] == orig[j],
            decreases count - i,
        {
            out.set(i, self.buf[self.pos + i]);
            i = i + 1;
        }
        proof {
            assert(out@.subrange(0, count as int) =~= s1.pending().subrange(0, count as int));
            assert(out@.subrange(count as int, out@.len() as int) =~= orig.subrange(
                count as int,
                orig.len() as int,
            ));
        }
        self.pos = self.pos + count;
        proof {
            let rest = s1.pending().subrange(count as int, s1.pending().len() as int);
            assert(self.pending() =~= rest);
            if self.pending().len() > 0 {
                if let Some(s) = self.inner.io().region() {
                    let ip = self.inner.io().pos();
                    assert(s.subrange(ip - self.pending().len(), ip) =~= s1.pending().subrange(
                        count as int,
                        s1.pending().len() as int,
                    ));
                }
            }
        }
        count
    }

    /// Moves the position of the next byte handed out, dropping the bytes
    /// read ahead; `Current` counts from that position. Returns the reader's
    /// new offset.
    pub fn seek(&mut self, pos: SeekFrom) -> (r: u64)
        requires
            old(self).wf(),
        ensures
            final(self).wf(),
            final(self).buffer_size() == old(self).buffer_size(),
            final(self).pending() == Seq::<u8>::empty(),
            final(self).reader().io().mem() == old(self).reader().io().mem(),
            final(self).reader().io().pages() == old(self).reader().io().pages(),
            r == final(self).reader().io().pos(),
            final(self).reader().io().pos() == seek_target(
                old(self).logical_pos(),
                old(self).reader().io().cap(),
                pos,
                false,
            ),
    {
        let remainder = self.buf.len() - self.pos;
        let r = match pos {
            SeekFrom::Current(n) => {
                if remainder == 0 {
                    self.inner.seek(pos)
                } else {
                    let logical = self.inner.io_offset() - remainder as u64;
                    self.inner.seek(SeekFrom::Start(logical));
                    self.inner.seek(SeekFrom::Current(n))
                }
            },
            other => self.inner.seek(other),
        };
        self.buf = Vec::new();
        self.pos = 0;
        proof {
            assert(self.pending() =~= Seq::<u8>::empty());
        }
        r
    }
}

} // verus!
