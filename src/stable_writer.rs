//! Sequential writing of stable memory, plain and buffered.
use vstd::prelude::*;
use vstd::arithmetic::div_mod::lemma_small_mod;
use crate::canister_static::CanisterStableMemory;
use crate::stable_io::{
    concat_all, grow_spec, lemma_pages_for_monotone, lemma_write_then_write, pages_for, seek_spec,
    seek_target, write_effect, write_spec, SeekFrom, StableIO, MAX_ADDRESS_32,
};
use crate::stable_memory::{known_pages, StableMemory, StableMemoryError};

verus! {

/// What a buffered write of `data` that returned `r` does to the writer:
/// the region, once the buffer is written out, is as after a direct write of
/// `data` at the position of the next byte.
pub open spec fn buffered_write_spec<M: StableMemory>(
    before: BufferedStableWriter<M>,
    after: BufferedStableWriter<M>,
    data: Seq<u8>,
    r: Result<usize, StableMemoryError>,
) -> bool {
    &&& after.buffer_size() == before.buffer_size()
    &&& pages_for(before.logical_pos() + data.len()) <= before.writer().io().pages() ==> r is Ok
    &&& before.pending().len() + data.len() <= before.buffer_size() && data.len()
        < before.buffer_size() ==> {
        &&& r == Ok::<usize, StableMemoryError>(data.len() as usize)
        &&& after.pending() == before.pending() + data
        &&& after.writer() == before.writer()
    }
    &&& match r {
        Ok(n) => {
            &&& n == data.len()
            &&& after.logical_pos() == before.logical_pos() + n
            &&& before.contents() matches Some(s) ==> after.contents() == Some(
                if n == 0 {
                    s
                } else {
                    write_effect(s, before.logical_pos(), data)
                },
            )
        },
        Err(e) => {
            &&& e == StableMemoryError::OutOfMemory
            &&& after.logical_pos() == before.logical_pos()
            &&& after.contents() == before.contents()
        },
    }
}

/// `states` is a run of successful buffered writes of the non-empty `chunks`.
pub open spec fn buffered_run<M: StableMemory>(
    states: Seq<BufferedStableWriter<M>>,
    chunks: Seq<Seq<u8>>,
) -> bool {
    &&& states.len() == chunks.len() + 1
    &&& forall|i: int|
        0 <= i < chunks.len() ==> #[trigger] chunks[i].len() > 0 && buffered_write_spec(
            states[i],
            states[i + 1],
            chunks[i],
            Ok::<usize, StableMemoryError>(chunks[i].len() as usize),
        )
}

/// Buffering does not change what is written: after any run of buffered
/// writes (say, one byte at a time, past the buffer's size) the region, once
/// the buffer is written out, is the region after one direct write of all the
/// bytes at the first position.
pub proof fn lemma_buffered_run<M: StableMemory>(
    states: Seq<BufferedStableWriter<M>>,
    chunks: Seq<Seq<u8>>,
)
    requires
        buffered_run(states, chunks),
        chunks.len() > 0,
        states[0].contents() is Some,
        states[0].logical_pos() >= 0,
    ensures
        states.last().logical_pos() == states[0].logical_pos() + concat_all(chunks).len(),
        states.last().contents() == Some(
            write_effect(
                states[0].contents().unwrap(),
                states[0].logical_pos(),
                concat_all(chunks),
            ),
        ),
    decreases chunks.len(),
{
    let k = chunks.len() - 1;
    assert(chunks[k].len() > 0);
    if k == 0 {
        assert(chunks.drop_last().len() == 0);
        assert(concat_all(chunks.drop_last()) =~= Seq::<u8>::empty());
        assert(concat_all(chunks) =~= chunks[0]);
    } else {
        let shorter = states.subrange(0, k + 1);
        assert(buffered_run(shorter, chunks.drop_last())) by {
            assert forall|i: int| 0 <= i < chunks.drop_last().len() implies
                #[trigger] chunks.drop_last()[i].len()
                > 0 && buffered_write_spec(
                shorter[i],
                shorter[i + 1],
                chunks.drop_last()[i],
                Ok::<usize, StableMemoryError>(chunks.drop_last()[i].len() as usize),
            ) by {
                assert(chunks[i].len() > 0);
            }
        }
        lemma_buffered_run(shorter, chunks.drop_last());
        lemma_write_then_write(
            states[0].contents().unwrap(),
            states[0].logical_pos(),
            concat_all(chunks.drop_last()),
            chunks[k],
        );
    }
}

/// A writer to stable memory, with 32-bit addresses.
///
/// Writing overwrites what stable memory holds at the offset, so set the
/// offset to keep existing data. The memory is grown as writes need it.
pub struct StableWriter<M: StableMemory>(StableIO<M>);

impl Default for StableWriter<CanisterStableMemory> {
    /// A writer at offset 0 of the canister's stable memory.
    fn default() -> (r: Self)
        ensures
            r.wf(),
            r.io().pos() == 0,
    {
        StableWriter(StableIO::default())
    }
}

impl<M: StableMemory> StableWriter<M> {
    /// The cursor written through.
    pub closed spec fn io(&self) -> StableIO<M> {
        self.0
    }

    /// The cursor is well formed, has 32-bit addresses, and its offset is one.
    pub open spec fn wf(&self) -> bool {
        &&& self.io().wf()
        &&& !self.io().is_wide()
        &&& self.io().pos() <= MAX_ADDRESS_32
    }

    /// Creates a new `StableWriter` which writes to the selected memory, at
    /// `offset` taken modulo 2^32.
    pub fn with_memory(memory: M, offset: usize) -> (r: Self)
        ensures
            r.wf(),
            r.io().pos() == offset as int % (MAX_ADDRESS_32 as int + 1),
            offset <= MAX_ADDRESS_32 ==> r.io().pos() == offset,
            r.io().mem() == memory,
            known_pages(memory.region(), r.io().pages()),
    {
        let narrow = ((offset as u64) % (MAX_ADDRESS_32 + 1)) as u32;
        proof {
            if offset <= MAX_ADDRESS_32 {
                lemma_small_mod(offset as nat, MAX_ADDRESS_32 as nat + 1);
            }
        }
        StableWriter(StableIO::with_memory(memory, narrow))
    }

    /// Returns the offset of the writer (as far as `usize` reaches: only a
    /// 32-bit target cannot hold the offset just past 4 GiB).
    pub fn offset(&self) -> (r: usize)
        requires
            self.wf(),
        ensures
            r == if self.io().pos() <= usize::MAX {
                self.io().pos()
            } else {
                usize::MAX as int
            },
    {
        let o = self.0.offset();
        if o > usize::MAX as u64 {
            usize::MAX
        } else {
            o as usize
        }
    }

    /// Attempts to grow the memory by adding new pages; see `StableIO::grow`.
    pub fn grow(&mut self, new_pages: u32) -> (r: Result<(), StableMemoryError>)
        requires
            old(self).wf(),
        ensures
            final(self).wf(),
            grow_spec(old(self).io(), final(self).io(), new_pages as u64, r),
    {
        self.0.grow(new_pages as u64)
    }

    /// Writes a byte slice at the offset; see `StableIO::write`.
    ///
    /// The only condition where this will error out is if it cannot grow the
    /// memory.
    pub fn write(&mut self, buf: &[u8]) -> (r: Result<usize, StableMemoryError>)
        requires
            old(self).wf(),
            old(self).io().pos() + buf@.len() <= MAX_ADDRESS_32,
        ensures
            final(self).wf(),
            write_spec(old(self).io(), final(self).io(), buf@, r),
    {
        self.0.write(buf)
    }

    /// Nothing is held back, so there is nothing to flush.
    pub fn flush(&mut self) -> (r: Result<(), StableMemoryError>)
        ensures
            r is Ok,
            *final(self) == *old(self),
    {
        Ok(())
    }

    /// Moves the offset; see `StableIO::seek`.
    pub fn seek(&mut self, pos: SeekFrom) -> (r: u64)
        requires
            old(self).wf(),
        ensures
            final(self).wf(),
            seek_spec(old(self).io(), final(self).io(), pos, r),
    {
        self.0.seek(pos)
    }

    /// A writer over the cursor `io`, which must have 32-bit addresses.
    pub fn from_io(io: StableIO<M>) -> (r: Self)
        requires
            io.wf(),
            !io.is_wide(),
            io.pos() <= MAX_ADDRESS_32,
        ensures
            r.wf(),
            r.io() == io,
    {
        StableWriter(io)
    }

    /// Gives the memory back.
    pub fn into_memory(self) -> (r: M)
        ensures
            r == self.io().mem(),
    {
        self.0.into_memory()
    }
}

/// A writer to stable memory which first writes the bytes to an in-memory
/// buffer and writes the buffer to stable memory each time it becomes full.
///
/// Each grow or write of stable memory is comparatively costly, so pick a
/// buffer large enough to make them rare. Bytes still buffered are not in
/// stable memory: call `flush` before the writer is dropped.
pub struct BufferedStableWriter<M: StableMemory> {
    inner: StableWriter<M>,
    buf: Vec<u8>,
    capacity: usize,
}

impl BufferedStableWriter<CanisterStableMemory> {
    /// Creates a new `BufferedStableWriter` over the canister's stable memory,
    /// from offset 0.
    pub fn new(buffer_size: usize) -> (r: BufferedStableWriter<CanisterStableMemory>)
        ensures
            r.wf(),
            r.buffer_size() == buffer_size,
            r.pending() == Seq::<u8>::empty(),
            r.writer().io().pos() == 0,
    {
        BufferedStableWriter::with_writer(buffer_size, StableWriter::default())
    }
}

impl<M: StableMemory> BufferedStableWriter<M> {
    /// The writer underneath.
    pub closed spec fn writer(&self) -> StableWriter<M> {
        self.inner
    }

    /// Bytes written to the buffer and not yet to stable memory.
    pub closed spec fn pending(&self) -> Seq<u8> {
        self.buf@
    }

    /// The size of the buffer.
    pub closed spec fn buffer_size(&self) -> nat {
        self.capacity as nat
    }

    /// The writer is well formed, the buffer holds no more than its size, and
    /// the buffered bytes end at a 32-bit address.
    pub closed spec fn wf(&self) -> bool {
        &&& self.inner.wf()
        &&& self.buf@.len() <= self.capacity
        &&& self.inner.io().pos() + self.buf@.len() <= MAX_ADDRESS_32
    }

    /// The position of the next byte written.
    pub open spec fn logical_pos(&self) -> int {
        self.writer().io().pos() + self.pending().len()
    }

    /// The region as it is once the buffer is written out, where known.
    pub open spec fn contents(&self) -> Option<Seq<u8>> {
        match self.writer().io().region() {
            Some(s) => Some(
                if self.pending().len() == 0 {
                    s
                } else {
                    write_effect(s, self.writer().io().pos(), self.pending())
                },
            ),
            None => None,
        }
    }

    /// Creates a new `BufferedStableWriter` which writes through `writer`.
    pub fn with_writer(buffer_size: usize, writer: StableWriter<M>) -> (r: BufferedStableWriter<M>)
        requires
            writer.wf(),
        ensures
            r.wf(),
            r.writer() == writer,
            r.buffer_size() == buffer_size,
            r.pending() == Seq::<u8>::empty(),
    {
        BufferedStableWriter { inner: writer, buf: Vec::new(), capacity: buffer_size }
    }

    /// Returns the offset of the writer underneath, which is before the bytes
    /// still buffered.
    pub fn offset(&self) -> (r: usize)
        requires
            self.wf(),
        ensures
            r == self.writer().io().pos(),
    {
        self.inner.offset()
    }

    /// The number of bytes still buffered.
    pub fn buffered_len(&self) -> (r: usize)
        ensures
            r == self.pending().len(),
    {
        self.buf.len()
    }

    /// Gives back the writer underneath and the bytes still buffered, which
    /// are not written.
    pub fn into_parts(self) -> (r: (StableWriter<M>, Vec<u8>))
        ensures
            r.0 == self.writer(),
            r.1@ == self.pending(),
    {
        (self.inner, self.buf)
    }

    /// Writes the buffered bytes through the writer underneath; on failure
    /// nothing changes.
    fn flush_buf(&mut self) -> (r: Result<(), StableMemoryError>)
        requires
            old(self).wf(),
        ensures
            final(self).wf(),
            final(self).buffer_size() == old(self).buffer_size(),
            final(self).logical_pos() == old(self).logical_pos(),
            final(self).contents() == old(self).contents(),
            pages_for(old(self).logical_pos()) <= old(self).writer().io().pages() ==> r is Ok,
            old(self).pending().len() == 0 ==> r is Ok && *final(self) == *old(self),
            old(self).writer().io().mem().grow_succeeds(
                pages_for(old(self).logical_pos()) - old(self).writer().io().pages(),
            ) ==> r is Ok,
            pages_for(old(self).logical_pos()) <= old(self).writer().io().pages()
                ==> final(self).writer().io().pages() == old(self).writer().io().pages(),
            match r {
                Ok(()) => final(self).pending() == Seq::<u8>::empty(),
                Err(e) => {
                    &&& e == StableMemoryError::OutOfMemory
                    &&& final(self).pending() == old(self).pending()
                    &&& final(self).writer().io().pos() == old(self).writer().io().pos()
                    &&& final(self).writer().io().pages() == old(self).writer().io().pages()
                    &&& final(self).writer().io().region() == old(self).writer().io().region()
                },
            },
    {
        if self.buf.len() == 0 {
            return Ok(());
        }
        match self.inner.write(self.buf.as_slice()) {
            Ok(_) => {
                self.buf = Vec::new();
                Ok(())
            },
            Err(e) => {
                Err(e)
            },
        }
    }

    /// Writes the buffered bytes to stable memory, growing it as needed; on
    /// failure nothing changes.
    pub fn flush(&mut self) -> (r: Result<(), StableMemoryError>)
        requires
            old(self).wf(),
        ensures
            final(self).wf(),
            final(self).buffer_size() == old(self).buffer_size(),
            final(self).logical_pos() == old(self).logical_pos(),
            final(self).contents() == old(self).contents(),
            pages_for(old(self).logical_pos()) <= old(self).writer().io().pages() ==> r is Ok,
            old(self).pending().len() == 0 ==> r is Ok && *final(self) == *old(self),
            old(self).writer().io().mem().grow_succeeds(
                pages_for(old(self).logical_pos()) - old(self).writer().io().pages(),
            ) ==> r is Ok,
            match r {
                Ok(()) => {
                    &&& final(self).pending() == Seq::<u8>::empty()
                    &&& final(self).writer().io().region() == old(self).contents()
                },
                Err(e) => {
                    &&& e == StableMemoryError::OutOfMemory
                    &&& final(self).pending() == old(self).pending()
                    &&& final(self).writer().io().pos() == old(self).writer().io().pos()
                    &&& final(self).writer().io().pages() == old(self).writer().io().pages()
                    &&& final(self).writer().io().region() == old(self).writer().io().region()
                },
            },
    {
        self.flush_buf()
    }

    /// Writes `data`: into the buffer where it fits, else after writing the
    /// buffer out, and directly where `data` is no smaller than the buffer.
    ///
    /// The stable memory, once the buffer is written out, is as if `data` had
    /// been written directly at the position of the next byte: buffering only
    /// batches the writes. On failure (the memory cannot grow) the bytes
    /// written so far stay as they were.
    pub fn write(&mut self, data: &[u8]) -> (r: Result<usize, StableMemoryError>)
        requires
            old(self).wf(),
            old(self).logical_pos() + data@.len() <= MAX_ADDRESS_32,
        ensures
            final(self).wf(),
            buffered_write_spec(*old(self), *final(self), data@, r),
    {
        if data.len() == 0 {
            return Ok(0);
        }
        proof {
            let next = old(self).logical_pos();
            lemma_pages_for_monotone(next, next + data@.len());
        }
        if self.buf.len() + data.len() > self.capacity {
            match self.flush_buf() {
                Ok(()) => {},
                Err(e) => {
                    return Err(e);
                },
            }
        }
        if data.len() >= self.capacity {
            proof {
                assert(self.buf@.len() == 0);
            }
            self.inner.write(data)
        } else {
            let ghost s1 = *self;
            let mut i: usize = 0;
            while i < data.len()
                invariant
                    i <= data@.len(),
                    self.inner == s1.inner,
                    self.capacity == s1.capacity,
                    self.buf@ == s1.buf@ + data@.subrange(0, i as int),
                decreases data@.len() - i,
            {
                self.buf.push(data[i]);
                i = i + 1;
                proof {
                    assert(self.buf@ =~= s1.buf@ + data@.subrange(0, i as int));
                }
            }
            proof {
                assert(data@.subrange(0, data@.len() as int) =~= data@);
                if s1.buf@.len() == 0 {
                    assert(self.buf@ =~= data@);
                } else if let Some(s) = s1.inner.io().region() {
                    lemma_write_then_write(s, s1.inner.io().pos(), s1.buf@, data@);
                }
            }
            Ok(data.len())
        }
    }

    /// Writes the buffered bytes out, then moves the writer's offset;
    /// `Current` counts from the position of the next byte. On failure to
    /// write the buffer out nothing changes.
    pub fn seek(&mut self, pos: SeekFrom) -> (r: Result<u64, StableMemoryError>)
        requires
            old(self).wf(),
        ensures
            final(self).wf(),
            final(self).buffer_size() == old(self).buffer_size(),
            final(self).contents() == old(self).contents(),
            pages_for(old(self).logical_pos()) <= old(self).writer().io().pages() ==> r is Ok,
            old(self).pending().len() == 0 ==> r is Ok,
            old(self).writer().io().mem().grow_succeeds(
                pages_for(old(self).logical_pos()) - old(self).writer().io().pages(),
            ) ==> r is Ok,
            match r {
                Ok(p) => {
                    &&& final(self).pending() == Seq::<u8>::empty()
                    &&& p == final(self).writer().io().pos()
                    &&& p == seek_target(
                        old(self).logical_pos(),
                        final(self).writer().io().cap(),
                        pos,
                        false,
                    )
                },
                Err(e) => {
                    &&& e == StableMemoryError::OutOfMemory
                    &&& final(self).pending() == old(self).pending()
                    &&& final(self).writer().io().pos() == old(self).writer().io().pos()
                    &&& final(self).writer().io().pages() == old(self).writer().io().pages()
                    &&& final(self).writer().io().region() == old(self).writer().io().region()
                },
            },
    {
        match self.flush_buf() {
            Ok(()) => {},
            Err(e) => {
                return Err(e);
            },
        }
        let p = self.inner.seek(pos);
        Ok(p)
    }
}

} // verus!
