//! A stable memory held in an ordinary vector, owned by whoever holds it.
use vstd::prelude::*;
use crate::stable_memory::{
    page, zero_pages, splice, StableMemory, StableMemoryError, WASM_PAGE_SIZE_IN_BYTES,
};

verus! {

/// The largest number of pages a `VecMemory` holds: its size must fit the
/// 32-bit size query.
pub const VEC_MEMORY_MAX_PAGES: u64 = 4294967295;

/// A region of whole pages kept in process memory.
pub struct VecMemory {
    data: Vec<u8>,
}

/// A byte count is a whole number of pages that the size queries can report.
pub open spec fn valid_len(len: int) -> bool {
    &&& len % page() == 0
    &&& len / page() <= VEC_MEMORY_MAX_PAGES
}

impl VecMemory {
    /// The bytes held.
    pub closed spec fn bytes(&self) -> Seq<u8> {
        self.data@
    }

    /// A memory of `pages` zeroed pages, or `None` where that many bytes
    /// cannot be held.
    pub fn with_pages(pages: u64) -> (r: Option<VecMemory>)
        ensures
            match r {
                Some(m) => m.region() == Some(zero_pages(pages as int)),
                None => pages > VEC_MEMORY_MAX_PAGES || pages * page() > usize::MAX,
            },
    {
        if pages > VEC_MEMORY_MAX_PAGES || pages > (usize::MAX as u64) / WASM_PAGE_SIZE_IN_BYTES {
            return None;
        }
        let len = (pages * WASM_PAGE_SIZE_IN_BYTES) as usize;
        let data: Vec<u8> = vec![0u8; len];
        let m = VecMemory { data };
        assert(m.data@ =~= zero_pages(pages as int));
        assert(valid_len(m.data@.len() as int)) by (nonlinear_arith)
            requires m.data@.len() == pages * 65536, pages <= VEC_MEMORY_MAX_PAGES;
        Some(m)
    }

    /// The whole region, copied out.
    pub fn to_vec(&self) -> (r: Vec<u8>)
        ensures
            r@ == self.bytes(),
    {
        self.data.clone()
    }

    fn grow_pages(&mut self, new_pages: u64) -> (r: Result<u64, StableMemoryError>)
        requires
            valid_len(old(self).data@.len() as int),
        ensures
            old(self).grow_succeeds(new_pages as int) ==> r is Ok,
            valid_len(final(self).data@.len() as int),
            match r {
                Ok(prev) => {
                    &&& old(self).data@.len() == prev * page()
                    &&& final(self).data@ == old(self).data@ + zero_pages(new_pages as int)
                },
                Err(e) => {
                    &&& e == StableMemoryError::OutOfMemory
                    &&& final(self).data@ == old(self).data@
                },
            },
    {
        let len = self.data.len();
        let prev = (len as u64) / WASM_PAGE_SIZE_IN_BYTES;
        assert(prev * page() == len) by (nonlinear_arith)
            requires len % 65536 == 0, prev == len / 65536;
        if new_pages > VEC_MEMORY_MAX_PAGES - prev {
            return Err(StableMemoryError::OutOfMemory);
        }
        let total = prev + new_pages;
        if total > (usize::MAX as u64) / WASM_PAGE_SIZE_IN_BYTES {
            return Err(StableMemoryError::OutOfMemory);
        }
        let target = (total * WASM_PAGE_SIZE_IN_BYTES) as usize;
        let ghost before = self.data@;
        assert(target == len + new_pages * page()) by (nonlinear_arith)
            requires target == total * 65536, total == prev + new_pages, prev * 65536 == len;
        while self.data.len() < target
            invariant
                len <= self.data@.len() <= target,
                target == len + new_pages * page(),
                before.len() == len,
                forall|i: int| 0 <= i < len ==> self.data@[i] == before[i],
                forall|i: int| len <= i < self.data@.len() ==> self.data@[i] == 0u8,
            decreases target - self.data@.len(),
        {
            self.data.push(0u8);
        }
        assert(self.data@ =~= before + zero_pages(new_pages as int));
        assert(valid_len(target as int)) by (nonlinear_arith)
            requires target == total * 65536, total <= VEC_MEMORY_MAX_PAGES;
        Ok(prev)
    }

    fn write_at(&mut self, offset: u64, buf: &[u8])
        requires
            offset + buf@.len() <= old(self).data@.len(),
        ensures
            final(self).data@ == splice(old(self).data@, offset as int, buf@),
    {
        let ghost before = self.data@;
        let _len = self.data.len();
        let start = offset as usize;
        let mut i: usize = 0;
        while i < buf.len()
            invariant
                start == offset,
                _len == before.len(),
                i <= buf@.len(),
                offset + buf@.len() <= before.len(),
                self.data@.len() == before.len(),
                forall|j: int|
                    0 <= j < self.data@.len() ==> #[trigger] self.data@[j] == if offset <= j
                        < offset + i {
                        buf@[j - offset]
                    } else {
                        before[j]
                    },
            decreases buf@.len() - i,
        {
            self.data.set(start + i, buf[i]);
            i = i + 1;
        }
        assert(self.data@ =~= splice(before, offset as int, buf@));
    }

    fn read_at(&self, offset: u64, buf: &mut Vec<u8>)
        requires
            offset + old(buf)@.len() <= self.data@.len(),
        ensures
            final(buf)@ == self.data@.subrange(offset as int, offset + old(buf)@.len()),
    {
        let _len = self.data.len();
        let start = offset as usize;
        let n = buf.len();
        let mut i: usize = 0;
        while i < n
            invariant
                start == offset,
                _len == self.data@.len(),
                n == buf@.len(),
                i <= n,
                offset + n <= self.data@.len(),
                forall|j: int| 0 <= j < i ==> #[trigger] buf@[j] == self.data@[offset + j],
            decreases n - i,
        {
            buf.set(i, self.data[start + i]);
            i = i + 1;
        }
        assert(buf@ =~= self.data@.subrange(offset as int, offset + n));
    }
}

impl StableMemory for VecMemory {
    /// The bytes held, which a `VecMemory` always keeps as whole pages.
    open spec fn region(&self) -> Option<Seq<u8>> {
        if valid_len(self.bytes().len() as int) {
            Some(self.bytes())
        } else {
            None
        }
    }

    /// The region is whole pages and the grown one still fits the limits.
    open spec fn grow_succeeds(&self, new_pages: int) -> bool {
        &&& valid_len(self.bytes().len() as int)
        &&& new_pages >= 0
        &&& (self.bytes().len() as int) / page() + new_pages <= VEC_MEMORY_MAX_PAGES
        &&& (self.bytes().len() as int) / page() + new_pages <= (usize::MAX as int) / page()
    }

    fn stable_size(&self) -> (r: u32) {
        let pages = (self.data.len() as u64) / WASM_PAGE_SIZE_IN_BYTES;
        if pages > VEC_MEMORY_MAX_PAGES {
            return 0;
        }
        proof {
            if valid_len(self.data@.len() as int) {
                let len = self.data@.len();
                assert(pages * page() == len) by (nonlinear_arith)
                    requires len % 65536 == 0, pages == len / 65536;
            }
        }
        pages as u32
    }

    fn stable64_size(&self) -> (r: u64) {
        let pages = (self.data.len() as u64) / WASM_PAGE_SIZE_IN_BYTES;
        proof {
            if valid_len(self.data@.len() as int) {
                let len = self.data@.len();
                assert(pages * page() == len) by (nonlinear_arith)
                    requires len % 65536 == 0, pages == len / 65536;
            }
        }
        pages
    }

    fn stable_grow(&mut self, new_pages: u32) -> (r: Result<u32, StableMemoryError>) {
        if !valid_len_exec(self.data.len()) {
            return Err(StableMemoryError::OutOfMemory);
        }
        match self.grow_pages(new_pages as u64) {
            Ok(prev) => Ok(prev as u32),
            Err(e) => Err(e),
        }
    }

    fn stable64_grow(&mut self, new_pages: u64) -> (r: Result<u64, StableMemoryError>) {
        if !valid_len_exec(self.data.len()) {
            return Err(StableMemoryError::OutOfMemory);
        }
        self.grow_pages(new_pages)
    }

    fn stable_write(&mut self, offset: u32, buf: &[u8]) {
        if (offset as u64) <= self.data.len() as u64 && buf.len() as u64 <= self.data.len() as u64
            - offset as u64 {
            self.write_at(offset as u64, buf);
            proof { lemma_splice_len(old(self).data@, offset as int, buf@); }
        }
    }

    fn stable64_write(&mut self, offset: u64, buf: &[u8]) {
        if offset <= self.data.len() as u64 && buf.len() as u64 <= self.data.len() as u64 - offset {
            self.write_at(offset, buf);
            proof { lemma_splice_len(old(self).data@, offset as int, buf@); }
        }
    }

    fn stable_read(&self, offset: u32, buf: &mut Vec<u8>) {
        if (offset as u64) <= self.data.len() as u64 && buf.len() as u64 <= self.data.len() as u64
            - offset as u64 {
            self.read_at(offset as u64, buf);
        }
    }

    fn stable64_read(&self, offset: u64, buf: &mut Vec<u8>) {
        if offset <= self.data.len() as u64 && buf.len() as u64 <= self.data.len() as u64 - offset {
            self.read_at(offset, buf);
        }
    }
}

fn valid_len_exec(len: usize) -> (r: bool)
    ensures
        r == valid_len(len as int),
{
    len as u64 % WASM_PAGE_SIZE_IN_BYTES == 0 && (len as u64) / WASM_PAGE_SIZE_IN_BYTES
        <= VEC_MEMORY_MAX_PAGES
}

proof fn lemma_splice_len(s: Seq<u8>, offset: int, data: Seq<u8>)
    ensures
        splice(s, offset, data).len() == s.len(),
{
}

} // verus!
