//! Streaming reads and writes over a growable, page-granular memory region.
mod canister_static;
mod host;
mod stable_io;
mod stable_memory;
mod stable_reader;
mod stable_writer;
mod vec_memory;

pub use canister_static::{
    grow_outcome, grow_outcome64, narrow_size, range_fits, zeroed_region, stable64_grow, stable64_read, stable64_size, stable64_write,
    stable_bytes, stable_grow, stable_read, stable_size, stable_write, CanisterStableMemory,
};
pub use stable_io::{
    capacity_after_grow,
    lemma_grow_adds_pages, lemma_pages_for_monotone, lemma_read_at_end, lemma_read_within,
    lemma_write_grows_exactly, lemma_write_run_offset, lemma_write_then_read,
    lemma_write_then_write, SeekFrom, StableIO, MAX_ADDRESS_32, MAX_ADDRESS_64,
};
pub use stable_memory::{
    lemma_grow_reports_prior, StableMemory, StableMemoryError, WASM_PAGE_SIZE_IN_BYTES,
};
pub use stable_reader::{BufferedStableReader, StableReader};
pub use stable_writer::{lemma_buffered_run, BufferedStableWriter, StableWriter};
pub use vec_memory::{VecMemory, VEC_MEMORY_MAX_PAGES};
