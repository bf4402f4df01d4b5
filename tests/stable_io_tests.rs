use stable_io::{
    capacity_after_grow, narrow_size, range_fits, zeroed_region,
    grow_outcome, grow_outcome64, BufferedStableReader, BufferedStableWriter, SeekFrom, StableIO,
    StableMemory, StableMemoryError, StableReader, StableWriter, VecMemory,
    WASM_PAGE_SIZE_IN_BYTES,
};

const PAGE: usize = WASM_PAGE_SIZE_IN_BYTES as usize;

fn memory(pages: u64) -> VecMemory {
    VecMemory::with_pages(pages).unwrap()
}

fn pattern(len: usize) -> Vec<u8> {
    (0..len).map(|i| (i % 251) as u8).collect()
}

#[test]
fn write_past_capacity_grows_to_two_pages() {
    let mut writer = StableWriter::with_memory(memory(0), 0);
    let data = pattern(70000);
    assert_eq!(writer.write(&data), Ok(70000));
    assert_eq!(writer.offset(), 70000);
    let mem = writer.into_memory();
    assert_eq!(mem.stable_size(), 2);
    assert_eq!(mem.stable64_size(), 2);
    let bytes = mem.to_vec();
    assert_eq!(bytes.len(), 2 * PAGE);
    assert_eq!(&bytes[..70000], &data[..]);
    assert!(bytes[70000..].iter().all(|b| *b == 0));
}

#[test]
fn read_across_cached_capacity_is_short() {
    let mut reader = StableReader::with_memory(memory(1), 60000);
    let mut buf = vec![7u8; 10000];
    assert_eq!(reader.read(&mut buf), Ok(5536));
    assert_eq!(reader.offset(), 65536);
    assert!(buf[..5536].iter().all(|b| *b == 0));
    assert!(buf[5536..].iter().all(|b| *b == 7));
}

#[test]
fn read_at_cached_capacity_is_out_of_bounds() {
    let mut reader = StableReader::with_memory(memory(1), 0);
    assert_eq!(reader.seek(SeekFrom::Start(65536)), 65536);
    let mut buf = vec![0u8; 1];
    assert_eq!(reader.read(&mut buf), Err(StableMemoryError::OutOfBounds));
    assert_eq!(reader.offset(), 65536);
}

#[test]
fn empty_read_at_cached_capacity_reads_nothing() {
    let mut reader = StableReader::with_memory(memory(1), 65536);
    let mut buf: Vec<u8> = Vec::new();
    assert_eq!(reader.read(&mut buf), Ok(0));
}

#[test]
fn read_within_capacity_reads_all() {
    let mut reader = StableReader::with_memory(memory(2), 1000);
    let mut buf = vec![1u8; 5000];
    assert_eq!(reader.read(&mut buf), Ok(5000));
    assert_eq!(reader.offset(), 6000);
    assert_eq!(reader.read(&mut buf), Ok(5000));
    assert_eq!(reader.offset(), 11000);
}

#[test]
fn offsets_add_up_over_writes() {
    let mut writer = StableWriter::with_memory(memory(0), 100);
    let mut expected = 100;
    for len in [0usize, 1, 10, 65536, 3, 70000] {
        let data = pattern(len);
        assert_eq!(writer.write(&data), Ok(len));
        expected += len;
        assert_eq!(writer.offset(), expected);
    }
    let mem = writer.into_memory();
    assert!(mem.stable_size() as usize * PAGE >= expected);
}

#[test]
fn grow_adds_pages() {
    let mut writer = StableWriter::with_memory(memory(1), 0);
    assert_eq!(writer.grow(3), Ok(()));
    let mut mem = writer.into_memory();
    assert_eq!(mem.stable_size(), 4);
    assert_eq!(mem.stable_grow(2), Ok(4));
    assert_eq!(mem.stable64_grow(1), Ok(6));
    assert_eq!(mem.stable64_size(), 7);
}

#[test]
fn grow_beyond_address_width_fails() {
    let mut io = StableIO::with_memory(memory(1), 0);
    assert_eq!(io.grow(u32::MAX as u64), Err(StableMemoryError::OutOfMemory));
    assert_eq!(io.capacity(), 1);
}

#[test]
fn write_grows_by_missing_pages_only() {
    let mut io = StableIO::with_memory(memory(1), 65000);
    assert_eq!(io.capacity(), 1);
    assert_eq!(io.write(&pattern(500)), Ok(500));
    assert_eq!(io.capacity(), 1);
    assert_eq!(io.write(&pattern(3 * PAGE)), Ok(3 * PAGE));
    // 65500 + 196608 = 262108 bytes need 4 pages.
    assert_eq!(io.capacity(), 4);
    assert_eq!(io.into_memory().stable_size(), 4);
}

#[test]
fn write_ending_on_page_boundary_needs_no_extra_page() {
    let mut io = StableIO::with_memory(memory(0), 0);
    assert_eq!(io.write(&pattern(PAGE)), Ok(PAGE));
    assert_eq!(io.capacity(), 1);
    assert_eq!(io.write(&pattern(1)), Ok(1));
    assert_eq!(io.capacity(), 2);
}

#[test]
fn empty_write_past_capacity_grows() {
    let mut io = StableIO::with_memory(memory(0), 0);
    io.seek(SeekFrom::Start(70000));
    assert_eq!(io.write(&[]), Ok(0));
    assert_eq!(io.capacity(), 2);
    assert_eq!(io.offset(), 70000);
}

#[test]
fn written_bytes_read_back() {
    let data = pattern(100000);
    let mut writer = StableWriter::with_memory(memory(1), 12345);
    assert_eq!(writer.write(&data), Ok(data.len()));
    let mut reader = StableReader::with_memory(writer.into_memory(), 12345);
    let mut buf = vec![0u8; data.len()];
    assert_eq!(reader.read(&mut buf), Ok(data.len()));
    assert_eq!(buf, data);
}

#[test]
fn stale_capacity_reads_out_of_bounds() {
    let mem = memory(1);
    let mut reader = StableReader::with_memory(mem, 65536);
    let mut buf = vec![0u8; 4];
    assert_eq!(reader.read(&mut buf), Err(StableMemoryError::OutOfBounds));
    let mut mem = reader.into_memory();
    assert_eq!(mem.stable_grow(1), Ok(1));
    let mut fresh = StableReader::with_memory(mem, 65536);
    assert_eq!(fresh.read(&mut buf), Ok(4));
}

#[test]
fn buffered_writes_match_one_write() {
    let data = pattern(1000);
    let mut buffered = BufferedStableWriter::with_writer(64, StableWriter::with_memory(memory(0), 10));
    for b in &data {
        assert_eq!(buffered.write(&[*b]), Ok(1));
    }
    assert_eq!(buffered.flush(), Ok(()));
    assert_eq!(buffered.offset(), 1010);
    let (writer, rest) = buffered.into_parts();
    assert!(rest.is_empty());
    let batched = writer.into_memory().to_vec();

    let mut direct = StableWriter::with_memory(memory(0), 10);
    assert_eq!(direct.write(&data), Ok(1000));
    let single = direct.into_memory().to_vec();
    assert_eq!(batched, single);
}

#[test]
fn buffered_writer_holds_bytes_until_full() {
    let mut buffered = BufferedStableWriter::with_writer(8, StableWriter::with_memory(memory(1), 0));
    assert_eq!(buffered.write(&[1, 2, 3]), Ok(3));
    assert_eq!(buffered.offset(), 0);
    assert_eq!(buffered.write(&[4, 5, 6, 7, 8]), Ok(5));
    assert_eq!(buffered.offset(), 0);
    assert_eq!(buffered.write(&[9]), Ok(1));
    assert_eq!(buffered.offset(), 8);
    assert_eq!(buffered.write(&pattern(20)), Ok(20));
    assert_eq!(buffered.offset(), 29);
    let (writer, rest) = buffered.into_parts();
    assert_eq!(rest, Vec::<u8>::new());
    let bytes = writer.into_memory().to_vec();
    assert_eq!(&bytes[..9], &[1, 2, 3, 4, 5, 6, 7, 8, 9]);
    assert_eq!(&bytes[9..29], &pattern(20)[..]);
}

#[test]
fn buffered_writer_seek_flushes_first() {
    let mut buffered = BufferedStableWriter::with_writer(16, StableWriter::with_memory(memory(1), 0));
    assert_eq!(buffered.write(&[1, 2, 3, 4]), Ok(4));
    assert_eq!(buffered.seek(SeekFrom::Current(-2)), Ok(2));
    assert_eq!(buffered.write(&[9]), Ok(1));
    assert_eq!(buffered.flush(), Ok(()));
    let (writer, _) = buffered.into_parts();
    assert_eq!(&writer.into_memory().to_vec()[..4], &[1, 2, 9, 4]);
}

#[test]
fn buffered_reader_reads_in_chunks() {
    let data = pattern(3000);
    let mut writer = StableWriter::with_memory(memory(1), 0);
    assert_eq!(writer.write(&data), Ok(3000));
    let reader = StableReader::with_memory(writer.into_memory(), 0);
    let mut buffered = BufferedStableReader::with_reader(1024, reader);
    let mut out = Vec::new();
    let mut chunk = vec![0u8; 100];
    while out.len() < 3000 {
        let n = buffered.read(&mut chunk);
        assert!(n > 0);
        out.extend_from_slice(&chunk[..n]);
    }
    assert_eq!(&out[..3000], &data[..]);
    assert_eq!(buffered.offset(), 3072);
}

#[test]
fn buffered_reader_large_read_goes_direct() {
    let mut buffered = BufferedStableReader::with_reader(16, StableReader::with_memory(memory(1), 0));
    let mut big = vec![1u8; 100];
    assert_eq!(buffered.read(&mut big), 100);
    assert_eq!(buffered.offset(), 100);
}

#[test]
fn buffered_reader_ends_at_capacity() {
    let mut buffered = BufferedStableReader::with_reader(16, StableReader::with_memory(memory(1), 65530));
    let mut buf = vec![0u8; 10];
    assert_eq!(buffered.read(&mut buf), 6);
    assert_eq!(buffered.read(&mut buf), 0);
}

#[test]
fn buffered_reader_seek_counts_from_logical_position() {
    let data = pattern(64);
    let mut writer = StableWriter::with_memory(memory(1), 0);
    assert_eq!(writer.write(&data), Ok(64));
    let reader = StableReader::with_memory(writer.into_memory(), 0);
    let mut buffered = BufferedStableReader::with_reader(32, reader);
    let mut buf = vec![0u8; 4];
    assert_eq!(buffered.read(&mut buf), 4);
    assert_eq!(buffered.offset(), 32);
    assert_eq!(buffered.seek(SeekFrom::Current(6)), 10);
    assert_eq!(buffered.read(&mut buf), 4);
    assert_eq!(buf, data[10..14].to_vec());
}

#[test]
fn seek_from_end_and_current() {
    let mut reader = StableReader::with_memory(memory(2), 0);
    assert_eq!(reader.seek(SeekFrom::End(-10)), 131062);
    assert_eq!(reader.seek(SeekFrom::Current(5)), 131067);
    assert_eq!(reader.seek(SeekFrom::Current(-131067)), 0);
    assert_eq!(reader.seek(SeekFrom::Current(-1)), u32::MAX as u64);
    assert_eq!(reader.seek(SeekFrom::Start(1 << 32)), 0);
}

#[test]
fn sixty_four_bit_cursor_keeps_large_offsets() {
    let mut io = StableIO::with_memory64(memory(1), 0);
    assert_eq!(io.seek(SeekFrom::Start(1 << 40)), 1 << 40);
    assert_eq!(io.seek(SeekFrom::Current(-1)), (1 << 40) - 1);
    let mut buf = vec![0u8; 1];
    assert_eq!(io.read(&mut buf), Err(StableMemoryError::OutOfBounds));
    io.seek(SeekFrom::Start(10));
    assert_eq!(io.write(&[5, 6]), Ok(2));
    io.seek(SeekFrom::Start(10));
    assert_eq!(io.read(&mut buf), Ok(1));
    assert_eq!(buf, vec![5]);
}

#[test]
fn reader_offset_wraps_to_32_bits() {
    let reader = StableReader::with_memory(memory(0), (1usize << 32) + 7);
    assert_eq!(reader.offset(), 7);
}

#[test]
fn grow_outcomes_map_refusals() {
    assert_eq!(grow_outcome64(u64::MAX), Err(StableMemoryError::OutOfMemory));
    assert_eq!(grow_outcome64(3), Ok(3));
    assert_eq!(grow_outcome(u64::MAX), Err(StableMemoryError::OutOfMemory));
    assert_eq!(grow_outcome(1 << 32), Err(StableMemoryError::OutOfMemory));
    assert_eq!(grow_outcome(9), Ok(9));
}

#[test]
fn error_messages() {
    assert_eq!(StableMemoryError::OutOfMemory.message(), "Out of memory");
    assert_eq!(StableMemoryError::OutOfBounds.message(), "Read exceeds allocated memory");
}

#[test]
fn vec_memory_refuses_oversized_regions() {
    assert!(VecMemory::with_pages(u32::MAX as u64 + 1).is_none());
    let mut mem = memory(0);
    assert_eq!(mem.stable64_grow(u32::MAX as u64 + 1), Err(StableMemoryError::OutOfMemory));
    assert_eq!(mem.stable_size(), 0);
}

#[test]
fn writer_flush_is_a_no_op() {
    let mut writer = StableWriter::with_memory(memory(0), 3);
    assert_eq!(writer.flush(), Ok(()));
    assert_eq!(writer.offset(), 3);
}

#[test]
fn cursor_widths_report_their_largest_address() {
    assert_eq!(StableIO::with_memory(memory(0), 0).max_address(), u32::MAX as u64);
    assert_eq!(StableIO::with_memory64(memory(0), 0).max_address(), u64::MAX);
}

#[test]
fn buffered_writer_reports_buffered_bytes() {
    let mut buffered = BufferedStableWriter::with_writer(8, StableWriter::with_memory(memory(0), 0));
    assert_eq!(buffered.buffered_len(), 0);
    assert_eq!(buffered.write(&[1, 2, 3]), Ok(3));
    assert_eq!(buffered.buffered_len(), 3);
    assert_eq!(buffered.flush(), Ok(()));
    assert_eq!(buffered.buffered_len(), 0);
    assert_eq!(buffered.offset(), 3);
}

#[test]
fn range_checks_against_page_count() {
    assert!(range_fits(0, 65536, 1));
    assert!(!range_fits(1, 65536, 1));
    assert!(!range_fits(0, 1, 0));
    assert!(range_fits(0, 0, 0));
    assert!(range_fits(u64::MAX - 10, 10, u64::MAX));
}

#[test]
fn narrow_size_clamps_to_32_bits() {
    assert_eq!(narrow_size(7), 7);
    assert_eq!(narrow_size(u32::MAX as u64), u32::MAX);
    assert_eq!(narrow_size(u32::MAX as u64 + 1), u32::MAX);
}

#[test]
fn zeroed_region_is_whole_pages() {
    assert_eq!(zeroed_region(0), Some(Vec::new()));
    let v = zeroed_region(2).unwrap();
    assert_eq!(v.len(), 2 * PAGE);
    assert!(v.iter().all(|b| *b == 0));
}

#[test]
fn capacity_after_grow_adds_to_reported_size() {
    assert_eq!(capacity_after_grow(3, 4, u32::MAX as u64), 7);
    assert_eq!(capacity_after_grow(u32::MAX as u64 - 1, 4, u32::MAX as u64), u32::MAX as u64);
}

#[test]
fn buffered_flush_of_empty_buffer_succeeds() {
    let mut buffered = BufferedStableWriter::with_writer(8, StableWriter::with_memory(memory(0), 70000));
    assert_eq!(buffered.flush(), Ok(()));
    assert_eq!(buffered.offset(), 70000);
}

#[test]
fn readers_and_writers_from_cursors() {
    let mut io = StableIO::with_memory(memory(0), 5);
    assert_eq!(io.write(&[1, 2, 3]), Ok(3));
    let mut writer = StableWriter::from_io(io);
    assert_eq!(writer.offset(), 8);
    assert_eq!(writer.write(&[4]), Ok(1));
    let mut reader = StableReader::from_io(StableIO::with_memory(writer.into_memory(), 5));
    let mut buf = vec![0u8; 4];
    assert_eq!(reader.read(&mut buf), Ok(4));
    assert_eq!(buf, vec![1, 2, 3, 4]);
}

#[test]
fn buffered_writer_seek_grows_to_flush() {
    let mut buffered = BufferedStableWriter::with_writer(16, StableWriter::with_memory(memory(0), 0));
    assert_eq!(buffered.write(&[7, 8]), Ok(2));
    assert_eq!(buffered.seek(SeekFrom::Start(1)), Ok(1));
    assert_eq!(buffered.buffered_len(), 0);
    let (writer, _) = buffered.into_parts();
    assert_eq!(&writer.into_memory().to_vec()[..2], &[7, 8]);
}
