use nft_ledger::stable::{StableMemoryError, StableReader, StableWriter, PAGE_BYTES};

#[test]
fn page_has_64_kib() {
    assert_eq!(PAGE_BYTES, 65536);
}

#[test]
fn write_that_fits_needs_no_pages() {
    let w = StableWriter::new(0, 1);
    assert_eq!(w.pages_to_add(65536), Ok(None));
    assert_eq!(StableWriter::new(65000, 1).pages_to_add(536), Ok(None));
    assert_eq!(StableWriter::new(0, 0).pages_to_add(0), Ok(None));
}

#[test]
fn write_that_does_not_fit_asks_for_pages() {
    assert_eq!(StableWriter::new(0, 0).pages_to_add(1), Ok(Some(1)));
    assert_eq!(StableWriter::new(0, 1).pages_to_add(65537), Ok(Some(2)));
    assert_eq!(StableWriter::new(65536, 1).pages_to_add(65536), Ok(Some(3)));
    assert_eq!(StableWriter::new(100, 0).pages_to_add(200_000), Ok(Some(4)));
}

#[test]
fn grow_takes_note_of_the_new_capacity() {
    let mut w = StableWriter::new(10, 1);
    assert_eq!(w.grow(3, Ok(1)), Ok(()));
    assert_eq!(w, StableWriter { offset: 10, capacity: 4 });
}

#[test]
fn grow_failure_is_surfaced_and_changes_nothing() {
    let mut w = StableWriter::new(10, 1);
    assert_eq!(w.grow(3, Err(StableMemoryError::OutOfMemory)), Err(StableMemoryError::OutOfMemory));
    assert_eq!(w, StableWriter { offset: 10, capacity: 1 });
    assert_eq!(w.grow(2, Ok(u32::MAX - 1)), Err(StableMemoryError::OutOfMemory));
    assert_eq!(w, StableWriter { offset: 10, capacity: 1 });
}

#[test]
fn growth_asked_for_is_enough() {
    let mut w = StableWriter::new(70_000, 1);
    let pages = w.pages_to_add(100_000).unwrap().unwrap();
    assert_eq!(pages, 3);
    w.grow(pages, Ok(1)).unwrap();
    assert_eq!(w.pages_to_add(100_000), Ok(None));
    assert_eq!(w.write(100_000), Ok(100_000));
    assert_eq!(w.offset, 170_000);
}

#[test]
fn write_advances_the_offset() {
    let mut w = StableWriter::new(0, 1);
    assert_eq!(w.write(78), Ok(78));
    assert_eq!(w.write(78), Ok(78));
    assert_eq!(w, StableWriter { offset: 156, capacity: 1 });
}

#[test]
fn write_is_never_cut_short() {
    let mut w = StableWriter::new(65530, 1);
    assert_eq!(w.write(7), Err(StableMemoryError::OutOfBounds));
    assert_eq!(w, StableWriter { offset: 65530, capacity: 1 });
    assert_eq!(w.write(6), Ok(6));
    assert_eq!(w.offset, 65536);
}

#[test]
fn read_within_bounds_yields_all() {
    let mut r = StableReader::new(0, 1);
    assert_eq!(r.read(100), Ok(100));
    assert_eq!(r.read(50), Ok(50));
    assert_eq!(r, StableReader { offset: 150, capacity: 1 });
}

#[test]
fn read_across_the_end_yields_what_is_left() {
    let mut r = StableReader::new(65500, 1);
    assert_eq!(r.read(100), Ok(36));
    assert_eq!(r.offset, 65536);
}

#[test]
fn read_from_the_end_is_out_of_bounds() {
    let mut r = StableReader::new(65536, 1);
    assert_eq!(r.read(1), Err(StableMemoryError::OutOfBounds));
    assert_eq!(r.offset, 65536);
    assert_eq!(r.read(0), Ok(0));
    let mut beyond = StableReader::new(70000, 1);
    assert_eq!(beyond.read(0), Err(StableMemoryError::OutOfBounds));
    assert_eq!(beyond.read(10), Err(StableMemoryError::OutOfBounds));
    assert_eq!(beyond.offset, 70000);
}

#[test]
fn growth_beyond_what_pages_can_count_is_out_of_memory() {
    let w = StableWriter::new(usize::MAX - 10, 0);
    assert_eq!(w.pages_to_add(5), Err(StableMemoryError::OutOfMemory));
    let mut at_end = StableWriter::new(usize::MAX - 10, u32::MAX);
    assert_eq!(at_end.write(11), Err(StableMemoryError::OutOfBounds));
    assert_eq!(at_end.offset, usize::MAX - 10);
}
