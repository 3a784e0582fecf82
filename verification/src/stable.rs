//! Cursors over durable memory: a flat region of bytes that grows in pages of
//! 64 KiB.
//!
//! A cursor keeps an offset and the capacity of the region. It decides where
//! bytes go and whether the region has to grow; the host moves the bytes and
//! grows the region, and tells the cursor how the growth went.

use vstd::prelude::*;

verus! {

/// Number of bytes of one page of durable memory.
pub const PAGE_BYTES: u64 = 65536;

/// Why durable memory could not serve a request.
#[derive(Clone, Copy, Debug, PartialEq, Eq, Structural)]
pub enum StableMemoryError {
    /// The region cannot grow by the pages asked for.
    OutOfMemory,
    /// The request lies beyond the end of the region.
    OutOfBounds,
}

/// Number of bytes that a cursor can reach in a region of `pages` pages: all
/// of them, as far as an offset can address them.
pub open spec fn bytes_of_pages(pages: int) -> int {
    if pages * 65536 <= usize::MAX {
        pages * 65536
    } else {
        usize::MAX as int
    }
}

/// Number of bytes that a cursor can reach in a region of `pages` pages.
fn room_of(pages: u32) -> (room: u128)
    ensures
        room == bytes_of_pages(pages as int),
{
    let all: u128 = pages as u128 * 65536;
    if all <= usize::MAX as u128 {
        all
    } else {
        usize::MAX as u128
    }
}

/// Number of pages asked for when a write that ends at byte `end` does not
/// fit: one more than the whole pages below `end`.
pub open spec fn pages_for(end: int) -> int {
    end / 65536 + 1
}

/// A writer to durable memory. It keeps offset and capacity, and asks for
/// the region to grow where a write does not fit.
#[derive(Clone, Copy, Debug, PartialEq, Eq)]
pub struct StableWriter {
    /// The offset of the next write.
    pub offset: usize,
    /// The capacity, in pages.
    pub capacity: u32,
}

impl StableWriter {
    /// Whether `len` more bytes fit in the region as it is.
    pub open spec fn fits(&self, len: int) -> bool {
        self.offset + len <= bytes_of_pages(self.capacity as int)
    }

    /// A writer at `offset` over a region of `capacity` pages.
    pub fn new(offset: usize, capacity: u32) -> (w: StableWriter)
        ensures
            w.offset == offset,
            w.capacity == capacity,
    {
        StableWriter { offset, capacity }
    }

    /// The pages to add before a write of `len` bytes: none where the write
    /// fits. It fails where the pages to add are more than a `u32` holds.
    pub fn pages_to_add(&self, len: usize) -> (r: Result<Option<u32>, StableMemoryError>)
        ensures
            self.fits(len as int) ==> r == Ok::<Option<u32>, StableMemoryError>(None),
            !self.fits(len as int) && pages_for(self.offset + len) <= u32::MAX ==> r == Ok::<
                Option<u32>,
                StableMemoryError,
            >(Some(pages_for(self.offset + len) as u32)),
            !self.fits(len as int) && pages_for(self.offset + len) > u32::MAX ==> r == Err::<
                Option<u32>,
                StableMemoryError,
            >(StableMemoryError::OutOfMemory),
    {
        let end: u128 = self.offset as u128 + len as u128;
        let room: u128 = room_of(self.capacity);
        if end <= room {
            return Ok(None);
        }
        let pages: u128 = end / 65536 + 1;
        if pages > 0xffff_ffff {
            return Err(StableMemoryError::OutOfMemory);
        }
        Ok(Some(pages as u32))
    }

    /// Takes note of how the host answered a request for `added_pages` more
    /// pages: with the number of pages before the growth, or with an error.
    /// After a growth the capacity is the sum of the two; it fails, and the
    /// cursor stays as it is, where the host failed or the sum is more than a
    /// `u32` holds.
    pub fn grow(&mut self, added_pages: u32, grown: Result<u32, StableMemoryError>) -> (r: Result<
        (),
        StableMemoryError,
    >)
        ensures
            final(self).offset == old(self).offset,
            grown is Ok && grown->Ok_0 + added_pages <= u32::MAX ==> r is Ok && final(self).capacity
                == grown->Ok_0 + added_pages,
            grown is Ok && grown->Ok_0 + added_pages > u32::MAX ==> r == Err::<
                (),
                StableMemoryError,
            >(StableMemoryError::OutOfMemory) && final(self).capacity == old(self).capacity,
            grown is Err ==> r == Err::<(), StableMemoryError>(grown->Err_0) && final(self).capacity
                == old(self).capacity,
    {
        match grown {
            Ok(before) => {
                if before > u32::MAX - added_pages {
                    return Err(StableMemoryError::OutOfMemory);
                }
                self.capacity = before + added_pages;
                Ok(())
            },
            Err(e) => Err(e),
        }
    }

    /// Moves the cursor over `len` bytes that the host writes at the offset
    /// the cursor had. Nothing is cut short: where the bytes do not fit in the
    /// region, it fails and the cursor stays.
    pub fn write(&mut self, len: usize) -> (r: Result<usize, StableMemoryError>)
        ensures
            final(self).capacity == old(self).capacity,
            old(self).fits(len as int) ==> r == Ok::<usize, StableMemoryError>(len) && final(self).offset
                == old(self).offset + len,
            !old(self).fits(len as int) ==> r == Err::<usize, StableMemoryError>(
                StableMemoryError::OutOfBounds,
            ) && final(self).offset == old(self).offset,
    {
        let end: u128 = self.offset as u128 + len as u128;
        let room: u128 = room_of(self.capacity);
        if end > room {
            return Err(StableMemoryError::OutOfBounds);
        }
        self.offset = self.offset + len;
        Ok(len)
    }
}

/// A reader of durable memory. It keeps an offset and reads consecutively.
#[derive(Clone, Copy, Debug, PartialEq, Eq)]
pub struct StableReader {
    /// The offset of the next read.
    pub offset: usize,
    /// The capacity, in pages.
    pub capacity: u32,
}

impl StableReader {
    /// A reader at `offset` over a region of `capacity` pages.
    pub fn new(offset: usize, capacity: u32) -> (r: StableReader)
        ensures
            r.offset == offset,
            r.capacity == capacity,
    {
        StableReader { offset, capacity }
    }

    /// Whether the `len` bytes from the offset on lie in the region.
    pub open spec fn fits(&self, len: int) -> bool {
        self.offset + len <= bytes_of_pages(self.capacity as int)
    }

    /// Number of bytes from the offset to the end of the region.
    pub open spec fn remaining(&self) -> int {
        bytes_of_pages(self.capacity as int) - self.offset
    }

    /// Moves the cursor over the bytes that the host reads, from the offset
    /// the cursor had, into a buffer of `len` bytes, and tells their number:
    /// all of them where they lie in the region, else those up to its end. A
    /// read that asks for more than the region has, from its end or beyond,
    /// fails and leaves the cursor.
    pub fn read(&mut self, len: usize) -> (r: Result<usize, StableMemoryError>)
        ensures
            final(self).capacity == old(self).capacity,
            old(self).fits(len as int) ==> r == Ok::<usize, StableMemoryError>(len) && final(self).offset
                == old(self).offset + len,
            !old(self).fits(len as int) && old(self).remaining() > 0 ==> r == Ok::<
                usize,
                StableMemoryError,
            >(old(self).remaining() as usize) && final(self).offset == old(self).offset + old(self).remaining(),
            !old(self).fits(len as int) && old(self).remaining() <= 0 ==> r == Err::<
                usize,
                StableMemoryError,
            >(StableMemoryError::OutOfBounds) && final(self).offset == old(self).offset,
    {
        let end: u128 = self.offset as u128 + len as u128;
        let room: u128 = room_of(self.capacity);
        if end > room {
            if (self.offset as u128) < room {
                let n: usize = (room - self.offset as u128) as usize;
                self.offset = self.offset + n;
                Ok(n)
            } else {
                Err(StableMemoryError::OutOfBounds)
            }
        } else {
            self.offset = self.offset + len;
            Ok(len)
        }
    }
}

/// The growth that `pages_to_add` asks for is enough: once the host has added
/// the pages, the write fits.
pub proof fn lemma_growth_suffices(w: StableWriter, len: usize, before: u32)
    requires
        !w.fits(len as int),
        w.offset + len <= usize::MAX,
        pages_for(w.offset + len) + before <= u32::MAX,
    ensures
        (StableWriter {
            offset: w.offset,
            capacity: (before + pages_for(w.offset + len)) as u32,
        }).fits(len as int),
{
    let end = w.offset + len;
    vstd::arithmetic::div_mod::lemma_fundamental_div_mod(end, 65536);
}

} // verus!
