//! The fixed geometry of the chip and the checks on addresses and ranges.

use vstd::prelude::*;
use crate::error::Fault;

verus! {

/// Bytes in one program page.
pub const PAGE_SIZE: u32 = 256;

/// Pages on the chip.
pub const N_PAGES: u32 = 16384;

/// Bytes in one sector, the smallest erase unit.
pub const SECTOR_SIZE: u32 = PAGE_SIZE * 16;

/// Sectors on the chip.
pub const N_SECTORS: u32 = N_PAGES / 16;

/// Bytes in one 32 KiB block.
pub const BLOCK_32K_SIZE: u32 = SECTOR_SIZE * 8;

/// 32 KiB blocks on the chip.
pub const N_BLOCKS_32K: u32 = N_SECTORS / 8;

/// Bytes in one 64 KiB block.
pub const BLOCK_64K_SIZE: u32 = BLOCK_32K_SIZE * 2;

/// 64 KiB blocks on the chip.
pub const N_BLOCKS_64K: u32 = N_BLOCKS_32K / 2;

/// Bytes on the chip.
pub const CAPACITY: u32 = N_PAGES * PAGE_SIZE;

/// Smallest number of bytes that can be read: any byte by itself.
pub const READ_SIZE: usize = 1;

/// Smallest number of bytes that can be written: any byte by itself, since
/// writes are split into page programs as needed.
pub const WRITE_SIZE: usize = 1;

/// Smallest number of bytes that can be erased: one sector. An erase of
/// less is refused, not rounded.
pub const ERASE_SIZE: usize = 4096;

/// Bytes fetched by one exchange of a readback.
pub const READBACK_CHUNK: u32 = 64;

/// The sizes are what the data sheet gives, each unit a whole number of the
/// next smaller one, and each count times its unit is the capacity.
pub proof fn lemma_geometry()
    ensures
        PAGE_SIZE == 256,
        SECTOR_SIZE == 4096,
        BLOCK_32K_SIZE == 32768,
        BLOCK_64K_SIZE == 65536,
        CAPACITY == 4_194_304,
        N_SECTORS == 1024,
        N_BLOCKS_32K == 128,
        N_BLOCKS_64K == 64,
        N_PAGES * PAGE_SIZE == CAPACITY,
        N_SECTORS * SECTOR_SIZE == CAPACITY,
        N_BLOCKS_32K * BLOCK_32K_SIZE == CAPACITY,
        N_BLOCKS_64K * BLOCK_64K_SIZE == CAPACITY,
        CAPACITY / SECTOR_SIZE == N_SECTORS,
        CAPACITY / BLOCK_32K_SIZE == N_BLOCKS_32K,
        CAPACITY / BLOCK_64K_SIZE == N_BLOCKS_64K,
        SECTOR_SIZE % PAGE_SIZE == 0,
        BLOCK_32K_SIZE % SECTOR_SIZE == 0,
        BLOCK_64K_SIZE % BLOCK_32K_SIZE == 0,
        CAPACITY % BLOCK_64K_SIZE == 0,
        ERASE_SIZE == SECTOR_SIZE,
{
}

/// The `len` bytes from `address` on all lie on the chip. A range that ends
/// exactly at the capacity does.
pub open spec fn in_bounds(address: u32, len: nat) -> bool {
    address + len <= CAPACITY
}

/// Accepts a byte range that lies on the chip and rejects every other as
/// out of bounds.
pub fn check_bounds(address: u32, len: usize) -> (r: Result<(), Fault>)
    ensures
        in_bounds(address, len as nat) ==> r == Ok::<(), Fault>(()),
        !in_bounds(address, len as nat) ==> r == Err::<(), Fault>(Fault::OutOfBounds),
{
    if address > CAPACITY || len > (CAPACITY - address) as usize {
        Err(Fault::OutOfBounds)
    } else {
        Ok(())
    }
}

/// What is wrong with the erase range `[start, end)`, if anything: a bound
/// off the sector grid comes first, then an inverted range or one that
/// leaves the chip.
pub open spec fn erase_range_fault(start: u32, end: u32) -> Option<Fault> {
    if start % SECTOR_SIZE != 0 || end % SECTOR_SIZE != 0 {
        Some(Fault::NotAligned)
    } else if start > end || end > CAPACITY {
        Some(Fault::OutOfBounds)
    } else {
        None
    }
}

/// Validates an erase range given in bytes and returns the index of its
/// first sector and the number of sectors it spans.
pub fn check_erase_range(start: u32, end: u32) -> (r: Result<(u32, u32), Fault>)
    ensures
        match erase_range_fault(start, end) {
            Some(fault) => r == Err::<(u32, u32), Fault>(fault),
            None => r matches Ok((first, count))
                && first == start / SECTOR_SIZE
                && count == (end - start) / SECTOR_SIZE as int
                && first + count == end / SECTOR_SIZE
                && first + count <= N_SECTORS,
        },
{
    if start % SECTOR_SIZE != 0 {
        return Err(Fault::NotAligned);
    }
    if end % SECTOR_SIZE != 0 {
        return Err(Fault::NotAligned);
    }
    if start > end || end > CAPACITY {
        return Err(Fault::OutOfBounds);
    }
    Ok((start / SECTOR_SIZE, (end - start) / SECTOR_SIZE))
}

/// Bytes from `address` to the end of the page it lies in.
pub open spec fn page_room(address: nat) -> nat {
    (PAGE_SIZE - address % (PAGE_SIZE as nat)) as nat
}

/// A program of `len` bytes at `address` stays within one page.
pub open spec fn fits_page(address: nat, len: nat) -> bool {
    address % (PAGE_SIZE as nat) + len <= PAGE_SIZE
}

/// Length of the page program that begins a write of `len` bytes at
/// `address`: up to the end of the page, or all of the bytes if they are
/// fewer.
pub open spec fn chunk_len(address: nat, len: nat) -> nat {
    if len < page_room(address) {
        len
    } else {
        page_room(address)
    }
}

/// Computes the length of the page program that begins a write of `len`
/// bytes at `address`.
pub fn first_chunk(address: u32, len: usize) -> (n: usize)
    ensures
        n == chunk_len(address as nat, len as nat),
        n <= len,
        n <= PAGE_SIZE,
        fits_page(address as nat, n as nat),
        len > 0 ==> n > 0,
{
    let room: u32 = PAGE_SIZE - address % PAGE_SIZE;
    if len < room as usize {
        len
    } else {
        room as usize
    }
}

/// Accepts a program that stays within one page and rejects one that would
/// wrap as out of bounds.
pub fn check_page(address: u32, len: usize) -> (r: Result<(), Fault>)
    ensures
        fits_page(address as nat, len as nat) ==> r == Ok::<(), Fault>(()),
        !fits_page(address as nat, len as nat) ==> r == Err::<(), Fault>(Fault::OutOfBounds),
{
    if len > (PAGE_SIZE - address % PAGE_SIZE) as usize {
        Err(Fault::OutOfBounds)
    } else {
        Ok(())
    }
}

} // verus!
