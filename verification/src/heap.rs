//! Pointers into the managed heap, compressed to 32 bits.
//!
//! The heap is one window of 32 GiB of address space. An address inside it
//! that is aligned to eight bytes is an offset of 35 bits whose low three
//! bits are zero, so it fits a `u32`.

use vstd::prelude::*;
use core::marker::PhantomData;

verus! {

/// The first address of the heap window.
pub const HEAP_BEGIN: u64 = 0x8_0000_0000;

/// The address behind the heap window.
pub const HEAP_END: u64 = 0x10_0000_0000;

/// The size of the heap window in bytes.
pub const HEAP_SIZE: u64 = 0x8_0000_0000;

/// The granularity in which the heap is handed out.
pub const CHUNK_SIZE: u64 = 0x20_0000;

/// Whether `address` can be compressed: it lies in the heap window and is
/// aligned to eight bytes.
pub open spec fn compressible(address: u64) -> bool {
    &&& address % 8 == 0
    &&& HEAP_BEGIN <= address < HEAP_END
}

/// The index of a compressible address: its offset in the window, in units of eight bytes.
pub open spec fn compressed(address: u64) -> u32
    recommends
        compressible(address),
{
    ((address - HEAP_BEGIN) / 8) as u32
}

/// The address that an index stands for.
pub open spec fn decompressed(index: u32) -> u64 {
    (index as u64 * 8 + HEAP_BEGIN) as u64
}

/// Compressing an aligned address of the heap window and decompressing the
/// result gives the address back.
pub proof fn lemma_zip_unzip(address: u64)
    requires
        compressible(address),
    ensures
        decompressed(compressed(address)) == address,
{
}

/// Every index stands for an aligned address of the heap window, and
/// compressing that address gives the index back.
pub proof fn lemma_unzip_zip(index: u32)
    ensures
        compressible(decompressed(index)),
        compressed(decompressed(index)) == index,
{
}

/// A pointer into the heap window, held as a 32-bit index.
pub struct Ptr<T> {
    compressed: u32,
    marker: PhantomData<T>,
}

impl<T> View for Ptr<T> {
    type V = u32;

    closed spec fn view(&self) -> u32 {
        self.compressed
    }
}

impl<T> Ptr<T> {
    /// Compresses an address: subtracts the base of the window and divides by eight.
    pub fn zip(address: u64) -> (ptr: Self)
        requires
            compressible(address),
        ensures
            ptr@ == compressed(address),
    {
        Ptr { compressed: ((address - HEAP_BEGIN) / 8) as u32, marker: PhantomData }
    }

    /// The index that the pointer holds.
    pub fn index(&self) -> (index: u32)
        ensures
            index == self@,
    {
        self.compressed
    }

    /// The address that the pointer stands for.
    pub fn unzip(&self) -> (address: u64)
        ensures
            address == decompressed(self@),
            compressible(address),
    {
        self.compressed as u64 * 8 + HEAP_BEGIN
    }
}

} // verus!
