//! Handles on reserved address space, and the arithmetic and flag mapping
//! that every request to the operating system is made with.

use vstd::prelude::*;
use vstd::layout::size_of;
use core::marker::PhantomData;
use crate::info::SystemInfo;

verus! {

/// The pages may be executed.
pub const PAGE_EXEC: usize = 1;

/// The pages may be read.
pub const PAGE_READ: usize = 2;

/// The pages may be written.
pub const PAGE_WRITE: usize = 4;

/// The pages are to be backed by memory.
pub const PAGE_COMMIT: usize = 8;

/// The memory behind the pages may be taken back.
pub const PAGE_DECOMMIT: usize = 16;

/// The pages will be walked front to back.
pub const PAGE_SEQUENTIAL: usize = 32;

/// The protection constant of Windows for pages that allow nothing.
pub const PAGE_NOACCESS: u32 = 0x01;

/// The protection constant of Windows for pages that are read only.
pub const PAGE_READONLY: u32 = 0x02;

/// The protection constant of Windows for pages that are read and written.
pub const PAGE_READWRITE: u32 = 0x04;

/// The protection constant of Windows for pages that are executed only.
pub const PAGE_EXECUTE: u32 = 0x10;

/// The protection constant of Windows for pages that are executed and read.
pub const PAGE_EXECUTE_READ: u32 = 0x20;

/// The protection constant of Windows for pages that are executed, read and written.
pub const PAGE_EXECUTE_READWRITE: u32 = 0x40;

/// The least multiple of `alignment` that is not below `value`.
pub open spec fn aligned_up(value: int, alignment: int) -> int
    recommends
        value >= 0,
        alignment > 0,
{
    if value % alignment == 0 {
        value
    } else {
        value + alignment - value % alignment
    }
}

/// `aligned_up` yields a multiple of the alignment, at least `value` and less
/// than one alignment above it.
pub proof fn lemma_aligned_up(value: int, alignment: int)
    requires
        value >= 0,
        alignment > 0,
    ensures
        aligned_up(value, alignment) % alignment == 0,
        value <= aligned_up(value, alignment) < value + alignment,
{
    let r = value % alignment;
    let q = value / alignment;
    vstd::arithmetic::div_mod::lemma_fundamental_div_mod(value, alignment);
    if r != 0 {
        let up = value + alignment - r;
        assert(up == (q + 1) * alignment) by (nonlinear_arith)
            requires
                value == alignment * q + r,
                up == value + alignment - r,
        ;
        vstd::arithmetic::div_mod::lemma_mod_multiples_basic(q + 1, alignment);
    }
}

/// No multiple of the alignment lies between `value` and `aligned_up`.
pub proof fn lemma_aligned_up_is_least(value: int, alignment: int, multiple: int)
    requires
        value >= 0,
        alignment > 0,
        multiple % alignment == 0,
        multiple >= value,
    ensures
        multiple >= aligned_up(value, alignment),
{
    let r = value % alignment;
    let q = value / alignment;
    vstd::arithmetic::div_mod::lemma_fundamental_div_mod(value, alignment);
    if r != 0 && multiple < value + alignment - r {
        vstd::arithmetic::div_mod::lemma_fundamental_div_mod(multiple, alignment);
        let k = multiple / alignment;
        assert(q < k < q + 1) by (nonlinear_arith)
            requires
                alignment > 0,
                value == alignment * q + r,
                0 < r < alignment,
                multiple == alignment * k,
                value <= multiple < value + alignment - r,
        ;
    }
}

/// Rounds `value` up to a multiple of `alignment`, or reports that the
/// result does not fit a machine word.
pub fn checked_align(value: usize, alignment: usize) -> (aligned: Option<usize>)
    requires
        alignment > 0,
    ensures
        aligned == if aligned_up(value as int, alignment as int) <= usize::MAX {
            Some(aligned_up(value as int, alignment as int) as usize)
        } else {
            None
        },
{
    let rest: usize = value % alignment;
    if rest == 0 {
        Some(value)
    } else {
        value.checked_add(alignment - rest)
    }
}

/// Rounds `value` up to a multiple of `alignment`.
pub fn align(value: usize, alignment: usize) -> (aligned: usize)
    requires
        alignment > 0,
        aligned_up(value as int, alignment as int) <= usize::MAX,
    ensures
        aligned == aligned_up(value as int, alignment as int),
{
    let rest: usize = value % alignment;
    if rest == 0 {
        value
    } else {
        value + (alignment - rest)
    }
}


/// `libc::PROT_NONE`: the protection that allows no access, which is 0.
#[verifier::external_body]
fn prot_none() -> (bits: i32)
    ensures
        bits == 0,
{
    libc::PROT_NONE
}

/// `libc::PROT_READ`: the protection bit for reading, which is 1.
#[verifier::external_body]
fn prot_read() -> (bits: i32)
    ensures
        bits == 1,
{
    libc::PROT_READ
}

/// `libc::PROT_WRITE`: the protection bit for writing, which is 2.
#[verifier::external_body]
fn prot_write() -> (bits: i32)
    ensures
        bits == 2,
{
    libc::PROT_WRITE
}

/// `libc::PROT_EXEC`: the protection bit for executing, which is 4.
#[verifier::external_body]
fn prot_exec() -> (bits: i32)
    ensures
        bits == 4,
{
    libc::PROT_EXEC
}

/// `libc::MAP_PRIVATE`: the flag of a mapping that is not shared, which is 2.
#[verifier::external_body]
fn map_private() -> (bits: i32)
    ensures
        bits == 0x02,
{
    libc::MAP_PRIVATE
}

/// `libc::MAP_ANONYMOUS`: the flag of a mapping that no file backs, which is
/// 0x20 on the Linux targets of the runtime.
#[verifier::external_body]
fn map_anonymous() -> (bits: i32)
    ensures
        bits == 0x20,
{
    libc::MAP_ANONYMOUS
}

/// `libc::MADV_DONTNEED`: the advice that the pages are not needed, which is 4.
#[verifier::external_body]
fn madv_dontneed() -> (bits: i32)
    ensures
        bits == 4,
{
    libc::MADV_DONTNEED
}

/// `libc::MADV_SEQUENTIAL`: the advice that the pages are read in order, which is 2.
#[verifier::external_body]
fn madv_sequential() -> (bits: i32)
    ensures
        bits == 2,
{
    libc::MADV_SEQUENTIAL
}

/// The POSIX protection for a flag word: the bits for executing (4), reading
/// (1) and writing (2) of the flags that are set, and 0, no access, if none is.
pub open spec fn posix_protection(flags: usize) -> i32 {
    (if flags & PAGE_EXEC != 0 {
        4i32
    } else {
        0i32
    }) | (if flags & PAGE_READ != 0 {
        1i32
    } else {
        0i32
    }) | (if flags & PAGE_WRITE != 0 {
        2i32
    } else {
        0i32
    })
}

/// The protection constant of Windows that is nearest to a flag word:
/// writing includes reading, and executing with writing includes both.
pub open spec fn windows_protection(flags: usize) -> u32 {
    let exec = flags & PAGE_EXEC != 0;
    let read = flags & PAGE_READ != 0;
    let write = flags & PAGE_WRITE != 0;
    if exec && write {
        PAGE_EXECUTE_READWRITE
    } else if exec && read {
        PAGE_EXECUTE_READ
    } else if exec {
        PAGE_EXECUTE
    } else if write {
        PAGE_READWRITE
    } else if read {
        PAGE_READONLY
    } else {
        PAGE_NOACCESS
    }
}

/// The advice for a flag word: not needed (4) for a decommit, in order (2)
/// for a sequential walk, both combined if both are set, and 0 else.
pub open spec fn posix_advice(flags: usize) -> i32 {
    (if flags & PAGE_DECOMMIT != 0 {
        4i32
    } else {
        0i32
    }) | (if flags & PAGE_SEQUENTIAL != 0 {
        2i32
    } else {
        0i32
    })
}

/// What a flag word asks for the memory behind a range of pages.
#[derive(Clone, Copy, Debug, PartialEq, Eq, Structural)]
pub enum CommitChange {
    /// The pages are to be backed by memory.
    Commit,
    /// The memory behind the pages may be taken back.
    Decommit,
    /// Nothing changes.
    Keep,
}

/// The change that a flag word asks for: a commit if `PAGE_COMMIT` is set,
/// else a decommit if `PAGE_DECOMMIT` is set, else none.
pub open spec fn commit_change(flags: usize) -> CommitChange {
    if flags & PAGE_COMMIT != 0 {
        CommitChange::Commit
    } else if flags & PAGE_DECOMMIT != 0 {
        CommitChange::Decommit
    } else {
        CommitChange::Keep
    }
}

/// What to ask of the operating system for a new mapping.
#[derive(Clone, Copy, Debug, PartialEq, Eq, Structural)]
pub struct MapRequest {
    /// Elements that the mapping will hold.
    pub len: usize,
    /// Bytes to map.
    pub bytes: usize,
    /// POSIX protection of the pages.
    pub protection: i32,
    /// POSIX flags of the mapping: private and anonymous.
    pub flags: i32,
    /// Whether the pages are to be backed by memory at once.
    pub commit: bool,
}

/// What to ask of the operating system about the front of a mapping.
#[derive(Clone, Copy, Debug, PartialEq, Eq, Structural)]
pub struct RangeRequest {
    /// Address at which the range begins.
    pub address: usize,
    /// Bytes in the range.
    pub bytes: usize,
    /// POSIX protection or advice for the range.
    pub bits: i32,
}

/// A reservation of address space for elements of type `T`: its base
/// address and the number of elements it has room for.
pub struct Page<T> {
    size: usize,
    addr: usize,
    phantom: PhantomData<T>,
}

impl<T> Page<T> {
    /// The number of elements.
    pub closed spec fn spec_len(&self) -> nat {
        self.size as nat
    }

    /// The base address.
    pub closed spec fn spec_addr(&self) -> nat {
        self.addr as nat
    }

    /// The reservation lies inside the address space.
    pub open spec fn wf(&self) -> bool {
        self.spec_addr() + self.spec_len() * size_of::<T>() <= usize::MAX
    }

    /// The handle that stands for no reservation.
    pub fn empty() -> (page: Self)
        ensures
            page.spec_len() == 0,
            page.spec_addr() == 0,
            page.wf(),
    {
        Page { size: 0, addr: 0, phantom: PhantomData }
    }

    /// The handle of the reservation of `size` elements at `address`.
    pub fn at(address: usize, size: usize) -> (page: Self)
        ensures
            page.spec_len() == size,
            page.spec_addr() == address,
    {
        Page { size, addr: address, phantom: PhantomData }
    }

    /// The number of elements.
    pub fn len(&self) -> (len: usize)
        ensures
            len == self.spec_len(),
    {
        self.size
    }

    /// Tests `wf`.
    pub fn is_valid(&self) -> (valid: bool)
        ensures
            valid == self.wf(),
    {
        match self.size.checked_mul(core::mem::size_of::<T>()) {
            None => false,
            Some(bytes) => self.addr.checked_add(bytes).is_some(),
        }
    }

    /// The address of element `offset`.
    pub fn offset(&self, offset: usize) -> (address: usize)
        requires
            self.wf(),
            offset <= self.spec_len(),
        ensures
            address == self.spec_addr() + size_of::<T>() * offset,
    {
        proof {
            assert(size_of::<T>() * offset <= self.spec_len() * size_of::<T>()) by (nonlinear_arith)
                requires
                    offset <= self.spec_len(),
            ;
        }
        self.addr + core::mem::size_of::<T>() * offset
    }

    /// The POSIX protection for `flags`.
    pub fn get_protect_flags(flags: usize) -> (protection: i32)
        ensures
            protection == posix_protection(flags),
    {
        let mut protect_flags: i32 = 0;
        if (flags & (PAGE_EXEC | PAGE_READ | PAGE_WRITE)) == 0 {
            proof {
                assert(flags & (1usize | 2usize | 4usize) == 0 ==> flags & 1usize == 0 && flags
                    & 2usize == 0 && flags & 4usize == 0) by (bit_vector);
                assert(0i32 | 0i32 | 0i32 == 0i32) by (bit_vector);
            }
            protect_flags = prot_none();
        } else {
            proof {
                assert(forall|bits: i32| #![auto] 0i32 | bits == bits) by (bit_vector);
                assert(forall|bits: i32| #![auto] bits | 0i32 == bits) by (bit_vector);
            }
            if (flags & PAGE_EXEC) != 0 {
                protect_flags = protect_flags | prot_exec();
            }
            if (flags & PAGE_READ) != 0 {
                protect_flags = protect_flags | prot_read();
            }
            if (flags & PAGE_WRITE) != 0 {
                protect_flags = protect_flags | prot_write();
            }
        }
        protect_flags
    }

    /// The protection constant of Windows for `flags`.
    pub fn get_protect_constant(flags: usize) -> (protection: u32)
        ensures
            protection == windows_protection(flags),
    {
        let exec: bool = (flags & PAGE_EXEC) != 0;
        let read: bool = (flags & PAGE_READ) != 0;
        let write: bool = (flags & PAGE_WRITE) != 0;
        if exec && write {
            PAGE_EXECUTE_READWRITE
        } else if exec && read {
            PAGE_EXECUTE_READ
        } else if exec {
            PAGE_EXECUTE
        } else if write {
            PAGE_READWRITE
        } else if read {
            PAGE_READONLY
        } else {
            PAGE_NOACCESS
        }
    }

    /// The change of the commit state that `flags` ask for.
    pub fn get_commit_change(flags: usize) -> (change: CommitChange)
        ensures
            change == commit_change(flags),
    {
        if (flags & PAGE_COMMIT) != 0 {
            CommitChange::Commit
        } else if (flags & PAGE_DECOMMIT) != 0 {
            CommitChange::Decommit
        } else {
            CommitChange::Keep
        }
    }

    /// The advice for `flags`.
    pub fn get_advise_flags(flags: usize) -> (advice: i32)
        ensures
            advice == posix_advice(flags),
    {
        let mut advise_flags: i32 = 0;
        proof {
            assert(forall|bits: i32| #![auto] 0i32 | bits == bits) by (bit_vector);
            assert(forall|bits: i32| #![auto] bits | 0i32 == bits) by (bit_vector);
        }
        if (flags & PAGE_DECOMMIT) != 0 {
            advise_flags = advise_flags | madv_dontneed();
        }
        if (flags & PAGE_SEQUENTIAL) != 0 {
            advise_flags = advise_flags | madv_sequential();
        }
        advise_flags
    }

    /// Plans the reservation of room for `size` elements: the count is
    /// rounded up to the allocation granularity. There is no plan if the
    /// reservation does not fit the address space.
    pub fn mmap(size: usize, flags: usize, info: &SystemInfo) -> (request: Option<MapRequest>)
        requires
            info.allocation_granularity > 0,
        ensures
            request is Some <==> {
                &&& aligned_up(size as int, info.allocation_granularity as int) <= usize::MAX
                &&& aligned_up(size as int, info.allocation_granularity as int) * size_of::<T>()
                    <= usize::MAX
            },
            request is Some ==> {
                let plan = request.unwrap();
                &&& plan.len == aligned_up(size as int, info.allocation_granularity as int)
                &&& plan.bytes == plan.len * size_of::<T>()
                &&& plan.protection == posix_protection(flags)
                &&& plan.flags == 0x22
                &&& plan.commit == (flags & PAGE_COMMIT != 0)
            },
    {
        let len: usize = match checked_align(size, info.allocation_granularity) {
            None => {
                return None;
            },
            Some(len) => len,
        };
        let bytes: usize = match len.checked_mul(core::mem::size_of::<T>()) {
            None => {
                return None;
            },
            Some(bytes) => bytes,
        };
        proof {
            assert(0x02i32 | 0x20i32 == 0x22i32) by (bit_vector);
        }
        Some(
            MapRequest {
                len,
                bytes,
                protection: Self::get_protect_flags(flags),
                flags: map_private() | map_anonymous(),
                commit: (flags & PAGE_COMMIT) != 0,
            },
        )
    }

    /// Plans a change of the commit state, or of the expected access
    /// pattern, of the first `size` elements.
    pub fn advise(&self, size: usize, flags: usize) -> (request: RangeRequest)
        requires
            self.wf(),
            size <= self.spec_len(),
        ensures
            request.address == self.spec_addr(),
            request.bytes == size * size_of::<T>(),
            request.bits == posix_advice(flags),
    {
        proof {
            assert(size * size_of::<T>() <= self.spec_len() * size_of::<T>()) by (nonlinear_arith)
                requires
                    size <= self.spec_len(),
            ;
        }
        RangeRequest {
            address: self.addr,
            bytes: size * core::mem::size_of::<T>(),
            bits: Self::get_advise_flags(flags),
        }
    }

    /// Plans a change of the protection of the first `size` elements.
    pub fn protect(&self, size: usize, flags: usize) -> (request: RangeRequest)
        requires
            self.wf(),
            size <= self.spec_len(),
        ensures
            request.address == self.spec_addr(),
            request.bytes == size * size_of::<T>(),
            request.bits == posix_protection(flags),
    {
        proof {
            assert(size * size_of::<T>() <= self.spec_len() * size_of::<T>()) by (nonlinear_arith)
                requires
                    size <= self.spec_len(),
            ;
        }
        RangeRequest {
            address: self.addr,
            bytes: size * core::mem::size_of::<T>(),
            bits: Self::get_protect_flags(flags),
        }
    }

    /// Gives the handle up, and plans the release of the whole reservation.
    pub fn unmap(self) -> (request: RangeRequest)
        requires
            self.wf(),
        ensures
            request.address == self.spec_addr(),
            request.bytes == self.spec_len() * size_of::<T>(),
            request.bits == 0,
    {
        RangeRequest { address: self.addr, bytes: self.size * core::mem::size_of::<T>(), bits: 0 }
    }
}

} // verus!
