use lzr::info::{InitRole, LazyInit, SystemInfo};
use lzr::page::{
    align, checked_align, CommitChange, Page, PAGE_COMMIT, PAGE_DECOMMIT, PAGE_EXEC, PAGE_EXECUTE,
    PAGE_EXECUTE_READ, PAGE_EXECUTE_READWRITE, PAGE_NOACCESS, PAGE_READ, PAGE_READONLY,
    PAGE_READWRITE, PAGE_SEQUENTIAL, PAGE_WRITE,
};

fn machine() -> SystemInfo {
    SystemInfo { num_cpus: 2, page_size: 4096, allocation_granularity: 4096 }
}

#[test]
fn test_virtual_memory() {
    const FLAGS: usize = PAGE_READ | PAGE_WRITE | PAGE_COMMIT;
    let alignment = machine().allocation_granularity;
    let request = Page::<u8>::mmap(64, FLAGS, &machine()).unwrap();
    let page = Page::<u8>::at(0x7f00_0000_0000, request.len);

    assert_eq!(page.len(), alignment);
    assert!(page.offset(0) != 0);

    let release = page.unmap();
    assert_eq!(release.address, 0x7f00_0000_0000);
    assert_eq!(release.bytes, alignment);
}

#[test]
fn parameters_of_a_machine_are_plausible() {
    let info = machine();
    assert!(info.num_cpus >= 1);
    assert!(info.page_size >= 1);
    assert!(info.allocation_granularity >= info.page_size);
    assert!(info.is_plausible());
    assert!(!SystemInfo { num_cpus: 0, page_size: 4096, allocation_granularity: 4096 }.is_plausible());
    assert!(!SystemInfo { num_cpus: 1, page_size: 4096, allocation_granularity: 1024 }.is_plausible());
}

#[test]
fn align_rounds_up_to_a_multiple() {
    assert_eq!(align(64, 4096), 4096);
    assert_eq!(align(4096, 4096), 4096);
    assert_eq!(align(4097, 4096), 8192);
    assert_eq!(align(0, 4096), 0);
    assert_eq!(align(7, 1), 7);
    assert_eq!(checked_align(1355, 4096), Some(4096));
    assert_eq!(checked_align(usize::MAX, 4096), None);
    assert_eq!(checked_align(usize::MAX - 4095, 4096), Some(usize::MAX - 4095));
}

#[test]
fn mapping_request_is_exact() {
    let request = Page::<u64>::mmap(1000, PAGE_READ | PAGE_WRITE, &machine()).unwrap();
    assert_eq!(request.len, 4096);
    assert_eq!(request.bytes, 4096 * 8);
    assert_eq!(request.protection, 3);
    assert_eq!(request.flags, 0x22);
    assert!(!request.commit);
    assert!(Page::<u64>::mmap(1, PAGE_COMMIT, &machine()).unwrap().commit);
    assert!(Page::<u64>::mmap(usize::MAX / 4, PAGE_READ, &machine()).is_none());
    assert!(Page::<u8>::mmap(usize::MAX, PAGE_READ, &machine()).is_none());
}

#[test]
fn protection_follows_the_flags() {
    assert_eq!(Page::<u8>::get_protect_flags(0), 0);
    assert_eq!(Page::<u8>::get_protect_flags(PAGE_COMMIT | PAGE_SEQUENTIAL), 0);
    assert_eq!(Page::<u8>::get_protect_flags(PAGE_READ), 1);
    assert_eq!(Page::<u8>::get_protect_flags(PAGE_WRITE), 2);
    assert_eq!(Page::<u8>::get_protect_flags(PAGE_EXEC), 4);
    assert_eq!(Page::<u8>::get_protect_flags(PAGE_READ | PAGE_WRITE), 3);
    assert_eq!(Page::<u8>::get_protect_flags(PAGE_READ | PAGE_EXEC), 5);
    assert_eq!(Page::<u8>::get_protect_flags(PAGE_READ | PAGE_WRITE | PAGE_EXEC | PAGE_COMMIT), 7);
}

#[test]
fn windows_protection_follows_the_flags() {
    assert_eq!(Page::<u8>::get_protect_constant(0), PAGE_NOACCESS);
    assert_eq!(Page::<u8>::get_protect_constant(PAGE_EXEC), PAGE_EXECUTE);
    assert_eq!(Page::<u8>::get_protect_constant(PAGE_READ), PAGE_READONLY);
    assert_eq!(Page::<u8>::get_protect_constant(PAGE_WRITE), PAGE_READWRITE);
    assert_eq!(Page::<u8>::get_protect_constant(PAGE_READ | PAGE_WRITE), PAGE_READWRITE);
    assert_eq!(Page::<u8>::get_protect_constant(PAGE_READ | PAGE_EXEC), PAGE_EXECUTE_READ);
    assert_eq!(Page::<u8>::get_protect_constant(PAGE_EXEC | PAGE_WRITE), PAGE_EXECUTE_READWRITE);
    assert_eq!(
        Page::<u8>::get_protect_constant(PAGE_READ | PAGE_EXEC | PAGE_WRITE),
        PAGE_EXECUTE_READWRITE
    );
    assert_eq!(Page::<u8>::get_protect_constant(PAGE_COMMIT), PAGE_NOACCESS);
}

#[test]
fn advice_follows_the_flags() {
    assert_eq!(Page::<u8>::get_advise_flags(0), 0);
    assert_eq!(Page::<u8>::get_advise_flags(PAGE_DECOMMIT), 4);
    assert_eq!(Page::<u8>::get_advise_flags(PAGE_SEQUENTIAL), 2);
    assert_eq!(Page::<u8>::get_advise_flags(PAGE_DECOMMIT | PAGE_SEQUENTIAL), 6);
    assert_eq!(Page::<u8>::get_advise_flags(PAGE_READ | PAGE_COMMIT), 0);
}

#[test]
fn requests_on_a_page_cover_its_front() {
    let page = Page::<u32>::at(0x10000, 1024);
    assert!(page.is_valid());
    assert_eq!(page.offset(3), 0x10000 + 12);
    let advice = page.advise(16, PAGE_DECOMMIT);
    assert_eq!((advice.address, advice.bytes, advice.bits), (0x10000, 64, 4));
    let protection = page.protect(1024, PAGE_READ);
    assert_eq!((protection.address, protection.bytes, protection.bits), (0x10000, 4096, 1));
    assert!(!Page::<u32>::at(usize::MAX - 8, 1024).is_valid());
    assert!(!Page::<u32>::at(0, usize::MAX).is_valid());
    let empty = Page::<u32>::empty();
    assert_eq!(empty.len(), 0);
    assert!(empty.is_valid());
}

#[test]
fn first_claim_initializes() {
    let flags = LazyInit::new();
    assert!(!flags.is_ready());
    assert_eq!(flags.claim(), InitRole::Initialize);
    assert_eq!(flags.claim(), InitRole::Await);
    assert!(!flags.is_ready());
    flags.publish();
    assert!(flags.is_ready());
    assert_eq!(flags.claim(), InitRole::Await);
    assert_eq!(LazyInit::role_of(Ok(false)), InitRole::Initialize);
    assert_eq!(LazyInit::role_of(Err(true)), InitRole::Await);
    assert_eq!(LazyInit::role_of(Err(false)), InitRole::Await);
}

#[test]
fn commit_goes_before_decommit() {
    assert_eq!(Page::<u8>::get_commit_change(0), CommitChange::Keep);
    assert_eq!(Page::<u8>::get_commit_change(PAGE_READ | PAGE_WRITE), CommitChange::Keep);
    assert_eq!(Page::<u8>::get_commit_change(PAGE_COMMIT), CommitChange::Commit);
    assert_eq!(Page::<u8>::get_commit_change(PAGE_DECOMMIT), CommitChange::Decommit);
    assert_eq!(Page::<u8>::get_commit_change(PAGE_COMMIT | PAGE_DECOMMIT), CommitChange::Commit);
    assert_eq!(Page::<u8>::get_commit_change(PAGE_SEQUENTIAL | PAGE_DECOMMIT), CommitChange::Decommit);
}
