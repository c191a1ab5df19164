use lzr::heap::{Ptr, CHUNK_SIZE, HEAP_BEGIN, HEAP_END, HEAP_SIZE};

#[test]
fn window_is_32_gib() {
    assert_eq!(HEAP_BEGIN, 1 << 35);
    assert_eq!(HEAP_END, 1 << 36);
    assert_eq!(HEAP_SIZE, HEAP_END - HEAP_BEGIN);
    assert_eq!(CHUNK_SIZE, 2 * 1024 * 1024);
}

#[test]
fn zip_then_unzip_gives_the_address() {
    for address in [HEAP_BEGIN, HEAP_BEGIN + 8, HEAP_BEGIN + CHUNK_SIZE, HEAP_BEGIN + 0x1234_5678, HEAP_END - 8] {
        let ptr = Ptr::<u64>::zip(address);
        assert_eq!(ptr.unzip(), address);
    }
}

#[test]
fn index_counts_units_of_eight_bytes() {
    assert_eq!(Ptr::<u8>::zip(HEAP_BEGIN).index(), 0);
    assert_eq!(Ptr::<u8>::zip(HEAP_BEGIN + 8).index(), 1);
    assert_eq!(Ptr::<u8>::zip(HEAP_BEGIN + CHUNK_SIZE).index(), 0x4_0000);
    assert_eq!(Ptr::<u8>::zip(HEAP_END - 8).index(), u32::MAX);
}

#[test]
fn last_slot_of_the_window() {
    assert_eq!(Ptr::<u8>::zip(HEAP_END - 8).unzip(), 0xf_ffff_fff8);
    assert_eq!(Ptr::<u8>::zip(HEAP_BEGIN).unzip(), 0x8_0000_0000);
}
