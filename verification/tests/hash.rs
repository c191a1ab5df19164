use lzr::hash::{bits_i64, fnv1a_hash, fx_hash, splitmix_hash, Hashable, Rounded};

#[test]
fn fnv1a_known_values() {
    assert_eq!(fnv1a_hash(b""), 0x811c9dc5);
    assert_eq!(fnv1a_hash(b"a"), 0xe40c292c);
    assert_eq!(fnv1a_hash(b"foobar"), 0xbf9cf968);
}

#[test]
fn fx_known_values() {
    assert_eq!(fx_hash(b""), 0);
    assert_eq!(fx_hash(b"abcdefghijklm"), 0x7c826362);
    let mut long: Vec<u8> = (0..=255u8).collect();
    long.push(0);
    assert_eq!(fx_hash(&long), 0x8f1851ab);
}

#[test]
fn splitmix_known_values() {
    assert_eq!(splitmix_hash(0), 0);
    assert_eq!(splitmix_hash(1), 0x100b05e5);
    assert_eq!(splitmix_hash(3), 0xe31428f0);
    assert_eq!(splitmix_hash(42), 0xd4727622);
    assert_eq!(splitmix_hash(u64::MAX), 0xf2cbbd7b);
}

#[test]
fn bytes_switch_to_words_beyond_256() {
    let short = [7u8; 256];
    assert_eq!(short[..].hashed(), fnv1a_hash(&short));
    let long = [7u8; 257];
    assert_eq!(long[..].hashed(), fx_hash(&long));
    assert_ne!(fx_hash(&long), fnv1a_hash(&long));
}

#[test]
fn str_hashes_as_its_bytes() {
    assert_eq!("foobar".hashed(), 0xbf9cf968);
    assert_eq!("".hashed(), 0x811c9dc5);
}

#[test]
fn rounded_numbers_hash_by_bit_pattern() {
    assert_eq!(bits_i64(-1), u64::MAX);
    assert_eq!(bits_i64(i64::MIN), 0x8000_0000_0000_0000);
    assert_eq!(bits_i64(42), 42);
    assert_eq!(Rounded(3).hashed(), 0xe31428f0);
    assert_eq!(Rounded(-1).hashed(), 0xf2cbbd7b);
    assert_eq!(Rounded((2.6f64).round() as i64).hashed(), Rounded((3.4f64).round() as i64).hashed());
}
