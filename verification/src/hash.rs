//! Digests of 32 bits for byte strings and numbers.
//!
//! None of these functions resists an adversary; they serve a closed symbol
//! table. Words are read little-endian and mixed in 64 bits, which is the
//! layout of the machines the runtime targets.

use vstd::prelude::*;
use vstd::string::StringSliceAdditionalSpecFns;

verus! {

/// A 32-bit digest.
pub type Hash = u32;

/// Multiplier of the FNV-1a fold.
pub const FNV_PRIME: Hash = 0x0100_0193;

/// Start value of the FNV-1a fold.
pub const FNV_OFFSET: Hash = 0x811c_9dc5;

/// Byte strings up to this length are folded with FNV-1a, longer ones word by word.
pub const FNV_MAX_LEN: usize = 256;

/// Odd multiplier of the word-at-a-time mix.
pub const FX_SEED: u64 = 0x517c_c1b7_2722_0a95;

/// First multiplier of the SplitMix finalizer.
pub const SPLITMIX_SEED1: u64 = 0xbf58_476d_1ce4_e5b9;

/// Second multiplier of the SplitMix finalizer.
pub const SPLITMIX_SEED2: u64 = 0x94d0_49bb_1331_11eb;

/// One step of FNV-1a: xor the byte in, then multiply by the prime, modulo 2^32.
pub open spec fn fnv1a_step(hash: Hash, byte: u8) -> Hash {
    (hash ^ (byte as u32)).wrapping_mul(FNV_PRIME)
}

/// The FNV-1a digest of a byte string: the left fold of `fnv1a_step` from the offset basis.
pub open spec fn fnv1a(bytes: Seq<u8>) -> Hash
    decreases bytes.len(),
{
    if bytes.len() == 0 {
        FNV_OFFSET
    } else {
        fnv1a_step(fnv1a(bytes.drop_last()), bytes.last())
    }
}

/// The value of four bytes read as a little-endian word.
pub open spec fn le_word4(bytes: Seq<u8>) -> u64
    recommends
        bytes.len() == 4,
{
    (bytes[0] as int + 0x100 * bytes[1] as int + 0x1_0000 * bytes[2] as int + 0x100_0000
        * bytes[3] as int) as u64
}

/// The value of eight bytes read as a little-endian word.
pub open spec fn le_word8(bytes: Seq<u8>) -> u64
    recommends
        bytes.len() == 8,
{
    (le_word4(bytes.subrange(0, 4)) as int + 0x1_0000_0000 * le_word4(bytes.subrange(4, 8)) as int) as u64
}

/// `hash` rotated left by five bits.
pub open spec fn rotate5(hash: u64) -> u64 {
    (hash << 5) | (hash >> 59)
}

/// One step of the word-at-a-time mix: rotate, xor the word in, multiply by the seed modulo 2^64.
pub open spec fn fx_step(hash: u64, word: u64) -> u64 {
    (rotate5(hash) ^ word).wrapping_mul(FX_SEED)
}

/// The word-at-a-time fold of `bytes` into `hash`: words of eight bytes while
/// eight are left, then one of four, then single bytes.
pub open spec fn fx_fold(hash: u64, bytes: Seq<u8>) -> u64
    decreases bytes.len(),
{
    if bytes.len() >= 8 {
        fx_fold(fx_step(hash, le_word8(bytes.subrange(0, 8))), bytes.skip(8))
    } else if bytes.len() >= 4 {
        fx_fold(fx_step(hash, le_word4(bytes.subrange(0, 4))), bytes.skip(4))
    } else if bytes.len() >= 1 {
        fx_fold(fx_step(hash, bytes[0] as u64), bytes.skip(1))
    } else {
        hash
    }
}

/// The word-at-a-time digest: the low 32 bits of the fold from zero.
pub open spec fn fx(bytes: Seq<u8>) -> Hash {
    (fx_fold(0, bytes) & 0xffff_ffff) as Hash
}

/// The SplitMix finalizer on 64 bits, cut to its low 32 bits.
pub open spec fn splitmix(input: u64) -> Hash {
    let a = (input ^ (input >> 30)).wrapping_mul(SPLITMIX_SEED1);
    let b = (a ^ (a >> 27)).wrapping_mul(SPLITMIX_SEED2);
    ((b ^ (b >> 31)) & 0xffff_ffff) as Hash
}

/// The digest of a byte string: FNV-1a up to `FNV_MAX_LEN` bytes, word-at-a-time beyond.
pub open spec fn digest_bytes(bytes: Seq<u8>) -> Hash {
    if bytes.len() <= FNV_MAX_LEN {
        fnv1a(bytes)
    } else {
        fx(bytes)
    }
}

/// The two's-complement bit pattern of `value`.
pub open spec fn bits_of(value: i64) -> u64 {
    if value < 0 {
        (value + 0x1_0000_0000_0000_0000) as u64
    } else {
        value as u64
    }
}

/// The digest of a number that has already been rounded to the nearest integer.
pub open spec fn digest_integer(rounded: i64) -> Hash {
    splitmix(bits_of(rounded))
}

/// A value that has a 32-bit digest.
pub trait Hashable {
    /// The digest of the value.
    spec fn digest(&self) -> Hash;

    /// Computes the digest.
    fn hashed(&self) -> (hash: Hash)
        ensures
            hash == self.digest(),
    ;
}

impl Hashable for [u8] {
    open spec fn digest(&self) -> Hash {
        digest_bytes(self@)
    }

    fn hashed(&self) -> (hash: Hash) {
        if self.len() <= FNV_MAX_LEN {
            fnv1a_hash(self)
        } else {
            fx_hash(self)
        }
    }
}

impl Hashable for str {
    open spec fn digest(&self) -> Hash {
        digest_bytes(self.spec_bytes())
    }

    fn hashed(&self) -> (hash: Hash) {
        self.as_bytes().hashed()
    }
}

/// A number rounded to the nearest integer; numbers that differ only below
/// integer resolution share a digest.
#[derive(Clone, Copy, Debug, PartialEq, Eq, Structural)]
pub struct Rounded(pub i64);

impl Hashable for Rounded {
    open spec fn digest(&self) -> Hash {
        digest_integer(self.0)
    }

    fn hashed(&self) -> (hash: Hash) {
        splitmix_hash(bits_i64(self.0))
    }
}

/// Reinterprets a signed word as its bit pattern.
pub fn bits_i64(value: i64) -> (bits: u64)
    ensures
        bits == bits_of(value),
{
    if value < 0 {
        let low: u64 = (value - i64::MIN) as u64;
        low + 0x8000_0000_0000_0000
    } else {
        value as u64
    }
}

/// The SplitMix finalizer.
pub fn splitmix_hash(input: u64) -> (hash: Hash)
    ensures
        hash == splitmix(input),
{
    let a: u64 = (input ^ (input >> 30)).wrapping_mul(SPLITMIX_SEED1);
    let b: u64 = (a ^ (a >> 27)).wrapping_mul(SPLITMIX_SEED2);
    let c: u64 = b ^ (b >> 31);
    let low: u64 = c & 0xffff_ffff;
    proof {
        assert(c & 0xffff_ffff <= 0xffff_ffff) by (bit_vector);
    }
    low as Hash
}

/// The FNV-1a digest of `input`.
pub fn fnv1a_hash(input: &[u8]) -> (hash: Hash)
    ensures
        hash == fnv1a(input@),
{
    let mut hash: Hash = FNV_OFFSET;
    let mut i: usize = 0;
    while i < input.len()
        invariant
            i <= input.len(),
            hash == fnv1a(input@.take(i as int)),
        decreases input.len() - i,
    {
        proof {
            assert(input@.take(i + 1).drop_last() == input@.take(i as int));
        }
        hash = (hash ^ (input[i] as u32)).wrapping_mul(FNV_PRIME);
        i += 1;
    }
    proof {
        assert(input@.take(i as int) == input@);
    }
    hash
}

/// Reads the four bytes of `input` that start at `at` as a little-endian word.
fn read_word4(input: &[u8], at: usize) -> (word: u64)
    requires
        at + 4 <= input.len(),
    ensures
        word == le_word4(input@.subrange(at as int, at + 4)),
        word <= 0xffff_ffff,
{
    let b0: u64 = input[at] as u64;
    let b1: u64 = input[at + 1] as u64;
    let b2: u64 = input[at + 2] as u64;
    let b3: u64 = input[at + 3] as u64;
    b0 + 0x100 * b1 + 0x1_0000 * b2 + 0x100_0000 * b3
}

/// Reads the eight bytes of `input` that start at `at` as a little-endian word.
fn read_word8(input: &[u8], at: usize) -> (word: u64)
    requires
        at + 8 <= input.len(),
    ensures
        word == le_word8(input@.subrange(at as int, at + 8)),
{
    let low: u64 = read_word4(input, at);
    let high: u64 = read_word4(input, at + 4);
    low + 0x1_0000_0000 * high
}

/// One step of the word-at-a-time mix.
fn fx_mix(hash: u64, word: u64) -> (mixed: u64)
    ensures
        mixed == fx_step(hash, word),
{
    (((hash << 5) | (hash >> 59)) ^ word).wrapping_mul(FX_SEED)
}

/// The word-at-a-time digest of `input`.
pub fn fx_hash(input: &[u8]) -> (hash: Hash)
    ensures
        hash == fx(input@),
{
    let len: usize = input.len();
    let mut state: u64 = 0;
    let mut i: usize = 0;
    proof {
        assert(input@.skip(0) == input@);
    }
    while len - i >= 8
        invariant
            len == input.len(),
            i <= len,
            fx_fold(0, input@) == fx_fold(state, input@.skip(i as int)),
        decreases len - i,
    {
        proof {
            assert(input@.skip(i as int).skip(8) == input@.skip(i + 8));
        }
        state = fx_mix(state, read_word8(input, i));
        i += 8;
    }
    while len - i >= 4
        invariant
            len == input.len(),
            i <= len,
            len - i < 8,
            fx_fold(0, input@) == fx_fold(state, input@.skip(i as int)),
        decreases len - i,
    {
        proof {
            assert(input@.skip(i as int).skip(4) == input@.skip(i + 4));
        }
        state = fx_mix(state, read_word4(input, i));
        i += 4;
    }
    while len - i >= 1
        invariant
            len == input.len(),
            i <= len,
            len - i < 4,
            fx_fold(0, input@) == fx_fold(state, input@.skip(i as int)),
        decreases len - i,
    {
        proof {
            assert(input@.skip(i as int).skip(1) == input@.skip(i + 1));
        }
        state = fx_mix(state, input[i] as u64);
        i += 1;
    }
    let low: u64 = state & 0xffff_ffff;
    proof {
        assert(state & 0xffff_ffff <= 0xffff_ffff) by (bit_vector);
    }
    low as Hash
}

} // verus!
