//! The deterministic memory-hard core: how cache bytes are derived from a
//! key, how dataset items are derived from the cache, and how a digest is
//! computed from a memory region and an input.
//!
//! Every byte is pinned down by a spec function, so determinism — the
//! load-bearing property for proof-of-work use — holds by construction:
//! the same `(key, input)` pair yields the same digest in every process.

use vstd::prelude::*;

verus! {

/// Number of bytes in a key-derived cache region.
pub const CACHE_SIZE: usize = 65536;

/// Number of items in a fully materialized dataset.
pub const DATASET_ITEM_COUNT: usize = 4096;

/// Number of bytes per dataset item.
pub const DATASET_ITEM_SIZE: usize = 64;

/// Total number of bytes of a fully materialized dataset.
pub const DATASET_SIZE: usize = DATASET_ITEM_COUNT * DATASET_ITEM_SIZE;

/// Number of dataset reads mixed into one digest.
pub const HASH_ROUNDS: usize = 8;

/// Initial state for folding key bytes.
pub const KEY_INIT: u64 = 0xcbf2_9ce4_8422_2325;

/// Initial state for folding input bytes.
pub const INPUT_INIT: u64 = 0x2545_f491_4f6c_dd1d;

/// Domain tag for cache derivation.
pub const CACHE_TAG: u64 = 0x9e37_79b9_7f4a_7c15;

/// Domain tag for dataset item derivation.
pub const ITEM_TAG: u64 = 0xd6e8_feb8_6659_fd93;

/// Domain tag for digest output bytes.
pub const OUT_TAG: u64 = 0xff51_afd7_ed55_8ccd;

/// Stride with which an item walks the cache when it is derived.
pub const ITEM_STRIDE: usize = 257;

/// One diffusion step over a 64-bit state.
pub open spec fn mix64(x: u64) -> u64 {
    let a = x ^ (x >> 33);
    let b = a ^ (a << 21);
    b ^ (b >> 17)
}

/// Absorb one byte into a 64-bit state.
pub open spec fn absorb(s: u64, b: u8) -> u64 {
    mix64(s ^ (b as u64))
}

/// Fold a byte sequence into a 64-bit state, starting from `init`.
pub open spec fn fold_bytes(init: u64, bytes: Seq<u8>) -> u64
    decreases bytes.len(),
{
    if bytes.len() == 0 {
        init
    } else {
        absorb(fold_bytes(init, bytes.drop_last()), bytes.last())
    }
}

/// The seed a key expands to.
pub open spec fn key_seed(key: Seq<u8>) -> u64 {
    fold_bytes(KEY_INIT, key)
}

/// The seed an input hashes to before any dataset read.
pub open spec fn input_seed(input: Seq<u8>) -> u64 {
    fold_bytes(INPUT_INIT, input)
}

/// Byte `j` of the cache region derived from `key`.
pub open spec fn cache_byte(key: Seq<u8>, j: int) -> u8 {
    (mix64(key_seed(key) ^ CACHE_TAG ^ (j as u64)) & 0xff) as u8
}

/// The full cache region derived from `key`.
pub open spec fn cache_of_key(key: Seq<u8>) -> Seq<u8> {
    Seq::new(CACHE_SIZE as nat, |j: int| cache_byte(key, j))
}

/// The cache position read when byte `k` of item `i` is derived.
pub open spec fn cache_slot(i: int, k: int) -> int {
    (i * ITEM_STRIDE + k) % (CACHE_SIZE as int)
}

/// Byte `k` of dataset item `i`, derived from the cache contents.
pub open spec fn item_byte(cache: Seq<u8>, i: int, k: int) -> u8
    recommends
        cache.len() == CACHE_SIZE,
        0 <= i < DATASET_ITEM_COUNT,
        0 <= k < DATASET_ITEM_SIZE,
{
    (mix64((cache[cache_slot(i, k)] as u64) ^ ITEM_TAG ^ ((i as u64) << 16) ^ (k as u64))
        & 0xff) as u8
}

/// Byte `n` of the dataset derived from the cache contents.
pub open spec fn dataset_byte(cache: Seq<u8>, n: int) -> u8
    recommends
        cache.len() == CACHE_SIZE,
        0 <= n < DATASET_SIZE,
{
    item_byte(cache, n / (DATASET_ITEM_SIZE as int), n % (DATASET_ITEM_SIZE as int))
}

/// The full dataset derived from the cache contents.
pub open spec fn dataset_from_cache(cache: Seq<u8>) -> Seq<u8> {
    Seq::new(DATASET_SIZE as nat, |n: int| dataset_byte(cache, n))
}

/// The full dataset derived from `key`: build the cache, then every item.
pub open spec fn dataset_of_key(key: Seq<u8>) -> Seq<u8> {
    dataset_from_cache(cache_of_key(key))
}

/// One hashing round: read the dataset byte the state points at, mix it
/// and the round counter in.
pub open spec fn round_step(mem: Seq<u8>, s: u64, r: int) -> u64
    recommends
        mem.len() == DATASET_SIZE,
{
    mix64(s ^ (mem[(s % (DATASET_SIZE as u64)) as int] as u64) ^ ((r as u64) << 32))
}

/// The hashing state after `n` rounds over memory `mem`, starting from `s`.
pub open spec fn hash_state(mem: Seq<u8>, s: u64, n: nat) -> u64
    recommends
        mem.len() == DATASET_SIZE,
    decreases n,
{
    if n == 0 {
        s
    } else {
        round_step(mem, hash_state(mem, s, (n - 1) as nat), n - 1)
    }
}

/// Byte `t` of the digest of `input` against memory `mem`.
pub open spec fn digest_byte(mem: Seq<u8>, input: Seq<u8>, t: int) -> u8 {
    (mix64(hash_state(mem, input_seed(input), HASH_ROUNDS as nat) ^ OUT_TAG ^ (t as u64))
        & 0xff) as u8
}

/// The digest of `input` against memory `mem`: always exactly
/// `RANDOMX_HASH_SIZE` bytes, and a pure function of its two arguments.
pub open spec fn digest_of(mem: Seq<u8>, input: Seq<u8>) -> Seq<u8> {
    Seq::new(crate::RANDOMX_HASH_SIZE as nat, |t: int| digest_byte(mem, input, t))
}

/// Executable mirror of `mix64`.
pub(crate) fn mix64_exec(x: u64) -> (r: u64)
    ensures
        r == mix64(x),
{
    let a = x ^ (x >> 33);
    let b = a ^ (a << 21);
    b ^ (b >> 17)
}

/// The low byte of a 64-bit state.
pub(crate) fn low_byte(x: u64) -> (r: u8)
    ensures
        r == (x & 0xff) as u8,
{
    assert(x & 0xff < 256) by (bit_vector);
    (x & 0xff) as u8
}

/// Executable mirror of `fold_bytes`.
pub(crate) fn fold_bytes_exec(init: u64, bytes: &[u8]) -> (r: u64)
    ensures
        r == fold_bytes(init, bytes@),
{
    let mut s = init;
    let mut idx: usize = 0;
    while idx < bytes.len()
        invariant
            idx <= bytes@.len(),
            s == fold_bytes(init, bytes@.take(idx as int)),
        decreases bytes@.len() - idx,
    {
        let b = bytes[idx];
        proof {
            assert(bytes@.take(idx + 1).drop_last() =~= bytes@.take(idx as int));
            assert(bytes@.take(idx + 1).last() == bytes@[idx as int]);
        }
        s = mix64_exec(s ^ (b as u64));
        idx += 1;
    }
    proof {
        assert(bytes@.take(bytes@.len() as int) =~= bytes@);
    }
    s
}

/// Executable mirror of `item_byte`.
pub(crate) fn item_byte_exec(cache: &Vec<u8>, i: usize, k: usize) -> (r: u8)
    requires
        cache@.len() == CACHE_SIZE,
        i < DATASET_ITEM_COUNT,
        k < DATASET_ITEM_SIZE,
    ensures
        r == item_byte(cache@, i as int, k as int),
{
    let pos: usize = (i * ITEM_STRIDE + k) % CACHE_SIZE;
    let c = cache[pos];
    low_byte(mix64_exec((c as u64) ^ ITEM_TAG ^ ((i as u64) << 16) ^ (k as u64)))
}

/// Executable mirror of `dataset_byte`.
pub(crate) fn dataset_byte_exec(cache: &Vec<u8>, n: usize) -> (r: u8)
    requires
        cache@.len() == CACHE_SIZE,
        n < DATASET_SIZE,
    ensures
        r == dataset_byte(cache@, n as int),
{
    item_byte_exec(cache, n / DATASET_ITEM_SIZE, n % DATASET_ITEM_SIZE)
}

} // verus!
