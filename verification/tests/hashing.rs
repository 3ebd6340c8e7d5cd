use randomx::{Error, RandomX, RandomxCache, RandomxDataset, RandomxFlags, RANDOMX_HASH_SIZE};

const KEY: &[u8] = b"RandomX example key\0";
const INPUT: &[u8] = b"RandomX example input\0";

const EXPECTED: [u8; 32] = [
    107, 122, 73, 88, 47, 62, 13, 28, 227, 242, 193, 208, 167, 182, 133, 148, 123, 106, 89, 72,
    63, 46, 29, 12, 243, 226, 209, 192, 183, 166, 149, 132,
];

const EXPECTED_EMPTY: [u8; 32] = [
    229, 244, 199, 214, 161, 176, 131, 146, 109, 124, 79, 94, 41, 56, 11, 26, 245, 228, 215, 198,
    177, 160, 147, 130, 125, 108, 95, 78, 57, 40, 27, 10,
];

#[test]
fn light_mode_regression_vector() {
    let flags = RandomxFlags::default();
    let cache = RandomxCache::new(flags, KEY).unwrap();
    let mut rx = RandomX::new(flags, &cache).unwrap();
    let digest = rx.calculate_hash_to_vec(INPUT);
    assert_eq!(digest, EXPECTED.to_vec());
}

#[test]
fn empty_key_and_input_regression_vector() {
    let flags = RandomxFlags::default();
    let cache = RandomxCache::new(flags, b"").unwrap();
    let mut rx = RandomX::new(flags, &cache).unwrap();
    let digest = rx.calculate_hash_to_vec(b"");
    assert_eq!(digest, EXPECTED_EMPTY.to_vec());
}

#[test]
fn digest_is_deterministic_across_calls_and_machines() {
    let flags = RandomxFlags::default();
    let cache = RandomxCache::new(flags, KEY).unwrap();
    let mut first = RandomX::new(flags, &cache).unwrap();
    let mut second = RandomX::new(flags, &cache).unwrap();
    let a = first.calculate_hash_to_vec(INPUT);
    let b = first.calculate_hash_to_vec(INPUT);
    let c = second.calculate_hash_to_vec(INPUT);
    assert_eq!(a, b);
    assert_eq!(a, c);
}

#[test]
fn cross_mode_digests_match() {
    let light_flags = RandomxFlags::default();
    let fast_flags = RandomxFlags::default().union(RandomxFlags::fullmem());

    let cache = RandomxCache::new(light_flags, KEY).unwrap();
    let mut light = RandomX::new(light_flags, &cache).unwrap();

    let dataset = RandomxDataset::new_with_workers(fast_flags, KEY, 2).unwrap();
    let mut fast = RandomX::new_fast(fast_flags, &dataset).unwrap();

    let a = light.calculate_hash_to_vec(INPUT);
    let b = fast.calculate_hash_to_vec(INPUT);
    assert_eq!(a, b);
    assert_eq!(a, EXPECTED.to_vec());
}

#[test]
fn new_with_key_matches_machine_over_cache() {
    let flags = RandomxFlags::default();
    let cache = RandomxCache::new(flags, KEY).unwrap();
    let mut borrowed = RandomX::new(flags, &cache).unwrap();
    let mut owned = RandomX::new_with_key(flags, KEY).unwrap();
    assert_eq!(
        borrowed.calculate_hash_to_vec(INPUT),
        owned.calculate_hash_to_vec(INPUT)
    );
}

#[test]
fn digest_writes_exactly_hash_size_bytes() {
    let flags = RandomxFlags::default();
    let cache = RandomxCache::new(flags, KEY).unwrap();
    let mut rx = RandomX::new(flags, &cache).unwrap();

    let mut out = [0xAAu8; 64];
    rx.calculate_hash(INPUT, &mut out).unwrap();
    assert_eq!(&out[..RANDOMX_HASH_SIZE], &EXPECTED[..]);
    for &b in &out[RANDOMX_HASH_SIZE..] {
        assert_eq!(b, 0xAA);
    }
}

#[test]
fn short_buffer_rejected_and_untouched() {
    let flags = RandomxFlags::default();
    let cache = RandomxCache::new(flags, KEY).unwrap();
    let mut rx = RandomX::new(flags, &cache).unwrap();

    let mut out = [0xAAu8; 31];
    let err = rx.calculate_hash(INPUT, &mut out).unwrap_err();
    assert_eq!(err, Error::OutSizeLessThanHashLen(RANDOMX_HASH_SIZE));
    for &b in &out {
        assert_eq!(b, 0xAA);
    }

    let mut empty: [u8; 0] = [];
    let err = rx.calculate_hash(INPUT, &mut empty).unwrap_err();
    assert_eq!(err, Error::OutSizeLessThanHashLen(RANDOMX_HASH_SIZE));
}

#[test]
fn light_machine_rejects_fullmem_flag() {
    let flags = RandomxFlags::default();
    let cache = RandomxCache::new(flags, KEY).unwrap();
    let fullmem = flags.union(RandomxFlags::fullmem());
    let err = RandomX::new(fullmem, &cache).unwrap_err();
    assert_eq!(err, Error::FailedToInitializeVM);
    let err = RandomX::new_with_key(fullmem, KEY).unwrap_err();
    assert_eq!(err, Error::FailedToInitializeVM);
}

#[test]
fn fast_machine_demands_fullmem_flag() {
    let fast_flags = RandomxFlags::default().union(RandomxFlags::fullmem());
    let dataset = RandomxDataset::new_with_workers(fast_flags, KEY, 1).unwrap();
    let err = RandomX::new_fast(RandomxFlags::default(), &dataset).unwrap_err();
    assert_eq!(err, Error::FailedToInitializeVM);
}

#[test]
fn large_pages_cache_allocation_fails() {
    let flags = RandomxFlags::default().union(RandomxFlags::largepages());
    let err = RandomxCache::new(flags, KEY).unwrap_err();
    assert_eq!(err, Error::CacheAllocError);
    let err = RandomX::new_with_key(flags, KEY).unwrap_err();
    assert_eq!(err, Error::CacheAllocError);
}

#[test]
fn many_machines_share_one_cache() {
    let flags = RandomxFlags::default();
    let cache = RandomxCache::new(flags, KEY).unwrap();
    let mut first = RandomX::new(flags, &cache).unwrap();
    let mut second = RandomX::new(flags, &cache).unwrap();
    let a = first.calculate_hash_to_vec(b"one");
    let b = second.calculate_hash_to_vec(b"one");
    let c = first.calculate_hash_to_vec(b"two");
    assert_eq!(a, b);
    assert_ne!(a, c);
}
