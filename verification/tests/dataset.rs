use randomx::dataset::partition_bytes;
use randomx::engine::{DATASET_ITEM_COUNT, DATASET_ITEM_SIZE, DATASET_SIZE};
use randomx::partition::partitions;
use randomx::{Error, RandomX, RandomxCache, RandomxDataset, RandomxFlags};

const KEY: &[u8] = b"RandomX example key\0";
const INPUT: &[u8] = b"RandomX example input\0";

fn fast_flags() -> RandomxFlags {
    RandomxFlags::default().union(RandomxFlags::fullmem())
}

#[test]
fn partition_sizes_follow_the_policy() {
    let parts = partitions(100, 7);
    assert_eq!(parts.len(), 7);
    let mut expected_start = 0;
    for (j, p) in parts.iter().enumerate() {
        assert_eq!(p.start, expected_start);
        if j < 6 {
            assert_eq!(p.len, 14);
        } else {
            assert_eq!(p.len, 14 + 2);
        }
        expected_start += p.len;
    }
    assert_eq!(expected_start, 100);
}

#[test]
fn partitions_cover_small_counts_with_many_workers() {
    let parts = partitions(5, 8);
    assert_eq!(parts.len(), 8);
    for p in parts.iter().take(7) {
        assert_eq!(p.len, 0);
    }
    assert_eq!(parts[7].start, 0);
    assert_eq!(parts[7].len, 5);
}

#[test]
fn single_worker_covers_everything() {
    let parts = partitions(4096, 1);
    assert_eq!(parts.len(), 1);
    assert_eq!(parts[0].start, 0);
    assert_eq!(parts[0].len, 4096);
}

#[test]
fn worker_count_does_not_change_the_dataset() {
    let a = RandomxDataset::new_with_workers(fast_flags(), KEY, 1).unwrap();
    let b = RandomxDataset::new_with_workers(fast_flags(), KEY, 3).unwrap();
    assert_eq!(a.as_slice(), b.as_slice());
}

#[test]
fn scattered_partitions_reassemble_the_dataset_in_any_order() {
    let dataset = RandomxDataset::new_with_workers(fast_flags(), KEY, 4).unwrap();
    let cache = RandomxCache::new(RandomxFlags::default(), KEY).unwrap();
    let parts = partitions(DATASET_ITEM_COUNT, 4);

    let mut assembled = vec![0u8; DATASET_SIZE];
    for p in parts.iter().rev() {
        let bytes = partition_bytes(&cache, *p);
        let offset = p.start * DATASET_ITEM_SIZE;
        assembled[offset..offset + bytes.len()].copy_from_slice(&bytes);
    }
    assert_eq!(assembled.as_slice(), dataset.as_slice());
}

#[test]
fn snapshot_round_trip_preserves_bytes_and_digests() {
    let flags = fast_flags();
    let original = RandomxDataset::new_with_workers(flags, KEY, 2).unwrap();
    let blob = original.as_slice().to_vec();
    assert_eq!(blob.len(), DATASET_SIZE);

    let reopened = RandomxDataset::open(flags, &blob).unwrap();
    assert_eq!(original.as_slice(), reopened.as_slice());

    let mut first = RandomX::new_fast(flags, &original).unwrap();
    let mut second = RandomX::new_fast(flags, &reopened).unwrap();
    assert_eq!(
        first.calculate_hash_to_vec(INPUT),
        second.calculate_hash_to_vec(INPUT)
    );
}

#[test]
fn open_rejects_short_sources() {
    let short = vec![0u8; DATASET_SIZE - 1];
    let err = RandomxDataset::open(fast_flags(), &short).unwrap_err();
    assert_eq!(err, Error::IOError);
    let err = RandomxDataset::open(fast_flags(), b"").unwrap_err();
    assert_eq!(err, Error::IOError);
}

#[test]
fn open_rejects_large_pages() {
    let blob = vec![0u8; DATASET_SIZE];
    let flags = fast_flags().union(RandomxFlags::largepages());
    let err = RandomxDataset::open(flags, &blob).unwrap_err();
    assert_eq!(err, Error::DatasetAllocError);
}

#[test]
fn dataset_build_fails_on_large_pages() {
    let flags = fast_flags().union(RandomxFlags::largepages());
    let err = RandomxDataset::new_with_workers(flags, KEY, 2).unwrap_err();
    assert_eq!(err, Error::CacheAllocError);
}

#[test]
fn many_machines_share_one_dataset() {
    let flags = fast_flags();
    let dataset = RandomxDataset::new_with_workers(flags, KEY, 2).unwrap();
    let mut first = RandomX::new_fast(flags, &dataset).unwrap();
    let mut second = RandomX::new_fast(flags, &dataset).unwrap();
    assert_eq!(
        first.calculate_hash_to_vec(INPUT),
        second.calculate_hash_to_vec(INPUT)
    );
}

#[test]
fn default_worker_count_builds_the_same_dataset() {
    let built = RandomxDataset::new(fast_flags(), KEY).unwrap();
    let pinned = RandomxDataset::new_with_workers(fast_flags(), KEY, 1).unwrap();
    assert_eq!(built.as_slice(), pinned.as_slice());
}
