//! Caches and datasets: the two alternative backing stores for hashing.
//!
//! A cache is a small region derived from a key. A dataset is the large,
//! fully materialized region derived item by item from a cache; its
//! initialization is partitioned across workers, and the partitions write
//! disjoint byte ranges, so the result is independent of the order in
//! which they run.

use vstd::prelude::*;

use crate::engine::{
    cache_byte, cache_of_key, dataset_byte, dataset_byte_exec, dataset_from_cache, dataset_of_key,
    digest_of, fold_bytes_exec, hash_state, input_seed, item_byte_exec, low_byte, mix64_exec,
    CACHE_SIZE, CACHE_TAG, DATASET_ITEM_COUNT, DATASET_ITEM_SIZE, DATASET_SIZE, HASH_ROUNDS,
    INPUT_INIT, KEY_INIT,
};
use crate::error::Error;
use crate::flag::{RandomxFlags, FLAG_LARGEPAGES};
use crate::partition::{
    covered, covers, lemma_partition_coverage, lemma_tiled_bounds, partitions, Partition,
};
use vstd::arithmetic::div_mod::{
    lemma_fundamental_div_mod, lemma_fundamental_div_mod_converse, lemma_mod_bound,
};

verus! {

/// Whether byte index `n` of the dataset belongs to an item of partition `p`.
pub open spec fn in_partition_bytes(p: Partition, n: int) -> bool {
    p.start * DATASET_ITEM_SIZE <= n < (p.start + p.len) * DATASET_ITEM_SIZE
}

/// The dataset bytes after one partition's initialization ran over `mem`:
/// the partition's own byte range is derived from the cache, every other
/// byte is untouched.
pub open spec fn apply_partition(mem: Seq<u8>, cache: Seq<u8>, p: Partition) -> Seq<u8> {
    Seq::new(
        mem.len(),
        |n: int|
            if in_partition_bytes(p, n) {
                dataset_byte(cache, n)
            } else {
                mem[n]
            },
    )
}

/// The dataset bytes after a list of partition initializations ran in order.
pub open spec fn apply_partitions(mem: Seq<u8>, cache: Seq<u8>, parts: Seq<Partition>) -> Seq<u8>
    decreases parts.len(),
{
    if parts.len() == 0 {
        mem
    } else {
        apply_partitions(apply_partition(mem, cache, parts[0]), cache, parts.drop_first())
    }
}

/// Whether some partition of `parts` owns dataset byte `n`.
pub open spec fn byte_covered(parts: Seq<Partition>, n: int) -> bool {
    exists|j: int| 0 <= j < parts.len() && in_partition_bytes(parts[j], n)
}

/// Running one more partition afterwards is the same as appending it.
proof fn lemma_apply_push(mem: Seq<u8>, cache: Seq<u8>, parts: Seq<Partition>, p: Partition)
    ensures
        apply_partitions(mem, cache, parts.push(p)) == apply_partition(
            apply_partitions(mem, cache, parts),
            cache,
            p,
        ),
    decreases parts.len(),
{
    if parts.len() == 0 {
        assert(parts.push(p).drop_first() =~= Seq::<Partition>::empty());
        assert(parts.push(p)[0] == p);
        assert(apply_partitions(mem, cache, parts) == mem);
        assert(apply_partitions(apply_partition(mem, cache, p), cache, Seq::<Partition>::empty())
            == apply_partition(mem, cache, p));
    } else {
        lemma_apply_push(apply_partition(mem, cache, parts[0]), cache, parts.drop_first(), p);
        assert(parts.push(p).drop_first() =~= parts.drop_first().push(p));
        assert(parts.push(p)[0] == parts[0]);
        assert(apply_partitions(mem, cache, parts.push(p)) == apply_partitions(
            apply_partition(mem, cache, parts[0]),
            cache,
            parts.drop_first().push(p),
        ));
        assert(apply_partitions(mem, cache, parts) == apply_partitions(
            apply_partition(mem, cache, parts[0]),
            cache,
            parts.drop_first(),
        ));
    }
}

/// What every byte is after a list of partitions ran: derived from the
/// cache if some partition owns it, untouched otherwise. The value written
/// to an owned byte does not depend on which partition wrote it, nor when.
pub proof fn lemma_apply_partitions_pointwise(mem: Seq<u8>, cache: Seq<u8>, parts: Seq<Partition>)
    ensures
        apply_partitions(mem, cache, parts).len() == mem.len(),
        forall|n: int|
            0 <= n < mem.len() ==> apply_partitions(mem, cache, parts)[n] == (
            if byte_covered(parts, n) {
                dataset_byte(cache, n)
            } else {
                mem[n]
            }),
    decreases parts.len(),
{
    if parts.len() == 0 {
        assert(forall|n: int| !byte_covered(parts, n));
    } else {
        let rest = parts.drop_first();
        let m1 = apply_partition(mem, cache, parts[0]);
        lemma_apply_partitions_pointwise(m1, cache, rest);
        assert forall|n: int| 0 <= n < mem.len() implies apply_partitions(mem, cache, parts)[n]
            == (if byte_covered(parts, n) {
            dataset_byte(cache, n)
        } else {
            mem[n]
        }) by {
            if byte_covered(rest, n) {
                let j = choose|j: int| 0 <= j < rest.len() && in_partition_bytes(rest[j], n);
                assert(rest[j] == parts[j + 1]);
                assert(in_partition_bytes(parts[j + 1], n));
            } else if in_partition_bytes(parts[0], n) {
                assert(byte_covered(parts, n));
            } else {
                if byte_covered(parts, n) {
                    let j = choose|j: int|
                        0 <= j < parts.len() && in_partition_bytes(parts[j], n);
                    assert(j > 0);
                    assert(rest[j - 1] == parts[j]);
                    assert(byte_covered(rest, n));
                }
            }
        }
    }
}

/// A partition owns byte `n` exactly when it covers item `n / item size`.
proof fn lemma_byte_item_cover(parts: Seq<Partition>, n: int)
    requires
        0 <= n,
    ensures
        byte_covered(parts, n) <==> covered(parts, n / (DATASET_ITEM_SIZE as int)),
{
    let d = DATASET_ITEM_SIZE as int;
    lemma_fundamental_div_mod(n, d);
    lemma_mod_bound(n, d);
    let q = n / d;
    let r = n % d;
    if byte_covered(parts, n) {
        let j = choose|j: int| 0 <= j < parts.len() && in_partition_bytes(parts[j], n);
        assert(covers(parts[j], q)) by (nonlinear_arith)
            requires
                parts[j].start * d <= n < (parts[j].start + parts[j].len) * d,
                n == q * d + r,
                0 <= r < d,
        ;
    }
    if covered(parts, q) {
        let j = choose|j: int| 0 <= j < parts.len() && covers(parts[j], q);
        assert(in_partition_bytes(parts[j], n)) by (nonlinear_arith)
            requires
                parts[j].start <= q < parts[j].start + parts[j].len,
                n == q * d + r,
                0 <= r < d,
                d == DATASET_ITEM_SIZE as int,
        ;
        assert(byte_covered(parts, n));
    }
}

/// Order independence law: two schedules of partition initializations that
/// cover the same item indices — in particular, any two permutations of
/// the same partition list — leave the dataset with identical bytes.
pub proof fn lemma_order_independence(
    mem: Seq<u8>,
    cache: Seq<u8>,
    ps: Seq<Partition>,
    qs: Seq<Partition>,
)
    requires
        forall|i: int| covered(ps, i) <==> covered(qs, i),
    ensures
        apply_partitions(mem, cache, ps) == apply_partitions(mem, cache, qs),
{
    lemma_apply_partitions_pointwise(mem, cache, ps);
    lemma_apply_partitions_pointwise(mem, cache, qs);
    assert forall|n: int| 0 <= n < mem.len() implies apply_partitions(mem, cache, ps)[n]
        == apply_partitions(mem, cache, qs)[n] by {
        lemma_byte_item_cover(ps, n);
        lemma_byte_item_cover(qs, n);
    }
    assert(apply_partitions(mem, cache, ps) =~= apply_partitions(mem, cache, qs));
}

/// An index covered under one schedule is covered under any rearrangement
/// of the same partitions.
proof fn lemma_covered_under_permutation(ps: Seq<Partition>, qs: Seq<Partition>, i: int)
    requires
        ps.to_multiset() == qs.to_multiset(),
        covered(ps, i),
    ensures
        covered(qs, i),
{
    let j = choose|j: int| 0 <= j < ps.len() && covers(ps[j], i);
    let p = ps[j];
    assert(ps.contains(p));
    ps.to_multiset_ensures();
    qs.to_multiset_ensures();
    assert(ps.to_multiset().count(p) > 0);
    assert(qs.to_multiset().count(p) > 0);
    assert(qs.contains(p));
    let j2 = choose|j2: int| 0 <= j2 < qs.len() && qs[j2] == p;
    assert(covers(qs[j2], i));
}

/// Order independence law, scheduling form: running the very same workers'
/// partitions in any shuffled order leaves the dataset with identical
/// bytes.
pub proof fn lemma_schedule_permutation(
    mem: Seq<u8>,
    cache: Seq<u8>,
    ps: Seq<Partition>,
    qs: Seq<Partition>,
)
    requires
        ps.to_multiset() == qs.to_multiset(),
    ensures
        apply_partitions(mem, cache, ps) == apply_partitions(mem, cache, qs),
{
    assert forall|i: int| covered(ps, i) <==> covered(qs, i) by {
        if covered(ps, i) {
            lemma_covered_under_permutation(ps, qs, i);
        }
        if covered(qs, i) {
            lemma_covered_under_permutation(qs, ps, i);
        }
    }
    lemma_order_independence(mem, cache, ps, qs);
}

/// A schedule that covers every item turns any starting region into the
/// dataset the cache derives to.
pub proof fn lemma_apply_covering(mem: Seq<u8>, cache: Seq<u8>, parts: Seq<Partition>)
    requires
        mem.len() == DATASET_SIZE,
        forall|i: int| 0 <= i < DATASET_ITEM_COUNT ==> covered(parts, i),
    ensures
        apply_partitions(mem, cache, parts) == dataset_from_cache(cache),
{
    lemma_apply_partitions_pointwise(mem, cache, parts);
    let d = DATASET_ITEM_SIZE as int;
    assert forall|n: int| 0 <= n < mem.len() implies apply_partitions(mem, cache, parts)[n]
        == dataset_from_cache(cache)[n] by {
        lemma_fundamental_div_mod(n, d);
        lemma_mod_bound(n, d);
        assert(0 <= n / d < DATASET_ITEM_COUNT);
        lemma_byte_item_cover(parts, n);
    }
    assert(apply_partitions(mem, cache, parts) =~= dataset_from_cache(cache));
}

/// A small read-only memory region fully derived from a key; backs
/// light-mode hashing and dataset construction.
#[derive(Debug)]
pub struct RandomxCache {
    pub(crate) data: Vec<u8>,
}

impl RandomxCache {
    /// The bytes of the cache region.
    pub closed spec fn contents(self) -> Seq<u8> {
        self.data@
    }

    /// A well-formed cache region has its full size.
    pub open spec fn wf(self) -> bool {
        self.contents().len() == CACHE_SIZE
    }

    /// Allocate the cache region and derive every byte from `key`.
    /// Large pages are not provided by this allocator, so requesting them
    /// fails; any other request succeeds, with the contents pinned down
    /// by the key alone.
    pub fn new(flags: RandomxFlags, key: &[u8]) -> (r: Result<RandomxCache, Error>)
        ensures
            match r {
                Ok(c) => !flags.spec_has(FLAG_LARGEPAGES) && c.wf() && c.contents()
                    == cache_of_key(key@),
                Err(e) => flags.spec_has(FLAG_LARGEPAGES) && e == Error::CacheAllocError,
            },
    {
        if flags.bits & FLAG_LARGEPAGES == FLAG_LARGEPAGES {
            return Err(Error::CacheAllocError);
        }
        let seed = fold_bytes_exec(KEY_INIT, key);
        let mut data: Vec<u8> = Vec::new();
        let mut j: usize = 0;
        while j < CACHE_SIZE
            invariant
                j <= CACHE_SIZE,
                seed == crate::engine::key_seed(key@),
                data@.len() == j,
                forall|q: int| 0 <= q < j ==> data@[q] == cache_byte(key@, q),
            decreases CACHE_SIZE - j,
        {
            data.push(low_byte(mix64_exec(seed ^ CACHE_TAG ^ (j as u64))));
            j += 1;
        }
        proof {
            assert(data@ =~= cache_of_key(key@));
        }
        Ok(RandomxCache { data })
    }
}

/// A large read-only memory region whose every item is derived from a
/// cache; backs fast-mode hashing.
#[derive(Debug)]
pub struct RandomxDataset {
    pub(crate) data: Vec<u8>,
}

/// Relies on num_cpus::get for the number of available CPUs of the current
/// system; it is documented to always report at least one.
#[verifier::external_body]
fn available_workers() -> (r: usize)
    ensures
        1 <= r,
{
    num_cpus::get()
}

impl RandomxDataset {
    /// The bytes of the dataset region.
    pub closed spec fn contents(self) -> Seq<u8> {
        self.data@
    }

    /// A well-formed dataset region has its full size.
    pub open spec fn wf(self) -> bool {
        self.contents().len() == DATASET_SIZE
    }

    /// Build a dataset from `key`: derive an intermediate cache, partition
    /// the item-index space over the available CPUs, and initialize every
    /// partition. The result does not depend on the worker count; the
    /// intermediate cache is released afterwards.
    pub fn new(flags: RandomxFlags, key: &[u8]) -> (r: Result<RandomxDataset, Error>)
        ensures
            match r {
                Ok(d) => !flags.spec_has(FLAG_LARGEPAGES) && d.wf() && d.contents()
                    == dataset_of_key(key@),
                Err(e) => flags.spec_has(FLAG_LARGEPAGES) && e == Error::CacheAllocError,
            },
    {
        let workers = available_workers();
        Self::new_with_workers(flags, key, workers)
    }

    /// Build a dataset from `key` with an explicit worker count, so that a
    /// caller can pin the partitioning deterministically.
    pub fn new_with_workers(flags: RandomxFlags, key: &[u8], workers: usize) -> (r: Result<
        RandomxDataset,
        Error,
    >)
        requires
            1 <= workers,
        ensures
            match r {
                Ok(d) => !flags.spec_has(FLAG_LARGEPAGES) && d.wf() && d.contents()
                    == dataset_of_key(key@),
                Err(e) => flags.spec_has(FLAG_LARGEPAGES) && e == Error::CacheAllocError,
            },
    {
        let cache = match RandomxCache::new(flags, key) {
            Ok(c) => c,
            Err(e) => {
                return Err(e);
            },
        };
        let mut data: Vec<u8> = vec![0u8; DATASET_SIZE];
        let ghost zeros = data@;
        let parts = partitions(DATASET_ITEM_COUNT, workers);
        proof {
            lemma_partition_coverage(parts@, DATASET_ITEM_COUNT as int);
            assert forall|j: int| 0 <= j < parts@.len() implies parts@[j].start + parts@[j].len
                <= DATASET_ITEM_COUNT by {
                lemma_tiled_bounds(parts@, 0, DATASET_ITEM_COUNT as int, j);
            }
        }
        init_partitions(&mut data, &cache, &parts);
        proof {
            lemma_apply_covering(zeros, cache.contents(), parts@);
        }
        Ok(RandomxDataset { data })
    }

    /// Load a dataset from snapshot bytes instead of computing it: the
    /// source must hold at least the dataset's full size, laid out exactly
    /// as `new` produces it; a shorter source is rejected, never padded.
    pub fn open(flags: RandomxFlags, data: &[u8]) -> (r: Result<RandomxDataset, Error>)
        ensures
            data@.len() < DATASET_SIZE ==> r == Err::<RandomxDataset, Error>(Error::IOError),
            data@.len() >= DATASET_SIZE && flags.spec_has(FLAG_LARGEPAGES) ==> r == Err::<
                RandomxDataset,
                Error,
            >(Error::DatasetAllocError),
            data@.len() >= DATASET_SIZE && !flags.spec_has(FLAG_LARGEPAGES) ==> (r matches Ok(d)
                && d.wf() && d.contents() == data@.subrange(0, DATASET_SIZE as int)),
    {
        if data.len() < DATASET_SIZE {
            return Err(Error::IOError);
        }
        if flags.bits & FLAG_LARGEPAGES == FLAG_LARGEPAGES {
            return Err(Error::DatasetAllocError);
        }
        let region = vstd::slice::slice_subrange(data, 0, DATASET_SIZE);
        let copied = vstd::slice::slice_to_vec(region);
        Ok(RandomxDataset { data: copied })
    }

    /// The dataset's bytes, for persisting a snapshot that `open` accepts.
    pub fn as_slice(&self) -> (r: &[u8])
        ensures
            r@ == self.contents(),
    {
        self.data.as_slice()
    }
}

/// Snapshot round-trip law: a dataset reopened from the bytes a dataset
/// serializes to holds identical bytes, and therefore every machine bound
/// to it computes identical digests.
pub proof fn lemma_snapshot_round_trip(d: RandomxDataset, reopened: RandomxDataset, input: Seq<u8>)
    requires
        d.wf(),
        reopened.contents() == d.contents().subrange(0, DATASET_SIZE as int),
    ensures
        reopened.contents() == d.contents(),
        digest_of(reopened.contents(), input) == digest_of(d.contents(), input),
{
    assert(d.contents().subrange(0, DATASET_SIZE as int) =~= d.contents());
}

/// The hashing state `input` reaches against a cache: every dataset byte
/// a round asks for is derived from the cache on demand.
pub(crate) fn hash_state_light(cache: &RandomxCache, input: &[u8]) -> (s: u64)
    requires
        cache.wf(),
    ensures
        s == hash_state(
            dataset_from_cache(cache.contents()),
            input_seed(input@),
            HASH_ROUNDS as nat,
        ),
{
    let ghost mem = dataset_from_cache(cache.contents());
    let mut s = fold_bytes_exec(INPUT_INIT, input);
    let mut r: usize = 0;
    while r < HASH_ROUNDS
        invariant
            cache.wf(),
            mem == dataset_from_cache(cache.contents()),
            r <= HASH_ROUNDS,
            s == hash_state(mem, input_seed(input@), r as nat),
        decreases HASH_ROUNDS - r,
    {
        let idx: usize = (s % (DATASET_SIZE as u64)) as usize;
        let b = dataset_byte_exec(&cache.data, idx);
        proof {
            assert(mem[idx as int] == dataset_byte(cache.contents(), idx as int));
        }
        s = mix64_exec(s ^ (b as u64) ^ ((r as u64) << 32));
        r += 1;
    }
    s
}

/// The hashing state `input` reaches against a fully materialized dataset:
/// every dataset byte a round asks for is read directly.
pub(crate) fn hash_state_fast(dataset: &RandomxDataset, input: &[u8]) -> (s: u64)
    requires
        dataset.wf(),
    ensures
        s == hash_state(dataset.contents(), input_seed(input@), HASH_ROUNDS as nat),
{
    let mut s = fold_bytes_exec(INPUT_INIT, input);
    let mut r: usize = 0;
    while r < HASH_ROUNDS
        invariant
            dataset.wf(),
            r <= HASH_ROUNDS,
            s == hash_state(dataset.contents(), input_seed(input@), r as nat),
        decreases HASH_ROUNDS - r,
    {
        let idx: usize = (s % (DATASET_SIZE as u64)) as usize;
        let b = dataset.data[idx];
        s = mix64_exec(s ^ (b as u64) ^ ((r as u64) << 32));
        r += 1;
    }
    s
}

/// Initialize one dataset item in place.
fn init_item(data: &mut Vec<u8>, cache: &Vec<u8>, i: usize)
    requires
        old(data)@.len() == DATASET_SIZE,
        cache@.len() == CACHE_SIZE,
        i < DATASET_ITEM_COUNT,
    ensures
        final(data)@.len() == DATASET_SIZE,
        forall|n: int|
            0 <= n < DATASET_SIZE ==> final(data)@[n] == (
            if i * DATASET_ITEM_SIZE <= n < (i + 1) * DATASET_ITEM_SIZE {
                dataset_byte(cache@, n)
            } else {
                old(data)@[n]
            }),
{
    let base = i * DATASET_ITEM_SIZE;
    let mut k: usize = 0;
    while k < DATASET_ITEM_SIZE
        invariant
            data@.len() == DATASET_SIZE,
            cache@.len() == CACHE_SIZE,
            i < DATASET_ITEM_COUNT,
            base == i * DATASET_ITEM_SIZE,
            k <= DATASET_ITEM_SIZE,
            forall|n: int|
                0 <= n < DATASET_SIZE ==> data@[n] == (
                if base <= n < base + k {
                    dataset_byte(cache@, n)
                } else {
                    old(data)@[n]
                }),
        decreases DATASET_ITEM_SIZE - k,
    {
        let b = item_byte_exec(cache, i, k);
        proof {
            lemma_fundamental_div_mod_converse(
                (base + k) as int,
                DATASET_ITEM_SIZE as int,
                i as int,
                k as int,
            );
        }
        data[base + k] = b;
        k += 1;
    }
}

/// Initialize every item of one partition in place: a pure
/// read-from-cache, write-to-own-range operation.
fn init_partition(data: &mut Vec<u8>, cache: &Vec<u8>, p: Partition)
    requires
        old(data)@.len() == DATASET_SIZE,
        cache@.len() == CACHE_SIZE,
        p.start + p.len <= DATASET_ITEM_COUNT,
    ensures
        final(data)@ == apply_partition(old(data)@, cache@, p),
{
    let end = p.start + p.len;
    let mut i = p.start;
    while i < end
        invariant
            data@.len() == DATASET_SIZE,
            cache@.len() == CACHE_SIZE,
            p.start <= i <= end,
            end == p.start + p.len,
            end <= DATASET_ITEM_COUNT,
            forall|n: int|
                0 <= n < DATASET_SIZE ==> data@[n] == (
                if p.start * DATASET_ITEM_SIZE <= n < i * DATASET_ITEM_SIZE {
                    dataset_byte(cache@, n)
                } else {
                    old(data)@[n]
                }),
        decreases end - i,
    {
        init_item(data, cache, i);
        i += 1;
    }
    proof {
        assert(data@ =~= apply_partition(old(data)@, cache@, p));
    }
}

/// Run a whole schedule of partition initializations, in the order given.
pub fn init_partitions(data: &mut Vec<u8>, cache: &RandomxCache, parts: &Vec<Partition>)
    requires
        old(data)@.len() == DATASET_SIZE,
        cache.wf(),
        forall|j: int|
            0 <= j < parts@.len() ==> parts@[j].start + parts@[j].len <= DATASET_ITEM_COUNT,
    ensures
        final(data)@ == apply_partitions(old(data)@, cache.contents(), parts@),
{
    let mut j: usize = 0;
    while j < parts.len()
        invariant
            j <= parts@.len(),
            cache.wf(),
            forall|q: int|
                0 <= q < parts@.len() ==> parts@[q].start + parts@[q].len <= DATASET_ITEM_COUNT,
            data@ == apply_partitions(old(data)@, cache.contents(), parts@.take(j as int)),
            data@.len() == DATASET_SIZE,
        decreases parts@.len() - j,
    {
        let p = parts[j];
        proof {
            lemma_apply_push(old(data)@, cache.contents(), parts@.take(j as int), p);
            assert(parts@.take(j + 1) =~= parts@.take(j as int).push(p));
        }
        init_partition(data, &cache.data, p);
        j += 1;
    }
    proof {
        assert(parts@.take(parts@.len() as int) =~= parts@);
    }
}

/// The bytes one partition's items derive to, in item order: what a worker
/// computes before the ranges are joined back together.
pub fn partition_bytes(cache: &RandomxCache, p: Partition) -> (r: Vec<u8>)
    requires
        cache.wf(),
        p.start + p.len <= DATASET_ITEM_COUNT,
    ensures
        r@.len() == p.len * DATASET_ITEM_SIZE,
        forall|m: int|
            0 <= m < r@.len() ==> r@[m] == dataset_byte(
                cache.contents(),
                p.start * DATASET_ITEM_SIZE + m,
            ),
{
    let end = p.start + p.len;
    let mut r: Vec<u8> = Vec::new();
    let mut i = p.start;
    while i < end
        invariant
            cache.wf(),
            p.start <= i <= end,
            end == p.start + p.len,
            end <= DATASET_ITEM_COUNT,
            r@.len() == (i - p.start) * DATASET_ITEM_SIZE,
            forall|m: int|
                0 <= m < r@.len() ==> r@[m] == dataset_byte(
                    cache.contents(),
                    p.start * DATASET_ITEM_SIZE + m,
                ),
        decreases end - i,
    {
        let mut k: usize = 0;
        while k < DATASET_ITEM_SIZE
            invariant
                cache.wf(),
                p.start <= i < end,
                end == p.start + p.len,
                end <= DATASET_ITEM_COUNT,
                k <= DATASET_ITEM_SIZE,
                r@.len() == (i - p.start) * DATASET_ITEM_SIZE + k,
                forall|m: int|
                    0 <= m < r@.len() ==> r@[m] == dataset_byte(
                        cache.contents(),
                        p.start * DATASET_ITEM_SIZE + m,
                    ),
            decreases DATASET_ITEM_SIZE - k,
        {
            let b = item_byte_exec(&cache.data, i, k);
            proof {
                let m = r@.len() as int;
                assert(p.start * DATASET_ITEM_SIZE + m == i * DATASET_ITEM_SIZE + k)
                    by (nonlinear_arith)
                    requires
                        m == (i - p.start) * DATASET_ITEM_SIZE + k,
                ;
                lemma_fundamental_div_mod_converse(
                    i * DATASET_ITEM_SIZE + k,
                    DATASET_ITEM_SIZE as int,
                    i as int,
                    k as int,
                );
            }
            r.push(b);
            k += 1;
        }
        proof {
            assert((i + 1 - p.start) * DATASET_ITEM_SIZE == (i - p.start) * DATASET_ITEM_SIZE
                + DATASET_ITEM_SIZE) by (nonlinear_arith);
        }
        i += 1;
    }
    r
}

} // verus!
