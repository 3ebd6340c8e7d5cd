//! A proof-of-work hashing library: callers supply a key and input bytes
//! and receive a fixed-size digest, computed by a deterministic memory-hard
//! core against either a small key-derived cache (light mode) or a large
//! fully materialized dataset (fast mode).
//!
//! A machine is bound at construction to exactly one backing store and
//! borrows it, so a store can never be released while a machine still
//! uses it, and one store can back many machines at once.

use vstd::prelude::*;

pub mod dataset;
pub mod engine;
pub mod error;
pub mod flag;
pub mod partition;

pub use dataset::{RandomxCache, RandomxDataset};
pub use error::Error;
pub use flag::RandomxFlags;

use crate::dataset::{hash_state_fast, hash_state_light};
use crate::engine::{
    cache_of_key, dataset_from_cache, dataset_of_key, digest_byte, digest_of, low_byte,
    mix64_exec, OUT_TAG,
};
use crate::flag::{FLAG_FULLMEM, FLAG_LARGEPAGES};

verus! {

/// Number of bytes of every digest.
pub const RANDOMX_HASH_SIZE: usize = 32;

/// The backing store a machine was bound to when it was created.
#[derive(Debug)]
enum Binding<'a> {
    /// Light mode, reading a borrowed cache.
    Light(&'a RandomxCache),
    /// Light mode, owning the cache it was created over.
    LightOwned(RandomxCache),
    /// Fast mode, reading a borrowed dataset.
    Fast(&'a RandomxDataset),
}

/// A hashing machine: bound to one backing store for its whole lifetime,
/// it computes a digest per input. It must not be shared across threads
/// mid-computation, but any number of machines may read one store.
#[derive(Debug)]
pub struct RandomX<'a> {
    binding: Binding<'a>,
}

impl<'a> RandomX<'a> {
    /// The dataset bytes this machine effectively hashes against: a
    /// fast-mode machine reads them from its dataset, a light-mode machine
    /// derives them from its cache on demand — byte for byte the same.
    pub closed spec fn mem(self) -> Seq<u8> {
        match self.binding {
            Binding::Light(c) => dataset_from_cache(c.contents()),
            Binding::LightOwned(c) => dataset_from_cache(c.contents()),
            Binding::Fast(d) => d.contents(),
        }
    }

    /// A machine is well formed when its backing store is.
    pub closed spec fn wf(self) -> bool {
        match self.binding {
            Binding::Light(c) => c.wf(),
            Binding::LightOwned(c) => c.wf(),
            Binding::Fast(d) => d.wf(),
        }
    }

    /// Bind a machine to a cache (light mode). The full-memory option
    /// demands a dataset, so it is incompatible with this constructor.
    pub fn new(flags: RandomxFlags, cache: &'a RandomxCache) -> (r: Result<RandomX<'a>, Error>)
        requires
            cache.wf(),
        ensures
            match r {
                Ok(m) => !flags.spec_has(FLAG_FULLMEM) && m.wf() && m.mem() == dataset_from_cache(
                    cache.contents(),
                ),
                Err(e) => flags.spec_has(FLAG_FULLMEM) && e == Error::FailedToInitializeVM,
            },
    {
        if flags.bits & FLAG_FULLMEM == FLAG_FULLMEM {
            return Err(Error::FailedToInitializeVM);
        }
        Ok(RandomX { binding: Binding::Light(cache) })
    }

    /// Build a cache from `key` and bind a machine that owns it
    /// (light mode).
    pub fn new_with_key(flags: RandomxFlags, key: &[u8]) -> (r: Result<RandomX<'a>, Error>)
        ensures
            match r {
                Ok(m) => !flags.spec_has(FLAG_LARGEPAGES) && !flags.spec_has(FLAG_FULLMEM)
                    && m.wf() && m.mem() == dataset_of_key(key@),
                Err(e) => (flags.spec_has(FLAG_LARGEPAGES) && e == Error::CacheAllocError) || (
                !flags.spec_has(FLAG_LARGEPAGES) && flags.spec_has(FLAG_FULLMEM) && e
                    == Error::FailedToInitializeVM),
            },
    {
        let cache = match RandomxCache::new(flags, key) {
            Ok(c) => c,
            Err(e) => {
                return Err(e);
            },
        };
        if flags.bits & FLAG_FULLMEM == FLAG_FULLMEM {
            return Err(Error::FailedToInitializeVM);
        }
        Ok(RandomX { binding: Binding::LightOwned(cache) })
    }

    /// Bind a machine to a fully materialized dataset (fast mode), which
    /// the full-memory option must ask for.
    pub fn new_fast(flags: RandomxFlags, dataset: &'a RandomxDataset) -> (r: Result<
        RandomX<'a>,
        Error,
    >)
        requires
            dataset.wf(),
        ensures
            match r {
                Ok(m) => flags.spec_has(FLAG_FULLMEM) && m.wf() && m.mem() == dataset.contents(),
                Err(e) => !flags.spec_has(FLAG_FULLMEM) && e == Error::FailedToInitializeVM,
            },
    {
        if flags.bits & FLAG_FULLMEM == FLAG_FULLMEM {
            Ok(RandomX { binding: Binding::Fast(dataset) })
        } else {
            Err(Error::FailedToInitializeVM)
        }
    }

    /// Hash `input` into the first `RANDOMX_HASH_SIZE` bytes of `out`.
    /// A shorter buffer is rejected before any computation and left
    /// untouched; on success exactly the digest prefix is written and
    /// every byte beyond it keeps its value.
    pub fn calculate_hash(&mut self, input: &[u8], out: &mut [u8]) -> (r: Result<(), Error>)
        requires
            old(self).wf(),
        ensures
            *final(self) == *old(self),
            old(out)@.len() < RANDOMX_HASH_SIZE ==> r == Err::<(), Error>(
                Error::OutSizeLessThanHashLen(RANDOMX_HASH_SIZE),
            ) && final(out)@ == old(out)@,
            old(out)@.len() >= RANDOMX_HASH_SIZE ==> r == Ok::<(), Error>(()) && final(out)@.len()
                == old(out)@.len() && final(out)@.subrange(0, RANDOMX_HASH_SIZE as int)
                == digest_of(old(self).mem(), input@) && final(out)@.skip(RANDOMX_HASH_SIZE as int)
                == old(out)@.skip(RANDOMX_HASH_SIZE as int),
    {
        if out.len() < RANDOMX_HASH_SIZE {
            return Err(Error::OutSizeLessThanHashLen(RANDOMX_HASH_SIZE));
        }
        let s = match &self.binding {
            Binding::Light(c) => hash_state_light(c, input),
            Binding::LightOwned(c) => hash_state_light(c, input),
            Binding::Fast(d) => hash_state_fast(d, input),
        };
        let ghost mem = old(self).mem();
        let mut t: usize = 0;
        while t < RANDOMX_HASH_SIZE
            invariant
                t <= RANDOMX_HASH_SIZE,
                out@.len() == old(out)@.len(),
                out@.len() >= RANDOMX_HASH_SIZE,
                forall|q: int| 0 <= q < t ==> out@[q] == digest_byte(mem, input@, q),
                forall|q: int| t <= q < out@.len() ==> out@[q] == old(out)@[q],
                s == crate::engine::hash_state(
                    mem,
                    crate::engine::input_seed(input@),
                    crate::engine::HASH_ROUNDS as nat,
                ),
            decreases RANDOMX_HASH_SIZE - t,
        {
            out[t] = low_byte(mix64_exec(s ^ OUT_TAG ^ (t as u64)));
            t += 1;
        }
        proof {
            assert(out@.subrange(0, RANDOMX_HASH_SIZE as int) =~= digest_of(mem, input@));
            assert(out@.skip(RANDOMX_HASH_SIZE as int) =~= old(out)@.skip(
                RANDOMX_HASH_SIZE as int,
            ));
        }
        Ok(())
    }

    /// Hash `input` into a buffer of exactly `RANDOMX_HASH_SIZE` bytes
    /// that the machine allocates itself.
    pub fn calculate_hash_to_vec(&mut self, input: &[u8]) -> (r: Vec<u8>)
        requires
            old(self).wf(),
        ensures
            *final(self) == *old(self),
            r@.len() == RANDOMX_HASH_SIZE,
            r@ == digest_of(old(self).mem(), input@),
    {
        let s = match &self.binding {
            Binding::Light(c) => hash_state_light(c, input),
            Binding::LightOwned(c) => hash_state_light(c, input),
            Binding::Fast(d) => hash_state_fast(d, input),
        };
        let ghost mem = old(self).mem();
        let mut r: Vec<u8> = Vec::new();
        let mut t: usize = 0;
        while t < RANDOMX_HASH_SIZE
            invariant
                t <= RANDOMX_HASH_SIZE,
                r@.len() == t,
                forall|q: int| 0 <= q < t ==> r@[q] == digest_byte(mem, input@, q),
                s == crate::engine::hash_state(
                    mem,
                    crate::engine::input_seed(input@),
                    crate::engine::HASH_ROUNDS as nat,
                ),
            decreases RANDOMX_HASH_SIZE - t,
        {
            r.push(low_byte(mix64_exec(s ^ OUT_TAG ^ (t as u64))));
            t += 1;
        }
        proof {
            assert(r@ =~= digest_of(mem, input@));
        }
        r
    }
}

/// Digest size law: a digest always holds exactly `RANDOMX_HASH_SIZE`
/// bytes, whatever the memory and the input.
pub proof fn lemma_digest_size(mem: Seq<u8>, input: Seq<u8>)
    ensures
        digest_of(mem, input).len() == RANDOMX_HASH_SIZE,
{
}

/// Determinism law: machines whose backing stores hold the same bytes
/// digest every input identically — on every call, in every process.
pub proof fn lemma_hash_deterministic<'a, 'b>(a: RandomX<'a>, b: RandomX<'b>, input: Seq<u8>)
    requires
        a.mem() == b.mem(),
    ensures
        digest_of(a.mem(), input) == digest_of(b.mem(), input),
{
}

/// Cross-mode law: a light-mode machine over the cache a key derives to
/// and a fast-mode machine over the dataset the same key derives to
/// produce identical digests for every input.
pub proof fn lemma_cross_mode<'a, 'b>(
    light: RandomX<'a>,
    fast: RandomX<'b>,
    key: Seq<u8>,
    input: Seq<u8>,
)
    requires
        light.mem() == dataset_from_cache(cache_of_key(key)),
        fast.mem() == dataset_of_key(key),
    ensures
        digest_of(light.mem(), input) == digest_of(fast.mem(), input),
{
}

} // verus!
