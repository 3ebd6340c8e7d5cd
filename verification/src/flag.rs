//! Configuration options for caches, datasets and hashing machines: an
//! immutable bitset value type.

use vstd::prelude::*;

verus! {

/// Use defaults.
pub const FLAG_DEFAULT: u32 = 0;

/// Allocate memory in large pages.
pub const FLAG_LARGEPAGES: u32 = 1;

/// Use hardware accelerated AES.
pub const FLAG_HARDAES: u32 = 2;

/// Hash against the full dataset rather than a cache.
pub const FLAG_FULLMEM: u32 = 4;

/// Use a JIT compiler.
pub const FLAG_JIT: u32 = 8;

/// Never map JIT pages writable and executable at the same time.
pub const FLAG_SECURE: u32 = 16;

/// Use the SSSE3 extension to speed up key derivation.
pub const FLAG_ARGON2_SSSE3: u32 = 32;

/// Use the AVX2 extension to speed up key derivation.
pub const FLAG_ARGON2_AVX2: u32 = 64;

/// Both key-derivation acceleration bits.
pub const FLAG_ARGON2: u32 = 96;

/// The union of all recognized option bits.
pub const FLAG_ALL: u32 = 127;

/// Options that can be used when allocating a cache or dataset or when
/// creating a hashing machine. Immutable once constructed; copied by value.
#[derive(Clone, Copy, Debug, PartialEq, Eq, Structural)]
pub struct RandomxFlags {
    pub bits: u32,
}

impl RandomxFlags {
    /// Whether every bit of `f` is set in this value.
    pub open spec fn spec_has(self, f: u32) -> bool {
        self.bits & f == f
    }

    /// Whether only recognized option bits are set.
    pub open spec fn spec_recognized(self) -> bool {
        self.bits & FLAG_ALL == self.bits
    }

    /// The raw bits of this flag set.
    pub fn bits(&self) -> (r: u32)
        ensures
            r == self.bits,
    {
        self.bits
    }

    /// Accepts exactly the bit patterns made of recognized options;
    /// unrecognized bits are rejected, not ignored.
    pub fn from_bits(bits: u32) -> (r: Option<RandomxFlags>)
        ensures
            r is Some <==> (RandomxFlags { bits }).spec_recognized(),
            r is Some ==> r.unwrap() == (RandomxFlags { bits }),
    {
        if bits & FLAG_ALL == bits {
            Some(RandomxFlags { bits })
        } else {
            None
        }
    }

    /// Bitwise union of two flag sets.
    pub fn union(self, other: RandomxFlags) -> (r: RandomxFlags)
        ensures
            r.bits == self.bits | other.bits,
    {
        RandomxFlags { bits: self.bits | other.bits }
    }

    /// Bitwise intersection of two flag sets.
    pub fn intersection(self, other: RandomxFlags) -> (r: RandomxFlags)
        ensures
            r.bits == self.bits & other.bits,
    {
        RandomxFlags { bits: self.bits & other.bits }
    }

    /// Whether every option of `other` is set in this value.
    pub fn contains(self, other: RandomxFlags) -> (r: bool)
        ensures
            r == self.spec_has(other.bits),
    {
        self.bits & other.bits == other.bits
    }

    /// The large-page allocation option.
    pub fn largepages() -> (r: RandomxFlags)
        ensures
            r.bits == FLAG_LARGEPAGES,
    {
        RandomxFlags { bits: FLAG_LARGEPAGES }
    }

    /// The hardware AES option.
    pub fn hardaes() -> (r: RandomxFlags)
        ensures
            r.bits == FLAG_HARDAES,
    {
        RandomxFlags { bits: FLAG_HARDAES }
    }

    /// The full-memory option: machines must bind to a dataset.
    pub fn fullmem() -> (r: RandomxFlags)
        ensures
            r.bits == FLAG_FULLMEM,
    {
        RandomxFlags { bits: FLAG_FULLMEM }
    }

    /// The JIT option.
    pub fn jit() -> (r: RandomxFlags)
        ensures
            r.bits == FLAG_JIT,
    {
        RandomxFlags { bits: FLAG_JIT }
    }

    /// The writable/executable-page isolation option.
    pub fn secure() -> (r: RandomxFlags)
        ensures
            r.bits == FLAG_SECURE,
    {
        RandomxFlags { bits: FLAG_SECURE }
    }
}

impl Default for RandomxFlags {
    /// The documented default: no option bits set.
    fn default() -> (r: Self)
        ensures
            r.bits == FLAG_DEFAULT,
    {
        RandomxFlags { bits: FLAG_DEFAULT }
    }
}

} // verus!
