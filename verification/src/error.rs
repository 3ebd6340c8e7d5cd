//! The error taxonomy. Every failure is surfaced as an explicit result
//! value to the immediate caller; nothing is retried or swallowed.

use vstd::prelude::*;

verus! {

/// Everything that can go wrong while building or using a cache, dataset
/// or hashing machine.
#[derive(Clone, Copy, Debug, PartialEq, Eq, Structural)]
pub enum Error {
    /// A dataset snapshot source was missing or shorter than required.
    IOError,
    /// A machine could not be created: the flags and the chosen backing
    /// store are incompatible.
    FailedToInitializeVM,
    /// A dataset could not be initialized.
    FailedToInitializeDataset,
    /// A parallel dataset-initialization worker could not be joined.
    ThreadError,
    /// The caller's output buffer is shorter than the digest size it must
    /// hold; the payload is the required size.
    OutSizeLessThanHashLen(usize),
    /// The dataset's native region could not be allocated.
    DatasetAllocError,
    /// The cache's native region could not be allocated.
    CacheAllocError,
}

impl Error {
    /// A short description of the error.
    pub fn message(&self) -> (r: &'static str)
        ensures
            r@.len() > 0,
    {
        let r = match self {
            Error::IOError => "IO Error",
            Error::FailedToInitializeVM => "FailedToInitializeVM",
            Error::FailedToInitializeDataset => "FailedToInitializeDataset",
            Error::ThreadError => "ThreadError",
            Error::OutSizeLessThanHashLen(_) => "OutSizeLessThanHashLen",
            Error::DatasetAllocError => "DatasetAllocError",
            Error::CacheAllocError => "CacheAllocError",
        };
        proof {
            reveal_strlit("IO Error");
            reveal_strlit("FailedToInitializeVM");
            reveal_strlit("FailedToInitializeDataset");
            reveal_strlit("ThreadError");
            reveal_strlit("OutSizeLessThanHashLen");
            reveal_strlit("DatasetAllocError");
            reveal_strlit("CacheAllocError");
        }
        r
    }
}

} // verus!
