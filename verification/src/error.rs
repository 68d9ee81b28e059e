//! The error taxonomy of the package manager core. Every fallible operation
//! of the library names its outcome with one of these variants; the contracts
//! say exactly on which inputs each one is produced.

use vstd::prelude::*;

verus! {

/// Why a core operation failed.
#[derive(Debug)]
pub enum Error {
    /// The package name is unknown to the repository snapshot.
    NotFound { name: String },
    /// The package is not in the installed set.
    NotInstalled { name: String },
    /// Dependency resolution found a dependency cycle; `cycle` lists the
    /// members in order, each depending on the next, the last on the first.
    CycleDetected { cycle: Vec<String> },
    /// The fetched artifact's digest differs from the declared one.
    ChecksumMismatch { name: String, expected: String, actual: String },
    /// A repository snapshot or installed set held two entries with one name.
    DuplicatePackage { name: String },
    /// A network transfer failed; carried through from the fetcher.
    FetchFailed { name: String, detail: String },
    /// Unpacking an archive failed; carried through from the extractor.
    ExtractFailed { detail: String },
    /// The artifact's filename matches no known archive format.
    UnknownFormat { filename: String },
    /// A source build failed; carried through from the builder.
    BuildFailed { name: String },
    /// Reading, writing or parsing the persisted database failed.
    StorageIO { detail: String },
}

} // verus!
