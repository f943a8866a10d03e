//! Updates and upgrades of a distribution.
use vstd::prelude::*;

pub mod checksum;
pub mod entries;
pub mod sources;
pub mod update;
pub mod upgrade;

pub use self::entries::{ChecksumKind, Compression, EntryRequest, PreferredRequest};
pub use self::sources::{LocatedEntry, SourceEntry};
pub use self::update::{
    DistUpdateError, ReleaseData, ReleaseFetch, ReleaseFetched, ReleaseFetcher, ReleaseInfo,
    Updater, ValidatedRelease,
};
pub use self::upgrade::{DistUpgradeError, UpgradeRequest, Upgrader};

verus! {

/// Dist files which must exist within an apt repository's dists directory.
pub const REQUIRED_DIST_FILES: [&'static str; 3] = ["InRelease", "Release", "Release.gpg"];

} // verus!
