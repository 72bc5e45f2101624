//! The cached copy of the app directory.
//!
//! The directory is kept in one file. A copy that cannot be read or does
//! not hold a directory is as good as none: the directory is then fetched
//! and the file written anew. A copy that reads well is used as it is,
//! however old.

use crate::model::SteamGameInfo;
use vstd::prelude::*;

verus! {

/// The name of the cache file inside the user's cache directory.
pub const CACHE_FILE_NAME: &'static str = "sui-cli-cached-steam-info.json";

/// What came of reading the cache file.
#[derive(Debug, Clone, PartialEq, Eq)]
pub enum CacheRead {
    /// The file is missing or could not be read.
    Unreadable,
    /// The file was read, but it does not hold a directory.
    Malformed,
    /// The directory that the file holds.
    Entries(Vec<SteamGameInfo>),
}

/// What to do after reading the cache file.
#[derive(Debug, Clone, PartialEq, Eq)]
pub enum CachePlan {
    /// Work with these entries; nothing is fetched.
    Use(Vec<SteamGameInfo>),
    /// Fetch the directory once and overwrite the file with it.
    Refresh,
}

/// Decides between the cached directory and a refresh: the entries of a
/// cache that read well are used unchanged, anything else asks for one
/// refresh.
pub fn plan_load(read: CacheRead) -> (plan: CachePlan)
    ensures
        match read {
            CacheRead::Entries(entries) => plan == CachePlan::Use(entries),
            CacheRead::Unreadable | CacheRead::Malformed => plan is Refresh,
        },
{
    match read {
        CacheRead::Entries(entries) => CachePlan::Use(entries),
        CacheRead::Unreadable => CachePlan::Refresh,
        CacheRead::Malformed => CachePlan::Refresh,
    }
}

} // verus!
