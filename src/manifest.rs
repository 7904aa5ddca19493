//! Choosing an image manifest for the current platform out of a manifest list.

use vstd::prelude::*;

verus! {

/// One entry of a manifest list: the platform it is built for and its digest.
#[derive(Debug)]
pub struct ManifestEntry {
    pub os: String,
    pub architecture: String,
    pub digest: String,
}

pub open spec fn matches_platform(e: ManifestEntry, os: Seq<char>, architecture: Seq<char>) -> bool {
    e.os@ == os && e.architecture@ == architecture
}

#[derive(Debug, Clone, Copy, PartialEq, Eq, Structural)]
pub enum ResolveError {
    /// No entry of the manifest list is built for the wanted platform.
    NoCompatibleManifest,
}

/// The index of the first entry built for `os`/`architecture`.
pub fn select_manifest(entries: &Vec<ManifestEntry>, os: &String, architecture: &String) -> (r: Result<
    usize,
    ResolveError,
>)
    ensures
        r is Ok <==> exists|i: int|
            0 <= i < entries@.len() && matches_platform(#[trigger] entries@[i], os@, architecture@),
        r is Err ==> r == Err::<usize, ResolveError>(ResolveError::NoCompatibleManifest),
        r is Ok ==> {
            let k = r->Ok_0 as int;
            &&& 0 <= k < entries@.len()
            &&& matches_platform(entries@[k], os@, architecture@)
            &&& forall|j: int| 0 <= j < k ==> !matches_platform(#[trigger] entries@[j], os@, architecture@)
        },
{
    let mut i: usize = 0;
    while i < entries.len()
        invariant
            0 <= i <= entries@.len(),
            forall|j: int| 0 <= j < i ==> !matches_platform(#[trigger] entries@[j], os@, architecture@),
        decreases entries@.len() - i,
    {
        if entries[i].os == *os && entries[i].architecture == *architecture {
            return Ok(i);
        }
        i = i + 1;
    }
    Err(ResolveError::NoCompatibleManifest)
}

} // verus!
