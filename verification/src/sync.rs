//! The per-file decision of both syncs (the startup sync of the GUI and the
//! bundle sync of the CLI): skip a file the registry does not list, keep a
//! cached copy whose digest matches, fetch otherwise.

use vstd::prelude::*;

use crate::digest::{cache_hit, cached_matches};
use crate::text::eq_ignore_ascii_case;
use crate::registry::FileEntry;

verus! {

/// What a sync does with one required file of a depot.
#[derive(Clone, Copy, Debug, PartialEq, Eq, Structural)]
pub enum FileDecision {
    /// The registry lists no such file for the depot: warn and go on.
    NotListed,
    /// The cached copy matches the registry's digest: keep it.
    CacheHit,
    /// Download the file and write it to the cache.
    Fetch,
}

/// The decision for one file, given the registry's entry for it (if any)
/// and the current contents of the cached copy (`None` when it is missing or
/// unreadable).
pub open spec fn decide_file_spec(entry: Option<FileEntry>, cached: Option<Seq<u8>>) -> FileDecision {
    match entry {
        None => FileDecision::NotListed,
        Some(e) => if cache_hit(cached, e.sha256@) {
            FileDecision::CacheHit
        } else {
            FileDecision::Fetch
        },
    }
}

/// The decision for one file. The cache is only consulted when the registry
/// lists the file.
pub fn decide_file(entry: Option<&FileEntry>, cached: Option<&[u8]>) -> (res: FileDecision)
    ensures
        res == decide_file_spec(
            match entry {
                Some(e) => Some(*e),
                None => None,
            },
            match cached {
                Some(c) => Some(c@),
                None => None,
            },
        ),
{
    match entry {
        None => FileDecision::NotListed,
        Some(e) => {
            if cached_matches(cached, e.sha256.as_str()) {
                FileDecision::CacheHit
            } else {
                FileDecision::Fetch
            }
        },
    }
}

/// A file whose cached copy is exactly what the registry describes is never
/// downloaded again, and a missing or unreadable copy always is.
pub proof fn lemma_fetch_only_when_stale(e: FileEntry, contents: Seq<u8>)
    ensures
        e.sha256@ == crate::digest::hex_lower(crate::digest::sha256_of(contents))
            ==> decide_file_spec(Some(e), Some(contents)) == FileDecision::CacheHit,
        e.sha256@ == crate::digest::hex_upper(crate::digest::sha256_of(contents))
            ==> decide_file_spec(Some(e), Some(contents)) == FileDecision::CacheHit,
        decide_file_spec(Some(e), None) == FileDecision::Fetch,
{
    crate::digest::lemma_own_digest_is_cache_hit(contents);
}

/// What a sync does with a file is decided by the registry's digest and
/// the cached bytes alone, never by the file's name or size: a listed file
/// whose cached copy's SHA-256 (lower-case hex) equals the registry digest,
/// ignoring ASCII case, is kept, and every other listed file is fetched; an
/// unlisted file is never fetched; two entries with the same digest get the
/// same decision.
pub proof fn lemma_decide_file_by_digest(e: FileEntry, e2: FileEntry, c: Option<Seq<u8>>, d: Seq<u8>)
    ensures
        decide_file_spec(Some(e), Some(d)) == FileDecision::CacheHit <==> eq_ignore_ascii_case(
            crate::digest::hex_lower(crate::digest::sha256_of(d)),
            e.sha256@,
        ),
        decide_file_spec(Some(e), Some(d)) != FileDecision::CacheHit ==> decide_file_spec(
            Some(e),
            Some(d),
        ) == FileDecision::Fetch,
        decide_file_spec(Some(e), None) == FileDecision::Fetch,
        decide_file_spec(None, c) == FileDecision::NotListed,
        e.sha256@ == e2.sha256@ ==> decide_file_spec(Some(e), c) == decide_file_spec(Some(e2), c),
{
    crate::digest::lemma_cache_hit_is_digest_match(d, d, e.sha256@);
}

} // verus!
