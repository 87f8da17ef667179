//! The hash stage of a backup: whether a file's bytes must be hashed, and
//! how a fresh hash is reconciled with the memo.
use vstd::prelude::*;
use crate::cache::{opt_view, AsyncCache};
use crate::text::text_eq;

verus! {

/// Whether the content hash must be computed from the file's bytes: the memo
/// had none, or the run forces hashing.
pub fn must_hash(cached: &Option<String>, force_hash: bool) -> (r: bool)
    ensures
        r == (cached is None || force_hash),
{
    cached.is_none() || force_hash
}

/// The content hash settled for a regular file.
pub struct HashOutcome {
    pub data_hash: String,
    /// The memo had a hash for the file.
    pub hash_cached: bool,
    /// The memo's hash differed from the one computed from the bytes.
    pub diverged: bool,
}

/// Settles a file's content hash from what the memo held and what was
/// computed, if anything. A computed hash wins, and is written to the memo row
/// of the fingerprint; without one the memo's hash stands. `None` when there
/// is neither.
pub fn settle_hash(cache: &mut AsyncCache, fs_hash: &str, cached: Option<String>, computed: Option<String>) -> (r: Option<HashOutcome>)
    requires
        old(cache).wf(),
    ensures
        final(cache).wf(),
        final(cache).same_use(*old(cache)),
        final(cache).same_ledger(*old(cache)),
        final(cache).locked() == old(cache).locked(),
        match computed {
            Some(g) => {
                &&& final(cache).memo() == (if old(cache).memo().contains_key(fs_hash@) {
                    old(cache).memo().insert(fs_hash@, Some(g@))
                } else {
                    old(cache).memo()
                })
                &&& r matches Some(o) && o.data_hash@ == g@ && o.hash_cached == cached is Some
                    && o.diverged == (cached is Some && opt_view(cached) != Some(g@))
            },
            None => {
                &&& final(cache).memo() == old(cache).memo()
                &&& match cached {
                    Some(h) => r matches Some(o) && o.data_hash@ == h@ && o.hash_cached
                        && !o.diverged,
                    None => r is None,
                }
            },
        },
{
    match computed {
        Some(g) => {
            cache.set_data_hash(fs_hash, g.as_str());
            let (hash_cached, diverged) = match &cached {
                Some(h) => (true, !text_eq(h.as_str(), g.as_str())),
                None => (false, false),
            };
            Some(HashOutcome { data_hash: g, hash_cached, diverged })
        },
        None => match cached {
            Some(h) => Some(HashOutcome { data_hash: h, hash_cached: true, diverged: false }),
            None => None,
        },
    }
}

} // verus!
