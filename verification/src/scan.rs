//! The batch scan: deciding which photos need their metadata
//! re-extracted, folding fresh results into the cache, and joining
//! pool and cache into selection candidates.
//!
//! A photo needs parsing when the cache has no row for its path or the
//! row's timestamp differs from the file's.  A candidate's hour is its
//! cache-resolved one: the fresh batch's result where the photo was
//! re-parsed — even when that result is that no hour exists — and the
//! old row otherwise.

use crate::cache::{cache_contents, cleanup_stale, insert, stale_names, upsert_all, CachedEntry};
use crate::discovery::ImageFile;
use crate::select::{files_match, Candidate};
use crate::WallpaperError;
use vstd::prelude::*;

verus! {

/// The first cache row for path `p` at or after index `i`.
pub open spec fn lookup_from(cs: Seq<CachedEntry>, p: Seq<char>, i: int) -> Option<CachedEntry>
    decreases cs.len() - i,
{
    if i < 0 || i >= cs.len() {
        None
    } else if cs[i].path@ == p {
        Some(cs[i])
    } else {
        lookup_from(cs, p, i + 1)
    }
}

/// The first cache row for path `p`.
pub open spec fn lookup_entry(cs: Seq<CachedEntry>, p: Seq<char>) -> Option<CachedEntry> {
    lookup_from(cs, p, 0)
}

/// Whether the file's metadata must be re-extracted: the cache has no
/// row for it, or the row was made from another version of the file.
pub open spec fn needs_parse(f: ImageFile, cached: Seq<CachedEntry>) -> bool {
    match lookup_entry(cached, f.path@) {
        Some(e) => e.mtime != f.mtime,
        None => true,
    }
}

/// The files of the scan that need parsing, in scan order.
pub open spec fn parse_queue(all: Seq<ImageFile>, cached: Seq<CachedEntry>) -> Seq<ImageFile>
    decreases all.len(),
{
    if all.len() == 0 {
        Seq::empty()
    } else {
        let prefix = parse_queue(all.drop_last(), cached);
        if needs_parse(all.last(), cached) {
            prefix.push(all.last())
        } else {
            prefix
        }
    }
}

/// The hour a candidate resolves to: when the photo was freshly
/// re-extracted, that result stands — absent included, since the store
/// itself now holds it; only photos the cache already covered read the
/// old row.
pub open spec fn resolved_hour(
    p: Seq<char>,
    fresh: Seq<CachedEntry>,
    cached: Seq<CachedEntry>,
) -> Option<u8> {
    match lookup_entry(fresh, p) {
        Some(e) => e.hour,
        None => match lookup_entry(cached, p) {
            Some(e) => e.hour,
            None => None,
        },
    }
}

/// Finds the first row for this path.
fn find_entry(cs: &Vec<CachedEntry>, p: &String) -> (r: Option<usize>)
    ensures
        match r {
            Some(j) => j < cs@.len() && lookup_entry(cs@, p@) == Some(cs@[j as int]),
            None => lookup_entry(cs@, p@) is None,
        },
{
    let mut j: usize = 0;
    while j < cs.len()
        invariant
            j <= cs@.len(),
            lookup_entry(cs@, p@) == lookup_from(cs@, p@, j as int),
        decreases cs@.len() - j,
    {
        if cs[j].path.eq(p) {
            return Some(j);
        }
        j += 1;
    }
    None
}

/// The photos whose cache rows are missing or out of date: these are
/// handed out for extraction.
pub fn paths_to_parse(all: &Vec<ImageFile>, cached: &Vec<CachedEntry>) -> (r: Vec<ImageFile>)
    ensures
        files_match(r@, parse_queue(all@, cached@)),
{
    let mut out: Vec<ImageFile> = Vec::new();
    let mut i: usize = 0;
    while i < all.len()
        invariant
            i <= all@.len(),
            files_match(out@, parse_queue(all@.take(i as int), cached@)),
        decreases all@.len() - i,
    {
        let ghost prev = all@.take(i as int);
        let ghost next = all@.take(i + 1);
        proof {
            assert(next.drop_last() =~= prev);
            assert(next.last() == all@[i as int]);
        }
        let f = &all[i];
        let stale = match find_entry(cached, &f.path) {
            Some(j) => cached[j].mtime != f.mtime,
            None => true,
        };
        if stale {
            out.push(ImageFile { path: f.path.clone(), mtime: f.mtime });
        }
        i += 1;
    }
    proof {
        assert(all@.take(i as int) =~= all@);
    }
    out
}

/// Joins the pool with the old cache and the fresh extractions: one
/// candidate per pool photo, carrying its resolved hour.
pub fn merge_candidates(
    pool: &Vec<ImageFile>,
    cached: &Vec<CachedEntry>,
    fresh: &Vec<CachedEntry>,
) -> (r: Vec<Candidate>)
    ensures
        r@.len() == pool@.len(),
        forall|k: int|
            0 <= k < pool@.len() ==> (#[trigger] r@[k]).path@ == pool@[k].path@ && r@[k].hour
                == resolved_hour(pool@[k].path@, fresh@, cached@),
{
    let mut out: Vec<Candidate> = Vec::new();
    let mut i: usize = 0;
    while i < pool.len()
        invariant
            i <= pool@.len(),
            out@.len() == i,
            forall|k: int|
                0 <= k < i ==> (#[trigger] out@[k]).path@ == pool@[k].path@ && out@[k].hour
                    == resolved_hour(pool@[k].path@, fresh@, cached@),
        decreases pool@.len() - i,
    {
        let f = &pool[i];
        let hour = match find_entry(fresh, &f.path) {
            Some(j) => fresh[j].hour,
            None => match find_entry(cached, &f.path) {
                Some(j) => cached[j].hour,
                None => None,
            },
        };
        out.push(Candidate { path: f.path.clone(), hour });
        i += 1;
    }
    out
}

/// Folds a finished batch into the store: upserts the fresh rows, then
/// prunes rows for vanished paths, each as its own transaction.  On
/// success the store holds the upserted map restricted to current
/// paths; a failure leaves it at one of the two transaction
/// boundaries.
pub fn refresh_cache(
    conn: &mut rusqlite::Connection,
    fresh: &Vec<CachedEntry>,
    current_paths: &Vec<String>,
    cached: &Vec<CachedEntry>,
) -> (r: Result<(), WallpaperError>)
    ensures
        r is Ok ==> cache_contents(*final(conn)) == upsert_all(
            cache_contents(*old(conn)),
            fresh@,
        ).remove_keys(stale_names(cached@, current_paths@)),
        r is Err ==> cache_contents(*final(conn)) == cache_contents(*old(conn)) || cache_contents(
            *final(conn),
        ) == upsert_all(cache_contents(*old(conn)), fresh@),
{
    match insert(conn, fresh) {
        Ok(_) => {},
        Err(e) => {
            return Err(e);
        },
    }
    cleanup_stale(conn, current_paths, cached)
}

} // verus!
