//! The persistent metadata cache: path to (last-modified time, capture
//! hour).
//!
//! The store is a single SQLite table behind trusted wrappers; its
//! abstract contents are the map [`cache_contents`].  Every mutation is
//! one all-or-nothing transaction: on success the contract gives the
//! new map, on failure the old one, and nothing in between.  A store
//! that cannot be opened or queried is reported as
//! [`WallpaperError::StoreUnavailable`], and callers fall back to
//! direct extraction.

use crate::discovery::{name_in, names_has};
use crate::WallpaperError;
use vstd::prelude::*;

verus! {

/// One cache row: the photo path, its last-modified time, and the
/// extracted hour (absent when no usable capture-time tag was found).
#[derive(Debug, Clone)]
pub struct CachedEntry {
    pub path: String,
    pub mtime: i64,
    pub hour: Option<u8>,
}

// The store handle is rusqlite's Connection, declared opaque: the
// wrappers below carry its whole contract.
#[verifier::external_type_specification]
#[verifier::external_body]
pub struct ExConnection(rusqlite::Connection);

// What the store holds: its rows as a map from path text to
// (last-modified time, hour).  Every wrapper's contract speaks of it.
pub uninterp spec fn cache_contents(c: rusqlite::Connection) -> Map<Seq<char>, (i64, Option<u8>)>;

/// The contents after batch-upserting the entries in order: later
/// entries for the same path replace earlier ones.
pub open spec fn upsert_all(
    m: Map<Seq<char>, (i64, Option<u8>)>,
    es: Seq<CachedEntry>,
) -> Map<Seq<char>, (i64, Option<u8>)>
    decreases es.len(),
{
    if es.len() == 0 {
        m
    } else {
        upsert_all(m, es.drop_last()).insert(es.last().path@, (es.last().mtime, es.last().hour))
    }
}

/// The texts of a list of path strings, as a set.
pub open spec fn names_of(paths: Seq<String>) -> Set<Seq<char>> {
    Set::new(|n: Seq<char>| names_has(paths, n))
}

/// The cached paths that the current scan no longer contains.
pub open spec fn stale_names(cache: Seq<CachedEntry>, current: Seq<String>) -> Set<Seq<char>> {
    Set::new(
        |n: Seq<char>|
            (exists|k: int| 0 <= k < cache.len() && (#[trigger] cache[k]).path@ == n) && !names_has(
                current,
                n,
            ),
    )
}

/// `v` lists the map exactly: one row per key, each carrying its
/// value.
pub open spec fn entries_reflect(m: Map<Seq<char>, (i64, Option<u8>)>, v: Seq<CachedEntry>) -> bool {
    &&& forall|i: int, j: int|
        0 <= i < j < v.len() ==> (#[trigger] v[i]).path@ != (#[trigger] v[j]).path@
    &&& forall|k: int|
        0 <= k < v.len() ==> m.contains_pair((#[trigger] v[k]).path@, (v[k].mtime, v[k].hour))
    &&& forall|p: Seq<char>|
        m.dom().contains(p) ==> exists|k: int| 0 <= k < v.len() && (#[trigger] v[k]).path@ == p
}

/// Relies on rusqlite's Connection::open and execute_batch: opens or
/// creates the store at `path` and ensures the cache table exists.
/// What the table already holds is whatever the file on disk holds, so
/// nothing is promised of the contents.
#[verifier::external_body]
pub fn open(path: &str) -> (r: Result<rusqlite::Connection, WallpaperError>) {
    let conn = match rusqlite::Connection::open(path) {
        Ok(c) => c,
        Err(_) => return Err(WallpaperError::StoreUnavailable),
    };
    let setup = "PRAGMA journal_mode = WAL; PRAGMA synchronous = NORMAL; \
         CREATE TABLE IF NOT EXISTS exif_cache (\
         path TEXT PRIMARY KEY, mtime INTEGER NOT NULL, hour INTEGER)";
    match conn.execute_batch(setup) {
        Ok(_) => Ok(conn),
        Err(_) => Err(WallpaperError::StoreUnavailable),
    }
}

/// Relies on rusqlite's Connection::open_in_memory: a fresh private
/// database, so the freshly created cache table is empty.
#[verifier::external_body]
pub fn open_in_memory() -> (r: Result<rusqlite::Connection, WallpaperError>)
    ensures
        match r {
            Ok(c) => cache_contents(c) == Map::<Seq<char>, (i64, Option<u8>)>::empty(),
            Err(_) => true,
        },
{
    let conn = match rusqlite::Connection::open_in_memory() {
        Ok(c) => c,
        Err(_) => return Err(WallpaperError::StoreUnavailable),
    };
    let setup = "CREATE TABLE IF NOT EXISTS exif_cache (\
         path TEXT PRIMARY KEY, mtime INTEGER NOT NULL, hour INTEGER)";
    match conn.execute_batch(setup) {
        Ok(_) => Ok(conn),
        Err(_) => Err(WallpaperError::StoreUnavailable),
    }
}

/// Relies on rusqlite's prepare and query_map over `SELECT path,
/// mtime, hour`: the rows of the table are exactly the map entries,
/// the path being the primary key, in no promised order.
#[verifier::external_body]
pub fn load_all(conn: &rusqlite::Connection) -> (r: Result<Vec<CachedEntry>, WallpaperError>)
    ensures
        match r {
            Ok(v) => entries_reflect(cache_contents(*conn), v@),
            Err(_) => true,
        },
{
    let mut stmt = match conn.prepare("SELECT path, mtime, hour FROM exif_cache") {
        Ok(s) => s,
        Err(_) => return Err(WallpaperError::StoreUnavailable),
    };
    let rows = stmt.query_map(
        [],
        |row| Ok(CachedEntry { path: row.get(0)?, mtime: row.get(1)?, hour: row.get(2)? }),
    );
    match rows.and_then(|it| it.collect::<Result<Vec<CachedEntry>, rusqlite::Error>>()) {
        Ok(v) => Ok(v),
        Err(_) => Err(WallpaperError::StoreUnavailable),
    }
}

/// Relies on rusqlite's unchecked_transaction, `INSERT OR REPLACE`,
/// and commit: on success the whole batch has landed, replacing rows
/// that share a path; on any failure the transaction rolls back when
/// dropped and the table is unchanged.
#[verifier::external_body]
pub fn insert(conn: &mut rusqlite::Connection, entries: &Vec<CachedEntry>) -> (r: Result<
    (),
    WallpaperError,
>)
    ensures
        r is Ok ==> cache_contents(*final(conn)) == upsert_all(
            cache_contents(*old(conn)),
            entries@,
        ),
        r is Err ==> cache_contents(*final(conn)) == cache_contents(*old(conn)),
{
    let tx = match conn.unchecked_transaction() {
        Ok(t) => t,
        Err(_) => return Err(WallpaperError::StoreUnavailable),
    };
    for e in entries.iter() {
        let sql = "INSERT OR REPLACE INTO exif_cache (path, mtime, hour) VALUES (?1, ?2, ?3)";
        if tx.execute(sql, (&e.path, &e.mtime, &e.hour)).is_err() {
            return Err(WallpaperError::StoreUnavailable);
        }
    }
    match tx.commit() {
        Ok(_) => Ok(()),
        Err(_) => Err(WallpaperError::StoreUnavailable),
    }
}

/// Relies on rusqlite's unchecked_transaction, `DELETE ... WHERE path
/// = ?1`, and commit: on success exactly the listed paths are gone; on
/// any failure the transaction rolls back when dropped and the table
/// is unchanged.
#[verifier::external_body]
fn delete_paths(conn: &mut rusqlite::Connection, paths: &Vec<String>) -> (r: Result<
    (),
    WallpaperError,
>)
    ensures
        r is Ok ==> cache_contents(*final(conn)) == cache_contents(*old(conn)).remove_keys(
            names_of(paths@),
        ),
        r is Err ==> cache_contents(*final(conn)) == cache_contents(*old(conn)),
{
    let tx = match conn.unchecked_transaction() {
        Ok(t) => t,
        Err(_) => return Err(WallpaperError::StoreUnavailable),
    };
    for p in paths.iter() {
        if tx.execute("DELETE FROM exif_cache WHERE path = ?1", (p,)).is_err() {
            return Err(WallpaperError::StoreUnavailable);
        }
    }
    match tx.commit() {
        Ok(_) => Ok(()),
        Err(_) => Err(WallpaperError::StoreUnavailable),
    }
}

/// Deletes every cache row whose path the current scan no longer
/// contains, as one transaction: afterwards the store holds exactly
/// the non-stale part of what it held before.
pub fn cleanup_stale(
    conn: &mut rusqlite::Connection,
    current_paths: &Vec<String>,
    cache: &Vec<CachedEntry>,
) -> (r: Result<(), WallpaperError>)
    ensures
        r is Ok ==> cache_contents(*final(conn)) == cache_contents(*old(conn)).remove_keys(
            stale_names(cache@, current_paths@),
        ),
        r is Err ==> cache_contents(*final(conn)) == cache_contents(*old(conn)),
{
    let mut stale: Vec<String> = Vec::new();
    let mut i: usize = 0;
    while i < cache.len()
        invariant
            i <= cache@.len(),
            forall|j: int|
                0 <= j < stale@.len() ==> stale_names(cache@, current_paths@).contains(
                    (#[trigger] stale@[j])@,
                ),
            forall|k: int|
                0 <= k < i && stale_names(cache@, current_paths@).contains(
                    (#[trigger] cache@[k]).path@,
                ) ==> names_has(stale@, cache@[k].path@),
        decreases cache@.len() - i,
    {
        let ghost stale0 = stale@;
        let e = &cache[i];
        let hit = name_in(current_paths, &e.path);
        if !hit {
            let p = e.path.clone();
            proof {
                assert(cache@[i as int].path@ == p@);
                assert(stale_names(cache@, current_paths@).contains(p@));
            }
            stale.push(p);
        }
        proof {
            assert forall|k: int|
                0 <= k < i + 1 && stale_names(cache@, current_paths@).contains(
                    (#[trigger] cache@[k]).path@,
                ) implies names_has(stale@, cache@[k].path@) by {
                if k < i {
                    let j = choose|j: int| 0 <= j < stale0.len() && stale0[j]@ == cache@[k].path@;
                    assert(stale@[j]@ == cache@[k].path@);
                } else {
                    assert(!hit);
                    assert(stale@[stale@.len() - 1]@ == cache@[k].path@);
                }
            }
        }
        i += 1;
    }
    if stale.len() == 0 {
        proof {
            let s = stale_names(cache@, current_paths@);
            assert forall|n: Seq<char>| !(s.contains(n)) by {
                if s.contains(n) {
                    let k = choose|k: int|
                        0 <= k < cache@.len() && (#[trigger] cache@[k]).path@ == n;
                    assert(names_has(stale@, cache@[k].path@));
                    let j = choose|j: int| 0 <= j < stale@.len() && stale@[j]@ == n;
                }
            }
            assert(cache_contents(*conn).remove_keys(s) =~= cache_contents(*conn));
        }
        return Ok(());
    }
    proof {
        assert(names_of(stale@) =~= stale_names(cache@, current_paths@)) by {
            assert forall|n: Seq<char>| names_of(stale@).contains(n) implies stale_names(
                cache@,
                current_paths@,
            ).contains(n) by {
                let j = choose|j: int| 0 <= j < stale@.len() && (#[trigger] stale@[j])@ == n;
            }
            assert forall|n: Seq<char>| stale_names(cache@, current_paths@).contains(
                n,
            ) implies names_of(stale@).contains(n) by {
                let k = choose|k: int| 0 <= k < cache@.len() && (#[trigger] cache@[k]).path@ == n;
                assert(names_has(stale@, cache@[k].path@));
            }
        }
    }
    delete_paths(conn, &stale)
}

/// The latest entry for path `p`, scanning from the end.
pub open spec fn last_entry(es: Seq<CachedEntry>, p: Seq<char>) -> Option<CachedEntry>
    decreases es.len(),
{
    if es.len() == 0 {
        None
    } else if es.last().path@ == p {
        Some(es.last())
    } else {
        last_entry(es.drop_last(), p)
    }
}

/// Pointwise reading of a batch upsert: a path maps to its latest
/// entry in the batch, or to what it mapped to before when the batch
/// never names it.
pub proof fn lemma_upsert_all_lookup(
    m: Map<Seq<char>, (i64, Option<u8>)>,
    es: Seq<CachedEntry>,
    p: Seq<char>,
)
    ensures
        match last_entry(es, p) {
            Some(e) => upsert_all(m, es).dom().contains(p) && upsert_all(m, es)[p] == (
                e.mtime,
                e.hour,
            ),
            None => upsert_all(m, es).dom().contains(p) == m.dom().contains(p) && (m.dom().contains(
                p,
            ) ==> upsert_all(m, es)[p] == m[p]),
        },
    decreases es.len(),
{
    if es.len() > 0 {
        lemma_upsert_all_lookup(m, es.drop_last(), p);
    }
}

/// Round trip of the cache: after upserting a batch with distinct
/// paths into an empty store, the store holds exactly those entries,
/// each with its own time and hour; and upserting the same batch again
/// leaves the store unchanged.
pub proof fn lemma_cache_round_trip(es: Seq<CachedEntry>)
    requires
        forall|i: int, j: int|
            0 <= i < j < es.len() ==> (#[trigger] es[i]).path@ != (#[trigger] es[j]).path@,
    ensures
        forall|k: int|
            0 <= k < es.len() ==> upsert_all(Map::empty(), es).contains_pair(
                (#[trigger] es[k]).path@,
                (es[k].mtime, es[k].hour),
            ),
        forall|p: Seq<char>|
            upsert_all(Map::empty(), es).dom().contains(p) ==> exists|k: int|
                0 <= k < es.len() && (#[trigger] es[k]).path@ == p,
        upsert_all(upsert_all(Map::empty(), es), es) == upsert_all(Map::empty(), es),
{
    let m0 = Map::<Seq<char>, (i64, Option<u8>)>::empty();
    let m1 = upsert_all(m0, es);
    assert forall|k: int| 0 <= k < es.len() implies m1.contains_pair(
        (#[trigger] es[k]).path@,
        (es[k].mtime, es[k].hour),
    ) by {
        lemma_last_entry_distinct(es, k);
        lemma_upsert_all_lookup(m0, es, es[k].path@);
    }
    assert forall|p: Seq<char>| m1.dom().contains(p) implies exists|k: int|
        0 <= k < es.len() && (#[trigger] es[k]).path@ == p by {
        lemma_upsert_all_lookup(m0, es, p);
        if last_entry(es, p) is Some {
            lemma_last_entry_found(es, p);
        }
    }
    assert(upsert_all(m1, es) =~= m1) by {
        assert forall|p: Seq<char>|
            #![auto]
            upsert_all(m1, es).dom().contains(p) == m1.dom().contains(p) by {
            lemma_upsert_all_lookup(m1, es, p);
            lemma_upsert_all_lookup(m0, es, p);
        }
        assert(upsert_all(m1, es).dom() =~= m1.dom());
        assert forall|p: Seq<char>| #![auto] m1.dom().contains(p) implies upsert_all(m1, es)[p]
            == m1[p] by {
            lemma_upsert_all_lookup(m1, es, p);
            lemma_upsert_all_lookup(m0, es, p);
        }
    }
}

/// With distinct paths, the latest entry for the path of `es[k]` is
/// `es[k]` itself.
proof fn lemma_last_entry_distinct(es: Seq<CachedEntry>, k: int)
    requires
        forall|i: int, j: int|
            0 <= i < j < es.len() ==> (#[trigger] es[i]).path@ != (#[trigger] es[j]).path@,
        0 <= k < es.len(),
    ensures
        last_entry(es, es[k].path@) == Some(es[k]),
    decreases es.len(),
{
    if k == es.len() - 1 {
        assert(es.last() == es[k]);
    } else {
        assert(es[k].path@ != es[es.len() - 1].path@);
        assert forall|i: int, j: int|
            0 <= i < j < es.drop_last().len() implies (#[trigger] es.drop_last()[i]).path@ != (
        #[trigger] es.drop_last()[j]).path@ by {
            assert(es.drop_last()[i] == es[i] && es.drop_last()[j] == es[j]);
        }
        assert(es.drop_last()[k] == es[k]);
        lemma_last_entry_distinct(es.drop_last(), k);
    }
}

/// A found latest entry names an index of the batch.
proof fn lemma_last_entry_found(es: Seq<CachedEntry>, p: Seq<char>)
    requires
        last_entry(es, p) is Some,
    ensures
        exists|k: int| 0 <= k < es.len() && (#[trigger] es[k]).path@ == p,
    decreases es.len(),
{
    if es.len() > 0 {
        if es.last().path@ == p {
            assert(es[es.len() - 1].path@ == p);
        } else {
            lemma_last_entry_found(es.drop_last(), p);
            let k = choose|k: int|
                0 <= k < es.drop_last().len() && (#[trigger] es.drop_last()[k]).path@ == p;
            assert(es[k].path@ == p);
        }
    }
}

/// Pruning restores the invariant: afterwards, every cached path is a
/// current one, provided the listing the staleness test ran on covered
/// the store.
pub proof fn lemma_prune_restores_invariant(
    m: Map<Seq<char>, (i64, Option<u8>)>,
    cache: Seq<CachedEntry>,
    current: Seq<String>,
)
    requires
        forall|p: Seq<char>|
            m.dom().contains(p) ==> exists|k: int|
                0 <= k < cache.len() && (#[trigger] cache[k]).path@ == p,
    ensures
        forall|p: Seq<char>|
            m.remove_keys(stale_names(cache, current)).dom().contains(p) ==> names_has(current, p),
{
    assert forall|p: Seq<char>|
        m.remove_keys(stale_names(cache, current)).dom().contains(p) implies names_has(
        current,
        p,
    ) by {
        assert(m.dom().contains(p));
        assert(!stale_names(cache, current).contains(p));
    }
}

} // verus!
