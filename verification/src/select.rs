//! Time-aware wallpaper selection.
//!
//! Given the pool of photos, the recently-shown history and the current
//! hour, the policy first drops recently shown names (falling back to
//! the whole pool when that empties it), then prefers photos whose
//! capture hour lies within one hour of now on the 24-hour circle,
//! picking among those at random; failing that, the photo with the
//! smallest circular distance; failing any known hour, a random photo.
//!
//! The random draw is injected as a plain `pick` argument into the
//! deterministic core, so every branch is testable; only the outermost
//! entry point draws from the generator.

use crate::discovery::{basename_chars, basename_of, name_in, names_has, ImageFile};
use vstd::prelude::*;

verus! {

/// A photo joined with its cache-resolved capture hour.
#[derive(Debug, Clone)]
pub struct Candidate {
    pub path: String,
    pub hour: Option<u8>,
}

/// The circular distance between two hours on a 24-hour clock: the
/// shorter way round, between 0 and 12.
pub open spec fn circ_dist(a: int, b: int) -> int {
    let d = (a - b) % 24;
    if d > 12 {
        24 - d
    } else {
        d
    }
}

/// The circular hour distance.  The current hour is a true hour of
/// day; a stored hour is reduced modulo 24 like any other clock value.
pub fn time_diff(current: u8, image: u8) -> (r: u8)
    requires
        current < 24,
    ensures
        r == circ_dist(current as int, image as int),
        r <= 12,
{
    let d: u32 = ((current as u32) + 264 - (image as u32)) % 24;
    proof {
        let x = current as int - image as int;
        vstd::arithmetic::div_mod::lemma_mod_multiples_vanish(11, x, 24);
        assert(24 * 11 + x == current + 264 - image);
        assert((current + 264 - image) % 24 == x % 24);
    }
    if d > 12 {
        (24 - d) as u8
    } else {
        d as u8
    }
}

/// Circular distance is symmetric and never exceeds half the clock:
/// for hours `a` and `b`, the distance from `a` to `b` equals the
/// distance from `b` to `a` and lies between 0 and 12.
pub proof fn lemma_circ_dist_symmetric_bounded(a: int, b: int)
    requires
        0 <= a < 24,
        0 <= b < 24,
    ensures
        circ_dist(a, b) == circ_dist(b, a),
        0 <= circ_dist(a, b) <= 12,
{
    if a == b {
        assert((a - b) % 24 == 0int);
    } else if a > b {
        assert((a - b) % 24 == a - b);
        assert((b - a) % 24 == b - a + 24);
    } else {
        assert((b - a) % 24 == b - a);
        assert((a - b) % 24 == a - b + 24);
    }
}

/// Whether the candidate has a known hour within one hour of now.
pub open spec fn in_window(current: int, c: Candidate) -> bool {
    match c.hour {
        Some(h) => circ_dist(current, h as int) <= 1,
        None => false,
    }
}

/// The subsequence of candidates inside the one-hour window.
pub open spec fn window_set(cs: Seq<Candidate>, current: int) -> Seq<Candidate>
    decreases cs.len(),
{
    if cs.len() == 0 {
        Seq::empty()
    } else {
        let prefix = window_set(cs.drop_last(), current);
        if in_window(current, cs.last()) {
            prefix.push(cs.last())
        } else {
            prefix
        }
    }
}

/// The first candidate among the first `n` with a known hour at
/// minimal circular distance from now; earlier candidates win ties.
pub open spec fn best_match_upto(cs: Seq<Candidate>, current: int, n: int) -> Option<Candidate>
    decreases n,
{
    if n <= 0 {
        None
    } else {
        let prev = best_match_upto(cs, current, n - 1);
        let cur = cs[n - 1];
        match (cur.hour, prev) {
            (Some(h), None) => Some(cur),
            (Some(h), Some(p)) => {
                if circ_dist(current, h as int) < circ_dist(current, p.hour->Some_0 as int) {
                    Some(cur)
                } else {
                    prev
                }
            },
            (None, _) => prev,
        }
    }
}

/// What the policy selects for a given random draw `pick`: a window
/// candidate when the window is inhabited, else the best time match,
/// else a uniformly drawn candidate; nothing only when the pool is
/// empty.
pub open spec fn selection(cs: Seq<Candidate>, current: int, pick: int) -> Option<Candidate> {
    let w = window_set(cs, current);
    if cs.len() == 0 {
        None
    } else if w.len() > 0 {
        Some(w[pick % (w.len() as int)])
    } else {
        match best_match_upto(cs, current, cs.len() as int) {
            Some(c) => Some(c),
            None => Some(cs[pick % (cs.len() as int)]),
        }
    }
}

/// Whether the returned path and hour name the selected candidate.
pub open spec fn names_selected(r: Option<(String, Option<u8>)>, sel: Option<Candidate>) -> bool {
    match sel {
        None => r is None,
        Some(c) => match r {
            Some(rr) => rr.0@ == c.path@ && rr.1 == c.hour,
            None => false,
        },
    }
}

/// The indices of the candidates inside the one-hour window, in pool
/// order.
fn window_indices(candidates: &Vec<Candidate>, current_hour: u8) -> (w: Vec<usize>)
    requires
        current_hour < 24,
    ensures
        w@.len() == window_set(candidates@, current_hour as int).len(),
        forall|k: int|
            0 <= k < w@.len() ==> (#[trigger] w@[k]) < candidates@.len() && candidates@[w@[k] as int]
                == window_set(candidates@, current_hour as int)[k],
{
    let ghost cur = current_hour as int;
    let mut w: Vec<usize> = Vec::new();
    let mut i: usize = 0;
    while i < candidates.len()
        invariant
            current_hour < 24,
            i <= candidates@.len(),
            w@.len() == window_set(candidates@.take(i as int), cur).len(),
            forall|k: int|
                0 <= k < w@.len() ==> (#[trigger] w@[k]) < i && candidates@[w@[k] as int]
                    == window_set(candidates@.take(i as int), cur)[k],
            cur == current_hour as int,
        decreases candidates@.len() - i,
    {
        let ghost prev = candidates@.take(i as int);
        let ghost next = candidates@.take(i + 1);
        proof {
            assert(next.drop_last() =~= prev);
            assert(next.last() == candidates@[i as int]);
        }
        let c = &candidates[i];
        let hit = match c.hour {
            Some(h) => time_diff(current_hour, h) <= 1,
            None => false,
        };
        if hit {
            w.push(i);
        }
        i += 1;
    }
    proof {
        assert(candidates@.take(i as int) =~= candidates@);
    }
    w
}

/// The index of the first candidate with a known hour at minimal
/// circular distance from now, if any hour is known at all.
fn best_match_index(candidates: &Vec<Candidate>, current_hour: u8) -> (r: Option<usize>)
    requires
        current_hour < 24,
    ensures
        match r {
            Some(b) => b < candidates@.len() && best_match_upto(
                candidates@,
                current_hour as int,
                candidates@.len() as int,
            ) == Some(candidates@[b as int]),
            None => best_match_upto(
                candidates@,
                current_hour as int,
                candidates@.len() as int,
            ) is None,
        },
{
    let ghost cur = current_hour as int;
    let mut best: Option<usize> = None;
    let mut best_d: u8 = 24;
    let mut i: usize = 0;
    while i < candidates.len()
        invariant
            current_hour < 24,
            i <= candidates@.len(),
            cur == current_hour as int,
            match best {
                Some(b) => b < i && best_match_upto(candidates@, cur, i as int) == Some(
                    candidates@[b as int],
                ) && candidates@[b as int].hour is Some && best_d == circ_dist(
                    cur,
                    candidates@[b as int].hour->Some_0 as int,
                ),
                None => best_match_upto(candidates@, cur, i as int) is None && best_d == 24,
            },
        decreases candidates@.len() - i,
    {
        let c = &candidates[i];
        match c.hour {
            Some(h) => {
                let d = time_diff(current_hour, h);
                if d < best_d {
                    best = Some(i);
                    best_d = d;
                }
            },
            None => {},
        }
        i += 1;
    }
    best
}

/// Selects deterministically for a given random draw: the `pick`
/// chooses (by remainder) among the window candidates, or among the
/// whole pool when no candidate has a known hour.
pub fn select_with_pick(candidates: &Vec<Candidate>, current_hour: u8, pick: usize) -> (r: Option<
    (String, Option<u8>),
>)
    requires
        current_hour < 24,
    ensures
        names_selected(r, selection(candidates@, current_hour as int, pick as int)),
{
    if candidates.len() == 0 {
        return None;
    }
    let w = window_indices(candidates, current_hour);
    if w.len() > 0 {
        let k = pick % w.len();
        let c = &candidates[w[k]];
        Some((c.path.clone(), c.hour))
    } else {
        match best_match_index(candidates, current_hour) {
            Some(b) => {
                let c = &candidates[b];
                Some((c.path.clone(), c.hour))
            },
            None => {
                let k = pick % candidates.len();
                let c = &candidates[k];
                Some((c.path.clone(), c.hour))
            },
        }
    }
}

/// Relies on rand::random_range over `0..n`: a draw below `n`.  The
/// range is non-empty, so the call cannot panic.
#[verifier::external_body]
fn random_below(n: usize) -> (r: usize)
    requires
        n >= 1,
    ensures
        r < n,
{
    rand::random_range(0..n)
}

/// Selects a wallpaper, drawing the tie-breaking pick from the random
/// generator: the result is what some draw makes the deterministic
/// policy select, and is absent exactly when the pool is empty.
pub fn select_wallpaper(candidates: &Vec<Candidate>, current_hour: u8) -> (r: Option<
    (String, Option<u8>),
>)
    requires
        current_hour < 24,
    ensures
        r is None <==> candidates@.len() == 0,
        exists|pick: int|
            0 <= pick && names_selected(
                r,
                selection(candidates@, current_hour as int, pick),
            ),
{
    if candidates.len() == 0 {
        let r = None;
        proof {
            assert(names_selected(r, selection(candidates@, current_hour as int, 0)));
        }
        return r;
    }
    let pick = random_below(candidates.len());
    let r = select_with_pick(candidates, current_hour, pick);
    proof {
        assert(names_selected(r, selection(candidates@, current_hour as int, pick as int)));
        assert(selection(candidates@, current_hour as int, pick as int) is Some);
    }
    r
}

/// Selects a wallpaper and reports an empty pool as the error it is:
/// a run with no candidate changes nothing and says so.
pub fn choose_wallpaper(candidates: &Vec<Candidate>, current_hour: u8) -> (r: Result<
    (String, Option<u8>),
    crate::WallpaperError,
>)
    requires
        current_hour < 24,
    ensures
        r is Err <==> candidates@.len() == 0,
        r is Err ==> r->Err_0 == crate::WallpaperError::NoEligibleCandidate,
        r is Ok ==> exists|pick: int|
            0 <= pick && names_selected(
                Some(r->Ok_0),
                selection(candidates@, current_hour as int, pick),
            ),
{
    match select_wallpaper(candidates, current_hour) {
        Some(p) => Ok(p),
        None => Err(crate::WallpaperError::NoEligibleCandidate),
    }
}

/// Whether some history entry is this basename.
pub open spec fn hist_has(hist: Seq<String>, name: Seq<char>) -> bool {
    names_has(hist, name)
}

/// The pool with recently shown basenames removed.
pub open spec fn fresh_pool(pool: Seq<ImageFile>, hist: Seq<String>) -> Seq<ImageFile>
    decreases pool.len(),
{
    if pool.len() == 0 {
        Seq::empty()
    } else {
        let prefix = fresh_pool(pool.drop_last(), hist);
        if !hist_has(hist, basename_chars(pool.last().path@)) {
            prefix.push(pool.last())
        } else {
            prefix
        }
    }
}

/// Element-wise sameness of two file lists, by path text and
/// timestamp.
pub open spec fn files_match(a: Seq<ImageFile>, b: Seq<ImageFile>) -> bool {
    a.len() == b.len() && forall|k: int|
        0 <= k < a.len() ==> (#[trigger] a[k]).path@ == b[k].path@ && a[k].mtime == b[k].mtime
}

/// The pool this run selects from: photos whose basename is not in the
/// recent history, or the whole pool again once every photo has been
/// recently shown.
pub fn eligible_pool(pool: &Vec<ImageFile>, hist: &Vec<String>) -> (r: Vec<ImageFile>)
    ensures
        fresh_pool(pool@, hist@).len() > 0 ==> files_match(r@, fresh_pool(pool@, hist@)),
        fresh_pool(pool@, hist@).len() == 0 ==> files_match(r@, pool@),
{
    let mut avail: Vec<ImageFile> = Vec::new();
    let mut i: usize = 0;
    while i < pool.len()
        invariant
            i <= pool@.len(),
            files_match(avail@, fresh_pool(pool@.take(i as int), hist@)),
        decreases pool@.len() - i,
    {
        let ghost prev = pool@.take(i as int);
        let ghost next = pool@.take(i + 1);
        proof {
            assert(next.drop_last() =~= prev);
            assert(next.last() == pool@[i as int]);
        }
        let f = &pool[i];
        let bn = basename_of(f.path.as_str());
        if !name_in(hist, &bn) {
            avail.push(ImageFile { path: f.path.clone(), mtime: f.mtime });
        }
        i += 1;
    }
    proof {
        assert(pool@.take(i as int) =~= pool@);
    }
    if avail.len() > 0 {
        avail
    } else {
        let mut whole: Vec<ImageFile> = Vec::new();
        let mut i: usize = 0;
        while i < pool.len()
            invariant
                i <= pool@.len(),
                whole@.len() == i,
                forall|k: int|
                    0 <= k < i ==> (#[trigger] whole@[k]).path@ == pool@[k].path@ && whole@[k].mtime
                        == pool@[k].mtime,
            decreases pool@.len() - i,
        {
            let f = &pool[i];
            whole.push(ImageFile { path: f.path.clone(), mtime: f.mtime });
            i += 1;
        }
        whole
    }
}

/// History exhaustion: when every basename of the pool sits in the
/// recent history, the filtered pool is empty, and selection therefore
/// falls back to the whole unfiltered pool.
pub proof fn lemma_history_exhaustion(pool: Seq<ImageFile>, hist: Seq<String>)
    requires
        forall|k: int|
            0 <= k < pool.len() ==> hist_has(hist, basename_chars((#[trigger] pool[k]).path@)),
    ensures
        fresh_pool(pool, hist).len() == 0,
    decreases pool.len(),
{
    if pool.len() > 0 {
        assert(pool.last() == pool[pool.len() - 1]);
        assert forall|k: int|
            0 <= k < pool.drop_last().len() implies hist_has(
            hist,
            basename_chars((#[trigger] pool.drop_last()[k]).path@),
        ) by {
            assert(pool.drop_last()[k] == pool[k]);
        }
        lemma_history_exhaustion(pool.drop_last(), hist);
    }
}

} // verus!
