//! The shown-wallpaper history: the recent exclusion window for the
//! batch run, and the navigable sequence the viewer walks.
//!
//! The log itself is an append-only text file read outside the
//! library; what arrives here is its lines, oldest first.

use crate::numfmt::dec_chars;
use vstd::prelude::*;

verus! {

/// The most recent `limit` entries, newest first: the exclusion
/// window the selector tests membership against.
pub fn recent_window(lines: &Vec<String>, limit: usize) -> (r: Vec<String>)
    ensures
        r@.len() == (if limit <= lines@.len() {
            limit as int
        } else {
            lines@.len() as int
        }),
        forall|k: int| 0 <= k < r@.len() ==> (#[trigger] r@[k])@ == lines@[lines@.len() - 1 - k]@,
{
    let n = lines.len();
    let take: usize = if limit <= n {
        limit
    } else {
        n
    };
    let mut r: Vec<String> = Vec::new();
    let mut k: usize = 0;
    while k < take
        invariant
            take <= n,
            n == lines@.len(),
            k <= take,
            r@.len() == k,
            forall|t: int| 0 <= t < k ==> (#[trigger] r@[t])@ == lines@[n - 1 - t]@,
        decreases take - k,
    {
        r.push(lines[n - 1 - k].clone());
        k += 1;
    }
    r
}

/// The full history as the viewer navigates it: every logged
/// basename, and a cursor on the one currently shown.
#[derive(Debug)]
pub struct WallpaperHistory {
    pub entries: Vec<String>,
    pub current_index: usize,
}

/// A usable history: at least one entry, cursor inside.
pub open spec fn hist_wf(h: WallpaperHistory) -> bool {
    0 < h.entries@.len() && h.current_index < h.entries@.len()
}

impl WallpaperHistory {
    /// Takes the log's lines, positioned on the newest; an empty log
    /// gives no history.
    pub fn load(entries: Vec<String>) -> (r: Option<WallpaperHistory>)
        ensures
            match r {
                Some(h) => entries@.len() > 0 && hist_wf(h) && h.entries@ == entries@
                    && h.current_index == entries@.len() - 1,
                None => entries@.len() == 0,
            },
    {
        if entries.len() == 0 {
            return None;
        }
        let idx = entries.len() - 1;
        Some(WallpaperHistory { entries, current_index: idx })
    }

    /// The basename under the cursor.
    pub fn current_basename(&self) -> (r: &String)
        requires
            hist_wf(*self),
        ensures
            r@ == self.entries@[self.current_index as int]@,
    {
        &self.entries[self.current_index]
    }

    /// Steps to the previous (older) entry; reports whether the
    /// cursor moved.
    pub fn go_previous(&mut self) -> (moved: bool)
        requires
            hist_wf(*old(self)),
        ensures
            hist_wf(*final(self)),
            final(self).entries@ == old(self).entries@,
            moved == (old(self).current_index > 0),
            final(self).current_index == (if old(self).current_index > 0 {
                old(self).current_index - 1
            } else {
                old(self).current_index as int
            }),
    {
        if self.current_index > 0 {
            self.current_index = self.current_index - 1;
            true
        } else {
            false
        }
    }

    /// Steps to the next (newer) entry; reports whether the cursor
    /// moved.
    pub fn go_next(&mut self) -> (moved: bool)
        requires
            hist_wf(*old(self)),
        ensures
            hist_wf(*final(self)),
            final(self).entries@ == old(self).entries@,
            moved == (old(self).current_index + 1 < old(self).entries@.len()),
            final(self).current_index == (if old(self).current_index + 1
                < old(self).entries@.len() {
                old(self).current_index + 1
            } else {
                old(self).current_index as int
            }),
    {
        if self.current_index < self.entries.len() - 1 {
            self.current_index = self.current_index + 1;
            true
        } else {
            false
        }
    }

    /// The position display `3/12`: the cursor (1-based) over the
    /// count.
    pub fn position_str(&self) -> (r: String)
        requires
            hist_wf(*self),
        ensures
            r@ == dec_chars(self.current_index + 1) + "/"@ + dec_chars(self.entries@.len() as int),
    {
        let n = self.entries.len();
        let mut s = crate::numfmt::u64_string((self.current_index as u64) + 1);
        s.append("/");
        s.append(crate::numfmt::u64_string(n as u64).as_str());
        proof {
            assert(s@ =~= dec_chars(self.current_index + 1) + "/"@ + dec_chars(
                self.entries@.len() as int,
            ));
        }
        s
    }
}

} // verus!
