//! Photo files as the scanner reports them, and the path arithmetic on
//! their names.
//!
//! Directory walking itself happens outside the library; what arrives
//! here is a path string and a last-modified timestamp per file.  The
//! library's own share is the name logic: the basename of a path, and
//! whether a name carries a JPEG extension.

use vstd::prelude::*;

verus! {

/// One discovered photo: its path and its last-modified time in
/// seconds.
#[derive(Debug, Clone)]
pub struct ImageFile {
    pub path: String,
    pub mtime: i64,
}

/// The suffix of `p` after its last `/`, or all of `p` when it has
/// none.
pub open spec fn basename_chars(p: Seq<char>) -> Seq<char>
    decreases p.len(),
{
    if p.contains('/') {
        basename_chars(p.drop_first())
    } else {
        p
    }
}

/// The suffix of `s` after its last `.`, or all of `s` when it has
/// none.
pub open spec fn after_last_dot(s: Seq<char>) -> Seq<char>
    decreases s.len(),
{
    if s.contains('.') {
        after_last_dot(s.drop_first())
    } else {
        s
    }
}

/// The extension of the file name `bn`: what follows its last dot,
/// none when there is no dot or when the only dot leads the name.
pub open spec fn ext_of_name(bn: Seq<char>) -> Option<Seq<char>> {
    if !bn.contains('.') {
        None
    } else if bn.len() - after_last_dot(bn).len() - 1 == 0 {
        None
    } else {
        Some(after_last_dot(bn))
    }
}

/// The ASCII-case-insensitive code of a character: upper-case letters
/// folded onto lower-case.
pub open spec fn lower_code(c: char) -> int {
    if 65 <= c as int <= 90 {
        c as int + 32
    } else {
        c as int
    }
}

/// Whether the extension characters spell `jpg` or `jpeg`, in any
/// case.
pub open spec fn is_jpeg_ext(e: Seq<char>) -> bool {
    ||| (e.len() == 3 && lower_code(e[0]) == 106 && lower_code(e[1]) == 112 && lower_code(e[2])
        == 103)
    ||| (e.len() == 4 && lower_code(e[0]) == 106 && lower_code(e[1]) == 112 && lower_code(e[2])
        == 101 && lower_code(e[3]) == 103)
}

/// Whether the path names a JPEG file: its basename's extension spells
/// `jpg` or `jpeg`, in any case.
pub open spec fn is_jpeg_path(p: Seq<char>) -> bool {
    match ext_of_name(basename_chars(p)) {
        Some(e) => is_jpeg_ext(e),
        None => false,
    }
}

/// Cutting a sequence right after a `/` steps the basename past it.
proof fn lemma_basename_skip(p: Seq<char>, k: int)
    requires
        0 <= k < p.len(),
        p[k] == '/',
    ensures
        basename_chars(p) == basename_chars(p.skip(k + 1)),
    decreases k,
{
    assert(p.contains('/'));
    if k == 0 {
        assert(p.drop_first() =~= p.skip(1));
    } else {
        assert(p.drop_first()[k - 1] == '/');
        lemma_basename_skip(p.drop_first(), k - 1);
        assert(p.drop_first().skip(k) =~= p.skip(k + 1));
    }
}

/// A sequence without `/` is its own basename.
proof fn lemma_basename_plain(p: Seq<char>)
    requires
        forall|t: int| 0 <= t < p.len() ==> p[t] != '/',
    ensures
        basename_chars(p) == p,
{
    if p.contains('/') {
        let t = choose|t: int| 0 <= t < p.len() && p[t] == '/';
        assert(p[t] != '/');
    }
}

/// Likewise for `.` and the dot-suffix.
proof fn lemma_after_dot_skip(s: Seq<char>, k: int)
    requires
        0 <= k < s.len(),
        s[k] == '.',
    ensures
        after_last_dot(s) == after_last_dot(s.skip(k + 1)),
    decreases k,
{
    assert(s.contains('.'));
    if k == 0 {
        assert(s.drop_first() =~= s.skip(1));
    } else {
        assert(s.drop_first()[k - 1] == '.');
        lemma_after_dot_skip(s.drop_first(), k - 1);
        assert(s.drop_first().skip(k) =~= s.skip(k + 1));
    }
}

/// A sequence without `.` is its own dot-suffix.
proof fn lemma_after_dot_plain(s: Seq<char>)
    requires
        forall|t: int| 0 <= t < s.len() ==> s[t] != '.',
    ensures
        after_last_dot(s) == s,
{
    if s.contains('.') {
        let t = choose|t: int| 0 <= t < s.len() && s[t] == '.';
        assert(s[t] != '.');
    }
}

/// Whether some entry of the list reads as this text.
pub open spec fn names_has(list: Seq<String>, n: Seq<char>) -> bool {
    exists|k: int| 0 <= k < list.len() && list[k]@ == n
}

/// Whether some entry of the list equals this name.
pub fn name_in(list: &Vec<String>, name: &String) -> (r: bool)
    ensures
        r == names_has(list@, name@),
{
    let mut k: usize = 0;
    while k < list.len()
        invariant
            k <= list@.len(),
            forall|t: int| 0 <= t < k ==> list@[t]@ != name@,
        decreases list@.len() - k,
    {
        if list[k].eq(name) {
            return true;
        }
        k += 1;
    }
    proof {
        if names_has(list@, name@) {
            let t = choose|t: int| 0 <= t < list@.len() && list@[t]@ == name@;
            assert(list@[t]@ != name@);
        }
    }
    false
}

/// The basename of `path`: everything after its last slash.
pub fn basename_of(path: &str) -> (r: String)
    ensures
        r@ == basename_chars(path@),
{
    let n = path.unicode_len();
    let mut start: usize = 0;
    let mut i: usize = 0;
    proof {
        assert(path@.skip(0) =~= path@);
    }
    while i < n
        invariant
            n == path@.len(),
            start <= i <= n,
            basename_chars(path@) == basename_chars(path@.skip(start as int)),
            forall|t: int| start <= t < i ==> path@[t] != '/',
        decreases n - i,
    {
        if path.get_char(i) == '/' {
            proof {
                lemma_basename_skip(path@, i as int);
            }
            start = i + 1;
        }
        i += 1;
    }
    proof {
        assert forall|t: int| 0 <= t < path@.skip(start as int).len() implies path@.skip(
            start as int,
        )[t] != '/' by {
            assert(path@.skip(start as int)[t] == path@[t + start]);
        }
        lemma_basename_plain(path@.skip(start as int));
    }
    let r = String::from_str(path.substring_char(start, n));
    proof {
        assert(path@.subrange(start as int, n as int) =~= path@.skip(start as int));
    }
    r
}

/// Case-insensitive code of one character, for extension comparison.
fn lower_code_exec(c: char) -> (r: u32)
    ensures
        r == lower_code(c),
{
    let v = c as u32;
    if 65 <= v && v <= 90 {
        v + 32
    } else {
        v
    }
}

/// Whether `path` names a JPEG file, by its extension, in any case.
pub fn is_jpeg(path: &str) -> (r: bool)
    ensures
        r == is_jpeg_path(path@),
{
    let bn = basename_of(path);
    let bns = bn.as_str();
    let n = bns.unicode_len();
    let mut dot: usize = 0;
    let mut seen = false;
    let mut i: usize = 0;
    while i < n
        invariant
            n == bns@.len(),
            seen ==> dot < i && bns@[dot as int] == '.' && after_last_dot(bns@) == after_last_dot(
                bns@.skip(dot as int + 1),
            ),
            i <= n,
            seen ==> forall|t: int| dot < t < i ==> bns@[t] != '.',
            !seen ==> forall|t: int| 0 <= t < i ==> bns@[t] != '.',
        decreases n - i,
    {
        if bns.get_char(i) == '.' {
            proof {
                lemma_after_dot_skip(bns@, i as int);
            }
            dot = i;
            seen = true;
        }
        i += 1;
    }
    if !seen {
        proof {
            if bns@.contains('.') {
                let t = choose|t: int| 0 <= t < bns@.len() && bns@[t] == '.';
                assert(bns@[t] != '.');
            }
        }
        return false;
    }
    proof {
        let tail = bns@.skip(dot as int + 1);
        assert forall|t: int| 0 <= t < tail.len() implies tail[t] != '.' by {
            assert(tail[t] == bns@[t + dot + 1]);
        }
        lemma_after_dot_plain(tail);
        assert(after_last_dot(bns@) =~= tail);
        assert(bns@.len() - after_last_dot(bns@).len() - 1 == dot);
    }
    if dot == 0 {
        return false;
    }
    let elen = n - dot - 1;
    if elen != 3 && elen != 4 {
        return false;
    }
    let ghost e = after_last_dot(bns@);
    proof {
        assert forall|t: int| 0 <= t < e.len() implies e[t] == bns@[dot + 1 + t] by {}
    }
    let c0 = lower_code_exec(bns.get_char(dot + 1));
    let c1 = lower_code_exec(bns.get_char(dot + 2));
    let c2 = lower_code_exec(bns.get_char(dot + 3));
    if elen == 3 {
        c0 == 106 && c1 == 112 && c2 == 103
    } else {
        let c3 = lower_code_exec(bns.get_char(dot + 4));
        c0 == 106 && c1 == 112 && c2 == 101 && c3 == 103
    }
}

} // verus!
