//! File names and extensions of `/`-separated paths.

use vstd::prelude::*;
use crate::loader::{last_index_of, lemma_last_index};
use crate::text::{owned, push_str};

verus! {

/// `p` without trailing `/`s.
pub open spec fn strip_slashes(p: Seq<char>) -> Seq<char>
    decreases p.len(),
{
    if p.len() > 0 && p.last() == '/' { strip_slashes(p.drop_last()) } else { p }
}

/// Where the file name of `p` starts (after its last `/`), once trailing
/// `/`s are stripped.
pub open spec fn name_start(p: Seq<char>) -> int {
    match last_index_of(strip_slashes(p), '/') {
        Some(k) => k + 1,
        None => 0,
    }
}

/// The file name of `p`: its last component, unless that is empty, `.` or
/// `..`.
pub open spec fn file_name(p: Seq<char>) -> Option<Seq<char>> {
    let q = strip_slashes(p);
    let f = q.skip(name_start(p));
    if f.len() == 0 || f == seq!['.'] || f == seq!['.', '.'] { None } else { Some(f) }
}

/// Where the extension of a file name starts: after its last `.`, when
/// that `.` is not its first character.
pub open spec fn ext_dot(f: Seq<char>) -> Option<int> {
    match last_index_of(f, '.') {
        Some(k) => if k > 0 { Some(k) } else { None },
        None => None,
    }
}

/// The extension of the file name of `p`.
pub open spec fn extension(p: Seq<char>) -> Option<Seq<char>> {
    match file_name(p) {
        None => None,
        Some(f) => match ext_dot(f) {
            Some(k) => Some(f.skip(k + 1)),
            None => None,
        },
    }
}

/// `p` with its extension set to `lgb`: the old extension (if any) is
/// replaced, trailing `/`s are dropped; a path without a file name is
/// left as it is.
pub open spec fn with_lgb(p: Seq<char>) -> Seq<char> {
    match file_name(p) {
        None => p,
        Some(f) => {
            let stem_len = match ext_dot(f) { Some(k) => k, None => f.len() as int };
            strip_slashes(p).take(name_start(p) + stem_len) + ".lgb"@
        },
    }
}

proof fn lemma_strip(p: Seq<char>)
    ensures
        strip_slashes(p).len() <= p.len(),
        strip_slashes(p) == p.take(strip_slashes(p).len() as int),
    decreases p.len(),
{
    if p.len() > 0 && p.last() == '/' {
        lemma_strip(p.drop_last());
        assert(p.drop_last().take(strip_slashes(p).len() as int) =~= p.take(strip_slashes(p).len() as int));
    } else {
        assert(p.take(p.len() as int) =~= p);
    }
}

fn stripped_len(p: &str) -> (n: usize)
    ensures
        n == strip_slashes(p@).len(),
        n <= p@.len(),
{
    proof {
        lemma_strip(p@);
    }
    let mut n = p.unicode_len();
    assert(p@.take(n as int) =~= p@);
    while n > 0 && p.get_char(n - 1) == '/'
        invariant
            n <= p@.len(),
            strip_slashes(p@) == strip_slashes(p@.take(n as int)),
        decreases n,
    {
        assert(p@.take(n as int).drop_last() =~= p@.take(n - 1));
        n = n - 1;
    }
    n
}

fn last_in(p: &str, end: usize, c: char) -> (r: Option<usize>)
    requires
        end <= p@.len(),
    ensures
        match last_index_of(p@.take(end as int), c) {
            Some(k) => r == Some(k as usize),
            None => r is None,
        },
{
    let mut i = end;
    while i > 0
        invariant
            i <= end,
            end <= p@.len(),
            last_index_of(p@.take(end as int), c) == last_index_of(p@.take(i as int), c),
        decreases i,
    {
        assert(p@.take(i as int).drop_last() =~= p@.take(i - 1));
        if p.get_char(i - 1) == c {
            return Some(i - 1);
        }
        i = i - 1;
    }
    None
}

/// The bounds of the file name of `p` and, when it has one, the index of
/// its extension's dot.
fn name_bounds(p: &str) -> (r: Option<(usize, usize, Option<usize>)>)
    ensures
        r matches Some((s, e, d)) ==> s <= e <= p@.len() && (d matches Some(x) ==> s < x < e),
        match file_name(p@) {
            None => r is None,
            Some(f) => r matches Some((s, e, d)) && s == name_start(p@) && e == strip_slashes(p@).len()
                && p@.subrange(s as int, e as int) == f
                && match ext_dot(f) {
                    Some(k) => d == Some((s + k) as usize),
                    None => d is None,
                },
        },
{
    let e = stripped_len(p);
    proof {
        lemma_strip(p@);
        lemma_last_index(strip_slashes(p@), '/');
    }
    let s = match last_in(p, e, '/') {
        Some(k) => k + 1,
        None => 0,
    };
    let ghost q = strip_slashes(p@);
    assert(q == p@.take(e as int));
    assert(q.skip(s as int) =~= p@.subrange(s as int, e as int));
    let len = e - s;
    if len == 0 || (len == 1 && p.get_char(s) == '.') || (len == 2 && p.get_char(s) == '.' && p.get_char(s + 1) == '.') {
        proof {
            let f = q.skip(s as int);
            if len == 1 {
                assert(f =~= seq!['.']);
            }
            if len == 2 {
                assert(f =~= seq!['.', '.']);
            }
        }
        return None;
    }
    proof {
        let f = q.skip(s as int);
        if len == 1 {
            assert(f[0] != seq!['.'][0]);
        }
        if len == 2 {
            assert(f[0] != '.' || f[1] != '.');
            assert(f[0] != seq!['.', '.'][0] || f[1] != seq!['.', '.'][1]);
        }
        lemma_last_index(f, '.');
    }
    let ghost f = q.skip(s as int);
    let mut i = e;
    let mut dot: Option<usize> = None;
    assert(f.take(len as int) =~= f);
    while i > s
        invariant
            s <= i <= e,
            e <= p@.len(),
            len == e - s,
            f == p@.subrange(s as int, e as int),
            dot is None ==> last_index_of(f, '.') == last_index_of(f.take(i - s), '.'),
            dot matches Some(k) ==> s <= k < e && last_index_of(f, '.') == Some(k - s),
        decreases i,
    {
        assert(f.take(i - s).drop_last() =~= f.take(i - s - 1));
        if dot.is_none() && p.get_char(i - 1) == '.' {
            proof {
                assert(f[i - s - 1] == p@[i - 1]);
                assert(f.take(i - s).last() == f[i - s - 1]);
            }
            dot = Some(i - 1);
        }
        i = i - 1;
    }
    let d = match dot {
        Some(k) => if k > s { Some(k) } else { None },
        None => None,
    };
    Some((s, e, d))
}

/// The path a compiled `.lg` file is written to by default: the source path
/// with its extension set to `lgb` (`foo.lg` gives `foo.lgb`).
pub fn default_output_path(src: &str) -> (r: String)
    ensures
        r@ == with_lgb(src@),
{
    match name_bounds(src) {
        None => owned(src),
        Some((s, e, d)) => {
            proof {
                lemma_strip(src@);
            }
            let stem_end = match d {
                Some(k) => k,
                None => e,
            };
            let mut r = owned(src.substring_char(0, stem_end));
            push_str(&mut r, ".lgb");
            proof {
                let f = file_name(src@)->Some_0;
                lemma_last_index(f, '.');
                assert(f == src@.subrange(s as int, e as int));
                assert(f.len() == e - s);
                let stem_len = match ext_dot(f) { Some(k) => k, None => f.len() as int };
                assert(stem_end == name_start(src@) + stem_len);
                assert(src@.subrange(0, stem_end as int) =~= strip_slashes(src@).take(stem_end as int));
                assert(r@ == with_lgb(src@));
            }
            r
        },
    }
}

/// The code of a character with ASCII upper case folded to lower case.
pub open spec fn fold_case(c: char) -> u32 {
    let u = c as u32;
    if 65 <= u && u <= 90 { (u + 32) as u32 } else { u }
}

/// Whether two texts are equal when ASCII letters are compared without
/// case.
pub open spec fn eq_ignore_case(a: Seq<char>, b: Seq<char>) -> bool {
    a.len() == b.len() && forall|i: int| 0 <= i < a.len() ==> fold_case(#[trigger] a[i]) == fold_case(b[i])
}

fn fold(c: char) -> (r: u32)
    ensures
        r == fold_case(c),
{
    let u = c as u32;
    if 65 <= u && u <= 90 { u + 32 } else { u }
}

fn ext_is(p: &str, from: usize, to: usize, word: &str) -> (r: bool)
    requires
        from <= to <= p@.len(),
    ensures
        r == eq_ignore_case(p@.subrange(from as int, to as int), word@),
{
    let n = word.unicode_len();
    if to - from != n {
        return false;
    }
    let mut i: usize = 0;
    while i < n
        invariant
            i <= n,
            n == word@.len(),
            to - from == n,
            from <= to <= p@.len(),
            forall|k: int| 0 <= k < i ==> fold_case(#[trigger] p@.subrange(from as int, to as int)[k]) == fold_case(word@[k]),
        decreases n - i,
    {
        assert(p@.subrange(from as int, to as int)[i as int] == p@[from + i]);
        if fold(p.get_char(from + i)) != fold(word.get_char(i)) {
            return false;
        }
        i = i + 1;
    }
    true
}

/// Whether a path names a package: its extension is `lgpack` or `jar`,
/// whatever the case of its ASCII letters.
pub fn is_lgpack(path: &str) -> (r: bool)
    ensures
        r == match extension(path@) {
            Some(x) => eq_ignore_case(x, "lgpack"@) || eq_ignore_case(x, "jar"@),
            None => false,
        },
{
    match name_bounds(path) {
        None => false,
        Some((s, e, d)) => match d {
            None => false,
            Some(k) => {
                assert(k < e);
                proof {
                    let f = file_name(path@)->Some_0;
                    assert(f == path@.subrange(s as int, e as int));
                    lemma_last_index(f, '.');
                    let kk = ext_dot(f)->Some_0;
                    assert(k == s + kk);
                    assert(f.skip(kk + 1) =~= path@.subrange(k + 1, e as int));
                }
                ext_is(path, k + 1, e, "lgpack") || ext_is(path, k + 1, e, "jar")
            },
        },
    }
}

} // verus!
