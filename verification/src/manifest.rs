//! The manifest of a `.lgpack` package: `Key: value` lines, of which
//! `Main-Bytecode` and `Laughter-Package-Version` are read.

use vstd::prelude::*;
use crate::text::{owned, push_str, str_eq};

verus! {

/// Where the manifest is inside a package.
pub const MANIFEST_PATH: &'static str = "META-INF/MANIFEST.MF";

/// The package format version this crate writes and accepts.
pub const PACKAGE_VERSION: &'static str = "1";

/// What a manifest says: the package's entry bytecode and its version.
#[derive(Debug)]
pub struct PackMeta {
    pub main_bytecode: String,
    pub package_version: String,
}

/// Whether `c` is white space in Unicode, as `char::is_whitespace` has it.
pub open spec fn is_ws(c: char) -> bool {
    let u = c as u32;
    (9 <= u && u <= 13) || u == 32 || u == 0x85 || u == 0xA0 || u == 0x1680
        || (0x2000 <= u && u <= 0x200A) || u == 0x2028 || u == 0x2029 || u == 0x202F
        || u == 0x205F || u == 0x3000
}

/// `s` without its leading white space.
pub open spec fn trim_start(s: Seq<char>) -> Seq<char>
    decreases s.len(),
{
    if s.len() > 0 && is_ws(s[0]) { trim_start(s.drop_first()) } else { s }
}

/// `s` without its trailing white space.
pub open spec fn trim_end(s: Seq<char>) -> Seq<char>
    decreases s.len(),
{
    if s.len() > 0 && is_ws(s.last()) { trim_end(s.drop_last()) } else { s }
}

/// `s` without leading or trailing white space.
pub open spec fn trim(s: Seq<char>) -> Seq<char> {
    trim_end(trim_start(s))
}

/// The index of the first `:` in `s`.
pub open spec fn first_colon(s: Seq<char>) -> Option<int>
    decreases s.len(),
{
    if s.len() == 0 {
        None
    } else {
        match first_colon(s.drop_last()) {
            Some(k) => Some(k),
            None => if s.last() == ':' { Some(s.len() - 1) } else { None },
        }
    }
}

/// The index of the last newline in `s`.
pub open spec fn last_newline(s: Seq<char>) -> Option<int>
    decreases s.len(),
{
    if s.len() == 0 {
        None
    } else if s.last() == '\n' {
        Some(s.len() - 1)
    } else {
        last_newline(s.drop_last())
    }
}

pub proof fn lemma_last_newline(s: Seq<char>)
    ensures
        last_newline(s) matches Some(k) ==> 0 <= k < s.len() && s[k] == '\n'
            && forall|j: int| k < j < s.len() ==> s[j] != '\n',
        last_newline(s) is None ==> forall|j: int| 0 <= j < s.len() ==> s[j] != '\n',
    decreases s.len(),
{
    if s.len() > 0 && s.last() != '\n' {
        let d = s.drop_last();
        lemma_last_newline(d);
        assert forall|j: int| 0 <= j < d.len() implies d[j] == s[j] by {}
        if last_newline(s) is None {
            assert forall|j: int| 0 <= j < s.len() implies s[j] != '\n' by {
                if j < d.len() {
                    assert(d[j] == s[j]);
                }
            }
        } else {
            let k = last_newline(d)->Some_0;
            assert forall|j: int| k < j < s.len() implies s[j] != '\n' by {
                if j < d.len() {
                    assert(d[j] == s[j]);
                }
            }
        }
    }
}

/// The entry bytecode and version before any line is read.
pub open spec fn default_meta() -> (Seq<char>, Seq<char>) {
    ("app.lgb"@, "1"@)
}

/// What one manifest line changes: a trimmed `Main-Bytecode` or
/// `Laughter-Package-Version` key sets its trimmed value; blank lines,
/// `#` comments and other lines change nothing.
pub open spec fn line_update(meta: (Seq<char>, Seq<char>), raw: Seq<char>) -> (Seq<char>, Seq<char>) {
    let line = trim(raw);
    if line.len() == 0 || line[0] == '#' {
        meta
    } else {
        match first_colon(line) {
            None => meta,
            Some(k) => {
                let key = trim(line.take(k));
                let v = trim(line.skip(k + 1));
                if key == "Main-Bytecode"@ {
                    (v, meta.1)
                } else if key == "Laughter-Package-Version"@ {
                    (meta.0, v)
                } else {
                    meta
                }
            },
        }
    }
}

/// What a manifest text says: every line, in order, applied to the
/// defaults.
pub open spec fn manifest_of(t: Seq<char>) -> (Seq<char>, Seq<char>)
    decreases t.len(),
{
    match last_newline(t) {
        None => line_update(default_meta(), t),
        Some(k) => {
            proof {
                lemma_last_newline(t);
            }
            line_update(manifest_of(t.take(k)), t.skip(k + 1))
        },
    }
}

fn is_ws_char(c: char) -> (r: bool)
    ensures
        r == is_ws(c),
{
    let u = c as u32;
    (9 <= u && u <= 13) || u == 32 || u == 0x85 || u == 0xA0 || u == 0x1680
        || (0x2000 <= u && u <= 0x200A) || u == 0x2028 || u == 0x2029 || u == 0x202F
        || u == 0x205F || u == 0x3000
}

proof fn lemma_trim_start_skip(s: Seq<char>, a: int)
    requires
        0 <= a <= s.len(),
        forall|j: int| 0 <= j < a ==> is_ws(s[j]),
    ensures
        trim_start(s) == trim_start(s.skip(a)),
    decreases a,
{
    if a > 0 {
        assert(s.skip(1) =~= s.drop_first());
        lemma_trim_start_skip(s.drop_first(), a - 1);
        assert(s.drop_first().skip(a - 1) =~= s.skip(a));
    } else {
        assert(s.skip(0) =~= s);
    }
}

proof fn lemma_trim_end_take(s: Seq<char>, b: int)
    requires
        0 <= b <= s.len(),
        forall|j: int| b <= j < s.len() ==> is_ws(s[j]),
    ensures
        trim_end(s) == trim_end(s.take(b)),
    decreases s.len() - b,
{
    if b < s.len() {
        assert(s.take(s.len() - 1) =~= s.drop_last());
        lemma_trim_end_take(s.drop_last(), b);
        assert(s.drop_last().take(b) =~= s.take(b));
    } else {
        assert(s.take(b) =~= s);
    }
}

/// `s` without leading or trailing white space.
pub fn trim_str(s: &str) -> (r: String)
    ensures
        r@ == trim(s@),
{
    let n = s.unicode_len();
    let mut a: usize = 0;
    while a < n && is_ws_char(s.get_char(a))
        invariant
            a <= n,
            n == s@.len(),
            forall|j: int| 0 <= j < a ==> is_ws(s@[j]),
        decreases n - a,
    {
        a = a + 1;
    }
    proof {
        lemma_trim_start_skip(s@, a as int);
    }
    let mut b: usize = n;
    while b > a && is_ws_char(s.get_char(b - 1))
        invariant
            a <= b <= n,
            n == s@.len(),
            forall|j: int| b <= j < n ==> is_ws(s@[j]),
        decreases b,
    {
        b = b - 1;
    }
    let ghost mid = s@.skip(a as int);
    proof {
        if a < n {
            assert(!is_ws(s@[a as int]));
            assert(trim_start(mid) == mid);
        } else {
            assert(mid.len() == 0);
        }
        lemma_trim_end_take(mid, b - a);
        assert(mid.take(b - a) =~= s@.subrange(a as int, b as int));
        if b > a {
            assert(!is_ws(s@.subrange(a as int, b as int).last()));
        }
    }
    owned(s.substring_char(a, b))
}

proof fn lemma_first_colon(s: Seq<char>)
    ensures
        first_colon(s) matches Some(k) ==> 0 <= k < s.len() && s[k] == ':'
            && forall|j: int| 0 <= j < k ==> s[j] != ':',
        first_colon(s) is None ==> forall|j: int| 0 <= j < s.len() ==> s[j] != ':',
    decreases s.len(),
{
    if s.len() > 0 {
        let d = s.drop_last();
        lemma_first_colon(d);
        assert forall|j: int| 0 <= j < d.len() implies d[j] == s[j] by {}
        if first_colon(d) is None {
            assert forall|j: int| 0 <= j < s.len() - 1 implies s[j] != ':' by {
                assert(d[j] == s[j]);
            }
        } else {
            let k = first_colon(d)->Some_0;
            assert(d[k] == s[k]);
            assert forall|j: int| 0 <= j < k implies s[j] != ':' by {
                assert(d[j] == s[j]);
            }
        }
    }
}

proof fn lemma_first_colon_at(s: Seq<char>, k: int)
    requires
        0 <= k < s.len(),
        s[k] == ':',
        forall|j: int| 0 <= j < k ==> s[j] != ':',
    ensures
        first_colon(s) == Some(k),
    decreases s.len(),
{
    lemma_first_colon(s);
    if k < s.len() - 1 {
        lemma_first_colon_at(s.drop_last(), k);
    } else {
        lemma_first_colon(s.drop_last());
    }
}

/// Applies one manifest line.
fn apply_line(main: &mut String, version: &mut String, raw: &str)
    ensures
        (final(main)@, final(version)@) == line_update((old(main)@, old(version)@), raw@),
{
    let line = trim_str(raw);
    let l = line.as_str();
    let n = l.unicode_len();
    if n == 0 || l.get_char(0) == '#' {
        return;
    }
    let mut k: usize = 0;
    while k < n && l.get_char(k) != ':'
        invariant
            k <= n,
            n == l@.len(),
            forall|j: int| 0 <= j < k ==> l@[j] != ':',
        decreases n - k,
    {
        k = k + 1;
    }
    if k == n {
        proof {
            lemma_first_colon(l@);
            if first_colon(l@) is Some {
                let j = first_colon(l@)->Some_0;
                assert(l@[j] == ':');
            }
        }
        return;
    }
    proof {
        lemma_first_colon_at(l@, k as int);
    }
    let key = trim_str(l.substring_char(0, k));
    let v = trim_str(l.substring_char(k + 1, n));
    assert(l@.subrange(0, k as int) =~= l@.take(k as int));
    assert(l@.subrange(k + 1, n as int) =~= l@.skip(k + 1));
    if str_eq(key.as_str(), "Main-Bytecode") {
        *main = v;
    } else if str_eq(key.as_str(), "Laughter-Package-Version") {
        *version = v;
    }
}

proof fn lemma_manifest_step(t: Seq<char>, start: int, i: int)
    requires
        0 <= start <= i < t.len(),
        t[i] == '\n',
        start == 0 || t[start - 1] == '\n',
        forall|j: int| start <= j < i ==> t[j] != '\n',
    ensures
        manifest_of(t.take(i)) == line_update(
            if start == 0 { default_meta() } else { manifest_of(t.take(start - 1)) },
            t.subrange(start, i),
        ),
{
    let p = t.take(i);
    lemma_no_newline_after(p, start);
    if start == 0 {
        assert(p.take(0) =~= Seq::<char>::empty());
    } else {
        assert(p.take(start - 1) =~= t.take(start - 1));
        assert(p.skip(start) =~= t.subrange(start, i));
    }
}

/// The last newline of `p` is just before `start` (or there is none when
/// `start` is 0), given that none follows it.
proof fn lemma_no_newline_after(p: Seq<char>, start: int)
    requires
        0 <= start <= p.len(),
        start == 0 || p[start - 1] == '\n',
        forall|j: int| start <= j < p.len() ==> p[j] != '\n',
    ensures
        last_newline(p) == if start == 0 { None::<int> } else { Some(start - 1) },
    decreases p.len(),
{
    if p.len() > start {
        lemma_no_newline_after(p.drop_last(), start);
    } else if start > 0 {
    }
}

/// Reads a manifest: each line is trimmed; blank lines and `#` comments
/// are skipped; `Main-Bytecode` (default `app.lgb`) and
/// `Laughter-Package-Version` (default `1`) take the trimmed text after the
/// first `:` of the last line that sets them.
pub fn parse_manifest(text: &str) -> (m: PackMeta)
    ensures
        (m.main_bytecode@, m.package_version@) == manifest_of(text@),
{
    let t = text;
    let n = t.unicode_len();
    let mut main = owned("app.lgb");
    let mut version = owned("1");
    let mut start: usize = 0;
    let mut i: usize = 0;
    while i < n
        invariant
            start <= i <= n,
            n == t@.len(),
            start == 0 || t@[start - 1] == '\n',
            forall|j: int| start <= j < i ==> t@[j] != '\n',
            (main@, version@) == if start == 0 { default_meta() } else { manifest_of(t@.take(start - 1)) },
        decreases n - i,
    {
        if t.get_char(i) == '\n' {
            proof {
                lemma_manifest_step(t@, start as int, i as int);
            }
            apply_line(&mut main, &mut version, t.substring_char(start, i));
            start = i + 1;
        }
        i = i + 1;
    }
    apply_line(&mut main, &mut version, t.substring_char(start, n));
    proof {
        lemma_no_newline_after(t@, start as int);
        if start > 0 {
            assert(t@.skip(start as int) =~= t@.subrange(start as int, n as int));
        } else {
            assert(t@.subrange(0, n as int) =~= t@);
        }
    }
    PackMeta { main_bytecode: main, package_version: version }
}

/// The manifest text written for a package whose entry bytecode is `main`.
pub open spec fn manifest_text(main: Seq<char>) -> Seq<char> {
    "Manifest-Version: 1.0\nCreated-By: laughter\nLaughter-Package-Version: 1\nMain-Bytecode: "@
        + main + "\nBytecode-Format-Version: 1\n"@
}

/// The manifest of a package whose entry bytecode is `main_bytecode`.
pub fn build_manifest(main_bytecode: &str) -> (s: String)
    ensures
        s@ == manifest_text(main_bytecode@),
{
    let mut s = owned("Manifest-Version: 1.0\nCreated-By: laughter\nLaughter-Package-Version: 1\nMain-Bytecode: ");
    push_str(&mut s, main_bytecode);
    push_str(&mut s, "\nBytecode-Format-Version: 1\n");
    s
}

} // verus!
