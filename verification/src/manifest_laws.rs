//! Reading back what was written: a built manifest names the entry it
//! was built for.

use vstd::prelude::*;
use crate::manifest::{
    default_meta, first_colon, is_ws, last_newline, lemma_last_newline, line_update, manifest_of,
    manifest_text, trim, trim_end, trim_start,
};

verus! {

/// Whether `s` holds no newline.
pub open spec fn one_line(s: Seq<char>) -> bool {
    forall|j: int| 0 <= j < s.len() ==> s[j] != '\n'
}

proof fn lemma_single_line(l: Seq<char>)
    requires
        one_line(l),
    ensures
        manifest_of(l) == line_update(default_meta(), l),
{
    lemma_last_newline(l);
    if last_newline(l) is Some {
        let k = last_newline(l)->Some_0;
        assert(l[k] != '\n');
    }
}

/// A line after a newline is applied after the text before it.
proof fn lemma_next_line(t: Seq<char>, l: Seq<char>)
    requires
        one_line(l),
    ensures
        manifest_of(t + seq!['\n'] + l) == line_update(manifest_of(t), l),
{
    let u = t + seq!['\n'] + l;
    lemma_last_newline(u);
    assert(u[t.len() as int] == '\n');
    if last_newline(u) is None {
        assert(u[t.len() as int] != '\n');
    }
    let k = last_newline(u)->Some_0;
    if k > t.len() {
        assert(u[k] == l[k - t.len() - 1]);
    }
    if k < t.len() {
        assert(u[t.len() as int] != '\n');
    }
    assert(k == t.len());
    assert(u.take(k) =~= t);
    assert(u.skip(k + 1) =~= l);
}

/// The first colon of `s` is at `k`.
proof fn lemma_colon_at(s: Seq<char>, k: int)
    requires
        0 <= k < s.len(),
        s[k] == ':',
        forall|j: int| 0 <= j < k ==> s[j] != ':',
    ensures
        first_colon(s) == Some(k),
    decreases s.len(),
{
    if k < s.len() - 1 {
        assert(s.drop_last()[k] == s[k]);
        assert forall|j: int| 0 <= j < k implies s.drop_last()[j] != ':' by {
            assert(s.drop_last()[j] == s[j]);
        }
        lemma_colon_at(s.drop_last(), k);
    } else {
        lemma_no_colon(s.drop_last());
    }
}

proof fn lemma_no_colon(s: Seq<char>)
    requires
        forall|j: int| 0 <= j < s.len() ==> s[j] != ':',
    ensures
        first_colon(s) is None,
    decreases s.len(),
{
    if s.len() > 0 {
        assert forall|j: int| 0 <= j < s.len() - 1 implies s.drop_last()[j] != ':' by {
            assert(s.drop_last()[j] == s[j]);
        }
        lemma_no_colon(s.drop_last());
    }
}

/// A text whose ends are not white space is its own trim.
proof fn lemma_trimmed(s: Seq<char>)
    requires
        s.len() > 0,
        !is_ws(s[0]),
        !is_ws(s.last()),
    ensures
        trim(s) == s,
{
    assert(trim_start(s) == s);
}


/// A line whose key is neither read key changes nothing.
proof fn lemma_other_line(m: (Seq<char>, Seq<char>), l: Seq<char>, k: int)
    requires
        0 < k < l.len(),
        !is_ws(l[0]),
        !is_ws(l.last()),
        !is_ws(l[k - 1]),
        l[0] != '#',
        l[k] == ':',
        forall|j: int| 0 <= j < k ==> l[j] != ':',
        l.take(k) != "Main-Bytecode"@,
        l.take(k) != "Laughter-Package-Version"@,
    ensures
        line_update(m, l) == m,
{
    lemma_trimmed(l);
    lemma_colon_at(l, k);
    lemma_trimmed(l.take(k));
}

/// The manifest's fixed lines: the version line sets the version to `1`,
/// the others change nothing.
proof fn lemma_fixed_lines(m: (Seq<char>, Seq<char>))
    ensures
        line_update(m, "Manifest-Version: 1.0"@) == m,
        line_update(m, "Created-By: laughter"@) == m,
        line_update(m, "Laughter-Package-Version: 1"@) == (m.0, "1"@),
        line_update(m, "Bytecode-Format-Version: 1"@) == m,
        line_update(m, Seq::empty()) == m,
{
    reveal_strlit("Manifest-Version: 1.0");
    reveal_strlit("Created-By: laughter");
    reveal_strlit("Laughter-Package-Version: 1");
    reveal_strlit("Bytecode-Format-Version: 1");
    reveal_strlit("Main-Bytecode");
    reveal_strlit("Laughter-Package-Version");
    reveal_strlit("1");
    let a = "Manifest-Version: 1.0"@;
    assert(a.take(16).len() != "Main-Bytecode"@.len());
    assert(a.take(16).len() != "Laughter-Package-Version"@.len());
    lemma_other_line(m, a, 16);
    let b = "Created-By: laughter"@;
    assert(b.take(10).len() != "Main-Bytecode"@.len());
    assert(b.take(10).len() != "Laughter-Package-Version"@.len());
    lemma_other_line(m, b, 10);
    let d = "Bytecode-Format-Version: 1"@;
    assert(d.take(23).len() != "Main-Bytecode"@.len());
    assert(d.take(23).len() != "Laughter-Package-Version"@.len());
    lemma_other_line(m, d, 23);
    let c = "Laughter-Package-Version: 1"@;
    lemma_trimmed(c);
    lemma_colon_at(c, 24);
    lemma_trimmed(c.take(24));
    assert(c.take(24) =~= "Laughter-Package-Version"@);
    assert(c.skip(25) =~= seq![' ', '1']);
    assert(trim_start(c.skip(25)) == seq!['1']) by {
        assert(seq![' ', '1'].drop_first() =~= seq!['1']);
        assert(trim_start(seq!['1']) == seq!['1']);
        assert(is_ws(' '));
        assert(trim_start(seq![' ', '1']) == trim_start(seq!['1']));
    }
    assert(trim(c.skip(25)) =~= "1"@);
    assert(trim(Seq::<char>::empty()) =~= Seq::<char>::empty());
}


proof fn lemma_trim_start_len(s: Seq<char>)
    ensures
        trim_start(s).len() <= s.len(),
        s.len() > 0 && is_ws(s[0]) ==> trim_start(s).len() < s.len(),
    decreases s.len(),
{
    if s.len() > 0 && is_ws(s[0]) {
        lemma_trim_start_len(s.drop_first());
    }
}

proof fn lemma_trim_end_len(s: Seq<char>)
    ensures
        trim_end(s).len() <= s.len(),
        s.len() > 0 && is_ws(s.last()) ==> trim_end(s).len() < s.len(),
    decreases s.len(),
{
    if s.len() > 0 && is_ws(s.last()) {
        lemma_trim_end_len(s.drop_last());
    }
}

/// A text that is its own trim does not start or end with white space.
proof fn lemma_trim_fixed(s: Seq<char>)
    requires
        trim(s) == s,
        s.len() > 0,
    ensures
        !is_ws(s[0]),
        !is_ws(s.last()),
        trim_start(s) == s,
        trim_end(s) == s,
{
    lemma_trim_start_len(s);
    lemma_trim_end_len(trim_start(s));
    assert(trim_start(s).len() == s.len());
    if trim_start(s) != s {
        assert(is_ws(s[0]));
    }
    assert(trim_end(s) == s);
    lemma_trim_end_len(s);
}

/// The entry line gives back the entry, when the entry is its own trim.
proof fn lemma_main_line(m: (Seq<char>, Seq<char>), main: Seq<char>)
    requires
        trim(main) == main,
    ensures
        line_update(m, "Main-Bytecode: "@ + main) == (main, m.1),
{
    reveal_strlit("Main-Bytecode: ");
    reveal_strlit("Main-Bytecode");
    reveal_strlit("Laughter-Package-Version");
    let l = "Main-Bytecode: "@ + main;
    assert(l.take(13) =~= "Main-Bytecode"@);
    lemma_trimmed(l.take(13));
    assert(l.skip(14) =~= seq![' '] + main);
    assert((seq![' '] + main).drop_first() =~= main);
    if main.len() > 0 {
        lemma_trim_fixed(main);
        assert(l.last() == main.last());
        lemma_trimmed(l);
        lemma_colon_at(l, 13);
        assert(is_ws(' '));
        assert(trim_start(seq![' '] + main) == trim_start(main));
        assert(trim(l.skip(14)) == main);
    } else {
        reveal_strlit("Main-Bytecode:");
        assert(l =~= "Main-Bytecode: "@);
        let t = l.drop_last();
        assert(is_ws(l.last()));
        assert(t =~= "Main-Bytecode:"@);
        lemma_trimmed(t);
        assert(trim_start(l) == l);
        assert(trim_end(l) == trim_end(t));
        assert(trim(l) == t);
        lemma_colon_at(t, 13);
        assert(t.take(13) =~= l.take(13));
        assert(t.skip(14) =~= Seq::<char>::empty());
        assert(trim(Seq::<char>::empty()) =~= Seq::<char>::empty());
        assert(main =~= Seq::<char>::empty());
    }
}

/// Reading a built manifest gives back the entry bytecode it was built
/// for, and the package version `1`: for an entry of one line that has no
/// white space at its ends.
pub proof fn lemma_manifest_roundtrip(main: Seq<char>)
    requires
        one_line(main),
        trim(main) == main,
    ensures
        manifest_of(manifest_text(main)) == (main, "1"@),
{
    reveal_strlit("Manifest-Version: 1.0\nCreated-By: laughter\nLaughter-Package-Version: 1\nMain-Bytecode: ");
    reveal_strlit("\nBytecode-Format-Version: 1\n");
    reveal_strlit("Manifest-Version: 1.0");
    reveal_strlit("Created-By: laughter");
    reveal_strlit("Laughter-Package-Version: 1");
    reveal_strlit("Main-Bytecode: ");
    reveal_strlit("Bytecode-Format-Version: 1");
    reveal_strlit("app.lgb");
    reveal_strlit("1");
    let nl = seq!['\n'];
    let l0 = "Manifest-Version: 1.0"@;
    let l1 = "Created-By: laughter"@;
    let l2 = "Laughter-Package-Version: 1"@;
    let l3 = "Main-Bytecode: "@ + main;
    let l4 = "Bytecode-Format-Version: 1"@;
    let l5 = Seq::<char>::empty();
    let t1 = l0 + nl + l1;
    let t2 = t1 + nl + l2;
    let t3 = t2 + nl + l3;
    let t4 = t3 + nl + l4;
    let t5 = t4 + nl + l5;
    assert(manifest_text(main) =~= t5);
    assert(one_line(l0));
    assert(one_line(l1));
    assert(one_line(l2));
    assert(one_line(l3)) by {
        assert forall|j: int| 0 <= j < l3.len() implies l3[j] != '\n' by {
            if j >= 15 {
                assert(l3[j] == main[j - 15]);
            }
        }
    }
    assert(one_line(l4));
    assert(one_line(l5));
    lemma_single_line(l0);
    lemma_next_line(l0, l1);
    lemma_next_line(t1, l2);
    lemma_next_line(t2, l3);
    lemma_next_line(t3, l4);
    lemma_next_line(t4, l5);
    let d = default_meta();
    lemma_fixed_lines(d);
    lemma_fixed_lines((d.0, "1"@));
    lemma_main_line((d.0, "1"@), main);
    lemma_fixed_lines((main, "1"@));
}

} // verus!
