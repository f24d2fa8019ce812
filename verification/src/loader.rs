//! The decisions of multi-file loading: where an import points, whether it
//! closes a cycle, and how the declarations of an imported file join the
//! importing program (flat, or renamed under an alias). Reading files is
//! left to the caller.

use vstd::prelude::*;
use crate::ast::{Ident, ImportItem, Item, Program};
use crate::check::check_program;
use crate::chunk::Module;
use crate::compile::Compiler;
use crate::float::Host;
use crate::parser::{has_parent_segment, parent_segment};
use crate::source::diag;
use crate::text::{owned, push_char, push_str, str_eq};

verus! {

/// The index of the last `c` in `s`.
pub open spec fn last_index_of(s: Seq<char>, c: char) -> Option<int>
    decreases s.len(),
{
    if s.len() == 0 {
        None
    } else if s.last() == c {
        Some(s.len() - 1)
    } else {
        last_index_of(s.drop_last(), c)
    }
}

fn find_last(s: &str, c: char) -> (r: Option<usize>)
    ensures
        match last_index_of(s@, c) {
            Some(k) => r == Some(k as usize),
            None => r is None,
        },
{
    let n = s.unicode_len();
    let mut i = n;
    assert(s@.take(n as int) =~= s@);
    while i > 0
        invariant
            i <= n,
            n == s@.len(),
            last_index_of(s@, c) == last_index_of(s@.take(i as int), c),
        decreases i,
    {
        assert(s@.take(i as int).drop_last() =~= s@.take(i - 1));
        if s.get_char(i - 1) == c {
            return Some(i - 1);
        }
        i = i - 1;
    }
    None
}

/// The directory part of a path: what comes before its last `/` (`/` for a
/// file at the root, empty for a bare file name), or `.` for an empty path.
pub open spec fn parent_dir(p: Seq<char>) -> Seq<char> {
    if p.len() == 0 {
        "."@
    } else {
        match last_index_of(p, '/') {
            None => Seq::empty(),
            Some(k) => if k == 0 { "/"@ } else { p.take(k) },
        }
    }
}

/// `seg` appended to the path `base`, with a `/` between them when needed.
pub open spec fn join_path(base: Seq<char>, seg: Seq<char>) -> Seq<char> {
    if base.len() == 0 {
        seg
    } else if base.last() == '/' {
        base + seg
    } else {
        base + seq!['/'] + seg
    }
}

/// `rel`'s `/`-separated segments appended one by one to `base`.
pub open spec fn join_all(base: Seq<char>, rel: Seq<char>) -> Seq<char>
    decreases rel.len(),
{
    match last_index_of(rel, '/') {
        None => join_path(base, rel),
        Some(k) => {
            proof {
                lemma_last_index(rel, '/');
            }
            join_path(join_all(base, rel.take(k)), rel.skip(k + 1))
        },
    }
}

pub proof fn lemma_last_index(s: Seq<char>, c: char)
    ensures
        last_index_of(s, c) matches Some(k) ==> 0 <= k < s.len() && s[k] == c,
    decreases s.len(),
{
    if s.len() > 0 && s.last() != c {
        lemma_last_index(s.drop_last(), c);
    }
}

fn join(base: &str, seg: &str) -> (r: String)
    ensures
        r@ == join_path(base@, seg@),
{
    let n = base.unicode_len();
    if n == 0 {
        return owned(seg);
    }
    let mut s = owned(base);
    if base.get_char(n - 1) != '/' {
        push_char(&mut s, '/');
    }
    push_str(&mut s, seg);
    s
}

fn join_rel(base: &str, rel: &str) -> (r: String)
    ensures
        r@ == join_all(base@, rel@),
    decreases rel@.len(),
{
    match find_last(rel, '/') {
        None => join(base, rel),
        Some(k) => {
            proof {
                lemma_last_index(rel@, '/');
            }
            let len = rel.unicode_len();
            let head = rel.substring_char(0, k);
            let tail = rel.substring_char(k + 1, len);
            assert(head@ =~= rel@.take(k as int));
            assert(tail@ =~= rel@.skip(k + 1));
            let j = join_rel(base, head);
            join(j.as_str(), tail)
        },
    }
}

/// Where `import rel` in the file `from_file` points: `rel`'s segments
/// under the file's directory. A path with a `..` segment is refused.
pub fn resolve_import(from_file: &str, rel: &str) -> (r: Result<String, String>)
    ensures
        has_parent_segment(rel@) <==> r is Err,
        r matches Ok(p) ==> p@ == join_all(parent_dir(from_file@), rel@),
{
    if parent_segment(rel) {
        let mut m = owned("import 路径不能包含 `..`: ");
        push_str(&mut m, rel);
        return Err(m);
    }
    let n = from_file.unicode_len();
    proof {
        lemma_last_index(from_file@, '/');
    }
    let base: String = if n == 0 {
        owned(".")
    } else {
        match find_last(from_file, '/') {
            None => String::new(),
            Some(k) => if k == 0 { owned("/") } else { owned(from_file.substring_char(0, k)) },
        }
    };
    proof {
        if n > 0 && last_index_of(from_file@, '/') is Some {
            let k = last_index_of(from_file@, '/')->Some_0;
            assert(from_file@.subrange(0, k) =~= from_file@.take(k));
        }
    }
    Ok(join_rel(base.as_str(), rel))
}

/// Whether `canon` is already being loaded, which would close a cycle.
pub fn on_stack(stack: &Vec<String>, canon: &str) -> (r: bool)
    ensures
        r == exists|i: int| 0 <= i < stack@.len() && (#[trigger] stack@[i])@ == canon@,
{
    let mut i: usize = 0;
    while i < stack.len()
        invariant
            i <= stack@.len(),
            forall|k: int| 0 <= k < i ==> (#[trigger] stack@[k])@ != canon@,
        decreases stack@.len() - i,
    {
        if str_eq(stack[i].as_str(), canon) {
            return true;
        }
        i = i + 1;
    }
    false
}

/// What follows the last `.` of a name (the whole name when it has none).
pub open spec fn base_name(n: Seq<char>) -> Seq<char> {
    match last_index_of(n, '.') {
        None => n,
        Some(k) => n.skip(k + 1),
    }
}

fn base_of(n: &str) -> (r: String)
    ensures
        r@ == base_name(n@),
{
    proof {
        lemma_last_index(n@, '.');
    }
    match find_last(n, '.') {
        None => owned(n),
        Some(k) => {
            let len = n.unicode_len();
            let t = n.substring_char(k + 1, len);
            assert(t@ =~= n@.skip(k + 1));
            owned(t)
        },
    }
}

fn dotted(alias: &str, name: &str) -> (r: String)
    ensures
        r@ == alias@ + "."@ + name@,
{
    let mut s = owned(alias);
    push_str(&mut s, ".");
    push_str(&mut s, name);
    s
}

/// Whether an item is a declaration that imports bring along.
pub open spec fn is_decl(it: Item) -> bool {
    it is Struct || it is Const || it is Fun
}

/// The name an imported declaration gets under `alias`: `alias.base` for
/// structs and functions (whose base is what follows the last `.`), and
/// `alias.name` for constants.
pub open spec fn aliased_name(alias: Seq<char>, it: Item) -> Seq<char> {
    match it {
        Item::Struct(s) => alias + "."@ + base_name(s.name.name@),
        Item::Const(c) => alias + "."@ + c.name.name@,
        Item::Fun(f) => alias + "."@ + base_name(f.name.name@),
        _ => Seq::empty(),
    }
}

/// `new` is the declaration `old` renamed under an alias to `name`: only
/// the name changes (and a method becomes a plain function).
pub open spec fn renamed(old: Item, new: Item, name: Seq<char>) -> bool {
    match (old, new) {
        (Item::Struct(s), Item::Struct(t)) => t.name.name@ == name && t.name.span == s.name.span
            && t.fields == s.fields && t.span == s.span,
        (Item::Const(c), Item::Const(d)) => d.name.name@ == name && d.name.span == c.name.span
            && d.ty == c.ty && d.value == c.value && d.span == c.span,
        (Item::Fun(f), Item::Fun(g)) => g.name.name@ == name && g.name.span == f.name.span
            && g.on_type is None && g.params == f.params && g.ret == f.ret && g.body == f.body && g.span == f.span,
        _ => false,
    }
}

/// The name a declaration item declares.
pub open spec fn decl_name(it: Item) -> Seq<char> {
    match it {
        Item::Struct(s) => s.name.name@,
        Item::Const(c) => c.name.name@,
        Item::Fun(f) => f.name.name@,
        _ => Seq::empty(),
    }
}

/// The declarations of an imported file, in order.
pub open spec fn decls_of(items: Seq<Item>) -> Seq<Item>
    decreases items.len(),
{
    if items.len() == 0 {
        Seq::empty()
    } else if is_decl(items.last()) {
        decls_of(items.drop_last()).push(items.last())
    } else {
        decls_of(items.drop_last())
    }
}

/// The declarations that an import brings along are exactly the struct,
/// const and fun items of the imported file, in their order.
pub proof fn law_decls_are_declarations(sub: Seq<Item>)
    ensures
        decls_of(sub) == sub.filter(|it: Item| it is Struct || it is Const || it is Fun),
    decreases sub.len(),
{
    reveal(Seq::filter);
    if sub.len() > 0 {
        law_decls_are_declarations(sub.drop_last());
    }
}

/// A flat import joins every struct, const and fun declaration of the
/// imported file, in order, after the items that were already there, and
/// nothing else.
pub proof fn law_flat_import(out: Seq<Item>, sub: Seq<Item>, new: Seq<Item>)
    requires
        joined(out, sub, None, new),
    ensures
        new == out + sub.filter(|it: Item| it is Struct || it is Const || it is Fun),
        forall|k: int| 0 <= k < sub.len() && (sub[k] is Struct || sub[k] is Const || sub[k] is Fun)
            ==> #[trigger] new.contains(sub[k]),
{
    law_decls_are_declarations(sub);
    let ds = decls_of(sub);
    assert(new =~= out + ds) by {
        assert forall|i: int| 0 <= i < new.len() implies new[i] == (out + ds)[i] by {
            if i >= out.len() {
                assert(new[out.len() + (i - out.len())] == ds[i - out.len()]);
            }
        }
    }
    assert forall|k: int| 0 <= k < sub.len() && (sub[k] is Struct || sub[k] is Const || sub[k] is Fun)
        implies #[trigger] new.contains(sub[k]) by {
        lemma_decl_listed(sub, k);
        let j = choose|j: int| 0 <= j < ds.len() && ds[j] == sub[k];
        assert(new[out.len() + j] == sub[k]);
    }
}

/// An import under an alias also keeps what was there and joins one item
/// for each struct, const and fun declaration of the imported file, in
/// order, of the same kind, named `alias.` and the declaration's name (a
/// struct's or function's name after its last `.`).
pub proof fn law_aliased_import(out: Seq<Item>, sub: Seq<Item>, alias: Ident, new: Seq<Item>)
    requires
        joined(out, sub, Some(alias), new),
    ensures
        ({
            let ds = sub.filter(|it: Item| it is Struct || it is Const || it is Fun);
            &&& new.len() == out.len() + ds.len()
            &&& new.subrange(0, out.len() as int) == out
            &&& forall|i: int| 0 <= i < ds.len() ==> {
                let (d, n) = (ds[i], #[trigger] new[out.len() + i]);
                &&& (d is Struct ==> n is Struct) && (d is Const ==> n is Const) && (d is Fun ==> n is Fun)
                &&& decl_name(n) == alias.name@ + "."@ + match d {
                    Item::Const(k) => k.name.name@,
                    Item::Struct(k) => base_name(k.name.name@),
                    Item::Fun(k) => base_name(k.name.name@),
                    _ => Seq::empty(),
                }
            }
        }),
{
    law_decls_are_declarations(sub);
    assert(new.subrange(0, out.len() as int) =~= out);
}

/// Each declaration of `sub` is among `decls_of(sub)`.
proof fn lemma_decl_listed(sub: Seq<Item>, k: int)
    requires
        0 <= k < sub.len(),
        sub[k] is Struct || sub[k] is Const || sub[k] is Fun,
    ensures
        exists|j: int| 0 <= j < decls_of(sub).len() && decls_of(sub)[j] == sub[k],
    decreases sub.len(),
{
    if k == sub.len() - 1 {
        let j = decls_of(sub).len() - 1;
        assert(decls_of(sub)[j] == sub[k]);
    } else {
        lemma_decl_listed(sub.drop_last(), k);
        let j = choose|j: int| 0 <= j < decls_of(sub.drop_last()).len() && decls_of(sub.drop_last())[j] == sub.drop_last()[k];
        assert(decls_of(sub)[j] == sub[k]);
    }
}

/// Joins the declarations of an imported file (`sub`) to `out`. Without an
/// alias they keep their names; with one they are renamed under it, and a
/// method becomes a plain function. Other items of `sub` are dropped.
pub fn merge_import(out: &mut Vec<Item>, sub: Vec<Item>, alias: &Option<Ident>)
    ensures
        final(out)@.len() == old(out)@.len() + decls_of(sub@).len(),
        forall|i: int| 0 <= i < old(out)@.len() ==> final(out)@[i] == old(out)@[i],
        forall|i: int| 0 <= i < decls_of(sub@).len() ==> match alias {
            None => (#[trigger] final(out)@[old(out)@.len() + i]) == decls_of(sub@)[i],
            Some(a) => decl_name(#[trigger] final(out)@[old(out)@.len() + i])
                == aliased_name(a.name@, decls_of(sub@)[i])
                && renamed(decls_of(sub@)[i], final(out)@[old(out)@.len() + i], aliased_name(a.name@, decls_of(sub@)[i])),
        },
{
    let ghost start = out@.len();
    let ghost all = sub@;
    let mut sub = sub;
    let ghost mut k: int = 0;
    while sub.len() > 0
        invariant
            0 <= k <= all.len(),
            sub@ == all.skip(k),
            old(out)@.len() == start,
            out@.len() == start + decls_of(all.take(k)).len(),
            forall|i: int| 0 <= i < start ==> out@[i] == old(out)@[i],
            forall|i: int| 0 <= i < decls_of(all.take(k)).len() ==> match alias {
                None => (#[trigger] out@[start + i]) == decls_of(all.take(k))[i],
                Some(a) => decl_name(#[trigger] out@[start + i])
                    == aliased_name(a.name@, decls_of(all.take(k))[i])
                    && renamed(decls_of(all.take(k))[i], out@[start + i], aliased_name(a.name@, decls_of(all.take(k))[i])),
            },
        decreases sub@.len(),
    {
        let it = sub.remove(0);
        proof {
            assert(it == all[k]);
            assert(all.take(k + 1).drop_last() =~= all.take(k));
            assert(all.take(k + 1).last() == all[k]);
            assert(sub@ =~= all.skip(k + 1));
        }
        let ghost before = out@;
        match it {
            Item::Struct(mut s) => {
                match alias {
                    None => {},
                    Some(a) => {
                        let b = base_of(s.name.name.as_str());
                        s.name.name = dotted(a.name.as_str(), b.as_str());
                    },
                }
                out.push(Item::Struct(s));
            },
            Item::Const(mut c) => {
                match alias {
                    None => {},
                    Some(a) => {
                        c.name.name = dotted(a.name.as_str(), c.name.name.as_str());
                    },
                }
                out.push(Item::Const(c));
            },
            Item::Fun(mut f) => {
                match alias {
                    None => {},
                    Some(a) => {
                        let b = base_of(f.name.name.as_str());
                        f.name.name = dotted(a.name.as_str(), b.as_str());
                        f.on_type = None;
                    },
                }
                out.push(Item::Fun(f));
            },
            _ => {},
        }
        proof {
            k = k + 1;
        }
    }
    assert(all.take(all.len() as int) =~= all);
}

fn copy_ident(i: &Ident) -> (r: Ident)
    ensures
        r.name@ == i.name@,
        r.span == i.span,
{
    Ident { name: i.name.clone(), span: i.span }
}

/// The imports among the first `n` items, in order.
pub open spec fn imports_in(items: Seq<Item>, n: nat) -> Seq<ImportItem>
    decreases n,
{
    if n == 0 || n > items.len() {
        Seq::empty()
    } else {
        let s = imports_in(items, (n - 1) as nat);
        match items[n - 1] {
            Item::Import(imp) => s.push(imp),
            _ => s,
        }
    }
}

/// The items but the imports among the first `n` items, in order.
pub open spec fn own_items(items: Seq<Item>, n: nat) -> Seq<Item>
    decreases n,
{
    if n == 0 || n > items.len() {
        Seq::empty()
    } else {
        let s = own_items(items, (n - 1) as nat);
        match items[n - 1] {
            Item::Import(_) => s,
            it => s.push(it),
        }
    }
}

/// The same import: path, alias and place.
pub open spec fn same_import(a: ImportItem, b: ImportItem) -> bool {
    &&& a.path@ == b.path@
    &&& a.span == b.span
    &&& match (a.alias, b.alias) {
        (Some(x), Some(y)) => x.name@ == y.name@ && x.span == y.span,
        (None, None) => true,
        _ => false,
    }
}

/// The imports of a program, in order.
pub fn imports_of(program: &Program) -> (r: Vec<ImportItem>)
    ensures
        r@.len() == imports_in(program.items@, program.items@.len()).len(),
        forall|k: int| 0 <= k < r@.len()
            ==> same_import(#[trigger] r@[k], imports_in(program.items@, program.items@.len())[k]),
{
    let ghost items = program.items@;
    let mut out: Vec<ImportItem> = Vec::new();
    let mut i: usize = 0;
    while i < program.items.len()
        invariant
            i <= program.items@.len(),
            items == program.items@,
            out@.len() == imports_in(items, i as nat).len(),
            forall|k: int| 0 <= k < out@.len() ==> same_import(#[trigger] out@[k], imports_in(items, i as nat)[k]),
        decreases program.items@.len() - i,
    {
        match &program.items[i] {
            Item::Import(imp) => {
                let alias = match &imp.alias {
                    Some(a) => Some(copy_ident(a)),
                    None => None,
                };
                let ghost before = out@;
                out.push(ImportItem { path: imp.path.clone(), alias, span: imp.span });
                assert forall|k: int| 0 <= k < out@.len()
                    implies same_import(#[trigger] out@[k], imports_in(items, (i + 1) as nat)[k]) by {
                    if k < before.len() {
                        assert(out@[k] == before[k]);
                    }
                }
            },
            _ => {},
        }
        i = i + 1;
    }
    out
}

/// Moves the items of a loaded file, but its imports, to the end of `out`.
pub fn merge_own(out: &mut Vec<Item>, program: Program)
    ensures
        final(out)@ == old(out)@ + own_items(program.items@, program.items@.len()),
{
    let ghost items = program.items@;
    let mut items_v = program.items;
    let mut rev: Vec<Item> = Vec::new();
    while items_v.len() > 0
        invariant
            rev@.len() + items_v@.len() == items.len(),
            items_v@ == items.take(items_v@.len() as int),
            forall|k: int| 0 <= k < rev@.len() ==> #[trigger] rev@[k] == items[items.len() - 1 - k],
        decreases items_v@.len(),
    {
        let ghost n = items_v@.len();
        let it = items_v.pop().unwrap();
        rev.push(it);
        assert(items_v@ =~= items.take(n - 1));
    }
    let ghost n0 = out@;
    while rev.len() > 0
        invariant
            rev@.len() <= items.len(),
            forall|k: int| 0 <= k < rev@.len() ==> #[trigger] rev@[k] == items[items.len() - 1 - k],
            out@ == n0 + own_items(items, (items.len() - rev@.len()) as nat),
            n0 == old(out)@,
        decreases rev@.len(),
    {
        let ghost m = items.len() - rev@.len();
        let it = rev.pop().unwrap();
        assert(it == items[m]);
        match it {
            Item::Import(_) => {},
            other => {
                out.push(other);
            },
        }
        assert(out@ =~= n0 + own_items(items, (m + 1) as nat));
    }
}

/// A cycle of imports through `path`.
pub fn cycle_error(path: &str) -> (s: String)
    ensures
        s@ == "循环 import: "@ + path@,
{
    let mut s = owned("循环 import: ");
    push_str(&mut s, path);
    s
}

/// An import of `file` (at `line`) whose target does not exist.
pub fn unresolved_error(file: &str, line: u32, rel: &str) -> (s: String)
    ensures
        s@ == file@ + ":"@ + crate::text::int_text(line as int) + ": cannot resolve import `"@ + rel@ + "`"@,
{
    let mut s = owned(file);
    push_str(&mut s, ":");
    let l = crate::text::uint_to_string(line as u64);
    push_str(&mut s, l.as_str());
    push_str(&mut s, ": cannot resolve import `");
    push_str(&mut s, rel);
    push_str(&mut s, "`");
    s
}

/// A file being loaded: its path as shown, its canonical path, its imports
/// and how many of them are joined, the items joined so far, and its
/// program.
pub struct LoadFrame {
    pub file: String,
    pub canon: String,
    pub imports: Vec<ImportItem>,
    pub next: usize,
    pub out: Vec<Item>,
    pub program: Program,
}

/// The state of loading a program and the files it imports, depth first:
/// the files being loaded, innermost last, and the file to open next (with
/// the import that names it, if any).
pub struct Loader {
    pub frames: Vec<LoadFrame>,
    pub pending: String,
    pub pending_canon: String,
    pub pending_import: Option<(String, u32, String)>,
}

/// What the caller does next.
pub enum LoadAction {
    /// Open the file at this path and report whether it exists and its
    /// canonical path (`on_opened`).
    Open(String),
    /// Read the text of the opened file (`on_read`).
    Read(String),
    /// Take the next step (`advance`).
    Step,
    /// All files are loaded: the program's items.
    Done(Vec<Item>),
    /// Loading failed with this diagnostic.
    Fail(String),
}

/// The canonical paths of the files being loaded.
pub open spec fn frame_canons(fs: Seq<LoadFrame>) -> Seq<Seq<char>> {
    Seq::new(fs.len(), |i: int| fs[i].canon@)
}

/// `new` is `out` with the declarations of `sub` joined as `merge_import`
/// joins them under `alias`.
pub open spec fn joined(out: Seq<Item>, sub: Seq<Item>, alias: Option<Ident>, new: Seq<Item>) -> bool {
    &&& new.len() == out.len() + decls_of(sub).len()
    &&& forall|i: int| 0 <= i < out.len() ==> new[i] == out[i]
    &&& forall|i: int| 0 <= i < decls_of(sub).len() ==> match alias {
        None => (#[trigger] new[out.len() + i]) == decls_of(sub)[i],
        Some(a) => decl_name(#[trigger] new[out.len() + i]) == aliased_name(a.name@, decls_of(sub)[i])
            && renamed(decls_of(sub)[i], new[out.len() + i], aliased_name(a.name@, decls_of(sub)[i])),
    }
}

impl Loader {
    /// Loading starts by opening the program's file `root`.
    pub fn new(root: String) -> (r: (Loader, LoadAction))
        ensures
            r.0.frames@.len() == 0,
            r.0.pending@ == root@,
            r.0.pending_import is None,
            r.1 matches LoadAction::Open(p) && p@ == root@,
    {
        let p = root.clone();
        (Loader { frames: Vec::new(), pending: root, pending_canon: owned(""), pending_import: None }, LoadAction::Open(p))
    }

    /// The file to open was found (`exists`) under the canonical path
    /// `canon`. An import whose file does not exist fails; a file that is
    /// already being loaded closes a cycle and fails; else it is read.
    pub fn on_opened(&mut self, exists: bool, canon: String) -> (r: LoadAction)
        ensures
            final(self).frames == old(self).frames,
            final(self).pending == old(self).pending,
            final(self).pending_import == old(self).pending_import,
            match old(self).pending_import {
                Some((file, line, rel)) => !exists ==> (r matches LoadAction::Fail(e)
                    && e@ == (file@ + ":"@ + crate::text::int_text(line as int) + ": cannot resolve import `"@ + rel@ + "`"@)),
                None => true,
            },
            (old(self).pending_import is None || exists) ==> if frame_canons(old(self).frames@).contains(canon@) {
                r matches LoadAction::Fail(e) && e@ == ("循环 import: "@ + old(self).pending@)
            } else {
                r matches LoadAction::Read(p) && p@ == old(self).pending@ && final(self).pending_canon@ == canon@
            },
    {
        match &self.pending_import {
            Some((file, line, rel)) => {
                if !exists {
                    return LoadAction::Fail(unresolved_error(file.as_str(), *line, rel.as_str()));
                }
            },
            None => {},
        }
        let mut i: usize = 0;
        while i < self.frames.len()
            invariant
                i <= self.frames@.len(),
                forall|k: int| 0 <= k < i ==> (#[trigger] self.frames@[k]).canon@ != canon@,
                *self == *old(self),
                old(self).pending_import is Some ==> exists,
            decreases self.frames@.len() - i,
        {
            if str_eq(self.frames[i].canon.as_str(), canon.as_str()) {
                assert(frame_canons(self.frames@)[i as int] == canon@);
                return LoadAction::Fail(cycle_error(self.pending.as_str()));
            }
            i = i + 1;
        }
        assert(!frame_canons(self.frames@).contains(canon@)) by {
            assert forall|k: int| 0 <= k < self.frames@.len() implies frame_canons(self.frames@)[k] != canon@ by {
                assert(self.frames@[k].canon@ != canon@);
            }
        }
        self.pending_canon = canon;
        LoadAction::Read(self.pending.clone())
    }

    /// The opened file reads as `src`: it fails to parse, or it is loaded
    /// next, as a new innermost file with none of its imports joined.
    pub fn on_read(&mut self, src: &str) -> (r: LoadAction)
        ensures
            r matches LoadAction::Fail(_) ==> final(self).frames == old(self).frames,
            !(r matches LoadAction::Fail(_)) ==> r is Step && final(self).frames@.len() == old(self).frames@.len() + 1
                && final(self).frames@.drop_last() == old(self).frames@
                && final(self).frames@.last().file@ == old(self).pending@
                && final(self).frames@.last().canon@ == old(self).pending_canon@
                && final(self).frames@.last().next == 0
                && final(self).frames@.last().out@.len() == 0
                && crate::source::source_reads(src@, final(self).frames@.last().program)
                && final(self).frames@.last().imports@.len() == imports_in(final(self).frames@.last().program.items@,
                    final(self).frames@.last().program.items@.len()).len(),
    {
        let program = match crate::source::parse(src, self.pending.as_str()) {
            Ok(p) => p,
            Err(e) => return LoadAction::Fail(e),
        };
        let imports = imports_of(&program);
        let ghost before = self.frames@;
        self.frames.push(LoadFrame {
            file: self.pending.clone(),
            canon: self.pending_canon.clone(),
            imports,
            next: 0,
            out: Vec::new(),
            program,
        });
        assert(self.frames@.drop_last() =~= before);
        LoadAction::Step
    }

    /// One step of loading: the innermost file opens its next import (an
    /// import with a `..` segment fails); or, with all its imports joined,
    /// it is done: its own items follow what its imports gave, and that is
    /// the program when it is the outermost file, else it is joined to the
    /// file that imports it, as that import says.
    pub fn advance(&mut self) -> (r: LoadAction)
        requires
            old(self).frames@.len() > 0,
            old(self).frames@.last().next <= old(self).frames@.last().imports@.len(),
        ensures
            ({
                let top = old(self).frames@.last();
                if top.next < top.imports@.len() {
                    let imp = top.imports@[top.next as int];
                    &&& final(self).frames == old(self).frames
                    &&& has_parent_segment(imp.path@) <==> r is Fail
                    &&& !has_parent_segment(imp.path@) ==> (r matches LoadAction::Open(p)
                        && p@ == join_all(parent_dir(top.file@), imp.path@)
                        && final(self).pending@ == p@)
                    &&& !has_parent_segment(imp.path@) ==> (final(self).pending_import matches Some((f, l, rel))
                        && f@ == top.file@ && l == imp.span.line && rel@ == imp.path@)
                } else {
                    let own = top.out@ + own_items(top.program.items@, top.program.items@.len());
                    if old(self).frames@.len() == 1 {
                        r matches LoadAction::Done(items) && items@ == own
                    } else {
                        let fs = old(self).frames@.drop_last();
                        let parent = fs.last();
                        &&& r is Step
                        &&& final(self).frames@.len() == fs.len()
                        &&& final(self).frames@.drop_last() == fs.drop_last()
                        &&& final(self).frames@.last().file == parent.file
                        &&& final(self).frames@.last().canon == parent.canon
                        &&& final(self).frames@.last().imports == parent.imports
                        &&& final(self).frames@.last().program == parent.program
                        &&& parent.next < parent.imports@.len() ==> final(self).frames@.last().next == parent.next + 1
                            && joined(parent.out@, own, parent.imports@[parent.next as int].alias,
                                final(self).frames@.last().out@)
                    }
                }
            }),
    {
        let n = self.frames.len();
        let top_next = self.frames[n - 1].next;
        if top_next < self.frames[n - 1].imports.len() {
            let file = self.frames[n - 1].file.clone();
            let path = self.frames[n - 1].imports[top_next].path.clone();
            let line = self.frames[n - 1].imports[top_next].span.line;
            return match resolve_import(file.as_str(), path.as_str()) {
                Ok(target) => {
                    self.pending = target.clone();
                    self.pending_import = Some((file, line, path));
                    LoadAction::Open(target)
                },
                Err(e) => LoadAction::Fail(e),
            };
        }
        let ghost fs0 = self.frames@;
        let top = self.frames.pop().unwrap();
        let mut own = top.out;
        merge_own(&mut own, top.program);
        if self.frames.len() == 0 {
            return LoadAction::Done(own);
        }
        let ghost fs1 = self.frames@;
        let mut parent = self.frames.pop().unwrap();
        if parent.next < parent.imports.len() {
            let k = parent.next;
            merge_import(&mut parent.out, own, &parent.imports[k].alias);
            parent.next = k + 1;
        }
        self.frames.push(parent);
        assert(self.frames@.drop_last() =~= fs1.drop_last());
        LoadAction::Step
    }
}

/// Checks and compiles the merged items of a program loaded from `label`;
/// errors are diagnostics of `label`.
pub fn compile_items<H: Host>(label: &str, items: Vec<Item>, host: &H) -> (r: Result<Module, String>)
    ensures
        r matches Ok(m) ==> crate::compile::compiled_shape(items@, m),
        r matches Ok(m) ==> exists|cs: Seq<(String, crate::value::Value)>| #[trigger] crate::check::checked_consts(items@, cs)
            && crate::compile::compiled_code(items@, cs, m),
        r is Ok ==> crate::check::program_ok(items@),
        r matches Err(e) ==> exists|l: u32, c: u32, msg: Seq<char>| #[trigger] crate::source::diag_text(label@, l, c, msg) == e@,
{
    let program = Program { items };
    let consts = match check_program(&program, host) {
        Ok(c) => c,
        Err(e) => return Err(diag(label, e.span.line, e.span.col, e.message.as_str())),
    };
    match Compiler::compile(&program, consts, host) {
        Ok(m) => Ok(m),
        Err(e) => Err(diag(label, e.line, e.col, e.message.as_str())),
    }
}

} // verus!
