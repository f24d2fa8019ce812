//! The text that `print` and `to_string` show for a value.
//!
//! Arrays show as `[a, b]`, structs as `Name { f: v, g: w }`. Arrays live in
//! the heap, so showing one follows heap references; `fuel` bounds how deep
//! array nesting may go, which in a heap without cycles is never more than
//! the number of arrays.

use vstd::prelude::*;
use crate::float::Host;
use crate::text::{int_text, int_to_string, owned, push_str};
use crate::value::{values_view, Val, Value, fields_view, lemma_fields_view_index, lemma_fields_view_len};

verus! {

/// Models of the arrays of a heap.
pub open spec fn heap_view(heap: Seq<Vec<Value>>) -> Seq<Seq<Val>> {
    Seq::new(heap.len(), |i: int| values_view(heap[i]@))
}

/// The text of a value. `None` when showing it would follow an array
/// reference that is out of the heap or nested deeper than `fuel` allows.
/// Otherwise the text, and whether the value holds no float: a float's text
/// comes from the host, so the text given here leaves floats out and is the
/// shown text exactly when the flag is set.
pub open spec fn disp(v: Val, heap: Seq<Seq<Val>>, fuel: nat) -> Option<(Seq<char>, bool)>
    decreases fuel, v,
{
    match v {
        Val::Int(n) => Some((int_text(n as int), true)),
        Val::Float(_) => Some((Seq::empty(), false)),
        Val::Bool(b) => Some((if b { "true"@ } else { "false"@ }, true)),
        Val::Str(s) => Some((s, true)),
        Val::Array(h) => if fuel == 0 || h >= heap.len() {
            None
        } else {
            match disp_list(heap[h as int], heap, (fuel - 1) as nat) {
                Some((t, ff)) => Some(("["@ + t + "]"@, ff)),
                None => None,
            }
        },
        Val::Struct(n, fs) => match disp_fields(fs, heap, fuel) {
            Some((t, ff)) => Some((n + " { "@ + t + " }"@, ff)),
            None => None,
        },
    }
}

/// The texts of a list of values, separated by `, `.
pub open spec fn disp_list(vs: Seq<Val>, heap: Seq<Seq<Val>>, fuel: nat) -> Option<(Seq<char>, bool)>
    decreases fuel, vs,
{
    if vs.len() == 0 {
        Some((Seq::empty(), true))
    } else if vs.len() == 1 {
        disp(vs[0], heap, fuel)
    } else {
        match (disp_list(vs.drop_last(), heap, fuel), disp(vs[vs.len() - 1], heap, fuel)) {
            (Some((a, fa)), Some((b, fb))) => Some((a + ", "@ + b, fa && fb)),
            _ => None,
        }
    }
}

/// The texts `name: value` of a list of fields, separated by `, `.
pub open spec fn disp_fields(fs: Seq<(Seq<char>, Val)>, heap: Seq<Seq<Val>>, fuel: nat) -> Option<(Seq<char>, bool)>
    decreases fuel, fs,
{
    if fs.len() == 0 {
        Some((Seq::empty(), true))
    } else {
        let last = fs[fs.len() - 1];
        let one = match disp(last.1, heap, fuel) {
            Some((t, ff)) => Some((last.0 + ": "@ + t, ff)),
            None => None,
        };
        if fs.len() == 1 {
            one
        } else {
            match (disp_fields(fs.drop_last(), heap, fuel), one) {
                (Some((a, fa)), Some((b, fb))) => Some((a + ", "@ + b, fa && fb)),
                _ => None,
            }
        }
    }
}

/// Whether a result of [`disp`] is shown exactly by its text.
pub open spec fn shown_exact(o: Option<(Seq<char>, bool)>) -> bool {
    match o {
        Some((_, ff)) => ff,
        None => false,
    }
}

/// The text of a result of [`disp`].
pub open spec fn shown_text(o: Option<(Seq<char>, bool)>) -> Seq<char> {
    match o {
        Some((t, _)) => t,
        None => Seq::empty(),
    }
}

/// The text of a value, as `print` shows it; `None` when the value reaches
/// an array that is not in the heap or nests deeper than `fuel`.
pub fn display<H: Host>(v: &Value, heap: &Vec<Vec<Value>>, fuel: usize, host: &H) -> (r: Option<String>)
    ensures
        match disp(v.view(), heap_view(heap@), fuel as nat) {
            None => r.is_none(),
            Some((t, ff)) => r.is_some() && (ff ==> r.unwrap()@ == t),
        },
    decreases fuel, v,
{
    match v {
        Value::Int(n) => Some(int_to_string(*n)),
        Value::Float(b) => Some(host.display(*b)),
        Value::Bool(b) => if *b { Some(owned("true")) } else { Some(owned("false")) },
        Value::Str(s) => Some(s.clone()),
        Value::Array(h) => {
            if fuel == 0 || *h >= heap.len() {
                return None;
            }
            let inner = display_list(&heap[*h], heap, fuel - 1, host);
            match inner {
                Some(t) => {
                    let mut s = owned("[");
                    push_str(&mut s, t.as_str());
                    push_str(&mut s, "]");
                    Some(s)
                },
                None => None,
            }
        },
        Value::Struct(sv) => {
            proof {
                assert(decreases_to!(v => sv));
            }
            match display_fields(&sv.fields, heap, fuel, host) {
                Some(t) => {
                    let mut s = sv.name.clone();
                    push_str(&mut s, " { ");
                    push_str(&mut s, t.as_str());
                    push_str(&mut s, " }");
                    Some(s)
                },
                None => None,
            }
        },
    }
}

/// The texts of a list of values, separated by `, `.
pub fn display_list<H: Host>(vs: &Vec<Value>, heap: &Vec<Vec<Value>>, fuel: usize, host: &H) -> (r: Option<String>)
    ensures
        match disp_list(values_view(vs@), heap_view(heap@), fuel as nat) {
            None => r.is_none(),
            Some((t, ff)) => r.is_some() && (ff ==> r.unwrap()@ == t),
        },
    decreases fuel, vs,
{
    let ghost hv = heap_view(heap@);
    let mut s = String::new();
    let mut i: usize = 0;
    proof {
        assert(values_view(vs@.subrange(0, 0)) =~= Seq::<Val>::empty());
    }
    while i < vs.len()
        invariant
            i <= vs.len(),
            hv == heap_view(heap@),
            disp_list(values_view(vs@.subrange(0, i as int)), hv, fuel as nat) is Some,
            shown_exact(disp_list(values_view(vs@.subrange(0, i as int)), hv, fuel as nat))
                ==> s@ == shown_text(disp_list(values_view(vs@.subrange(0, i as int)), hv, fuel as nat)),
        decreases vs.len() - i,
    {
        proof {
            assert(decreases_to!(vs => vs@[i as int]));
        }
        let one = display(&vs[i], heap, fuel, host);
        let ghost pre = values_view(vs@.subrange(0, i as int));
        let ghost post = values_view(vs@.subrange(0, i + 1));
        proof {
            assert(post.drop_last() =~= pre);
            assert(post[post.len() - 1] == vs@[i as int].view());
            if i == 0 {
                assert(post =~= seq![vs@[0].view()]);
            }
        }
        match one {
            Some(t) => {
                if i > 0 {
                    push_str(&mut s, ", ");
                }
                push_str(&mut s, t.as_str());
            },
            None => {
                proof {
                    lemma_disp_list_none_extends(values_view(vs@), hv, fuel as nat, i as int);
                }
                return None;
            },
        }
        i = i + 1;
    }
    proof {
        assert(vs@.subrange(0, vs@.len() as int) =~= vs@);
    }
    Some(s)
}

/// Once an element cannot be shown, the whole list cannot be shown.
pub proof fn lemma_disp_list_none_extends(vs: Seq<Val>, heap: Seq<Seq<Val>>, fuel: nat, i: int)
    requires
        0 <= i < vs.len(),
        disp(vs[i], heap, fuel) is None,
    ensures
        disp_list(vs, heap, fuel) is None,
    decreases vs.len(),
{
    if vs.len() > 1 && i < vs.len() - 1 {
        lemma_disp_list_none_extends(vs.drop_last(), heap, fuel, i);
    }
}

/// Once a field cannot be shown, the whole field list cannot be shown.
pub proof fn lemma_disp_fields_none_extends(fs: Seq<(Seq<char>, Val)>, heap: Seq<Seq<Val>>, fuel: nat, i: int)
    requires
        0 <= i < fs.len(),
        disp(fs[i].1, heap, fuel) is None,
    ensures
        disp_fields(fs, heap, fuel) is None,
    decreases fs.len(),
{
    if fs.len() > 1 && i < fs.len() - 1 {
        lemma_disp_fields_none_extends(fs.drop_last(), heap, fuel, i);
    }
}

/// The texts `name: value` of a list of fields, separated by `, `.
pub fn display_fields<H: Host>(fs: &Vec<(String, Value)>, heap: &Vec<Vec<Value>>, fuel: usize, host: &H) -> (r: Option<String>)
    ensures
        match disp_fields(fields_view(fs@), heap_view(heap@), fuel as nat) {
            None => r.is_none(),
            Some((t, ff)) => r.is_some() && (ff ==> r.unwrap()@ == t),
        },
    decreases fuel, fs,
{
    let ghost hv = heap_view(heap@);
    let mut s = String::new();
    let mut i: usize = 0;
    proof {
        lemma_fields_view_len(fs@);
        assert(fs@.subrange(0, 0) =~= Seq::<(String, Value)>::empty());
    }
    while i < fs.len()
        invariant
            i <= fs.len(),
            hv == heap_view(heap@),
            disp_fields(fields_view(fs@.subrange(0, i as int)), hv, fuel as nat) is Some,
            shown_exact(disp_fields(fields_view(fs@.subrange(0, i as int)), hv, fuel as nat))
                ==> s@ == shown_text(disp_fields(fields_view(fs@.subrange(0, i as int)), hv, fuel as nat)),
        decreases fs.len() - i,
    {
        proof {
            assert(decreases_to!(fs => fs@[i as int]));
            assert(decreases_to!(fs@[i as int] => fs@[i as int].1));
        }
        let one = display(&fs[i].1, heap, fuel, host);
        let ghost pre = fs@.subrange(0, i as int);
        let ghost post = fs@.subrange(0, i + 1);
        proof {
            assert(post.drop_last() =~= pre);
            lemma_fields_view_len(post);
            lemma_fields_view_index(post, i as int);
            assert(post[i as int] == fs@[i as int]);
        }
        match one {
            Some(t) => {
                let ghost s0 = s@;
                if i > 0 {
                    push_str(&mut s, ", ");
                }
                push_str(&mut s, fs[i].0.as_str());
                push_str(&mut s, ": ");
                push_str(&mut s, t.as_str());
                proof {
                    let fvpost = fields_view(post);
                    lemma_fields_view_len(pre);
                    assert(fvpost.drop_last() =~= fields_view(pre));
                    assert(fvpost[fvpost.len() - 1] == (fs@[i as int].0@, fs@[i as int].1.view()));
                    if i > 0 {
                        assert(s@ =~= s0 + ", "@ + (fs@[i as int].0@ + ": "@ + t@));
                    } else {
                        assert(s@ =~= fs@[i as int].0@ + ": "@ + t@);
                    }
                }
            },
            None => {
                proof {
                    lemma_fields_view_len(fs@);
                    lemma_fields_view_index(fs@, i as int);
                    lemma_disp_fields_none_extends(fields_view(fs@), hv, fuel as nat, i as int);
                }
                return None;
            },
        }
        i = i + 1;
    }
    proof {
        assert(fs@.subrange(0, fs@.len() as int) =~= fs@);
    }
    Some(s)
}

} // verus!
