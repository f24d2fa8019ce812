//! Reading back what was written: the bytes of a module decode to the same
//! module.

use vstd::prelude::*;
use vstd::utf8::{decode_utf8, encode_utf8, encode_utf8_decode_utf8, encode_utf8_valid_utf8};
use crate::chunk::{u16_bytes, FunctionV, ModuleV, StructTypeV};
use crate::lgb_format::{
    concat_map, const_fits, enc_const, enc_const_fn, enc_function, enc_function_fn, enc_module,
    enc_str, enc_str_fn, enc_struct, enc_struct_fn, function_fits, le_u32, le_u64, magic_bytes,
    module_fits, rd_bytes, rd_const, rd_consts, rd_function, rd_functions, rd_module, rd_str,
    rd_strs, rd_struct, rd_structs, rd_u16, rd_u32, rd_u32s, rd_u64, rd_u8, str_fits, struct_fits,
    u32_bytes, u32_bytes_fn, u64_bytes, FORMAT_VERSION, NO_MAIN,
};
use crate::value::Val;

verus! {

/// `b` holds `s` at `p`.
pub open spec fn holds_at(b: Seq<u8>, p: int, s: Seq<u8>) -> bool {
    0 <= p && p + s.len() <= b.len() && b.subrange(p, p + s.len()) == s
}

proof fn lemma_holds_split(b: Seq<u8>, p: int, s: Seq<u8>, t: Seq<u8>)
    requires
        holds_at(b, p, s + t),
    ensures
        holds_at(b, p, s),
        holds_at(b, p + s.len(), t),
{
    let w = b.subrange(p, p + (s + t).len());
    assert(w == s + t);
    assert(b.subrange(p, p + s.len()) =~= w.subrange(0, s.len() as int));
    assert(w.subrange(0, s.len() as int) =~= s);
    assert(b.subrange(p + s.len(), p + s.len() + t.len()) =~= w.subrange(s.len() as int, w.len() as int));
    assert(w.subrange(s.len() as int, w.len() as int) =~= t);
}

proof fn lemma_holds_index(b: Seq<u8>, p: int, s: Seq<u8>, i: int)
    requires
        holds_at(b, p, s),
        0 <= i < s.len(),
    ensures
        b[p + i] == s[i],
{
    assert(b.subrange(p, p + s.len())[i] == b[p + i]);
}

proof fn lemma_rd_u16(b: Seq<u8>, p: int, n: u16)
    requires
        holds_at(b, p, u16_bytes(n)),
    ensures
        rd_u16(b, p) == Some((n, p + 2)),
{
    lemma_holds_index(b, p, u16_bytes(n), 0);
    lemma_holds_index(b, p, u16_bytes(n), 1);
}

proof fn lemma_rd_u8(b: Seq<u8>, p: int, x: u8)
    requires
        holds_at(b, p, seq![x]),
    ensures
        rd_u8(b, p) == Some((x, p + 1)),
{
    lemma_holds_index(b, p, seq![x], 0);
}

proof fn lemma_u32_le(n: u32)
    ensures
        le_u32(n as u8, (n >> 8u32) as u8, (n >> 16u32) as u8, (n >> 24u32) as u8) == n,
{
    assert(((n as u8) as u32) | ((((n >> 8u32) as u8) as u32) << 8u32) | ((((n >> 16u32) as u8) as u32) << 16u32)
        | ((((n >> 24u32) as u8) as u32) << 24u32) == n) by (bit_vector);
}

proof fn lemma_rd_u32(b: Seq<u8>, p: int, n: u32)
    requires
        holds_at(b, p, u32_bytes(n)),
    ensures
        rd_u32(b, p) == Some((n, p + 4)),
{
    lemma_holds_index(b, p, u32_bytes(n), 0);
    lemma_holds_index(b, p, u32_bytes(n), 1);
    lemma_holds_index(b, p, u32_bytes(n), 2);
    lemma_holds_index(b, p, u32_bytes(n), 3);
    lemma_u32_le(n);
}

proof fn lemma_u64_le(n: u64)
    ensures
        le_u64(u64_bytes(n)) == n,
{
    let s = u64_bytes(n);
    assert(le_u64(s) == ((n as u8) as u64) | ((((n >> 8u64) as u8) as u64) << 8u64)
        | ((((n >> 16u64) as u8) as u64) << 16u64) | ((((n >> 24u64) as u8) as u64) << 24u64)
        | ((((n >> 32u64) as u8) as u64) << 32u64) | ((((n >> 40u64) as u8) as u64) << 40u64)
        | ((((n >> 48u64) as u8) as u64) << 48u64) | ((((n >> 56u64) as u8) as u64) << 56u64));
    assert(((n as u8) as u64) | ((((n >> 8u64) as u8) as u64) << 8u64)
        | ((((n >> 16u64) as u8) as u64) << 16u64) | ((((n >> 24u64) as u8) as u64) << 24u64)
        | ((((n >> 32u64) as u8) as u64) << 32u64) | ((((n >> 40u64) as u8) as u64) << 40u64)
        | ((((n >> 48u64) as u8) as u64) << 48u64) | ((((n >> 56u64) as u8) as u64) << 56u64) == n)
        by (bit_vector);
}

proof fn lemma_rd_u64(b: Seq<u8>, p: int, n: u64)
    requires
        holds_at(b, p, u64_bytes(n)),
    ensures
        rd_u64(b, p) == Some((n, p + 8)),
{
    assert(b.subrange(p, p + 8) == u64_bytes(n));
    lemma_u64_le(n);
}

proof fn lemma_rd_bytes(b: Seq<u8>, p: int, s: Seq<u8>)
    requires
        holds_at(b, p, s),
    ensures
        rd_bytes(b, p, s.len() as int) == Some((s, p + s.len())),
{
}

proof fn lemma_rd_str(b: Seq<u8>, p: int, s: Seq<char>)
    requires
        str_fits(s),
        holds_at(b, p, enc_str(s)),
    ensures
        rd_str(b, p) == Some((s, p + enc_str(s).len())),
{
    let e = encode_utf8(s);
    let n = e.len() as u16;
    lemma_holds_split(b, p, u16_bytes(n), e);
    lemma_rd_u16(b, p, n);
    assert(n as int == e.len());
    lemma_rd_bytes(b, p + 2, e);
    encode_utf8_valid_utf8(s);
    encode_utf8_decode_utf8(s);
}

proof fn lemma_int_bits(n: i64)
    ensures
        ((n as u64) as i64) == n,
{
    assert(((n as u64) as i64) == n) by (bit_vector);
}

proof fn lemma_rd_const(b: Seq<u8>, p: int, v: Val)
    requires
        const_fits(v),
        holds_at(b, p, enc_const(v)),
    ensures
        rd_const(b, p) == Some((v, p + enc_const(v).len())),
{
    match v {
        Val::Int(n) => {
            lemma_holds_split(b, p, seq![0u8], u64_bytes(n as u64));
            lemma_rd_u8(b, p, 0u8);
            lemma_rd_u64(b, p + 1, n as u64);
            lemma_int_bits(n);
        },
        Val::Float(x) => {
            lemma_holds_split(b, p, seq![1u8], u64_bytes(x));
            lemma_rd_u8(b, p, 1u8);
            lemma_rd_u64(b, p + 1, x);
        },
        Val::Bool(x) => {
            let t: u8 = if x { 1u8 } else { 0u8 };
            assert(enc_const(v) =~= seq![2u8] + seq![t]);
            lemma_holds_split(b, p, seq![2u8], seq![t]);
            lemma_rd_u8(b, p, 2u8);
            lemma_rd_u8(b, p + 1, t);
        },
        Val::Str(s) => {
            lemma_holds_split(b, p, seq![3u8], enc_str(s));
            lemma_rd_u8(b, p, 3u8);
            lemma_rd_str(b, p + 1, s);
        },
        _ => {},
    }
}

proof fn lemma_rd_consts(b: Seq<u8>, p: int, vs: Seq<Val>)
    requires
        forall|i: int| 0 <= i < vs.len() ==> const_fits(#[trigger] vs[i]),
        holds_at(b, p, concat_map(vs, enc_const_fn())),
    ensures
        rd_consts(b, p, vs.len()) == Some((vs, p + concat_map(vs, enc_const_fn()).len())),
    decreases vs.len(),
{
    if vs.len() > 0 {
        let d = vs.drop_last();
        let x = vs.last();
        lemma_holds_split(b, p, concat_map(d, enc_const_fn()), enc_const(x));
        assert forall|i: int| 0 <= i < d.len() implies const_fits(#[trigger] d[i]) by {
            assert(d[i] == vs[i]);
        }
        lemma_rd_consts(b, p, d);
        assert((vs.len() - 1) as nat == d.len());
        lemma_rd_const(b, p + concat_map(d, enc_const_fn()).len(), x);
        assert(d.push(x) =~= vs);
    } else {
        assert(vs =~= Seq::<Val>::empty());
    }
}

proof fn lemma_rd_strs(b: Seq<u8>, p: int, vs: Seq<Seq<char>>)
    requires
        forall|i: int| 0 <= i < vs.len() ==> str_fits(#[trigger] vs[i]),
        holds_at(b, p, concat_map(vs, enc_str_fn())),
    ensures
        rd_strs(b, p, vs.len()) == Some((vs, p + concat_map(vs, enc_str_fn()).len())),
    decreases vs.len(),
{
    if vs.len() > 0 {
        let d = vs.drop_last();
        let x = vs.last();
        lemma_holds_split(b, p, concat_map(d, enc_str_fn()), enc_str(x));
        assert forall|i: int| 0 <= i < d.len() implies str_fits(#[trigger] d[i]) by {
            assert(d[i] == vs[i]);
        }
        lemma_rd_strs(b, p, d);
        assert((vs.len() - 1) as nat == d.len());
        lemma_rd_str(b, p + concat_map(d, enc_str_fn()).len(), x);
        assert(d.push(x) =~= vs);
    } else {
        assert(vs =~= Seq::<Seq<char>>::empty());
    }
}

proof fn lemma_rd_u32s(b: Seq<u8>, p: int, vs: Seq<u32>)
    requires
        holds_at(b, p, concat_map(vs, u32_bytes_fn())),
    ensures
        rd_u32s(b, p, vs.len()) == Some((vs, p + concat_map(vs, u32_bytes_fn()).len())),
    decreases vs.len(),
{
    if vs.len() > 0 {
        let d = vs.drop_last();
        let x = vs.last();
        lemma_holds_split(b, p, concat_map(d, u32_bytes_fn()), u32_bytes(x));
        lemma_rd_u32s(b, p, d);
        assert((vs.len() - 1) as nat == d.len());
        lemma_rd_u32(b, p + concat_map(d, u32_bytes_fn()).len(), x);
        assert(d.push(x) =~= vs);
    } else {
        assert(vs =~= Seq::<u32>::empty());
    }
}

proof fn lemma_rd_struct(b: Seq<u8>, p: int, st: StructTypeV)
    requires
        struct_fits(st),
        holds_at(b, p, enc_struct(st)),
    ensures
        rd_struct(b, p) == Some((st, p + enc_struct(st).len())),
{
    let a = enc_str(st.name);
    let n = st.fields.len() as u16;
    let c = concat_map(st.fields, enc_str_fn());
    lemma_holds_split(b, p, a + u16_bytes(n), c);
    lemma_holds_split(b, p, a, u16_bytes(n));
    lemma_rd_str(b, p, st.name);
    lemma_rd_u16(b, p + a.len(), n);
    lemma_rd_strs(b, p + a.len() + 2, st.fields);
    assert(n as nat == st.fields.len());
}

/// A function whose line table is as long as its code, or empty.
pub open spec fn lines_ok(f: FunctionV) -> bool {
    f.chunk.lines.len() == 0 || f.chunk.lines.len() == f.chunk.code.len()
}

proof fn lemma_rd_function(b: Seq<u8>, p: int, f: FunctionV)
    requires
        function_fits(f),
        lines_ok(f),
        holds_at(b, p, enc_function(f)),
    ensures
        rd_function(b, p) == Some((f, p + enc_function(f).len())),
{
    let e0 = enc_str(f.name);
    let e1 = seq![f.arity, if f.is_void { 1u8 } else { 0u8 }];
    let e2 = u16_bytes(f.locals);
    let nc = f.chunk.constants.len() as u16;
    let e3 = u16_bytes(nc);
    let e4 = concat_map(f.chunk.constants, enc_const_fn());
    let cl = f.chunk.code.len() as u32;
    let e5 = u32_bytes(cl);
    let e6 = f.chunk.code;
    let ll = f.chunk.lines.len() as u32;
    let e7 = u32_bytes(ll);
    let e8 = concat_map(f.chunk.lines, u32_bytes_fn());
    assert(enc_function(f) == e0 + e1 + e2 + e3 + e4 + e5 + e6 + e7 + e8);
    lemma_holds_split(b, p, e0 + e1 + e2 + e3 + e4 + e5 + e6 + e7, e8);
    lemma_holds_split(b, p, e0 + e1 + e2 + e3 + e4 + e5 + e6, e7);
    lemma_holds_split(b, p, e0 + e1 + e2 + e3 + e4 + e5, e6);
    lemma_holds_split(b, p, e0 + e1 + e2 + e3 + e4, e5);
    lemma_holds_split(b, p, e0 + e1 + e2 + e3, e4);
    lemma_holds_split(b, p, e0 + e1 + e2, e3);
    lemma_holds_split(b, p, e0 + e1, e2);
    lemma_holds_split(b, p, e0, e1);
    lemma_rd_str(b, p, f.name);
    let p1 = p + e0.len();
    assert(e1 =~= seq![f.arity] + seq![if f.is_void { 1u8 } else { 0u8 }]);
    lemma_holds_split(b, p1, seq![f.arity], seq![if f.is_void { 1u8 } else { 0u8 }]);
    lemma_rd_u8(b, p1, f.arity);
    lemma_rd_u8(b, p1 + 1, if f.is_void { 1u8 } else { 0u8 });
    let p3 = p1 + 2;
    lemma_rd_u16(b, p3, f.locals);
    lemma_rd_u16(b, p3 + 2, nc);
    assert(nc as nat == f.chunk.constants.len());
    lemma_rd_consts(b, p3 + 4, f.chunk.constants);
    let p6 = p3 + 4 + e4.len();
    lemma_rd_u32(b, p6, cl);
    assert(cl as int == f.chunk.code.len());
    lemma_rd_bytes(b, p6 + 4, e6);
    let p8 = p6 + 4 + e6.len();
    lemma_rd_u32(b, p8, ll);
    assert(ll as int == f.chunk.lines.len());
    lemma_rd_u32s(b, p8 + 4, f.chunk.lines);
}

proof fn lemma_rd_structs(b: Seq<u8>, p: int, vs: Seq<StructTypeV>)
    requires
        forall|i: int| 0 <= i < vs.len() ==> struct_fits(#[trigger] vs[i]),
        holds_at(b, p, concat_map(vs, enc_struct_fn())),
    ensures
        rd_structs(b, p, vs.len()) == Some((vs, p + concat_map(vs, enc_struct_fn()).len())),
    decreases vs.len(),
{
    if vs.len() > 0 {
        let d = vs.drop_last();
        let x = vs.last();
        lemma_holds_split(b, p, concat_map(d, enc_struct_fn()), enc_struct(x));
        assert forall|i: int| 0 <= i < d.len() implies struct_fits(#[trigger] d[i]) by {
            assert(d[i] == vs[i]);
        }
        lemma_rd_structs(b, p, d);
        assert((vs.len() - 1) as nat == d.len());
        lemma_rd_struct(b, p + concat_map(d, enc_struct_fn()).len(), x);
        assert(d.push(x) =~= vs);
    } else {
        assert(vs =~= Seq::<StructTypeV>::empty());
    }
}

proof fn lemma_rd_functions(b: Seq<u8>, p: int, vs: Seq<FunctionV>)
    requires
        forall|i: int| 0 <= i < vs.len() ==> function_fits(#[trigger] vs[i]) && lines_ok(vs[i]),
        holds_at(b, p, concat_map(vs, enc_function_fn())),
    ensures
        rd_functions(b, p, vs.len()) == Some((vs, p + concat_map(vs, enc_function_fn()).len())),
    decreases vs.len(),
{
    if vs.len() > 0 {
        let d = vs.drop_last();
        let x = vs.last();
        lemma_holds_split(b, p, concat_map(d, enc_function_fn()), enc_function(x));
        assert forall|i: int| 0 <= i < d.len() implies function_fits(#[trigger] d[i]) && lines_ok(d[i]) by {
            assert(d[i] == vs[i]);
        }
        lemma_rd_functions(b, p, d);
        assert((vs.len() - 1) as nat == d.len());
        lemma_rd_function(b, p + concat_map(d, enc_function_fn()).len(), x);
        assert(d.push(x) =~= vs);
    } else {
        assert(vs =~= Seq::<FunctionV>::empty());
    }
}

/// A module that reads back as itself: every line table is empty or as
/// long as its code, the main index names a function, and the top-level
/// index fits 16 bits and names a function when there is one.
pub open spec fn module_reads_back(m: ModuleV) -> bool {
    &&& forall|i: int| 0 <= i < m.functions.len() ==> lines_ok(#[trigger] m.functions[i])
    &&& (m.main_index matches Some(k) ==> k < m.functions.len())
    &&& m.toplevel_index <= 0xFFFF
    &&& (m.functions.len() > 0 ==> m.toplevel_index < m.functions.len())
}

/// Decoding the bytes of an encoded module gives the module back, whatever
/// follows those bytes.
#[verifier::rlimit(80)]
pub proof fn lemma_decode_encode(m: ModuleV, rest: Seq<u8>)
    requires
        module_fits(m),
        module_reads_back(m),
    ensures
        rd_module(enc_module(m) + rest) == Some(m),
{
    let b = enc_module(m) + rest;
    let main_raw: u16 = match m.main_index { Some(i) => i as u16, None => NO_MAIN };
    let top = m.toplevel_index as u16;
    let nst = m.struct_types.len() as u16;
    let nfn = m.functions.len() as u16;
    let s0 = magic_bytes();
    let s1 = u16_bytes(FORMAT_VERSION);
    let s2 = u16_bytes(0);
    let s3 = u16_bytes(main_raw);
    let s4 = u16_bytes(top);
    let s5 = u16_bytes(nst);
    let s6 = concat_map(m.struct_types, enc_struct_fn());
    let s7 = u16_bytes(nfn);
    let s8 = concat_map(m.functions, enc_function_fn());
    assert(enc_module(m) == s0 + s1 + s2 + s3 + s4 + s5 + s6 + s7 + s8);
    assert(holds_at(b, 0, enc_module(m))) by {
        assert(b.subrange(0, enc_module(m).len() as int) =~= enc_module(m));
    }
    lemma_holds_split(b, 0, s0 + s1 + s2 + s3 + s4 + s5 + s6 + s7, s8);
    lemma_holds_split(b, 0, s0 + s1 + s2 + s3 + s4 + s5 + s6, s7);
    lemma_holds_split(b, 0, s0 + s1 + s2 + s3 + s4 + s5, s6);
    lemma_holds_split(b, 0, s0 + s1 + s2 + s3 + s4, s5);
    lemma_holds_split(b, 0, s0 + s1 + s2 + s3, s4);
    lemma_holds_split(b, 0, s0 + s1 + s2, s3);
    lemma_holds_split(b, 0, s0 + s1, s2);
    lemma_holds_split(b, 0, s0, s1);
    lemma_rd_bytes(b, 0, s0);
    lemma_rd_u16(b, 4, FORMAT_VERSION);
    lemma_rd_u16(b, 6, 0);
    lemma_rd_u16(b, 8, main_raw);
    lemma_rd_u16(b, 10, top);
    lemma_rd_u16(b, 12, nst);
    assert(nst as nat == m.struct_types.len());
    lemma_rd_structs(b, 14, m.struct_types);
    let p6: int = 14int + s6.len();
    lemma_rd_u16(b, p6, nfn);
    assert(nfn as nat == m.functions.len());
    assert forall|i: int| 0 <= i < m.functions.len() implies function_fits(#[trigger] m.functions[i])
        && lines_ok(m.functions[i]) by {}
    lemma_rd_functions(b, p6 + 2, m.functions);
    assert(top as usize == m.toplevel_index);
    match m.main_index {
        Some(i) => {
            assert(main_raw as usize == i);
            assert(main_raw != NO_MAIN);
        },
        None => {},
    }
}

} // verus!
