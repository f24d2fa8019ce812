//! The `.lgb` bytecode file format, stated over models: how a module is
//! written as bytes and how bytes are read back.
//!
//! Layout (little-endian): magic `LGB1`, version `u16` (1), reserved `u16`
//! (0), main index `u16` (0xFFFF for none), top-level index `u16`, the
//! struct table (count `u16`; per struct its name and field names), and the
//! function table (count `u16`; per function its name, arity `u8`, void flag
//! `u8`, locals `u16`, constants, code length `u32`, code, line count `u32`
//! and lines `u32` each). A string is its UTF-8 length as `u16` followed by
//! its UTF-8 bytes. A constant is a tag byte (0 int, 1 float, 2 bool,
//! 3 string) followed by its payload.

use vstd::prelude::*;
use vstd::utf8::{decode_utf8, encode_utf8, valid_utf8};
use crate::chunk::{u16_bytes, ChunkV, FunctionV, ModuleV, StructTypeV};
use crate::value::Val;

verus! {

/// The format version this crate writes and reads.
pub const FORMAT_VERSION: u16 = 1;

/// The main-index value that means "no main".
pub const NO_MAIN: u16 = 0xFFFF;

/// The four magic bytes `LGB1`.
pub open spec fn magic_bytes() -> Seq<u8> {
    seq![76u8, 71u8, 66u8, 49u8]
}

pub open spec fn u32_bytes(n: u32) -> Seq<u8> {
    seq![n as u8, (n >> 8u32) as u8, (n >> 16u32) as u8, (n >> 24u32) as u8]
}

pub open spec fn u64_bytes(n: u64) -> Seq<u8> {
    seq![n as u8, (n >> 8u64) as u8, (n >> 16u64) as u8, (n >> 24u64) as u8,
        (n >> 32u64) as u8, (n >> 40u64) as u8, (n >> 48u64) as u8, (n >> 56u64) as u8]
}

pub open spec fn le_u32(a: u8, b: u8, c: u8, d: u8) -> u32 {
    (a as u32) | ((b as u32) << 8u32) | ((c as u32) << 16u32) | ((d as u32) << 24u32)
}

pub open spec fn le_u64(b: Seq<u8>) -> u64 {
    (b[0] as u64) | ((b[1] as u64) << 8u64) | ((b[2] as u64) << 16u64) | ((b[3] as u64) << 24u64)
        | ((b[4] as u64) << 32u64) | ((b[5] as u64) << 40u64) | ((b[6] as u64) << 48u64)
        | ((b[7] as u64) << 56u64)
}

/// A string: UTF-8 length, then UTF-8 bytes.
pub open spec fn enc_str(s: Seq<char>) -> Seq<u8> {
    u16_bytes(encode_utf8(s).len() as u16) + encode_utf8(s)
}

pub open spec fn str_fits(s: Seq<char>) -> bool {
    encode_utf8(s).len() <= 65535
}

/// A constant: tag byte and payload; only scalars and strings have one.
pub open spec fn enc_const(v: Val) -> Seq<u8> {
    match v {
        Val::Int(n) => seq![0u8] + u64_bytes(n as u64),
        Val::Float(b) => seq![1u8] + u64_bytes(b),
        Val::Bool(b) => seq![2u8, if b { 1u8 } else { 0u8 }],
        Val::Str(s) => seq![3u8] + enc_str(s),
        _ => Seq::empty(),
    }
}

pub open spec fn const_fits(v: Val) -> bool {
    match v {
        Val::Int(_) | Val::Float(_) | Val::Bool(_) => true,
        Val::Str(s) => str_fits(s),
        _ => false,
    }
}

/// The encodings of the items of `s`, one after the other.
pub open spec fn concat_map<A>(s: Seq<A>, f: spec_fn(A) -> Seq<u8>) -> Seq<u8>
    decreases s.len(),
{
    if s.len() == 0 {
        Seq::empty()
    } else {
        concat_map(s.drop_last(), f) + f(s.last())
    }
}

pub open spec fn enc_str_fn() -> spec_fn(Seq<char>) -> Seq<u8> {
    |s: Seq<char>| enc_str(s)
}

pub open spec fn enc_const_fn() -> spec_fn(Val) -> Seq<u8> {
    |v: Val| enc_const(v)
}

pub open spec fn u32_bytes_fn() -> spec_fn(u32) -> Seq<u8> {
    |l: u32| u32_bytes(l)
}

pub open spec fn enc_struct_fn() -> spec_fn(StructTypeV) -> Seq<u8> {
    |st: StructTypeV| enc_struct(st)
}

pub open spec fn enc_function_fn() -> spec_fn(FunctionV) -> Seq<u8> {
    |f: FunctionV| enc_function(f)
}

pub proof fn lemma_concat_map_push<A>(s: Seq<A>, x: A, f: spec_fn(A) -> Seq<u8>)
    ensures
        concat_map(s.push(x), f) == concat_map(s, f) + f(x),
{
    assert(s.push(x).drop_last() =~= s);
}

pub open spec fn enc_struct(st: StructTypeV) -> Seq<u8> {
    enc_str(st.name) + u16_bytes(st.fields.len() as u16) + concat_map(st.fields, enc_str_fn())
}

pub open spec fn struct_fits(st: StructTypeV) -> bool {
    &&& str_fits(st.name)
    &&& st.fields.len() <= 65535
    &&& forall|i: int| 0 <= i < st.fields.len() ==> str_fits(#[trigger] st.fields[i])
}

pub open spec fn enc_function(f: FunctionV) -> Seq<u8> {
    enc_str(f.name)
        + seq![f.arity, if f.is_void { 1u8 } else { 0u8 }]
        + u16_bytes(f.locals)
        + u16_bytes(f.chunk.constants.len() as u16)
        + concat_map(f.chunk.constants, enc_const_fn())
        + u32_bytes(f.chunk.code.len() as u32)
        + f.chunk.code
        + u32_bytes(f.chunk.lines.len() as u32)
        + concat_map(f.chunk.lines, u32_bytes_fn())
}

pub open spec fn function_fits(f: FunctionV) -> bool {
    &&& str_fits(f.name)
    &&& f.chunk.constants.len() <= 65535
    &&& forall|i: int| 0 <= i < f.chunk.constants.len() ==> const_fits(#[trigger] f.chunk.constants[i])
    &&& f.chunk.code.len() <= u32::MAX
}

/// The bytes of a module.
pub open spec fn enc_module(m: ModuleV) -> Seq<u8> {
    magic_bytes()
        + u16_bytes(FORMAT_VERSION)
        + u16_bytes(0)
        + u16_bytes(match m.main_index { Some(i) => i as u16, None => NO_MAIN })
        + u16_bytes(m.toplevel_index as u16)
        + u16_bytes(m.struct_types.len() as u16)
        + concat_map(m.struct_types, enc_struct_fn())
        + u16_bytes(m.functions.len() as u16)
        + concat_map(m.functions, enc_function_fn())
}

/// Whether a module can be written: every count and string length fits its
/// field, every constant is a scalar or a string, and the main index fits.
pub open spec fn module_fits(m: ModuleV) -> bool {
    &&& match m.main_index { Some(i) => i <= 0xFFFF, None => true }
    &&& m.struct_types.len() <= 65535
    &&& forall|i: int| 0 <= i < m.struct_types.len() ==> struct_fits(#[trigger] m.struct_types[i])
    &&& m.functions.len() <= 65535
    &&& forall|i: int| 0 <= i < m.functions.len() ==> function_fits(#[trigger] m.functions[i])
}

// ---- reading ----

pub open spec fn rd_bytes(b: Seq<u8>, p: int, n: int) -> Option<(Seq<u8>, int)> {
    if 0 <= p && 0 <= n && p + n <= b.len() { Some((b.subrange(p, p + n), p + n)) } else { None }
}

pub open spec fn rd_u8(b: Seq<u8>, p: int) -> Option<(u8, int)> {
    if 0 <= p && p + 1 <= b.len() { Some((b[p], p + 1)) } else { None }
}

pub open spec fn rd_u16(b: Seq<u8>, p: int) -> Option<(u16, int)> {
    if 0 <= p && p + 2 <= b.len() { Some(((b[p] + 256 * b[p + 1]) as u16, p + 2)) } else { None }
}

pub open spec fn rd_u32(b: Seq<u8>, p: int) -> Option<(u32, int)> {
    if 0 <= p && p + 4 <= b.len() {
        Some((le_u32(b[p], b[p + 1], b[p + 2], b[p + 3]), p + 4))
    } else {
        None
    }
}

pub open spec fn rd_u64(b: Seq<u8>, p: int) -> Option<(u64, int)> {
    if 0 <= p && p + 8 <= b.len() { Some((le_u64(b.subrange(p, p + 8)), p + 8)) } else { None }
}

pub open spec fn rd_str(b: Seq<u8>, p: int) -> Option<(Seq<char>, int)> {
    match rd_u16(b, p) {
        None => None,
        Some((n, p1)) => match rd_bytes(b, p1, n as int) {
            None => None,
            Some((bs, p2)) => if valid_utf8(bs) { Some((decode_utf8(bs), p2)) } else { None },
        },
    }
}

pub open spec fn rd_const(b: Seq<u8>, p: int) -> Option<(Val, int)> {
    match rd_u8(b, p) {
        None => None,
        Some((tag, p1)) => if tag == 0 {
            match rd_u64(b, p1) { Some((x, p2)) => Some((Val::Int(x as i64), p2)), None => None }
        } else if tag == 1 {
            match rd_u64(b, p1) { Some((x, p2)) => Some((Val::Float(x), p2)), None => None }
        } else if tag == 2 {
            match rd_u8(b, p1) { Some((x, p2)) => Some((Val::Bool(x != 0), p2)), None => None }
        } else if tag == 3 {
            match rd_str(b, p1) { Some((s, p2)) => Some((Val::Str(s), p2)), None => None }
        } else {
            None
        },
    }
}

pub open spec fn rd_consts(b: Seq<u8>, p: int, n: nat) -> Option<(Seq<Val>, int)>
    decreases n,
{
    if n == 0 {
        Some((Seq::empty(), p))
    } else {
        match rd_consts(b, p, (n - 1) as nat) {
            None => None,
            Some((vs, p1)) => match rd_const(b, p1) {
                None => None,
                Some((v, p2)) => Some((vs.push(v), p2)),
            },
        }
    }
}

pub open spec fn rd_strs(b: Seq<u8>, p: int, n: nat) -> Option<(Seq<Seq<char>>, int)>
    decreases n,
{
    if n == 0 {
        Some((Seq::empty(), p))
    } else {
        match rd_strs(b, p, (n - 1) as nat) {
            None => None,
            Some((vs, p1)) => match rd_str(b, p1) {
                None => None,
                Some((v, p2)) => Some((vs.push(v), p2)),
            },
        }
    }
}

pub open spec fn rd_u32s(b: Seq<u8>, p: int, n: nat) -> Option<(Seq<u32>, int)>
    decreases n,
{
    if n == 0 {
        Some((Seq::empty(), p))
    } else {
        match rd_u32s(b, p, (n - 1) as nat) {
            None => None,
            Some((vs, p1)) => match rd_u32(b, p1) {
                None => None,
                Some((v, p2)) => Some((vs.push(v), p2)),
            },
        }
    }
}

pub open spec fn rd_struct(b: Seq<u8>, p: int) -> Option<(StructTypeV, int)> {
    match rd_str(b, p) {
        None => None,
        Some((name, p1)) => match rd_u16(b, p1) {
            None => None,
            Some((nf, p2)) => match rd_strs(b, p2, nf as nat) {
                None => None,
                Some((fields, p3)) => Some((StructTypeV { name, fields }, p3)),
            },
        },
    }
}

pub open spec fn rd_structs(b: Seq<u8>, p: int, n: nat) -> Option<(Seq<StructTypeV>, int)>
    decreases n,
{
    if n == 0 {
        Some((Seq::empty(), p))
    } else {
        match rd_structs(b, p, (n - 1) as nat) {
            None => None,
            Some((vs, p1)) => match rd_struct(b, p1) {
                None => None,
                Some((v, p2)) => Some((vs.push(v), p2)),
            },
        }
    }
}

/// Reads one function. The line table must be as long as the code, or empty.
pub open spec fn rd_function(b: Seq<u8>, p: int) -> Option<(FunctionV, int)> {
    match rd_str(b, p) {
        None => None,
        Some((name, p1)) => match rd_u8(b, p1) {
            None => None,
            Some((arity, p2)) => match rd_u8(b, p2) {
                None => None,
                Some((vd, p3)) => match rd_u16(b, p3) {
                    None => None,
                    Some((locals, p4)) => match rd_u16(b, p4) {
                        None => None,
                        Some((nc, p5)) => match rd_consts(b, p5, nc as nat) {
                            None => None,
                            Some((constants, p6)) => match rd_u32(b, p6) {
                                None => None,
                                Some((code_len, p7)) => match rd_bytes(b, p7, code_len as int) {
                                    None => None,
                                    Some((code, p8)) => match rd_u32(b, p8) {
                                        None => None,
                                        Some((lines_len, p9)) => if lines_len != code_len && lines_len != 0 {
                                            None
                                        } else {
                                            match rd_u32s(b, p9, lines_len as nat) {
                                                None => None,
                                                Some((lines, p10)) => Some((FunctionV {
                                                    name,
                                                    arity,
                                                    locals,
                                                    is_void: vd != 0,
                                                    chunk: ChunkV { code, constants, lines },
                                                }, p10)),
                                            }
                                        },
                                    },
                                },
                            },
                        },
                    },
                },
            },
        },
    }
}

pub open spec fn rd_functions(b: Seq<u8>, p: int, n: nat) -> Option<(Seq<FunctionV>, int)>
    decreases n,
{
    if n == 0 {
        Some((Seq::empty(), p))
    } else {
        match rd_functions(b, p, (n - 1) as nat) {
            None => None,
            Some((vs, p1)) => match rd_function(b, p1) {
                None => None,
                Some((v, p2)) => Some((vs.push(v), p2)),
            },
        }
    }
}

/// The module that bytes hold, if they hold one: right magic and version,
/// everything present, and the main and top-level indices in range (the
/// top-level index is not checked when there is no function).
pub open spec fn rd_module(b: Seq<u8>) -> Option<ModuleV> {
    match rd_bytes(b, 0, 4) {
        None => None,
        Some((magic, p0)) => if magic != magic_bytes() {
            None
        } else {
            match rd_u16(b, p0) {
                None => None,
                Some((version, p1)) => if version != FORMAT_VERSION {
                    None
                } else {
                    match rd_u16(b, p1) {
                        None => None,
                        Some((_, p2)) => match rd_u16(b, p2) {
                            None => None,
                            Some((main_raw, p3)) => match rd_u16(b, p3) {
                                None => None,
                                Some((top, p4)) => match rd_u16(b, p4) {
                                    None => None,
                                    Some((nst, p5)) => match rd_structs(b, p5, nst as nat) {
                                        None => None,
                                        Some((sts, p6)) => match rd_u16(b, p6) {
                                            None => None,
                                            Some((nfns, p7)) => match rd_functions(b, p7, nfns as nat) {
                                                None => None,
                                                Some((fns, _)) => {
                                                    let main = if main_raw == NO_MAIN { None } else { Some(main_raw as usize) };
                                                    if top as int >= fns.len() && fns.len() != 0 {
                                                        None
                                                    } else if main.is_some() && main.unwrap() >= fns.len() {
                                                        None
                                                    } else {
                                                        Some(ModuleV {
                                                            functions: fns,
                                                            main_index: main,
                                                            toplevel_index: top as usize,
                                                            struct_types: sts,
                                                        })
                                                    }
                                                },
                                            },
                                        },
                                    },
                                },
                            },
                        },
                    }
                },
            }
        },
    }
}

pub proof fn lemma_rd_consts_none(b: Seq<u8>, p: int, k: nat, n: nat)
    requires
        k <= n,
        rd_consts(b, p, k) is None,
    ensures
        rd_consts(b, p, n) is None,
    decreases n,
{
    if n > k {
        lemma_rd_consts_none(b, p, k, (n - 1) as nat);
    }
}

pub proof fn lemma_rd_strs_none(b: Seq<u8>, p: int, k: nat, n: nat)
    requires
        k <= n,
        rd_strs(b, p, k) is None,
    ensures
        rd_strs(b, p, n) is None,
    decreases n,
{
    if n > k {
        lemma_rd_strs_none(b, p, k, (n - 1) as nat);
    }
}

pub proof fn lemma_rd_u32s_none(b: Seq<u8>, p: int, k: nat, n: nat)
    requires
        k <= n,
        rd_u32s(b, p, k) is None,
    ensures
        rd_u32s(b, p, n) is None,
    decreases n,
{
    if n > k {
        lemma_rd_u32s_none(b, p, k, (n - 1) as nat);
    }
}

pub proof fn lemma_rd_structs_none(b: Seq<u8>, p: int, k: nat, n: nat)
    requires
        k <= n,
        rd_structs(b, p, k) is None,
    ensures
        rd_structs(b, p, n) is None,
    decreases n,
{
    if n > k {
        lemma_rd_structs_none(b, p, k, (n - 1) as nat);
    }
}

pub proof fn lemma_rd_functions_none(b: Seq<u8>, p: int, k: nat, n: nat)
    requires
        k <= n,
        rd_functions(b, p, k) is None,
    ensures
        rd_functions(b, p, n) is None,
    decreases n,
{
    if n > k {
        lemma_rd_functions_none(b, p, k, (n - 1) as nat);
    }
}

} // verus!
