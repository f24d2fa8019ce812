//! Writing a compiled module as `.lgb` bytes, reading it back, and running
//! a module that was read.

use vstd::prelude::*;
use vstd::utf8::{decode_utf8, encode_utf8, valid_utf8};
use crate::chunk::{u16_bytes, Chunk, ChunkV, Function, FunctionV, Module, ModuleV, StructType, StructTypeV};
use crate::lgb_format::{
    concat_map, const_fits, enc_const, enc_const_fn, enc_function, enc_function_fn, enc_module,
    enc_str, enc_str_fn, enc_struct, enc_struct_fn, function_fits, lemma_concat_map_push,
    le_u32, le_u64, magic_bytes, module_fits, rd_bytes, rd_const, rd_consts, rd_function,
    rd_functions, rd_module, rd_str, rd_strs, rd_struct, rd_structs, rd_u16, rd_u32, rd_u32s,
    rd_u64, rd_u8, str_fits, lemma_rd_consts_none, lemma_rd_strs_none, lemma_rd_u32s_none,
    lemma_rd_structs_none, lemma_rd_functions_none, struct_fits, u32_bytes, u32_bytes_fn, u64_bytes, FORMAT_VERSION,
    NO_MAIN,
};
use crate::text::{concat, int_text, owned, push_str, uint_to_string};
use crate::float::Host;
use crate::semantics::{run_spec, RunEnd};
use crate::vm::{out_of_fuel_msg, out_view, reports, Vm, VmError};
use crate::value::{values_view, Val, Value};

verus! {

/// An error in writing or reading `.lgb` bytes.
#[derive(Debug)]
pub struct BytecodeError {
    pub message: String,
}

impl BytecodeError {
    /// The error as the user sees it.
    pub fn to_text(&self) -> (s: String)
        ensures
            s@ == "字节码错误: "@ + self.message@,
    {
        let mut s = owned("字节码错误: ");
        push_str(&mut s, self.message.as_str());
        s
    }
}

/// An error with the given message.
pub fn err(msg: &str) -> (e: BytecodeError)
    ensures
        e.message@ == msg@,
{
    BytecodeError { message: owned(msg) }
}

fn put_bytes(out: &mut Vec<u8>, bs: &[u8])
    ensures
        final(out)@ == old(out)@ + bs@,
{
    let mut i: usize = 0;
    while i < bs.len()
        invariant
            i <= bs@.len(),
            out@ == old(out)@ + bs@.subrange(0, i as int),
        decreases bs@.len() - i,
    {
        out.push(bs[i]);
        i = i + 1;
        assert(out@ == old(out)@ + bs@.subrange(0, i as int));
    }
    assert(bs@.subrange(0, bs@.len() as int) == bs@);
}

fn put_u16(out: &mut Vec<u8>, n: u16)
    ensures
        final(out)@ == old(out)@ + u16_bytes(n),
{
    out.push((n % 256) as u8);
    out.push((n / 256) as u8);
    assert(out@ == old(out)@ + u16_bytes(n));
}

fn put_u32(out: &mut Vec<u8>, n: u32)
    ensures
        final(out)@ == old(out)@ + u32_bytes(n),
{
    out.push(#[verifier::truncate] (n as u8));
    out.push(#[verifier::truncate] ((n >> 8u32) as u8));
    out.push(#[verifier::truncate] ((n >> 16u32) as u8));
    out.push(#[verifier::truncate] ((n >> 24u32) as u8));
    assert(out@ == old(out)@ + u32_bytes(n));
}

fn put_u64(out: &mut Vec<u8>, n: u64)
    ensures
        final(out)@ == old(out)@ + u64_bytes(n),
{
    out.push(#[verifier::truncate] (n as u8));
    out.push(#[verifier::truncate] ((n >> 8u64) as u8));
    out.push(#[verifier::truncate] ((n >> 16u64) as u8));
    out.push(#[verifier::truncate] ((n >> 24u64) as u8));
    out.push(#[verifier::truncate] ((n >> 32u64) as u8));
    out.push(#[verifier::truncate] ((n >> 40u64) as u8));
    out.push(#[verifier::truncate] ((n >> 48u64) as u8));
    out.push(#[verifier::truncate] ((n >> 56u64) as u8));
    assert(out@ == old(out)@ + u64_bytes(n));
}

/// Writes a string: its UTF-8 length as `u16`, then its UTF-8 bytes. Fails,
/// writing nothing, when the string has more than 65535 bytes.
pub fn write_str(out: &mut Vec<u8>, s: &str) -> (r: Result<(), BytecodeError>)
    ensures
        r is Ok <==> str_fits(s@),
        r is Ok ==> final(out)@ == old(out)@ + enc_str(s@),
        r is Err ==> final(out)@ == old(out)@,
{
    let bs = s.as_bytes();
    let n = bs.len();
    assert(bs@ == encode_utf8(s@));
    if n > 65535 {
        return Err(err("string too long"));
    }
    put_u16(out, n as u16);
    put_bytes(out, bs);
    Ok(())
}

/// Writes a constant: a tag byte and its payload. Only scalars and strings
/// can be written.
pub fn write_const(out: &mut Vec<u8>, v: &Value) -> (r: Result<(), BytecodeError>)
    ensures
        r is Ok <==> const_fits(v.view()),
        r is Ok ==> final(out)@ == old(out)@ + enc_const(v.view()),
{
    match v {
        Value::Int(n) => {
            out.push(0u8);
            put_u64(out, *n as u64);
        },
        Value::Float(b) => {
            out.push(1u8);
            put_u64(out, *b);
        },
        Value::Bool(b) => {
            out.push(2u8);
            out.push(if *b { 1u8 } else { 0u8 });
            assert(out@ == old(out)@ + enc_const(v.view()));
        },
        Value::Str(s) => {
            out.push(3u8);
            write_str(out, s.as_str())?;
        },
        _ => {
            let a = owned("constant of type ");
            let b = owned(v.kind_name());
            let mut m = concat(&a, &b);
            push_str(&mut m, " cannot be stored in .lgb");
            return Err(BytecodeError { message: m });
        },
    }
    Ok(())
}

fn write_struct(out: &mut Vec<u8>, st: &StructType) -> (r: Result<(), BytecodeError>)
    ensures
        r is Ok <==> struct_fits(st.view()),
        r is Ok ==> final(out)@ == old(out)@ + enc_struct(st.view()),
{
    let ghost sv = st.view();
    write_str(out, st.name.as_str())?;
    if st.fields.len() > 65535 {
        return Err(err("too many fields"));
    }
    put_u16(out, st.fields.len() as u16);
    let ghost start = out@;
    let mut i: usize = 0;
    while i < st.fields.len()
        invariant
            i <= st.fields@.len(),
            sv == st.view(),
            out@ == start + concat_map(sv.fields.subrange(0, i as int), enc_str_fn()),
            forall|k: int| 0 <= k < i ==> str_fits(#[trigger] sv.fields[k]),
        decreases st.fields@.len() - i,
    {
        let ghost before = out@;
        let w = write_str(out, st.fields[i].as_str());
        if w.is_err() {
            assert(!str_fits(sv.fields[i as int]));
            return w;
        }
        proof {
            lemma_concat_map_push(sv.fields.subrange(0, i as int), sv.fields[i as int], enc_str_fn());
            assert(sv.fields.subrange(0, i as int).push(sv.fields[i as int]) =~= sv.fields.subrange(0, i + 1));
        }
        i = i + 1;
    }
    assert(sv.fields.subrange(0, sv.fields.len() as int) =~= sv.fields);
    Ok(())
}

fn write_consts(out: &mut Vec<u8>, cs: &Vec<Value>) -> (r: Result<(), BytecodeError>)
    ensures
        r is Ok <==> forall|k: int| 0 <= k < cs@.len() ==> const_fits(#[trigger] values_view(cs@)[k]),
        r is Ok ==> final(out)@ == old(out)@ + concat_map(values_view(cs@), enc_const_fn()),
{
    let ghost vs = values_view(cs@);
    let mut i: usize = 0;
    while i < cs.len()
        invariant
            i <= cs@.len(),
            vs == values_view(cs@),
            out@ == old(out)@ + concat_map(vs.subrange(0, i as int), enc_const_fn()),
            forall|k: int| 0 <= k < i ==> const_fits(#[trigger] vs[k]),
        decreases cs@.len() - i,
    {
        let w = write_const(out, &cs[i]);
        if w.is_err() {
            assert(!const_fits(vs[i as int]));
            return w;
        }
        proof {
            lemma_concat_map_push(vs.subrange(0, i as int), vs[i as int], enc_const_fn());
            assert(vs.subrange(0, i as int).push(vs[i as int]) =~= vs.subrange(0, i + 1));
        }
        i = i + 1;
    }
    assert(vs.subrange(0, vs.len() as int) =~= vs);
    Ok(())
}

fn write_lines(out: &mut Vec<u8>, lines: &Vec<u32>)
    ensures
        final(out)@ == old(out)@ + concat_map(lines@, u32_bytes_fn()),
{
    let mut j: usize = 0;
    while j < lines.len()
        invariant
            j <= lines@.len(),
            out@ == old(out)@ + concat_map(lines@.subrange(0, j as int), u32_bytes_fn()),
        decreases lines@.len() - j,
    {
        put_u32(out, lines[j]);
        proof {
            lemma_concat_map_push(lines@.subrange(0, j as int), lines@[j as int], u32_bytes_fn());
            assert(lines@.subrange(0, j as int).push(lines@[j as int]) =~= lines@.subrange(0, j + 1));
        }
        j = j + 1;
    }
    assert(lines@.subrange(0, lines@.len() as int) =~= lines@);
}

fn write_function(out: &mut Vec<u8>, f: &Function) -> (r: Result<(), BytecodeError>)
    ensures
        r is Ok <==> function_fits(f.view()),
        r is Ok ==> final(out)@ == old(out)@ + enc_function(f.view()),
{
    let ghost fv = f.view();
    let ghost o0 = out@;
    write_str(out, f.name.as_str())?;
    let ghost o1 = out@;
    out.push(f.arity);
    out.push(if f.is_void { 1u8 } else { 0u8 });
    put_u16(out, f.locals);
    let cs = &f.chunk.constants;
    if cs.len() > 65535 {
        return Err(err("too many constants"));
    }
    put_u16(out, cs.len() as u16);
    let ghost o2 = out@;
    write_consts(out, cs)?;
    let ghost o3 = out@;
    let code = &f.chunk.code;
    if code.len() > 0xffff_ffff {
        return Err(err("code too large"));
    }
    put_u32(out, code.len() as u32);
    put_bytes(out, code.as_slice());
    let lines = &f.chunk.lines;
    put_u32(out, #[verifier::truncate] (lines.len() as u32));
    write_lines(out, lines);
    proof {
        assert(o1 == o0 + enc_str(fv.name));
        assert(o2 == o1 + seq![f.arity, if f.is_void { 1u8 } else { 0u8 }] + u16_bytes(fv.locals)
            + u16_bytes(fv.chunk.constants.len() as u16));
        assert(o3 == o2 + concat_map(fv.chunk.constants, enc_const_fn()));
        assert(out@ == o3 + u32_bytes(fv.chunk.code.len() as u32) + fv.chunk.code
            + u32_bytes(fv.chunk.lines.len() as u32) + concat_map(fv.chunk.lines, u32_bytes_fn()));
        assert(out@ =~= old(out)@ + enc_function(fv));
    }
    Ok(())
}

/// The `.lgb` bytes of a module. Fails when a count or a string is too long
/// for its field, when a constant is not a scalar or a string, or when the
/// main index does not fit in 16 bits.
pub fn encode_module(module: &Module) -> (r: Result<Vec<u8>, BytecodeError>)
    ensures
        r is Ok <==> module_fits(module.view()),
        r matches Ok(bytes) ==> bytes@ == enc_module(module.view()),
{
    let ghost mv = module.view();
    let mut out: Vec<u8> = Vec::new();
    out.push(76u8);
    out.push(71u8);
    out.push(66u8);
    out.push(49u8);
    put_u16(&mut out, FORMAT_VERSION);
    put_u16(&mut out, 0u16);
    let main: usize = match module.main_index {
        Some(i) => i,
        None => 0xFFFF,
    };
    if main > 0xFFFF {
        return Err(err("main_index too large"));
    }
    put_u16(&mut out, main as u16);
    put_u16(&mut out, #[verifier::truncate] (module.toplevel_index as u16));
    let sts = &module.struct_types;
    if sts.len() > 65535 {
        return Err(err("too many struct types"));
    }
    put_u16(&mut out, sts.len() as u16);
    let ghost start = out@;
    let mut i: usize = 0;
    while i < sts.len()
        invariant
            i <= sts@.len(),
            mv == module.view(),
            sts == &module.struct_types,
            out@ == start + concat_map(mv.struct_types.subrange(0, i as int), enc_struct_fn()),
            forall|k: int| 0 <= k < i ==> struct_fits(#[trigger] mv.struct_types[k]),
        decreases sts@.len() - i,
    {
        let w = write_struct(&mut out, &sts[i]);
        if w.is_err() {
            assert(!struct_fits(mv.struct_types[i as int]));
            return Err(w.unwrap_err());
        }
        proof {
            lemma_concat_map_push(mv.struct_types.subrange(0, i as int), mv.struct_types[i as int], enc_struct_fn());
            assert(mv.struct_types.subrange(0, i as int).push(mv.struct_types[i as int])
                =~= mv.struct_types.subrange(0, i + 1));
        }
        i = i + 1;
    }
    assert(mv.struct_types.subrange(0, mv.struct_types.len() as int) =~= mv.struct_types);
    let fns = &module.functions;
    if fns.len() > 65535 {
        return Err(err("too many functions"));
    }
    put_u16(&mut out, fns.len() as u16);
    let ghost start2 = out@;
    let mut j: usize = 0;
    while j < fns.len()
        invariant
            j <= fns@.len(),
            mv == module.view(),
            fns == &module.functions,
            out@ == start2 + concat_map(mv.functions.subrange(0, j as int), enc_function_fn()),
            forall|k: int| 0 <= k < j ==> function_fits(#[trigger] mv.functions[k]),
        decreases fns@.len() - j,
    {
        let w = write_function(&mut out, &fns[j]);
        if w.is_err() {
            assert(!function_fits(mv.functions[j as int]));
            return Err(w.unwrap_err());
        }
        proof {
            lemma_concat_map_push(mv.functions.subrange(0, j as int), mv.functions[j as int], enc_function_fn());
            assert(mv.functions.subrange(0, j as int).push(mv.functions[j as int])
                =~= mv.functions.subrange(0, j + 1));
        }
        j = j + 1;
    }
    assert(mv.functions.subrange(0, mv.functions.len() as int) =~= mv.functions);
    assert(out@ == enc_module(mv));
    Ok(out)
}

/// The string whose UTF-8 bytes are `bytes`, when they are valid UTF-8.
///
/// Trusted: calls `String::from_utf8`, which std documents as giving back
/// the string made of the given bytes when they are valid UTF-8 and an
/// error otherwise.
#[verifier::external_body]
pub(crate) fn string_from_utf8(bytes: Vec<u8>) -> (r: Option<String>)
    ensures
        r is Some <==> valid_utf8(bytes@),
        r matches Some(s) ==> s@ == decode_utf8(bytes@),
{
    String::from_utf8(bytes).ok()
}

/// A cursor over `.lgb` bytes.
struct Reader<'a> {
    buf: &'a [u8],
    pos: usize,
}

impl<'a> Reader<'a> {
    /// The cursor is within the bytes.
    spec fn ok(&self) -> bool {
        self.pos <= self.buf@.len()
    }

    /// The next `n` bytes.
    fn read_bytes(&mut self, n: usize) -> (r: Result<Vec<u8>, BytecodeError>)
        requires
            old(self).ok(),
        ensures
            final(self).ok(),
            final(self).buf@ == old(self).buf@,
            match rd_bytes(old(self).buf@, old(self).pos as int, n as int) {
                Some((bs, p)) => r matches Ok(v) && v@ == bs && final(self).pos == p,
                None => r is Err,
            },
    {
        if n > self.buf.len() - self.pos {
            return Err(err("truncated .lgb file"));
        }
        let mut v: Vec<u8> = Vec::new();
        let mut i: usize = 0;
        while i < n
            invariant
                i <= n,
                self.pos + n <= self.buf@.len(),
                self.buf@.len() <= usize::MAX,
                v@ == self.buf@.subrange(self.pos as int, self.pos + i),
            decreases n - i,
        {
            v.push(self.buf[self.pos + i]);
            i = i + 1;
            assert(v@ =~= self.buf@.subrange(self.pos as int, self.pos + i));
        }
        self.pos = self.pos + n;
        Ok(v)
    }

    /// The next byte.
    fn u8(&mut self) -> (r: Result<u8, BytecodeError>)
        requires
            old(self).ok(),
        ensures
            final(self).ok(),
            final(self).buf@ == old(self).buf@,
            match rd_u8(old(self).buf@, old(self).pos as int) {
                Some((x, p)) => r == Ok::<u8, BytecodeError>(x) && final(self).pos == p,
                None => r is Err,
            },
    {
        if self.pos >= self.buf.len() {
            return Err(err("truncated .lgb file"));
        }
        let b = self.buf[self.pos];
        self.pos = self.pos + 1;
        Ok(b)
    }

    /// The next little-endian `u16`.
    fn u16(&mut self) -> (r: Result<u16, BytecodeError>)
        requires
            old(self).ok(),
        ensures
            final(self).ok(),
            final(self).buf@ == old(self).buf@,
            match rd_u16(old(self).buf@, old(self).pos as int) {
                Some((x, p)) => r == Ok::<u16, BytecodeError>(x) && final(self).pos == p,
                None => r is Err,
            },
    {
        if self.buf.len() - self.pos < 2 {
            return Err(err("truncated .lgb file"));
        }
        let b0 = self.buf[self.pos] as u16;
        let b1 = self.buf[self.pos + 1] as u16;
        self.pos = self.pos + 2;
        Ok(b0 + 256 * b1)
    }

    /// The next little-endian `u32`.
    fn u32(&mut self) -> (r: Result<u32, BytecodeError>)
        requires
            old(self).ok(),
        ensures
            final(self).ok(),
            final(self).buf@ == old(self).buf@,
            match rd_u32(old(self).buf@, old(self).pos as int) {
                Some((x, p)) => r == Ok::<u32, BytecodeError>(x) && final(self).pos == p,
                None => r is Err,
            },
    {
        if self.buf.len() - self.pos < 4 {
            return Err(err("truncated .lgb file"));
        }
        let p = self.pos;
        let x = (self.buf[p] as u32) | ((self.buf[p + 1] as u32) << 8u32)
            | ((self.buf[p + 2] as u32) << 16u32) | ((self.buf[p + 3] as u32) << 24u32);
        self.pos = p + 4;
        Ok(x)
    }

    fn u64_le(&mut self) -> (r: Result<u64, BytecodeError>)
        requires
            old(self).ok(),
        ensures
            final(self).ok(),
            final(self).buf@ == old(self).buf@,
            match rd_u64(old(self).buf@, old(self).pos as int) {
                Some((x, p)) => r == Ok::<u64, BytecodeError>(x) && final(self).pos == p,
                None => r is Err,
            },
    {
        if self.buf.len() - self.pos < 8 {
            return Err(err("truncated .lgb file"));
        }
        let p = self.pos;
        let ghost w = self.buf@.subrange(p as int, p + 8);
        assert(w[0] == self.buf@[p as int] && w[1] == self.buf@[p + 1] && w[2] == self.buf@[p + 2]
            && w[3] == self.buf@[p + 3] && w[4] == self.buf@[p + 4] && w[5] == self.buf@[p + 5]
            && w[6] == self.buf@[p + 6] && w[7] == self.buf@[p + 7]);
        let x = (self.buf[p] as u64) | ((self.buf[p + 1] as u64) << 8u64)
            | ((self.buf[p + 2] as u64) << 16u64) | ((self.buf[p + 3] as u64) << 24u64)
            | ((self.buf[p + 4] as u64) << 32u64) | ((self.buf[p + 5] as u64) << 40u64)
            | ((self.buf[p + 6] as u64) << 48u64) | ((self.buf[p + 7] as u64) << 56u64);
        self.pos = p + 8;
        Ok(x)
    }

    /// The next little-endian `i64`.
    fn i64(&mut self) -> (r: Result<i64, BytecodeError>)
        requires
            old(self).ok(),
        ensures
            final(self).ok(),
            final(self).buf@ == old(self).buf@,
            match rd_u64(old(self).buf@, old(self).pos as int) {
                Some((x, p)) => r == Ok::<i64, BytecodeError>(x as i64) && final(self).pos == p,
                None => r is Err,
            },
    {
        let x = self.u64_le()?;
        Ok(#[verifier::truncate] (x as i64))
    }

    /// The bits of the next little-endian double.
    fn float_bits(&mut self) -> (r: Result<u64, BytecodeError>)
        requires
            old(self).ok(),
        ensures
            final(self).ok(),
            final(self).buf@ == old(self).buf@,
            match rd_u64(old(self).buf@, old(self).pos as int) {
                Some((x, p)) => r == Ok::<u64, BytecodeError>(x) && final(self).pos == p,
                None => r is Err,
            },
    {
        self.u64_le()
    }

    /// The next string: a `u16` length and that many bytes of UTF-8.
    fn string(&mut self) -> (r: Result<String, BytecodeError>)
        requires
            old(self).ok(),
        ensures
            final(self).ok(),
            final(self).buf@ == old(self).buf@,
            match rd_str(old(self).buf@, old(self).pos as int) {
                Some((s, p)) => r matches Ok(x) && x@ == s && final(self).pos == p,
                None => r is Err,
            },
    {
        let n = self.u16()?;
        let bytes = self.read_bytes(n as usize)?;
        match string_from_utf8(bytes) {
            Some(s) => Ok(s),
            None => Err(err("invalid UTF-8 in .lgb")),
        }
    }
}

fn read_const(r: &mut Reader) -> (res: Result<Value, BytecodeError>)
    requires
        old(r).ok(),
    ensures
        final(r).ok(),
        final(r).buf@ == old(r).buf@,
        match rd_const(old(r).buf@, old(r).pos as int) {
            Some((v, p)) => res matches Ok(x) && x.view() == v && final(r).pos == p,
            None => res is Err,
        },
{
    let tag = r.u8()?;
    if tag == 0 {
        let x = r.i64()?;
        Ok(Value::Int(x))
    } else if tag == 1 {
        let x = r.float_bits()?;
        Ok(Value::Float(x))
    } else if tag == 2 {
        let x = r.u8()?;
        Ok(Value::Bool(x != 0))
    } else if tag == 3 {
        let s = r.string()?;
        Ok(Value::Str(s))
    } else {
        let mut m = owned("unknown constant tag ");
        let t = crate::text::uint_to_string(tag as u64);
        push_str(&mut m, t.as_str());
        Err(BytecodeError { message: m })
    }
}

fn read_consts(r: &mut Reader, n: u16) -> (res: Result<Vec<Value>, BytecodeError>)
    requires
        old(r).ok(),
    ensures
        final(r).ok(),
        final(r).buf@ == old(r).buf@,
        match rd_consts(old(r).buf@, old(r).pos as int, n as nat) {
            Some((vs, p)) => res matches Ok(x) && values_view(x@) == vs && final(r).pos == p,
            None => res is Err,
        },
{
    let ghost b = r.buf@;
    let ghost p0 = r.pos as int;
    let mut out: Vec<Value> = Vec::new();
    let mut i: u16 = 0;
    while i < n
        invariant
            i <= n,
            r.ok(),
            r.buf@ == b,
            b == old(r).buf@,
            p0 == old(r).pos as int,
            rd_consts(b, p0, i as nat) == Some((values_view(out@), r.pos as int)),
        decreases n - i,
    {
        let ghost before = values_view(out@);
        let res_v = read_const(r);
        if res_v.is_err() {
            proof {
                lemma_rd_consts_none(b, p0, (i + 1) as nat, n as nat);
            }
            return Err(res_v.unwrap_err());
        }
        let v = res_v.unwrap();
        out.push(v);
        proof {
            assert(values_view(out@) =~= before.push(v.view()));
        }
        i = i + 1;
    }
    Ok(out)
}

fn read_strings(r: &mut Reader, n: u16) -> (res: Result<Vec<String>, BytecodeError>)
    requires
        old(r).ok(),
    ensures
        final(r).ok(),
        final(r).buf@ == old(r).buf@,
        match rd_strs(old(r).buf@, old(r).pos as int, n as nat) {
            Some((vs, p)) => res matches Ok(x)
                && Seq::new(x@.len(), |k: int| x@[k]@) == vs && final(r).pos == p,
            None => res is Err,
        },
{
    let ghost b = r.buf@;
    let ghost p0 = r.pos as int;
    let mut out: Vec<String> = Vec::new();
    let mut i: u16 = 0;
    while i < n
        invariant
            i <= n,
            r.ok(),
            r.buf@ == b,
            b == old(r).buf@,
            p0 == old(r).pos as int,
            rd_strs(b, p0, i as nat) == Some((Seq::new(out@.len(), |k: int| out@[k]@), r.pos as int)),
        decreases n - i,
    {
        let ghost before = Seq::new(out@.len(), |k: int| out@[k]@);
        let res_v = r.string();
        if res_v.is_err() {
            proof {
                lemma_rd_strs_none(b, p0, (i + 1) as nat, n as nat);
            }
            return Err(res_v.unwrap_err());
        }
        let v = res_v.unwrap();
        out.push(v);
        proof {
            assert(Seq::new(out@.len(), |k: int| out@[k]@) =~= before.push(v@));
        }
        i = i + 1;
    }
    Ok(out)
}

fn read_lines(r: &mut Reader, n: u32) -> (res: Result<Vec<u32>, BytecodeError>)
    requires
        old(r).ok(),
    ensures
        final(r).ok(),
        final(r).buf@ == old(r).buf@,
        match rd_u32s(old(r).buf@, old(r).pos as int, n as nat) {
            Some((vs, p)) => res matches Ok(x) && x@ == vs && final(r).pos == p,
            None => res is Err,
        },
{
    let ghost b = r.buf@;
    let ghost p0 = r.pos as int;
    let mut out: Vec<u32> = Vec::new();
    let mut i: u32 = 0;
    while i < n
        invariant
            i <= n,
            r.ok(),
            r.buf@ == b,
            b == old(r).buf@,
            p0 == old(r).pos as int,
            rd_u32s(b, p0, i as nat) == Some((out@, r.pos as int)),
        decreases n - i,
    {
        let res_v = r.u32();
        if res_v.is_err() {
            proof {
                lemma_rd_u32s_none(b, p0, (i + 1) as nat, n as nat);
            }
            return Err(res_v.unwrap_err());
        }
        let v = res_v.unwrap();
        out.push(v);
        i = i + 1;
    }
    Ok(out)
}

fn read_struct(r: &mut Reader) -> (res: Result<StructType, BytecodeError>)
    requires
        old(r).ok(),
    ensures
        final(r).ok(),
        final(r).buf@ == old(r).buf@,
        match rd_struct(old(r).buf@, old(r).pos as int) {
            Some((v, p)) => res matches Ok(x) && x.view() == v && final(r).pos == p,
            None => res is Err,
        },
{
    let name = r.string()?;
    let nf = r.u16()?;
    let fields = read_strings(r, nf)?;
    let st = StructType { name, fields };
    proof {
        assert(st.view().fields =~= Seq::new(st.fields@.len(), |k: int| st.fields@[k]@));
    }
    Ok(st)
}

fn read_function(r: &mut Reader) -> (res: Result<Function, BytecodeError>)
    requires
        old(r).ok(),
    ensures
        final(r).ok(),
        final(r).buf@ == old(r).buf@,
        match rd_function(old(r).buf@, old(r).pos as int) {
            Some((v, p)) => res matches Ok(x) && x.view() == v && final(r).pos == p,
            None => res is Err,
        },
{
    let name = r.string()?;
    let arity = r.u8()?;
    let vd = r.u8()?;
    let locals = r.u16()?;
    let nc = r.u16()?;
    let constants = read_consts(r, nc)?;
    let code_len = r.u32()?;
    let code = r.read_bytes(code_len as usize)?;
    let lines_len = r.u32()?;
    if lines_len != code_len && lines_len != 0 {
        let mut m = owned("function `");
        push_str(&mut m, name.as_str());
        push_str(&mut m, "`: lines_len ");
        let a = crate::text::uint_to_string(lines_len as u64);
        push_str(&mut m, a.as_str());
        push_str(&mut m, " != code_len ");
        let c = crate::text::uint_to_string(code_len as u64);
        push_str(&mut m, c.as_str());
        return Err(BytecodeError { message: m });
    }
    let lines = read_lines(r, lines_len)?;
    Ok(Function { name, arity, locals, is_void: vd != 0, chunk: Chunk { code, constants, lines } })
}

fn read_structs(r: &mut Reader, n: u16) -> (res: Result<Vec<StructType>, BytecodeError>)
    requires
        old(r).ok(),
    ensures
        final(r).ok(),
        final(r).buf@ == old(r).buf@,
        match rd_structs(old(r).buf@, old(r).pos as int, n as nat) {
            Some((vs, p)) => res matches Ok(x)
                && Seq::new(x@.len(), |k: int| x@[k].view()) == vs && final(r).pos == p,
            None => res is Err,
        },
{
    let ghost b = r.buf@;
    let ghost p0 = r.pos as int;
    let mut out: Vec<StructType> = Vec::new();
    let mut i: u16 = 0;
    while i < n
        invariant
            i <= n,
            r.ok(),
            r.buf@ == b,
            b == old(r).buf@,
            p0 == old(r).pos as int,
            rd_structs(b, p0, i as nat) == Some((Seq::new(out@.len(), |k: int| out@[k].view()), r.pos as int)),
        decreases n - i,
    {
        let ghost before = Seq::new(out@.len(), |k: int| out@[k].view());
        let res_v = read_struct(r);
        if res_v.is_err() {
            proof {
                lemma_rd_structs_none(b, p0, (i + 1) as nat, n as nat);
            }
            return Err(res_v.unwrap_err());
        }
        let v = res_v.unwrap();
        out.push(v);
        proof {
            assert(Seq::new(out@.len(), |k: int| out@[k].view()) =~= before.push(v.view()));
        }
        i = i + 1;
    }
    Ok(out)
}

fn read_functions(r: &mut Reader, n: u16) -> (res: Result<Vec<Function>, BytecodeError>)
    requires
        old(r).ok(),
    ensures
        final(r).ok(),
        final(r).buf@ == old(r).buf@,
        match rd_functions(old(r).buf@, old(r).pos as int, n as nat) {
            Some((vs, p)) => res matches Ok(x)
                && Seq::new(x@.len(), |k: int| x@[k].view()) == vs && final(r).pos == p,
            None => res is Err,
        },
{
    let ghost b = r.buf@;
    let ghost p0 = r.pos as int;
    let mut out: Vec<Function> = Vec::new();
    let mut i: u16 = 0;
    while i < n
        invariant
            i <= n,
            r.ok(),
            r.buf@ == b,
            b == old(r).buf@,
            p0 == old(r).pos as int,
            rd_functions(b, p0, i as nat) == Some((Seq::new(out@.len(), |k: int| out@[k].view()), r.pos as int)),
        decreases n - i,
    {
        let ghost before = Seq::new(out@.len(), |k: int| out@[k].view());
        let res_v = read_function(r);
        if res_v.is_err() {
            proof {
                lemma_rd_functions_none(b, p0, (i + 1) as nat, n as nat);
            }
            return Err(res_v.unwrap_err());
        }
        let v = res_v.unwrap();
        out.push(v);
        proof {
            assert(Seq::new(out@.len(), |k: int| out@[k].view()) =~= before.push(v.view()));
        }
        i = i + 1;
    }
    Ok(out)
}

/// The module that `.lgb` bytes hold. Fails on a wrong magic or version, on
/// bytes that end early, on a string that is not UTF-8, on an unknown
/// constant tag, on a line table that is neither empty nor as long as its
/// code, and on a main or top-level index out of range.
pub fn decode_module(bytes: &[u8]) -> (r: Result<Module, BytecodeError>)
    ensures
        match rd_module(bytes@) {
            Some(m) => r matches Ok(x) && x.view() == m,
            None => r is Err,
        },
{
    let mut r = Reader { buf: bytes, pos: 0 };
    let magic = r.read_bytes(4)?;
    if !(magic[0] == 76u8 && magic[1] == 71u8 && magic[2] == 66u8 && magic[3] == 49u8) {
        assert(magic@ != magic_bytes());
        return Err(err("bad magic (expected LGB1)"));
    }
    assert(magic@ =~= magic_bytes());
    let version = r.u16()?;
    if version != FORMAT_VERSION {
        let mut m = owned("unsupported .lgb version ");
        let v = crate::text::uint_to_string(version as u64);
        push_str(&mut m, v.as_str());
        push_str(&mut m, " (this build supports 1)");
        return Err(BytecodeError { message: m });
    }
    let _reserved = r.u16()?;
    let main_raw = r.u16()?;
    let main_index: Option<usize> = if main_raw == NO_MAIN { None } else { Some(main_raw as usize) };
    let toplevel_index = r.u16()? as usize;
    let nst = r.u16()?;
    let struct_types = read_structs(&mut r, nst)?;
    let nfns = r.u16()?;
    let functions = read_functions(&mut r, nfns)?;
    if toplevel_index >= functions.len() && functions.len() != 0 {
        return Err(err("toplevel_index out of range"));
    }
    match main_index {
        Some(mi) => {
            if mi >= functions.len() {
                return Err(err("main_index out of range"));
            }
        },
        None => {},
    }
    let m = Module { functions, main_index, toplevel_index, struct_types };
    Ok(m)
}

/// How many steps a program may take before it is stopped.
pub const STEP_LIMIT: u64 = 1_000_000_000_000;

/// The text of a run-time error, with its line when it is known.
pub open spec fn runtime_error_text(msg: Seq<char>, line: u32) -> Seq<char> {
    if line == 0 {
        "运行时错误: "@ + msg
    } else {
        "运行时错误（第 "@ + int_text(line as int) + " 行）: "@ + msg
    }
}

/// Whether the result of running a module reports a run that ends as `end`.
pub open spec fn exec_reports(r: Result<Vec<String>, String>, end: RunEnd) -> bool {
    match (r, end) {
        (Ok(lines), RunEnd::Done(o)) => out_view(lines@) == o,
        (Err(e), RunEnd::Failed(msg, l)) => e@ == runtime_error_text(msg, l),
        (Err(e), RunEnd::OutOfFuel) => e@ == runtime_error_text(out_of_fuel_msg(), 0),
        _ => false,
    }
}

/// The text of a run-time error.
pub fn runtime_error_message(e: &VmError) -> (s: String)
    ensures
        s@ == runtime_error_text(e.message@, e.line),
{
    if e.line == 0 {
        let mut s = owned("运行时错误: ");
        push_str(&mut s, e.message.as_str());
        s
    } else {
        let mut s = owned("运行时错误（第 ");
        let n = uint_to_string(e.line as u64);
        push_str(&mut s, n.as_str());
        push_str(&mut s, " 行）: ");
        push_str(&mut s, e.message.as_str());
        s
    }
}

/// Runs a module from its entry function and gives back the printed lines,
/// or the text of the run-time error that stopped it.
pub fn exec_module<H: Host>(module: &Module, host: &mut H) -> (r: Result<Vec<String>, String>)
    ensures
        exists|end: RunEnd| exec_reports(r, end) && run_spec(module, STEP_LIMIT as nat, end),
{
    let mut vm = Vm::new(module);
    let res = vm.run(host, STEP_LIMIT);
    let ghost end = choose|end: RunEnd| reports(res, end) && run_spec(module, STEP_LIMIT as nat, end);
    match res {
        Ok(lines) => {
            proof {
                assert(exec_reports(Ok::<Vec<String>, String>(lines), end));
            }
            Ok(lines)
        },
        Err(e) => {
            let t = runtime_error_message(&e);
            proof {
                assert(exec_reports(Err::<Vec<String>, String>(t), end));
            }
            Err(t)
        },
    }
}

} // verus!
