//! Bytecode containers: a chunk of code with its constants and line table,
//! functions, and the compiled module.

use vstd::prelude::*;
use crate::float::{float_eq, spec_float_eq};
use crate::op::{op_byte, Op};
use crate::value::{values_view, Val, Value};

verus! {

/// The code of one function: instruction bytes, constant pool, and the
/// source line of every code byte.
#[derive(Debug)]
pub struct Chunk {
    pub code: Vec<u8>,
    pub constants: Vec<Value>,
    pub lines: Vec<u32>,
}

/// The model of a chunk.
pub struct ChunkV {
    pub code: Seq<u8>,
    pub constants: Seq<Val>,
    pub lines: Seq<u32>,
}

/// A struct layout: its name and its field names in declaration order.
#[derive(Debug, Clone)]
pub struct StructType {
    pub name: String,
    pub fields: Vec<String>,
}

/// A compiled function.
#[derive(Debug)]
pub struct Function {
    pub name: String,
    pub arity: u8,
    pub locals: u16,
    pub is_void: bool,
    pub chunk: Chunk,
}

/// A compiled program.
#[derive(Debug)]
pub struct Module {
    pub functions: Vec<Function>,
    pub main_index: Option<usize>,
    pub toplevel_index: usize,
    pub struct_types: Vec<StructType>,
}

impl Chunk {
    pub open spec fn view(&self) -> ChunkV {
        ChunkV { code: self.code@, constants: values_view(self.constants@), lines: self.lines@ }
    }

    /// Lines and code stay the same length.
    pub open spec fn wf(&self) -> bool {
        self.code@.len() == self.lines@.len()
    }
}

/// The little-endian bytes of a `u16`.
pub open spec fn u16_bytes(n: u16) -> Seq<u8> {
    seq![(n % 256) as u8, (n / 256) as u8]
}

/// The `u16` stored little-endian at `at`.
pub open spec fn read_u16_at(code: Seq<u8>, at: int) -> nat {
    (code[at] + 256 * code[at + 1]) as nat
}

/// Constants that the pool treats as the same entry.
pub open spec fn const_same(a: Val, b: Val) -> bool {
    match (a, b) {
        (Val::Int(x), Val::Int(y)) => x == y,
        (Val::Float(x), Val::Float(y)) => spec_float_eq(x, y),
        (Val::Bool(x), Val::Bool(y)) => x == y,
        (Val::Str(x), Val::Str(y)) => x == y,
        _ => false,
    }
}

/// The first constant of the pool that is the same as `v`.
pub open spec fn first_same(cs: Seq<Val>, v: Val) -> Option<int>
    decreases cs.len(),
{
    if cs.len() == 0 {
        None
    } else {
        match first_same(cs.drop_last(), v) {
            Some(i) => Some(i),
            None => if const_same(cs.last(), v) { Some(cs.len() - 1) } else { None },
        }
    }
}

pub proof fn lemma_first_same(cs: Seq<Val>, v: Val)
    ensures
        match first_same(cs, v) {
            Some(i) => 0 <= i < cs.len() && const_same(cs[i], v)
                && forall|j: int| 0 <= j < i ==> !const_same(#[trigger] cs[j], v),
            None => forall|j: int| 0 <= j < cs.len() ==> !const_same(#[trigger] cs[j], v),
        },
    decreases cs.len(),
{
    if cs.len() > 0 {
        let d = cs.drop_last();
        lemma_first_same(d, v);
        assert forall|j: int| 0 <= j < d.len() implies #[trigger] d[j] == cs[j] by {}
        assert(cs.last() == cs[cs.len() - 1]);
        match first_same(d, v) {
            Some(i) => {
                assert(d[i] == cs[i]);
                assert forall|j: int| 0 <= j < i implies !const_same(#[trigger] cs[j], v) by {
                    assert(d[j] == cs[j]);
                }
            },
            None => {
                assert forall|j: int| 0 <= j < cs.len() - 1 implies !const_same(#[trigger] cs[j], v) by {
                    assert(d[j] == cs[j]);
                }
            },
        }
    }
}

/// Whether two constants are the same pool entry.
pub fn const_eq(a: &Value, b: &Value) -> (r: bool)
    ensures
        r == const_same(a.view(), b.view()),
{
    match (a, b) {
        (Value::Int(x), Value::Int(y)) => *x == *y,
        (Value::Float(x), Value::Float(y)) => float_eq(*x, *y),
        (Value::Bool(x), Value::Bool(y)) => *x == *y,
        (Value::Str(x), Value::Str(y)) => *x == *y,
        _ => false,
    }
}

impl Chunk {
    /// An empty chunk.
    pub fn new() -> (c: Chunk)
        ensures
            c.code@ == Seq::<u8>::empty(),
            c.constants@ == Seq::<Value>::empty(),
            c.lines@ == Seq::<u32>::empty(),
    {
        Chunk { code: Vec::new(), constants: Vec::new(), lines: Vec::new() }
    }

    /// Appends an opcode byte, with its line.
    pub fn emit(&mut self, op: Op, line: u32)
        ensures
            final(self).code@ == old(self).code@.push(op_byte(op)),
            final(self).lines@ == old(self).lines@.push(line),
            final(self).constants@ == old(self).constants@,
    {
        self.code.push(op.to_u8());
        self.lines.push(line);
    }

    /// Appends a little-endian `u16` operand, with its line for both bytes.
    pub fn emit_u16(&mut self, n: u16, line: u32)
        ensures
            final(self).code@ == old(self).code@ + u16_bytes(n),
            final(self).lines@ == old(self).lines@.push(line).push(line),
            final(self).constants@ == old(self).constants@,
    {
        let lo: u8 = (n % 256) as u8;
        let hi: u8 = (n / 256) as u8;
        self.code.push(lo);
        self.code.push(hi);
        self.lines.push(line);
        self.lines.push(line);
        assert(self.code@ == old(self).code@ + u16_bytes(n));
    }

    /// The pool index of `v`: an existing entry that is the same constant,
    /// else a new entry at the end; an error when the pool already has
    /// 65535 entries.
    pub fn add_const(&mut self, v: Value) -> (r: Result<u16, String>)
        ensures
            final(self).code@ == old(self).code@,
            final(self).lines@ == old(self).lines@,
            match first_same(old(self).view().constants, v.view()) {
                Some(i) => r == Ok::<u16, String>(i as u16)
                    && final(self).constants@ == old(self).constants@,
                None => if old(self).constants@.len() >= 65535 {
                    r.is_err() && final(self).constants@ == old(self).constants@
                } else {
                    r == Ok::<u16, String>(old(self).constants@.len() as u16)
                    && final(self).constants@ == old(self).constants@.push(v)
                },
            },
    {
        let ghost cs = self.view().constants;
        proof {
            lemma_first_same(cs, v.view());
        }
        let mut i: usize = 0;
        while i < self.constants.len()
            invariant
                i <= self.constants.len(),
                cs == values_view(self.constants@),
                forall|j: int| 0 <= j < i ==> !const_same(#[trigger] cs[j], v.view()),
            decreases self.constants.len() - i,
        {
            if const_eq(&self.constants[i], &v) {
                proof {
                    lemma_first_same(cs, v.view());
                    assert(cs[i as int] == self.constants@[i as int].view());
                }
                return Ok(#[verifier::truncate] (i as u16));
            }
            i = i + 1;
        }
        if self.constants.len() >= 65535 {
            return Err(crate::text::owned("too many constants"));
        }
        self.constants.push(v);
        proof {
            assert(values_view(self.constants@) =~= cs.push(v.view()));
        }
        Ok((self.constants.len() - 1) as u16)
    }
}

/// The model of a struct layout.
pub struct StructTypeV {
    pub name: Seq<char>,
    pub fields: Seq<Seq<char>>,
}

/// The model of a function.
pub struct FunctionV {
    pub name: Seq<char>,
    pub arity: u8,
    pub locals: u16,
    pub is_void: bool,
    pub chunk: ChunkV,
}

/// The model of a module.
pub struct ModuleV {
    pub functions: Seq<FunctionV>,
    pub main_index: Option<usize>,
    pub toplevel_index: usize,
    pub struct_types: Seq<StructTypeV>,
}

impl StructType {
    pub open spec fn view(&self) -> StructTypeV {
        StructTypeV { name: self.name@, fields: Seq::new(self.fields@.len(), |i: int| self.fields@[i]@) }
    }
}

impl Function {
    pub open spec fn view(&self) -> FunctionV {
        FunctionV {
            name: self.name@,
            arity: self.arity,
            locals: self.locals,
            is_void: self.is_void,
            chunk: self.chunk.view(),
        }
    }
}

impl Module {
    pub open spec fn view(&self) -> ModuleV {
        ModuleV {
            functions: Seq::new(self.functions@.len(), |i: int| self.functions@[i].view()),
            main_index: self.main_index,
            toplevel_index: self.toplevel_index,
            struct_types: Seq::new(self.struct_types@.len(), |i: int| self.struct_types@[i].view()),
        }
    }
}

/// The pool index that `v` gets: the first entry that is the same, else a
/// new one at the end.
pub open spec fn const_index(cs: Seq<Val>, v: Val) -> int {
    match first_same(cs, v) {
        Some(i) => i,
        None => cs.len() as int,
    }
}

/// The pool once `v` has its index in it.
pub open spec fn pool_with(cs: Seq<Val>, v: Val) -> Seq<Val> {
    match first_same(cs, v) {
        Some(_) => cs,
        None => cs.push(v),
    }
}

/// `code` with the little-endian `u16` `n` written at `at`.
pub open spec fn patched(code: Seq<u8>, at: int, n: int) -> Seq<u8> {
    code.update(at, (n % 256) as u8).update(at + 1, (n / 256) as u8)
}

impl Chunk {
    /// Appends `Const` with the pool index of `v` (added to the pool when it
    /// is new).
    pub fn emit_const(&mut self, v: Value, line: u32) -> (r: Result<(), String>)
        ensures
            final(self).code@.len() == old(self).code@.len() + if r is Ok { 3int } else { 0int },
            final(self).lines@.len() == old(self).lines@.len() + if r is Ok { 3int } else { 0int },
            r is Ok <==> (first_same(old(self).view().constants, v.view()) is Some || old(self).constants@.len() < 65535),
            r is Ok ==> final(self).code@[old(self).code@.len() as int] == op_byte(Op::Const),
            r is Ok ==> final(self).code@ == old(self).code@.push(op_byte(Op::Const))
                + u16_bytes(const_index(old(self).view().constants, v.view()) as u16),
            r is Ok ==> final(self).lines@ == old(self).lines@.push(line).push(line).push(line),
            r is Ok ==> final(self).view().constants == pool_with(old(self).view().constants, v.view()),
            r is Err ==> final(self).view() == old(self).view(),
    {
        let i = self.add_const(v)?;
        self.emit(Op::Const, line);
        self.emit_u16(i, line);
        Ok(())
    }

    /// Appends a jump with a placeholder offset and gives back where the
    /// offset is, to patch later.
    pub fn emit_jump(&mut self, op: Op, line: u32) -> (at: usize)
        ensures
            final(self).code@ == old(self).code@.push(op_byte(op)) + u16_bytes(0xFFFF),
            final(self).lines@ == old(self).lines@.push(line).push(line).push(line),
            final(self).constants@ == old(self).constants@,
            at == old(self).code@.len() + 1,
    {
        self.emit(op, line);
        self.emit_u16(0xFFFF, line);
        self.code.len() - 2
    }

    /// Sets the forward offset at `at` so that the jump lands on `dest`.
    /// Fails when `at` is not inside the code, when `dest` is before the end
    /// of the offset, or when the distance does not fit in 16 bits.
    pub fn patch_to(&mut self, at: usize, dest: usize) -> (r: Result<(), String>)
        ensures
            final(self).code@.len() == old(self).code@.len(),
            final(self).lines@ == old(self).lines@,
            final(self).constants@ == old(self).constants@,
            r is Ok <==> (at + 2 <= old(self).code@.len() && dest >= at + 2 && dest - (at + 2) <= 0xFFFF),
            r is Ok ==> read_u16_at(final(self).code@, at as int) == dest - (at + 2),
            r is Ok ==> forall|k: int| 0 <= k < final(self).code@.len() && k != at && k != at + 1
                ==> final(self).code@[k] == old(self).code@[k],
            r is Ok ==> final(self).code@ == patched(old(self).code@, at as int, dest - (at + 2)),
            r is Err ==> final(self).code@ == old(self).code@,
    {
        if at >= self.code.len() || self.code.len() - at < 2 {
            return Err(crate::text::owned("jump patch out of range"));
        }
        if dest < at + 2 {
            return Err(crate::text::owned("backward patch via Jump not supported"));
        }
        let j = dest - (at + 2);
        if j > 0xFFFF {
            return Err(crate::text::owned("jump too large"));
        }
        let n = j as u16;
        self.code.set(at, (n % 256) as u8);
        self.code.set(at + 1, (n / 256) as u8);
        Ok(())
    }

    /// Patches the jump at `at` to land on the end of the code.
    pub fn patch_to_end(&mut self, at: usize) -> (r: Result<(), String>)
        ensures
            final(self).code@.len() == old(self).code@.len(),
            final(self).lines@ == old(self).lines@,
            final(self).constants@ == old(self).constants@,
            r is Ok <==> (at + 2 <= old(self).code@.len() && old(self).code@.len() - (at + 2) <= 0xFFFF),
            r is Ok ==> read_u16_at(final(self).code@, at as int) == old(self).code@.len() - (at + 2),
            r is Ok ==> final(self).code@ == patched(old(self).code@, at as int, old(self).code@.len() - (at + 2)),
            r is Err ==> final(self).code@ == old(self).code@,
    {
        let dest = self.code.len();
        self.patch_to(at, dest)
    }

    /// Appends a backward jump to `start`: `Loop` and the distance from the
    /// end of its operand back to `start`. Fails (after the opcode) when the
    /// distance does not fit in 16 bits or `start` is past the end.
    pub fn emit_loop(&mut self, start: usize, line: u32) -> (r: Result<(), String>)
        ensures
            final(self).constants@ == old(self).constants@,
            r is Ok <==> (start <= old(self).code@.len() + 1 && old(self).code@.len() + 1 - start + 2 <= 0xFFFF),
            r is Ok ==> final(self).code@ == old(self).code@.push(op_byte(Op::Loop))
                + u16_bytes((old(self).code@.len() + 3 - start) as u16),
            r is Ok ==> final(self).lines@ == old(self).lines@.push(line).push(line).push(line),
            r is Err ==> final(self).lines@ == old(self).lines@.push(line),
            r is Err ==> final(self).code@ == old(self).code@.push(op_byte(Op::Loop)),
    {
        self.emit(Op::Loop, line);
        if start > self.code.len() {
            return Err(crate::text::owned("loop too large"));
        }
        let d = self.code.len() - start;
        if d > 0xFFFF - 2 {
            return Err(crate::text::owned("loop too large"));
        }
        self.emit_u16((d + 2) as u16, line);
        Ok(())
    }
}

} // verus!
