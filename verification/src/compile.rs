//! The compiler: a checked program to a bytecode [`Module`].
//!
//! Functions are laid out in the order of their source lines, followed by
//! the top-level code as `$toplevel`.

use vstd::prelude::*;
use crate::ast::{
    is_main_fun, AssignStmt, BinOp, Block, ElseBranch, Expr, ForStmt, FunDecl, Ident, IfStmt, Item, Program, Stmt, UnOp, WhileStmt,
};
use crate::chunk::{read_u16_at, const_index, first_same, patched, pool_with, u16_bytes, Chunk, ChunkV, Function, Module, StructType, StructTypeV};
use crate::float::Host;
use crate::op::{op_byte, Op};
use crate::text::{owned, push_str, str_eq};
use crate::token::Span;
use crate::value::{copy_value, Val, Value};
use crate::check::fold_value;
use crate::semantics::{at_instruction, code_of, current_byte, law_int_comparison, law_negation, replaced, step_spec, with_ip, StepV, VmV};

verus! {

/// A compile error and where it happened (line and column 0 when unknown).
#[derive(Debug)]
pub struct CompileError {
    pub message: String,
    pub line: u32,
    pub col: u32,
}

impl CompileError {
    /// An error at `span`.
    pub fn at(message: String, span: Span) -> (e: CompileError)
        ensures
            e.message == message,
            e.line == span.line,
            e.col == span.col,
    {
        CompileError { message, line: span.line, col: span.col }
    }

    /// An error with no position.
    pub fn from_msg(message: String) -> (e: CompileError)
        ensures
            e.message == message,
            e.line == 0,
            e.col == 0,
    {
        CompileError { message, line: 0, col: 0 }
    }
}

fn lift<T>(r: Result<T, String>) -> (o: Result<T, CompileError>)
    ensures
        r is Ok <==> o is Ok,
        r matches Ok(x) ==> o == Ok::<T, CompileError>(x),
{
    match r {
        Ok(x) => Ok(x),
        Err(m) => Err(CompileError::from_msg(m)),
    }
}

struct Local {
    name: String,
    depth: u64,
}

/// A function being compiled.
struct FnC {
    name: String,
    arity: u8,
    chunk: Chunk,
    locals: Vec<Local>,
    depth: u64,
}

/// The pending jumps out of (`break`) and back into (`continue`) a loop.
struct LoopP {
    breaks: Vec<usize>,
    continues: Vec<usize>,
}

/// The compiler's state.
pub struct Compiler {
    fidx: Vec<(String, usize)>,
    fns: Vec<FnC>,
    voids: Vec<String>,
    sidx: Vec<(String, usize)>,
    stypes: Vec<StructType>,
    consts: Vec<(String, Value)>,
    loops: Vec<LoopP>,
    cur: usize,
}

fn contains(names: &Vec<String>, n: &str) -> (r: bool)
    ensures
        r == exists|i: int| 0 <= i < names@.len() && (#[trigger] names@[i])@ == n@,
{
    let mut i: usize = 0;
    while i < names.len()
        invariant
            i <= names@.len(),
            forall|k: int| 0 <= k < i ==> (#[trigger] names@[k])@ != n@,
        decreases names@.len() - i,
    {
        if str_eq(names[i].as_str(), n) {
            return true;
        }
        i = i + 1;
    }
    false
}

/// Whether code ends with `Return`, so that running it never falls off
/// its end.
pub open spec fn ends_with_return(code: Seq<u8>) -> bool {
    code.len() > 0 && code.last() == op_byte(Op::Return)
}

/// Whether a forward jump whose offset is at `at` can be patched to land on
/// `dest` in code of length `len`.
pub open spec fn patch_fits(len: int, at: int, dest: int) -> bool {
    at + 2 <= len && dest >= at + 2 && dest - (at + 2) <= 0xFFFF
}

/// The index of the last entry named `n`.
pub open spec fn last_index(tab: Seq<(String, usize)>, n: Seq<char>) -> Option<usize>
    decreases tab.len(),
{
    if tab.len() == 0 {
        None
    } else if tab.last().0@ == n {
        Some(tab.last().1)
    } else {
        last_index(tab.drop_last(), n)
    }
}

/// The slot of the last local named `n`.
pub open spec fn slot_of(ls: Seq<(Seq<char>, u64)>, n: Seq<char>) -> Option<int>
    decreases ls.len(),
{
    if ls.len() == 0 {
        None
    } else if ls.last().0 == n {
        Some(ls.len() - 1)
    } else {
        slot_of(ls.drop_last(), n)
    }
}

/// The value of the first constant named `n`.
pub open spec fn const_named(cs: Seq<(String, Value)>, n: Seq<char>) -> Option<Val>
    decreases cs.len(),
{
    if cs.len() == 0 {
        None
    } else if cs[0].0@ == n {
        Some(cs[0].1.view())
    } else {
        const_named(cs.drop_first(), n)
    }
}

/// The depth a scope returns to when it ends.
pub open spec fn outer_depth(d: u64) -> u64 {
    if d > 0 { (d - 1) as u64 } else { 0 }
}

/// How many locals stay when the scopes deeper than `d` end: those up to
/// the last one at depth `d` or less.
pub open spec fn kept_locals(ls: Seq<(Seq<char>, u64)>, d: u64) -> nat
    decreases ls.len(),
{
    if ls.len() == 0 || ls.last().1 <= d {
        ls.len()
    } else {
        kept_locals(ls.drop_last(), d)
    }
}

/// `code` with each forward jump offset at `ats` patched to land on `dest`,
/// in order.
pub open spec fn patch_all(code: Seq<u8>, ats: Seq<usize>, dest: int) -> Seq<u8>
    decreases ats.len(),
{
    if ats.len() == 0 {
        code
    } else {
        patched(patch_all(code, ats.drop_last(), dest), ats.last() as int, dest - (ats.last() + 2))
    }
}

/// The innermost loop records the jump at `at` as a `break` (else as a
/// `continue`); the other loops stay as they were.
spec fn loop_recorded(before: Seq<LoopP>, after: Seq<LoopP>, is_break: bool, at: usize) -> bool {
    &&& before.len() > 0
    &&& after.len() == before.len()
    &&& forall|i: int| 0 <= i < before.len() - 1 ==> #[trigger] after[i] == before[i]
    &&& if is_break {
        after.last().breaks@ == before.last().breaks@.push(at) && after.last().continues == before.last().continues
    } else {
        after.last().continues@ == before.last().continues@.push(at) && after.last().breaks == before.last().breaks
    }
}

/// The code that adds one to the counter in slot `i`: read it, add the
/// constant at pool index `one`, store it, and drop the value.
pub open spec fn increment_code(i: u16, one: u16) -> Seq<u8> {
    seq![op_byte(Op::GetLocal)] + u16_bytes(i) + seq![op_byte(Op::Const)] + u16_bytes(one)
        + seq![op_byte(Op::Add), op_byte(Op::SetLocal)] + u16_bytes(i) + seq![op_byte(Op::Pop)]
}

/// Whether the end of a `for` loop can be written after chunk `c`: the
/// `continue` jumps reach the increment, the pool has room for `1`, the
/// jump back reaches `start`, and the exit jump and the `break` jumps reach
/// the code after the loop.
pub open spec fn close_for_fits(c: ChunkV, conts: Seq<usize>, breaks: Seq<usize>, start: int, exit: int) -> bool {
    let n = c.code.len() as int;
    &&& forall|i: int| 0 <= i < conts.len() ==> patch_fits(n, #[trigger] conts[i] as int, n)
    &&& (first_same(c.constants, Val::Int(1)) is Some || c.constants.len() < 65535)
    &&& start <= n + 11 + 1 && n + 11 + 1 - start + 2 <= 0xFFFF
    &&& patch_fits(n + 14, exit, n + 14)
    &&& forall|i: int| 0 <= i < breaks.len() ==> patch_fits(n + 15, #[trigger] breaks[i] as int, n + 15)
}

/// The code after chunk `c` once a `for` loop is closed.
pub open spec fn close_for_code(c: ChunkV, conts: Seq<usize>, breaks: Seq<usize>, i: u16, start: int, exit: int)
    -> Seq<u8>
{
    let n = c.code.len() as int;
    let body = patch_all(c.code, conts, n) + increment_code(i, const_index(c.constants, Val::Int(1)) as u16)
        + seq![op_byte(Op::Loop)] + u16_bytes((n + 11 + 3 - start) as u16);
    patch_all(patched(body, exit, n + 14 - (exit + 2)).push(op_byte(Op::Pop)), breaks, n + 15)
}

/// Patching jumps keeps the code's length.
proof fn lemma_patch_all_len(code: Seq<u8>, ats: Seq<usize>, dest: int)
    requires
        forall|i: int| 0 <= i < ats.len() ==> #[trigger] ats[i] + 2 <= code.len(),
    ensures
        patch_all(code, ats, dest).len() == code.len(),
    decreases ats.len(),
{
    if ats.len() > 0 {
        lemma_patch_all_len(code, ats.drop_last(), dest);
    }
}

/// The index stored for `n`; a later entry for the same name wins.
fn index_of(tab: &Vec<(String, usize)>, n: &str) -> (r: Option<usize>)
    ensures
        r == last_index(tab@, n@),
{
    let mut i = tab.len();
    assert(tab@.take(i as int) =~= tab@);
    while i > 0
        invariant
            i <= tab@.len(),
            last_index(tab@, n@) == last_index(tab@.take(i as int), n@),
        decreases i,
    {
        assert(tab@.take(i as int).drop_last() =~= tab@.take(i - 1));
        assert(tab@.take(i as int).last() == tab@[i - 1]);
        i = i - 1;
        if str_eq(tab[i].0.as_str(), n) {
            return Some(tab[i].1);
        }
    }
    None
}

/// The locals as (name, depth) pairs, innermost last.
spec fn local_pairs(ls: Seq<Local>) -> Seq<(Seq<char>, u64)> {
    Seq::new(ls.len(), |i: int| (ls[i].name@, ls[i].depth))
}

/// What the code of an expression depends on: the constants, the locals in
/// scope, the function and struct indices and the struct layouts.
pub struct Names {
    consts: Seq<(String, Value)>,
    locals: Seq<(Seq<char>, u64)>,
    funs: Seq<(String, usize)>,
    structs: Seq<(String, usize)>,
    layouts: Seq<StructType>,
}

/// A state that code passes through.
spec fn stage(a: (Seq<u8>, Seq<Val>)) -> bool {
    true
}

/// `a` followed by `op`.
spec fn with_op(a: (Seq<u8>, Seq<Val>), op: Op) -> (Seq<u8>, Seq<Val>) {
    (a.0.push(op_byte(op)), a.1)
}

/// `a` followed by `op` and the operand `n`.
spec fn with_op_u16(a: (Seq<u8>, Seq<Val>), op: Op, n: u16) -> (Seq<u8>, Seq<Val>) {
    (a.0.push(op_byte(op)) + u16_bytes(n), a.1)
}

/// `a` followed by `op` whose operand is the pool index of `v`, which the
/// pool gets if it is new.
spec fn with_pooled(a: (Seq<u8>, Seq<Val>), op: Op, v: Val) -> (Seq<u8>, Seq<Val>) {
    (a.0.push(op_byte(op)) + u16_bytes(const_index(a.1, v) as u16), pool_with(a.1, v))
}

/// The instruction of a unary operator.
spec fn unary_op(op: UnOp) -> Op {
    match op {
        UnOp::Neg => Op::Neg,
        UnOp::Not => Op::Not,
    }
}

/// `a` followed by the jump that skips the right operand of `&&` (when
/// false) or `||` (when true), with its offset still open, and `Pop`.
spec fn short_circuit(a: (Seq<u8>, Seq<Val>), op: BinOp) -> (Seq<u8>, Seq<Val>) {
    with_op(with_op_u16(a, if op == BinOp::And { Op::JumpIfFalse } else { Op::JumpIfTrue }, 0xFFFF), Op::Pop)
}

/// The instruction of a binary operator other than `&&` and `||`.
pub open spec fn binary_op(op: BinOp) -> Op {
    match op {
        BinOp::Add => Op::Add,
        BinOp::Sub => Op::Sub,
        BinOp::Mul => Op::Mul,
        BinOp::Div => Op::Div,
        BinOp::Rem => Op::Rem,
        BinOp::Eq => Op::Eq,
        BinOp::Ne => Op::Ne,
        BinOp::Lt => Op::Lt,
        BinOp::Le => Op::Le,
        BinOp::Gt => Op::Gt,
        _ => Op::Ge,
    }
}

/// The instruction of a built-in that takes its arguments from the stack.
spec fn builtin_op(name: Seq<char>) -> Option<Op> {
    if name == "str_at"@ {
        Some(Op::StrAt)
    } else if name == "str_sub"@ {
        Some(Op::StrSub)
    } else if name == "to_string"@ {
        Some(Op::ToString)
    } else if name == "push"@ {
        Some(Op::Push)
    } else if name == "pop"@ {
        Some(Op::ArrayPop)
    } else if name == "input"@ {
        Some(Op::Input)
    } else {
        None
    }
}

/// Code and pool `b` are code and pool `a` followed by the code of `e`:
/// operands first, then the operation. A float literal takes the bits the
/// host reads from its text, whatever they are.
pub closed spec fn expr_code(x: Names, e: Expr, a: (Seq<u8>, Seq<Val>), b: (Seq<u8>, Seq<Val>)) -> bool
    decreases e, 3int, 0nat,
{
    match e {
        Expr::Int { value, .. } => b == with_pooled(a, Op::Const, Val::Int(value)),
        Expr::Float { .. } => exists|bits: u64| b == #[trigger] with_pooled(a, Op::Const, Val::Float(bits)),
        Expr::Bool { value, .. } => b == with_op(a, if value { Op::True } else { Op::False }),
        Expr::Str { value, .. } => b == with_pooled(a, Op::Const, Val::Str(value@)),
        Expr::Var { name } => match const_named(x.consts, name.name@) {
            Some(v) => b == with_pooled(a, Op::Const, v),
            None => match slot_of(x.locals, name.name@) {
                Some(s) => b == with_op_u16(a, Op::GetLocal, s as u16),
                None => false,
            },
        },
        Expr::Unary { op, expr, .. } => exists|m: (Seq<u8>, Seq<Val>)| #![trigger stage(m)] expr_code(x, *expr, a, m)
            && b == with_op(m, unary_op(op)),
        Expr::Binary { op, lhs, rhs, .. } => if op == BinOp::And || op == BinOp::Or {
            exists|m: (Seq<u8>, Seq<Val>), n: (Seq<u8>, Seq<Val>)|
                #![trigger stage(m), stage(n)]
                expr_code(x, *lhs, a, m)
                && expr_code(x, *rhs, short_circuit(m, op), n)
                && b == (patched(n.0, m.0.len() + 1int, n.0.len() - (m.0.len() + 3)), n.1)
        } else {
            exists|m: (Seq<u8>, Seq<Val>), n: (Seq<u8>, Seq<Val>)|
                #![trigger stage(m), stage(n)]
                expr_code(x, *lhs, a, m) && expr_code(x, *rhs, m, n) && b == with_op(n, binary_op(op))
        },
        Expr::Call { callee, args, .. } => call_code(x, callee.name@, args@, a, b),
        Expr::MethodCall { recv, method, args, .. } => {
            let dotted: Option<Seq<char>> = match *recv {
                Expr::Var { name } => Some(name.name@ + "."@ + method.name@),
                _ => None,
            };
            if dotted is Some && last_index(x.funs, dotted->Some_0) is Some {
                call_code(x, dotted->Some_0, args@, a, b)
            } else {
                exists|m: (Seq<u8>, Seq<Val>), n: (Seq<u8>, Seq<Val>)|
                    #![trigger stage(m), stage(n)]
                    expr_code(x, *recv, a, m) && exprs_code(x, args@, args@.len(), m, n)
                    && b == (with_pooled(n, Op::CallMethod, Val::Str(method.name@)).0 + u16_bytes(args@.len() as u16),
                        pool_with(n.1, Val::Str(method.name@)))
            }
        },
        Expr::Range { .. } => false,
        Expr::Index { base, index, .. } => exists|m: (Seq<u8>, Seq<Val>), n: (Seq<u8>, Seq<Val>)|
            #![trigger stage(m), stage(n)]
            expr_code(x, *base, a, m) && expr_code(x, *index, m, n) && b == with_op(n, Op::GetIndex),
        Expr::Field { base, name, .. } => exists|m: (Seq<u8>, Seq<Val>)| #![trigger stage(m)] expr_code(x, *base, a, m)
            && b == with_pooled(m, Op::GetField, Val::Str(name.name@)),
        Expr::Array { elems, .. } => exists|m: (Seq<u8>, Seq<Val>)| #![trigger stage(m)] exprs_code(x, elems@, elems@.len(), a, m)
            && b == with_op_u16(m, Op::NewArray, elems@.len() as u16),
        Expr::StructLit { name, fields, .. } => match last_index(x.structs, name.name@) {
            Some(idx) => idx < x.layouts.len() && {
                let decl = x.layouts[idx as int].fields@;
                exists|m: (Seq<u8>, Seq<Val>)| #![trigger stage(m)] fields_code(x, decl, fields@, decl.len(), a, m)
                    && b == (with_op_u16(m, Op::NewStruct, idx as u16).0 + u16_bytes(decl.len() as u16), m.1)
            },
            None => false,
        },
    }
}

/// The code of the first `n` expressions of `es`, in order.
spec fn exprs_code(x: Names, es: Seq<Expr>, n: nat, a: (Seq<u8>, Seq<Val>), b: (Seq<u8>, Seq<Val>)) -> bool
    decreases es, 1int, n,
{
    if n == 0 {
        b == a
    } else if n > es.len() {
        false
    } else {
        exists|m: (Seq<u8>, Seq<Val>)| #![trigger stage(m)]
            exprs_code(x, es, (n - 1) as nat, a, m) && expr_code(x, es[n - 1], m, b)
    }
}

/// The code of the values of the first `n` declared fields `decl` of a
/// struct literal, each taken from the first initialiser that names it.
spec fn fields_code(x: Names, decl: Seq<String>, fields: Seq<(Ident, Expr)>, n: nat,
    a: (Seq<u8>, Seq<Val>), b: (Seq<u8>, Seq<Val>)) -> bool
    decreases fields, 1int, n,
{
    if n == 0 {
        b == a
    } else if n > decl.len() {
        false
    } else {
        exists|m: (Seq<u8>, Seq<Val>), j: int| #![trigger stage(m), fields[j]]
            fields_code(x, decl, fields, (n - 1) as nat, a, m)
            && 0 <= j < fields.len() && fields[j].0.name@ == decl[n - 1]@
            && (forall|k: int| 0 <= k < j ==> (#[trigger] fields[k]).0.name@ != decl[n - 1]@)
            && expr_code(x, fields[j].1, m, b)
    }
}

/// Whether every name in `e` resolves: variables to constants or locals,
/// calls to built-ins or declared functions, struct literals to a layout
/// whose fields they all give; and `e` is no range.
spec fn expr_resolves(x: Names, e: Expr) -> bool
    decreases e, 3int,
{
    match e {
        Expr::Var { name } => const_named(x.consts, name.name@) is Some
            || slot_of(x.locals, name.name@) is Some,
        Expr::Unary { expr, .. } => expr_resolves(x, *expr),
        Expr::Binary { lhs, rhs, .. } => expr_resolves(x, *lhs) && expr_resolves(x, *rhs),
        Expr::Call { callee, args, .. } => call_resolves(x, callee.name@, args@),
        Expr::MethodCall { recv, method, args, .. } => {
            let dotted: Option<Seq<char>> = match *recv {
                Expr::Var { name } => Some(name.name@ + "."@ + method.name@),
                _ => None,
            };
            if dotted is Some && last_index(x.funs, dotted->Some_0) is Some {
                call_resolves(x, dotted->Some_0, args@)
            } else {
                expr_resolves(x, *recv) && all_resolve(x, args@)
            }
        },
        Expr::Range { .. } => false,
        Expr::Index { base, index, .. } => expr_resolves(x, *base) && expr_resolves(x, *index),
        Expr::Field { base, .. } => expr_resolves(x, *base),
        Expr::Array { elems, .. } => all_resolve(x, elems@),
        Expr::StructLit { name, fields, .. } => match last_index(x.structs, name.name@) {
            Some(idx) => idx < x.layouts.len()
                && (forall|i: int| 0 <= i < x.layouts[idx as int].fields@.len() ==> exists|j: int|
                    0 <= j < fields@.len() && (#[trigger] fields@[j]).0.name@ == (#[trigger] x.layouts[idx as int].fields@[i])@)
                && (forall|j: int| 0 <= j < fields@.len() ==> expr_resolves(x, (#[trigger] fields@[j]).1)),
            None => false,
        },
        _ => true,
    }
}

/// Whether every name in each of `es` resolves.
spec fn all_resolve(x: Names, es: Seq<Expr>) -> bool
    decreases es, 1int,
{
    forall|i: int| 0 <= i < es.len() ==> expr_resolves(x, #[trigger] es[i])
}

/// Whether a call of `name` with `args` resolves.
spec fn call_resolves(x: Names, name: Seq<char>, args: Seq<Expr>) -> bool
    decreases args, 2int,
{
    if name == "print"@ || name == "len"@ {
        args.len() > 0 && expr_resolves(x, args[0])
    } else {
        all_resolve(x, args) && (builtin_op(name) is Some || last_index(x.funs, name) is Some)
    }
}

/// Compilation from `a` to `b` ran into a limit: the constant pool is full,
/// or more than a jump can span was emitted.
spec fn at_limit(a: (Seq<u8>, Seq<Val>), b: (Seq<u8>, Seq<Val>)) -> bool {
    b.1.len() >= 65535 || b.0.len() > a.0.len() + 0xFFFF
}

/// The code and pool of `b` extend those of `a`.
spec fn grows(a: (Seq<u8>, Seq<Val>), b: (Seq<u8>, Seq<Val>)) -> bool {
    a.0.len() <= b.0.len() && a.1.len() <= b.1.len()
}

/// Whether an expression statement calls a function that returns nothing,
/// so that it leaves no value to pop.
spec fn calls_void(voids: Seq<String>, e: Expr) -> bool {
    let n: Option<Seq<char>> = match e {
        Expr::Call { callee, .. } => Some(callee.name@),
        Expr::MethodCall { method, .. } => Some(method.name@),
        _ => None,
    };
    n is Some && exists|i: int| 0 <= i < voids.len() && (#[trigger] voids[i])@ == n->Some_0
}

/// The state that statement code changes: the code and constant pool of
/// the function, its locals (name and scope depth, innermost last), its
/// scope depth, and the loops being compiled with their pending jumps.
struct CSt {
    code: Seq<u8>,
    pool: Seq<Val>,
    locals: Seq<(Seq<char>, u64)>,
    depth: u64,
    loops: Seq<LoopP>,
}

/// A state that statement code passes through.
spec fn at_stage(s: CSt) -> bool {
    true
}

/// The names `x` with the locals `ls` in scope.
spec fn names_at(x: Names, ls: Seq<(Seq<char>, u64)>) -> Names {
    Names { consts: x.consts, locals: ls, funs: x.funs, structs: x.structs, layouts: x.layouts }
}

/// The code and pool of a state.
spec fn cp_of(s: CSt) -> (Seq<u8>, Seq<Val>) {
    (s.code, s.pool)
}

/// `s` with code and pool `cp`.
spec fn with_cp(s: CSt, cp: (Seq<u8>, Seq<Val>)) -> CSt {
    CSt { code: cp.0, pool: cp.1, locals: s.locals, depth: s.depth, loops: s.loops }
}

/// `s` with code `c`.
spec fn with_code(s: CSt, c: Seq<u8>) -> CSt {
    CSt { code: c, pool: s.pool, locals: s.locals, depth: s.depth, loops: s.loops }
}

/// `s` with a new local `n` at its depth.
spec fn with_local(s: CSt, n: Seq<char>) -> CSt {
    CSt { code: s.code, pool: s.pool, locals: s.locals.push((n, s.depth)), depth: s.depth, loops: s.loops }
}

/// `s` followed by `op`.
spec fn st_op(s: CSt, op: Op) -> CSt {
    with_cp(s, with_op(cp_of(s), op))
}

/// `s` followed by `op` and the operand `n`.
spec fn st_op16(s: CSt, op: Op, n: u16) -> CSt {
    with_cp(s, with_op_u16(cp_of(s), op, n))
}

/// `a` followed by the jump `op` with its offset still open, and `Pop`.
spec fn jump_pop(a: (Seq<u8>, Seq<Val>), op: Op) -> (Seq<u8>, Seq<Val>) {
    with_op(with_op_u16(a, op, 0xFFFF), Op::Pop)
}

/// Expression `e` compiled from `s` gives `t`: only code and pool change.
spec fn expr_step(x: Names, s: CSt, e: Expr, t: CSt) -> bool {
    &&& t.locals == s.locals
    &&& t.depth == s.depth
    &&& t.loops == s.loops
    &&& expr_code(names_at(x, s.locals), e, cp_of(s), cp_of(t))
}

/// `n` `Pop`s.
spec fn pops(n: nat) -> Seq<u8> {
    Seq::new(n, |i: int| op_byte(Op::Pop))
}

/// `s` once a scope is entered.
spec fn begun(s: CSt) -> CSt {
    CSt { code: s.code, pool: s.pool, locals: s.locals,
        depth: if s.depth < u64::MAX { (s.depth + 1) as u64 } else { s.depth }, loops: s.loops }
}

/// `s` once the innermost scope ends: its locals are dropped and popped.
spec fn ended(s: CSt) -> CSt {
    let k = kept_locals(s.locals, outer_depth(s.depth));
    CSt { code: s.code + pops((s.locals.len() - k) as nat), pool: s.pool, locals: s.locals.take(k as int),
        depth: outer_depth(s.depth), loops: s.loops }
}

/// `t` is `s` with a new loop, with no pending jumps yet.
spec fn pushed(s: CSt, t: CSt) -> bool {
    &&& t.code == s.code && t.pool == s.pool && t.locals == s.locals && t.depth == s.depth
    &&& t.loops.len() == s.loops.len() + 1
    &&& t.loops.drop_last() == s.loops
    &&& t.loops.last().breaks@.len() == 0
    &&& t.loops.last().continues@.len() == 0
}

/// `t` is `s` with a `Jump` whose offset is still open, recorded in the
/// innermost loop as a `break` (else as a `continue`).
spec fn jump_recorded(s: CSt, t: CSt, is_break: bool) -> bool {
    &&& s.loops.len() > 0
    &&& t.code == s.code.push(op_byte(Op::Jump)) + u16_bytes(0xFFFF)
    &&& t.pool == s.pool && t.locals == s.locals && t.depth == s.depth
    &&& loop_recorded(s.loops, t.loops, is_break, (s.code.len() + 1) as usize)
}

/// The end of a `while` loop after its body's code `code`: its `continue`s
/// land here, a `Loop` back to `start`, the exit jump at `exit` lands after
/// it on a `Pop`, and its `break`s land after that.
spec fn while_tail(code: Seq<u8>, ctx: LoopP, start: int, exit: int) -> Seq<u8> {
    let c1 = patch_all(code, ctx.continues@, code.len() as int);
    let c2 = c1.push(op_byte(Op::Loop)) + u16_bytes((c1.len() + 3 - start) as u16);
    let c3 = patched(c2, exit, c2.len() - (exit + 2));
    let c4 = c3.push(op_byte(Op::Pop));
    patch_all(c4, ctx.breaks@, c4.len() as int)
}

/// The code and pool after the field reads `fs[0..n]` (each `GetField`).
spec fn gets_cp(a: (Seq<u8>, Seq<Val>), fs: Seq<Ident>, n: nat) -> (Seq<u8>, Seq<Val>)
    decreases n,
{
    if n == 0 || n > fs.len() {
        a
    } else {
        with_pooled(gets_cp(a, fs, (n - 1) as nat), Op::GetField, Val::Str(fs[n - 1].name@))
    }
}

/// The code and pool after the field writes `fs[hi - 1]` down to `fs[k]`
/// (each `SetField`).
spec fn sets_cp(a: (Seq<u8>, Seq<Val>), fs: Seq<Ident>, k: nat, hi: nat) -> (Seq<u8>, Seq<Val>)
    decreases hi - k,
{
    if k >= hi || hi > fs.len() {
        a
    } else {
        with_pooled(sets_cp(a, fs, k + 1, hi), Op::SetField, Val::Str(fs[k as int].name@))
    }
}

/// The code of an assignment: to a local, to an element of a local array,
/// to a field path of a local struct, or to a field of an element.
spec fn assign_code(x: Names, asg: AssignStmt, a: CSt, b: CSt) -> bool {
    let fs = asg.fields@;
    !asg.via_deref && slot_of(a.locals, asg.name.name@) is Some && {
        let sl = slot_of(a.locals, asg.name.name@)->Some_0 as u16;
        if fs.len() == 0 {
            match asg.index {
                None => exists|m: CSt| #![trigger at_stage(m)] expr_step(x, a, asg.value, m)
                    && b == st_op(st_op16(m, Op::SetLocal, sl), Op::Pop),
                Some(idx) => exists|m: CSt, n: CSt| #![trigger at_stage(m), at_stage(n)]
                    expr_step(x, st_op16(a, Op::GetLocal, sl), idx, m) && expr_step(x, m, asg.value, n)
                    && b == st_op(n, Op::SetIndex),
            }
        } else {
            match asg.index {
                None => {
                    let h = st_op16(a, Op::GetLocal, sl);
                    let h2 = if fs.len() > 1 {
                        let g = st_op16(h, Op::GetLocal, sl);
                        with_cp(g, gets_cp(cp_of(g), fs, (fs.len() - 1) as nat))
                    } else {
                        h
                    };
                    exists|m: CSt| #![trigger at_stage(m)] expr_step(x, h2, asg.value, m)
                        && b == st_op(st_op16(with_cp(m, sets_cp(cp_of(m), fs, 0, fs.len())), Op::SetLocal, sl), Op::Pop)
                },
                Some(idx) => fs.len() == 1 && exists|m: CSt, n: CSt, o: CSt| #![trigger at_stage(m), at_stage(n), at_stage(o)]
                    expr_step(x, st_op16(a, Op::GetLocal, sl), idx, m)
                    && expr_step(x, st_op16(m, Op::GetLocal, sl), idx, n)
                    && expr_step(x, st_op(n, Op::GetIndex), asg.value, o)
                    && b == st_op(with_cp(o, with_pooled(cp_of(o), Op::SetField, Val::Str(fs[0].name@))), Op::SetIndex),
            }
        }
    }
}

/// The code of a statement from state `a`, ending in state `b`; `voids`
/// are the functions that return nothing.
spec fn stmt_code(x: Names, voids: Seq<String>, s: Stmt, a: CSt, b: CSt) -> bool
    decreases s, 2int, 0nat,
{
    match s {
        Stmt::Let(l) => exists|m: CSt| #![trigger at_stage(m)] expr_step(x, a, l.value, m)
            && b == with_local(m, l.name.name@),
        Stmt::Assign(asg) => assign_code(x, asg, a, b),
        Stmt::If(i) => if_code(x, voids, i, a, b),
        Stmt::While(w) => while_code(x, voids, w, a, b),
        Stmt::For(f) => for_code(x, voids, f, a, b),
        Stmt::Break(_) => jump_recorded(a, b, true),
        Stmt::Continue(_) => jump_recorded(a, b, false),
        Stmt::Return(rs) => match rs.value {
            None => b == st_op(a, Op::Return),
            Some(e) => exists|m: CSt| #![trigger at_stage(m)] expr_step(x, a, e, m) && b == st_op(m, Op::Return),
        },
        Stmt::Expr(es) => exists|m: CSt| #![trigger at_stage(m)] expr_step(x, a, es.expr, m)
            && b == if calls_void(voids, es.expr) { m } else { st_op(m, Op::Pop) },
        Stmt::Block(blk) => block_code(x, voids, blk, a, b),
    }
}

/// The code of the first `n` statements of `ss`, in order.
spec fn stmts_code(x: Names, voids: Seq<String>, ss: Seq<Stmt>, n: nat, a: CSt, b: CSt) -> bool
    decreases ss, 0int, n,
{
    if n == 0 {
        b == a
    } else if n > ss.len() {
        false
    } else {
        exists|m: CSt| #![trigger at_stage(m)] stmts_code(x, voids, ss, (n - 1) as nat, a, m)
            && stmt_code(x, voids, ss[n - 1], m, b)
    }
}

/// The code of a block: its statements in a scope of their own.
spec fn block_code(x: Names, voids: Seq<String>, blk: Block, a: CSt, b: CSt) -> bool
    decreases blk, 1int, 0nat,
{
    exists|m: CSt| #![trigger at_stage(m)] stmts_code(x, voids, blk.stmts@, blk.stmts@.len(), begun(a), m)
        && b == ended(m)
}

/// The code of `if`: the condition, a jump over the `then` block when it
/// is false, the block, a jump over the rest, then the `else` branch, if
/// any; the condition is popped on either path.
spec fn if_code(x: Names, voids: Seq<String>, i: IfStmt, a: CSt, b: CSt) -> bool
    decreases i, 1int, 0nat,
{
    exists|m: CSt, q: CSt| #![trigger at_stage(m), at_stage(q)]
        expr_step(x, a, i.cond, m)
        && block_code(x, voids, i.then_block, with_cp(m, jump_pop(cp_of(m), Op::JumpIfFalse)), q)
        && {
            let tj = m.code.len() + 1int;
            let ej = q.code.len() + 1int;
            let c1 = q.code.push(op_byte(Op::Jump)) + u16_bytes(0xFFFF);
            let c3 = patched(c1, tj, c1.len() - (tj + 2)).push(op_byte(Op::Pop));
            match i.else_branch {
                None => b == with_code(q, patched(c3, ej, c3.len() - (ej + 2))),
                Some(br) => exists|n: CSt| #![trigger at_stage(n)]
                    match br {
                        ElseBranch::Block(eb) => block_code(x, voids, eb, with_code(q, c3), n),
                        ElseBranch::If(ei) => if_code(x, voids, *ei, with_code(q, c3), n),
                    } && b == with_code(n, patched(n.code, ej, n.code.len() - (ej + 2))),
            }
        }
}

/// The code of `while`: the condition, an exit jump, the body, and the end
/// of the loop.
spec fn while_code(x: Names, voids: Seq<String>, w: WhileStmt, a: CSt, b: CSt) -> bool
    decreases w, 1int, 0nat,
{
    exists|p: CSt, m: CSt, q: CSt| #![trigger at_stage(p), at_stage(m), at_stage(q)]
        pushed(a, p) && expr_step(x, p, w.cond, m)
        && block_code(x, voids, w.body, with_cp(m, jump_pop(cp_of(m), Op::JumpIfFalse)), q)
        && q.loops.len() > 0
        && b == CSt { code: while_tail(q.code, q.loops.last(), a.code.len() as int, m.code.len() + 1int),
            pool: q.pool, locals: q.locals, depth: q.depth, loops: q.loops.drop_last() }
}

/// The state after a `for` loop whose body ended in `q`: the counter in
/// slot `i` is increased, the loop closed (`close_for_code`), and the
/// loop's own scope ended.
spec fn for_end(q: CSt, i: u16, start: int, exit: int) -> CSt {
    let c = ChunkV { code: q.code, constants: q.pool, lines: Seq::empty() };
    ended(CSt {
        code: close_for_code(c, q.loops.last().continues@, q.loops.last().breaks@, i, start, exit),
        pool: pool_with(q.pool, Val::Int(1)), locals: q.locals, depth: q.depth, loops: q.loops.drop_last(),
    })
}

/// The code of `for`: over a range, a counter and an end local, the test
/// `counter < end`; over an array, the array and an index local, the test
/// `index < len(array)` and the element as the loop variable; then the
/// body, and the end of the loop.
spec fn for_code(x: Names, voids: Seq<String>, f: ForStmt, a: CSt, b: CSt) -> bool
    decreases f, 1int, 0nat,
{
    let s1 = begun(a);
    match f.iter {
        Expr::Range { start, end, .. } => exists|m1: CSt, m2: CSt, p: CSt, q: CSt|
            #![trigger at_stage(m1), at_stage(m2), at_stage(p), at_stage(q)]
            expr_step(x, s1, *start, m1) && expr_step(x, with_local(m1, f.var.name@), *end, m2)
            && {
                let m3 = with_local(m2, "\0end"@);
                let is = slot_of(m3.locals, f.var.name@);
                let es = slot_of(m3.locals, "\0end"@);
                &&& is is Some && es is Some
                &&& pushed(m3, p)
                &&& {
                    let h = st_op(st_op16(st_op16(p, Op::GetLocal, is->Some_0 as u16), Op::GetLocal, es->Some_0 as u16), Op::Lt);
                    &&& block_code(x, voids, f.body, with_cp(h, jump_pop(cp_of(h), Op::JumpIfFalse)), q)
                    &&& q.loops.len() > 0
                    &&& b == for_end(q, is->Some_0 as u16, m3.code.len() as int, h.code.len() + 1int)
                }
            },
        _ => exists|m1: CSt, p: CSt, n: CSt| #![trigger at_stage(m1), at_stage(p), at_stage(n)]
            expr_step(x, s1, f.iter, m1)
            && {
                let m3 = with_local(with_cp(with_local(m1, "\0arr"@), with_pooled(cp_of(m1), Op::Const, Val::Int(0))), "\0i"@);
                let ars = slot_of(m3.locals, "\0arr"@);
                let is = slot_of(m3.locals, "\0i"@);
                &&& ars is Some && is is Some
                &&& pushed(m3, p)
                &&& {
                    let h = st_op(st_op(st_op16(st_op16(p, Op::GetLocal, is->Some_0 as u16), Op::GetLocal, ars->Some_0 as u16), Op::Len), Op::Lt);
                    let h2 = st_op(st_op16(st_op16(with_cp(h, jump_pop(cp_of(h), Op::JumpIfFalse)), Op::GetLocal, ars->Some_0 as u16),
                        Op::GetLocal, is->Some_0 as u16), Op::GetIndex);
                    &&& stmts_code(x, voids, f.body.stmts@, f.body.stmts@.len(), with_local(begun(h2), f.var.name@), n)
                    &&& ended(n).loops.len() > 0
                    &&& b == for_end(ended(n), is->Some_0 as u16, m3.code.len() as int, h.code.len() + 1int)
                }
            },
    }
}

/// Code for one more statement extends the code of those before it.
proof fn lemma_stmts_step(x: Names, voids: Seq<String>, ss: Seq<Stmt>, n: nat, a: CSt, m: CSt, b: CSt)
    requires
        n < ss.len(),
        stmts_code(x, voids, ss, n, a, m),
        stmt_code(x, voids, ss[n as int], m, b),
    ensures
        stmts_code(x, voids, ss, n + 1, a, b),
{
    assert(at_stage(m));
    let k: nat = n + 1;
    assert((k - 1) as nat == n);
    assert(ss[k - 1] == ss[n as int]);
    assert(k != 0 && k <= ss.len());
    assert(stmts_code(x, voids, ss, k, a, b));
}

/// The code of a binary operation other than `&&` and `||` ends with one
/// instruction that, run on two integers, leaves what folding the operation
/// on them at compile time gives (for comparisons, the comparison itself:
/// `law_fold_int_comparison`): `<=` compiles to the instruction that pushes
/// whether the first is at most the second, and so on; and fails where
/// folding does not apply (division by zero).
pub proof fn law_binary_code(x: Names, op: BinOp, lhs: Expr, rhs: Expr, span: Span,
    a: (Seq<u8>, Seq<Val>), b: (Seq<u8>, Seq<Val>), m: &Module, s: VmV, fr: u64, t: Seq<char>, p: i64, q: i64)
    requires
        op != BinOp::And && op != BinOp::Or,
        expr_code(x, Expr::Binary { op, lhs: Box::new(lhs), rhs: Box::new(rhs), span }, a, b),
        s.frames.len() > 0,
        s.frames.last().func < m.functions@.len(),
        s.frames.last().ip < code_of(m, s.frames.last().func as int).len(),
        s.frames.last().ip + 1 <= usize::MAX,
        code_of(m, s.frames.last().func as int)[s.frames.last().ip as int] == b.0.last(),
        s.stack.len() >= 2,
        s.stack[s.stack.len() - 2] == Val::Int(p),
        s.stack.last() == Val::Int(q),
    ensures
        b.0.len() > 0,
        match fold_value(op, Val::Int(p), Val::Int(q)) {
            Some(v) => step_spec(m, s, fr, t) == StepV::Running(with_ip(
                VmV { stack: s.stack.subrange(0, s.stack.len() - 2).push(v), ..s }, s.frames.last().ip + 1)),
            None => step_spec(m, s, fr, t) is Failed,
        },
{
    assert(b.0.len() > 0 && b.0.last() == op_byte(binary_op(op)));
    crate::op::lemma_op_byte_roundtrip(binary_op(op));
    law_int_comparison(m, s, fr, t, p, q);
}

/// The code of `-e` ends with an instruction that, on an integer other
/// than the least, pushes its negation; the code of `!e` with one that, on
/// a boolean, pushes its negation.
pub proof fn law_unary_code(x: Names, op: UnOp, inner: Expr, span: Span,
    a: (Seq<u8>, Seq<Val>), b: (Seq<u8>, Seq<Val>), m: &Module, s: VmV, fr: u64, t: Seq<char>)
    requires
        expr_code(x, Expr::Unary { op, expr: Box::new(inner), span }, a, b),
        at_instruction(m, s),
        current_byte(m, s) == b.0.last(),
        s.stack.len() >= 1,
    ensures
        b.0.len() > 0,
        op == UnOp::Neg ==> (s.stack.last() matches Val::Int(p)
            ==> (p != i64::MIN ==> step_spec(m, s, fr, t) == replaced(s, 1, Val::Int((-p) as i64)))),
        op == UnOp::Not ==> (s.stack.last() matches Val::Bool(v)
            ==> step_spec(m, s, fr, t) == replaced(s, 1, Val::Bool(!v))),
{
    assert(b.0.len() > 0 && b.0.last() == op_byte(unary_op(op)));
    law_negation(m, s, fr, t);
}

/// The pool index that loading `v` uses holds `v` (for an integer).
proof fn lemma_pooled_int(cs: Seq<Val>, n: i64)
    requires
        cs.len() < 65535,
    ensures
        0 <= const_index(cs, Val::Int(n)) < pool_with(cs, Val::Int(n)).len(),
        pool_with(cs, Val::Int(n))[const_index(cs, Val::Int(n))] == Val::Int(n),
        pool_with(cs, Val::Int(n)).len() <= cs.len() + 1,
        forall|j: int| 0 <= j < cs.len() ==> #[trigger] pool_with(cs, Val::Int(n))[j] == cs[j],
{
    crate::chunk::lemma_first_same(cs, Val::Int(n));
}

/// The code of `p op q` on two integer literals loads `p`, then `q`, then
/// applies the operation (see `law_binary_code` for what it computes): the
/// left operand is the one below on the stack.
pub proof fn law_literal_binary_code(x: Names, op: BinOp, p: i64, q: i64, sp: Span, sq: Span, span: Span,
    a: (Seq<u8>, Seq<Val>), b: (Seq<u8>, Seq<Val>))
    requires
        op != BinOp::And && op != BinOp::Or,
        a.1.len() < 65534,
        expr_code(x, Expr::Binary { op, lhs: Box::new(Expr::Int { value: p, span: sp }),
            rhs: Box::new(Expr::Int { value: q, span: sq }), span }, a, b),
    ensures
        ({
            let k = a.0.len() as int;
            &&& b.0.len() == k + 7
            &&& b.0.subrange(0, k) == a.0
            &&& b.0[k] == op_byte(Op::Const) && b.0[k + 3] == op_byte(Op::Const)
            &&& read_u16_at(b.0, k + 1) < b.1.len() && b.1[read_u16_at(b.0, k + 1) as int] == Val::Int(p)
            &&& read_u16_at(b.0, k + 4) < b.1.len() && b.1[read_u16_at(b.0, k + 4) as int] == Val::Int(q)
            &&& b.0[k + 6] == op_byte(binary_op(op))
        }),
{
    let mm = with_pooled(a, Op::Const, Val::Int(p));
    let nn = with_pooled(mm, Op::Const, Val::Int(q));
    lemma_pooled_int(a.1, p);
    lemma_pooled_int(mm.1, q);
    reveal_with_fuel(expr_code, 2);
    assert(b == with_op(nn, binary_op(op)));
    let ip = const_index(a.1, Val::Int(p));
    let iq = const_index(mm.1, Val::Int(q));
    assert((ip as u16) % 256 + 256 * ((ip as u16) / 256) == ip) by (nonlinear_arith)
        requires 0 <= ip < 65535;
    assert((iq as u16) % 256 + 256 * ((iq as u16) / 256) == iq) by (nonlinear_arith)
        requires 0 <= iq < 65535;
    let k = a.0.len() as int;
    assert(b.0.subrange(0, k) =~= a.0);
    assert(read_u16_at(b.0, k + 1) == const_index(a.1, Val::Int(p)));
    assert(read_u16_at(b.0, k + 4) == const_index(mm.1, Val::Int(q)));
}

/// Code for one more expression extends the code of those before it.
proof fn lemma_exprs_step(x: Names, es: Seq<Expr>, n: nat, a: (Seq<u8>, Seq<Val>), m: (Seq<u8>, Seq<Val>),
    b: (Seq<u8>, Seq<Val>))
    requires
        n < es.len(),
        exprs_code(x, es, n, a, m),
        expr_code(x, es[n as int], m, b),
    ensures
        exprs_code(x, es, n + 1, a, b),
{
    assert(stage(m));
    let k: nat = n + 1;
    assert((k - 1) as nat == n);
    assert(es[k - 1] == es[n as int]);
    assert(k != 0 && k <= es.len());
    assert(exprs_code(x, es, k, a, b));
}

/// Code for one more declared field extends the code of those before it.
proof fn lemma_fields_step(x: Names, decl: Seq<String>, fields: Seq<(Ident, Expr)>, n: nat, j: int,
    a: (Seq<u8>, Seq<Val>), m: (Seq<u8>, Seq<Val>), b: (Seq<u8>, Seq<Val>))
    requires
        n < decl.len(),
        fields_code(x, decl, fields, n, a, m),
        0 <= j < fields.len(),
        fields[j].0.name@ == decl[n as int]@,
        forall|k: int| 0 <= k < j ==> (#[trigger] fields[k]).0.name@ != decl[n as int]@,
        expr_code(x, fields[j].1, m, b),
    ensures
        fields_code(x, decl, fields, n + 1, a, b),
{
    let k: nat = n + 1;
    assert((k - 1) as nat == n);
    assert(decl[k - 1] == decl[n as int]);
    assert(stage(m) && fields[j] == fields[j]);
    assert(k != 0 && k <= decl.len());
    assert(fields_code(x, decl, fields, k, a, b));
}

/// The code of a call of `name`: `print` and `len` of their first
/// argument, the other built-ins and declared functions of all arguments.
spec fn call_code(x: Names, name: Seq<char>, args: Seq<Expr>, a: (Seq<u8>, Seq<Val>), b: (Seq<u8>, Seq<Val>)) -> bool
    decreases args, 2int, 0nat,
{
    if name == "print"@ || name == "len"@ {
        args.len() > 0 && exists|m: (Seq<u8>, Seq<Val>)| #![trigger stage(m)] expr_code(x, args[0], a, m)
            && b == with_op(m, if name == "print"@ { Op::Print } else { Op::Len })
    } else {
        match builtin_op(name) {
            Some(o) => exists|m: (Seq<u8>, Seq<Val>)| #![trigger stage(m)] exprs_code(x, args, args.len(), a, m)
                && b == with_op(m, o),
            None => match last_index(x.funs, name) {
                Some(i) => exists|m: (Seq<u8>, Seq<Val>)| #![trigger stage(m)] exprs_code(x, args, args.len(), a, m)
                    && b == with_op_u16(m, Op::Call, i as u16),
                None => false,
            },
        }
    }
}

impl Compiler {
    /// The current function exists and every chunk keeps one line per
    /// code byte.
    pub closed spec fn wf(&self) -> bool {
        &&& self.cur < self.fns@.len()
        &&& forall|i: int| 0 <= i < self.fns@.len() ==> (#[trigger] self.fns@[i]).chunk.wf()
    }

    /// The chunk of the function being compiled.
    closed spec fn chunk_v(&self) -> ChunkV {
        self.fns@[self.cur as int].chunk.view()
    }

    /// The locals of the function being compiled, innermost last, and its
    /// scope depth.
    closed spec fn scope_v(&self) -> (Seq<(Seq<char>, u64)>, u64) {
        (local_pairs(self.fns@[self.cur as int].locals@), self.fns@[self.cur as int].depth)
    }

    /// The names that expression code reads.
    closed spec fn names(&self) -> Names {
        Names {
            consts: self.consts@,
            locals: local_pairs(self.fns@[self.cur as int].locals@),
            funs: self.fidx@,
            structs: self.sidx@,
            layouts: self.stypes@,
        }
    }

    /// The code and the constant pool of the current function.
    closed spec fn cp(&self) -> (Seq<u8>, Seq<Val>) {
        (self.chunk_v().code, self.chunk_v().constants)
    }

    /// The state that statement code changes.
    closed spec fn st(&self) -> CSt {
        CSt {
            code: self.chunk_v().code,
            pool: self.chunk_v().constants,
            locals: self.scope_v().0,
            depth: self.scope_v().1,
            loops: self.loops@,
        }
    }

    /// The names that statement code reads, but for the locals.
    closed spec fn base(&self) -> Names {
        Names {
            consts: self.consts@,
            locals: Seq::empty(),
            funs: self.fidx@,
            structs: self.sidx@,
            layouts: self.stypes@,
        }
    }

    /// `self` has the constants, function and struct indices of `before`.
    closed spec fn ctx_same(&self, before: &Compiler) -> bool {
        &&& self.consts == before.consts
        &&& self.fidx == before.fidx
        &&& self.sidx == before.sidx
    }

    /// `self` is `before` but for the chunk and the scope of the current
    /// function.
    closed spec fn others_same(&self, before: &Compiler) -> bool {
        &&& self.cur == before.cur
        &&& self.fns@.len() == before.fns@.len()
        &&& forall|i: int| 0 <= i < self.fns@.len() && i != self.cur ==> #[trigger] self.fns@[i] == before.fns@[i]
        &&& self.fns@[self.cur as int].name == before.fns@[self.cur as int].name
        &&& self.fns@[self.cur as int].arity == before.fns@[self.cur as int].arity
        &&& self.fidx == before.fidx
        &&& self.voids == before.voids
        &&& self.sidx == before.sidx
        &&& self.stypes == before.stypes
        &&& self.consts == before.consts
    }

    /// `self` is `before` but for the chunk of the current function.
    closed spec fn chunk_only(&self, before: &Compiler) -> bool {
        &&& self.others_same(before)
        &&& self.fns@[self.cur as int].locals == before.fns@[self.cur as int].locals
        &&& self.fns@[self.cur as int].depth == before.fns@[self.cur as int].depth
        &&& self.loops == before.loops
    }

    /// `self` is `before` but for the scope of the current function.
    closed spec fn scope_only(&self, before: &Compiler) -> bool {
        &&& self.others_same(before)
        &&& self.fns@[self.cur as int].chunk == before.fns@[self.cur as int].chunk
        &&& self.loops == before.loops
    }

    /// `self` compiles into the same function list as `before`.
    closed spec fn keeps(&self, before: &Compiler) -> bool {
        &&& self.wf()
        &&& self.cur == before.cur
        &&& self.fns@.len() == before.fns@.len()
        &&& forall|i: int| 0 <= i < self.fns@.len() ==> (#[trigger] self.fns@[i]).name == before.fns@[i].name
            && self.fns@[i].arity == before.fns@[i].arity
        &&& forall|i: int| 0 <= i < self.fns@.len() && i != self.cur ==> #[trigger] self.fns@[i] == before.fns@[i]
        &&& self.voids == before.voids
        &&& self.stypes == before.stypes
    }

    fn emit(&mut self, op: Op, line: u32)
        requires
            old(self).wf(),
        ensures
            final(self).keeps(old(self)),
            final(self).loops@.len() == old(self).loops@.len(),
            final(self).chunk_only(old(self)),
            final(self).chunk_v().code == old(self).chunk_v().code.push(op_byte(op)),
            final(self).chunk_v().lines == old(self).chunk_v().lines.push(line),
            final(self).chunk_v().constants == old(self).chunk_v().constants,
    {
        let c = self.cur;
        self.fns[c].chunk.emit(op, line);
    }

    fn emit_u16(&mut self, n: u16, line: u32)
        requires
            old(self).wf(),
        ensures
            final(self).keeps(old(self)),
            final(self).loops@.len() == old(self).loops@.len(),
            final(self).chunk_only(old(self)),
            final(self).chunk_v().code == old(self).chunk_v().code + u16_bytes(n),
            final(self).chunk_v().lines == old(self).chunk_v().lines.push(line).push(line),
            final(self).chunk_v().constants == old(self).chunk_v().constants,
    {
        let c = self.cur;
        self.fns[c].chunk.emit_u16(n, line);
    }

    fn emit_op_u16(&mut self, op: Op, n: u16, line: u32)
        requires
            old(self).wf(),
        ensures
            final(self).keeps(old(self)),
            final(self).loops@.len() == old(self).loops@.len(),
            final(self).chunk_only(old(self)),
            final(self).chunk_v().code == old(self).chunk_v().code.push(op_byte(op)) + u16_bytes(n),
            final(self).chunk_v().lines == old(self).chunk_v().lines.push(line).push(line).push(line),
            final(self).chunk_v().constants == old(self).chunk_v().constants,
    {
        self.emit(op, line);
        self.emit_u16(n, line);
    }

    fn emit_const(&mut self, v: Value, line: u32) -> (r: Result<(), CompileError>)
        requires
            old(self).wf(),
        ensures
            final(self).keeps(old(self)),
            r is Ok ==> final(self).loops@.len() == old(self).loops@.len(),
            final(self).chunk_only(old(self)),
            r is Ok <==> (first_same(old(self).chunk_v().constants, v.view()) is Some
                || old(self).chunk_v().constants.len() < 65535),
            r is Ok ==> final(self).chunk_v().code == old(self).chunk_v().code.push(op_byte(Op::Const))
                + u16_bytes(const_index(old(self).chunk_v().constants, v.view()) as u16),
            r is Ok ==> final(self).chunk_v().lines == old(self).chunk_v().lines.push(line).push(line).push(line),
            r is Ok ==> final(self).chunk_v().constants == pool_with(old(self).chunk_v().constants, v.view()),
            r is Err ==> final(self).chunk_v() == old(self).chunk_v(),
    {
        let c = self.cur;
        lift(self.fns[c].chunk.emit_const(v, line))
    }

    fn add_const(&mut self, v: Value) -> (r: Result<u16, CompileError>)
        requires
            old(self).wf(),
        ensures
            final(self).keeps(old(self)),
            r is Ok ==> final(self).loops@.len() == old(self).loops@.len(),
            final(self).chunk_only(old(self)),
            final(self).chunk_v().code == old(self).chunk_v().code,
            final(self).chunk_v().lines == old(self).chunk_v().lines,
            r is Ok <==> (first_same(old(self).chunk_v().constants, v.view()) is Some
                || old(self).chunk_v().constants.len() < 65535),
            r matches Ok(i) ==> i == const_index(old(self).chunk_v().constants, v.view()) as u16
                && final(self).chunk_v().constants == pool_with(old(self).chunk_v().constants, v.view()),
            r is Err ==> final(self).chunk_v() == old(self).chunk_v(),
    {
        let c = self.cur;
        lift(self.fns[c].chunk.add_const(v))
    }

    fn emit_jump(&mut self, op: Op, line: u32) -> (at: usize)
        requires
            old(self).wf(),
        ensures
            final(self).keeps(old(self)),
            final(self).loops@.len() == old(self).loops@.len(),
            final(self).chunk_only(old(self)),
            final(self).chunk_v().code == old(self).chunk_v().code.push(op_byte(op)) + u16_bytes(0xFFFF),
            final(self).chunk_v().lines == old(self).chunk_v().lines.push(line).push(line).push(line),
            final(self).chunk_v().constants == old(self).chunk_v().constants,
            at == old(self).chunk_v().code.len() + 1,
    {
        let c = self.cur;
        self.fns[c].chunk.emit_jump(op, line)
    }

    fn patch_to(&mut self, at: usize, dest: usize) -> (r: Result<(), CompileError>)
        requires
            old(self).wf(),
        ensures
            final(self).keeps(old(self)),
            r is Ok ==> final(self).loops@.len() == old(self).loops@.len(),
            final(self).chunk_only(old(self)),
            r is Ok <==> patch_fits(old(self).chunk_v().code.len() as int, at as int, dest as int),
            r is Ok ==> final(self).chunk_v().code == patched(old(self).chunk_v().code, at as int, dest - (at + 2)),
            r is Err ==> final(self).chunk_v().code == old(self).chunk_v().code,
            final(self).chunk_v().lines == old(self).chunk_v().lines,
            final(self).chunk_v().constants == old(self).chunk_v().constants,
    {
        let c = self.cur;
        lift(self.fns[c].chunk.patch_to(at, dest))
    }

    fn patch_to_end(&mut self, at: usize) -> (r: Result<(), CompileError>)
        requires
            old(self).wf(),
        ensures
            final(self).keeps(old(self)),
            r is Ok ==> final(self).loops@.len() == old(self).loops@.len(),
            final(self).chunk_only(old(self)),
            r is Ok <==> patch_fits(old(self).chunk_v().code.len() as int, at as int, old(self).chunk_v().code.len() as int),
            r is Ok ==> final(self).chunk_v().code == patched(old(self).chunk_v().code, at as int,
                old(self).chunk_v().code.len() - (at + 2)),
            r is Err ==> final(self).chunk_v().code == old(self).chunk_v().code,
            final(self).chunk_v().lines == old(self).chunk_v().lines,
            final(self).chunk_v().constants == old(self).chunk_v().constants,
    {
        let c = self.cur;
        lift(self.fns[c].chunk.patch_to_end(at))
    }

    fn emit_loop(&mut self, start: usize, line: u32) -> (r: Result<(), CompileError>)
        requires
            old(self).wf(),
        ensures
            final(self).keeps(old(self)),
            r is Ok ==> final(self).loops@.len() == old(self).loops@.len(),
            final(self).chunk_only(old(self)),
            final(self).chunk_v().constants == old(self).chunk_v().constants,
            r is Ok <==> (start <= old(self).chunk_v().code.len() + 1
                && old(self).chunk_v().code.len() + 1 - start + 2 <= 0xFFFF),
            r is Ok ==> final(self).chunk_v().code == old(self).chunk_v().code.push(op_byte(Op::Loop))
                + u16_bytes((old(self).chunk_v().code.len() + 3 - start) as u16),
            r is Ok ==> final(self).chunk_v().lines == old(self).chunk_v().lines.push(line).push(line).push(line),
            r is Err ==> final(self).chunk_v().code == old(self).chunk_v().code.push(op_byte(Op::Loop)),
            r is Err ==> final(self).chunk_v().lines == old(self).chunk_v().lines.push(line),
    {
        let c = self.cur;
        lift(self.fns[c].chunk.emit_loop(start, line))
    }

    fn code_len(&self) -> (n: usize)
        requires
            self.wf(),
        ensures
            n == self.chunk_v().code.len(),
    {
        self.fns[self.cur].chunk.code.len()
    }

    fn add_local(&mut self, n: String)
        requires
            old(self).wf(),
        ensures
            final(self).keeps(old(self)),
            final(self).loops@.len() == old(self).loops@.len(),
            final(self).scope_only(old(self)),
            final(self).scope_v().0 == old(self).scope_v().0.push((n@, old(self).scope_v().1)),
            final(self).scope_v().1 == old(self).scope_v().1,
            final(self).st() == with_local(old(self).st(), n@),
    {
        let c = self.cur;
        let d = self.fns[c].depth;
        self.fns[c].locals.push(Local { name: n, depth: d });
    }

    /// The slot of the innermost local named `n`.
    fn slot(&self, n: &str) -> (r: Option<u16>)
        requires
            self.wf(),
        ensures
            r is Some <==> slot_of(self.scope_v().0, n@) is Some,
            r matches Some(s) ==> s == slot_of(self.scope_v().0, n@)->Some_0 as u16,
    {
        let ls = &self.fns[self.cur].locals;
        let mut i = ls.len();
        let ghost sv = self.scope_v().0;
        assert(sv.take(i as int) =~= sv);
        while i > 0
            invariant
                i <= ls@.len(),
                sv == self.scope_v().0,
                sv.len() == ls@.len(),
                forall|k: int| 0 <= k < ls@.len() ==> (#[trigger] sv[k]).0 == ls@[k].name@,
                slot_of(sv, n@) == slot_of(sv.take(i as int), n@),
            decreases i,
        {
            assert(sv.take(i as int).drop_last() =~= sv.take(i - 1));
            assert(sv.take(i as int).last() == sv[i - 1]);
            i = i - 1;
            if str_eq(ls[i].name.as_str(), n) {
                let k: u16 = #[verifier::truncate] (i as u16);
                assert(k == (i as int) as u16);
                assert(sv.take(i + 1).last() == sv[i as int]);
                return Some(k);
            }
        }
        None
    }

    fn begin(&mut self)
        requires
            old(self).wf(),
        ensures
            final(self).keeps(old(self)),
            final(self).loops@.len() == old(self).loops@.len(),
            final(self).scope_only(old(self)),
            final(self).scope_v().0 == old(self).scope_v().0,
            final(self).scope_v().1 == if old(self).scope_v().1 < u64::MAX { (old(self).scope_v().1 + 1) as u64 }
                else { old(self).scope_v().1 },
            final(self).st() == begun(old(self).st()),
    {
        let c = self.cur;
        let d = self.fns[c].depth;
        self.fns[c].depth = if d < u64::MAX { d + 1 } else { d };
    }

    /// Leaves a scope: its locals are dropped and popped off the stack.
    fn end(&mut self, line: u32)
        requires
            old(self).wf(),
        ensures
            final(self).keeps(old(self)),
            final(self).loops@.len() == old(self).loops@.len(),
            final(self).others_same(old(self)),
            final(self).loops == old(self).loops,
            final(self).scope_v().1 == outer_depth(old(self).scope_v().1),
            final(self).scope_v().0 == old(self).scope_v().0.take(
                kept_locals(old(self).scope_v().0, outer_depth(old(self).scope_v().1)) as int),
            final(self).chunk_v().code == old(self).chunk_v().code + Seq::new(
                (old(self).scope_v().0.len() - kept_locals(old(self).scope_v().0, outer_depth(old(self).scope_v().1))) as nat,
                |i: int| op_byte(Op::Pop)),
            final(self).chunk_v().lines == old(self).chunk_v().lines + Seq::new(
                (old(self).scope_v().0.len() - kept_locals(old(self).scope_v().0, outer_depth(old(self).scope_v().1))) as nat,
                |i: int| line),
            final(self).chunk_v().constants == old(self).chunk_v().constants,
            final(self).st() == ended(old(self).st()),
    {
        let c = self.cur;
        let d = self.fns[c].depth;
        let nd = if d > 0 { d - 1 } else { 0 };
        let ghost ls0 = old(self).scope_v().0;
        let ghost chunk0 = old(self).fns@[c as int].chunk;
        self.fns[c].depth = nd;
        let total = self.fns[c].locals.len();
        let mut k: usize = 0;
        assert(ls0.take(total as int) =~= ls0);
        assert(self.scope_v().0 =~= ls0);
        loop
            invariant
                total == old(self).fns@[c as int].locals@.len(),
                total == ls0.len(),
                ls0 == old(self).scope_v().0,
                nd == outer_depth(old(self).scope_v().1),
                self.keeps(old(self)),
                self.others_same(old(self)),
                self.loops == old(self).loops,
                self.loops@.len() == old(self).loops@.len(),
                self.fns@[c as int].chunk == chunk0,
                chunk0 == old(self).fns@[c as int].chunk,
                self.fns@[c as int].depth == nd,
                c == self.cur,
                k <= old(self).fns@[c as int].locals@.len(),
                self.fns@[c as int].locals@.len() + k == old(self).fns@[c as int].locals@.len(),
                self.scope_v().0 == ls0.take(total - k),
                kept_locals(ls0, nd) == kept_locals(ls0.take(total - k), nd),
            ensures
                self.keeps(old(self)),
                self.others_same(old(self)),
                self.loops == old(self).loops,
                self.fns@[c as int].chunk == old(self).fns@[c as int].chunk,
                self.scope_v().1 == outer_depth(old(self).scope_v().1),
                self.scope_v().0 == old(self).scope_v().0.take(kept_locals(old(self).scope_v().0, nd) as int),
                k == old(self).scope_v().0.len() - kept_locals(old(self).scope_v().0, nd),
                c == self.cur,
            decreases self.fns@[c as int].locals@.len(),
        {
            let n = self.fns[c].locals.len();
            if n == 0 || self.fns[c].locals[n - 1].depth <= nd {
                proof {
                    if n > 0 {
                        assert(ls0.take(n as int).last() == self.scope_v().0[n - 1]);
                    }
                }
                break;
            }
            proof {
                assert(ls0.take(n as int).drop_last() =~= ls0.take(n - 1));
                assert(ls0.take(n as int).last() == self.scope_v().0[n - 1]);
            }
            self.fns[c].locals.pop();
            k = k + 1;
            assert(self.scope_v().0 =~= ls0.take(total - k));
        }
        let mut j: usize = 0;
        let ghost mid = self.scope_v();
        while j < k
            invariant
                j <= k,
                self.keeps(old(self)),
                self.others_same(old(self)),
                self.loops == old(self).loops,
                self.loops@.len() == old(self).loops@.len(),
                self.scope_v() == mid,
                c == self.cur,
                self.chunk_v().code == old(self).chunk_v().code + Seq::new(j as nat, |i: int| op_byte(Op::Pop)),
                self.chunk_v().lines == old(self).chunk_v().lines + Seq::new(j as nat, |i: int| line),
                self.chunk_v().constants == old(self).chunk_v().constants,
            decreases k - j,
        {
            self.emit(Op::Pop, line);
            assert(self.chunk_v().code =~= old(self).chunk_v().code + Seq::new((j + 1) as nat, |i: int| op_byte(Op::Pop)));
            assert(self.chunk_v().lines =~= old(self).chunk_v().lines + Seq::new((j + 1) as nat, |i: int| line));
            j = j + 1;
        }
    }

    fn void_call(&self, n: &str) -> (r: bool)
        ensures
            r == exists|i: int| 0 <= i < self.voids@.len() && (#[trigger] self.voids@[i])@ == n@,
    {
        contains(&self.voids, n)
    }

    fn push_loop(&mut self)
        requires
            old(self).wf(),
        ensures
            final(self).keeps(old(self)),
            final(self).loops@.len() == old(self).loops@.len() + 1,
            final(self).others_same(old(self)),
            final(self).fns@[final(self).cur as int] == old(self).fns@[old(self).cur as int],
            pushed(old(self).st(), final(self).st()),
    {
        self.loops.push(LoopP { breaks: Vec::new(), continues: Vec::new() });
        assert(self.loops@.drop_last() =~= old(self).loops@);
    }

    /// Finishes the innermost loop: its `continue`s go to `cont` and its
    /// `break`s to `brk` (the end of the code when `None`).
    fn patch_loop(&mut self, ctx: LoopP, cont: usize) -> (r: Result<(), CompileError>)
        requires
            old(self).wf(),
        ensures
            final(self).keeps(old(self)),
            r is Ok ==> final(self).loops@.len() == old(self).loops@.len(),
            final(self).chunk_only(old(self)),
            r is Ok <==> forall|i: int| 0 <= i < ctx.continues@.len()
                ==> patch_fits(old(self).chunk_v().code.len() as int, #[trigger] ctx.continues@[i] as int, cont as int),
            r is Ok ==> final(self).chunk_v().code == patch_all(old(self).chunk_v().code, ctx.continues@, cont as int),
            final(self).chunk_v().lines == old(self).chunk_v().lines,
            final(self).chunk_v().constants == old(self).chunk_v().constants,
    {
        let mut i: usize = 0;
        assert(ctx.continues@.take(0) =~= Seq::<usize>::empty());
        while i < ctx.continues.len()
            invariant
                i <= ctx.continues@.len(),
                self.keeps(old(self)),
                self.loops@.len() == old(self).loops@.len(),
                self.chunk_only(old(self)),
                self.chunk_v().lines == old(self).chunk_v().lines,
                self.chunk_v().constants == old(self).chunk_v().constants,
                self.chunk_v().code.len() == old(self).chunk_v().code.len(),
                self.chunk_v().code == patch_all(old(self).chunk_v().code, ctx.continues@.take(i as int), cont as int),
                forall|k: int| 0 <= k < i ==> patch_fits(old(self).chunk_v().code.len() as int,
                    #[trigger] ctx.continues@[k] as int, cont as int),
            decreases ctx.continues@.len() - i,
        {
            match self.patch_to(ctx.continues[i], cont) {
                Ok(()) => {},
                Err(e) => {
                    return Err(e);
                },
            }
            assert(ctx.continues@.take(i + 1).drop_last() =~= ctx.continues@.take(i as int));
            i = i + 1;
        }
        assert(ctx.continues@.take(i as int) =~= ctx.continues@);
        Ok(())
    }

    fn patch_breaks(&mut self, breaks: &Vec<usize>, end: usize) -> (r: Result<(), CompileError>)
        requires
            old(self).wf(),
        ensures
            final(self).keeps(old(self)),
            r is Ok ==> final(self).loops@.len() == old(self).loops@.len(),
            final(self).chunk_only(old(self)),
            r is Ok <==> forall|i: int| 0 <= i < breaks@.len()
                ==> patch_fits(old(self).chunk_v().code.len() as int, #[trigger] breaks@[i] as int, end as int),
            r is Ok ==> final(self).chunk_v().code == patch_all(old(self).chunk_v().code, breaks@, end as int),
            final(self).chunk_v().lines == old(self).chunk_v().lines,
            final(self).chunk_v().constants == old(self).chunk_v().constants,
    {
        let mut i: usize = 0;
        assert(breaks@.take(0) =~= Seq::<usize>::empty());
        while i < breaks.len()
            invariant
                i <= breaks@.len(),
                self.keeps(old(self)),
                self.loops@.len() == old(self).loops@.len(),
                self.chunk_only(old(self)),
                self.chunk_v().lines == old(self).chunk_v().lines,
                self.chunk_v().constants == old(self).chunk_v().constants,
                self.chunk_v().code.len() == old(self).chunk_v().code.len(),
                self.chunk_v().code == patch_all(old(self).chunk_v().code, breaks@.take(i as int), end as int),
                forall|k: int| 0 <= k < i ==> patch_fits(old(self).chunk_v().code.len() as int,
                    #[trigger] breaks@[k] as int, end as int),
            decreases breaks@.len() - i,
        {
            match self.patch_to(breaks[i], end) {
                Ok(()) => {},
                Err(e) => {
                    return Err(e);
                },
            }
            assert(breaks@.take(i + 1).drop_last() =~= breaks@.take(i as int));
            i = i + 1;
        }
        assert(breaks@.take(i as int) =~= breaks@);
        Ok(())
    }

    fn pop_loop(&mut self) -> (ctx: LoopP)
        requires
            old(self).wf(),
            old(self).loops@.len() > 0,
        ensures
            final(self).keeps(old(self)),
            final(self).loops@.len() == old(self).loops@.len() - 1,
            final(self).others_same(old(self)),
            final(self).fns@[final(self).cur as int] == old(self).fns@[old(self).cur as int],
            final(self).loops@ == old(self).loops@.drop_last(),
            ctx == old(self).loops@.last(),
    {
        match self.loops.pop() {
            Some(c) => c,
            None => LoopP { breaks: Vec::new(), continues: Vec::new() },
        }
    }

    fn const_value(&self, n: &str) -> (r: Option<Value>)
        ensures
            match const_named(self.consts@, n@) {
                Some(v) => r matches Some(x) && x.view() == v,
                None => r is None,
            },
    {
        let mut i: usize = 0;
        assert(self.consts@.skip(0) =~= self.consts@);
        while i < self.consts.len()
            invariant
                i <= self.consts@.len(),
                const_named(self.consts@, n@) == const_named(self.consts@.skip(i as int), n@),
            decreases self.consts@.len() - i,
        {
            assert(self.consts@.skip(i as int)[0] == self.consts@[i as int]);
            assert(self.consts@.skip(i as int).drop_first() =~= self.consts@.skip(i + 1));
            if str_eq(self.consts[i].0.as_str(), n) {
                return Some(copy_value(&self.consts[i].1));
            }
            i = i + 1;
        }
        None
    }
}

impl Compiler {
    /// Code for an expression: it leaves the expression's value on the stack.
    #[verifier::loop_isolation(false)]
    #[verifier::spinoff_prover]
    #[verifier::rlimit(80)]
    fn expr<H: Host>(&mut self, e: &Expr, host: &H) -> (r: Result<(), CompileError>)
        requires
            old(self).wf(),
        ensures
            final(self).keeps(old(self)),
            final(self).chunk_only(old(self)),
            r is Ok ==> final(self).loops@.len() == old(self).loops@.len(),
            r is Ok ==> expr_code(old(self).names(), *e, old(self).cp(), final(self).cp()),
            grows(old(self).cp(), final(self).cp()),
            r is Err ==> !expr_resolves(old(self).names(), *e) || at_limit(old(self).cp(), final(self).cp()),
        decreases e, 3int,
    {
        let ghost x = self.names();
        let ghost a = self.cp();
        match e {
            Expr::Int { value, span } => self.emit_const(Value::Int(*value), span.line),
            Expr::Float { text, span } => {
                let bits = host.parse_literal(text.as_str());
                let r = self.emit_const(Value::Float(bits), span.line);
                proof {
                    if r is Ok {
                        assert(self.cp() == with_pooled(a, Op::Const, Val::Float(bits)));
                    }
                }
                r
            },
            Expr::Bool { value, span } => {
                self.emit(if *value { Op::True } else { Op::False }, span.line);
                Ok(())
            },
            Expr::Str { value, span } => self.emit_const(Value::Str(value.clone()), span.line),
            Expr::Var { name } => {
                match self.const_value(name.name.as_str()) {
                    Some(v) => return self.emit_const(v, name.span.line),
                    None => {},
                }
                match self.slot(name.name.as_str()) {
                    Some(s) => {
                        self.emit_op_u16(Op::GetLocal, s, name.span.line);
                        Ok(())
                    },
                    None => {
                        let mut m = owned("undefined `");
                        push_str(&mut m, name.name.as_str());
                        push_str(&mut m, "`");
                        Err(CompileError::at(m, name.span))
                    },
                }
            },
            Expr::Unary { op, expr, span } => {
                self.expr(expr, host)?;
                let ghost m = self.cp();
                self.emit(match op { UnOp::Neg => Op::Neg, UnOp::Not => Op::Not }, span.line);
                assert(expr_code(x, **expr, a, m) && stage(m));
                Ok(())
            },
            Expr::Binary { op, lhs, rhs, span } => {
                let line = span.line;
                match op {
                    BinOp::And | BinOp::Or => {
                        self.expr(lhs, host)?;
                        let ghost m = self.cp();
                        let j = self.emit_jump(if *op == BinOp::And { Op::JumpIfFalse } else { Op::JumpIfTrue }, line);
                        self.emit(Op::Pop, line);
                        let ghost p = self.cp();
                        assert(p == short_circuit(m, *op));
                        self.expr(rhs, host)?;
                        let ghost n = self.cp();
                        let r = self.patch_to_end(j);
                        assert(expr_code(x, **lhs, a, m) && expr_code(x, **rhs, short_circuit(m, *op), n) && stage(m) && stage(n));
                        r
                    },
                    _ => {
                        self.expr(lhs, host)?;
                        let ghost m = self.cp();
                        self.expr(rhs, host)?;
                        let ghost n = self.cp();
                        let o = match op {
                            BinOp::Add => Op::Add,
                            BinOp::Sub => Op::Sub,
                            BinOp::Mul => Op::Mul,
                            BinOp::Div => Op::Div,
                            BinOp::Rem => Op::Rem,
                            BinOp::Eq => Op::Eq,
                            BinOp::Ne => Op::Ne,
                            BinOp::Lt => Op::Lt,
                            BinOp::Le => Op::Le,
                            BinOp::Gt => Op::Gt,
                            _ => Op::Ge,
                        };
                        self.emit(o, line);
                        assert(expr_code(x, **lhs, a, m) && expr_code(x, **rhs, m, n) && stage(m) && stage(n));
                        Ok(())
                    },
                }
            },
            Expr::Call { callee, args, span } => self.call(callee.name.as_str(), args, *span, host),
            Expr::MethodCall { recv, method, args, span } => {
                match &**recv {
                    Expr::Var { name } => {
                        let mut d = name.name.clone();
                        push_str(&mut d, ".");
                        push_str(&mut d, method.name.as_str());
                        if index_of(&self.fidx, d.as_str()).is_some() {
                            return self.call(d.as_str(), args, *span, host);
                        }
                    },
                    _ => {},
                }
                self.expr(recv, host)?;
                let ghost m = self.cp();
                self.exprs(args, host)?;
                let ghost n = self.cp();
                let c = self.add_const(Value::Str(method.name.clone()))?;
                self.emit_op_u16(Op::CallMethod, c, span.line);
                self.emit_u16(#[verifier::truncate] (args.len() as u16), span.line);
                assert(expr_code(x, **recv, a, m) && exprs_code(x, args@, args@.len(), m, n) && stage(m) && stage(n));
                Ok(())
            },
            Expr::Range { span, .. } => Err(CompileError::at(owned("range only allowed in `for`"), *span)),
            Expr::Index { base, index, span } => {
                self.expr(base, host)?;
                let ghost m = self.cp();
                self.expr(index, host)?;
                let ghost n = self.cp();
                self.emit(Op::GetIndex, span.line);
                assert(expr_code(x, **base, a, m) && expr_code(x, **index, m, n) && stage(m) && stage(n));
                Ok(())
            },
            Expr::Field { base, name, span } => {
                self.expr(base, host)?;
                let ghost m = self.cp();
                let c = self.add_const(Value::Str(name.name.clone()))?;
                self.emit_op_u16(Op::GetField, c, span.line);
                assert(expr_code(x, **base, a, m) && stage(m));
                Ok(())
            },
            Expr::Array { elems, span } => {
                self.exprs(elems, host)?;
                let ghost m = self.cp();
                self.emit_op_u16(Op::NewArray, #[verifier::truncate] (elems.len() as u16), span.line);
                assert(exprs_code(x, elems@, elems@.len(), a, m) && stage(m));
                Ok(())
            },
            Expr::StructLit { name, fields, span } => {
                let idx = match index_of(&self.sidx, name.name.as_str()) {
                    Some(i) => i,
                    None => {
                        let mut m = owned("unknown struct `");
                        push_str(&mut m, name.name.as_str());
                        push_str(&mut m, "`");
                        return Err(CompileError::at(m, name.span));
                    },
                };
                if idx >= self.stypes.len() {
                    return Err(CompileError::at(owned("unknown struct"), name.span));
                }
                let decl = self.stypes[idx].fields.clone();
                let ghost ds = x.layouts[idx as int].fields@;
                assert forall|k: int| 0 <= k < ds.len() implies decl@[k]@ == ds[k]@ by {
                    assert(cloned(ds[k], decl@[k]));
                }
                let mut i: usize = 0;
                while i < decl.len()
                    invariant
                        self.keeps(old(self)),
                        self.chunk_only(old(self)),
                        self.loops@.len() == old(self).loops@.len(),
                        i <= decl@.len(),
                        fields_code(x, ds, fields@, i as nat, a, self.cp()),
                        grows(a, self.cp()),
                    decreases decl@.len() - i,
                {
                    let ghost m = self.cp();
                    let fname = decl[i].as_str();
                    let mut j: usize = 0;
                    while j < fields.len() && !str_eq(fields[j].0.name.as_str(), fname)
                        invariant
                            j <= fields@.len(),
                            forall|k: int| 0 <= k < j ==> (#[trigger] fields@[k]).0.name@ != fname@,
                        decreases fields@.len() - j,
                    {
                        j = j + 1;
                    }
                    if j == fields.len() {
                        assert(!(exists|jj: int| 0 <= jj < fields@.len()
                            && (#[trigger] fields@[jj]).0.name@ == ds[i as int]@));
                        let mut m = owned("missing field `");
                        push_str(&mut m, fname);
                        push_str(&mut m, "`");
                        return Err(CompileError::at(m, name.span));
                    }
                    self.expr(&fields[j].1, host)?;
                    proof {
                        lemma_fields_step(x, ds, fields@, i as nat, j as int, a, m, self.cp());
                    }
                    i = i + 1;
                }
                let ghost m = self.cp();
                self.emit_op_u16(Op::NewStruct, #[verifier::truncate] (idx as u16), span.line);
                self.emit_u16(#[verifier::truncate] (decl.len() as u16), span.line);
                assert(fields_code(x, ds, fields@, ds.len(), a, m) && stage(m));
                Ok(())
            },
        }
    }

    /// Code for each expression in order.
    #[verifier::loop_isolation(false)]
    fn exprs<H: Host>(&mut self, es: &Vec<Expr>, host: &H) -> (r: Result<(), CompileError>)
        requires
            old(self).wf(),
        ensures
            final(self).keeps(old(self)),
            final(self).chunk_only(old(self)),
            r is Ok ==> final(self).loops@.len() == old(self).loops@.len(),
            r is Ok ==> exprs_code(old(self).names(), es@, es@.len(), old(self).cp(), final(self).cp()),
            grows(old(self).cp(), final(self).cp()),
            r is Err ==> !all_resolve(old(self).names(), es@) || at_limit(old(self).cp(), final(self).cp()),
        decreases es, 1int,
    {
        let ghost x = self.names();
        let ghost a = self.cp();
        let mut i: usize = 0;
        while i < es.len()
            invariant
                self.keeps(old(self)),
                self.chunk_only(old(self)),
                self.loops@.len() == old(self).loops@.len(),
                i <= es@.len(),
                exprs_code(x, es@, i as nat, a, self.cp()),
                grows(a, self.cp()),
            decreases es@.len() - i,
        {
            let ghost m = self.cp();
            self.expr(&es[i], host)?;
            proof {
                lemma_exprs_step(x, es@, i as nat, a, m, self.cp());
            }
            i = i + 1;
        }
        Ok(())
    }

    /// Code for a call of a built-in or of a compiled function.
    fn call<H: Host>(&mut self, name: &str, args: &Vec<Expr>, span: Span, host: &H) -> (r: Result<(), CompileError>)
        requires
            old(self).wf(),
        ensures
            final(self).keeps(old(self)),
            final(self).chunk_only(old(self)),
            r is Ok ==> final(self).loops@.len() == old(self).loops@.len(),
            r is Ok ==> call_code(old(self).names(), name@, args@, old(self).cp(), final(self).cp()),
            grows(old(self).cp(), final(self).cp()),
            r is Err ==> !call_resolves(old(self).names(), name@, args@) || at_limit(old(self).cp(), final(self).cp()),
        decreases args, 2int,
    {
        let ghost x = self.names();
        let ghost a = self.cp();
        let line = span.line;
        if str_eq(name, "print") || str_eq(name, "len") {
            if args.len() == 0 {
                let mut m = owned("`");
                push_str(&mut m, name);
                push_str(&mut m, "` takes 1 argument");
                return Err(CompileError::at(m, span));
            }
            self.expr(&args[0], host)?;
            let ghost m = self.cp();
            self.emit(if str_eq(name, "print") { Op::Print } else { Op::Len }, line);
            assert(expr_code(x, args@[0], a, m) && stage(m));
            return Ok(());
        }
        let bop = if str_eq(name, "str_at") { Some(Op::StrAt) }
            else if str_eq(name, "str_sub") { Some(Op::StrSub) }
            else if str_eq(name, "to_string") { Some(Op::ToString) }
            else if str_eq(name, "push") { Some(Op::Push) }
            else if str_eq(name, "pop") { Some(Op::ArrayPop) }
            else if str_eq(name, "input") { Some(Op::Input) }
            else { None };
        assert(bop == builtin_op(name@));
        match bop {
            Some(o) => {
                self.exprs(args, host)?;
                let ghost m = self.cp();
                self.emit(o, line);
                assert(exprs_code(x, args@, args@.len(), a, m) && stage(m));
                Ok(())
            },
            None => {
                let idx = match index_of(&self.fidx, name) {
                    Some(i) => i,
                    None => {
                        let mut m = owned("undefined function `");
                        push_str(&mut m, name);
                        push_str(&mut m, "`");
                        return Err(CompileError::at(m, span));
                    },
                };
                self.exprs(args, host)?;
                let ghost m = self.cp();
                self.emit_op_u16(Op::Call, #[verifier::truncate] (idx as u16), line);
                assert(exprs_code(x, args@, args@.len(), a, m) && stage(m));
                Ok(())
            },
        }
    }
}

impl Compiler {
    /// Code for a block: its statements in a scope of their own.
    fn block<H: Host>(&mut self, b: &Block, host: &H) -> (r: Result<(), CompileError>)
        requires
            old(self).wf(),
        ensures
            final(self).keeps(old(self)),
            final(self).ctx_same(old(self)),
            r is Ok ==> final(self).loops@.len() == old(self).loops@.len(),
            r is Ok ==> block_code(old(self).base(), old(self).voids@, *b, old(self).st(), final(self).st()),
        decreases b, 1int,
    {
        self.begin();
        self.stmts(&b.stmts, host)?;
        let ghost m = self.st();
        self.end(b.span.line);
        assert(at_stage(m));
        Ok(())
    }

    #[verifier::loop_isolation(false)]
    fn stmts<H: Host>(&mut self, ss: &Vec<Stmt>, host: &H) -> (r: Result<(), CompileError>)
        requires
            old(self).wf(),
        ensures
            final(self).keeps(old(self)),
            final(self).ctx_same(old(self)),
            r is Ok ==> final(self).loops@.len() == old(self).loops@.len(),
            r is Ok ==> stmts_code(old(self).base(), old(self).voids@, ss@, ss@.len(), old(self).st(), final(self).st()),
        decreases ss, 0int,
    {
        let ghost x = self.base();
        let ghost a = self.st();
        let mut i: usize = 0;
        while i < ss.len()
            invariant
                self.keeps(old(self)),
                self.ctx_same(old(self)),
                self.loops@.len() == old(self).loops@.len(),
                i <= ss@.len(),
                stmts_code(x, old(self).voids@, ss@, i as nat, a, self.st()),
            decreases ss@.len() - i,
        {
            let ghost m = self.st();
            self.stmt(&ss[i], host)?;
            proof {
                lemma_stmts_step(x, old(self).voids@, ss@, i as nat, a, m, self.st());
            }
            i = i + 1;
        }
        Ok(())
    }

    /// Records a jump out of, or back into, the innermost loop.
    fn loop_jump(&mut self, is_break: bool, sp: Span) -> (r: Result<(), CompileError>)
        requires
            old(self).wf(),
        ensures
            final(self).keeps(old(self)),
            r is Ok ==> final(self).loops@.len() == old(self).loops@.len(),
            final(self).others_same(old(self)),
            final(self).fns@[final(self).cur as int].locals == old(self).fns@[old(self).cur as int].locals,
            final(self).fns@[final(self).cur as int].depth == old(self).fns@[old(self).cur as int].depth,
            r is Err <==> old(self).loops@.len() == 0,
            r matches Err(e) ==> e.line == sp.line && e.col == sp.col && *final(self) == *old(self),
            r is Ok ==> final(self).chunk_v().code == old(self).chunk_v().code.push(op_byte(Op::Jump)) + u16_bytes(0xFFFF)
                && final(self).chunk_v().lines == old(self).chunk_v().lines.push(sp.line).push(sp.line).push(sp.line)
                && final(self).chunk_v().constants == old(self).chunk_v().constants
                && loop_recorded(old(self).loops@, final(self).loops@, is_break, (old(self).chunk_v().code.len() + 1) as usize),
            r is Ok ==> jump_recorded(old(self).st(), final(self).st(), is_break),
    {
        if self.loops.len() == 0 {
            let m = if is_break { "`break` 只能用在循环内" } else { "`continue` 只能用在循环内" };
            return Err(CompileError::at(owned(m), sp));
        }
        let j = self.emit_jump(Op::Jump, sp.line);
        let li = self.loops.len() - 1;
        if is_break {
            self.loops[li].breaks.push(j);
        } else {
            self.loops[li].continues.push(j);
        }
        Ok(())
    }

    /// Code for a statement; it leaves the stack as it was, but for a
    /// `let`, whose value stays as a new local.
    fn stmt<H: Host>(&mut self, s: &Stmt, host: &H) -> (r: Result<(), CompileError>)
        requires
            old(self).wf(),
        ensures
            final(self).keeps(old(self)),
            final(self).ctx_same(old(self)),
            r is Ok ==> final(self).loops@.len() == old(self).loops@.len(),
            r is Ok ==> stmt_code(old(self).base(), old(self).voids@, *s, old(self).st(), final(self).st()),
            (s is Break || s is Continue) ==> (r is Err <==> old(self).loops@.len() == 0),
        decreases s, 2int,
    {
        let ghost x = self.base();
        let ghost a = self.st();
        match s {
            Stmt::Let(l) => {
                self.expr(&l.value, host)?;
                let ghost m = self.st();
                self.add_local(l.name.name.clone());
                assert(at_stage(m) && expr_step(x, a, l.value, m));
                Ok(())
            },
            Stmt::Assign(asg) => self.assign(asg, host),
            Stmt::If(i) => self.if_stmt(i, host),
            Stmt::While(w) => {
                let line = w.span.line;
                let start = self.code_len();
                self.push_loop();
                let ghost p = self.st();
                self.expr(&w.cond, host)?;
                let ghost m = self.st();
                let exit = self.emit_jump(Op::JumpIfFalse, line);
                self.emit(Op::Pop, line);
                assert(self.st() == with_cp(m, jump_pop(cp_of(m), Op::JumpIfFalse)));
                self.block(&w.body, host)?;
                let ghost q = self.st();
                let cont = self.code_len();
                let ctx = self.pop_loop();
                self.patch_loop(ctx.continues_only(), cont)?;
                self.emit_loop(start, line)?;
                self.patch_to_end(exit)?;
                self.emit(Op::Pop, line);
                let end = self.code_len();
                let r = self.patch_breaks(&ctx.breaks, end);
                assert(at_stage(p) && at_stage(m) && at_stage(q) && pushed(a, p) && expr_step(x, p, w.cond, m));
                r
            },
            Stmt::For(fr) => self.for_stmt(fr, host),
            Stmt::Break(sp) => self.loop_jump(true, *sp),
            Stmt::Continue(sp) => self.loop_jump(false, *sp),
            Stmt::Return(r) => {
                match &r.value {
                    None => {},
                    Some(e) => self.expr(e, host)?,
                }
                let ghost m = self.st();
                self.emit(Op::Return, r.span.line);
                assert(at_stage(m));
                Ok(())
            },
            Stmt::Expr(e) => {
                let void = match &e.expr {
                    Expr::Call { callee, .. } => self.void_call(callee.name.as_str()),
                    Expr::MethodCall { method, .. } => self.void_call(method.name.as_str()),
                    _ => false,
                };
                assert(void == calls_void(old(self).voids@, e.expr));
                self.expr(&e.expr, host)?;
                let ghost m = self.st();
                if !void {
                    self.emit(Op::Pop, e.span.line);
                }
                assert(at_stage(m) && expr_step(x, a, e.expr, m));
                Ok(())
            },
            Stmt::Block(b) => self.block(b, host),
        }
    }

    fn field_const(&mut self, name: &String) -> (r: Result<u16, CompileError>)
        requires
            old(self).wf(),
        ensures
            final(self).keeps(old(self)),
            r is Ok ==> final(self).loops@.len() == old(self).loops@.len(),
            final(self).chunk_only(old(self)),
            final(self).chunk_v().code == old(self).chunk_v().code,
            final(self).chunk_v().lines == old(self).chunk_v().lines,
            r is Ok <==> (first_same(old(self).chunk_v().constants, Val::Str(name@)) is Some
                || old(self).chunk_v().constants.len() < 65535),
            r matches Ok(i) ==> i == const_index(old(self).chunk_v().constants, Val::Str(name@)) as u16
                && final(self).chunk_v().constants == pool_with(old(self).chunk_v().constants, Val::Str(name@)),
            r is Err ==> final(self).chunk_v() == old(self).chunk_v(),
    {
        self.add_const(Value::Str(name.clone()))
    }

    /// Code for an assignment to a local, an element, or a field path.
    #[verifier::loop_isolation(false)]
    fn assign<H: Host>(&mut self, a: &AssignStmt, host: &H) -> (r: Result<(), CompileError>)
        requires
            old(self).wf(),
        ensures
            final(self).keeps(old(self)),
            final(self).ctx_same(old(self)),
            r is Ok ==> final(self).loops@.len() == old(self).loops@.len(),
            r is Ok ==> assign_code(old(self).base(), *a, old(self).st(), final(self).st()),
        decreases a, 1int,
    {
        let ghost x = self.base();
        let ghost s0 = self.st();
        let ghost fs = a.fields@;
        let line = a.span.line;
        if a.via_deref {
            return Err(CompileError::at(owned("assignment through a reference is not supported"), a.span));
        }
        let slot = match self.slot(a.name.name.as_str()) {
            Some(s) => s,
            None => {
                let mut m = owned("未定义的变量 `");
                push_str(&mut m, a.name.name.as_str());
                push_str(&mut m, "`");
                return Err(CompileError::at(m, a.name.span));
            },
        };
        let nf = a.fields.len();
        if nf == 0 {
            match &a.index {
                None => {
                    self.expr(&a.value, host)?;
                    let ghost m = self.st();
                    self.emit_op_u16(Op::SetLocal, slot, line);
                    self.emit(Op::Pop, line);
                    assert(at_stage(m) && expr_step(x, s0, a.value, m));
                },
                Some(idx) => {
                    self.emit_op_u16(Op::GetLocal, slot, line);
                    let ghost h = self.st();
                    assert(h == st_op16(s0, Op::GetLocal, slot));
                    self.expr(idx, host)?;
                    let ghost m = self.st();
                    self.expr(&a.value, host)?;
                    let ghost n = self.st();
                    self.emit(Op::SetIndex, line);
                    assert(at_stage(m) && at_stage(n) && expr_step(x, h, *idx, m) && expr_step(x, m, a.value, n));
                },
            }
            return Ok(());
        }
        match &a.index {
            None => {
                self.emit_op_u16(Op::GetLocal, slot, line);
                let ghost h = self.st();
                assert(h == st_op16(s0, Op::GetLocal, slot));
                if nf > 1 {
                    self.emit_op_u16(Op::GetLocal, slot, line);
                    let ghost g = self.st();
                    assert(g == st_op16(h, Op::GetLocal, slot));
                    let mut i: usize = 0;
                    while i < nf - 1
                        invariant
                            self.keeps(old(self)),
                            self.ctx_same(old(self)),
                            self.loops@.len() == old(self).loops@.len(),
                            nf == a.fields@.len(),
                            fs == a.fields@,
                            nf > 1,
                            i <= nf - 1,
                            self.st() == with_cp(g, gets_cp(cp_of(g), fs, i as nat)),
                        decreases nf - i,
                    {
                        let c = self.field_const(&a.fields[i].name)?;
                        self.emit_op_u16(Op::GetField, c, line);
                        assert(gets_cp(cp_of(g), fs, (i + 1) as nat)
                            == with_pooled(gets_cp(cp_of(g), fs, i as nat), Op::GetField, Val::Str(fs[i as int].name@)));
                        i = i + 1;
                    }
                }
                let ghost h2 = self.st();
                self.expr(&a.value, host)?;
                let ghost m = self.st();
                let mut k = nf;
                while k > 0
                    invariant
                        self.keeps(old(self)),
                        self.ctx_same(old(self)),
                        self.loops@.len() == old(self).loops@.len(),
                        nf == a.fields@.len(),
                        fs == a.fields@,
                        k <= nf,
                        self.st() == with_cp(m, sets_cp(cp_of(m), fs, k as nat, nf as nat)),
                    decreases k,
                {
                    k = k - 1;
                    let c = self.field_const(&a.fields[k].name)?;
                    self.emit_op_u16(Op::SetField, c, line);
                    assert(sets_cp(cp_of(m), fs, k as nat, nf as nat)
                        == with_pooled(sets_cp(cp_of(m), fs, (k + 1) as nat, nf as nat), Op::SetField, Val::Str(fs[k as int].name@)));
                }
                self.emit_op_u16(Op::SetLocal, slot, line);
                self.emit(Op::Pop, line);
                assert(at_stage(m) && expr_step(x, h2, a.value, m));
                Ok(())
            },
            Some(idx) => {
                if nf > 1 {
                    return Err(CompileError::at(
                        owned("multi-level field assign on array element: use a temporary"), a.span));
                }
                self.emit_op_u16(Op::GetLocal, slot, line);
                let ghost h = self.st();
                self.expr(idx, host)?;
                let ghost m = self.st();
                self.emit_op_u16(Op::GetLocal, slot, line);
                let ghost h2 = self.st();
                self.expr(idx, host)?;
                let ghost n = self.st();
                self.emit(Op::GetIndex, line);
                let ghost h3 = self.st();
                self.expr(&a.value, host)?;
                let ghost o = self.st();
                let c = self.field_const(&a.fields[0].name)?;
                self.emit_op_u16(Op::SetField, c, line);
                self.emit(Op::SetIndex, line);
                assert(h == st_op16(s0, Op::GetLocal, slot) && h2 == st_op16(m, Op::GetLocal, slot) && h3 == st_op(n, Op::GetIndex));
                assert(at_stage(m) && at_stage(n) && at_stage(o) && expr_step(x, h, *idx, m)
                    && expr_step(x, h2, *idx, n) && expr_step(x, h3, a.value, o));
                Ok(())
            },
        }
    }

    /// Code for `if`: the condition stays on the stack until a branch pops it.
    fn if_stmt<H: Host>(&mut self, i: &IfStmt, host: &H) -> (r: Result<(), CompileError>)
        requires
            old(self).wf(),
        ensures
            final(self).keeps(old(self)),
            final(self).ctx_same(old(self)),
            r is Ok ==> final(self).loops@.len() == old(self).loops@.len(),
            r is Ok ==> if_code(old(self).base(), old(self).voids@, *i, old(self).st(), final(self).st()),
        decreases i, 1int,
    {
        let ghost x = self.base();
        let ghost a = self.st();
        let line = i.span.line;
        self.expr(&i.cond, host)?;
        let ghost m = self.st();
        let then_j = self.emit_jump(Op::JumpIfFalse, line);
        self.emit(Op::Pop, line);
        assert(self.st() == with_cp(m, jump_pop(cp_of(m), Op::JumpIfFalse)));
        self.block(&i.then_block, host)?;
        let ghost q = self.st();
        match &i.else_branch {
            None => {
                let end_j = self.emit_jump(Op::Jump, line);
                self.patch_to_end(then_j)?;
                self.emit(Op::Pop, line);
                let r = self.patch_to_end(end_j);
                assert(at_stage(m) && at_stage(q) && expr_step(x, a, i.cond, m));
                r
            },
            Some(br) => {
                let else_j = self.emit_jump(Op::Jump, line);
                self.patch_to_end(then_j)?;
                self.emit(Op::Pop, line);
                let ghost p2 = self.st();
                match br {
                    ElseBranch::Block(b) => self.block(b, host)?,
                    ElseBranch::If(n) => self.if_stmt(n, host)?,
                }
                let ghost n2 = self.st();
                let r = self.patch_to_end(else_j);
                assert(at_stage(m) && at_stage(q) && at_stage(n2) && expr_step(x, a, i.cond, m));
                r
            },
        }
    }

    fn need_slot(&self, n: &str, sp: Span) -> (r: Result<u16, CompileError>)
        requires
            self.wf(),
        ensures
            r is Ok <==> slot_of(self.scope_v().0, n@) is Some,
            r matches Ok(s) ==> s == slot_of(self.scope_v().0, n@)->Some_0 as u16,
            r matches Err(e) ==> e.line == sp.line && e.col == sp.col,
    {
        match self.slot(n) {
            Some(s) => Ok(s),
            None => Err(CompileError::at(owned("loop variable is missing"), sp)),
        }
    }

    /// Adds one to the counter in `i_s`, jumps back to `start_pc`, and
    /// closes the loop whose exit jump is at `exit`.
    fn close_for(&mut self, ctx: LoopP, i_s: u16, start_pc: usize, exit: usize, line: u32)
        -> (r: Result<(), CompileError>)
        requires
            old(self).wf(),
        ensures
            final(self).keeps(old(self)),
            r is Ok ==> final(self).loops@.len() == old(self).loops@.len(),
            final(self).others_same(old(self)),
            final(self).fns@[final(self).cur as int].locals == old(self).fns@[old(self).cur as int].locals,
            final(self).fns@[final(self).cur as int].depth == old(self).fns@[old(self).cur as int].depth,
            r is Ok <==> close_for_fits(old(self).chunk_v(), ctx.continues@, ctx.breaks@, start_pc as int, exit as int),
            r is Ok ==> final(self).chunk_v().code == close_for_code(old(self).chunk_v(), ctx.continues@, ctx.breaks@,
                i_s, start_pc as int, exit as int),
            r is Ok ==> final(self).chunk_v().constants == pool_with(old(self).chunk_v().constants, Val::Int(1)),
            final(self).loops == old(self).loops,
    {
        let ghost c0 = self.chunk_v();
        let ghost n = c0.code.len() as int;
        let inc = self.code_len();
        self.patch_loop(ctx.continues_only(), inc)?;
        let ghost code1 = self.chunk_v().code;
        proof {
            assert forall|i: int| 0 <= i < ctx.continues@.len() implies #[trigger] ctx.continues@[i] + 2 <= c0.code.len() by {
                assert(patch_fits(n, ctx.continues@[i] as int, n));
            }
            lemma_patch_all_len(c0.code, ctx.continues@, n);
        }
        self.emit_op_u16(Op::GetLocal, i_s, line);
        self.emit_const(Value::Int(1), line)?;
        self.emit(Op::Add, line);
        self.emit_op_u16(Op::SetLocal, i_s, line);
        self.emit(Op::Pop, line);
        let ghost code6 = self.chunk_v().code;
        assert(code6 =~= code1 + increment_code(i_s, const_index(c0.constants, Val::Int(1)) as u16));
        self.emit_loop(start_pc, line)?;
        let ghost code7 = self.chunk_v().code;
        self.patch_to_end(exit)?;
        self.emit(Op::Pop, line);
        let ghost code9 = self.chunk_v().code;
        assert(code9 =~= patched(code1 + increment_code(i_s, const_index(c0.constants, Val::Int(1)) as u16)
            + seq![op_byte(Op::Loop)] + u16_bytes((n + 11 + 3 - start_pc) as u16), exit as int, n + 14 - (exit + 2))
            .push(op_byte(Op::Pop)));
        let endpc = self.code_len();
        self.patch_breaks(&ctx.breaks, endpc)
    }

    /// Code for `for`: over a range with a counter and an end local, or over
    /// an array with the array and an index local.
    #[verifier::loop_isolation(false)]
    fn for_stmt<H: Host>(&mut self, f: &ForStmt, host: &H) -> (r: Result<(), CompileError>)
        requires
            old(self).wf(),
        ensures
            final(self).keeps(old(self)),
            final(self).ctx_same(old(self)),
            r is Ok ==> final(self).loops@.len() == old(self).loops@.len(),
            r is Ok ==> for_code(old(self).base(), old(self).voids@, *f, old(self).st(), final(self).st()),
        decreases f, 1int,
    {
        let ghost x = self.base();
        let ghost a = self.st();
        let line = f.span.line;
        self.begin();
        let ghost s1 = self.st();
        match &f.iter {
            Expr::Range { start, end, .. } => {
                self.expr(start, host)?;
                let ghost m1 = self.st();
                self.add_local(f.var.name.clone());
                let ghost l1 = self.st();
                self.expr(end, host)?;
                let ghost m2 = self.st();
                self.add_local(owned("\0end"));
                let ghost m3 = self.st();
                let i_s = self.need_slot(f.var.name.as_str(), f.span)?;
                let e_s = self.need_slot("\0end", f.span)?;
                let start_pc = self.code_len();
                self.push_loop();
                let ghost p = self.st();
                self.emit_op_u16(Op::GetLocal, i_s, line);
                self.emit_op_u16(Op::GetLocal, e_s, line);
                self.emit(Op::Lt, line);
                let ghost h = self.st();
                let exit = self.emit_jump(Op::JumpIfFalse, line);
                self.emit(Op::Pop, line);
                let ghost hj = self.st();
                self.begin();
                self.stmts(&f.body.stmts, host)?;
                let ghost n = self.st();
                self.end(line);
                let ghost q = self.st();
                let ctx = self.pop_loop();
                self.close_for(ctx, i_s, start_pc, exit, line)?;
                let ghost c9 = self.st();
                self.end(line);
                proof {
                    assert(hj == with_cp(h, jump_pop(cp_of(h), Op::JumpIfFalse)));
                    assert(at_stage(n));
                    assert(block_code(x, old(self).voids@, f.body, hj, q));
                    assert(c9 == CSt {
                        code: close_for_code(ChunkV { code: q.code, constants: q.pool, lines: Seq::empty() },
                            q.loops.last().continues@, q.loops.last().breaks@, i_s, start_pc as int, exit as int),
                        pool: pool_with(q.pool, Val::Int(1)), locals: q.locals, depth: q.depth, loops: q.loops.drop_last() });
                    assert(at_stage(m1) && at_stage(m2) && at_stage(p) && at_stage(q));
                    assert(expr_step(x, s1, **start, m1) && l1 == with_local(m1, f.var.name@)
                        && expr_step(x, l1, **end, m2));
                }
            },
            _ => {
                self.expr(&f.iter, host)?;
                let ghost m1 = self.st();
                self.add_local(owned("\0arr"));
                self.emit_const(Value::Int(0), line)?;
                self.add_local(owned("\0i"));
                let ghost m3 = self.st();
                let a_s = self.need_slot("\0arr", f.span)?;
                let i_s = self.need_slot("\0i", f.span)?;
                let start_pc = self.code_len();
                self.push_loop();
                let ghost p = self.st();
                self.emit_op_u16(Op::GetLocal, i_s, line);
                self.emit_op_u16(Op::GetLocal, a_s, line);
                self.emit(Op::Len, line);
                self.emit(Op::Lt, line);
                let ghost h = self.st();
                let exit = self.emit_jump(Op::JumpIfFalse, line);
                self.emit(Op::Pop, line);
                self.emit_op_u16(Op::GetLocal, a_s, line);
                self.emit_op_u16(Op::GetLocal, i_s, line);
                self.emit(Op::GetIndex, line);
                let ghost h2 = self.st();
                self.begin();
                self.add_local(f.var.name.clone());
                self.stmts(&f.body.stmts, host)?;
                let ghost n = self.st();
                self.end(line);
                let ghost q = self.st();
                let ctx = self.pop_loop();
                self.close_for(ctx, i_s, start_pc, exit, line)?;
                let ghost c9 = self.st();
                self.end(line);
                proof {
                    assert(m3 == with_local(with_cp(with_local(m1, "\0arr"@), with_pooled(cp_of(m1), Op::Const, Val::Int(0))), "\0i"@));
                    assert(h2 == st_op(st_op16(st_op16(with_cp(h, jump_pop(cp_of(h), Op::JumpIfFalse)), Op::GetLocal, a_s),
                        Op::GetLocal, i_s), Op::GetIndex));
                    assert(c9 == CSt {
                        code: close_for_code(ChunkV { code: q.code, constants: q.pool, lines: Seq::empty() },
                            q.loops.last().continues@, q.loops.last().breaks@, i_s, start_pc as int, exit as int),
                        pool: pool_with(q.pool, Val::Int(1)), locals: q.locals, depth: q.depth, loops: q.loops.drop_last() });
                    assert(at_stage(m1) && at_stage(p) && at_stage(n));
                    assert(expr_step(x, s1, f.iter, m1));
                }
            },
        }
        Ok(())
    }
}

impl LoopP {
    /// The pending `continue` jumps alone.
    fn continues_only(&self) -> (r: LoopP)
        ensures
            r.breaks@.len() == 0,
            r.continues@ == self.continues@,
    {
        LoopP { breaks: Vec::new(), continues: self.continues.clone() }
    }
}

/// The key a function is known by: `Type.name` for a method.
pub open spec fn fun_key_spec(f: FunDecl) -> Seq<char> {
    match f.on_type {
        Some(t) => t.name@ + "."@ + f.name.name@,
        None => f.name.name@,
    }
}

/// The first position from `p` on whose function starts on a line after
/// `line`.
pub open spec fn first_after(s: Seq<FunDecl>, line: u32, p: int) -> int
    decreases s.len() - p,
{
    if p < 0 || p >= s.len() || s[p].span.line > line { p } else { first_after(s, line, p + 1) }
}

/// The functions among the first `n` items, stably ordered by their
/// source line: each goes after those on its line or before.
pub open spec fn sorted_funs(items: Seq<Item>, n: nat) -> Seq<FunDecl>
    decreases n,
{
    if n == 0 || n > items.len() {
        Seq::empty()
    } else {
        let s = sorted_funs(items, (n - 1) as nat);
        match items[n - 1] {
            Item::Fun(f) => s.insert(first_after(s, f.span.line, 0), f),
            _ => s,
        }
    }
}

/// `first_after` gives a position within the sequence.
proof fn lemma_first_after_bounds(s: Seq<FunDecl>, line: u32, p: int)
    requires
        0 <= p <= s.len(),
    ensures
        p <= first_after(s, line, p) <= s.len(),
    decreases s.len() - p,
{
    if p < s.len() && s[p].span.line <= line {
        lemma_first_after_bounds(s, line, p + 1);
    }
}

/// Each function among the first `n` items is in their ordered list, and
/// each function of the list is one of the items.
proof fn lemma_sorted_funs_members(items: Seq<Item>, n: nat)
    requires
        n <= items.len(),
    ensures
        forall|i: int| 0 <= i < n ==> (#[trigger] items[i] matches Item::Fun(f) ==> sorted_funs(items, n).contains(f)),
        forall|j: int| #![trigger sorted_funs(items, n)[j]] 0 <= j < sorted_funs(items, n).len()
            ==> exists|i: int| 0 <= i < n && #[trigger] items[i] == Item::Fun(sorted_funs(items, n)[j]),
    decreases n,
{
    if n > 0 {
        let m = (n - 1) as nat;
        lemma_sorted_funs_members(items, m);
        let s = sorted_funs(items, m);
        match items[m as int] {
            Item::Fun(f) => {
                let q = first_after(s, f.span.line, 0);
                lemma_first_after_bounds(s, f.span.line, 0);
                let t = s.insert(q, f);
                assert(t[q] == f);
                assert forall|i: int| 0 <= i < n implies (#[trigger] items[i] matches Item::Fun(g) ==> t.contains(g)) by {
                    if i < m {
                        if let Item::Fun(g) = items[i] {
                            let k = choose|k: int| 0 <= k < s.len() && s[k] == g;
                            if k < q {
                                assert(t[k] == g);
                            } else {
                                assert(t[k + 1] == g);
                            }
                        }
                    }
                }
                assert forall|j: int| #![trigger t[j]] 0 <= j < t.len()
                    implies exists|i: int| 0 <= i < n && #[trigger] items[i] == Item::Fun(t[j]) by {
                    if j < q {
                        assert(t[j] == s[j]);
                    } else if j > q {
                        assert(t[j] == s[j - 1]);
                    } else {
                        assert(items[m as int] == Item::Fun(t[j]));
                    }
                }
            },
            _ => {},
        }
    }
}

/// The key of a function is `main` exactly for a free function named `main`.
proof fn lemma_main_key(f: FunDecl)
    ensures
        fun_key_spec(f) == "main"@ <==> (f.on_type is None && f.name.name@ == "main"@),
{
    reveal_strlit("main");
    reveal_strlit(".");
    if let Some(t) = f.on_type {
        let k = fun_key_spec(f);
        let a = t.name@;
        assert("."@ =~= seq!['.']);
        assert("main"@ =~= seq!['m', 'a', 'i', 'n']);
        assert(k =~= a + seq!['.'] + f.name.name@);
        assert(k[a.len() as int] == '.');
        if k == "main"@ {
            assert(a.len() < 4);
            assert(forall|x: int| 0 <= x < 4 ==> "main"@[x] != '.');
            assert(false);
        }
    }
}

/// The struct layouts among the first `n` items: names and field names.
pub open spec fn struct_layouts(items: Seq<Item>, n: nat) -> Seq<StructTypeV>
    decreases n,
{
    if n == 0 || n > items.len() {
        Seq::empty()
    } else {
        let s = struct_layouts(items, (n - 1) as nat);
        match items[n - 1] {
            Item::Struct(d) => s.push(StructTypeV {
                name: d.name.name@,
                fields: Seq::new(d.fields@.len(), |k: int| d.fields@[k].name.name@),
            }),
            _ => s,
        }
    }
}

/// The locals a function starts with: its parameters, at depth 0.
spec fn param_locals(f: FunDecl) -> Seq<(Seq<char>, u64)> {
    Seq::new(f.params@.len(), |k: int| (f.params@[k].name.name@, 0u64))
}

/// The state before a body: empty code and pool, `ls` as locals at depth
/// 0, no loops.
spec fn body_start(ls: Seq<(Seq<char>, u64)>) -> CSt {
    CSt { code: Seq::empty(), pool: Seq::empty(), locals: ls, depth: 0, loops: Seq::empty() }
}

/// Whether a function returns a value and ends with an expression
/// statement that it returns.
spec fn returns_last(f: FunDecl) -> bool {
    let ss = f.body.stmts@;
    ss.len() > 0 && !(f.ret is Void) && ss.last() is Expr && ss.last()->Expr_0.implicit_return
}

/// The code of a function's body from `a` to `b`: its statements in order;
/// a last expression that the function returns is compiled with `Return`.
spec fn body_code(x: Names, voids: Seq<String>, f: FunDecl, a: CSt, b: CSt) -> bool {
    let ss = f.body.stmts@;
    if returns_last(f) {
        exists|m: CSt, e: CSt| #![trigger at_stage(m), at_stage(e)]
            stmts_code(x, voids, ss, (ss.len() - 1) as nat, a, m)
            && expr_step(x, m, ss.last()->Expr_0.expr, e) && b == st_op(e, Op::Return)
    } else {
        stmts_code(x, voids, ss, ss.len(), a, b)
    }
}

/// The chunk of function `f`: its body from its parameters, then `Return`.
spec fn fun_code(x: Names, voids: Seq<String>, f: FunDecl, c: ChunkV) -> bool {
    exists|b: CSt| #![trigger at_stage(b)] body_code(x, voids, f, body_start(param_locals(f)), b)
        && c.code == b.code.push(op_byte(Op::Return)) && c.constants == b.pool
}

/// The top-level statements among the first `n` items, in order.
spec fn top_stmts(items: Seq<Item>, n: nat) -> Seq<Stmt>
    decreases n,
{
    if n == 0 || n > items.len() {
        Seq::empty()
    } else {
        let s = top_stmts(items, (n - 1) as nat);
        match items[n - 1] {
            Item::Stmt(st) => s.push(st),
            _ => s,
        }
    }
}

/// The chunk of the top-level code: its statements from no locals, then
/// `Return`.
spec fn top_code(x: Names, voids: Seq<String>, items: Seq<Item>, c: ChunkV) -> bool {
    let ss = top_stmts(items, items.len());
    exists|b: CSt| #![trigger at_stage(b)] stmts_code(x, voids, ss, ss.len(), body_start(Seq::empty()), b)
        && c.code == b.code.push(op_byte(Op::Return)) && c.constants == b.pool
}

/// The keys of the functions among the first `n` of `ds` that return
/// nothing, in order.
spec fn void_keys(ds: Seq<FunDecl>, n: nat) -> Seq<Seq<char>>
    decreases n,
{
    if n == 0 || n > ds.len() {
        Seq::empty()
    } else {
        let s = void_keys(ds, (n - 1) as nat);
        if ds[n - 1].ret is Void { s.push(fun_key_spec(ds[n - 1])) } else { s }
    }
}

/// The names the compiler gives `items` with constants `consts`: function
/// `k` in line order at index `k`, then `$toplevel`; struct `k` in
/// declaration order at index `k`, with its layout; no locals; and as
/// functions that return nothing, the void ones, `$toplevel`, `print` and
/// `push`.
spec fn program_names(items: Seq<Item>, consts: Seq<(String, Value)>, x: Names, voids: Seq<String>) -> bool {
    let ds = sorted_funs(items, items.len());
    let ls = struct_layouts(items, items.len());
    let vs = void_keys(ds, ds.len()) + seq!["$toplevel"@, "print"@, "push"@];
    &&& x.consts == consts
    &&& x.locals == Seq::<(Seq<char>, u64)>::empty()
    &&& x.funs.len() == ds.len() + 1
    &&& forall|k: int| 0 <= k < ds.len() ==> (#[trigger] x.funs[k]).0@ == fun_key_spec(ds[k]) && x.funs[k].1 == k
    &&& x.funs[ds.len() as int].0@ == "$toplevel"@ && x.funs[ds.len() as int].1 == ds.len()
    &&& x.structs.len() == ls.len()
    &&& forall|k: int| 0 <= k < ls.len() ==> (#[trigger] x.structs[k]).0@ == ls[k].name && x.structs[k].1 == k
    &&& x.layouts.len() == ls.len()
    &&& forall|k: int| 0 <= k < ls.len() ==> (#[trigger] x.layouts[k]).view() == ls[k]
    &&& voids.len() == vs.len()
    &&& forall|i: int| 0 <= i < vs.len() ==> (#[trigger] voids[i])@ == vs[i]
}

/// The code of module `m` is the code compiled from `items` with the
/// constants `consts`: each declared function, in line order, holds the
/// code of its body, and `$toplevel` the code of the top-level statements
/// (see `stmt_code` and `expr_code`).
pub closed spec fn compiled_code(items: Seq<Item>, consts: Seq<(String, Value)>, m: Module) -> bool {
    let ds = sorted_funs(items, items.len());
    exists|x: Names, voids: Seq<String>| #![trigger program_names(items, consts, x, voids)]
        program_names(items, consts, x, voids)
        && (forall|k: int| 0 <= k < ds.len() ==> fun_code(x, voids, ds[k], (#[trigger] m.functions@[k]).chunk.view()))
        && top_code(x, voids, items, m.functions@[ds.len() as int].chunk.view())
}

/// The top-level statements of the first `i` items begin those of the
/// first `j`.
proof fn lemma_top_prefix(items: Seq<Item>, i: nat, j: nat)
    requires
        i <= j <= items.len(),
    ensures
        top_stmts(items, i).len() <= top_stmts(items, j).len(),
        forall|k: int| 0 <= k < top_stmts(items, i).len() ==> #[trigger] top_stmts(items, j)[k] == top_stmts(items, i)[k],
    decreases j - i,
{
    if i < j {
        lemma_top_prefix(items, i, (j - 1) as nat);
    }
}

/// The shape of the module compiled from `items`: the declared functions
/// in the order of their lines, with their names and arities, then the
/// top-level code as `$toplevel`; the struct layouts in declaration order;
/// the last function named `main` as the entry when there is one; and every
/// chunk well formed and ending with `Return`.
pub open spec fn compiled_shape(items: Seq<Item>, m: Module) -> bool {
    &&& m.functions@.len() == m.toplevel_index + 1
    &&& forall|i: int| 0 <= i < m.functions@.len() ==> (#[trigger] m.functions@[i]).chunk.wf()
    &&& forall|i: int| 0 <= i < m.functions@.len() ==> ends_with_return((#[trigger] m.functions@[i]).chunk.code@)
    &&& m.functions@[m.toplevel_index as int].name@ == "$toplevel"@
    &&& m.functions@[m.toplevel_index as int].arity == 0
    &&& m.functions@[m.toplevel_index as int].is_void
    &&& ({
        let ds = sorted_funs(items, items.len());
        &&& m.toplevel_index == ds.len()
        &&& forall|i: int| 0 <= i < ds.len() ==> (#[trigger] m.functions@[i]).name@ == fun_key_spec(ds[i])
            && m.functions@[i].arity == ds[i].params@.len() as u8
    })
    &&& ({
        let ls = struct_layouts(items, items.len());
        &&& m.struct_types@.len() == ls.len()
        &&& forall|i: int| 0 <= i < ls.len() ==> (#[trigger] m.struct_types@[i]).view() == ls[i]
    })
    &&& (m.main_index is Some <==> exists|i: int| 0 <= i < items.len() && is_main_fun(#[trigger] items[i]))
    &&& match m.main_index {
        Some(k) => k < m.functions@.len() && m.functions@[k as int].name@ == "main"@
            && forall|j: int| k < j < m.functions@.len() ==> (#[trigger] m.functions@[j]).name@ != "main"@,
        None => forall|j: int| 0 <= j < m.functions@.len() ==> (#[trigger] m.functions@[j]).name@ != "main"@,
    }
}

fn fun_key(f: &FunDecl) -> (r: String)
    ensures
        r@ == fun_key_spec(*f),
{
    match &f.on_type {
        Some(t) => {
            let mut s = t.name.clone();
            push_str(&mut s, ".");
            push_str(&mut s, f.name.name.as_str());
            s
        },
        None => f.name.name.clone(),
    }
}

/// The functions of a program, stably ordered by their source line.
fn sorted_functions(program: &Program) -> (r: Vec<&FunDecl>)
    ensures
        r@.len() == sorted_funs(program.items@, program.items@.len()).len(),
        forall|k: int| 0 <= k < r@.len() ==> *(#[trigger] r@[k]) == sorted_funs(program.items@, program.items@.len())[k],
{
    let ghost items = program.items@;
    let mut decls: Vec<&FunDecl> = Vec::new();
    let mut i: usize = 0;
    while i < program.items.len()
        invariant
            i <= program.items@.len(),
            items == program.items@,
            decls@.len() == sorted_funs(items, i as nat).len(),
            forall|k: int| 0 <= k < decls@.len() ==> *(#[trigger] decls@[k]) == sorted_funs(items, i as nat)[k],
        decreases program.items@.len() - i,
    {
        let ghost s = sorted_funs(items, i as nat);
        match &program.items[i] {
            Item::Fun(f) => {
                let line = f.span.line;
                let mut p: usize = 0;
                while p < decls.len() && decls[p].span.line <= line
                    invariant
                        p <= decls@.len(),
                        decls@.len() == s.len(),
                        forall|k: int| 0 <= k < decls@.len() ==> *(#[trigger] decls@[k]) == s[k],
                        first_after(s, line, p as int) == first_after(s, line, 0),
                    decreases decls@.len() - p,
                {
                    p = p + 1;
                }
                let ghost before = decls@;
                decls.insert(p, f);
                proof {
                    let t = s.insert(p as int, *f);
                    assert forall|k: int| 0 <= k < decls@.len() implies *(#[trigger] decls@[k]) == t[k] by {
                        if k < p {
                            assert(decls@[k] == before[k]);
                        } else if k > p {
                            assert(decls@[k] == before[k - 1]);
                        }
                    }
                }
            },
            _ => {},
        }
        i = i + 1;
    }
    decls
}

impl Compiler {
    /// Compiles a checked program, given the values of its constants.
    /// Functions come in the order of their source lines; the top-level code
    /// is the last function, `$toplevel`, and `main` (when declared) is the
    /// entry.
    pub fn compile<H: Host>(program: &Program, consts: Vec<(String, Value)>, host: &H) -> (r: Result<Module, CompileError>)
        ensures
            r matches Ok(m) ==> compiled_shape(program.items@, m),
            r matches Ok(m) ==> compiled_code(program.items@, consts@, m),
    {
        let ghost consts0 = consts@;
        let ghost items = program.items@;
        let mut sidx: Vec<(String, usize)> = Vec::new();
        let mut stypes: Vec<StructType> = Vec::new();
        let mut i: usize = 0;
        while i < program.items.len()
            invariant
                i <= program.items@.len(),
                items == program.items@,
                stypes@.len() == struct_layouts(items, i as nat).len(),
                forall|k: int| 0 <= k < stypes@.len() ==> (#[trigger] stypes@[k]).view() == struct_layouts(items, i as nat)[k],
                sidx@.len() == stypes@.len(),
                forall|k: int| 0 <= k < sidx@.len() ==> (#[trigger] sidx@[k]).0@ == struct_layouts(items, i as nat)[k].name
                    && sidx@[k].1 == k,
            decreases program.items@.len() - i,
        {
            match &program.items[i] {
                Item::Struct(sd) => {
                    let ghost sbefore = sidx@;
                    sidx.push((sd.name.name.clone(), stypes.len()));
                    assert forall|k: int| 0 <= k < sidx@.len() implies (#[trigger] sidx@[k]).0@
                        == struct_layouts(items, (i + 1) as nat)[k].name && sidx@[k].1 == k by {
                        if k < sbefore.len() {
                            assert(sidx@[k] == sbefore[k]);
                        }
                    }
                    let mut fields: Vec<String> = Vec::new();
                    let mut k: usize = 0;
                    while k < sd.fields.len()
                        invariant
                            k <= sd.fields@.len(),
                            fields@.len() == k,
                            forall|j: int| 0 <= j < k ==> (#[trigger] fields@[j])@ == sd.fields@[j].name.name@,
                        decreases sd.fields@.len() - k,
                    {
                        fields.push(sd.fields[k].name.name.clone());
                        k = k + 1;
                    }
                    let ghost before = stypes@;
                    let st = StructType { name: sd.name.name.clone(), fields };
                    assert(st.view() == (StructTypeV {
                        name: sd.name.name@,
                        fields: Seq::new(sd.fields@.len(), |j: int| sd.fields@[j].name.name@),
                    })) by {
                        assert(st.view().fields =~= Seq::new(sd.fields@.len(), |j: int| sd.fields@[j].name.name@));
                    }
                    stypes.push(st);
                    assert forall|k: int| 0 <= k < stypes@.len() implies (#[trigger] stypes@[k]).view()
                        == struct_layouts(items, (i + 1) as nat)[k] by {
                        if k < before.len() {
                            assert(stypes@[k] == before[k]);
                        }
                    }
                },
                _ => {},
            }
            i = i + 1;
        }
        let decls = sorted_functions(program);
        let ghost ds = sorted_funs(items, items.len());
        let tl = decls.len();
        let mut fidx: Vec<(String, usize)> = Vec::new();
        let mut voids: Vec<String> = Vec::new();
        let mut fns: Vec<FnC> = Vec::new();
        let mut d: usize = 0;
        while d < tl
            invariant
                d <= tl,
                tl == decls@.len(),
                tl == ds.len(),
                items == program.items@,
                ds == sorted_funs(items, items.len()),
                forall|k: int| 0 <= k < decls@.len() ==> *(#[trigger] decls@[k]) == ds[k],
                fns@.len() == d,
                forall|k: int| 0 <= k < fns@.len() ==> (#[trigger] fns@[k]).chunk.wf(),
                forall|k: int| 0 <= k < fns@.len() ==> (#[trigger] fns@[k]).name@ == fun_key_spec(ds[k])
                    && fns@[k].arity == ds[k].params@.len() as u8,
                forall|k: int| 0 <= k < fns@.len() ==> local_pairs((#[trigger] fns@[k]).locals@) == param_locals(ds[k])
                    && fns@[k].depth == 0 && fns@[k].chunk.code@.len() == 0 && fns@[k].chunk.constants@.len() == 0,
                fidx@.len() == d,
                forall|k: int| 0 <= k < d ==> (#[trigger] fidx@[k]).0@ == fun_key_spec(ds[k]) && fidx@[k].1 == k,
                voids@.len() == void_keys(ds, d as nat).len(),
                forall|k: int| 0 <= k < voids@.len() ==> (#[trigger] voids@[k])@ == void_keys(ds, d as nat)[k],
            decreases tl - d,
        {
            let ghost fb = fidx@;
            let ghost vb = voids@;
            let f = decls[d];
            let key = fun_key(f);
            fidx.push((key.clone(), d));
            if f.ret.is_void() {
                voids.push(key.clone());
            }
            assert forall|k: int| 0 <= k < d + 1 implies (#[trigger] fidx@[k]).0@ == fun_key_spec(ds[k]) && fidx@[k].1 == k by {
                if k < d {
                    assert(fidx@[k] == fb[k]);
                }
            }
            assert forall|k: int| 0 <= k < voids@.len() implies (#[trigger] voids@[k])@ == void_keys(ds, (d + 1) as nat)[k] by {
                if k < vb.len() {
                    assert(voids@[k] == vb[k]);
                }
            }
            let mut locals: Vec<Local> = Vec::new();
            let mut k: usize = 0;
            while k < f.params.len()
                invariant
                    k <= f.params@.len(),
                    locals@.len() == k,
                    forall|j: int| 0 <= j < k ==> (#[trigger] locals@[j]).name@ == f.params@[j].name.name@ && locals@[j].depth == 0,
                decreases f.params@.len() - k,
            {
                locals.push(Local { name: f.params[k].name.name.clone(), depth: 0 });
                k = k + 1;
            }
            assert(local_pairs(locals@) =~= param_locals(*f));
            let c = Chunk::new();
            let ghost fnb = fns@;
            fns.push(FnC { name: key, arity: #[verifier::truncate] (f.params.len() as u8), chunk: c, locals, depth: 0 });
            assert forall|k: int| 0 <= k < fns@.len() implies local_pairs((#[trigger] fns@[k]).locals@) == param_locals(ds[k])
                && fns@[k].depth == 0 && fns@[k].chunk.code@.len() == 0 && fns@[k].chunk.constants@.len() == 0 by {
                if k < fnb.len() {
                    assert(fns@[k] == fnb[k]);
                }
            }
            d = d + 1;
        }
        fidx.push((owned("$toplevel"), tl));
        voids.push(owned("$toplevel"));
        voids.push(owned("print"));
        voids.push(owned("push"));
        fns.push(FnC { name: owned("$toplevel"), arity: 0, chunk: Chunk::new(), locals: Vec::new(), depth: 0 });
        let ghost fns0 = fns@;
        let ghost stypes0 = stypes@;
        let mut cx = Compiler { fidx, fns, voids, sidx, stypes, consts, loops: Vec::new(), cur: tl };
        let ghost x = cx.base();
        let ghost vv = cx.voids@;
        proof {
            let ls = struct_layouts(items, items.len());
            let vs = void_keys(ds, ds.len()) + seq!["$toplevel"@, "print"@, "push"@];
            assert forall|k: int| 0 <= k < vs.len() implies (#[trigger] vv[k])@ == vs[k] by {
                reveal_strlit("$toplevel");
                reveal_strlit("print");
                reveal_strlit("push");
            }
            assert(x.locals =~= Seq::<(Seq<char>, u64)>::empty());
            assert(program_names(items, consts0, x, vv));
        }
        d = 0;
        while d < tl
            invariant
                d <= tl,
                tl == decls@.len(),
                cx.wf(),
                cx.fns@.len() == tl + 1,
                cx.fns@[tl as int].name@ == "$toplevel"@,
                cx.stypes@ == stypes0,
                forall|k: int| 0 <= k < cx.fns@.len() ==> (#[trigger] cx.fns@[k]).name == fns0[k].name
                    && cx.fns@[k].arity == fns0[k].arity,
                forall|k: int| 0 <= k < d ==> ends_with_return((#[trigger] cx.fns@[k]).chunk.code@),
                cx.base() == x,
                cx.voids@ == vv,
                cx.loops@.len() == 0,
                forall|k: int| 0 <= k < decls@.len() ==> *(#[trigger] decls@[k]) == ds[k],
                ds.len() == tl,
                forall|k: int| d <= k < cx.fns@.len() ==> #[trigger] cx.fns@[k] == fns0[k],
                forall|k: int| 0 <= k < tl ==> local_pairs((#[trigger] fns0[k]).locals@) == param_locals(ds[k])
                    && fns0[k].depth == 0 && fns0[k].chunk.code@.len() == 0 && fns0[k].chunk.constants@.len() == 0,
                fns0[tl as int].locals@.len() == 0 && fns0[tl as int].depth == 0
                    && fns0[tl as int].chunk.code@.len() == 0 && fns0[tl as int].chunk.constants@.len() == 0,
                forall|k: int| 0 <= k < d ==> fun_code(x, vv, ds[k], (#[trigger] cx.fns@[k]).chunk.view()),
            decreases tl - d,
        {
            cx.cur = d;
            let f = decls[d];
            let non_void = !f.ret.is_void();
            let n = f.body.stmts.len();
            let ghost a0 = cx.st();
            proof {
                assert(cx.fns@[d as int] == fns0[d as int]);
                assert(a0.code =~= Seq::<u8>::empty());
                assert(a0.pool =~= Seq::<Val>::empty());
                assert(a0.loops =~= Seq::<LoopP>::empty());
                assert(a0 == body_start(param_locals(ds[d as int])));
            }
            let ghost mut ret = false;
            let mut si: usize = 0;
            while si < n
                invariant
                    si <= n,
                    n == f.body.stmts@.len(),
                    cx.wf(),
                    cx.cur == d,
                    d < tl,
                    cx.fns@.len() == tl + 1,
                    cx.fns@[tl as int].name@ == "$toplevel"@,
                    cx.stypes@ == stypes0,
                    forall|k: int| 0 <= k < cx.fns@.len() ==> (#[trigger] cx.fns@[k]).name == fns0[k].name
                        && cx.fns@[k].arity == fns0[k].arity,
                    forall|k: int| 0 <= k < d ==> ends_with_return((#[trigger] cx.fns@[k]).chunk.code@),
                    cx.base() == x,
                    cx.voids@ == vv,
                    cx.loops@.len() == 0,
                    forall|k: int| d < k < cx.fns@.len() ==> #[trigger] cx.fns@[k] == fns0[k],
                    forall|k: int| 0 <= k < d ==> fun_code(x, vv, ds[k], (#[trigger] cx.fns@[k]).chunk.view()),
                    *f == ds[d as int],
                    non_void == !(f.ret is Void),
                    !ret ==> stmts_code(x, vv, f.body.stmts@, si as nat, a0, cx.st()),
                    ret ==> si == n && returns_last(*f) && body_code(x, vv, *f, a0, cx.st()),
                    returns_last(*f) && si == n ==> ret,
                decreases n - si,
            {
                let st = &f.body.stmts[si];
                let ghost m = cx.st();
                let mut done = false;
                if si + 1 == n && non_void {
                    match st {
                        Stmt::Expr(e) => {
                            if e.implicit_return {
                                cx.expr(&e.expr, host)?;
                                let ghost e2 = cx.st();
                                cx.emit(Op::Return, e.span.line);
                                done = true;
                                proof {
                                    ret = true;
                                    assert(at_stage(m) && at_stage(e2) && expr_step(x, m, e.expr, e2));
                                    assert(f.body.stmts@.last() == *st);
                                }
                            }
                        },
                        _ => {},
                    }
                }
                if !done {
                    cx.stmt(st, host)?;
                    proof {
                        lemma_stmts_step(x, vv, f.body.stmts@, si as nat, a0, m, cx.st());
                    }
                }
                si = si + 1;
            }
            let ghost bb = cx.st();
            cx.emit(Op::Return, f.body.span.line);
            assert(at_stage(bb) && body_code(x, vv, ds[d as int], body_start(param_locals(ds[d as int])), bb));
            d = d + 1;
        }
        cx.cur = tl;
        let ghost t0 = cx.st();
        let ghost all_top = top_stmts(items, items.len());
        proof {
            assert(cx.fns@[tl as int] == fns0[tl as int]);
            assert(t0.code =~= Seq::<u8>::empty());
            assert(t0.pool =~= Seq::<Val>::empty());
            assert(t0.loops =~= Seq::<LoopP>::empty());
            assert(t0.locals =~= Seq::<(Seq<char>, u64)>::empty());
            assert(t0 == body_start(Seq::empty()));
        }
        i = 0;
        while i < program.items.len()
            invariant
                i <= program.items@.len(),
                items == program.items@,
                cx.wf(),
                cx.cur == tl,
                cx.fns@.len() == tl + 1,
                cx.fns@[tl as int].name@ == "$toplevel"@,
                cx.stypes@ == stypes0,
                forall|k: int| 0 <= k < cx.fns@.len() ==> (#[trigger] cx.fns@[k]).name == fns0[k].name
                    && cx.fns@[k].arity == fns0[k].arity,
                forall|k: int| 0 <= k < tl ==> ends_with_return((#[trigger] cx.fns@[k]).chunk.code@),
                cx.base() == x,
                cx.voids@ == vv,
                cx.loops@.len() == 0,
                ds.len() == tl,
                all_top == top_stmts(items, items.len()),
                t0 == body_start(Seq::empty()),
                forall|k: int| 0 <= k < tl ==> fun_code(x, vv, ds[k], (#[trigger] cx.fns@[k]).chunk.view()),
                stmts_code(x, vv, all_top, top_stmts(items, i as nat).len(), t0, cx.st()),
            decreases program.items@.len() - i,
        {
            let ghost m = cx.st();
            proof {
                lemma_top_prefix(items, (i + 1) as nat, items.len());
            }
            match &program.items[i] {
                Item::Stmt(st) => {
                    cx.stmt(st, host)?;
                    proof {
                        let j = top_stmts(items, i as nat).len();
                        assert(top_stmts(items, (i + 1) as nat)[j as int] == *st);
                        assert(all_top[j as int] == *st);
                        lemma_stmts_step(x, vv, all_top, j, t0, m, cx.st());
                    }
                },
                _ => {},
            }
            i = i + 1;
        }
        let ghost tb = cx.st();
        cx.emit(Op::Return, 0);
        proof {
            let cv = cx.fns@[tl as int].chunk.view();
            assert(stmts_code(x, vv, all_top, all_top.len(), body_start(Seq::empty()), tb));
            assert(cv.code == tb.code.push(op_byte(Op::Return)) && cv.constants == tb.pool);
            assert(at_stage(tb));
            assert(top_code(x, vv, items, cv));
        }
        let voids = cx.voids;
        let stypes = cx.stypes;
        let mut fns = cx.fns;
        let ghost all = fns@;
        let mut functions: Vec<Function> = Vec::new();
        let mut main_index: Option<usize> = None;
        let ghost total = tl + 1;
        while fns.len() > 0
            invariant
                functions@.len() + fns@.len() == total,
                total == tl + 1,
                all.len() == total,
                fns@ == all.skip(functions@.len() as int),
                forall|k: int| 0 <= k < all.len() ==> (#[trigger] all[k]).chunk.wf(),
                forall|k: int| 0 <= k < functions@.len() ==> (#[trigger] functions@[k]).chunk.wf()
                    && functions@[k].name == all[k].name && functions@[k].arity == all[k].arity
                    && functions@[k].chunk == all[k].chunk,
                forall|k: int| 0 <= k < all.len() ==> ends_with_return((#[trigger] all[k]).chunk.code@),
                forall|k: int| 0 <= k < tl ==> fun_code(x, vv, ds[k], (#[trigger] all[k]).chunk.view()),
                top_code(x, vv, items, all[tl as int].chunk.view()),
                ds.len() == tl,
                all[tl as int].name@ == "$toplevel"@,
                functions@.len() > tl ==> functions@[tl as int].is_void,
                match main_index {
                    Some(k) => k < functions@.len() && functions@[k as int].name@ == "main"@
                        && forall|j: int| k < j < functions@.len() ==> (#[trigger] functions@[j]).name@ != "main"@,
                    None => forall|j: int| 0 <= j < functions@.len() ==> (#[trigger] functions@[j]).name@ != "main"@,
                },
            decreases fns@.len(),
        {
            let ghost before = fns@;
            let ghost n0 = functions@.len();
            let fc = fns.remove(0);
            assert(fns@ =~= all.skip(n0 + 1int));
            assert(fc == all[n0 as int]);
            if str_eq(fc.name.as_str(), "main") {
                main_index = Some(functions.len());
            }
            let is_void = str_eq(fc.name.as_str(), "$toplevel") || contains(&voids, fc.name.as_str());
            let locals = #[verifier::truncate] (fc.locals.len() as u16);
            functions.push(Function { name: fc.name, arity: fc.arity, locals, is_void, chunk: fc.chunk });
        }
        proof {
            let ds = sorted_funs(items, items.len());
            lemma_sorted_funs_members(items, items.len());
            reveal_strlit("main");
            reveal_strlit("$toplevel");
            assert("main"@ != "$toplevel"@) by {
                assert("main"@[0] != "$toplevel"@[0]);
            }
            match main_index {
                Some(k) => {
                    assert(k < tl);
                    lemma_main_key(ds[k as int]);
                    let i = choose|i: int| 0 <= i < items.len() && #[trigger] items[i] == Item::Fun(ds[k as int]);
                    assert(is_main_fun(items[i]));
                },
                None => {
                    assert forall|i: int| 0 <= i < items.len() implies !is_main_fun(#[trigger] items[i]) by {
                        if let Item::Fun(f) = items[i] {
                            if is_main_fun(items[i]) {
                                assert(ds.contains(f));
                                let j = choose|j: int| 0 <= j < ds.len() && ds[j] == f;
                                lemma_main_key(f);
                                assert(functions@[j].name@ == fun_key_spec(ds[j]));
                            }
                        }
                    }
                },
            }
        }
        let m = Module { functions, main_index, toplevel_index: tl, struct_types: stypes };
        proof {
            assert forall|k: int| 0 <= k < ds.len() implies fun_code(x, vv, ds[k], (#[trigger] m.functions@[k]).chunk.view()) by {
                assert(m.functions@[k].chunk == all[k].chunk);
            }
            assert(m.functions@[tl as int].chunk == all[tl as int].chunk);
            assert(program_names(items, consts0, x, vv));
        }
        Ok(m)
    }
}

} // verus!
