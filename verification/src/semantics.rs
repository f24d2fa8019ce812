//! The meaning of one step of the stack machine, stated over models.
//!
//! A step depends on the machine's state alone, except where the host is
//! consulted: float arithmetic (its result is `fr`), the text of a value
//! that holds a float, and a line of input (both `t`).

use vstd::prelude::*;
use crate::chunk::{read_u16_at, Module};
use crate::display::disp;
use crate::float::{spec_float_order, spec_float_eq, spec_float_neg, spec_is_zero, FloatBinOp};
use crate::op::{lemma_byte_op_roundtrip, lemma_op_byte_roundtrip, op_byte, op_of_byte, Op};
use crate::text::int_text;
use crate::value::{field_pos, kind_name_of, Val};

verus! {

/// Maximum number of active calls.
pub const MAX_DEPTH: usize = 1024;

/// An active call: the function, the next instruction, and where its locals
/// start on the stack (local slot `n` is stack entry `base + n`).
#[derive(Debug, Clone, Copy)]
pub struct Frame {
    pub func: usize,
    pub ip: usize,
    pub base: usize,
}

/// The model of the machine's state.
pub struct VmV {
    pub stack: Seq<Val>,
    pub frames: Seq<Frame>,
    pub heap: Seq<Seq<Val>>,
    pub out: Seq<Seq<char>>,
}

/// What one step leads to.
pub enum StepV {
    /// The machine goes on in this state.
    Running(VmV),
    /// The program returned from its entry function; these lines were printed.
    Finished(Seq<Seq<char>>),
    /// A run-time error, with its message and source line (0 when unknown).
    Failed(Seq<char>, u32),
}

pub open spec fn fail(msg: Seq<char>, line: u32) -> StepV {
    StepV::Failed(msg, line)
}

pub open spec fn code_of(m: &Module, f: int) -> Seq<u8> {
    m.functions@[f].chunk.code@
}

/// The source line of the code byte at `ip`; 0 when the line table is short.
pub open spec fn line_of(m: &Module, f: int, ip: int) -> u32 {
    let ls = m.functions@[f].chunk.lines@;
    if 0 <= ip < ls.len() { ls[ip] } else { 0 }
}

/// The `u16` operand at `at`, if the code is long enough.
pub open spec fn operand(m: &Module, f: int, at: int) -> Option<nat> {
    if at + 1 >= code_of(m, f).len() {
        None
    } else {
        Some(read_u16_at(code_of(m, f), at))
    }
}

pub open spec fn truncated() -> StepV {
    fail("truncated instruction"@, 0)
}

pub open spec fn underflow(line: u32) -> StepV {
    fail("stack underflow"@, line)
}

/// The state with the current frame's next instruction set to `ip`.
pub open spec fn with_ip(s: VmV, ip: int) -> VmV {
    let top = s.frames.last();
    VmV { frames: s.frames.update(s.frames.len() - 1, Frame { func: top.func, ip: ip as usize, base: top.base }), ..s }
}

pub open spec fn push(s: VmV, v: Val) -> VmV {
    VmV { stack: s.stack.push(v), ..s }
}

pub open spec fn pop(s: VmV) -> VmV {
    VmV { stack: s.stack.drop_last(), ..s }
}

/// Continue at `ip`; an address past `usize` is out of range.
pub open spec fn goto(s: VmV, ip: int) -> StepV {
    if ip > usize::MAX {
        fail("指令指针越界"@, 0)
    } else {
        StepV::Running(with_ip(s, ip))
    }
}

/// The name carried by a field-name constant.
pub open spec fn name_const(m: &Module, f: int, ci: nat) -> Option<Seq<char>> {
    let cs = m.functions@[f].chunk.view().constants;
    if ci < cs.len() {
        match cs[ci as int] {
            Val::Str(s) => Some(s),
            _ => None,
        }
    } else {
        None
    }
}

/// `a / b` rounded toward zero, wrapping on overflow (as `i64::wrapping_div`).
pub open spec fn div_trunc(a: i64, b: i64) -> i64 {
    match a.checked_div(b) {
        Some(q) => q,
        None => i64::MIN,
    }
}

/// The remainder of `a / b` rounded toward zero, wrapping on overflow (as
/// `i64::wrapping_rem`).
pub open spec fn rem_trunc(a: i64, b: i64) -> i64 {
    match a.checked_rem(b) {
        Some(r) => r,
        None => 0,
    }
}

/// Negation, wrapping on overflow.
pub open spec fn neg_wrap(x: i64) -> i64 {
    if x == i64::MIN { x } else { (-x) as i64 }
}

pub open spec fn float_op_of(op: Op) -> FloatBinOp {
    match op {
        Op::Add => FloatBinOp::Add,
        Op::Sub => FloatBinOp::Sub,
        Op::Mul => FloatBinOp::Mul,
        Op::Div => FloatBinOp::Div,
        _ => FloatBinOp::Rem,
    }
}

/// `+ - * / %` on two values; `fr` is what the host computes for floats.
pub open spec fn arith(op: Op, a: Val, b: Val, fr: u64) -> Result<Val, Seq<char>> {
    match (a, b) {
        (Val::Str(x), Val::Str(y)) if op == Op::Add => Ok(Val::Str(x + y)),
        (Val::Int(x), Val::Int(y)) => match op {
            Op::Add => Ok(Val::Int(vstd::wrapping::i64_specs::wrapping_add(x, y))),
            Op::Sub => Ok(Val::Int(vstd::wrapping::i64_specs::wrapping_sub(x, y))),
            Op::Mul => Ok(Val::Int(vstd::wrapping::i64_specs::wrapping_mul(x, y))),
            _ => if y == 0 {
                Err("除数不能为零"@)
            } else if op == Op::Div {
                Ok(Val::Int(div_trunc(x, y)))
            } else {
                Ok(Val::Int(rem_trunc(x, y)))
            },
        },
        (Val::Float(_), Val::Float(y)) => if (op == Op::Div || op == Op::Rem) && spec_is_zero(y) {
            Err("除数不能为零"@)
        } else {
            Ok(Val::Float(fr))
        },
        _ => Err("cannot apply arithmetic to "@ + kind_name_of(a) + " and "@ + kind_name_of(b)),
    }
}

/// `==` on two values.
pub open spec fn val_eq(a: Val, b: Val) -> Result<bool, Seq<char>> {
    match (a, b) {
        (Val::Int(x), Val::Int(y)) => Ok(x == y),
        (Val::Float(x), Val::Float(y)) => Ok(spec_float_eq(x, y)),
        (Val::Bool(x), Val::Bool(y)) => Ok(x == y),
        (Val::Str(x), Val::Str(y)) => Ok(x == y),
        _ => Err("无法比较 "@ + kind_name_of(a) + " 与 "@ + kind_name_of(b)),
    }
}

/// Three-way comparison of two numbers.
pub open spec fn val_order(a: Val, b: Val) -> Result<i8, Seq<char>> {
    match (a, b) {
        (Val::Int(x), Val::Int(y)) => Ok(if x < y { -1i8 } else if x == y { 0i8 } else { 1i8 }),
        (Val::Float(x), Val::Float(y)) => match spec_float_order(x, y) {
            Some(c) => Ok(c),
            None => Err("无法比较 NaN"@),
        },
        _ => Err("无法比较大小 "@ + kind_name_of(a) + " 与 "@ + kind_name_of(b)),
    }
}

pub open spec fn order_holds(op: Op, c: i8) -> bool {
    match op {
        Op::Lt => c < 0,
        Op::Le => c <= 0,
        Op::Gt => c > 0,
        _ => c >= 0,
    }
}

/// Text of a value: the exact text when it holds no float, else `t`.
pub open spec fn shown(v: Val, heap: Seq<Seq<Val>>, t: Seq<char>) -> Option<Seq<char>> {
    match disp(v, heap, heap.len()) {
        None => None,
        Some((x, exact)) => Some(if exact { x } else { t }),
    }
}

pub open spec fn cyclic_msg() -> Seq<char> {
    "数组嵌套过深或成环，无法显示"@
}

/// A line of input without its trailing line-end characters.
pub open spec fn strip_eol(t: Seq<char>) -> Seq<char>
    decreases t.len(),
{
    if t.len() > 0 && (t.last() == '\n' || t.last() == '\r') {
        strip_eol(t.drop_last())
    } else {
        t
    }
}

/// Entering function `func` with its arguments on top of the stack.
pub open spec fn call_spec(m: &Module, s: VmV, func: nat, line: u32) -> StepV {
    if s.frames.len() >= MAX_DEPTH {
        fail("stack overflow (recursion depth 1024)"@, 0)
    } else if func >= m.functions@.len() {
        fail("函数下标无效"@, line)
    } else if s.stack.len() < m.functions@[func as int].arity {
        fail("missing arguments"@, 0)
    } else {
        StepV::Running(VmV {
            frames: s.frames.push(Frame {
                func: func as usize,
                ip: 0,
                base: (s.stack.len() - m.functions@[func as int].arity) as usize,
            }),
            ..s
        })
    }
}

/// The index of the first function with the given name.
pub open spec fn find_function(m: &Module, name: Seq<char>) -> Option<nat> {
    if exists|i: int| 0 <= i < m.functions@.len() && m.functions@[i].name@ == name {
        let i = choose|i: int|
            0 <= i < m.functions@.len() && m.functions@[i].name@ == name
            && forall|j: int| 0 <= j < i ==> m.functions@[j].name@ != name;
        Some(i as nat)
    } else {
        None
    }
}

/// One step of the machine from state `s`.
pub open spec fn step_spec(m: &Module, s: VmV, fr: u64, t: Seq<char>) -> StepV {
    if s.frames.len() == 0 {
        StepV::Finished(s.out)
    } else {
        let top = s.frames.last();
        let f = top.func as int;
        let ip = top.ip as int;
        if f >= m.functions@.len() {
            fail("函数下标无效"@, 0)
        } else if ip >= code_of(m, f).len() {
            fail("指令指针越界"@, 0)
        } else {
            let byte = code_of(m, f)[ip];
            let line = line_of(m, f, ip);
            match op_of_byte(byte) {
                None => fail("未知操作码 "@ + int_text(byte as int), line),
                Some(op) => op_spec(m, s, op, f, ip, top.base as int, line, fr, t),
            }
        }
    }
}

/// The effect of instruction `op` at `ip` in function `f`.
pub open spec fn op_spec(m: &Module, s: VmV, op: Op, f: int, ip: int, base: int, line: u32, fr: u64, t: Seq<char>) -> StepV {
    let n = s.stack.len();
    match op {
        Op::Const => match operand(m, f, ip + 1) {
            None => truncated(),
            Some(i) => {
                let cs = m.functions@[f].chunk.view().constants;
                if i >= cs.len() {
                    fail("常量下标无效"@, line)
                } else {
                    goto(push(s, cs[i as int]), ip + 3)
                }
            },
        },
        Op::True => goto(push(s, Val::Bool(true)), ip + 1),
        Op::False => goto(push(s, Val::Bool(false)), ip + 1),
        Op::Pop => if n == 0 { underflow(line) } else { goto(pop(s), ip + 1) },
        Op::GetLocal => match operand(m, f, ip + 1) {
            None => truncated(),
            Some(k) => if base + k >= n {
                fail("局部槽下标无效"@, line)
            } else {
                goto(push(s, s.stack[base + k]), ip + 3)
            },
        },
        Op::SetLocal => match operand(m, f, ip + 1) {
            None => truncated(),
            Some(k) => if n == 0 {
                underflow(line)
            } else if base + k >= n {
                fail("局部槽下标无效"@, line)
            } else {
                goto(VmV { stack: s.stack.update(base + k, s.stack.last()), ..s }, ip + 3)
            },
        },
        Op::SetLocalField => match (operand(m, f, ip + 1), operand(m, f, ip + 3)) {
            (None, _) => truncated(),
            (_, None) => truncated(),
            (Some(k), Some(ci)) => match name_const(m, f, ci) {
                None => fail("字段名常量无效"@, line),
                Some(fname) => if n == 0 {
                    underflow(line)
                } else {
                    let val = s.stack.last();
                    let st = s.stack.drop_last();
                    if base + k >= st.len() {
                        fail("局部槽下标无效"@, line)
                    } else {
                        match st[base + k] {
                            Val::Struct(sn, fs) => match field_pos(fs, fname) {
                                Some(p) => goto(VmV {
                                    stack: st.update(base + k, Val::Struct(sn, fs.update(p, (fname, val)))),
                                    ..s
                                }, ip + 5),
                                None => fail("没有字段 `"@ + fname + "`"@, line),
                            },
                            other => fail("无法在 "@ + kind_name_of(other) + " 上设置字段"@, line),
                        }
                    }
                },
            },
        },
        Op::Add | Op::Sub | Op::Mul | Op::Div | Op::Rem => if n < 2 {
            underflow(line)
        } else {
            match arith(op, s.stack[n - 2], s.stack[n - 1], fr) {
                Ok(v) => goto(VmV { stack: s.stack.subrange(0, n - 2).push(v), ..s }, ip + 1),
                Err(msg) => fail(msg, line),
            }
        },
        Op::Neg => if n == 0 {
            underflow(line)
        } else {
            match s.stack.last() {
                Val::Int(x) => goto(push(pop(s), Val::Int(neg_wrap(x))), ip + 1),
                Val::Float(x) => goto(push(pop(s), Val::Float(spec_float_neg(x))), ip + 1),
                other => fail("无法对 "@ + kind_name_of(other) + " 取负"@, line),
            }
        },
        Op::Not => if n == 0 {
            underflow(line)
        } else {
            match s.stack.last() {
                Val::Bool(b) => goto(push(pop(s), Val::Bool(!b)), ip + 1),
                other => fail("无法对 "@ + kind_name_of(other) + " 使用 `!`"@, line),
            }
        },
        Op::Eq | Op::Ne => if n < 2 {
            underflow(line)
        } else {
            match val_eq(s.stack[n - 2], s.stack[n - 1]) {
                Ok(e) => goto(VmV {
                    stack: s.stack.subrange(0, n - 2).push(Val::Bool(if op == Op::Eq { e } else { !e })),
                    ..s
                }, ip + 1),
                Err(msg) => fail(msg, line),
            }
        },
        Op::Lt | Op::Le | Op::Gt | Op::Ge => if n < 2 {
            underflow(line)
        } else {
            match val_order(s.stack[n - 2], s.stack[n - 1]) {
                Ok(c) => goto(VmV {
                    stack: s.stack.subrange(0, n - 2).push(Val::Bool(order_holds(op, c))),
                    ..s
                }, ip + 1),
                Err(msg) => fail(msg, line),
            }
        },
        Op::Jump => match operand(m, f, ip + 1) {
            None => truncated(),
            Some(o) => goto(s, ip + 3 + o),
        },
        Op::JumpIfFalse | Op::JumpIfTrue => match operand(m, f, ip + 1) {
            None => truncated(),
            Some(o) => if n == 0 {
                underflow(line)
            } else {
                match s.stack.last() {
                    Val::Bool(b) => {
                        let jump = if op == Op::JumpIfFalse { !b } else { b };
                        goto(s, if jump { ip + 3 + o } else { ip + 3 })
                    },
                    other => fail("条件必须是 bool，实际是 "@ + kind_name_of(other), line),
                }
            },
        },
        Op::Loop => match operand(m, f, ip + 1) {
            None => truncated(),
            Some(o) => if ip + 3 < o { fail("指令指针越界"@, 0) } else { goto(s, ip + 3 - o) },
        },
        Op::Call => match operand(m, f, ip + 1) {
            None => truncated(),
            Some(target) => call_spec(m, with_ip(s, ip + 3), target, line),
        },
        Op::CallMethod => match (operand(m, f, ip + 1), operand(m, f, ip + 3)) {
            (None, _) => truncated(),
            (_, None) => truncated(),
            (Some(ni), Some(argc)) => match name_const(m, f, ni) {
                None => fail("方法名常量无效"@, line),
                Some(mname) => if n < argc + 1 {
                    fail("方法调用栈下溢"@, line)
                } else {
                    match s.stack[n - argc - 1] {
                        Val::Struct(tname, _) => {
                            let full = tname + "."@ + mname;
                            match find_function(m, full) {
                                Some(target) => call_spec(m, with_ip(s, ip + 5), target, line),
                                None => fail("未定义方法 `"@ + full + "`"@, line),
                            }
                        },
                        _ => fail("方法接收者不是结构体"@, line),
                    }
                },
            },
        },
        Op::Return => {
            let frames = s.frames.drop_last();
            let fun = m.functions@[f];
            let keep: int = if base < n { base } else { n as int };
            let next = if !fun.is_void {
                if n <= base {
                    None
                } else {
                    Some(VmV { stack: s.stack.subrange(0, base).push(s.stack.last()), frames, ..s })
                }
            } else {
                Some(VmV { stack: s.stack.subrange(0, keep), frames, ..s })
            };
            match next {
                None => fail("函数 `"@ + fun.name@ + "` 缺少返回值"@, line),
                Some(s2) => if frames.len() == 0 { StepV::Finished(s2.out) } else { StepV::Running(s2) },
            }
        },
        Op::NewArray => match operand(m, f, ip + 1) {
            None => truncated(),
            Some(k) => if n < k {
                fail("数组元素缺失"@, line)
            } else {
                goto(VmV {
                    stack: s.stack.subrange(0, n - k).push(Val::Array(s.heap.len())),
                    heap: s.heap.push(s.stack.subrange(n - k, n as int)),
                    ..s
                }, ip + 3)
            },
        },
        Op::GetIndex => if n < 2 {
            underflow(line)
        } else {
            match s.stack[n - 1] {
                Val::Int(idx) => match s.stack[n - 2] {
                    Val::Array(h) => if h >= s.heap.len() {
                        fail("数组句柄无效"@, line)
                    } else if idx < 0 || idx >= s.heap[h as int].len() {
                        fail("数组下标 "@ + int_text(idx as int) + " 越界（长度 "@
                            + int_text(s.heap[h as int].len() as int) + "）"@, line)
                    } else {
                        goto(VmV { stack: s.stack.subrange(0, n - 2).push(s.heap[h as int][idx as int]), ..s }, ip + 1)
                    },
                    other => fail("无法对 "@ + kind_name_of(other) + " 做下标访问"@, line),
                },
                other => fail("下标必须是 int，实际是 "@ + kind_name_of(other), line),
            }
        },
        Op::SetIndex => if n < 3 {
            underflow(line)
        } else {
            match s.stack[n - 2] {
                Val::Int(idx) => match s.stack[n - 3] {
                    Val::Array(h) => if h >= s.heap.len() {
                        fail("数组句柄无效"@, line)
                    } else if idx < 0 || idx >= s.heap[h as int].len() {
                        fail("数组下标 "@ + int_text(idx as int) + " 越界（长度 "@
                            + int_text(s.heap[h as int].len() as int) + "）"@, line)
                    } else {
                        goto(VmV {
                            stack: s.stack.subrange(0, n - 3),
                            heap: s.heap.update(h as int, s.heap[h as int].update(idx as int, s.stack[n - 1])),
                            ..s
                        }, ip + 1)
                    },
                    other => fail("无法对 "@ + kind_name_of(other) + " 做下标访问"@, line),
                },
                other => fail("下标必须是 int，实际是 "@ + kind_name_of(other), line),
            }
        },
        Op::NewStruct => match (operand(m, f, ip + 1), operand(m, f, ip + 3)) {
            (None, _) => truncated(),
            (_, None) => truncated(),
            (Some(ti), Some(k)) => if n < k {
                fail("结构体字段缺失"@, line)
            } else if ti >= m.struct_types@.len() {
                fail("结构体类型下标无效"@, line)
            } else {
                let st = m.struct_types@[ti as int];
                let items = s.stack.subrange(n - k, n as int);
                let cnt = if st.fields@.len() < k { st.fields@.len() } else { k };
                let fs = Seq::new(cnt, |i: int| (st.fields@[i]@, items[i]));
                goto(VmV { stack: s.stack.subrange(0, n - k).push(Val::Struct(st.name@, fs)), ..s }, ip + 5)
            },
        },
        Op::GetField => match operand(m, f, ip + 1) {
            None => truncated(),
            Some(ci) => match name_const(m, f, ci) {
                None => fail("字段名常量无效"@, line),
                Some(fname) => if n == 0 {
                    underflow(line)
                } else {
                    match s.stack.last() {
                        Val::Struct(_, fs) => match field_pos(fs, fname) {
                            Some(p) => goto(push(pop(s), fs[p].1), ip + 3),
                            None => fail("没有字段 `"@ + fname + "`"@, line),
                        },
                        other => fail("无法在 "@ + kind_name_of(other) + " 上读取字段"@, line),
                    }
                },
            },
        },
        Op::SetField => match operand(m, f, ip + 1) {
            None => truncated(),
            Some(ci) => match name_const(m, f, ci) {
                None => fail("字段名常量无效"@, line),
                Some(fname) => if n < 2 {
                    underflow(line)
                } else {
                    match s.stack[n - 2] {
                        Val::Struct(sn, fs) => match field_pos(fs, fname) {
                            Some(p) => goto(VmV {
                                stack: s.stack.subrange(0, n - 2).push(Val::Struct(sn, fs.update(p, (fname, s.stack[n - 1])))),
                                ..s
                            }, ip + 3),
                            None => fail("没有字段 `"@ + fname + "`"@, line),
                        },
                        other => fail("cannot set field on "@ + kind_name_of(other), line),
                    }
                },
            },
        },
        Op::Len => if n == 0 {
            underflow(line)
        } else {
            match s.stack.last() {
                Val::Array(h) => if h >= s.heap.len() {
                    fail("数组句柄无效"@, line)
                } else {
                    goto(push(pop(s), Val::Int(s.heap[h as int].len() as i64)), ip + 1)
                },
                Val::Str(x) => goto(push(pop(s), Val::Int(x.len() as i64)), ip + 1),
                other => fail("`len` expects array/string, got "@ + kind_name_of(other), line),
            }
        },
        Op::Print => if n == 0 {
            underflow(line)
        } else {
            match shown(s.stack.last(), s.heap, t) {
                None => fail(cyclic_msg(), line),
                Some(text) => goto(VmV { out: s.out.push(text), ..pop(s) }, ip + 1),
            }
        },
        Op::Push => if n < 2 {
            underflow(line)
        } else {
            match s.stack[n - 2] {
                Val::Array(h) => if h >= s.heap.len() {
                    fail("数组句柄无效"@, line)
                } else {
                    goto(VmV {
                        stack: s.stack.subrange(0, n - 2),
                        heap: s.heap.update(h as int, s.heap[h as int].push(s.stack[n - 1])),
                        ..s
                    }, ip + 1)
                },
                other => fail("`push` 需要数组，实际是 "@ + kind_name_of(other), line),
            }
        },
        Op::ArrayPop => if n == 0 {
            underflow(line)
        } else {
            match s.stack.last() {
                Val::Array(h) => if h >= s.heap.len() {
                    fail("数组句柄无效"@, line)
                } else if s.heap[h as int].len() == 0 {
                    fail("不能对空数组执行 pop"@, line)
                } else {
                    goto(VmV {
                        stack: s.stack.drop_last().push(s.heap[h as int].last()),
                        heap: s.heap.update(h as int, s.heap[h as int].drop_last()),
                        ..s
                    }, ip + 1)
                },
                other => fail("`pop` 需要数组，实际是 "@ + kind_name_of(other), line),
            }
        },
        Op::Input => goto(push(s, Val::Str(strip_eol(t))), ip + 1),
        Op::StrAt => if n < 2 {
            underflow(line)
        } else {
            match (s.stack[n - 2], s.stack[n - 1]) {
                (Val::Str(x), Val::Int(i)) => if 0 <= i < x.len() {
                    goto(VmV { stack: s.stack.subrange(0, n - 2).push(Val::Str(seq![x[i as int]])), ..s }, ip + 1)
                } else {
                    fail("`str_at` 下标 "@ + int_text(i as int) + " 越界"@, line)
                },
                _ => fail("`str_at` 需要 (string, int)"@, line),
            }
        },
        Op::StrSub => if n < 3 {
            underflow(line)
        } else {
            match (s.stack[n - 3], s.stack[n - 2], s.stack[n - 1]) {
                (Val::Str(x), Val::Int(st), Val::Int(k)) => if st < 0 || k < 0 {
                    fail("`str_sub` 下标不能为负"@, line)
                } else if st + k > x.len() {
                    fail("str_sub out of bounds (len "@ + int_text(x.len() as int) + ", start "@
                        + int_text(st as int) + ", n "@ + int_text(k as int) + ")"@, line)
                } else {
                    goto(VmV { stack: s.stack.subrange(0, n - 3).push(Val::Str(x.subrange(st as int, st + k))), ..s }, ip + 1)
                },
                _ => fail("`str_sub` 需要 (string, int, int)"@, line),
            }
        },
        Op::ToString => if n == 0 {
            underflow(line)
        } else {
            match shown(s.stack.last(), s.heap, t) {
                None => fail(cyclic_msg(), line),
                Some(text) => goto(push(pop(s), Val::Str(text)), ip + 1),
            }
        },
    }
}

/// How a run of the machine ends.
pub enum RunEnd {
    /// The entry function returned; these lines were printed.
    Done(Seq<Seq<char>>),
    /// A run-time error, with its message and source line.
    Failed(Seq<char>, u32),
    /// The step budget was used up first.
    OutOfFuel,
}

/// The empty machine state.
pub open spec fn empty_state() -> VmV {
    VmV { stack: Seq::empty(), frames: Seq::empty(), heap: Seq::empty(), out: Seq::empty() }
}

/// Whether running from `s` for at most `fuel` steps can end as `end`; the
/// host's answers at each step are any that the step admits.
pub open spec fn runs(m: &Module, s: VmV, fuel: nat, end: RunEnd) -> bool
    decreases fuel,
{
    if fuel == 0 {
        end == RunEnd::OutOfFuel
    } else {
        exists|fr: u64, t: Seq<char>| match #[trigger] step_spec(m, s, fr, t) {
            StepV::Running(s2) => runs(m, s2, (fuel - 1) as nat, end),
            StepV::Finished(o) => end == RunEnd::Done(o),
            StepV::Failed(msg, l) => end == RunEnd::Failed(msg, l),
        }
    }
}

/// The function a module starts in: `main` when there is one, else the top level.
pub open spec fn entry_of(m: &Module) -> nat {
    match m.main_index {
        Some(i) => i as nat,
        None => m.toplevel_index as nat,
    }
}

/// Whether entering module `m`'s entry function in state `s`, then taking
/// at most `fuel` steps, can end as `end`.
pub open spec fn run_from(m: &Module, s: VmV, fuel: nat, end: RunEnd) -> bool {
    match call_spec(m, s, entry_of(m), 0) {
        StepV::Running(s1) => runs(m, s1, fuel, end),
        StepV::Finished(o) => end == RunEnd::Done(o),
        StepV::Failed(msg, l) => end == RunEnd::Failed(msg, l),
    }
}

/// Whether running module `m` from the start, for at most `fuel` steps
/// after entering its entry function, can end as `end`.
pub open spec fn run_spec(m: &Module, fuel: nat, end: RunEnd) -> bool {
    run_from(m, empty_state(), fuel, end)
}


/// The state after a comparison on the two top values of `s`: they are
/// replaced by `v`, and the machine goes on with the next instruction.
pub open spec fn compared(s: VmV, v: bool) -> StepV {
    StepV::Running(with_ip(VmV { stack: s.stack.subrange(0, s.stack.len() - 2).push(Val::Bool(v)), ..s },
        s.frames.last().ip + 1))
}

/// On two integers, `a` below `b` on top of the stack, the comparison
/// instructions push whether `a` is less than `b` (`Lt`), at most `b`
/// (`Le`), greater than `b` (`Gt`), at least `b` (`Ge`), equal to `b`
/// (`Eq`) or not equal to it (`Ne`), and go on with the next instruction.
pub proof fn law_int_comparison(m: &Module, s: VmV, fr: u64, t: Seq<char>, a: i64, b: i64)
    requires
        s.frames.len() > 0,
        s.frames.last().func < m.functions@.len(),
        s.frames.last().ip < code_of(m, s.frames.last().func as int).len(),
        s.frames.last().ip + 1 <= usize::MAX,
        s.stack.len() >= 2,
        s.stack[s.stack.len() - 2] == Val::Int(a),
        s.stack.last() == Val::Int(b),
    ensures
        ({
            let byte = code_of(m, s.frames.last().func as int)[s.frames.last().ip as int];
            &&& byte == op_byte(Op::Lt) ==> step_spec(m, s, fr, t) == compared(s, a < b)
            &&& byte == op_byte(Op::Le) ==> step_spec(m, s, fr, t) == compared(s, a <= b)
            &&& byte == op_byte(Op::Gt) ==> step_spec(m, s, fr, t) == compared(s, a > b)
            &&& byte == op_byte(Op::Ge) ==> step_spec(m, s, fr, t) == compared(s, a >= b)
            &&& byte == op_byte(Op::Eq) ==> step_spec(m, s, fr, t) == compared(s, a == b)
            &&& byte == op_byte(Op::Ne) ==> step_spec(m, s, fr, t) == compared(s, a != b)
        }),
{
    let byte = code_of(m, s.frames.last().func as int)[s.frames.last().ip as int];
    lemma_byte_op_roundtrip(byte);
    lemma_op_byte_roundtrip(Op::Lt);
    lemma_op_byte_roundtrip(Op::Le);
    lemma_op_byte_roundtrip(Op::Gt);
    lemma_op_byte_roundtrip(Op::Ge);
    lemma_op_byte_roundtrip(Op::Eq);
    lemma_op_byte_roundtrip(Op::Ne);
}


/// The state after an instruction that replaces the `k` top values of `s`
/// by `v` and goes on with the next instruction.
pub open spec fn replaced(s: VmV, k: int, v: Val) -> StepV {
    StepV::Running(with_ip(VmV { stack: s.stack.subrange(0, s.stack.len() - k).push(v), ..s },
        s.frames.last().ip + 1))
}

/// The instruction byte at the machine's current place.
pub open spec fn current_byte(m: &Module, s: VmV) -> u8 {
    code_of(m, s.frames.last().func as int)[s.frames.last().ip as int]
}

/// Whether the machine is at an instruction of its code, with room for the
/// next one.
pub open spec fn at_instruction(m: &Module, s: VmV) -> bool {
    &&& s.frames.len() > 0
    &&& s.frames.last().func < m.functions@.len()
    &&& s.frames.last().ip < code_of(m, s.frames.last().func as int).len()
    &&& s.frames.last().ip + 1 <= usize::MAX
}

/// Integer arithmetic: on `a` below `b`, `Add`, `Sub` and `Mul` push the
/// sum, difference and product where it fits an `i64`; `Div` and `Rem` on a
/// non-negative `a` and a positive `b` push the quotient and the remainder;
/// `Div` and `Rem` by zero fail.
pub proof fn law_int_arithmetic(m: &Module, s: VmV, fr: u64, t: Seq<char>, a: i64, b: i64)
    requires
        at_instruction(m, s),
        s.stack.len() >= 2,
        s.stack[s.stack.len() - 2] == Val::Int(a),
        s.stack.last() == Val::Int(b),
    ensures
        current_byte(m, s) == op_byte(Op::Add) && i64::MIN <= a + b <= i64::MAX
            ==> step_spec(m, s, fr, t) == replaced(s, 2, Val::Int((a + b) as i64)),
        current_byte(m, s) == op_byte(Op::Sub) && i64::MIN <= a - b <= i64::MAX
            ==> step_spec(m, s, fr, t) == replaced(s, 2, Val::Int((a - b) as i64)),
        current_byte(m, s) == op_byte(Op::Mul) && i64::MIN <= a * b <= i64::MAX
            ==> step_spec(m, s, fr, t) == replaced(s, 2, Val::Int((a * b) as i64)),
        current_byte(m, s) == op_byte(Op::Div) && a >= 0 && b > 0
            ==> step_spec(m, s, fr, t) == replaced(s, 2, Val::Int((a / b) as i64)),
        current_byte(m, s) == op_byte(Op::Rem) && a >= 0 && b > 0
            ==> step_spec(m, s, fr, t) == replaced(s, 2, Val::Int((a % b) as i64)),
        (current_byte(m, s) == op_byte(Op::Div) || current_byte(m, s) == op_byte(Op::Rem)) && b == 0
            ==> step_spec(m, s, fr, t) is Failed,
{
    lemma_byte_op_roundtrip(current_byte(m, s));
    lemma_op_byte_roundtrip(Op::Add);
    lemma_op_byte_roundtrip(Op::Sub);
    lemma_op_byte_roundtrip(Op::Mul);
    lemma_op_byte_roundtrip(Op::Div);
    lemma_op_byte_roundtrip(Op::Rem);
    if a >= 0 && b > 0 {
        assert(0 <= a / b <= a) by (nonlinear_arith)
            requires a >= 0, b > 0;
        assert(0 <= a % b < b) by (nonlinear_arith)
            requires a >= 0, b > 0;
        assert(a == 0 ==> a % b == 0) by (nonlinear_arith)
            requires a >= 0, b > 0;
        assert(rem_trunc(a, b) == a % b);
    }
}

/// Equality of two booleans or two strings: `Eq` pushes whether they are
/// equal, `Ne` whether they are not.
pub proof fn law_value_equality(m: &Module, s: VmV, fr: u64, t: Seq<char>)
    requires
        at_instruction(m, s),
        s.stack.len() >= 2,
    ensures
        ({
            let (x, y) = (s.stack[s.stack.len() - 2], s.stack.last());
            &&& (x is Bool && y is Bool) || (x is Str && y is Str) || (x is Int && y is Int) ==> {
                &&& current_byte(m, s) == op_byte(Op::Eq) ==> step_spec(m, s, fr, t) == replaced(s, 2, Val::Bool(x == y))
                &&& current_byte(m, s) == op_byte(Op::Ne) ==> step_spec(m, s, fr, t) == replaced(s, 2, Val::Bool(x != y))
            }
        }),
{
    lemma_byte_op_roundtrip(current_byte(m, s));
    lemma_op_byte_roundtrip(Op::Eq);
    lemma_op_byte_roundtrip(Op::Ne);
}

/// `Neg` on an integer other than the least pushes its negation; `Not` on a
/// boolean pushes its negation.
pub proof fn law_negation(m: &Module, s: VmV, fr: u64, t: Seq<char>)
    requires
        at_instruction(m, s),
        s.stack.len() >= 1,
    ensures
        current_byte(m, s) == op_byte(Op::Neg) ==> (s.stack.last() matches Val::Int(a)
            ==> (a != i64::MIN ==> step_spec(m, s, fr, t) == replaced(s, 1, Val::Int((-a) as i64)))),
        current_byte(m, s) == op_byte(Op::Not) ==> (s.stack.last() matches Val::Bool(v)
            ==> step_spec(m, s, fr, t) == replaced(s, 1, Val::Bool(!v))),
{
    lemma_byte_op_roundtrip(current_byte(m, s));
    lemma_op_byte_roundtrip(Op::Neg);
    lemma_op_byte_roundtrip(Op::Not);
    assert(s.stack.drop_last() =~= s.stack.subrange(0, s.stack.len() - 1));
}

/// Conditional jumps at `ip` with operand `o` on a boolean `v` on top of
/// the stack: `JumpIfFalse` goes on at `ip + 3 + o` when `v` is false and at
/// `ip + 3` when it is true; `JumpIfTrue` the other way round. The value
/// stays on the stack.
pub proof fn law_conditional_jump(m: &Module, s: VmV, fr: u64, t: Seq<char>, v: bool)
    requires
        at_instruction(m, s),
        s.frames.last().ip + 3 <= code_of(m, s.frames.last().func as int).len(),
        s.frames.last().ip + 3 + 65535 <= usize::MAX,
        s.stack.len() >= 1,
        s.stack.last() == Val::Bool(v),
    ensures
        ({
            let ip = s.frames.last().ip as int;
            let o = read_u16_at(code_of(m, s.frames.last().func as int), ip + 1);
            &&& current_byte(m, s) == op_byte(Op::JumpIfFalse)
                ==> step_spec(m, s, fr, t) == StepV::Running(with_ip(s, if v { ip + 3 } else { ip + 3 + o }))
            &&& current_byte(m, s) == op_byte(Op::JumpIfTrue)
                ==> step_spec(m, s, fr, t) == StepV::Running(with_ip(s, if v { ip + 3 + o } else { ip + 3 }))
        }),
{
    lemma_byte_op_roundtrip(current_byte(m, s));
    lemma_op_byte_roundtrip(Op::JumpIfFalse);
    lemma_op_byte_roundtrip(Op::JumpIfTrue);
}


/// `Add` on two strings pushes them joined; `Print` of an integer, a
/// boolean or a string prints its decimal text, `true` or `false`, or the
/// string itself, and pops it.
pub proof fn law_strings_and_print(m: &Module, s: VmV, fr: u64, t: Seq<char>)
    requires
        at_instruction(m, s),
        s.stack.len() >= 1,
    ensures
        current_byte(m, s) == op_byte(Op::Add) && s.stack.len() >= 2 ==> (s.stack[s.stack.len() - 2] matches Val::Str(x)
            ==> (s.stack.last() matches Val::Str(y) ==> step_spec(m, s, fr, t) == replaced(s, 2, Val::Str(x + y)))),
        current_byte(m, s) == op_byte(Op::Print) ==> ({
            let printed = match s.stack.last() {
                Val::Int(n) => Some(int_text(n as int)),
                Val::Bool(b) => Some(if b { "true"@ } else { "false"@ }),
                Val::Str(x) => Some(x),
                _ => None,
            };
            printed matches Some(p) ==> step_spec(m, s, fr, t) == StepV::Running(with_ip(
                VmV { out: s.out.push(p), stack: s.stack.drop_last(), ..s }, s.frames.last().ip + 1))
        }),
{
    lemma_byte_op_roundtrip(current_byte(m, s));
    lemma_op_byte_roundtrip(Op::Add);
    lemma_op_byte_roundtrip(Op::Print);
}

} // verus!
