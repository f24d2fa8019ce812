//! The stack machine that runs a compiled [`Module`].
//!
//! Every step is proved to do what [`step_spec`] says.

use vstd::prelude::*;
use crate::chunk::{read_u16_at, Module};
use crate::display::{disp, display, heap_view};
use crate::float::{float_order, float_eq, float_neg, is_zero, FloatBinOp, Host};
use crate::op::{op_of_byte, Op};
use crate::semantics::{
    arith, call_spec, order_holds, code_of, cyclic_msg, find_function, line_of, op_spec, operand,
    shown, step_spec, strip_eol, val_order, val_eq, div_trunc, rem_trunc, float_op_of,
    Frame, StepV, VmV, MAX_DEPTH, name_const, goto, with_ip, push, pop, runs, run_from, run_spec, entry_of,
    empty_state, RunEnd,
};
use crate::text::{concat, int_text, int_to_string, owned, push_str};
use crate::value::{
    copy_value, copy_values, field_pos, fields_view, kind_name_of, lemma_fields_view_index,
    lemma_fields_view_len, values_view, StructVal, Val, Value,
};

verus! {

/// A run-time error: its message and source line (0 when unknown).
#[derive(Debug)]
pub struct VmError {
    pub message: String,
    pub line: u32,
}

/// Whether the machine goes on after a step.
#[derive(Debug, Clone, Copy, PartialEq, Eq, Structural)]
pub enum Status {
    Running,
    Finished,
}

/// The stack machine.
pub struct Vm<'m> {
    module: &'m Module,
    stack: Vec<Value>,
    frames: Vec<Frame>,
    heap: Vec<Vec<Value>>,
    out: Vec<String>,
}

/// Models of printed lines.
pub open spec fn out_view(o: Seq<String>) -> Seq<Seq<char>> {
    Seq::new(o.len(), |i: int| o[i]@)
}

/// Whether `r` and the state `new` are what a step's model says.
pub open spec fn outcome(r: Result<Status, VmError>, new: VmV, sv: StepV) -> bool {
    match sv {
        StepV::Running(s2) => r is Ok && r->Ok_0 == Status::Running && new == s2,
        StepV::Finished(o) => r is Ok && r->Ok_0 == Status::Finished && new.out == o,
        StepV::Failed(msg, l) => r is Err && r->Err_0.message@ == msg && r->Err_0.line == l,
    }
}

/// The error result of a step.
fn failure(message: String, line: u32) -> (r: Result<Status, VmError>)
    ensures
        r is Err && r->Err_0.message@ == message@ && r->Err_0.line == line,
{
    Err(VmError { message, line })
}

/// `pre` followed by the kind of `v` and `post`.
fn kind_msg(pre: &str, v: &Value, post: &str) -> (s: String)
    ensures
        s@ == pre@ + kind_name_of(v.view()) + post@,
{
    let mut s = owned(pre);
    push_str(&mut s, v.kind_name());
    push_str(&mut s, post);
    s
}

/// `pre` followed by the kind of `v`.
fn kind_msg2(pre: &str, v: &Value) -> (s: String)
    ensures
        s@ == pre@ + kind_name_of(v.view()),
{
    let mut s = owned(pre);
    push_str(&mut s, v.kind_name());
    s
}

/// `pre` followed by `x` and `post`.
fn text_msg(pre: &str, x: &str, post: &str) -> (s: String)
    ensures
        s@ == pre@ + x@ + post@,
{
    let mut s = owned(pre);
    push_str(&mut s, x);
    push_str(&mut s, post);
    s
}

impl<'m> Vm<'m> {
    /// The module the machine runs.
    pub closed spec fn program(&self) -> &'m Module {
        self.module
    }

    pub closed spec fn view(&self) -> VmV {
        VmV {
            stack: values_view(self.stack@),
            frames: self.frames@,
            heap: heap_view(self.heap@),
            out: out_view(self.out@),
        }
    }

    /// A machine for `module`, with nothing on its stacks and nothing printed.
    pub fn new(module: &'m Module) -> (vm: Vm<'m>)
        ensures
            vm.program() == module,
            vm.view().stack == Seq::<Val>::empty(),
            vm.view().frames == Seq::<Frame>::empty(),
            vm.view().heap == Seq::<Seq<Val>>::empty(),
            vm.view().out == Seq::<Seq<char>>::empty(),
    {
        let vm = Vm { module, stack: Vec::new(), frames: Vec::new(), heap: Vec::new(), out: Vec::new() };
        assert(values_view(vm.stack@) =~= Seq::<Val>::empty());
        assert(heap_view(vm.heap@) =~= Seq::<Seq<Val>>::empty());
        assert(out_view(vm.out@) =~= Seq::<Seq<char>>::empty());
        vm
    }

    /// The lines printed so far.
    pub fn output(&self) -> (r: &Vec<String>)
        ensures
            out_view(r@) == self.view().out,
    {
        &self.out
    }

    fn line_at(&self, f: usize, ip: usize) -> (l: u32)
        requires
            f < self.module.functions@.len(),
        ensures
            l == line_of(self.module, f as int, ip as int),
    {
        let ls = &self.module.functions[f].chunk.lines;
        if ip < ls.len() { ls[ip] } else { 0 }
    }

    /// The operand `u16` at `ip + off`.
    fn operand_at(&self, f: usize, ip: usize, off: usize) -> (r: Option<usize>)
        requires
            f < self.module.functions@.len(),
            ip < code_of(self.module, f as int).len(),
            off <= 3,
        ensures
            match operand(self.module, f as int, ip + off) {
                None => r.is_none(),
                Some(k) => r.is_some() && r.unwrap() == k && k < 65536
                    && ip + off + 1 < code_of(self.module, f as int).len(),
            },
    {
        let code = &self.module.functions[f].chunk.code;
        if code.len() - ip <= off + 1 {
            None
        } else {
            let lo: usize = code[ip + off] as usize;
            let hi: usize = code[ip + off + 1] as usize;
            Some(lo + 256 * hi)
        }
    }

    /// Sets the current frame's next instruction.
    fn jump_to(&mut self, ip: usize)
        requires
            old(self).frames@.len() > 0,
        ensures
            final(self).program() == old(self).program(),
            final(self).view() == with_ip(old(self).view(), ip as int),
    {
        let k = self.frames.len() - 1;
        let top = self.frames[k];
        self.frames.set(k, Frame { func: top.func, ip, base: top.base });
        assert(self.view().frames =~= with_ip(old(self).view(), ip as int).frames);
    }

    /// Continues at `ip`.
    fn goto_ip(&mut self, ip: usize) -> (r: Result<Status, VmError>)
        requires
            old(self).frames@.len() > 0,
        ensures
            final(self).program() == old(self).program(),
            outcome(r, final(self).view(), goto(old(self).view(), ip as int)),
    {
        self.jump_to(ip);
        Ok(Status::Running)
    }

    /// Pushes a value.
    fn push_value(&mut self, v: Value)
        ensures
            final(self).program() == old(self).program(),
            final(self).stack@.len() == old(self).stack@.len() + 1,
            final(self).heap@ == old(self).heap@,
            final(self).frames@ == old(self).frames@,
            final(self).view() == push(old(self).view(), v.view()),
    {
        self.stack.push(v);
        assert(self.view().stack =~= push(old(self).view(), v.view()).stack);
    }

    /// Pops the top value.
    fn pop_value(&mut self) -> (v: Value)
        requires
            old(self).stack@.len() > 0,
        ensures
            final(self).program() == old(self).program(),
            final(self).stack@.len() == old(self).stack@.len() - 1,
            final(self).heap@ == old(self).heap@,
            final(self).view() == pop(old(self).view()),
            v.view() == old(self).view().stack.last(),
    {
        let v = self.stack.pop().unwrap();
        assert(self.view().stack =~= pop(old(self).view()).stack);
        v
    }

    /// Enters function `func`, whose arguments are on top of the stack.
    fn call(&mut self, func: usize, line: u32) -> (r: Result<Status, VmError>)
        ensures
            final(self).program() == old(self).program(),
            outcome(r, final(self).view(), call_spec(old(self).program(), old(self).view(), func as nat, line)),
            r is Err ==> final(self).view() == old(self).view(),
    {
        if self.frames.len() >= MAX_DEPTH {
            return failure(owned("stack overflow (recursion depth 1024)"), 0);
        }
        if func >= self.module.functions.len() {
            return failure(owned("函数下标无效"), line);
        }
        let argc: usize = self.module.functions[func].arity as usize;
        if self.stack.len() < argc {
            return failure(owned("missing arguments"), 0);
        }
        let base: usize = self.stack.len() - argc;
        self.frames.push(Frame { func, ip: 0, base });
        Ok(Status::Running)
    }

    /// One step of the machine.
    pub fn step<H: Host>(&mut self, host: &mut H) -> (r: Result<Status, VmError>)
        ensures
            final(self).program() == old(self).program(),
            exists|fr: u64, t: Seq<char>|
                outcome(r, final(self).view(), #[trigger] step_spec(old(self).program(), old(self).view(), fr, t)),
    {
        let ghost s0 = self.view();
        let (r, Ghost(fr), Ghost(t)) = self.step_inner(host);
        assert(outcome(r, self.view(), step_spec(self.program(), s0, fr, t)));
        r
    }

    fn step_inner<H: Host>(&mut self, host: &mut H) -> (res: (Result<Status, VmError>, Ghost<u64>, Ghost<Seq<char>>))
        ensures
            final(self).program() == old(self).program(),
            outcome(res.0, final(self).view(), step_spec(old(self).program(), old(self).view(), res.1@, res.2@)),
    {
        if self.frames.len() == 0 {
            return (Ok(Status::Finished), Ghost(0u64), Ghost(Seq::empty()));
        }
        let top = self.frames[self.frames.len() - 1];
        let f = top.func;
        let ip = top.ip;
        if f >= self.module.functions.len() {
            return (failure(owned("函数下标无效"), 0), Ghost(0u64), Ghost(Seq::empty()));
        }
        if ip >= self.module.functions[f].chunk.code.len() {
            return (failure(owned("指令指针越界"), 0), Ghost(0u64), Ghost(Seq::empty()));
        }
        let code_len = self.module.functions[f].chunk.code.len();
        assert(code_of(self.module, f as int).len() == code_len);
        let byte = self.module.functions[f].chunk.code[ip];
        let line = self.line_at(f, ip);
        match Op::from_u8(byte) {
            None => {
                let s = int_to_string(byte as i64);
                let mut m = owned("未知操作码 ");
                push_str(&mut m, s.as_str());
                (failure(m, line), Ghost(0u64), Ghost(Seq::empty()))
            },
            Some(op) => self.exec_op(op, f, ip, top.base, line, host),
        }
    }

    fn exec_op<H: Host>(&mut self, op: Op, f: usize, ip: usize, base: usize, line: u32, host: &mut H)
        -> (res: (Result<Status, VmError>, Ghost<u64>, Ghost<Seq<char>>))
        requires
            old(self).frames@.len() > 0,
            old(self).frames@.last().func == f,
            old(self).frames@.last().ip == ip,
            old(self).frames@.last().base == base,
            f < old(self).module.functions@.len(),
            ip < code_of(old(self).module, f as int).len(),
            code_of(old(self).module, f as int).len() <= usize::MAX,
        ensures
            final(self).program() == old(self).program(),
            outcome(res.0, final(self).view(),
                op_spec(old(self).program(), old(self).view(), op, f as int, ip as int, base as int, line, res.1@, res.2@)),
    {
        match op {
            Op::Const | Op::True | Op::False | Op::Pop | Op::GetLocal | Op::SetLocal | Op::SetLocalField => {
                let r = self.exec_locals(op, f, ip, base, line);
                (r, Ghost(0u64), Ghost(Seq::empty()))
            },
            Op::Add | Op::Sub | Op::Mul | Op::Div | Op::Rem => self.exec_arith(op, f, ip, base, line, host),
            Op::Neg | Op::Not | Op::Eq | Op::Ne | Op::Lt | Op::Le | Op::Gt | Op::Ge => {
                let r = self.exec_logic(op, f, ip, base, line);
                (r, Ghost(0u64), Ghost(Seq::empty()))
            },
            Op::Jump | Op::JumpIfFalse | Op::JumpIfTrue | Op::Loop | Op::Call | Op::CallMethod | Op::Return => {
                let r = self.exec_control(op, f, ip, base, line);
                (r, Ghost(0u64), Ghost(Seq::empty()))
            },
            Op::NewArray | Op::GetIndex | Op::SetIndex | Op::Len | Op::Push | Op::ArrayPop => {
                let r = self.exec_array(op, f, ip, base, line);
                (r, Ghost(0u64), Ghost(Seq::empty()))
            },
            Op::NewStruct | Op::GetField | Op::SetField => {
                let r = self.exec_struct(op, f, ip, base, line);
                (r, Ghost(0u64), Ghost(Seq::empty()))
            },
            Op::Print | Op::Input | Op::StrAt | Op::StrSub | Op::ToString => self.exec_text(op, f, ip, base, line, host),
        }
    }
}

impl<'m> Vm<'m> {
    fn exec_locals(&mut self, op: Op, f: usize, ip: usize, base: usize, line: u32) -> (r: Result<Status, VmError>)
        requires
            old(self).frames@.len() > 0,
            old(self).frames@.last().func == f,
            old(self).frames@.last().ip == ip,
            f < old(self).module.functions@.len(),
            ip < code_of(old(self).module, f as int).len(),
            code_of(old(self).module, f as int).len() <= usize::MAX,
            op == Op::Const || op == Op::True || op == Op::False || op == Op::Pop
                || op == Op::GetLocal || op == Op::SetLocal || op == Op::SetLocalField,
        ensures
            final(self).program() == old(self).program(),
            outcome(r, final(self).view(),
                op_spec(old(self).program(), old(self).view(), op, f as int, ip as int, base as int, line, 0, Seq::empty())),
    {
        let ghost s0 = self.view();
        match op {
            Op::Const => {
                match self.operand_at(f, ip, 1) {
                    None => failure(owned("truncated instruction"), 0),
                    Some(i) => {
                        let cs = &self.module.functions[f].chunk.constants;
                        if i >= cs.len() {
                            return failure(owned("常量下标无效"), line);
                        }
                        let v = copy_value(&cs[i]);
                        self.push_value(v);
                        self.goto_ip(ip + 3)
                    },
                }
            },
            Op::True => {
                self.push_value(Value::Bool(true));
                self.goto_ip(ip + 1)
            },
            Op::False => {
                self.push_value(Value::Bool(false));
                self.goto_ip(ip + 1)
            },
            Op::Pop => {
                if self.stack.len() == 0 {
                    return failure(owned("stack underflow"), line);
                }
                let _ = self.pop_value();
                self.goto_ip(ip + 1)
            },
            Op::GetLocal => {
                match self.operand_at(f, ip, 1) {
                    None => failure(owned("truncated instruction"), 0),
                    Some(k) => {
                        let n = self.stack.len();
                        if base >= n || k >= n - base {
                            return failure(owned("局部槽下标无效"), line);
                        }
                        let v = copy_value(&self.stack[base + k]);
                        self.push_value(v);
                        self.goto_ip(ip + 3)
                    },
                }
            },
            Op::SetLocal => {
                match self.operand_at(f, ip, 1) {
                    None => failure(owned("truncated instruction"), 0),
                    Some(k) => {
                        let n = self.stack.len();
                        if n == 0 {
                            return failure(owned("stack underflow"), line);
                        }
                        if base >= n || k >= n - base {
                            return failure(owned("局部槽下标无效"), line);
                        }
                        let v = copy_value(&self.stack[n - 1]);
                        self.stack.set(base + k, v);
                        assert(self.view().stack =~= s0.stack.update(base + k, s0.stack.last()));
                        self.goto_ip(ip + 3)
                    },
                }
            },
            _ => {
                // SetLocalField
                let k = match self.operand_at(f, ip, 1) {
                    None => { return failure(owned("truncated instruction"), 0); },
                    Some(k) => k,
                };
                let ci = match self.operand_at(f, ip, 3) {
                    None => { return failure(owned("truncated instruction"), 0); },
                    Some(ci) => ci,
                };
                let fname = match self.field_name(f, ci) {
                    None => { return failure(owned("字段名常量无效"), line); },
                    Some(x) => x,
                };
                if self.stack.len() == 0 {
                    return failure(owned("stack underflow"), line);
                }
                let val = self.pop_value();
                let n = self.stack.len();
                if base >= n || k >= n - base {
                    return failure(owned("局部槽下标无效"), line);
                }
                let addr = base + k;
                let cur = copy_value(&self.stack[addr]);
                match cur {
                    Value::Struct(mut sv) => {
                        let ghost fs0 = fields_view(sv.fields@);
                        let ok = sv.set(fname.as_str(), val);
                        if !ok {
                            return failure(text_msg("没有字段 `", fname.as_str(), "`"), line);
                        }
                        let ghost nv = Value::Struct(sv).view();
                        self.stack.set(addr, Value::Struct(sv));
                        proof {
                            let st = s0.stack.drop_last();
                            assert(self.view().stack =~= st.update(addr as int, nv));
                        }
                        self.goto_ip(ip + 5)
                    },
                    other => failure(kind_msg("无法在 ", &other, " 上设置字段"), line),
                }
            },
        }
    }

    /// The name held by a field- or method-name constant.
    fn field_name(&self, f: usize, ci: usize) -> (r: Option<String>)
        requires
            f < self.module.functions@.len(),
        ensures
            match name_const(self.module, f as int, ci as nat) {
                None => r.is_none(),
                Some(x) => r.is_some() && r.unwrap()@ == x,
            },
    {
        let cs = &self.module.functions[f].chunk.constants;
        if ci < cs.len() {
            match &cs[ci] {
                Value::Str(s) => Some(s.clone()),
                _ => None,
            }
        } else {
            None
        }
    }
}

impl<'m> Vm<'m> {
    fn exec_arith<H: Host>(&mut self, op: Op, f: usize, ip: usize, base: usize, line: u32, host: &mut H)
        -> (res: (Result<Status, VmError>, Ghost<u64>, Ghost<Seq<char>>))
        requires
            old(self).frames@.len() > 0,
            old(self).frames@.last().ip == ip,
            f < old(self).module.functions@.len(),
            ip < code_of(old(self).module, f as int).len(),
            code_of(old(self).module, f as int).len() <= usize::MAX,
            op == Op::Add || op == Op::Sub || op == Op::Mul || op == Op::Div || op == Op::Rem,
        ensures
            final(self).program() == old(self).program(),
            outcome(res.0, final(self).view(),
                op_spec(old(self).program(), old(self).view(), op, f as int, ip as int, base as int, line, res.1@, res.2@)),
    {
        if self.stack.len() < 2 {
            return (failure(owned("stack underflow"), line), Ghost(0u64), Ghost(Seq::empty()));
        }
        let ghost s0 = self.view();
        let b = self.pop_value();
        let a = self.pop_value();
        let ghost s1 = self.view();
        assert(s1.stack =~= s0.stack.subrange(0, s0.stack.len() - 2));
        assert(a.view() == s0.stack[s0.stack.len() - 2]);
        match (&a, &b) {
            (Value::Str(x), Value::Str(y)) if op == Op::Add => {
                let r = concat(x, y);
                self.push_value(Value::Str(r));
                (self.goto_ip(ip + 1), Ghost(0u64), Ghost(Seq::empty()))
            },
            (Value::Int(x), Value::Int(y)) => {
                let x = *x;
                let y = *y;
                let v: i64 = match op {
                    Op::Add => x.wrapping_add(y),
                    Op::Sub => x.wrapping_sub(y),
                    Op::Mul => x.wrapping_mul(y),
                    _ => {
                        if y == 0 {
                            return (failure(owned("除数不能为零"), line), Ghost(0u64), Ghost(Seq::empty()));
                        }
                        if op == Op::Div { int_div(x, y) } else { int_rem(x, y) }
                    },
                };
                self.push_value(Value::Int(v));
                (self.goto_ip(ip + 1), Ghost(0u64), Ghost(Seq::empty()))
            },
            (Value::Float(x), Value::Float(y)) => {
                if (op == Op::Div || op == Op::Rem) && is_zero(*y) {
                    return (failure(owned("除数不能为零"), line), Ghost(0u64), Ghost(Seq::empty()));
                }
                let fop = match op {
                    Op::Add => FloatBinOp::Add,
                    Op::Sub => FloatBinOp::Sub,
                    Op::Mul => FloatBinOp::Mul,
                    Op::Div => FloatBinOp::Div,
                    _ => FloatBinOp::Rem,
                };
                let r = host.binary(fop, *x, *y);
                self.push_value(Value::Float(r));
                (self.goto_ip(ip + 1), Ghost(r), Ghost(Seq::empty()))
            },
            _ => {
                let mut m = kind_msg("cannot apply arithmetic to ", &a, " and ");
                push_str(&mut m, b.kind_name());
                (failure(m, line), Ghost(0u64), Ghost(Seq::empty()))
            },
        }
    }
}

/// `x / y` rounded toward zero, wrapping on overflow.
pub(crate) fn int_div(x: i64, y: i64) -> (r: i64)
    requires
        y != 0,
    ensures
        r == div_trunc(x, y),
{
    match x.checked_div(y) {
        Some(q) => q,
        None => i64::MIN,
    }
}

/// The remainder of `x / y` rounded toward zero, wrapping on overflow.
pub(crate) fn int_rem(x: i64, y: i64) -> (r: i64)
    requires
        y != 0,
    ensures
        r == rem_trunc(x, y),
{
    match x.checked_rem(y) {
        Some(q) => q,
        None => 0,
    }
}

impl<'m> Vm<'m> {
    fn exec_logic(&mut self, op: Op, f: usize, ip: usize, base: usize, line: u32) -> (r: Result<Status, VmError>)
        requires
            old(self).frames@.len() > 0,
            old(self).frames@.last().func == f,
            old(self).frames@.last().ip == ip,
            old(self).frames@.last().base == base,
            f < old(self).module.functions@.len(),
            ip < code_of(old(self).module, f as int).len(),
            code_of(old(self).module, f as int).len() <= usize::MAX,
            op == Op::Neg || op == Op::Not || op == Op::Eq || op == Op::Ne
                || op == Op::Lt || op == Op::Le || op == Op::Gt || op == Op::Ge,
        ensures
            final(self).program() == old(self).program(),
            outcome(r, final(self).view(),
                op_spec(old(self).program(), old(self).view(), op, f as int, ip as int, base as int, line, 0, Seq::empty())),
    {
        let ghost s0 = self.view();
        match op {
            Op::Neg => {
                if self.stack.len() == 0 {
                    return failure(owned("stack underflow"), line);
                }
                let a = self.pop_value();
                match a {
                    Value::Int(x) => {
                        let nx: i64 = if x == i64::MIN { x } else { -x };
                        self.push_value(Value::Int(nx));
                        self.goto_ip(ip + 1)
                    },
                    Value::Float(x) => {
                        self.push_value(Value::Float(float_neg(x)));
                        self.goto_ip(ip + 1)
                    },
                    other => failure(kind_msg("无法对 ", &other, " 取负"), line),
                }
            },
            Op::Not => {
                if self.stack.len() == 0 {
                    return failure(owned("stack underflow"), line);
                }
                let a = self.pop_value();
                match a {
                    Value::Bool(b) => {
                        self.push_value(Value::Bool(!b));
                        self.goto_ip(ip + 1)
                    },
                    other => failure(kind_msg("无法对 ", &other, " 使用 `!`"), line),
                }
            },
            Op::Eq | Op::Ne => {
                if self.stack.len() < 2 {
                    return failure(owned("stack underflow"), line);
                }
                let b = self.pop_value();
                let a = self.pop_value();
                assert(self.view().stack =~= s0.stack.subrange(0, s0.stack.len() - 2));
                let e: bool = match (&a, &b) {
                    (Value::Int(x), Value::Int(y)) => *x == *y,
                    (Value::Float(x), Value::Float(y)) => float_eq(*x, *y),
                    (Value::Bool(x), Value::Bool(y)) => *x == *y,
                    (Value::Str(x), Value::Str(y)) => *x == *y,
                    _ => {
                        let mut m = kind_msg("无法比较 ", &a, " 与 ");
                        push_str(&mut m, b.kind_name());
                        return failure(m, line);
                    },
                };
                self.push_value(Value::Bool(if op == Op::Eq { e } else { !e }));
                self.goto_ip(ip + 1)
            },
            _ => {
                if self.stack.len() < 2 {
                    return failure(owned("stack underflow"), line);
                }
                let b = self.pop_value();
                let a = self.pop_value();
                assert(self.view().stack =~= s0.stack.subrange(0, s0.stack.len() - 2));
                let c: i8 = match (&a, &b) {
                    (Value::Int(x), Value::Int(y)) => if *x < *y { -1i8 } else if *x == *y { 0i8 } else { 1i8 },
                    (Value::Float(x), Value::Float(y)) => match float_order(*x, *y) {
                        Some(c) => c,
                        None => { return failure(owned("无法比较 NaN"), line); },
                    },
                    _ => {
                        let mut m = kind_msg("无法比较大小 ", &a, " 与 ");
                        push_str(&mut m, b.kind_name());
                        return failure(m, line);
                    },
                };
                let holds: bool = match op {
                    Op::Lt => c < 0,
                    Op::Le => c <= 0,
                    Op::Gt => c > 0,
                    _ => c >= 0,
                };
                self.push_value(Value::Bool(holds));
                self.goto_ip(ip + 1)
            },
        }
    }

    fn exec_control(&mut self, op: Op, f: usize, ip: usize, base: usize, line: u32) -> (r: Result<Status, VmError>)
        requires
            old(self).frames@.len() > 0,
            old(self).frames@.last().func == f,
            old(self).frames@.last().ip == ip,
            old(self).frames@.last().base == base,
            f < old(self).module.functions@.len(),
            ip < code_of(old(self).module, f as int).len(),
            code_of(old(self).module, f as int).len() <= usize::MAX,
            op == Op::Jump || op == Op::JumpIfFalse || op == Op::JumpIfTrue || op == Op::Loop
                || op == Op::Call || op == Op::CallMethod || op == Op::Return,
        ensures
            final(self).program() == old(self).program(),
            outcome(r, final(self).view(),
                op_spec(old(self).program(), old(self).view(), op, f as int, ip as int, base as int, line, 0, Seq::empty())),
    {
        let ghost s0 = self.view();
        match op {
            Op::Jump => match self.operand_at(f, ip, 1) {
                None => failure(owned("truncated instruction"), 0),
                Some(o) => {
                    if o > usize::MAX - 3 || ip > usize::MAX - 3 - o {
                        return failure(owned("指令指针越界"), 0);
                    }
                    self.goto_ip(ip + 3 + o)
                },
            },
            Op::JumpIfFalse | Op::JumpIfTrue => match self.operand_at(f, ip, 1) {
                None => failure(owned("truncated instruction"), 0),
                Some(o) => {
                    let n = self.stack.len();
                    if n == 0 {
                        return failure(owned("stack underflow"), line);
                    }
                    match &self.stack[n - 1] {
                        Value::Bool(b) => {
                            let jump: bool = if op == Op::JumpIfFalse { !*b } else { *b };
                            if jump {
                                if ip > usize::MAX - 3 - o {
                                    return failure(owned("指令指针越界"), 0);
                                }
                                self.goto_ip(ip + 3 + o)
                            } else {
                                self.goto_ip(ip + 3)
                            }
                        },
                        other => failure(kind_msg2("条件必须是 bool，实际是 ", other), line),
                    }
                },
            },
            Op::Loop => match self.operand_at(f, ip, 1) {
                None => failure(owned("truncated instruction"), 0),
                Some(o) => {
                    if ip + 3 < o {
                        return failure(owned("指令指针越界"), 0);
                    }
                    self.goto_ip(ip + 3 - o)
                },
            },
            Op::Call => match self.operand_at(f, ip, 1) {
                None => failure(owned("truncated instruction"), 0),
                Some(t) => {
                    self.jump_to(ip + 3);
                    self.call(t, line)
                },
            },
            Op::CallMethod => {
                let ni = match self.operand_at(f, ip, 1) {
                    None => { return failure(owned("truncated instruction"), 0); },
                    Some(x) => x,
                };
                let argc = match self.operand_at(f, ip, 3) {
                    None => { return failure(owned("truncated instruction"), 0); },
                    Some(x) => x,
                };
                let mname = match self.field_name(f, ni) {
                    None => { return failure(owned("方法名常量无效"), line); },
                    Some(x) => x,
                };
                let n = self.stack.len();
                if n < argc + 1 {
                    return failure(owned("方法调用栈下溢"), line);
                }
                let tname = match &self.stack[n - argc - 1] {
                    Value::Struct(sv) => sv.name.clone(),
                    _ => { return failure(owned("方法接收者不是结构体"), line); },
                };
                let full = text_msg(tname.as_str(), ".", mname.as_str());
                match self.find_function(&full) {
                    None => failure(text_msg("未定义方法 `", full.as_str(), "`"), line),
                    Some(t) => {
                        self.jump_to(ip + 5);
                        self.call(t, line)
                    },
                }
            },
            _ => {
                // Return
                let fr = self.frames.pop().unwrap();
                let n = self.stack.len();
                let is_void = self.module.functions[f].is_void;
                if !is_void {
                    if n <= fr.base {
                        return failure(text_msg("函数 `", self.module.functions[f].name.as_str(), "` 缺少返回值"), line);
                    }
                    let r = self.stack.pop().unwrap();
                    self.stack.truncate(fr.base);
                    self.stack.push(r);
                    assert(self.view().stack =~= s0.stack.subrange(0, base as int).push(s0.stack.last()));
                } else {
                    self.stack.truncate(fr.base);
                    assert(self.view().stack =~= s0.stack.subrange(0, if base < n { base as int } else { n as int }));
                }
                assert(self.view().frames =~= s0.frames.drop_last());
                if self.frames.len() == 0 {
                    Ok(Status::Finished)
                } else {
                    Ok(Status::Running)
                }
            },
        }
    }

    /// The index of the first function with the given name.
    fn find_function(&self, name: &String) -> (r: Option<usize>)
        ensures
            match find_function(self.module, name@) {
                None => r.is_none(),
                Some(i) => r.is_some() && r.unwrap() == i,
            },
    {
        let fs = &self.module.functions;
        let mut i: usize = 0;
        while i < fs.len()
            invariant
                i <= fs.len(),
                fs == &self.module.functions,
                forall|j: int| 0 <= j < i ==> fs@[j].name@ != name@,
            decreases fs.len() - i,
        {
            if fs[i].name == *name {
                proof {
                    let k = choose|k: int| 0 <= k < fs@.len() && fs@[k].name@ == name@
                        && forall|j: int| 0 <= j < k ==> fs@[j].name@ != name@;
                    assert(k == i as int);
                }
                return Some(i);
            }
            i = i + 1;
        }
        None
    }
}

/// The message for an index out of an array's range.
fn index_msg(idx: i64, len: usize) -> (s: String)
    ensures
        s@ == "数组下标 "@ + int_text(idx as int) + " 越界（长度 "@ + int_text(len as int) + "）"@,
{
    let a = int_to_string(idx);
    let b = crate::text::uint_to_string(len as u64);
    let mut s = text_msg("数组下标 ", a.as_str(), " 越界（长度 ");
    push_str(&mut s, b.as_str());
    push_str(&mut s, "）");
    s
}

impl<'m> Vm<'m> {
    fn exec_array(&mut self, op: Op, f: usize, ip: usize, base: usize, line: u32) -> (r: Result<Status, VmError>)
        requires
            old(self).frames@.len() > 0,
            old(self).frames@.last().func == f,
            old(self).frames@.last().ip == ip,
            old(self).frames@.last().base == base,
            f < old(self).module.functions@.len(),
            ip < code_of(old(self).module, f as int).len(),
            code_of(old(self).module, f as int).len() <= usize::MAX,
            op == Op::NewArray || op == Op::GetIndex || op == Op::SetIndex || op == Op::Len
                || op == Op::Push || op == Op::ArrayPop,
        ensures
            final(self).program() == old(self).program(),
            outcome(r, final(self).view(),
                op_spec(old(self).program(), old(self).view(), op, f as int, ip as int, base as int, line, 0, Seq::empty())),
    {
        let ghost s0 = self.view();
        let n = self.stack.len();
        match op {
            Op::NewArray => match self.operand_at(f, ip, 1) {
                None => failure(owned("truncated instruction"), 0),
                Some(k) => {
                    if n < k {
                        return failure(owned("数组元素缺失"), line);
                    }
                    let items = self.stack.split_off(n - k);
                    let h = self.heap.len();
                    self.heap.push(items);
                    self.stack.push(Value::Array(h));
                    proof {
                        assert(self.view().stack =~= s0.stack.subrange(0, n - k).push(Val::Array(s0.heap.len())));
                        assert(values_view(items@) =~= s0.stack.subrange(n - k, n as int));
                        assert(self.view().heap =~= s0.heap.push(s0.stack.subrange(n - k, n as int)));
                    }
                    self.goto_ip(ip + 3)
                },
            },
            Op::GetIndex | Op::SetIndex => {
                let need: usize = if op == Op::GetIndex { 2 } else { 3 };
                if n < need {
                    return failure(owned("stack underflow"), line);
                }
                let ii: usize = if op == Op::GetIndex { n - 1 } else { n - 2 };
                let ai: usize = ii - 1;
                let idx: i64 = match &self.stack[ii] {
                    Value::Int(x) => *x,
                    other => { return failure(kind_msg2("下标必须是 int，实际是 ", other), line); },
                };
                let h: usize = match &self.stack[ai] {
                    Value::Array(h) => *h,
                    other => { return failure(kind_msg("无法对 ", other, " 做下标访问"), line); },
                };
                if h >= self.heap.len() {
                    return failure(owned("数组句柄无效"), line);
                }
                let len = self.heap[h].len();
                if idx < 0 || idx as u64 >= len as u64 {
                    return failure(index_msg(idx, len), line);
                }
                proof {
                    assert(s0.heap[h as int] == values_view(self.heap@[h as int]@));
                    assert(s0.stack[ii as int] == self.stack@[ii as int].view());
                    assert(s0.stack[ai as int] == self.stack@[ai as int].view());
                }
                if op == Op::GetIndex {
                    let v = copy_value(&self.heap[h][idx as usize]);
                    assert(values_view(self.heap@[h as int]@)[idx as int] == self.heap@[h as int]@[idx as int].view());
                    assert(v.view() == s0.heap[h as int][idx as int]);
                    self.stack.truncate(n - 2);
                    self.stack.push(v);
                    assert(self.view().stack =~= s0.stack.subrange(0, n - 2).push(s0.heap[h as int][idx as int]));
                    self.goto_ip(ip + 1)
                } else {
                    let ghost old_stack = self.stack@;
                    let v = self.stack.pop().unwrap();
                    let ghost vv = v.view();
                    assert(vv == s0.stack[n - 1]);
                    self.stack.truncate(n - 3);
                    let ghost hv = self.heap@;
                    self.heap[h].set(idx as usize, v);
                    proof {
                        assert(self.view().stack =~= s0.stack.subrange(0, n - 3));
                        let nh = self.heap@;
                        let target = s0.heap.update(h as int, s0.heap[h as int].update(idx as int, vv));
                        assert forall|j: int| 0 <= j < nh.len() implies #[trigger] heap_view(nh)[j] == target[j] by {
                            if j == h as int {
                                assert(values_view(nh[j]@) =~= s0.heap[h as int].update(idx as int, vv));
                            } else {
                                assert(nh[j] == hv[j]);
                            }
                        }
                        assert(self.view().heap =~= target);
                    }
                    self.goto_ip(ip + 1)
                }
            },
            Op::Len => {
                if n == 0 {
                    return failure(owned("stack underflow"), line);
                }
                let a = self.pop_value();
                match &a {
                    Value::Array(h) => {
                        if *h >= self.heap.len() {
                            return failure(owned("数组句柄无效"), line);
                        }
                        let len = self.heap[*h].len();
                        self.push_value(Value::Int(len as i64));
                        self.goto_ip(ip + 1)
                    },
                    Value::Str(x) => {
                        let len = x.as_str().unicode_len();
                        self.push_value(Value::Int(len as i64));
                        self.goto_ip(ip + 1)
                    },
                    other => failure(kind_msg2("`len` expects array/string, got ", other), line),
                }
            },
            Op::Push => {
                if n < 2 {
                    return failure(owned("stack underflow"), line);
                }
                let h: usize = match &self.stack[n - 2] {
                    Value::Array(h) => *h,
                    other => { return failure(kind_msg2("`push` 需要数组，实际是 ", other), line); },
                };
                if h >= self.heap.len() {
                    return failure(owned("数组句柄无效"), line);
                }
                let v = self.stack.pop().unwrap();
                let ghost vv = v.view();
                assert(vv == s0.stack[n - 1]);
                self.stack.truncate(n - 2);
                let ghost hv = self.heap@;
                self.heap[h].push(v);
                proof {
                    assert(self.view().stack =~= s0.stack.subrange(0, n - 2));
                    let nh = self.heap@;
                    let target = s0.heap.update(h as int, s0.heap[h as int].push(vv));
                    assert forall|j: int| 0 <= j < nh.len() implies #[trigger] heap_view(nh)[j] == target[j] by {
                        if j == h as int {
                            assert(values_view(nh[j]@) =~= s0.heap[h as int].push(vv));
                        } else {
                            assert(nh[j] == hv[j]);
                        }
                    }
                    assert(self.view().heap =~= target);
                }
                self.goto_ip(ip + 1)
            },
            _ => {
                // ArrayPop
                if n == 0 {
                    return failure(owned("stack underflow"), line);
                }
                let h: usize = match &self.stack[n - 1] {
                    Value::Array(h) => *h,
                    other => { return failure(kind_msg2("`pop` 需要数组，实际是 ", other), line); },
                };
                if h >= self.heap.len() {
                    return failure(owned("数组句柄无效"), line);
                }
                if self.heap[h].len() == 0 {
                    return failure(owned("不能对空数组执行 pop"), line);
                }
                let ghost hv = self.heap@;
                let v = self.heap[h].pop().unwrap();
                self.stack.pop();
                self.stack.push(v);
                proof {
                    let nh = self.heap@;
                    let target = s0.heap.update(h as int, s0.heap[h as int].drop_last());
                    assert forall|j: int| 0 <= j < nh.len() implies #[trigger] heap_view(nh)[j] == target[j] by {
                        if j == h as int {
                            assert(values_view(nh[j]@) =~= s0.heap[h as int].drop_last());
                        } else {
                            assert(nh[j] == hv[j]);
                        }
                    }
                    assert(self.view().stack =~= s0.stack.drop_last().push(s0.heap[h as int].last()));
                    assert(self.view().heap =~= s0.heap.update(h as int, s0.heap[h as int].drop_last()));
                }
                self.goto_ip(ip + 1)
            },
        }
    }

    fn exec_struct(&mut self, op: Op, f: usize, ip: usize, base: usize, line: u32) -> (r: Result<Status, VmError>)
        requires
            old(self).frames@.len() > 0,
            old(self).frames@.last().func == f,
            old(self).frames@.last().ip == ip,
            old(self).frames@.last().base == base,
            f < old(self).module.functions@.len(),
            ip < code_of(old(self).module, f as int).len(),
            code_of(old(self).module, f as int).len() <= usize::MAX,
            op == Op::NewStruct || op == Op::GetField || op == Op::SetField,
        ensures
            final(self).program() == old(self).program(),
            outcome(r, final(self).view(),
                op_spec(old(self).program(), old(self).view(), op, f as int, ip as int, base as int, line, 0, Seq::empty())),
    {
        let ghost s0 = self.view();
        let n = self.stack.len();
        match op {
            Op::NewStruct => {
                let ti = match self.operand_at(f, ip, 1) {
                    None => { return failure(owned("truncated instruction"), 0); },
                    Some(x) => x,
                };
                let k = match self.operand_at(f, ip, 3) {
                    None => { return failure(owned("truncated instruction"), 0); },
                    Some(x) => x,
                };
                if n < k {
                    return failure(owned("结构体字段缺失"), line);
                }
                if ti >= self.module.struct_types.len() {
                    return failure(owned("结构体类型下标无效"), line);
                }
                let st = &self.module.struct_types[ti];
                let items = self.stack.split_off(n - k);
                let cnt: usize = if st.fields.len() < k { st.fields.len() } else { k };
                let mut fields: Vec<(String, Value)> = Vec::new();
                let mut i: usize = 0;
                while i < cnt
                    invariant
                        i <= cnt,
                        cnt <= st.fields@.len(),
                        cnt <= items@.len(),
                        fields@.len() == i,
                        forall|j: int| 0 <= j < i ==> fields@[j].0@ == st.fields@[j]@
                            && fields@[j].1.view() == items@[j].view(),
                    decreases cnt - i,
                {
                    let v = copy_value(&items[i]);
                    fields.push((st.fields[i].clone(), v));
                    i = i + 1;
                }
                let ghost items_v = values_view(items@);
                proof {
                    lemma_fields_view_len(fields@);
                    assert forall|j: int| 0 <= j < cnt implies
                        fields_view(fields@)[j] == (st.fields@[j]@, items_v[j]) by {
                        lemma_fields_view_index(fields@, j);
                    }
                    assert(items_v =~= s0.stack.subrange(n - k, n as int));
                }
                let sv = Value::Struct(StructVal { name: st.name.clone(), fields });
                proof {
                    let st_spec = self.module.struct_types@[ti as int];
                    assert(fields_view(fields@) =~= Seq::new(cnt as nat, |j: int| (st_spec.fields@[j]@, items_v[j])));
                }
                self.stack.push(sv);
                assert(self.view().stack =~= s0.stack.subrange(0, n - k).push(sv.view()));
                self.goto_ip(ip + 5)
            },
            Op::GetField => {
                let ci = match self.operand_at(f, ip, 1) {
                    None => { return failure(owned("truncated instruction"), 0); },
                    Some(x) => x,
                };
                let fname = match self.field_name(f, ci) {
                    None => { return failure(owned("字段名常量无效"), line); },
                    Some(x) => x,
                };
                if n == 0 {
                    return failure(owned("stack underflow"), line);
                }
                let o = self.pop_value();
                match &o {
                    Value::Struct(sv) => match sv.get(fname.as_str()) {
                        Some(v) => {
                            self.push_value(v);
                            self.goto_ip(ip + 3)
                        },
                        None => failure(text_msg("没有字段 `", fname.as_str(), "`"), line),
                    },
                    other => failure(kind_msg("无法在 ", other, " 上读取字段"), line),
                }
            },
            _ => {
                // SetField
                let ci = match self.operand_at(f, ip, 1) {
                    None => { return failure(owned("truncated instruction"), 0); },
                    Some(x) => x,
                };
                let fname = match self.field_name(f, ci) {
                    None => { return failure(owned("字段名常量无效"), line); },
                    Some(x) => x,
                };
                if n < 2 {
                    return failure(owned("stack underflow"), line);
                }
                let val = self.pop_value();
                let o = self.pop_value();
                assert(self.view().stack =~= s0.stack.subrange(0, n - 2));
                match o {
                    Value::Struct(mut sv) => {
                        if !sv.set(fname.as_str(), val) {
                            return failure(text_msg("没有字段 `", fname.as_str(), "`"), line);
                        }
                        self.push_value(Value::Struct(sv));
                        self.goto_ip(ip + 3)
                    },
                    other => failure(kind_msg2("cannot set field on ", &other), line),
                }
            },
        }
    }

    fn exec_text<H: Host>(&mut self, op: Op, f: usize, ip: usize, base: usize, line: u32, host: &mut H)
        -> (res: (Result<Status, VmError>, Ghost<u64>, Ghost<Seq<char>>))
        requires
            old(self).frames@.len() > 0,
            old(self).frames@.last().func == f,
            old(self).frames@.last().ip == ip,
            old(self).frames@.last().base == base,
            f < old(self).module.functions@.len(),
            ip < code_of(old(self).module, f as int).len(),
            code_of(old(self).module, f as int).len() <= usize::MAX,
            op == Op::Print || op == Op::Input || op == Op::StrAt || op == Op::StrSub || op == Op::ToString,
        ensures
            final(self).program() == old(self).program(),
            outcome(res.0, final(self).view(),
                op_spec(old(self).program(), old(self).view(), op, f as int, ip as int, base as int, line, res.1@, res.2@)),
    {
        let ghost s0 = self.view();
        let n = self.stack.len();
        match op {
            Op::Print | Op::ToString => {
                if n == 0 {
                    return (failure(owned("stack underflow"), line), Ghost(0u64), Ghost(Seq::empty()));
                }
                let v = self.pop_value();
                let fuel = self.heap.len();
                assert(heap_view(self.heap@) == s0.heap);
                assert(s0.heap.len() == fuel);
                match display(&v, &self.heap, fuel, host) {
                    None => (failure(owned("数组嵌套过深或成环，无法显示"), line), Ghost(0u64), Ghost(Seq::empty())),
                    Some(text) => {
                        let ghost tv = text@;
                        if op == Op::Print {
                            self.out.push(text);
                            assert(self.view().out =~= s0.out.push(tv));
                        } else {
                            self.push_value(Value::Str(text));
                        }
                        (self.goto_ip(ip + 1), Ghost(0u64), Ghost(tv))
                    },
                }
            },
            Op::Input => {
                let raw = host.read_line();
                let line_text = strip_line_end(&raw);
                self.push_value(Value::Str(line_text));
                (self.goto_ip(ip + 1), Ghost(0u64), Ghost(raw@))
            },
            Op::StrAt => {
                if n < 2 {
                    return (failure(owned("stack underflow"), line), Ghost(0u64), Ghost(Seq::empty()));
                }
                let r = match (&self.stack[n - 2], &self.stack[n - 1]) {
                    (Value::Str(x), Value::Int(i)) => {
                        let len = x.as_str().unicode_len();
                        if 0 <= *i && (*i as u64) < (len as u64) {
                            let c = x.as_str().get_char(*i as usize);
                            let mut t = String::new();
                            crate::text::push_char(&mut t, c);
                            assert(t@ =~= seq![x@[*i as int]]);
                            Ok(t)
                        } else {
                            let a = int_to_string(*i);
                            Err(text_msg("`str_at` 下标 ", a.as_str(), " 越界"))
                        }
                    },
                    _ => Err(owned("`str_at` 需要 (string, int)")),
                };
                match r {
                    Ok(t) => {
                        self.stack.truncate(n - 2);
                        let ghost tv = t@;
                        self.stack.push(Value::Str(t));
                        assert(self.view().stack =~= s0.stack.subrange(0, n - 2).push(Val::Str(tv)));
                        (self.goto_ip(ip + 1), Ghost(0u64), Ghost(Seq::empty()))
                    },
                    Err(m) => (failure(m, line), Ghost(0u64), Ghost(Seq::empty())),
                }
            },
            _ => {
                // StrSub
                if n < 3 {
                    return (failure(owned("stack underflow"), line), Ghost(0u64), Ghost(Seq::empty()));
                }
                let r = match (&self.stack[n - 3], &self.stack[n - 2], &self.stack[n - 1]) {
                    (Value::Str(x), Value::Int(st), Value::Int(k)) => {
                        if *st < 0 || *k < 0 {
                            Err(owned("`str_sub` 下标不能为负"))
                        } else {
                            let len = x.as_str().unicode_len();
                            let a: u64 = *st as u64;
                            let b: u64 = *k as u64;
                            if a + b > len as u64 {
                                let l = crate::text::uint_to_string(len as u64);
                                let sa = int_to_string(*st);
                                let sb = int_to_string(*k);
                                let mut m = text_msg("str_sub out of bounds (len ", l.as_str(), ", start ");
                                push_str(&mut m, sa.as_str());
                                push_str(&mut m, ", n ");
                                push_str(&mut m, sb.as_str());
                                push_str(&mut m, ")");
                                Err(m)
                            } else {
                                let sub = x.as_str().substring_char(a as usize, (a + b) as usize);
                                Ok(owned(sub))
                            }
                        }
                    },
                    _ => Err(owned("`str_sub` 需要 (string, int, int)")),
                };
                match r {
                    Ok(t) => {
                        self.stack.truncate(n - 3);
                        let ghost tv = t@;
                        self.stack.push(Value::Str(t));
                        assert(self.view().stack =~= s0.stack.subrange(0, n - 3).push(Val::Str(tv)));
                        (self.goto_ip(ip + 1), Ghost(0u64), Ghost(Seq::empty()))
                    },
                    Err(m) => (failure(m, line), Ghost(0u64), Ghost(Seq::empty())),
                }
            },
        }
    }
}

/// Whether the character before `end` ends a line.
fn eol_before(s: &str, end: usize) -> (r: bool)
    requires
        0 < end <= s@.len(),
    ensures
        r == (s@[end - 1] == '\n' || s@[end - 1] == '\r'),
{
    let c = s.get_char(end - 1);
    c == '\n' || c == '\r'
}

/// A line of input without its trailing `\n` and `\r` characters.
fn strip_line_end(s: &String) -> (r: String)
    ensures
        r@ == strip_eol(s@),
{
    let n = s.as_str().unicode_len();
    let mut end: usize = n;
    assert(s@.subrange(0, n as int) =~= s@);
    while end > 0 && eol_before(s.as_str(), end)
        invariant
            end <= n,
            n == s@.len(),
            strip_eol(s@) == strip_eol(s@.subrange(0, end as int)),
        decreases end,
    {
        assert(s@.subrange(0, end as int).drop_last() =~= s@.subrange(0, end - 1));
        end = end - 1;
    }
    let sub = s.as_str().substring_char(0, end);
    owned(sub)
}

/// The message of a run that used up its step budget.
pub open spec fn out_of_fuel_msg() -> Seq<char> {
    "执行步数超出上限"@
}

/// Whether `r` reports a run that can end as `end`.
pub open spec fn reports(r: Result<Vec<String>, VmError>, end: RunEnd) -> bool {
    match (r, end) {
        (Ok(lines), RunEnd::Done(o)) => out_view(lines@) == o,
        (Err(e), RunEnd::Failed(msg, l)) => e.message@ == msg && e.line == l,
        (Err(e), RunEnd::OutOfFuel) => e.message@ == out_of_fuel_msg() && e.line == 0,
        _ => false,
    }
}

impl<'m> Vm<'m> {
    /// Runs the module from its entry function (`main` when there is one,
    /// else the top level) for at most `fuel` steps, and gives back the
    /// printed lines.
    pub fn run<H: Host>(&mut self, host: &mut H, fuel: u64) -> (r: Result<Vec<String>, VmError>)
        ensures
            exists|end: RunEnd| reports(r, end) && run_from(old(self).program(), old(self).view(), fuel as nat, end),
    {
        let ghost m = self.module;
        let entry: usize = match self.module.main_index {
            Some(i) => i,
            None => self.module.toplevel_index,
        };
        let ghost s0 = self.view();
        let c = self.call(entry, 0);
        match c {
            Err(e) => {
                let r: Result<Vec<String>, VmError> = Err(e);
                assert(reports(r, RunEnd::Failed(e.message@, e.line)));
                return r;
            },
            Ok(_) => {},
        }
        let ghost s1 = self.view();
        let mut k: u64 = fuel;
        while k > 0
            invariant
                self.program() == m,
                old(self).program() == m,
                k <= fuel,
                s0 == old(self).view(),
                call_spec(m, s0, entry_of(m), 0) == StepV::Running(s1),
                forall|e: RunEnd| runs(m, self.view(), k as nat, e) ==> #[trigger] runs(m, s1, fuel as nat, e),
            decreases k,
        {
            let ghost before = self.view();
            let st = self.step(host);
            let ghost after = self.view();
            match st {
                Ok(Status::Running) => {
                    proof {
                        let (fr, t) = choose|fr: u64, t: Seq<char>|
                            outcome(st, after, #[trigger] step_spec(m, before, fr, t));
                        assert forall|e: RunEnd| runs(m, after, (k - 1) as nat, e) implies
                            #[trigger] runs(m, s1, fuel as nat, e) by {
                            assert(step_spec(m, before, fr, t) == StepV::Running(after));
                            assert(runs(m, before, k as nat, e));
                        }
                    }
                    k = k - 1;
                },
                Ok(Status::Finished) => {
                    let lines = copy_lines(&self.out);
                    let r: Result<Vec<String>, VmError> = Ok(lines);
                    proof {
                        let (fr, t) = choose|fr: u64, t: Seq<char>|
                            outcome(st, after, #[trigger] step_spec(m, before, fr, t));
                        let e = RunEnd::Done(after.out);
                        assert(runs(m, before, k as nat, e));
                        assert(runs(m, s1, fuel as nat, e));
                        assert(run_from(m, s0, fuel as nat, e));
                        assert(reports(r, e));
                    }
                    return r;
                },
                Err(err) => {
                    let r: Result<Vec<String>, VmError> = Err(err);
                    proof {
                        let (fr, t) = choose|fr: u64, t: Seq<char>|
                            outcome(st, after, #[trigger] step_spec(m, before, fr, t));
                        let e = RunEnd::Failed(err.message@, err.line);
                        assert(runs(m, before, k as nat, e));
                        assert(runs(m, s1, fuel as nat, e));
                        assert(run_from(m, s0, fuel as nat, e));
                        assert(reports(r, e));
                    }
                    return r;
                },
            }
        }
        let r: Result<Vec<String>, VmError> = Err(VmError { message: owned("执行步数超出上限"), line: 0 });
        proof {
            assert(runs(m, self.view(), 0, RunEnd::OutOfFuel));
            assert(reports(r, RunEnd::OutOfFuel));
        }
        r
    }
}

/// Copies of printed lines.
fn copy_lines(o: &Vec<String>) -> (r: Vec<String>)
    ensures
        out_view(r@) == out_view(o@),
{
    let mut r: Vec<String> = Vec::new();
    let mut i: usize = 0;
    while i < o.len()
        invariant
            i <= o.len(),
            r@.len() == i,
            forall|j: int| 0 <= j < i ==> r@[j]@ == o@[j]@,
        decreases o.len() - i,
    {
        r.push(o[i].clone());
        i = i + 1;
    }
    assert(out_view(r@) =~= out_view(o@));
    r
}

} // verus!
