//! Disassembly: a readable listing of compiled code.

use vstd::prelude::*;
use crate::chunk::{read_u16_at, Chunk, ChunkV, Module, ModuleV};
use crate::semantics::{code_of, step_spec, with_ip, StepV, VmV};
use crate::float::Host;
use crate::op::{op_byte, op_of_byte, op_width, Op};
use crate::text::{int_text, owned, push_char, push_str, str_eq, uint_to_string};
use crate::value::{Val, Value};

verus! {

/// The first line of a chunk's listing: its name between `==` marks.
pub open spec fn listing_title(name: Seq<char>) -> Seq<char> {
    "== "@ + name + " ==\n"@
}

/// The name of each opcode in a listing.
pub open spec fn op_label(op: Op) -> Seq<char> {
    match op {
        Op::Const => "Const"@,
        Op::True => "True"@,
        Op::False => "False"@,
        Op::Pop => "Pop"@,
        Op::GetLocal => "GetLocal"@,
        Op::SetLocal => "SetLocal"@,
        Op::SetLocalField => "SetLocalField"@,
        Op::Add => "Add"@,
        Op::Sub => "Sub"@,
        Op::Mul => "Mul"@,
        Op::Div => "Div"@,
        Op::Rem => "Rem"@,
        Op::Neg => "Neg"@,
        Op::Not => "Not"@,
        Op::Eq => "Eq"@,
        Op::Ne => "Ne"@,
        Op::Lt => "Lt"@,
        Op::Le => "Le"@,
        Op::Gt => "Gt"@,
        Op::Ge => "Ge"@,
        Op::Jump => "Jump"@,
        Op::JumpIfFalse => "JumpIfFalse"@,
        Op::JumpIfTrue => "JumpIfTrue"@,
        Op::Loop => "Loop"@,
        Op::Call => "Call"@,
        Op::CallMethod => "CallMethod"@,
        Op::Return => "Return"@,
        Op::NewArray => "NewArray"@,
        Op::GetIndex => "GetIndex"@,
        Op::SetIndex => "SetIndex"@,
        Op::NewStruct => "NewStruct"@,
        Op::GetField => "GetField"@,
        Op::SetField => "SetField"@,
        Op::Len => "Len"@,
        Op::Print => "Print"@,
        Op::Push => "Push"@,
        Op::ArrayPop => "ArrayPop"@,
        Op::Input => "Input"@,
        Op::StrAt => "StrAt"@,
        Op::StrSub => "StrSub"@,
        Op::ToString => "ToString"@,
    }
}

/// The name of an opcode, as listings show it.
pub fn op_name(op: Op) -> (r: &'static str)
    ensures
        r@ == op_label(op),
{
    match op {
        Op::Const => "Const",
        Op::True => "True",
        Op::False => "False",
        Op::Pop => "Pop",
        Op::GetLocal => "GetLocal",
        Op::SetLocal => "SetLocal",
        Op::SetLocalField => "SetLocalField",
        Op::Add => "Add",
        Op::Sub => "Sub",
        Op::Mul => "Mul",
        Op::Div => "Div",
        Op::Rem => "Rem",
        Op::Neg => "Neg",
        Op::Not => "Not",
        Op::Eq => "Eq",
        Op::Ne => "Ne",
        Op::Lt => "Lt",
        Op::Le => "Le",
        Op::Gt => "Gt",
        Op::Ge => "Ge",
        Op::Jump => "Jump",
        Op::JumpIfFalse => "JumpIfFalse",
        Op::JumpIfTrue => "JumpIfTrue",
        Op::Loop => "Loop",
        Op::Call => "Call",
        Op::CallMethod => "CallMethod",
        Op::Return => "Return",
        Op::NewArray => "NewArray",
        Op::GetIndex => "GetIndex",
        Op::SetIndex => "SetIndex",
        Op::NewStruct => "NewStruct",
        Op::GetField => "GetField",
        Op::SetField => "SetField",
        Op::Len => "Len",
        Op::Print => "Print",
        Op::Push => "Push",
        Op::ArrayPop => "ArrayPop",
        Op::Input => "Input",
        Op::StrAt => "StrAt",
        Op::StrSub => "StrSub",
        Op::ToString => "ToString",
    }
}

/// `c` repeated from length `len` up to `width` (nothing when `len` is
/// already that long).
pub open spec fn padding(c: char, len: nat, width: int) -> Seq<char> {
    Seq::new(if width > len { (width - len) as nat } else { 0 }, |i: int| c)
}

/// The byte at `i` of the code, 0 past its end.
pub open spec fn code_byte(code: Seq<u8>, i: int) -> int {
    if 0 <= i < code.len() { code[i] as int } else { 0 }
}

/// `n` in decimal, with zeros in front up to `width` digits.
fn zero_padded(n: u64, width: usize) -> (s: String)
    ensures
        s@ == padding('0', int_text(n as int).len(), width as int) + int_text(n as int),
{
    let d = uint_to_string(n);
    let mut s = String::new();
    let mut k = d.as_str().unicode_len();
    let ghost k0 = k as int;
    while k < width
        invariant
            k0 <= k,
            k0 == d@.len(),
            k == k0 || k <= width,
            s@ == Seq::new((k - k0) as nat, |i: int| '0'),
        decreases width - k,
    {
        push_char(&mut s, '0');
        k = k + 1;
        assert(s@ =~= Seq::new((k - k0) as nat, |i: int| '0'));
    }
    assert(s@ =~= padding('0', k0 as nat, width as int));
    push_str(&mut s, d.as_str());
    s
}

/// `t` followed by spaces up to `width` characters.
fn left_padded(t: &str, width: usize) -> (s: String)
    ensures
        s@ == t@ + padding(' ', t@.len(), width as int),
{
    let mut s = owned(t);
    let mut k = t.unicode_len();
    let ghost k0 = k as int;
    while k < width
        invariant
            k0 <= k,
            k0 == t@.len(),
            k == k0 || k <= width,
            s@ == t@ + Seq::new((k - k0) as nat, |i: int| ' '),
        decreases width - k,
    {
        push_char(&mut s, ' ');
        k = k + 1;
        assert(s@ =~= t@ + Seq::new((k - k0) as nat, |i: int| ' '));
    }
    assert(s@ =~= t@ + padding(' ', k0 as nat, width as int));
    s
}

/// The text of a pool constant.
fn const_text<H: Host>(v: &Value, host: &H) -> (s: String)
    ensures
        match v {
            Value::Int(n) => s@ == int_text(*n as int),
            Value::Float(_) => true,
            Value::Bool(b) => s@ == if *b { "true"@ } else { "false"@ },
            Value::Str(t) => s@ == t@,
            Value::Array(_) => s@ == "[]"@,
            Value::Struct(sv) => s@ == sv.name@,
        },
{
    match v {
        Value::Int(n) => crate::text::int_to_string(*n),
        Value::Float(b) => host.display(*b),
        Value::Bool(b) => owned(if *b { "true" } else { "false" }),
        Value::Str(t) => t.clone(),
        Value::Array(_) => owned("[]"),
        Value::Struct(sv) => sv.name.clone(),
    }
}

fn byte_at(code: &Vec<u8>, base: usize, off: usize) -> (b: u16)
    ensures
        b < 256,
        b == code_byte(code@, base + off),
{
    if base < code.len() && off < code.len() - base { code[base + off] as u16 } else { 0 }
}

/// The `u16` at `base + off`, reading a missing byte as 0.
fn operand(code: &Vec<u8>, base: usize, off: usize) -> (n: u16)
    ensures
        n == code_byte(code@, base + off) + 256 * code_byte(code@, base + off + 1),
{
    let lo = byte_at(code, base, off);
    let hi = if off < usize::MAX { byte_at(code, base, off + 1) } else { 0 };
    let ghost len = code.len();
    assert(off == usize::MAX ==> code_byte(code@, base + off + 1) == 0) by {
        assert(code@.len() == len);
    }
    lo + 256 * hi
}

/// The source line recorded for code byte `i`, 0 when there is none.
pub open spec fn line_of_byte(c: ChunkV, i: int) -> u32 {
    if 0 <= i < c.lines.len() { c.lines[i] } else { 0 }
}

/// The `u16` operand at `i + off`, reading missing bytes as 0.
pub open spec fn operand_at(code: Seq<u8>, i: int, off: int) -> int {
    code_byte(code, i + off) + 256 * code_byte(code, i + off + 1)
}

/// Whether `t` is how a listing shows the pool constant `v`: its value, its
/// name for a struct, `[]` for an array; a float is shown as the host
/// writes it.
pub open spec fn const_shown(v: Val, t: Seq<char>) -> bool {
    match v {
        Val::Int(n) => t == int_text(n as int),
        Val::Float(_) => true,
        Val::Bool(b) => t == if b { "true"@ } else { "false"@ },
        Val::Str(x) => t == x,
        Val::Array(_) => t == "[]"@,
        Val::Struct(name, _) => t == name,
    }
}

/// Where a jump of `op` at `i` with operand `a` lands, as a listing shows it.
pub open spec fn jump_target_text(op: Op, i: int, a: int) -> Seq<char> {
    let base = i + 3;
    if op is Loop {
        if a > base || base - a > u64::MAX { "?"@ } else { int_text(base - a) }
    } else {
        if base + a > u64::MAX { "?"@ } else { int_text(base + a) }
    }
}

/// Whether `op` is a jump.
pub open spec fn is_jump(op: Op) -> bool {
    op is Jump || op is JumpIfFalse || op is JumpIfTrue || op is Loop
}

/// The start of the listing line of the instruction `op` at `i`: offset,
/// line and name.
pub open spec fn insn_head(c: ChunkV, i: int, op: Op) -> Seq<char> {
    let ln = int_text(line_of_byte(c, i) as int);
    padding('0', int_text(i).len(), 4) + int_text(i) + " L"@ + ln + padding(' ', ln.len(), 4) + " "@ + op_label(op)
}

/// Whether `t` is the listing line of the instruction at `i`: a byte that
/// is no opcode is shown as `???` and its value; an opcode with its
/// operands, the constant a `Const` loads and where a jump lands.
pub open spec fn insn_line_ok(c: ChunkV, i: int, t: Seq<char>) -> bool {
    let b = c.code[i];
    match op_of_byte(b) {
        None => t == padding('0', int_text(i).len(), 4) + int_text(i) + " L"@
            + int_text(line_of_byte(c, i) as int) + " ??? "@ + int_text(b as int) + "\n"@,
        Some(op) => {
            let head = insn_head(c, i, op);
            if op_width(op) == 3 {
                let a = operand_at(c.code, i, 1);
                let mid = head + " "@ + int_text(a);
                if op is Const {
                    let x = t.subrange(mid.len() + 2int, t.len() - 2int);
                    &&& t.len() >= mid.len() + 4
                    &&& t == mid + " ("@ + x + ")"@ + "\n"@
                    &&& if a < c.constants.len() { const_shown(c.constants[a], x) } else { x == "?"@ }
                } else if is_jump(op) {
                    t == mid + " -> "@ + jump_target_text(op, i, a) + "\n"@
                } else {
                    t == mid + "\n"@
                }
            } else if op_width(op) == 5 {
                t == head + " "@ + int_text(operand_at(c.code, i, 1)) + " "@ + int_text(operand_at(c.code, i, 3)) + "\n"@
            } else {
                t == head + "\n"@
            }
        },
    }
}

/// Where the instruction after the one at `i` starts.
pub open spec fn next_insn(c: ChunkV, i: int) -> int {
    match op_of_byte(c.code[i]) {
        None => i + 1,
        Some(op) => if c.code.len() - i < op_width(op) { c.code.len() as int } else { i + op_width(op) },
    }
}

/// Whether `ls` are the listing lines of the instructions from `i0` on, the
/// last of them ending just before `i`.
pub open spec fn listed_from(c: ChunkV, i0: int, i: int, ls: Seq<Seq<char>>) -> bool
    decreases ls.len(),
{
    if ls.len() == 0 {
        i0 == i
    } else {
        0 <= i0 < c.code.len() && insn_line_ok(c, i0, ls[0]) && next_insn(c, i0) > i0
            && listed_from(c, next_insn(c, i0), i, ls.drop_first())
    }
}

/// Texts one after the other.
pub open spec fn concat_all(ls: Seq<Seq<char>>) -> Seq<char>
    decreases ls.len(),
{
    if ls.len() == 0 { Seq::empty() } else { concat_all(ls.drop_last()) + ls.last() }
}

/// The pool lines `  [k] text`, one per constant.
pub open spec fn pool_lines(ps: Seq<Seq<char>>) -> Seq<char>
    decreases ps.len(),
{
    if ps.len() == 0 {
        Seq::empty()
    } else {
        pool_lines(ps.drop_last()) + "  ["@ + int_text(ps.len() - 1) + "] "@ + ps.last() + "\n"@
    }
}

/// The pool section of a listing: nothing for an empty pool, else a
/// `constants:` line and the pool lines.
pub open spec fn pool_text(ps: Seq<Seq<char>>) -> Seq<char> {
    if ps.len() == 0 { Seq::empty() } else { "constants:\n"@ + pool_lines(ps) }
}

/// Whether `s` is the listing of chunk `c` under `name`: the title, a line
/// per instruction, then the pool, each constant shown as `const_shown`
/// allows.
pub open spec fn chunk_listing(c: ChunkV, name: Seq<char>, s: Seq<char>) -> bool {
    exists|ls: Seq<Seq<char>>, ps: Seq<Seq<char>>|
        #![trigger listed_from(c, 0, c.code.len() as int, ls), pool_text(ps)]
        listed_from(c, 0, c.code.len() as int, ls)
        && ps.len() == c.constants.len()
        && (forall|k: int| 0 <= k < ps.len() ==> const_shown(c.constants[k], #[trigger] ps[k]))
        && s == listing_title(name) + concat_all(ls) + pool_text(ps)
}

/// Adding the line of the instruction at `i` extends a listing up to `i`.
pub proof fn lemma_listed_push(c: ChunkV, i0: int, i: int, ls: Seq<Seq<char>>, t: Seq<char>)
    requires
        listed_from(c, i0, i, ls),
        0 <= i < c.code.len(),
        insn_line_ok(c, i, t),
        next_insn(c, i) > i,
    ensures
        listed_from(c, i0, next_insn(c, i), ls.push(t)),
    decreases ls.len(),
{
    if ls.len() > 0 {
        lemma_listed_push(c, next_insn(c, i0), i, ls.drop_first(), t);
        assert(ls.push(t).drop_first() =~= ls.drop_first().push(t));
        assert(ls.push(t)[0] == ls[0]);
        assert(ls.push(t).len() > 0);
    } else {
        assert(ls.push(t).drop_first() =~= Seq::<Seq<char>>::empty());
        assert(ls.push(t)[0] == t);
        assert(listed_from(c, next_insn(c, i), next_insn(c, i), Seq::<Seq<char>>::empty()));
        assert(i0 == i);
    }
}

impl Chunk {
    /// The listing line of the instruction at `i`, and where the next
    /// instruction starts.
    fn insn_line<H: Host>(&self, i: usize, host: &H) -> (r: (String, usize))
        requires
            i < self.code@.len(),
        ensures
            insn_line_ok(self.view(), i as int, r.0@),
            r.1 == next_insn(self.view(), i as int),
    {
        let n = self.code.len();
        let mut out = String::new();
        let line: u32 = if i < self.lines.len() { self.lines[i] } else { 0 };
        let b = self.code[i];
        let p = zero_padded(i as u64, 4);
        match Op::from_u8(b) {
            None => {
                push_str(&mut out, p.as_str());
                push_str(&mut out, " L");
                let l = uint_to_string(line as u64);
                push_str(&mut out, l.as_str());
                push_str(&mut out, " ??? ");
                let bt = uint_to_string(b as u64);
                push_str(&mut out, bt.as_str());
                push_str(&mut out, "\n");
                return (out, i + 1);
            },
            Some(op) => {
                push_str(&mut out, p.as_str());
                push_str(&mut out, " L");
                let l = uint_to_string(line as u64);
                let lp = left_padded(l.as_str(), 4);
                push_str(&mut out, lp.as_str());
                push_str(&mut out, " ");
                push_str(&mut out, op_name(op));
                let ghost c = self.view();
                let ghost head = insn_head(c, i as int, op);
                assert(line as int == line_of_byte(c, i as int) as int);
                assert(out@ =~= head);
                let w = op.width();
                if w == 3 {
                    let a = operand(&self.code, i, 1);
                    let at = uint_to_string(a as u64);
                    push_str(&mut out, " ");
                    push_str(&mut out, at.as_str());
                    let ghost mid = head + " "@ + int_text(a as int);
                    assert(a as int == operand_at(c.code, i as int, 1));
                    assert(out@ =~= mid);
                    if op == Op::Const {
                        let c = if (a as usize) < self.constants.len() {
                            const_text(&self.constants[a as usize], host)
                        } else {
                            owned("?")
                        };
                        push_str(&mut out, " (");
                        push_str(&mut out, c.as_str());
                        push_str(&mut out, ")");
                        proof {
                            if (a as int) < self.constants@.len() {
                                assert(self.view().constants[a as int] == self.constants@[a as int].view());
                            }
                        }
                        assert(out@ + "\n"@ =~= mid + " ("@ + c@ + ")"@ + "\n"@);
                        assert(if (a as int) < self.view().constants.len() {
                            const_shown(self.view().constants[a as int], c@) } else { c@ == "?"@ });
                        proof {
                            reveal_strlit(" (");
                            reveal_strlit(")");
                            reveal_strlit("\n");
                            let t = out@ + "\n"@;
                            assert(t.subrange(mid.len() + 2int, t.len() - 2int) =~= c@);
                        }
                    } else if op == Op::Jump || op == Op::JumpIfFalse || op == Op::JumpIfTrue || op == Op::Loop {
                        let base = i as u128 + 3;
                        push_str(&mut out, " -> ");
                        let tt = if op == Op::Loop {
                            if (a as u128) > base || base - (a as u128) > u64::MAX as u128 {
                                owned("?")
                            } else {
                                uint_to_string((base - a as u128) as u64)
                            }
                        } else {
                            let t = base + a as u128;
                            if t > u64::MAX as u128 { owned("?") } else { uint_to_string(t as u64) }
                        };
                        push_str(&mut out, tt.as_str());
                        assert(tt@ == jump_target_text(op, i as int, a as int));
                        assert(out@ + "\n"@ =~= mid + " -> "@ + jump_target_text(op, i as int, a as int) + "\n"@);
                    }
                    push_str(&mut out, "\n");
                } else if w == 5 {
                    let a = operand(&self.code, i, 1);
                    let c = operand(&self.code, i, 3);
                    push_str(&mut out, " ");
                    let at = uint_to_string(a as u64);
                    push_str(&mut out, at.as_str());
                    push_str(&mut out, " ");
                    let ct = uint_to_string(c as u64);
                    push_str(&mut out, ct.as_str());
                    push_str(&mut out, "\n");
                    assert(out@ =~= head + " "@ + int_text(operand_at(self.view().code, i as int, 1)) + " "@
                        + int_text(operand_at(self.view().code, i as int, 3)) + "\n"@);
                } else {
                    push_str(&mut out, "\n");
                }
                return (out, if n - i < w { n } else { i + w });
            },
        }
    }

    /// A listing of the chunk: a header with `name`, one line per
    /// instruction (offset, source line, opcode and operands, with the
    /// target of jumps and the value of constants), then the constant pool.
    pub fn disassemble<H: Host>(&self, name: &str, host: &H) -> (s: String)
        ensures
            s@.len() >= listing_title(name@).len(),
            s@.subrange(0, listing_title(name@).len() as int) == listing_title(name@),
            chunk_listing(self.view(), name@, s@),
    {
        let ghost c = self.view();
        let mut title = owned("== ");
        push_str(&mut title, name);
        push_str(&mut title, " ==\n");
        let mut out = String::new();
        let n = self.code.len();
        let mut i: usize = 0;
        let ghost mut ls: Seq<Seq<char>> = Seq::empty();
        while i < n
            invariant
                n == self.code@.len(),
                c == self.view(),
                i <= n,
                listed_from(c, 0, i as int, ls),
                out@ == concat_all(ls),
            decreases n - i,
        {
            let (t, next) = self.insn_line(i, host);
            proof {
                lemma_listed_push(c, 0, i as int, ls, t@);
                assert(ls.push(t@).drop_last() =~= ls);
                ls = ls.push(t@);
            }
            push_str(&mut out, t.as_str());
            i = next;
        }
        let ghost mut ps: Seq<Seq<char>> = Seq::empty();
        let ghost body = out@;
        if self.constants.len() > 0 {
            push_str(&mut out, "constants:\n");
            let mut k: usize = 0;
            while k < self.constants.len()
                invariant
                    c == self.view(),
                    k <= self.constants@.len(),
                    ps.len() == k,
                    forall|j: int| 0 <= j < k ==> const_shown(c.constants[j], #[trigger] ps[j]),
                    out@ == body + "constants:\n"@ + pool_lines(ps),
                decreases self.constants@.len() - k,
            {
                push_str(&mut out, "  [");
                let kt = uint_to_string(k as u64);
                push_str(&mut out, kt.as_str());
                push_str(&mut out, "] ");
                let ct = const_text(&self.constants[k], host);
                push_str(&mut out, ct.as_str());
                push_str(&mut out, "\n");
                proof {
                    assert(c.constants[k as int] == self.constants@[k as int].view());
                    let ps2 = ps.push(ct@);
                    assert(ps2.drop_last() =~= ps);
                    assert(out@ =~= body + "constants:\n"@ + pool_lines(ps2));
                    ps = ps2;
                }
                k = k + 1;
            }
        }
        assert(out@ =~= body + pool_text(ps));
        push_str(&mut title, out.as_str());
        assert(title@.subrange(0, listing_title(name@).len() as int) =~= listing_title(name@));
        assert(title@ =~= listing_title(name@) + concat_all(ls) + pool_text(ps));
        assert(listed_from(c, 0, c.code.len() as int, ls));
        title
    }}

/// The label of a function in a module listing: `<toplevel>` for the top
/// level, else its name, arity, locals and whether it is void.
pub open spec fn function_label(name: Seq<char>, arity: u8, locals: u16, is_void: bool) -> Seq<char> {
    if name == "$toplevel"@ {
        "<toplevel>"@
    } else {
        "fn "@ + name + " (arity="@ + int_text(arity as int) + ", locals="@ + int_text(locals as int)
            + ", void="@ + (if is_void { "true"@ } else { "false"@ }) + ")"@
    }
}

/// Texts one after the other, each followed by a newline.
pub open spec fn joined_lines(parts: Seq<Seq<char>>) -> Seq<char>
    decreases parts.len(),
{
    if parts.len() == 0 {
        Seq::empty()
    } else {
        joined_lines(parts.drop_last()) + parts.last() + "\n"@
    }
}

/// Whether `part` is the listing of chunk `c` under the title of `label`.
pub open spec fn titled(part: Seq<char>, label: Seq<char>, c: ChunkV) -> bool {
    &&& part.len() >= listing_title(label).len()
    &&& part.subrange(0, listing_title(label).len() as int) == listing_title(label)
    &&& chunk_listing(c, label, part)
}

/// Whether `s` lists module `m`: each function's chunk listed under its
/// label, each listing followed by a newline.
pub open spec fn module_listed(m: ModuleV, s: Seq<char>) -> bool {
    exists|parts: Seq<Seq<char>>| #![trigger joined_lines(parts)]
        parts.len() == m.functions.len() && s == joined_lines(parts)
        && forall|i: int| 0 <= i < parts.len() ==> titled(#[trigger] parts[i], function_label(
            m.functions[i].name, m.functions[i].arity, m.functions[i].locals, m.functions[i].is_void),
            m.functions[i].chunk)
}

/// A listing of every function of a module, each under a label with its
/// name, arity, locals and whether it is void (`<toplevel>` for the top
/// level), each listing followed by a newline; each is the chunk's listing.
pub fn disassemble_module<H: Host>(module: &Module, host: &H) -> (s: String)
    ensures
        exists|parts: Seq<Seq<char>>| #![trigger joined_lines(parts)]
            parts.len() == module.functions@.len() && s@ == joined_lines(parts)
            && forall|i: int| 0 <= i < parts.len() ==> titled(#[trigger] parts[i], function_label(
                module.functions@[i].name@, module.functions@[i].arity, module.functions@[i].locals,
                module.functions@[i].is_void), module.functions@[i].chunk.view()),
        module_listed(module.view(), s@),
{
    let mut out = String::new();
    let mut i: usize = 0;
    let ghost mut parts: Seq<Seq<char>> = Seq::empty();
    while i < module.functions.len()
        invariant
            i <= module.functions@.len(),
            parts.len() == i,
            out@ == joined_lines(parts),
            forall|k: int| 0 <= k < parts.len() ==> titled(#[trigger] parts[k], function_label(
                module.functions@[k].name@, module.functions@[k].arity, module.functions@[k].locals,
                module.functions@[k].is_void), module.functions@[k].chunk.view()),
        decreases module.functions@.len() - i,
    {
        let f = &module.functions[i];
        let label = if str_eq(f.name.as_str(), "$toplevel") {
            owned("<toplevel>")
        } else {
            let mut l = owned("fn ");
            push_str(&mut l, f.name.as_str());
            push_str(&mut l, " (arity=");
            let a = uint_to_string(f.arity as u64);
            push_str(&mut l, a.as_str());
            push_str(&mut l, ", locals=");
            let c = uint_to_string(f.locals as u64);
            push_str(&mut l, c.as_str());
            push_str(&mut l, ", void=");
            push_str(&mut l, if f.is_void { "true" } else { "false" });
            push_str(&mut l, ")");
            l
        };
        assert(label@ == function_label(f.name@, f.arity, f.locals, f.is_void));
        let d = f.chunk.disassemble(label.as_str(), host);
        push_str(&mut out, d.as_str());
        push_str(&mut out, "\n");
        proof {
            let old_parts = parts;
            parts = parts.push(d@);
            assert(parts.drop_last() =~= old_parts);
        }
        i = i + 1;
    }
    out
}


/// The listing line of a forward jump (`Jump`, `JumpIfFalse` or
/// `JumpIfTrue`) at offset `i` with operand `a` shows `i + 3 + a` as where
/// it lands.
pub proof fn law_jump_target_listed(c: ChunkV, i: int, t: Seq<char>)
    requires
        0 <= i,
        i + 3 <= c.code.len(),
        i + 3 + 65535 <= u64::MAX,
        (op_of_byte(c.code[i]) matches Some(op) && (op is Jump || op is JumpIfFalse || op is JumpIfTrue)),
        insn_line_ok(c, i, t),
    ensures
        t == insn_head(c, i, op_of_byte(c.code[i])->Some_0) + " "@ + int_text(read_u16_at(c.code, i + 1) as int)
            + " -> "@ + int_text(i + 3 + read_u16_at(c.code, i + 1)) + "\n"@,
{
}

/// A `Jump` at offset `i` with operand `a` makes the machine go on at
/// `i + 3 + a`: the target its listing line shows
/// (`law_jump_target_listed`).
pub proof fn law_jump_lands_where_listed(m: &Module, s: VmV, fr: u64, t: Seq<char>)
    requires
        s.frames.len() > 0,
        s.frames.last().func < m.functions@.len(),
        s.frames.last().ip + 3 <= code_of(m, s.frames.last().func as int).len(),
        code_of(m, s.frames.last().func as int)[s.frames.last().ip as int] == op_byte(Op::Jump),
        s.frames.last().ip + 3 + 65535 <= usize::MAX,
    ensures
        step_spec(m, s, fr, t) == StepV::Running(with_ip(s,
            s.frames.last().ip + 3 + read_u16_at(code_of(m, s.frames.last().func as int), s.frames.last().ip + 1))),
{
    crate::op::lemma_op_byte_roundtrip(Op::Jump);
}


/// The listing line of a `Loop` at offset `i` with operand `a` (at most
/// `i + 3`) shows `i + 3 - a` as where it lands.
pub proof fn law_loop_target_listed(c: ChunkV, i: int, t: Seq<char>)
    requires
        0 <= i,
        i + 3 <= c.code.len(),
        c.code[i] == op_byte(Op::Loop),
        read_u16_at(c.code, i + 1) <= i + 3,
        i + 3 <= u64::MAX,
        insn_line_ok(c, i, t),
    ensures
        t == insn_head(c, i, Op::Loop) + " "@ + int_text(read_u16_at(c.code, i + 1) as int)
            + " -> "@ + int_text(i + 3 - read_u16_at(c.code, i + 1)) + "\n"@,
{
    crate::op::lemma_op_byte_roundtrip(Op::Loop);
}

/// A `Loop` at offset `i` with operand `a` (at most `i + 3`) makes the
/// machine go on at `i + 3 - a`: the target its listing line shows
/// (`law_loop_target_listed`).
pub proof fn law_loop_lands_where_listed(m: &Module, s: VmV, fr: u64, t: Seq<char>)
    requires
        s.frames.len() > 0,
        s.frames.last().func < m.functions@.len(),
        s.frames.last().ip + 3 <= code_of(m, s.frames.last().func as int).len(),
        code_of(m, s.frames.last().func as int)[s.frames.last().ip as int] == op_byte(Op::Loop),
        read_u16_at(code_of(m, s.frames.last().func as int), s.frames.last().ip + 1) <= s.frames.last().ip + 3,
        s.frames.last().ip + 3 <= usize::MAX,
    ensures
        step_spec(m, s, fr, t) == StepV::Running(with_ip(s,
            s.frames.last().ip + 3 - read_u16_at(code_of(m, s.frames.last().func as int), s.frames.last().ip + 1))),
{
    crate::op::lemma_op_byte_roundtrip(Op::Loop);
}

} // verus!
