//! Opcodes of the stack machine and their byte encoding.

use vstd::prelude::*;

verus! {

/// One instruction of the stack machine. The byte of an opcode is its
/// position in this list (`Const` is 0, `ToString` is 40).
#[derive(Debug, Clone, Copy, PartialEq, Eq, Structural)]
pub enum Op {
    Const,
    True,
    False,
    Pop,
    GetLocal,
    SetLocal,
    SetLocalField,
    Add,
    Sub,
    Mul,
    Div,
    Rem,
    Neg,
    Not,
    Eq,
    Ne,
    Lt,
    Le,
    Gt,
    Ge,
    Jump,
    JumpIfFalse,
    JumpIfTrue,
    Loop,
    Call,
    CallMethod,
    Return,
    NewArray,
    GetIndex,
    SetIndex,
    NewStruct,
    GetField,
    SetField,
    Len,
    Print,
    Push,
    ArrayPop,
    Input,
    StrAt,
    StrSub,
    ToString,
}

/// The largest opcode byte.
pub const MAX_OP_BYTE: u8 = 40;

/// The byte that encodes `op`.
pub open spec fn op_byte(op: Op) -> u8 {
    match op {
        Op::Const => 0,
        Op::True => 1,
        Op::False => 2,
        Op::Pop => 3,
        Op::GetLocal => 4,
        Op::SetLocal => 5,
        Op::SetLocalField => 6,
        Op::Add => 7,
        Op::Sub => 8,
        Op::Mul => 9,
        Op::Div => 10,
        Op::Rem => 11,
        Op::Neg => 12,
        Op::Not => 13,
        Op::Eq => 14,
        Op::Ne => 15,
        Op::Lt => 16,
        Op::Le => 17,
        Op::Gt => 18,
        Op::Ge => 19,
        Op::Jump => 20,
        Op::JumpIfFalse => 21,
        Op::JumpIfTrue => 22,
        Op::Loop => 23,
        Op::Call => 24,
        Op::CallMethod => 25,
        Op::Return => 26,
        Op::NewArray => 27,
        Op::GetIndex => 28,
        Op::SetIndex => 29,
        Op::NewStruct => 30,
        Op::GetField => 31,
        Op::SetField => 32,
        Op::Len => 33,
        Op::Print => 34,
        Op::Push => 35,
        Op::ArrayPop => 36,
        Op::Input => 37,
        Op::StrAt => 38,
        Op::StrSub => 39,
        Op::ToString => 40,
    }
}

/// The opcode that a byte decodes to, if any.
pub open spec fn op_of_byte(b: u8) -> Option<Op> {
    if b == 0 { Some(Op::Const) }
    else if b == 1 { Some(Op::True) }
    else if b == 2 { Some(Op::False) }
    else if b == 3 { Some(Op::Pop) }
    else if b == 4 { Some(Op::GetLocal) }
    else if b == 5 { Some(Op::SetLocal) }
    else if b == 6 { Some(Op::SetLocalField) }
    else if b == 7 { Some(Op::Add) }
    else if b == 8 { Some(Op::Sub) }
    else if b == 9 { Some(Op::Mul) }
    else if b == 10 { Some(Op::Div) }
    else if b == 11 { Some(Op::Rem) }
    else if b == 12 { Some(Op::Neg) }
    else if b == 13 { Some(Op::Not) }
    else if b == 14 { Some(Op::Eq) }
    else if b == 15 { Some(Op::Ne) }
    else if b == 16 { Some(Op::Lt) }
    else if b == 17 { Some(Op::Le) }
    else if b == 18 { Some(Op::Gt) }
    else if b == 19 { Some(Op::Ge) }
    else if b == 20 { Some(Op::Jump) }
    else if b == 21 { Some(Op::JumpIfFalse) }
    else if b == 22 { Some(Op::JumpIfTrue) }
    else if b == 23 { Some(Op::Loop) }
    else if b == 24 { Some(Op::Call) }
    else if b == 25 { Some(Op::CallMethod) }
    else if b == 26 { Some(Op::Return) }
    else if b == 27 { Some(Op::NewArray) }
    else if b == 28 { Some(Op::GetIndex) }
    else if b == 29 { Some(Op::SetIndex) }
    else if b == 30 { Some(Op::NewStruct) }
    else if b == 31 { Some(Op::GetField) }
    else if b == 32 { Some(Op::SetField) }
    else if b == 33 { Some(Op::Len) }
    else if b == 34 { Some(Op::Print) }
    else if b == 35 { Some(Op::Push) }
    else if b == 36 { Some(Op::ArrayPop) }
    else if b == 37 { Some(Op::Input) }
    else if b == 38 { Some(Op::StrAt) }
    else if b == 39 { Some(Op::StrSub) }
    else if b == 40 { Some(Op::ToString) }
    else { None }
}

/// Number of bytes an instruction with this opcode occupies, operands included.
pub open spec fn op_width(op: Op) -> nat {
    match op {
        Op::Const | Op::GetLocal | Op::SetLocal | Op::Jump | Op::JumpIfFalse
        | Op::JumpIfTrue | Op::Loop | Op::Call | Op::NewArray
        | Op::GetField | Op::SetField => 3,
        Op::SetLocalField | Op::NewStruct | Op::CallMethod => 5,
        _ => 1,
    }
}

impl Op {
    /// Decodes an opcode byte; bytes above 40 are no opcode.
    pub fn from_u8(b: u8) -> (r: Option<Op>)
        ensures
            r == op_of_byte(b),
            r.is_some() <==> b <= MAX_OP_BYTE,
    {
        match b {
            0 => Some(Op::Const),
            1 => Some(Op::True),
            2 => Some(Op::False),
            3 => Some(Op::Pop),
            4 => Some(Op::GetLocal),
            5 => Some(Op::SetLocal),
            6 => Some(Op::SetLocalField),
            7 => Some(Op::Add),
            8 => Some(Op::Sub),
            9 => Some(Op::Mul),
            10 => Some(Op::Div),
            11 => Some(Op::Rem),
            12 => Some(Op::Neg),
            13 => Some(Op::Not),
            14 => Some(Op::Eq),
            15 => Some(Op::Ne),
            16 => Some(Op::Lt),
            17 => Some(Op::Le),
            18 => Some(Op::Gt),
            19 => Some(Op::Ge),
            20 => Some(Op::Jump),
            21 => Some(Op::JumpIfFalse),
            22 => Some(Op::JumpIfTrue),
            23 => Some(Op::Loop),
            24 => Some(Op::Call),
            25 => Some(Op::CallMethod),
            26 => Some(Op::Return),
            27 => Some(Op::NewArray),
            28 => Some(Op::GetIndex),
            29 => Some(Op::SetIndex),
            30 => Some(Op::NewStruct),
            31 => Some(Op::GetField),
            32 => Some(Op::SetField),
            33 => Some(Op::Len),
            34 => Some(Op::Print),
            35 => Some(Op::Push),
            36 => Some(Op::ArrayPop),
            37 => Some(Op::Input),
            38 => Some(Op::StrAt),
            39 => Some(Op::StrSub),
            40 => Some(Op::ToString),
            _ => None,
        }
    }

    /// The byte that encodes this opcode.
    pub fn to_u8(self) -> (b: u8)
        ensures
            b == op_byte(self),
            b <= MAX_OP_BYTE,
    {
        match self {
            Op::Const => 0,
            Op::True => 1,
            Op::False => 2,
            Op::Pop => 3,
            Op::GetLocal => 4,
            Op::SetLocal => 5,
            Op::SetLocalField => 6,
            Op::Add => 7,
            Op::Sub => 8,
            Op::Mul => 9,
            Op::Div => 10,
            Op::Rem => 11,
            Op::Neg => 12,
            Op::Not => 13,
            Op::Eq => 14,
            Op::Ne => 15,
            Op::Lt => 16,
            Op::Le => 17,
            Op::Gt => 18,
            Op::Ge => 19,
            Op::Jump => 20,
            Op::JumpIfFalse => 21,
            Op::JumpIfTrue => 22,
            Op::Loop => 23,
            Op::Call => 24,
            Op::CallMethod => 25,
            Op::Return => 26,
            Op::NewArray => 27,
            Op::GetIndex => 28,
            Op::SetIndex => 29,
            Op::NewStruct => 30,
            Op::GetField => 31,
            Op::SetField => 32,
            Op::Len => 33,
            Op::Print => 34,
            Op::Push => 35,
            Op::ArrayPop => 36,
            Op::Input => 37,
            Op::StrAt => 38,
            Op::StrSub => 39,
            Op::ToString => 40,
        }
    }

    /// Width of the instruction in bytes, operands included.
    pub fn width(self) -> (w: usize)
        ensures
            w == op_width(self),
    {
        match self {
            Op::Const | Op::GetLocal | Op::SetLocal | Op::Jump | Op::JumpIfFalse
            | Op::JumpIfTrue | Op::Loop | Op::Call | Op::NewArray
            | Op::GetField | Op::SetField => 3,
            Op::SetLocalField | Op::NewStruct | Op::CallMethod => 5,
            _ => 1,
        }
    }
}

/// Decoding the byte of an opcode gives the opcode back.
pub proof fn lemma_op_byte_roundtrip(op: Op)
    ensures
        op_of_byte(op_byte(op)) == Some(op),
{
}

/// Every byte up to 40 decodes to the opcode whose byte it is; no other byte decodes.
pub proof fn lemma_byte_op_roundtrip(b: u8)
    ensures
        b <= MAX_OP_BYTE ==> op_of_byte(b).is_some() && op_byte(op_of_byte(b).unwrap()) == b,
        b > MAX_OP_BYTE ==> op_of_byte(b).is_none(),
{
}

} // verus!
