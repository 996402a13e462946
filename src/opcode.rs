//! The instruction set: one opcode byte followed by a fixed number of operand bytes.
use vstd::prelude::*;

verus! {

#[derive(Debug, Clone, Copy, PartialEq, Eq, Structural)]
pub enum OpCode {
    LoadConst,
    Add,
    Sub,
    Mult,
    Div,
    Print,
    Jump,
    JumpIfFalse,
    Equal,
    Greater,
    Less,
    Move,
    CreateObj,
    SetProp,
    GetProp,
    CreateArr,
    PushArr,
    Call,
    Return,
    LoadGlobal,
    StoreGlobal,
    Halt,
}

/// The four arithmetic instructions, whose results the host computes.
#[derive(Debug, Clone, Copy, PartialEq, Eq, Structural)]
pub enum ArithOp {
    Add,
    Sub,
    Mult,
    Div,
}

/// The instruction that an opcode byte selects, if any.
pub open spec fn opcode_of(b: u8) -> Option<OpCode> {
    match b {
        0 => Some(OpCode::LoadConst),
        1 => Some(OpCode::Add),
        2 => Some(OpCode::Sub),
        3 => Some(OpCode::Mult),
        4 => Some(OpCode::Div),
        5 => Some(OpCode::Print),
        6 => Some(OpCode::Jump),
        7 => Some(OpCode::JumpIfFalse),
        8 => Some(OpCode::Equal),
        9 => Some(OpCode::Greater),
        10 => Some(OpCode::Less),
        11 => Some(OpCode::Move),
        12 => Some(OpCode::CreateObj),
        13 => Some(OpCode::SetProp),
        14 => Some(OpCode::GetProp),
        15 => Some(OpCode::CreateArr),
        16 => Some(OpCode::PushArr),
        17 => Some(OpCode::Call),
        18 => Some(OpCode::Return),
        19 => Some(OpCode::LoadGlobal),
        20 => Some(OpCode::StoreGlobal),
        255 => Some(OpCode::Halt),
        _ => None,
    }
}

impl OpCode {
    /// How many operand bytes follow the opcode byte.
    pub open spec fn operand_len(self) -> nat {
        match self {
            OpCode::Halt => 0,
            OpCode::Print | OpCode::Jump | OpCode::CreateObj | OpCode::CreateArr
            | OpCode::Return => 1,
            OpCode::LoadConst | OpCode::JumpIfFalse | OpCode::Move | OpCode::PushArr
            | OpCode::LoadGlobal | OpCode::StoreGlobal => 2,
            _ => 3,
        }
    }

    /// Whether operand `k` names a register (relative to the frame's base).
    pub open spec fn is_register_operand(self, k: int) -> bool {
        0 <= k < self.operand_len() && match self {
            OpCode::Jump | OpCode::Halt => false,
            OpCode::LoadConst | OpCode::JumpIfFalse | OpCode::LoadGlobal => k == 0,
            OpCode::SetProp => k == 0 || k == 2,
            OpCode::GetProp | OpCode::Call => k == 0 || k == 1,
            OpCode::StoreGlobal => k == 1,
            _ => true,
        }
    }

    /// The operand that indexes the constant pool, if any.
    pub open spec fn constant_operand(self) -> Option<nat> {
        match self {
            OpCode::LoadConst | OpCode::SetProp | OpCode::LoadGlobal => Some(1),
            OpCode::GetProp => Some(2),
            OpCode::StoreGlobal => Some(0),
            _ => None,
        }
    }

    /// Decodes an opcode byte.
    pub fn from_byte(b: u8) -> (r: Option<OpCode>)
        ensures
            r == opcode_of(b),
    {
        match b {
            0 => Some(OpCode::LoadConst),
            1 => Some(OpCode::Add),
            2 => Some(OpCode::Sub),
            3 => Some(OpCode::Mult),
            4 => Some(OpCode::Div),
            5 => Some(OpCode::Print),
            6 => Some(OpCode::Jump),
            7 => Some(OpCode::JumpIfFalse),
            8 => Some(OpCode::Equal),
            9 => Some(OpCode::Greater),
            10 => Some(OpCode::Less),
            11 => Some(OpCode::Move),
            12 => Some(OpCode::CreateObj),
            13 => Some(OpCode::SetProp),
            14 => Some(OpCode::GetProp),
            15 => Some(OpCode::CreateArr),
            16 => Some(OpCode::PushArr),
            17 => Some(OpCode::Call),
            18 => Some(OpCode::Return),
            19 => Some(OpCode::LoadGlobal),
            20 => Some(OpCode::StoreGlobal),
            255 => Some(OpCode::Halt),
            _ => None,
        }
    }

    /// The opcode byte of the instruction.
    pub fn to_byte(&self) -> (r: u8)
        ensures
            opcode_of(r) == Some(*self),
    {
        match self {
            OpCode::LoadConst => 0,
            OpCode::Add => 1,
            OpCode::Sub => 2,
            OpCode::Mult => 3,
            OpCode::Div => 4,
            OpCode::Print => 5,
            OpCode::Jump => 6,
            OpCode::JumpIfFalse => 7,
            OpCode::Equal => 8,
            OpCode::Greater => 9,
            OpCode::Less => 10,
            OpCode::Move => 11,
            OpCode::CreateObj => 12,
            OpCode::SetProp => 13,
            OpCode::GetProp => 14,
            OpCode::CreateArr => 15,
            OpCode::PushArr => 16,
            OpCode::Call => 17,
            OpCode::Return => 18,
            OpCode::LoadGlobal => 19,
            OpCode::StoreGlobal => 20,
            OpCode::Halt => 255,
        }
    }

    /// The number of operand bytes that follow the opcode byte.
    pub fn operand_count(&self) -> (r: usize)
        ensures
            r == self.operand_len(),
    {
        match self {
            OpCode::Halt => 0,
            OpCode::Print | OpCode::Jump | OpCode::CreateObj | OpCode::CreateArr
            | OpCode::Return => 1,
            OpCode::LoadConst | OpCode::JumpIfFalse | OpCode::Move | OpCode::PushArr
            | OpCode::LoadGlobal | OpCode::StoreGlobal => 2,
            _ => 3,
        }
    }

    /// Whether operand `k` names a register.
    pub fn register_operand(&self, k: usize) -> (r: bool)
        ensures
            r == self.is_register_operand(k as int),
    {
        if k >= self.operand_count() {
            return false;
        }
        match self {
            OpCode::Jump | OpCode::Halt => false,
            OpCode::LoadConst | OpCode::JumpIfFalse | OpCode::LoadGlobal => k == 0,
            OpCode::SetProp => k == 0 || k == 2,
            OpCode::GetProp | OpCode::Call => k == 0 || k == 1,
            OpCode::StoreGlobal => k == 1,
            _ => true,
        }
    }

    /// The operand that indexes the constant pool, if any.
    pub fn constant_index_operand(&self) -> (r: Option<usize>)
        ensures
            r == match self.constant_operand() {
                Some(k) => Some(k as usize),
                None => None::<usize>,
            },
    {
        match self {
            OpCode::LoadConst | OpCode::SetProp | OpCode::LoadGlobal => Some(1),
            OpCode::GetProp => Some(2),
            OpCode::StoreGlobal => Some(0),
            _ => None,
        }
    }
}

} // verus!
