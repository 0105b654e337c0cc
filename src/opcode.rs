use vstd::prelude::*;

verus! {

/// The one-byte tag that starts every instruction.
#[derive(Debug, Clone, Copy, PartialEq, Eq, Structural)]
pub enum OpCode {
    Halt,
    ConstInt,
    ConstDouble,
    ConstNull,
    ConstTrue,
    ConstFalse,
    ConstString,
    Add,
    Sub,
    Mul,
    Div,
    Mod,
    Exp,
    Jump,
    JumpIfTrue,
    JumpIfFalse,
    Pop,
    LoadLocal,
    StoreLocal,
    LoadGlobal,
    StoreGlobal,
    DeclareGlobal,
    NewFunction,
    BindLocal,
    BindArgument,
    BindUpvalue,
    Call,
    Return,
    LoadArgument,
    LoadUpvalue,
}

/// Number of operand bytes that follow each opcode tag.
pub open spec fn operand_len(op: OpCode) -> nat {
    match op {
        OpCode::ConstInt | OpCode::ConstDouble | OpCode::ConstString | OpCode::Jump
        | OpCode::JumpIfTrue | OpCode::JumpIfFalse | OpCode::LoadLocal | OpCode::StoreLocal
        | OpCode::LoadGlobal | OpCode::StoreGlobal | OpCode::DeclareGlobal | OpCode::BindLocal
        | OpCode::BindArgument | OpCode::BindUpvalue | OpCode::Call | OpCode::LoadArgument
        | OpCode::LoadUpvalue => 8,
        OpCode::NewFunction => 16,
        _ => 0,
    }
}

pub open spec fn byte_of(op: OpCode) -> u8 {
    match op {
        OpCode::Halt => 0,
        OpCode::ConstInt => 1,
        OpCode::ConstDouble => 2,
        OpCode::ConstNull => 3,
        OpCode::ConstTrue => 4,
        OpCode::ConstFalse => 5,
        OpCode::ConstString => 6,
        OpCode::Add => 7,
        OpCode::Sub => 8,
        OpCode::Mul => 9,
        OpCode::Div => 10,
        OpCode::Mod => 11,
        OpCode::Exp => 12,
        OpCode::Jump => 13,
        OpCode::JumpIfTrue => 14,
        OpCode::JumpIfFalse => 15,
        OpCode::Pop => 16,
        OpCode::LoadLocal => 17,
        OpCode::StoreLocal => 18,
        OpCode::LoadGlobal => 19,
        OpCode::StoreGlobal => 20,
        OpCode::DeclareGlobal => 21,
        OpCode::NewFunction => 22,
        OpCode::BindLocal => 23,
        OpCode::BindArgument => 24,
        OpCode::BindUpvalue => 25,
        OpCode::Call => 26,
        OpCode::Return => 27,
        OpCode::LoadArgument => 28,
        OpCode::LoadUpvalue => 29,
    }
}

/// The opcode a tag byte stands for, if any.
pub open spec fn opcode_of(b: u8) -> Option<OpCode> {
    if b == 0 { Some(OpCode::Halt) }
    else if b == 1 { Some(OpCode::ConstInt) }
    else if b == 2 { Some(OpCode::ConstDouble) }
    else if b == 3 { Some(OpCode::ConstNull) }
    else if b == 4 { Some(OpCode::ConstTrue) }
    else if b == 5 { Some(OpCode::ConstFalse) }
    else if b == 6 { Some(OpCode::ConstString) }
    else if b == 7 { Some(OpCode::Add) }
    else if b == 8 { Some(OpCode::Sub) }
    else if b == 9 { Some(OpCode::Mul) }
    else if b == 10 { Some(OpCode::Div) }
    else if b == 11 { Some(OpCode::Mod) }
    else if b == 12 { Some(OpCode::Exp) }
    else if b == 13 { Some(OpCode::Jump) }
    else if b == 14 { Some(OpCode::JumpIfTrue) }
    else if b == 15 { Some(OpCode::JumpIfFalse) }
    else if b == 16 { Some(OpCode::Pop) }
    else if b == 17 { Some(OpCode::LoadLocal) }
    else if b == 18 { Some(OpCode::StoreLocal) }
    else if b == 19 { Some(OpCode::LoadGlobal) }
    else if b == 20 { Some(OpCode::StoreGlobal) }
    else if b == 21 { Some(OpCode::DeclareGlobal) }
    else if b == 22 { Some(OpCode::NewFunction) }
    else if b == 23 { Some(OpCode::BindLocal) }
    else if b == 24 { Some(OpCode::BindArgument) }
    else if b == 25 { Some(OpCode::BindUpvalue) }
    else if b == 26 { Some(OpCode::Call) }
    else if b == 27 { Some(OpCode::Return) }
    else if b == 28 { Some(OpCode::LoadArgument) }
    else if b == 29 { Some(OpCode::LoadUpvalue) }
    else { None }
}

impl OpCode {
    /// The tag byte of this opcode.
    pub fn to_byte(self) -> (r: u8)
        ensures
            r == byte_of(self),
    {
        match self {
            OpCode::Halt => 0,
            OpCode::ConstInt => 1,
            OpCode::ConstDouble => 2,
            OpCode::ConstNull => 3,
            OpCode::ConstTrue => 4,
            OpCode::ConstFalse => 5,
            OpCode::ConstString => 6,
            OpCode::Add => 7,
            OpCode::Sub => 8,
            OpCode::Mul => 9,
            OpCode::Div => 10,
            OpCode::Mod => 11,
            OpCode::Exp => 12,
            OpCode::Jump => 13,
            OpCode::JumpIfTrue => 14,
            OpCode::JumpIfFalse => 15,
            OpCode::Pop => 16,
            OpCode::LoadLocal => 17,
            OpCode::StoreLocal => 18,
            OpCode::LoadGlobal => 19,
            OpCode::StoreGlobal => 20,
            OpCode::DeclareGlobal => 21,
            OpCode::NewFunction => 22,
            OpCode::BindLocal => 23,
            OpCode::BindArgument => 24,
            OpCode::BindUpvalue => 25,
            OpCode::Call => 26,
            OpCode::Return => 27,
            OpCode::LoadArgument => 28,
            OpCode::LoadUpvalue => 29,
        }
    }

    /// The opcode that a tag byte stands for; `None` for a byte outside the table.
    pub fn from_byte(b: u8) -> (r: Option<OpCode>)
        ensures
            r == opcode_of(b),
    {
        if b == 0 { Some(OpCode::Halt) }
        else if b == 1 { Some(OpCode::ConstInt) }
        else if b == 2 { Some(OpCode::ConstDouble) }
        else if b == 3 { Some(OpCode::ConstNull) }
        else if b == 4 { Some(OpCode::ConstTrue) }
        else if b == 5 { Some(OpCode::ConstFalse) }
        else if b == 6 { Some(OpCode::ConstString) }
        else if b == 7 { Some(OpCode::Add) }
        else if b == 8 { Some(OpCode::Sub) }
        else if b == 9 { Some(OpCode::Mul) }
        else if b == 10 { Some(OpCode::Div) }
        else if b == 11 { Some(OpCode::Mod) }
        else if b == 12 { Some(OpCode::Exp) }
        else if b == 13 { Some(OpCode::Jump) }
        else if b == 14 { Some(OpCode::JumpIfTrue) }
        else if b == 15 { Some(OpCode::JumpIfFalse) }
        else if b == 16 { Some(OpCode::Pop) }
        else if b == 17 { Some(OpCode::LoadLocal) }
        else if b == 18 { Some(OpCode::StoreLocal) }
        else if b == 19 { Some(OpCode::LoadGlobal) }
        else if b == 20 { Some(OpCode::StoreGlobal) }
        else if b == 21 { Some(OpCode::DeclareGlobal) }
        else if b == 22 { Some(OpCode::NewFunction) }
        else if b == 23 { Some(OpCode::BindLocal) }
        else if b == 24 { Some(OpCode::BindArgument) }
        else if b == 25 { Some(OpCode::BindUpvalue) }
        else if b == 26 { Some(OpCode::Call) }
        else if b == 27 { Some(OpCode::Return) }
        else if b == 28 { Some(OpCode::LoadArgument) }
        else if b == 29 { Some(OpCode::LoadUpvalue) }
        else { None }
    }
}

/// Decoding a tag byte gives back the opcode it was written from.
pub proof fn lemma_opcode_byte_round_trip(op: OpCode)
    ensures
        opcode_of(byte_of(op)) == Some(op),
{
}

} // verus!
