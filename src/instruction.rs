use vstd::prelude::*;
use crate::bytecode::{le_at, read_u64};
use crate::error::VmError;
use crate::opcode::{opcode_of, operand_len, OpCode};

verus! {

/// One decoded instruction with its operands.
#[derive(Debug, Clone, Copy, PartialEq, Eq, Structural)]
pub enum Instruction {
    Halt,
    ConstInt(i64),
    /// The bit pattern of an IEEE-754 double.
    ConstDouble(u64),
    ConstNull,
    ConstTrue,
    ConstFalse,
    ConstString(u64),
    Add,
    Sub,
    Mul,
    Div,
    Mod,
    Exp,
    Jump(u64),
    JumpIfTrue(u64),
    JumpIfFalse(u64),
    Pop,
    LoadLocal(u64),
    StoreLocal(u64),
    LoadGlobal(u64),
    StoreGlobal(u64),
    DeclareGlobal(u64),
    /// Arity, then entry address.
    NewFunction(u64, u64),
    BindLocal(u64),
    BindArgument(u64),
    BindUpvalue(u64),
    Call(u64),
    Return,
    /// Pushes argument `slot` of the current frame.
    LoadArgument(u64),
    /// Pushes the value read through upvalue `index` of the current function.
    LoadUpvalue(u64),
}

/// The instruction an opcode makes with first operand `a` and second operand `b`.
pub open spec fn make_instruction(op: OpCode, a: u64, b: u64) -> Instruction {
    match op {
        OpCode::Halt => Instruction::Halt,
        OpCode::ConstInt => Instruction::ConstInt(a as i64),
        OpCode::ConstDouble => Instruction::ConstDouble(a),
        OpCode::ConstNull => Instruction::ConstNull,
        OpCode::ConstTrue => Instruction::ConstTrue,
        OpCode::ConstFalse => Instruction::ConstFalse,
        OpCode::ConstString => Instruction::ConstString(a),
        OpCode::Add => Instruction::Add,
        OpCode::Sub => Instruction::Sub,
        OpCode::Mul => Instruction::Mul,
        OpCode::Div => Instruction::Div,
        OpCode::Mod => Instruction::Mod,
        OpCode::Exp => Instruction::Exp,
        OpCode::Jump => Instruction::Jump(a),
        OpCode::JumpIfTrue => Instruction::JumpIfTrue(a),
        OpCode::JumpIfFalse => Instruction::JumpIfFalse(a),
        OpCode::Pop => Instruction::Pop,
        OpCode::LoadLocal => Instruction::LoadLocal(a),
        OpCode::StoreLocal => Instruction::StoreLocal(a),
        OpCode::LoadGlobal => Instruction::LoadGlobal(a),
        OpCode::StoreGlobal => Instruction::StoreGlobal(a),
        OpCode::DeclareGlobal => Instruction::DeclareGlobal(a),
        OpCode::NewFunction => Instruction::NewFunction(a, b),
        OpCode::BindLocal => Instruction::BindLocal(a),
        OpCode::BindArgument => Instruction::BindArgument(a),
        OpCode::BindUpvalue => Instruction::BindUpvalue(a),
        OpCode::Call => Instruction::Call(a),
        OpCode::Return => Instruction::Return,
        OpCode::LoadArgument => Instruction::LoadArgument(a),
        OpCode::LoadUpvalue => Instruction::LoadUpvalue(a),
    }
}

/// The instruction that starts at `at` and the position after it; `None` for
/// an unknown opcode byte or operands cut off by the end of the code.
pub open spec fn decode_spec(code: Seq<u8>, at: int) -> Option<(Instruction, int)> {
    match opcode_of(code[at]) {
        None => None,
        Some(op) => if at + 1 + operand_len(op) > code.len() {
            None
        } else {
            Some(
                (
                    make_instruction(
                        op,
                        if operand_len(op) >= 8 { le_at(code, at + 1) } else { 0 },
                        if operand_len(op) >= 16 { le_at(code, at + 9) } else { 0 },
                    ),
                    at + 1 + operand_len(op),
                ),
            )
        },
    }
}

/// Decodes the instruction at `at`, which must lie within the code.
pub fn decode(code: &Vec<u8>, at: usize) -> (r: Result<(Instruction, usize), VmError>)
    requires
        at < code@.len(),
    ensures
        match decode_spec(code@, at as int) {
            Some((ins, next)) => r matches Ok((i, n)) && i == ins && n == next,
            None => r == Err::<(Instruction, usize), VmError>(VmError::Decode),
        },
{
    let n = code.len();
    assert(at < n);
    let op = match OpCode::from_byte(code[at]) {
        Some(op) => op,
        None => {
            return Err(VmError::Decode);
        },
    };
    let a: u64 = match op {
        OpCode::Halt | OpCode::ConstNull | OpCode::ConstTrue | OpCode::ConstFalse | OpCode::Add
        | OpCode::Sub | OpCode::Mul | OpCode::Div | OpCode::Mod | OpCode::Exp | OpCode::Pop
        | OpCode::Return => {
            return Ok((make_simple(op), at + 1));
        },
        _ => match read_u64(code, at + 1) {
            Some(a) => a,
            None => {
                return Err(VmError::Decode);
            },
        },
    };
    let next = at + 9;
    let ins = match op {
        OpCode::ConstInt => Instruction::ConstInt(#[verifier::truncate] (a as i64)),
        OpCode::ConstDouble => Instruction::ConstDouble(a),
        OpCode::ConstString => Instruction::ConstString(a),
        OpCode::Jump => Instruction::Jump(a),
        OpCode::JumpIfTrue => Instruction::JumpIfTrue(a),
        OpCode::JumpIfFalse => Instruction::JumpIfFalse(a),
        OpCode::LoadLocal => Instruction::LoadLocal(a),
        OpCode::StoreLocal => Instruction::StoreLocal(a),
        OpCode::LoadGlobal => Instruction::LoadGlobal(a),
        OpCode::StoreGlobal => Instruction::StoreGlobal(a),
        OpCode::DeclareGlobal => Instruction::DeclareGlobal(a),
        OpCode::BindLocal => Instruction::BindLocal(a),
        OpCode::BindArgument => Instruction::BindArgument(a),
        OpCode::BindUpvalue => Instruction::BindUpvalue(a),
        OpCode::Call => Instruction::Call(a),
        OpCode::LoadArgument => Instruction::LoadArgument(a),
        OpCode::LoadUpvalue => Instruction::LoadUpvalue(a),
        _ => {
            let b = match read_u64(code, at + 9) {
                Some(b) => b,
                None => {
                    return Err(VmError::Decode);
                },
            };
            return Ok((Instruction::NewFunction(a, b), at + 17));
        },
    };
    Ok((ins, next))
}

/// The instruction of an opcode that takes no operands.
fn make_simple(op: OpCode) -> (r: Instruction)
    requires
        operand_len(op) == 0,
    ensures
        r == make_instruction(op, 0, 0),
{
    match op {
        OpCode::Halt => Instruction::Halt,
        OpCode::ConstNull => Instruction::ConstNull,
        OpCode::ConstTrue => Instruction::ConstTrue,
        OpCode::ConstFalse => Instruction::ConstFalse,
        OpCode::Add => Instruction::Add,
        OpCode::Sub => Instruction::Sub,
        OpCode::Mul => Instruction::Mul,
        OpCode::Div => Instruction::Div,
        OpCode::Mod => Instruction::Mod,
        OpCode::Exp => Instruction::Exp,
        OpCode::Pop => Instruction::Pop,
        _ => Instruction::Return,
    }
}

/// The listing `v` decodes `code` from its start: each entry is the instruction
/// at its position, the next entry starts where it ends, and the last one ends
/// at the end of the code.
pub open spec fn decodes(code: Seq<u8>, v: Seq<(usize, Instruction)>, upto: int) -> bool {
    &&& (v.len() == 0 ==> upto == 0)
    &&& (v.len() > 0 ==> v[0].0 == 0)
    &&& forall|k: int|
        0 <= k < v.len() ==> (#[trigger] v[k]).0 < code.len() && decode_spec(code, v[k].0 as int) is Some
            && decode_spec(code, v[k].0 as int).unwrap().0 == v[k].1
            && decode_spec(code, v[k].0 as int).unwrap().1 == (if k + 1 < v.len() { v[k + 1].0 as int } else { upto })
}

/// Decodes the whole code, each instruction with the position it starts at.
/// Fails when an instruction on the way has an unknown opcode or is cut off.
pub fn decode_all(code: &Vec<u8>) -> (r: Result<Vec<(usize, Instruction)>, VmError>)
    ensures
        r matches Ok(v) ==> decodes(code@, v@, code@.len() as int),
        r is Err ==> r == Err::<Vec<(usize, Instruction)>, VmError>(VmError::Decode) && exists|v: Seq<(usize, Instruction)>, at: int|
            decodes(code@, v, at) && 0 <= at < code@.len() && decode_spec(code@, at) is None,
{
    let mut out: Vec<(usize, Instruction)> = Vec::new();
    let mut at: usize = 0;
    while at < code.len()
        invariant
            at <= code@.len(),
            decodes(code@, out@, at as int),
        decreases code@.len() - at,
    {
        let (ins, next) = match decode(code, at) {
            Ok(p) => p,
            Err(e) => {
                assert(decodes(code@, out@, at as int) && 0 <= at < code@.len() && decode_spec(code@, at as int) is None);
                return Err(e);
            },
        };
        let ghost prev = out@;
        out.push((at, ins));
        assert forall|k: int| 0 <= k < out@.len() implies (#[trigger] out@[k]).0 < code@.len() && decode_spec(code@, out@[k].0 as int) is Some
            && decode_spec(code@, out@[k].0 as int).unwrap().0 == out@[k].1
            && decode_spec(code@, out@[k].0 as int).unwrap().1 == (if k + 1 < out@.len() { out@[k + 1].0 as int } else { next as int }) by {
            if k < prev.len() {
                assert(out@[k] == prev[k]);
            }
        }
        at = next;
    }
    Ok(out)
}

} // verus!
