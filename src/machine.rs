use vstd::prelude::*;
use crate::arith::{int_binop, ArithOp};
use crate::error::VmError;
use crate::instruction::{decode_spec, Instruction};
use crate::value::{truthy, FunctionModel, UpvalueModel, ValueModel};

verus! {

/// A return frame: where to resume, how many arguments the call passed, the
/// caller's base pointer, and the upvalue handles of the called function.
pub struct FrameModel {
    pub return_ip: usize,
    pub nargs: usize,
    pub saved_bp: usize,
    pub upvalues: Seq<usize>,
}

/// The whole state of the machine between two instructions.
pub struct Machine {
    pub stack: Seq<ValueModel>,
    pub frames: Seq<FrameModel>,
    pub ip: usize,
    pub bp: usize,
    pub globals: Map<usize, ValueModel>,
    /// Every upvalue cell, by handle.
    pub cells: Seq<UpvalueModel>,
    /// Handles of the open upvalues, oldest first.
    pub open: Seq<usize>,
}

/// What one step ends in.
pub enum StepModel {
    /// The next instruction is ready.
    Continue,
    /// Halt, or the end of the code: the value on top of the stack (taken off), or Null.
    Finished(ValueModel),
    Failed(VmError),
    /// A numeric operation with a double operand: its operands are taken off
    /// the stack and the embedder pushes the double result.
    Arithmetic { op: ArithOp, lhs: ValueModel, rhs: ValueModel },
    /// A call of a host function: the function and its arguments are taken
    /// off the stack, the last argument first, and the embedder pushes the result.
    Builtin { handle: usize, args: Seq<ValueModel> },
}

pub open spec fn with_stack(m: Machine, stack: Seq<ValueModel>) -> Machine {
    Machine { stack, ..m }
}

pub open spec fn push(m: Machine, v: ValueModel) -> Machine {
    with_stack(m, m.stack.push(v))
}

/// The value read through upvalue `h`: the stack slot while it is open, its
/// own copy once closed.
pub open spec fn upvalue_read(m: Machine, h: int) -> ValueModel {
    match m.cells[h] {
        UpvalueModel::Open(i) => m.stack[i as int],
        UpvalueModel::Closed(v) => v,
    }
}

/// The machine after `v` is written through upvalue `h`.
pub open spec fn upvalue_write(m: Machine, h: int, v: ValueModel) -> Machine {
    match m.cells[h] {
        UpvalueModel::Open(i) => with_stack(m, m.stack.update(i as int, v)),
        UpvalueModel::Closed(_) => Machine { cells: m.cells.update(h, UpvalueModel::Closed(v)), ..m },
    }
}

/// Upvalue `h` exists and, when open, refers to a live slot.
pub open spec fn upvalue_valid(m: Machine, h: int) -> bool {
    0 <= h < m.cells.len() && match m.cells[h] {
        UpvalueModel::Open(i) => i < m.stack.len(),
        UpvalueModel::Closed(_) => true,
    }
}

/// Closes, newest first, the open upvalues that refer to slots at or above
/// `base`, each taking the value of its slot; stops at the first one below.
/// Gives the cells, the open registry, and whether no closed cell or dangling
/// handle was met.
pub open spec fn close_upvalues(
    cells: Seq<UpvalueModel>,
    open: Seq<usize>,
    stack: Seq<ValueModel>,
    base: int,
) -> (Seq<UpvalueModel>, Seq<usize>, bool)
    decreases open.len(),
{
    if open.len() == 0 {
        (cells, open, true)
    } else {
        let h = open.last() as int;
        if h >= cells.len() {
            (cells, open, false)
        } else {
            match cells[h] {
                UpvalueModel::Closed(_) => (cells, open, false),
                UpvalueModel::Open(i) => if i < base {
                    (cells, open, true)
                } else if i >= stack.len() {
                    (cells, open, false)
                } else {
                    close_upvalues(
                        cells.update(h, UpvalueModel::Closed(stack[i as int])),
                        open.drop_last(),
                        stack,
                        base,
                    )
                },
            }
        }
    }
}

pub open spec fn is_number(v: ValueModel) -> bool {
    v is Integer || v is Double
}

/// A binary numeric operation on the two values on top of the stack.
pub open spec fn binop_step(m: Machine, op: ArithOp) -> (Machine, StepModel) {
    let n = m.stack.len();
    if n < 2 {
        (m, StepModel::Failed(VmError::StackUnderflow))
    } else {
        let a = m.stack[n - 2];
        let b = m.stack[n - 1];
        let rest = m.stack.subrange(0, n - 2);
        if !is_number(a) || !is_number(b) {
            (m, StepModel::Failed(VmError::Type))
        } else if a is Integer && b is Integer {
            match int_binop(op, a->Integer_0, b->Integer_0) {
                Ok(r) => (with_stack(m, rest.push(ValueModel::Integer(r))), StepModel::Continue),
                Err(e) => (m, StepModel::Failed(e)),
            }
        } else {
            (with_stack(m, rest), StepModel::Arithmetic { op, lhs: a, rhs: b })
        }
    }
}

/// The stack without its top, and the top or Null.
pub open spec fn finish(m: Machine) -> (Machine, StepModel) {
    if m.stack.len() == 0 {
        (m, StepModel::Finished(ValueModel::Null))
    } else {
        (with_stack(m, m.stack.drop_last()), StepModel::Finished(m.stack.last()))
    }
}

/// Appends upvalue handle `h` to the function on top of the stack `m`, whose
/// top is `f`.
pub open spec fn rebind(m: Machine, f: FunctionModel, h: usize) -> Machine {
    with_stack(
        m,
        m.stack.drop_last().push(
            ValueModel::Function(
                FunctionModel::User {
                    name: f->User_name,
                    address: f->User_address,
                    arity: f->User_arity,
                    upvalues: f->User_upvalues.push(h),
                },
            ),
        ),
    )
}

/// Binds a fresh open upvalue on stack slot `slot` to the user function on top
/// of the stack.
pub open spec fn bind_new_step(m: Machine, slot: int) -> (Machine, StepModel) {
    let n = m.stack.len();
    if n == 0 {
        (m, StepModel::Failed(VmError::StackUnderflow))
    } else if !(m.stack[n - 1] matches ValueModel::Function(FunctionModel::User { .. })) {
        (m, StepModel::Failed(VmError::Type))
    } else if slot < 0 || slot >= n - 1 {
        (m, StepModel::Failed(VmError::InternalInvariant))
    } else {
        let h = m.cells.len() as usize;
        let m1 = Machine {
            cells: m.cells.push(UpvalueModel::Open(slot as usize)),
            open: m.open.push(h),
            ..m
        };
        (rebind(m1, m.stack[n - 1]->Function_0, h), StepModel::Continue)
    }
}

/// One instruction, fetched at `m.ip`.
pub open spec fn step_spec(m: Machine, code: Seq<u8>) -> (Machine, StepModel) {
    if m.ip >= code.len() {
        finish(m)
    } else {
        match decode_spec(code, m.ip as int) {
            None => (m, StepModel::Failed(VmError::Decode)),
            Some((ins, next)) => {
                let m1 = Machine { ip: next as usize, ..m };
                let n = m1.stack.len();
                match ins {
                    Instruction::Halt => finish(m1),
                    Instruction::ConstInt(i) => (push(m1, ValueModel::Integer(i)), StepModel::Continue),
                    Instruction::ConstDouble(d) => (push(m1, ValueModel::Double(d)), StepModel::Continue),
                    Instruction::ConstNull => (push(m1, ValueModel::Null), StepModel::Continue),
                    Instruction::ConstTrue => (push(m1, ValueModel::Boolean(true)), StepModel::Continue),
                    Instruction::ConstFalse => (push(m1, ValueModel::Boolean(false)), StepModel::Continue),
                    Instruction::ConstString(id) => (push(m1, ValueModel::String(id as usize)), StepModel::Continue),
                    Instruction::Add => binop_step(m1, ArithOp::Add),
                    Instruction::Sub => binop_step(m1, ArithOp::Sub),
                    Instruction::Mul => binop_step(m1, ArithOp::Mul),
                    Instruction::Div => binop_step(m1, ArithOp::Div),
                    Instruction::Mod => binop_step(m1, ArithOp::Mod),
                    Instruction::Exp => binop_step(m1, ArithOp::Exp),
                    Instruction::Jump(a) => (Machine { ip: a as usize, ..m1 }, StepModel::Continue),
                    Instruction::JumpIfTrue(a) => if n == 0 {
                        (m1, StepModel::Failed(VmError::StackUnderflow))
                    } else {
                        let m2 = with_stack(m1, m1.stack.drop_last());
                        if truthy(m1.stack.last()) {
                            (Machine { ip: a as usize, ..m2 }, StepModel::Continue)
                        } else {
                            (m2, StepModel::Continue)
                        }
                    },
                    Instruction::JumpIfFalse(a) => if n == 0 {
                        (m1, StepModel::Failed(VmError::StackUnderflow))
                    } else {
                        let m2 = with_stack(m1, m1.stack.drop_last());
                        if !truthy(m1.stack.last()) {
                            (Machine { ip: a as usize, ..m2 }, StepModel::Continue)
                        } else {
                            (m2, StepModel::Continue)
                        }
                    },
                    Instruction::Pop => if n == 0 {
                        (m1, StepModel::Failed(VmError::StackUnderflow))
                    } else {
                        (with_stack(m1, m1.stack.drop_last()), StepModel::Continue)
                    },
                    Instruction::LoadLocal(s) => if m1.bp + s >= n {
                        (m1, StepModel::Failed(VmError::InternalInvariant))
                    } else {
                        (push(m1, m1.stack[m1.bp + s]), StepModel::Continue)
                    },
                    Instruction::StoreLocal(s) => if n == 0 {
                        (m1, StepModel::Failed(VmError::StackUnderflow))
                    } else if m1.bp + s >= n {
                        (m1, StepModel::Failed(VmError::InternalInvariant))
                    } else {
                        (with_stack(m1, m1.stack.update(m1.bp + s, m1.stack.last())), StepModel::Continue)
                    },
                    Instruction::LoadGlobal(id) => if !m1.globals.contains_key(id as usize) {
                        (m1, StepModel::Failed(VmError::Reference))
                    } else {
                        (push(m1, m1.globals[id as usize]), StepModel::Continue)
                    },
                    Instruction::StoreGlobal(id) => if !m1.globals.contains_key(id as usize) {
                        (m1, StepModel::Failed(VmError::Reference))
                    } else if n == 0 {
                        (m1, StepModel::Failed(VmError::StackUnderflow))
                    } else {
                        (
                            Machine {
                                stack: m1.stack.drop_last(),
                                globals: m1.globals.insert(id as usize, m1.stack.last()),
                                ..m1
                            },
                            StepModel::Continue,
                        )
                    },
                    Instruction::DeclareGlobal(id) => if m1.globals.contains_key(id as usize) {
                        (m1, StepModel::Continue)
                    } else {
                        (
                            Machine { globals: m1.globals.insert(id as usize, ValueModel::Null), ..m1 },
                            StepModel::Continue,
                        )
                    },
                    Instruction::NewFunction(arity, address) => (
                        push(
                            m1,
                            ValueModel::Function(
                                FunctionModel::User {
                                    name: None,
                                    address: address as usize,
                                    arity: arity as usize,
                                    upvalues: Seq::empty(),
                                },
                            ),
                        ),
                        StepModel::Continue,
                    ),
                    Instruction::BindLocal(s) => bind_new_step(m1, m1.bp + s),
                    Instruction::BindArgument(s) => if m1.frames.len() == 0 {
                        (m1, StepModel::Failed(VmError::InternalInvariant))
                    } else {
                        bind_new_step(m1, m1.bp - m1.frames.last().nargs + s)
                    },
                    Instruction::BindUpvalue(k) => if n == 0 {
                        (m1, StepModel::Failed(VmError::StackUnderflow))
                    } else if !(m1.stack[n - 1] matches ValueModel::Function(FunctionModel::User { .. })) {
                        (m1, StepModel::Failed(VmError::Type))
                    } else if m1.frames.len() == 0 || k >= m1.frames.last().upvalues.len() {
                        (m1, StepModel::Failed(VmError::InternalInvariant))
                    } else {
                        (
                            rebind(m1, m1.stack[n - 1]->Function_0, m1.frames.last().upvalues[k as int]),
                            StepModel::Continue,
                        )
                    },
                    Instruction::LoadArgument(s) => if m1.frames.len() == 0 || m1.bp - m1.frames.last().nargs + s
                        >= n || m1.bp - m1.frames.last().nargs + s < 0 {
                        (m1, StepModel::Failed(VmError::InternalInvariant))
                    } else {
                        (push(m1, m1.stack[m1.bp - m1.frames.last().nargs + s]), StepModel::Continue)
                    },
                    Instruction::LoadUpvalue(k) => if m1.frames.len() == 0 || k >= m1.frames.last().upvalues.len()
                        || !upvalue_valid(m1, m1.frames.last().upvalues[k as int] as int) {
                        (m1, StepModel::Failed(VmError::InternalInvariant))
                    } else {
                        (push(m1, upvalue_read(m1, m1.frames.last().upvalues[k as int] as int)), StepModel::Continue)
                    },
                    Instruction::Call(nargs) => call_step(m1, nargs as int),
                    Instruction::Return => return_step(m1),
                }
            },
        }
    }
}

/// A call with `nargs` arguments below the function on top of the stack.
pub open spec fn call_step(m: Machine, nargs: int) -> (Machine, StepModel) {
    let n = m.stack.len();
    if n == 0 {
        (m, StepModel::Failed(VmError::StackUnderflow))
    } else {
        match m.stack[n - 1] {
            ValueModel::Function(f) => if nargs > n - 1 {
                (m, StepModel::Failed(VmError::StackUnderflow))
            } else {
                match f {
                    FunctionModel::Builtin { arity, handle, .. } => if nargs < arity {
                        (m, StepModel::Failed(VmError::Arity))
                    } else {
                        (
                            with_stack(m, m.stack.subrange(0, n - 1 - nargs)),
                            StepModel::Builtin {
                                handle,
                                args: m.stack.subrange(n - 1 - nargs, n - 1).reverse(),
                            },
                        )
                    },
                    FunctionModel::User { arity, address, upvalues, .. } => if nargs < arity {
                        (m, StepModel::Failed(VmError::Arity))
                    } else {
                        (
                            Machine {
                                stack: m.stack.drop_last(),
                                frames: m.frames.push(
                                    FrameModel {
                                        return_ip: m.ip,
                                        nargs: nargs as usize,
                                        saved_bp: m.bp,
                                        upvalues,
                                    },
                                ),
                                bp: (n - 1) as usize,
                                ip: address,
                                ..m
                            },
                            StepModel::Continue,
                        )
                    },
                }
            },
            _ => (m, StepModel::Failed(VmError::Type)),
        }
    }
}

/// A return with the value on top of the stack: the frame's arguments and
/// locals are discarded after the upvalues that refer to them are closed.
pub open spec fn return_step(m: Machine) -> (Machine, StepModel) {
    let n = m.stack.len();
    if n == 0 {
        (m, StepModel::Failed(VmError::StackUnderflow))
    } else if m.frames.len() == 0 {
        (m, StepModel::Failed(VmError::InternalInvariant))
    } else {
        let frame = m.frames.last();
        let base = m.bp - frame.nargs;
        if base < 0 || base > n - 1 {
            (m, StepModel::Failed(VmError::InternalInvariant))
        } else {
            let retval = m.stack.last();
            let body = m.stack.drop_last();
            let (cells, open, ok) = close_upvalues(m.cells, m.open, body, base);
            if !ok {
                (Machine { cells, open, ..m }, StepModel::Failed(VmError::InternalInvariant))
            } else {
                (
                    Machine {
                        stack: body.subrange(0, base).push(retval),
                        frames: m.frames.drop_last(),
                        ip: frame.return_ip,
                        bp: frame.saved_bp,
                        cells,
                        open,
                        ..m
                    },
                    StepModel::Continue,
                )
            }
        }
    }
}

/// Up to `fuel` steps, stopping at the first that does not end in Continue.
/// Continue comes out only when the fuel ran out.
pub open spec fn run_spec(m: Machine, code: Seq<u8>, fuel: nat) -> (Machine, StepModel)
    decreases fuel,
{
    if fuel == 0 {
        (m, StepModel::Continue)
    } else {
        let (m1, r) = step_spec(m, code);
        if r is Continue {
            run_spec(m1, code, (fuel - 1) as nat)
        } else {
            (m1, r)
        }
    }
}

} // verus!
