use vstd::prelude::*;
use crate::arith::ArithOp;
use crate::error::VmError;
use crate::instruction::{decode_spec, Instruction};
use crate::machine::{
    call_step, close_upvalues, is_number, return_step, step_spec, upvalue_read, upvalue_valid,
    upvalue_write, Machine, StepModel,
};
use crate::value::{truthy, FunctionModel, UpvalueModel, ValueModel};

verus! {

/// The instruction of each numeric operation.
pub open spec fn arith_instruction(op: ArithOp) -> Instruction {
    match op {
        ArithOp::Add => Instruction::Add,
        ArithOp::Sub => Instruction::Sub,
        ArithOp::Mul => Instruction::Mul,
        ArithOp::Div => Instruction::Div,
        ArithOp::Mod => Instruction::Mod,
        ArithOp::Exp => Instruction::Exp,
    }
}

/// A conditional jump pops its condition and is taken exactly when the
/// condition's truthiness matches: JumpIfTrue when it is neither Null nor
/// false, JumpIfFalse in the other case.
pub proof fn lemma_conditional_jump(m: Machine, code: Seq<u8>, target: u64, next: int)
    requires
        m.ip < code.len(),
        m.stack.len() > 0,
        decode_spec(code, m.ip as int) == Some((Instruction::JumpIfTrue(target), next))
            || decode_spec(code, m.ip as int) == Some((Instruction::JumpIfFalse(target), next)),
    ensures
        ({
            let (m1, r) = step_spec(m, code);
            let want = decode_spec(code, m.ip as int) == Some((Instruction::JumpIfTrue(target), next));
            &&& r is Continue
            &&& m1.stack == m.stack.drop_last()
            &&& (truthy(m.stack.last()) == want ==> m1.ip == target as usize)
            &&& (truthy(m.stack.last()) != want ==> m1.ip == next as usize)
        }),
{
}

/// A numeric operation on an Integer and a Double, or on two Doubles, is the
/// double operation: both operands leave the stack, as they were, and the
/// embedder computes the double result from them.
pub proof fn lemma_numeric_promotion(m: Machine, code: Seq<u8>, op: ArithOp, next: int)
    requires
        m.ip < code.len(),
        decode_spec(code, m.ip as int) == Some((arith_instruction(op), next)),
        m.stack.len() >= 2,
        is_number(m.stack[m.stack.len() - 2]),
        is_number(m.stack[m.stack.len() - 1]),
        m.stack[m.stack.len() - 2] is Double || m.stack[m.stack.len() - 1] is Double,
    ensures
        ({
            let (m1, r) = step_spec(m, code);
            &&& r == StepModel::Arithmetic {
                op,
                lhs: m.stack[m.stack.len() - 2],
                rhs: m.stack[m.stack.len() - 1],
            }
            &&& m1.stack == m.stack.subrange(0, m.stack.len() - 2)
        }),
{
}

/// Loading or storing a global that was never declared fails with a
/// reference error.
pub proof fn lemma_undeclared_global(m: Machine, code: Seq<u8>, id: u64, next: int)
    requires
        m.ip < code.len(),
        decode_spec(code, m.ip as int) == Some((Instruction::LoadGlobal(id), next))
            || decode_spec(code, m.ip as int) == Some((Instruction::StoreGlobal(id), next)),
        !m.globals.contains_key(id as usize),
    ensures
        step_spec(m, code).1 == StepModel::Failed(VmError::Reference),
{
}

/// Closing upvalues only turns open cells into closed ones holding the value
/// of their slot, keeps the number of cells, and leaves a prefix of the registry.
pub proof fn lemma_close_upvalues(
    cells: Seq<UpvalueModel>,
    open: Seq<usize>,
    stack: Seq<ValueModel>,
    base: int,
)
    ensures
        ({
            let (c2, o2, ok) = close_upvalues(cells, open, stack, base);
            &&& c2.len() == cells.len()
            &&& o2.len() <= open.len()
            &&& o2 == open.subrange(0, o2.len() as int)
            &&& forall|h: int|
                0 <= h < cells.len() && c2[h] != cells[h] ==> (cells[h] matches UpvalueModel::Open(i)
                    && i < stack.len() && c2[h] == UpvalueModel::Closed(stack[i as int]))
        }),
    decreases open.len(),
{
    if open.len() > 0 {
        let h = open.last() as int;
        if h < cells.len() {
            if let UpvalueModel::Open(i) = cells[h] {
                if i >= base && i < stack.len() {
                    let c1 = cells.update(h, UpvalueModel::Closed(stack[i as int]));
                    lemma_close_upvalues(c1, open.drop_last(), stack, base);
                    let (c2, o2, ok) = close_upvalues(c1, open.drop_last(), stack, base);
                    assert(o2 =~= open.subrange(0, o2.len() as int)) by {
                        assert(o2 == open.drop_last().subrange(0, o2.len() as int));
                    }
                    assert forall|g: int|
                        0 <= g < cells.len() && c2[g] != cells[g] implies (cells[g] matches UpvalueModel::Open(j)
                            && j < stack.len() && c2[g] == UpvalueModel::Closed(stack[j as int])) by {
                        if g != h {
                            assert(c1[g] == cells[g]);
                        } else if c2[g] == c1[g] {
                        } else {
                            assert(c1[g] is Closed);
                        }
                    }
                    return;
                }
            }
        }
        assert(open.subrange(0, open.len() as int) =~= open);
    } else {
        assert(open.subrange(0, 0) =~= open);
    }
}

/// After a return, every upvalue the return closed reads the value its slot
/// held just before the return; every other upvalue is unchanged.
pub proof fn lemma_return_keeps_upvalue_values(m: Machine, code: Seq<u8>, next: int, h: int)
    requires
        m.ip < code.len(),
        decode_spec(code, m.ip as int) == Some((Instruction::Return, next)),
        step_spec(m, code).1 is Continue,
        0 <= h < m.cells.len(),
        upvalue_valid(m, h),
    ensures
        ({
            let m1 = step_spec(m, code).0;
            &&& m1.cells.len() == m.cells.len()
            &&& m1.cells[h] == m.cells[h] || (m1.cells[h] is Closed && upvalue_read(m1, h)
                == upvalue_read(m, h))
        }),
{
    let m0 = Machine { ip: next as usize, ..m };
    let body = m0.stack.drop_last();
    let base = m0.bp - m0.frames.last().nargs;
    lemma_close_upvalues(m0.cells, m0.open, body, base);
}

/// Two closures that captured the same binding hold the same handle: a write
/// through one is read back through the other, while the upvalue is open and
/// after it is closed.
pub proof fn lemma_shared_upvalue(m: Machine, f: FunctionModel, g: FunctionModel, i: int, j: int, v: ValueModel)
    requires
        f is User,
        g is User,
        0 <= i < f->User_upvalues.len(),
        0 <= j < g->User_upvalues.len(),
        f->User_upvalues[i] == g->User_upvalues[j],
        upvalue_valid(m, f->User_upvalues[i] as int),
    ensures
        upvalue_read(upvalue_write(m, f->User_upvalues[i] as int, v), g->User_upvalues[j] as int) == v,
{
}

/// A call of a user function followed by the return of its frame leaves the
/// caller's stack below the function and its arguments as it was, with the
/// returned value on top, and restores the caller's frame, base and place.
pub proof fn lemma_call_return_balance(m: Machine, nargs: int, m2: Machine)
    requires
        0 <= nargs,
        0 < m.stack.len() <= usize::MAX,
        m.stack.last() matches ValueModel::Function(FunctionModel::User { .. }),
        call_step(m, nargs).1 is Continue,
        m2.frames == call_step(m, nargs).0.frames,
        m2.bp == call_step(m, nargs).0.bp,
        m2.stack.len() > m2.bp,
        m2.stack.subrange(0, m.stack.len() - 1 - nargs) == m.stack.subrange(0, m.stack.len() - 1 - nargs),
        return_step(m2).1 is Continue,
    ensures
        ({
            let m3 = return_step(m2).0;
            &&& m3.stack == m.stack.subrange(0, m.stack.len() - 1 - nargs).push(m2.stack.last())
            &&& m3.stack.len() == m.stack.len() - nargs
            &&& m3.frames == m.frames
            &&& m3.bp == m.bp
            &&& m3.ip == m.ip
        }),
{
    let n = m.stack.len();
    let m1 = call_step(m, nargs).0;
    assert(nargs < n);
    assert(m1.frames.last().nargs == nargs);
    assert(m1.frames.drop_last() =~= m.frames);
    let base = n - 1 - nargs;
    assert(m2.stack.drop_last().subrange(0, base) =~= m.stack.subrange(0, base)) by {
        assert(m2.stack.drop_last().subrange(0, base) =~= m2.stack.subrange(0, base));
    }
}

} // verus!
