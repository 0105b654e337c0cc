use vstd::prelude::*;
use std::collections::HashMap;
use crate::agent::Agent;
use crate::arith::{int_binop_exec, ArithOp};
use crate::bytecode::CodeObject;
use crate::error::VmError;
use crate::instruction::{decode, Instruction};
use crate::machine::{
    bind_new_step, binop_step, call_step, close_upvalues, return_step, finish, push, rebind, run_spec, step_spec, upvalue_read, upvalue_valid, upvalue_write, with_stack, FrameModel,
    Machine, StepModel,
};
use crate::value::{FunctionModel, FunctionValue, Upvalue, UpvalueModel, Value, ValueModel};

verus! {

broadcast use vstd::std_specs::hash::group_hash_axioms;

/// A return frame of the call stack.
pub struct Frame {
    pub return_ip: usize,
    pub nargs: usize,
    pub saved_bp: usize,
    /// The upvalue handles of the function that was called.
    pub upvalues: Vec<usize>,
}

impl View for Frame {
    type V = FrameModel;

    open spec fn view(&self) -> FrameModel {
        FrameModel {
            return_ip: self.return_ip,
            nargs: self.nargs,
            saved_bp: self.saved_bp,
            upvalues: self.upvalues@,
        }
    }
}

/// What one step ended in.
#[derive(Debug)]
pub enum Step {
    Continue,
    Finished(Value),
    Failed(VmError),
    Arithmetic { op: ArithOp, lhs: Value, rhs: Value },
    Builtin { handle: usize, args: Vec<Value> },
}

impl View for Step {
    type V = StepModel;

    open spec fn view(&self) -> StepModel {
        match self {
            Step::Continue => StepModel::Continue,
            Step::Finished(v) => StepModel::Finished(v@),
            Step::Failed(e) => StepModel::Failed(*e),
            Step::Arithmetic { op, lhs, rhs } => StepModel::Arithmetic { op: *op, lhs: lhs@, rhs: rhs@ },
            Step::Builtin { handle, args } => StepModel::Builtin {
                handle: *handle,
                args: args@.map_values(|v: Value| v@),
            },
        }
    }
}

pub open spec fn values(s: Seq<Value>) -> Seq<ValueModel> {
    s.map_values(|v: Value| v@)
}

/// The stack machine that runs finished code.
pub struct Interpreter {
    agent: Agent,
    global: HashMap<usize, Value>,
    frames: Vec<Frame>,
    stack: Vec<Value>,
    ip: usize,
    bp: usize,
}

impl Interpreter {
    /// The machine state.
    pub closed spec fn model(&self) -> Machine {
        Machine {
            stack: values(self.stack@),
            frames: self.frames@.map_values(|f: Frame| f@),
            ip: self.ip,
            bp: self.bp,
            globals: self.global@.map_values(|v: Value| v@),
            cells: self.agent.upvalue_cells@.map_values(|u: Upvalue| u@),
            open: self.agent.upvalues@,
        }
    }

    /// The interned strings of the agent.
    pub closed spec fn strings(&self) -> Seq<Seq<char>> {
        self.agent.strings()
    }

    /// A machine over `agent` with no globals.
    pub fn new(agent: Agent) -> (r: Interpreter)
        ensures
            r.model().stack == Seq::<ValueModel>::empty(),
            r.model().frames == Seq::<FrameModel>::empty(),
            r.model().ip == 0 && r.model().bp == 0,
            r.model().globals == Map::<usize, ValueModel>::empty(),
            r.model().cells == agent.upvalue_cells@.map_values(|u: Upvalue| u@),
            r.model().open == agent.upvalues@,
            r.strings() == agent.strings(),
    {
        let r = Interpreter::with_global(agent, HashMap::new());
        assert(r.model().globals =~= Map::<usize, ValueModel>::empty());
        r
    }

    /// A machine over `agent` whose globals start as `global`.
    pub fn with_global(agent: Agent, global: HashMap<usize, Value>) -> (r: Interpreter)
        ensures
            r.model().stack == Seq::<ValueModel>::empty(),
            r.model().frames == Seq::<FrameModel>::empty(),
            r.model().ip == 0 && r.model().bp == 0,
            r.model().globals == global@.map_values(|v: Value| v@),
            r.model().cells == agent.upvalue_cells@.map_values(|u: Upvalue| u@),
            r.model().open == agent.upvalues@,
            r.strings() == agent.strings(),
    {
        let r = Interpreter { agent, global, frames: Vec::new(), stack: Vec::new(), ip: 0, bp: 0 };
        assert(r.model().stack =~= Seq::<ValueModel>::empty());
        assert(r.model().frames =~= Seq::<FrameModel>::empty());
        r
    }

    /// The agent the machine runs over.
    pub fn agent(&self) -> (r: &Agent)
        ensures
            r.strings() == self.strings(),
            r.upvalues@ == self.model().open,
            r.upvalue_cells@.map_values(|u: Upvalue| u@) == self.model().cells,
    {
        &self.agent
    }

    /// Pushes `v`: the result a host function or a double operation hands back.
    pub fn push(&mut self, v: Value)
        ensures
            final(self).model() == push(old(self).model(), v@),
            final(self).strings() == old(self).strings(),
    {
        self.stack.push(v);
        assert(self.model().stack =~= old(self).model().stack.push(v@));
    }

    /// Removes and returns the top of the stack, which must exist.
    fn pop(&mut self) -> (r: Value)
        requires
            old(self).stack@.len() > 0,
        ensures
            r@ == old(self).model().stack.last(),
            final(self).stack@.len() == old(self).stack@.len() - 1,
            final(self).model() == with_stack(old(self).model(), old(self).model().stack.drop_last()),
            final(self).strings() == old(self).strings(),
    {
        let r = self.stack.pop().unwrap();
        assert(self.model().stack =~= old(self).model().stack.drop_last());
        r
    }

    /// Ends the run: takes the top of the stack as the result, or Null.
    fn finish(&mut self) -> (r: Step)
        ensures
            (final(self).model(), r@) == finish(old(self).model()),
            final(self).strings() == old(self).strings(),
    {
        if self.stack.len() == 0 {
            Step::Finished(Value::Null)
        } else {
            let v = self.pop();
            Step::Finished(v)
        }
    }

    /// A binary numeric operation on the two values on top of the stack.
    fn binop(&mut self, op: ArithOp) -> (r: Step)
        ensures
            (final(self).model(), r@) == binop_step(old(self).model(), op),
            final(self).strings() == old(self).strings(),
    {
        let n = self.stack.len();
        if n < 2 {
            return Step::Failed(VmError::StackUnderflow);
        }
        let ghost m = self.model();
        let ghost rest = m.stack.subrange(0, n - 2);
        match (&self.stack[n - 2], &self.stack[n - 1]) {
            (Value::Integer(a), Value::Integer(b)) => {
                let a = *a;
                let b = *b;
                match int_binop_exec(op, a, b) {
                    Ok(v) => {
                        self.pop();
                        self.pop();
                        assert(self.model().stack =~= rest);
                        self.push(Value::Integer(v));
                        Step::Continue
                    },
                    Err(e) => Step::Failed(e),
                }
            },
            (Value::Integer(_), Value::Double(_)) | (Value::Double(_), Value::Integer(_)) | (
                Value::Double(_),
                Value::Double(_),
            ) => {
                let rhs = self.pop();
                let lhs = self.pop();
                assert(self.model().stack =~= rest);
                Step::Arithmetic { op, lhs, rhs }
            },
            _ => Step::Failed(VmError::Type),
        }
    }

    /// Appends handle `h` to the user function on top of the stack.
    fn rebind(&mut self, h: usize)
        requires
            old(self).stack@.len() > 0,
            old(self).model().stack.last() matches ValueModel::Function(FunctionModel::User { .. }),
        ensures
            final(self).model() == rebind(old(self).model(), old(self).model().stack.last()->Function_0, h),
            final(self).strings() == old(self).strings(),
    {
        let f = self.pop();
        match f {
            Value::Function(FunctionValue::User { name, address, arity, upvalues }) => {
                let mut upvalues = upvalues;
                upvalues.push(h);
                self.push(Value::Function(FunctionValue::User { name, address, arity, upvalues }));
            },
            _ => {},
        }
    }

    /// Binds a fresh open upvalue on stack slot `slot` to the function on top.
    fn bind_new(&mut self, slot: i128) -> (r: Step)
        ensures
            (final(self).model(), r@) == bind_new_step(old(self).model(), slot as int),
            final(self).strings() == old(self).strings(),
    {
        let n = self.stack.len();
        if n == 0 {
            return Step::Failed(VmError::StackUnderflow);
        }
        match &self.stack[n - 1] {
            Value::Function(FunctionValue::User { .. }) => {},
            _ => {
                return Step::Failed(VmError::Type);
            },
        }
        if slot < 0 || slot >= (n - 1) as i128 {
            return Step::Failed(VmError::InternalInvariant);
        }
        let ghost m = self.model();
        let h = self.agent.upvalue_cells.len();
        self.agent.upvalue_cells.push(Upvalue::Open(slot as usize));
        self.agent.upvalues.push(h);
        assert(self.model().cells =~= m.cells.push(UpvalueModel::Open(slot as usize)));
        self.rebind(h);
        Step::Continue
    }

    /// A call with `nargs` arguments below the function on top of the stack.
    fn call(&mut self, nargs: u64) -> (r: Step)
        ensures
            (final(self).model(), r@) == call_step(old(self).model(), nargs as int),
            final(self).strings() == old(self).strings(),
    {
        let n = self.stack.len();
        if n == 0 {
            return Step::Failed(VmError::StackUnderflow);
        }
        let ghost m = self.model();
        let (is_builtin, arity, address, handle) = match &self.stack[n - 1] {
            Value::Function(FunctionValue::Builtin { arity, handle, .. }) => (true, *arity, 0, *handle),
            Value::Function(FunctionValue::User { arity, address, .. }) => (false, *arity, *address, 0),
            _ => {
                return Step::Failed(VmError::Type);
            },
        };
        if nargs > (n - 1) as u64 {
            return Step::Failed(VmError::StackUnderflow);
        }
        if nargs < arity as u64 {
            return Step::Failed(VmError::Arity);
        }
        let k = nargs as usize;
        let f = self.pop();
        if is_builtin {
            let mut args: Vec<Value> = Vec::new();
            let mut i: usize = 0;
            while i < k
                invariant
                    n == m.stack.len(),
                    k < n,
                    0 <= i <= k,
                    self.stack@.len() == n - 1 - i,
                    self.model() == with_stack(m, m.stack.subrange(0, n - 1 - i)),
                    self.strings() == old(self).strings(),
                    values(args@) == m.stack.subrange(n - 1 - i, n - 1).reverse(),
                decreases k - i,
            {
                let ghost prev = values(args@);
                let ghost top = self.model().stack.last();
                let v = self.pop();
                args.push(v);
                i = i + 1;
                assert(values(args@) =~= prev.push(top));
                assert(top == m.stack[n - 1 - i]);
                assert(self.model().stack =~= m.stack.subrange(0, n - 1 - i));
                assert(values(args@) =~= m.stack.subrange(n - 1 - i, n - 1).reverse());
            }
            Step::Builtin { handle, args }
        } else {
            let upvalues = match f {
                Value::Function(FunctionValue::User { upvalues, .. }) => upvalues,
                _ => Vec::new(),
            };
            let frame = Frame { return_ip: self.ip, nargs: k, saved_bp: self.bp, upvalues };
            self.frames.push(frame);
            self.bp = n - 1;
            self.ip = address;
            assert(self.model().frames =~= m.frames.push(frame@));
            Step::Continue
        }
    }

    /// Closes the open upvalues that refer to slots at or above `base`.
    fn close_upvalues(&mut self, base: usize) -> (r: bool)
        ensures
            ({
                let (cells, open, ok) = close_upvalues(
                    old(self).model().cells,
                    old(self).model().open,
                    old(self).model().stack,
                    base as int,
                );
                &&& r == ok
                &&& final(self).model() == (Machine { cells, open, ..old(self).model() })
            }),
            final(self).strings() == old(self).strings(),
    {
        let ghost m = self.model();
        while self.agent.upvalues.len() > 0
            invariant
                m == old(self).model(),
                self.model() == (Machine { cells: self.model().cells, open: self.model().open, ..m }),
                close_upvalues(self.model().cells, self.model().open, m.stack, base as int)
                    == close_upvalues(m.cells, m.open, m.stack, base as int),
                self.strings() == old(self).strings(),
            decreases self.agent.upvalues@.len(),
        {
            let last = self.agent.upvalues.len() - 1;
            let h = self.agent.upvalues[last];
            assert(self.model().open.last() == h);
            assert(self.model().cells.len() == self.agent.upvalue_cells@.len());
            if h < self.agent.upvalue_cells.len() {
                assert(self.model().cells[h as int] == self.agent.upvalue_cells@[h as int]@);
            }
            if h >= self.agent.upvalue_cells.len() {
                return false;
            }
            let ghost cur = self.model();
            let i = match &self.agent.upvalue_cells[h] {
                Upvalue::Closed(_) => {
                    assert(cur.cells[h as int] is Closed);
                    assert(close_upvalues(cur.cells, cur.open, m.stack, base as int) == (cur.cells, cur.open, false));
                    return false;
                },
                Upvalue::Open(i) => *i,
            };
            assert(cur.cells[h as int] == UpvalueModel::Open(i));
            if i < base {
                assert(close_upvalues(cur.cells, cur.open, m.stack, base as int) == (cur.cells, cur.open, true));
                return true;
            }
            if i >= self.stack.len() {
                assert(close_upvalues(cur.cells, cur.open, m.stack, base as int) == (cur.cells, cur.open, false));
                return false;
            }
            let v = self.stack[i].duplicate();
            let ghost cells0 = self.model().cells;
            self.agent.upvalue_cells.set(h, Upvalue::Closed(v));
            self.agent.upvalues.pop();
            assert(self.model().cells =~= cells0.update(h as int, UpvalueModel::Closed(m.stack[i as int])));
        }
        true
    }

    /// A return with the value on top of the stack.
    fn ret(&mut self) -> (r: Step)
        ensures
            (final(self).model(), r@) == return_step(old(self).model()),
            final(self).strings() == old(self).strings(),
    {
        let n = self.stack.len();
        if n == 0 {
            return Step::Failed(VmError::StackUnderflow);
        }
        let fl = self.frames.len();
        if fl == 0 {
            return Step::Failed(VmError::InternalInvariant);
        }
        let nargs = self.frames[fl - 1].nargs;
        if self.bp < nargs || self.bp - nargs > n - 1 {
            return Step::Failed(VmError::InternalInvariant);
        }
        let base = self.bp - nargs;
        let ghost m = self.model();
        let retval = self.pop();
        if !self.close_upvalues(base) {
            self.push(retval);
            assert(self.model().stack =~= m.stack);
            return Step::Failed(VmError::InternalInvariant);
        }
        self.stack.truncate(base);
        self.stack.push(retval);
        let frame = self.frames.pop().unwrap();
        self.ip = frame.return_ip;
        self.bp = frame.saved_bp;
        assert(self.model().stack =~= m.stack.drop_last().subrange(0, base as int).push(m.stack.last()));
        assert(self.model().frames =~= m.frames.drop_last());
        Step::Continue
    }

    /// Executes the instruction at the instruction pointer.
    pub fn step(&mut self, code: &CodeObject) -> (r: Step)
        ensures
            (final(self).model(), r@) == step_spec(old(self).model(), code@),
            final(self).strings() == old(self).strings(),
    {
        if self.ip >= code.instructions.len() {
            return self.finish();
        }
        let (ins, next) = match decode(&code.instructions, self.ip) {
            Ok(p) => p,
            Err(e) => {
                return Step::Failed(e);
            },
        };
        self.ip = next;
        let n = self.stack.len();
        match ins {
            Instruction::Halt => self.finish(),
            Instruction::ConstInt(i) => {
                self.push(Value::Integer(i));
                Step::Continue
            },
            Instruction::ConstDouble(d) => {
                self.push(Value::Double(d));
                Step::Continue
            },
            Instruction::ConstNull => {
                self.push(Value::Null);
                Step::Continue
            },
            Instruction::ConstTrue => {
                self.push(Value::Boolean(true));
                Step::Continue
            },
            Instruction::ConstFalse => {
                self.push(Value::Boolean(false));
                Step::Continue
            },
            Instruction::ConstString(id) => {
                self.push(Value::String(#[verifier::truncate] (id as usize)));
                Step::Continue
            },
            Instruction::Add => self.binop(ArithOp::Add),
            Instruction::Sub => self.binop(ArithOp::Sub),
            Instruction::Mul => self.binop(ArithOp::Mul),
            Instruction::Div => self.binop(ArithOp::Div),
            Instruction::Mod => self.binop(ArithOp::Mod),
            Instruction::Exp => self.binop(ArithOp::Exp),
            Instruction::Jump(a) => {
                self.jump(#[verifier::truncate] (a as usize));
                Step::Continue
            },
            Instruction::JumpIfTrue(a) | Instruction::JumpIfFalse(a) => {
                if n == 0 {
                    return Step::Failed(VmError::StackUnderflow);
                }
                let cond = self.pop();
                let t = cond.is_truthy();
                let want = match ins {
                    Instruction::JumpIfTrue(_) => true,
                    _ => false,
                };
                if t == want {
                    self.jump(#[verifier::truncate] (a as usize));
                }
                Step::Continue
            },
            Instruction::Pop => {
                if n == 0 {
                    return Step::Failed(VmError::StackUnderflow);
                }
                self.pop();
                Step::Continue
            },
            Instruction::LoadLocal(s) => {
                let at = self.bp as u128 + s as u128;
                if at >= n as u128 {
                    return Step::Failed(VmError::InternalInvariant);
                }
                let v = self.stack[at as usize].duplicate();
                self.push(v);
                Step::Continue
            },
            Instruction::StoreLocal(s) => {
                if n == 0 {
                    return Step::Failed(VmError::StackUnderflow);
                }
                let at = self.bp as u128 + s as u128;
                if at >= n as u128 {
                    return Step::Failed(VmError::InternalInvariant);
                }
                let v = self.stack[n - 1].duplicate();
                let ghost m = self.model();
                self.stack.set(at as usize, v);
                assert(self.model().stack =~= m.stack.update(at as int, m.stack.last()));
                Step::Continue
            },
            Instruction::LoadGlobal(id) => {
                let key: usize = #[verifier::truncate] (id as usize);
                match self.global.get(&key) {
                    Some(v) => {
                        let v = v.duplicate();
                        self.push(v);
                        Step::Continue
                    },
                    None => Step::Failed(VmError::Reference),
                }
            },
            Instruction::StoreGlobal(id) => {
                let key: usize = #[verifier::truncate] (id as usize);
                if !self.global.contains_key(&key) {
                    return Step::Failed(VmError::Reference);
                }
                if n == 0 {
                    return Step::Failed(VmError::StackUnderflow);
                }
                let ghost m = self.model();
                let v = self.pop();
                self.global.insert(key, v);
                assert(self.model().globals =~= m.globals.insert(key, m.stack.last()));
                Step::Continue
            },
            Instruction::DeclareGlobal(id) => {
                let key: usize = #[verifier::truncate] (id as usize);
                if !self.global.contains_key(&key) {
                    let ghost m = self.model();
                    self.global.insert(key, Value::Null);
                    assert(self.model().globals =~= m.globals.insert(key, ValueModel::Null));
                }
                Step::Continue
            },
            Instruction::NewFunction(arity, address) => {
                let f = FunctionValue::User {
                    name: None,
                    address: #[verifier::truncate] (address as usize),
                    arity: #[verifier::truncate] (arity as usize),
                    upvalues: Vec::new(),
                };
                assert(f@ == FunctionModel::User {
                    name: None,
                    address: address as usize,
                    arity: arity as usize,
                    upvalues: Seq::empty(),
                });
                self.push(Value::Function(f));
                Step::Continue
            },
            Instruction::BindLocal(s) => self.bind_new(self.bp as i128 + s as i128),
            Instruction::BindArgument(s) => {
                let fl = self.frames.len();
                if fl == 0 {
                    return Step::Failed(VmError::InternalInvariant);
                }
                let nargs = self.frames[fl - 1].nargs;
                self.bind_new(self.bp as i128 - nargs as i128 + s as i128)
            },
            Instruction::BindUpvalue(k) => {
                if n == 0 {
                    return Step::Failed(VmError::StackUnderflow);
                }
                match &self.stack[n - 1] {
                    Value::Function(FunctionValue::User { .. }) => {},
                    _ => {
                        return Step::Failed(VmError::Type);
                    },
                }
                let fl = self.frames.len();
                if fl == 0 {
                    return Step::Failed(VmError::InternalInvariant);
                }
                if k >= self.frames[fl - 1].upvalues.len() as u64 {
                    return Step::Failed(VmError::InternalInvariant);
                }
                let h = self.frames[fl - 1].upvalues[k as usize];
                self.rebind(h);
                Step::Continue
            },
            Instruction::LoadArgument(s) => {
                let fl = self.frames.len();
                if fl == 0 {
                    return Step::Failed(VmError::InternalInvariant);
                }
                let at = self.bp as i128 - self.frames[fl - 1].nargs as i128 + s as i128;
                if at >= n as i128 || at < 0 {
                    return Step::Failed(VmError::InternalInvariant);
                }
                let v = self.stack[at as usize].duplicate();
                self.push(v);
                Step::Continue
            },
            Instruction::LoadUpvalue(k) => {
                let fl = self.frames.len();
                if fl == 0 {
                    return Step::Failed(VmError::InternalInvariant);
                }
                if k >= self.frames[fl - 1].upvalues.len() as u64 {
                    return Step::Failed(VmError::InternalInvariant);
                }
                let h = self.frames[fl - 1].upvalues[k as usize];
                match self.read_upvalue(h) {
                    Some(v) => {
                        self.push(v);
                        Step::Continue
                    },
                    None => Step::Failed(VmError::InternalInvariant),
                }
            },
            Instruction::Call(nargs) => self.call(nargs),
            Instruction::Return => self.ret(),
        }
    }

    /// Runs at most `fuel` instructions, until one finishes, fails or needs the
    /// embedder.
    pub fn run(&mut self, code: &CodeObject, fuel: u64) -> (r: Step)
        ensures
            (final(self).model(), r@) == run_spec(old(self).model(), code@, fuel as nat),
            final(self).strings() == old(self).strings(),
    {
        let mut left = fuel;
        while left > 0
            invariant
                run_spec(self.model(), code@, left as nat) == run_spec(old(self).model(), code@, fuel as nat),
                self.strings() == old(self).strings(),
            decreases left,
        {
            let r = self.step(code);
            left = left - 1;
            match r {
                Step::Continue => {},
                _ => {
                    return r;
                },
            }
        }
        Step::Continue
    }

    /// Runs the code from the instruction pointer until it finishes, fails or
    /// needs the embedder: a double operation or a host function. After
    /// pushing what the embedder computed, call again to go on. Continue comes
    /// out only after 2^64 - 1 instructions.
    pub fn evaluate(&mut self, code: &CodeObject) -> (r: Step)
        ensures
            (final(self).model(), r@) == run_spec(old(self).model(), code@, u64::MAX as nat),
            final(self).strings() == old(self).strings(),
    {
        self.run(code, u64::MAX)
    }

    /// The number of values on the stack.
    pub fn stack_depth(&self) -> (r: usize)
        ensures
            r == self.model().stack.len(),
    {
        self.stack.len()
    }

    /// The value bound to global `id`, if it is declared.
    pub fn global(&self, id: usize) -> (r: Option<Value>)
        ensures
            match r {
                Some(v) => self.model().globals.contains_key(id) && v@ == self.model().globals[id],
                None => !self.model().globals.contains_key(id),
            },
    {
        match self.global.get(&id) {
            Some(v) => Some(v.duplicate()),
            None => None,
        }
    }

    /// The value read through upvalue `h`; `None` for a handle that does not
    /// exist or an open upvalue whose slot is gone.
    pub fn read_upvalue(&self, h: usize) -> (r: Option<Value>)
        ensures
            match r {
                Some(v) => upvalue_valid(self.model(), h as int) && v@ == upvalue_read(self.model(), h as int),
                None => !upvalue_valid(self.model(), h as int),
            },
    {
        if h >= self.agent.upvalue_cells.len() {
            return None;
        }
        assert(self.model().cells[h as int] == self.agent.upvalue_cells@[h as int]@);
        match &self.agent.upvalue_cells[h] {
            Upvalue::Open(i) => {
                if *i < self.stack.len() {
                    Some(self.stack[*i].duplicate())
                } else {
                    None
                }
            },
            Upvalue::Closed(v) => Some(v.duplicate()),
        }
    }

    /// Writes `v` through upvalue `h`: into the stack slot while it is open,
    /// into the cell once closed. Returns whether the handle was valid; the
    /// machine is unchanged otherwise.
    pub fn write_upvalue(&mut self, h: usize, v: Value) -> (r: bool)
        ensures
            r == upvalue_valid(old(self).model(), h as int),
            r ==> final(self).model() == upvalue_write(old(self).model(), h as int, v@),
            !r ==> final(self).model() == old(self).model(),
            final(self).strings() == old(self).strings(),
    {
        if h >= self.agent.upvalue_cells.len() {
            return false;
        }
        let ghost m = self.model();
        assert(m.cells[h as int] == self.agent.upvalue_cells@[h as int]@);
        let slot = match &self.agent.upvalue_cells[h] {
            Upvalue::Open(i) => Some(*i),
            Upvalue::Closed(_) => None,
        };
        match slot {
            Some(i) => {
                if i >= self.stack.len() {
                    return false;
                }
                self.stack.set(i, v);
                assert(self.model().stack =~= m.stack.update(i as int, v@));
            },
            None => {
                self.agent.upvalue_cells.set(h, Upvalue::Closed(v));
                assert(self.model().cells =~= m.cells.update(h as int, UpvalueModel::Closed(v@)));
            },
        }
        true
    }

    /// Gives back the agent.
    pub fn into_agent(self) -> (r: Agent)
        ensures
            r.strings() == self.strings(),
            r.upvalues@ == self.model().open,
            r.upvalue_cells@.map_values(|u: Upvalue| u@) == self.model().cells,
    {
        self.agent
    }

    /// Sets the instruction pointer.
    fn jump(&mut self, to: usize)
        ensures
            final(self).model() == (Machine { ip: to, ..old(self).model() }),
            final(self).strings() == old(self).strings(),
    {
        self.ip = to;
    }
}

} // verus!
