use vstd::prelude::*;
use crate::ast::{Expression, ExpressionKind, Statement, StatementKind};
use crate::bytecode::{le_bytes, Bytecode, Patch};
use crate::error::VmError;
use crate::lowering::{
    args_frame, bind_code, bind_op, capture, capture_frames, declare_bytes, declare_local, frame_of, frames_of,
    lemma_count_all, lemma_lookup_frames, literal_code, load_op, lower_expr, lower_list, lower_name, lower_stmt,
    op_bytes,
};
use crate::opcode::{byte_of, OpCode};
use crate::scope::{
    binds, chain_ok, count_of, extends, find_frame, last_named, lemma_chain_push, lemma_extends_refl,
    lemma_extends_trans, lemma_last_named, lemma_lookup, lookup, Binding, BindingType, Scope,
};

verus! {

broadcast use vstd::std_specs::vec::group_vec_axioms;

/// The labels of the loop being compiled.
pub enum LoopState {
    While { start_label: usize, end_label: usize },
    For { start_label: usize, end_label: usize, increment_label: usize },
}

/// The labels of the function being compiled. The names it refers to in
/// enclosing functions are the Upvalue bindings of its frame, in order of
/// first reference.
pub struct FunctionState {
    pub start_label: usize,
    pub end_label: usize,
}

impl FunctionState {
    pub fn new(start_label: usize, end_label: usize) -> (r: FunctionState)
        ensures
            r.start_label == start_label,
            r.end_label == end_label,
    {
        FunctionState { start_label, end_label }
    }
}

/// Where the compiler stands: at top level or in a function, and the chain of
/// lexical frames, innermost last.
pub struct CompilerState {
    pub is_global: bool,
    pub loop_state: Option<LoopState>,
    pub function_state: Option<FunctionState>,
    pub scopes: Vec<Scope>,
}

impl CompilerState {
    /// A top-level state over the given frame, if any.
    pub fn new(scope: Option<Scope>) -> (r: CompilerState)
        ensures
            r.is_global,
            r.loop_state is None,
            r.function_state is None,
            r.scopes@ == (match scope {
                Some(s) => seq![s],
                None => Seq::<Scope>::empty(),
            }),
    {
        let mut scopes: Vec<Scope> = Vec::new();
        match scope {
            Some(s) => scopes.push(s),
            None => {},
        }
        assert(scopes@ =~= (match scope {
            Some(s) => seq![s],
            None => Seq::<Scope>::empty(),
        }));
        CompilerState { is_global: true, loop_state: None, function_state: None, scopes }
    }

    /// Every frame keeps its counters, and there is no frame at top level.
    pub open spec fn wf(&self) -> bool {
        &&& forall|i: int| 0 <= i < self.scopes@.len() ==> (#[trigger] self.scopes@[i]).wf()
        &&& self.is_global ==> self.scopes@.len() == 0
    }
}

/// The statements the compiler lowers: `let` of an identifier, expression
/// statements, and function declarations whose name and parameters are
/// identifiers and whose body holds only such statements.
pub open spec fn supported(s: Statement) -> bool
    decreases s,
{
    match s.value {
        StatementKind::Let { name, .. } => name.value is Identifier,
        StatementKind::Expression(_) => true,
        StatementKind::Function { name, parameters, body } => {
            &&& name.value is Identifier
            &&& forall|i: int| 0 <= i < parameters@.len() ==> (#[trigger] parameters@[i]).value is Identifier
            &&& forall|i: int| 0 <= i < body@.len() ==> supported(#[trigger] body@[i])
        },
        _ => false,
    }
}

/// `new` follows `old`: the code, the labels and the sites only grow, and
/// every site added refers to a label allocated since.
pub open spec fn grows(old: Bytecode, new: Bytecode) -> bool {
    &&& new.wf()
    &&& old.code().len() <= new.code().len()
    &&& new.code().subrange(0, old.code().len() as int) == old.code()
    &&& old.label_targets().len() <= new.label_targets().len()
    &&& new.label_targets().subrange(0, old.label_targets().len() as int) == old.label_targets()
    &&& old.sites().len() <= new.sites().len()
    &&& new.sites().subrange(0, old.sites().len() as int) == old.sites()
    &&& forall|k: int|
        old.sites().len() <= k < new.sites().len() ==> (#[trigger] new.sites()[k]).label >= old.label_targets().len()
}

/// Every site from `k0` on refers to a marked label and already holds its target.
pub open spec fn settled_from(b: Bytecode, k0: int) -> bool {
    forall|k: int|
        k0 <= k < b.sites().len() ==> (#[trigger] b.label_targets()[b.sites()[k].label as int]) is Some
            && b.code().subrange(b.sites()[k].position as int, b.sites()[k].position + 8) == le_bytes(
            b.label_targets()[b.sites()[k].label as int].unwrap() as u64,
        )
}

/// What lowering keeps of the compiler state: its flags, well-formed frames
/// that only gain bindings, and a sound chain of captures.
pub open spec fn state_after(old: CompilerState, new: CompilerState) -> bool {
    &&& new.wf()
    &&& new.is_global == old.is_global
    &&& new.loop_state == old.loop_state
    &&& new.function_state == old.function_state
    &&& chain_ok(new.scopes@)
    &&& extends(old.scopes@, new.scopes@)
}

/// Lowers parsed statements to bytecode.
pub struct Compiler {
    bytecode: Bytecode,
}

proof fn lemma_grows_refl(b: Bytecode)
    requires
        b.wf(),
    ensures
        grows(b, b),
{
    assert(b.code().subrange(0, b.code().len() as int) =~= b.code());
    assert(b.label_targets().subrange(0, b.label_targets().len() as int) =~= b.label_targets());
    assert(b.sites().subrange(0, b.sites().len() as int) =~= b.sites());
}

proof fn lemma_grows_trans(a: Bytecode, b: Bytecode, c: Bytecode)
    requires
        grows(a, b),
        grows(b, c),
    ensures
        grows(a, c),
{
    assert(c.code().subrange(0, a.code().len() as int) =~= c.code().subrange(0, b.code().len() as int).subrange(0, a.code().len() as int));
    assert(c.label_targets().subrange(0, a.label_targets().len() as int) =~= c.label_targets().subrange(0, b.label_targets().len() as int).subrange(0, a.label_targets().len() as int));
    assert(c.sites().subrange(0, a.sites().len() as int) =~= c.sites().subrange(0, b.sites().len() as int).subrange(0, a.sites().len() as int));
    b.lemma_wf();
    assert forall|k: int| a.sites().len() <= k < c.sites().len() implies (#[trigger] c.sites()[k]).label >= a.label_targets().len() by {
        if k < b.sites().len() {
            assert(c.sites()[k] == c.sites().subrange(0, b.sites().len() as int)[k]);
        }
    }
}

/// Appending code alone is growth, and keeps settled sites settled.
proof fn lemma_grows_step(b0: Bytecode, b1: Bytecode, extra: Seq<u8>)
    requires
        b0.wf(),
        b1.wf(),
        b1.code() == b0.code() + extra,
        b1.label_targets() == b0.label_targets(),
        b1.sites() == b0.sites(),
    ensures
        grows(b0, b1),
        settled_from(b1, b0.sites().len() as int),
{
    assert(b1.code().subrange(0, b0.code().len() as int) =~= b0.code());
    assert(b1.label_targets().subrange(0, b0.label_targets().len() as int) =~= b0.label_targets());
    assert(b1.sites().subrange(0, b0.sites().len() as int) =~= b0.sites());
}

/// Sites settled before and after a growth stay settled.
proof fn lemma_settled_grows(a: Bytecode, b: Bytecode, k0: int)
    requires
        a.wf(),
        grows(a, b),
        settled_from(a, k0),
        settled_from(b, a.sites().len() as int),
        0 <= k0,
    ensures
        settled_from(b, k0),
{
    a.lemma_wf();
    let n = a.code().len() as int;
    assert forall|k: int| k0 <= k < b.sites().len() implies (#[trigger] b.label_targets()[b.sites()[k].label as int]) is Some
        && b.code().subrange(b.sites()[k].position as int, b.sites()[k].position + 8) == le_bytes(
        b.label_targets()[b.sites()[k].label as int].unwrap() as u64) by {
        if k < a.sites().len() {
            assert(b.sites()[k] == b.sites().subrange(0, a.sites().len() as int)[k]);
            let l = a.sites()[k].label as int;
            assert(b.label_targets()[l] == b.label_targets().subrange(0, a.label_targets().len() as int)[l]);
            let pos = a.sites()[k].position as int;
            assert(b.code().subrange(pos, pos + 8) =~= b.code().subrange(0, n).subrange(pos, pos + 8));
            assert(a.label_targets()[a.sites()[k].label as int] is Some);
        }
    }
}

/// Once every site holds its target, resolving the addresses changes nothing.
proof fn lemma_settled_final(b: Bytecode, c: Seq<u8>)
    requires
        b.wf(),
        b.resolves_to(c),
        settled_from(b, 0),
    ensures
        c == b.code(),
{
    b.lemma_wf();
    assert forall|i: int| 0 <= i < c.len() implies c[i] == b.code()[i] by {
        if crate::bytecode::in_site(b.sites(), i) {
            let k = choose|k: int| 0 <= k < b.sites().len() && #[trigger] b.sites()[k].position <= i < b.sites()[k].position + 8;
            let pos = b.sites()[k].position as int;
            assert(c.subrange(pos, pos + 8)[i - pos] == c[i]);
            assert(b.code().subrange(pos, pos + 8)[i - pos] == b.code()[i]);
        }
    }
    assert(c =~= b.code());
}

/// `b1` and `st1` follow `b0` and `st0` by one lowering step: the code gains
/// exactly `lowering.0`, the chain of frames becomes `lowering.1`, and every
/// address site added already holds its target.
pub open spec fn lowered(
    b0: Bytecode,
    b1: Bytecode,
    st0: CompilerState,
    st1: CompilerState,
    lowering: (Seq<u8>, Seq<Seq<Binding>>),
) -> bool {
    &&& grows(b0, b1)
    &&& settled_from(b1, b0.sites().len() as int)
    &&& b1.code() == b0.code() + lowering.0
    &&& frames_of(st1.scopes@) == lowering.1
    &&& state_after(st0, st1)
}

impl Compiler {
    pub closed spec fn builder(&self) -> Bytecode {
        self.bytecode
    }

    pub fn new() -> (r: Compiler)
        ensures
            r.builder().wf(),
            r.builder().code() == Seq::<u8>::empty(),
            r.builder().label_targets() == Seq::<Option<usize>>::empty(),
            r.builder().sites() == Seq::<Patch>::empty(),
    {
        Compiler { bytecode: Bytecode::new() }
    }

    /// Emits the load of `name` (see `lower_name`): a global at top level or
    /// when no frame declares it; by kind and slot when the innermost frame
    /// declares it; otherwise it becomes an Upvalue binding of every frame
    /// inside the declaring one and is loaded as the innermost one's upvalue.
    fn compile_identifier(&mut self, state: &mut CompilerState, name: usize)
        requires
            old(self).builder().wf(),
            old(state).wf(),
            chain_ok(old(state).scopes@),
        ensures
            lowered(
                old(self).builder(),
                final(self).builder(),
                *old(state),
                *final(state),
                lower_name(old(state).is_global, frames_of(old(state).scopes@), name),
            ),
            final(self).builder().sites() == old(self).builder().sites(),
            final(self).builder().label_targets() == old(self).builder().label_targets(),
    {
        let ghost s0 = state.scopes@;
        let ghost b0 = self.bytecode;
        proof {
            lemma_extends_refl(s0);
            lemma_lookup(s0, name);
            lemma_lookup_frames(s0, name);
        }
        let n = state.scopes.len();
        let found = if state.is_global {
            None
        } else {
            find_frame(&state.scopes, name)
        };
        let f = match found {
            None => {
                self.bytecode.op_u64(OpCode::LoadGlobal, name as u64);
                proof {
                    assert(self.bytecode.code() =~= b0.code() + op_bytes(OpCode::LoadGlobal, name as u64));
                    lemma_grows_step(b0, self.bytecode, op_bytes(OpCode::LoadGlobal, name as u64));
                }
                return;
            },
            Some(f) => f,
        };
        if f + 1 < n {
            let mut j = f + 1;
            while j < n
                invariant
                    f + 1 <= j <= n,
                    f < n,
                    n == s0.len(),
                    lookup(s0, name) == Some(f as int),
                    forall|t: int| f < t < s0.len() ==> !binds(#[trigger] s0[t], name),
                    state.scopes@.len() == n,
                    state.wf(),
                    chain_ok(state.scopes@),
                    extends(s0, state.scopes@),
                    binds(state.scopes@[j - 1], name),
                    forall|t: int| j <= t < n ==> #[trigger] state.scopes@[t] == s0[t],
                    forall|t: int| 0 <= t <= f ==> #[trigger] state.scopes@[t] == s0[t],
                    forall|t: int| f < t < j ==> (#[trigger] state.scopes@[t]).entries() == s0[t].entries().push(capture(s0[t].entries(), name)),
                    state.is_global == old(state).is_global,
                    state.loop_state == old(state).loop_state,
                    state.function_state == old(state).function_state,
                decreases n - j,
            {
                let ghost cur = state.scopes@;
                let mut sc = state.scopes.remove(j);
                assert(sc == s0[j as int]);
                assert(sc.wf());
                sc.push_binding(BindingType::Upvalue, name);
                let ghost sc2 = sc;
                state.scopes.insert(j, sc);
                assert(state.scopes@ =~= cur.update(j as int, sc2));
                proof {
                    lemma_chain_push(cur, j as int, sc2, capture(s0[j as int].entries(), name));
                    assert(sc2.entries().subrange(0, s0[j as int].entries().len() as int) =~= s0[j as int].entries());
                    lemma_last_named(sc2.entries(), name);
                    assert(sc2.entries().last().name == name);
                    assert forall|i: int| 0 <= i < state.scopes@.len() implies (#[trigger] state.scopes@[i]).wf() by {
                        if i != j {
                            assert(state.scopes@[i] == cur[i]);
                        }
                    }
                    assert(extends(s0, state.scopes@)) by {
                        assert forall|i: int| 0 <= i < state.scopes@.len() implies (#[trigger] state.scopes@[i]).wf()
                            && s0[i].entries().len() <= state.scopes@[i].entries().len()
                            && state.scopes@[i].entries().subrange(0, s0[i].entries().len() as int) == s0[i].entries() by {
                            if i != j {
                                assert(state.scopes@[i] == cur[i]);
                            }
                        }
                    }
                }
                j = j + 1;
            }
            proof {
                assert(frames_of(state.scopes@) =~= capture_frames(frames_of(s0), f as int, name));
            }
        }
        let b = match state.scopes[n - 1].get_binding(name) {
            Some(b) => b,
            None => {
                proof {
                    if f + 1 == n {
                    } else {
                        lemma_last_named(state.scopes@[n - 1].entries(), name);
                        assert(state.scopes@[n - 1].entries().last().name == name);
                    }
                }
                return;
            },
        };
        let op = match b.typ {
            BindingType::Local => OpCode::LoadLocal,
            BindingType::Argument => OpCode::LoadArgument,
            BindingType::Upvalue => OpCode::LoadUpvalue,
        };
        self.bytecode.op_u64(op, b.index as u64);
        proof {
            assert(self.bytecode.code() =~= b0.code() + op_bytes(op, b.index as u64));
            lemma_grows_step(b0, self.bytecode, op_bytes(op, b.index as u64));
            if f + 1 < n {
                lemma_last_named(state.scopes@[n - 1].entries(), name);
            }
        }
    }

    /// Emits the constant of a literal expression; false, with nothing
    /// emitted, for an identifier.
    fn compile_literal(&mut self, e: &Expression) -> (r: bool)
        requires
            old(self).builder().wf(),
        ensures
            final(self).builder().wf(),
            r == literal_code(*e) is Some,
            r ==> final(self).builder().code() == old(self).builder().code() + literal_code(*e).unwrap(),
            !r ==> final(self).builder().code() == old(self).builder().code(),
            final(self).builder().label_targets() == old(self).builder().label_targets(),
            final(self).builder().sites() == old(self).builder().sites(),
    {
        let ghost b0 = self.bytecode;
        match e.value {
            ExpressionKind::Null => self.bytecode.op(OpCode::ConstNull),
            ExpressionKind::Boolean(b) => if b {
                self.bytecode.op(OpCode::ConstTrue)
            } else {
                self.bytecode.op(OpCode::ConstFalse)
            },
            ExpressionKind::Integer(i) => self.bytecode.op_u64(OpCode::ConstInt, #[verifier::truncate] (i as u64)),
            ExpressionKind::String(id) => self.bytecode.op_u64(OpCode::ConstString, id as u64),
            ExpressionKind::Identifier(_) => {
                return false;
            },
        }
        assert(self.bytecode.code() =~= b0.code() + literal_code(*e).unwrap());
        true
    }

    /// Emits the value of an expression: its constant, or the load of a name.
    fn compile_expression(&mut self, state: &mut CompilerState, e: &Expression)
        requires
            old(self).builder().wf(),
            old(state).wf(),
            chain_ok(old(state).scopes@),
        ensures
            lowered(
                old(self).builder(),
                final(self).builder(),
                *old(state),
                *final(state),
                lower_expr(old(state).is_global, frames_of(old(state).scopes@), *e),
            ),
            final(self).builder().sites() == old(self).builder().sites(),
            final(self).builder().label_targets() == old(self).builder().label_targets(),
    {
        proof {
            lemma_extends_refl(state.scopes@);
        }
        match e.value {
            ExpressionKind::Identifier(name) => self.compile_identifier(state, name),
            _ => {
                let ghost b0 = self.bytecode;
                self.compile_literal(e);
                proof {
                    lemma_grows_step(b0, self.bytecode, literal_code(*e).unwrap());
                }
            },
        }
    }
}


impl Compiler {
    /// Lowers one statement (see `lower_stmt`).
    fn compile_statement(&mut self, state: &mut CompilerState, statement: &Statement) -> (r: Result<(), VmError>)
        requires
            old(self).builder().wf(),
            old(state).wf(),
            chain_ok(old(state).scopes@),
        ensures
            final(self).builder().wf(),
            final(state).wf(),
            final(state).is_global == old(state).is_global,
            final(state).function_state == old(state).function_state,
            final(state).loop_state == old(state).loop_state,
            final(state).scopes@.len() == old(state).scopes@.len(),
            r is Ok <==> supported(*statement) && (old(state).is_global || old(state).scopes@.len() > 0),
            r is Err ==> r == Err::<(), VmError>(VmError::Compile),
            r is Ok ==> lowered(
                old(self).builder(),
                final(self).builder(),
                *old(state),
                *final(state),
                lower_stmt(old(state).is_global, frames_of(old(state).scopes@), *statement, old(self).builder().code().len() as int),
            ),
        decreases statement, 1nat,
    {
        match &statement.value {
            StatementKind::Let { .. } => self.compile_let_statement(state, statement),
            StatementKind::Function { .. } => self.compile_function_statement(state, statement),
            StatementKind::Expression(e) => {
                if !state.is_global && state.scopes.len() == 0 {
                    return Err(VmError::Compile);
                }
                let ghost b0 = self.bytecode;
                let ghost st0 = *state;
                self.compile_expression(state, e);
                let ghost b1 = self.bytecode;
                self.bytecode.op(OpCode::Pop);
                proof {
                    assert(self.bytecode.code() =~= b1.code() + seq![byte_of(OpCode::Pop)]);
                    lemma_grows_step(b1, self.bytecode, seq![byte_of(OpCode::Pop)]);
                    lemma_grows_trans(b0, b1, self.bytecode);
                    assert(self.bytecode.code() =~= b0.code() + lower_stmt(st0.is_global, frames_of(st0.scopes@), *statement, b0.code().len() as int).0);
                }
                Ok(())
            },
            _ => Err(VmError::Compile),
        }
    }

    /// Lowers `let name = value;`: the initializer (Null when there is none),
    /// then at top level `DeclareGlobal name; StoreGlobal name`, elsewhere a
    /// new Local binding of the innermost frame, whose slot the value occupies.
    fn compile_let_statement(&mut self, state: &mut CompilerState, statement: &Statement) -> (r: Result<(), VmError>)
        requires
            old(self).builder().wf(),
            old(state).wf(),
            chain_ok(old(state).scopes@),
            statement.value is Let,
        ensures
            final(self).builder().wf(),
            final(state).wf(),
            final(state).is_global == old(state).is_global,
            final(state).function_state == old(state).function_state,
            final(state).loop_state == old(state).loop_state,
            final(state).scopes@.len() == old(state).scopes@.len(),
            r is Ok <==> supported(*statement) && (old(state).is_global || old(state).scopes@.len() > 0),
            r is Err ==> r == Err::<(), VmError>(VmError::Compile),
            r is Err ==> *final(state) == *old(state) && final(self).builder() == old(self).builder(),
            r is Ok ==> lowered(
                old(self).builder(),
                final(self).builder(),
                *old(state),
                *final(state),
                lower_stmt(old(state).is_global, frames_of(old(state).scopes@), *statement, old(self).builder().code().len() as int),
            ),
    {
        let (name, value) = match &statement.value {
            StatementKind::Let { name, value } => (name, value),
            _ => {
                return Err(VmError::Compile);
            },
        };
        let id = match name.value {
            ExpressionKind::Identifier(id) => id,
            _ => {
                return Err(VmError::Compile);
            },
        };
        if !state.is_global && state.scopes.len() == 0 {
            return Err(VmError::Compile);
        }
        let ghost b0 = self.bytecode;
        let ghost s0 = *state;
        match value {
            Some(e) => self.compile_expression(state, e),
            None => {
                self.bytecode.op(OpCode::ConstNull);
                proof {
                    assert(self.bytecode.code() =~= b0.code() + seq![byte_of(OpCode::ConstNull)]);
                    lemma_grows_step(b0, self.bytecode, seq![byte_of(OpCode::ConstNull)]);
                    lemma_extends_refl(state.scopes@);
                }
            },
        }
        let ghost b_init = self.bytecode;
        let ghost s_init = *state;
        if state.is_global {
            self.bytecode.op_u64(OpCode::DeclareGlobal, id as u64);
            self.bytecode.op_u64(OpCode::StoreGlobal, id as u64);
            proof {
                assert(self.bytecode.code() =~= b_init.code() + declare_bytes(id));
                lemma_grows_step(b_init, self.bytecode, declare_bytes(id));
                lemma_grows_trans(b0, b_init, self.bytecode);
                lemma_settled_grows(b_init, self.bytecode, b0.sites().len() as int);
                assert(self.bytecode.code() =~= b0.code() + (b_init.code().subrange(b0.code().len() as int, b_init.code().len() as int) + declare_bytes(id)));
            }
        } else {
            let ghost scopes0 = state.scopes@;
            let n = state.scopes.len();
            let mut scope = state.scopes.pop().unwrap();
            assert(scope == scopes0[n - 1]);
            scope.push_binding(BindingType::Local, id);
            let ghost sc2 = scope;
            state.scopes.push(scope);
            proof {
                assert(state.scopes@ =~= scopes0.update(n - 1, sc2));
                lemma_chain_push(scopes0, n - 1, sc2, sc2.entries().last());
                assert forall|i: int| 0 <= i < state.scopes@.len() implies (#[trigger] state.scopes@[i]).wf() by {
                    if i < n - 1 {
                        assert(state.scopes@[i] == scopes0[i]);
                    }
                }
                assert(extends(scopes0, state.scopes@)) by {
                    assert forall|i: int| 0 <= i < state.scopes@.len() implies (#[trigger] state.scopes@[i]).wf()
                        && scopes0[i].entries().len() <= state.scopes@[i].entries().len()
                        && state.scopes@[i].entries().subrange(0, scopes0[i].entries().len() as int)
                        == scopes0[i].entries() by {
                        if i < n - 1 {
                            assert(state.scopes@[i] == scopes0[i]);
                        } else {
                            assert(sc2.entries().subrange(0, scopes0[i].entries().len() as int) =~= scopes0[i].entries());
                        }
                    }
                }
                lemma_extends_trans(s0.scopes@, scopes0, state.scopes@);
                assert(frames_of(state.scopes@) =~= declare_local(frames_of(scopes0), id));
            }
        }
        proof {
            let lw = lower_stmt(s0.is_global, frames_of(s0.scopes@), *statement, b0.code().len() as int);
            assert(self.bytecode.code() =~= b0.code() + lw.0);
            assert(frames_of(state.scopes@) == lw.1);
            assert(grows(b0, self.bytecode));
            assert(settled_from(self.bytecode, b0.sites().len() as int));
            assert(state_after(s0, *state));
        }
        Ok(())
    }
}


impl Compiler {
    /// Emits `NewFunction arity start; <declaration>; Jump end` with two fresh
    /// labels, marks `start` right after and writes its address. Gives the two
    /// labels and the index of the first of the two address sites.
    fn emit_function_header(&mut self, arity: usize, global: bool, id: usize) -> (r: (usize, usize, usize))
        requires
            old(self).builder().wf(),
        ensures
            final(self).builder().wf(),
            ({
                let b0 = old(self).builder();
                let b1 = final(self).builder();
                let p = b0.code().len() as int;
                let decl = if global { declare_bytes(id) } else { Seq::<u8>::empty() };
                let q = p + 17 + decl.len();
                &&& r.0 == b0.label_targets().len()
                &&& r.1 == b0.label_targets().len() + 1
                &&& r.2 == b0.sites().len()
                &&& b1.code().len() == q + 9
                &&& b1.code().subrange(0, q + 1) == b0.code() + op_bytes(OpCode::NewFunction, arity as u64) + le_bytes(
                    (q + 9) as u64,
                ) + decl + seq![byte_of(OpCode::Jump)]
                &&& b1.label_targets() == b0.label_targets().push(Some((q + 9) as usize)).push(None)
                &&& b1.sites() == b0.sites().push(Patch { label: r.0, position: (p + 9) as usize }).push(
                    Patch { label: r.1, position: (q + 1) as usize },
                )
            }),
    {
        let ghost b0 = self.bytecode;
        let ghost p = b0.code().len() as int;
        let ghost decl = if global { declare_bytes(id) } else { Seq::<u8>::empty() };
        let ghost q = p + 17 + decl.len();
        let start_label = self.bytecode.new_label();
        let end_label = self.bytecode.new_label();
        self.bytecode.op_u64(OpCode::NewFunction, arity as u64);
        let ghost b_new = self.bytecode;
        assert(b_new.code() =~= b0.code() + op_bytes(OpCode::NewFunction, arity as u64));
        let ns = self.bytecode.site_count();
        self.bytecode.address_of(start_label);
        let ghost b_addr = self.bytecode;
        if global {
            self.bytecode.op_u64(OpCode::DeclareGlobal, id as u64);
            self.bytecode.op_u64(OpCode::StoreGlobal, id as u64);
            assert(self.bytecode.code() =~= b_addr.code() + declare_bytes(id));
        }
        let ghost b_decl = self.bytecode;
        assert(b_decl.code().len() == q);
        assert(b_decl.code().subrange(0, p + 9) =~= b_new.code()) by {
            assert(b_decl.code().subrange(0, p + 9) =~= b_decl.code().subrange(0, p + 17).subrange(0, p + 9));
            assert(b_decl.code().subrange(0, p + 17) =~= b_addr.code());
            assert(b_addr.code().subrange(0, p + 9) =~= b_new.code());
        }
        assert(b_decl.code().subrange(p + 17, q) =~= decl);
        self.bytecode.op_label(OpCode::Jump, end_label);
        let ghost b_jump = self.bytecode;
        let marked = self.bytecode.mark_label(start_label);
        assert(marked is Ok);
        let ghost b_mark = self.bytecode;
        proof {
            b_jump.lemma_wf();
            assert(b_jump.code().len() == q + 9);
        }
        assert(b_mark.sites()[ns as int] == Patch { label: start_label, position: (p + 9) as usize });
        assert(b_mark.label_targets()[start_label as int] == Some((q + 9) as usize));
        assert(b_mark.code() == b_jump.code());
        self.bytecode.patch_site(ns);
        proof {
            let b1 = self.bytecode;
            assert(b1.code() == b_jump.code().subrange(0, p + 9) + le_bytes((q + 9) as u64) + b_jump.code().subrange(p + 17, q + 9));
            assert(b_jump.code().subrange(0, q + 1) =~= b_decl.code().push(byte_of(OpCode::Jump)));
            assert(b1.code().subrange(0, q + 1) =~= b0.code() + op_bytes(OpCode::NewFunction, arity as u64) + le_bytes(
                (q + 9) as u64,
            ) + decl + seq![byte_of(OpCode::Jump)]) by {
                assert(b1.code().subrange(0, p + 9) =~= b_jump.code().subrange(0, p + 9));
                assert(b_jump.code().subrange(0, p + 9) =~= b_decl.code().subrange(0, p + 9));
                assert(b1.code().subrange(p + 17, q + 1) =~= b_jump.code().subrange(p + 17, q + 1));
                assert(b_jump.code().subrange(p + 17, q + 1) =~= b_jump.code().subrange(0, q + 1).subrange(p + 17, q + 1));
                assert(b_decl.code().push(byte_of(OpCode::Jump)).subrange(p + 17, q + 1) =~= decl + seq![byte_of(OpCode::Jump)]);
            }
            assert(b1.label_targets() =~= b0.label_targets().push(Some((q + 9) as usize)).push(None));
            assert(b1.sites() =~= b0.sites().push(Patch { label: start_label, position: (p + 9) as usize }).push(
                Patch { label: end_label, position: (q + 1) as usize },
            ));
        }
        (start_label, end_label, ns)
    }

    /// Closes a body with `ConstNull; Return`, marks `end` right after and
    /// writes its address into site `k`.
    fn emit_function_close(&mut self, end: usize, k: usize)
        requires
            old(self).builder().wf(),
            k < old(self).builder().sites().len(),
            old(self).builder().sites()[k as int].label == end,
            end < old(self).builder().label_targets().len(),
            old(self).builder().label_targets()[end as int] is None,
        ensures
            final(self).builder().wf(),
            ({
                let b0 = old(self).builder();
                let c = b0.code() + seq![byte_of(OpCode::ConstNull), byte_of(OpCode::Return)];
                let e = c.len() as int;
                let pos = b0.sites()[k as int].position as int;
                &&& final(self).builder().code() == c.subrange(0, pos) + le_bytes(e as u64) + c.subrange(pos + 8, e)
                &&& final(self).builder().label_targets() == b0.label_targets().update(end as int, Some(e as usize))
                &&& final(self).builder().sites() == b0.sites()
            }),
    {
        let ghost b0 = self.bytecode;
        self.bytecode.op(OpCode::ConstNull);
        self.bytecode.op(OpCode::Return);
        assert(self.bytecode.code() =~= b0.code() + seq![byte_of(OpCode::ConstNull), byte_of(OpCode::Return)]);
        let ghost c = self.bytecode.code();
        let marked = self.bytecode.mark_label(end);
        assert(marked is Ok);
        proof {
            self.bytecode.lemma_wf();
        }
        assert(self.bytecode.label_targets()[end as int] == Some(c.len() as usize));
        assert(self.bytecode.sites()[k as int].label == end);
        self.bytecode.patch_site(k);
    }

    /// Emits the Bind* instructions for the captures of a closing function
    /// with frame `inner`, each naming the binding of the innermost frame of `outer`.
    fn emit_binds(&mut self, inner: &Scope, outer: &Vec<Scope>)
        requires
            old(self).builder().wf(),
            forall|k: int| 0 <= k < inner.entries().len() && (#[trigger] inner.entries()[k]).typ
                == BindingType::Upvalue ==> outer@.len() >= 1 && binds(outer@[outer@.len() - 1], inner.entries()[k].name),
        ensures
            final(self).builder().wf(),
            grows(old(self).builder(), final(self).builder()),
            final(self).builder().label_targets() == old(self).builder().label_targets(),
            final(self).builder().sites() == old(self).builder().sites(),
            final(self).builder().code() == old(self).builder().code() + if outer@.len() == 0 {
                Seq::<u8>::empty()
            } else {
                bind_code(inner.entries(), outer@[outer@.len() - 1].entries())
            },
    {
        let ghost b0 = self.bytecode;
        proof {
            lemma_grows_refl(b0);
        }
        let nf = outer.len();
        let ghost parent = if nf == 0 { Seq::<Binding>::empty() } else { outer@[nf - 1].entries() };
        let mut j: usize = 0;
        assert(inner.entries().subrange(0, 0) =~= Seq::<Binding>::empty());
        while j < inner.bindings_len()
            invariant
                nf == outer@.len(),
                nf > 0 ==> parent == outer@[nf - 1].entries(),
                forall|k: int| 0 <= k < inner.entries().len() && (#[trigger] inner.entries()[k]).typ
                    == BindingType::Upvalue ==> nf >= 1 && binds(outer@[nf - 1], inner.entries()[k].name),
                self.bytecode.wf(),
                grows(b0, self.bytecode),
                self.bytecode.label_targets() == b0.label_targets(),
                self.bytecode.sites() == b0.sites(),
                nf == 0 ==> self.bytecode == b0,
                nf > 0 ==> self.bytecode.code() == b0.code() + bind_code(inner.entries().subrange(0, j as int), parent),
                0 <= j <= inner.entries().len(),
            decreases inner.entries().len() - j,
        {
            let entry = inner.binding_at(j);
            proof {
                assert(inner.entries().subrange(0, j + 1).drop_last() =~= inner.entries().subrange(0, j as int));
            }
            if entry.typ == BindingType::Upvalue {
                match outer[nf - 1].get_binding(entry.name) {
                    Some(pb) => {
                        let op = match pb.typ {
                            BindingType::Local => OpCode::BindLocal,
                            BindingType::Argument => OpCode::BindArgument,
                            BindingType::Upvalue => OpCode::BindUpvalue,
                        };
                        let ghost bb = self.bytecode;
                        self.bytecode.op_u64(op, pb.index as u64);
                        proof {
                            assert(self.bytecode.code() =~= bb.code() + op_bytes(op, pb.index as u64));
                            lemma_grows_step(bb, self.bytecode, op_bytes(op, pb.index as u64));
                            lemma_grows_trans(b0, bb, self.bytecode);
                            assert(self.bytecode.code() =~= b0.code() + bind_code(inner.entries().subrange(0, j + 1), parent));
                        }
                    },
                    None => {
                        proof {
                            assert(binds(outer@[nf - 1], entry.name));
                        }
                    },
                }
            } else {
                proof {
                    if nf > 0 {
                        assert(self.bytecode.code() =~= b0.code() + bind_code(inner.entries().subrange(0, j + 1), parent));
                    }
                }
            }
            j = j + 1;
        }
        proof {
            assert(inner.entries().subrange(0, inner.entries().len() as int) =~= inner.entries());
            if nf == 0 {
                assert(self.bytecode.code() =~= b0.code() + Seq::<u8>::empty());
            }
        }
    }
}


impl Compiler {
    /// Lowers a function declaration (see `lower_stmt`):
    /// `NewFunction arity start; <declaration>; Jump end; start: <body>
    /// ConstNull; Return; end: <Bind* for each capture>`. The declaration is
    /// `DeclareGlobal name; StoreGlobal name` at top level and a Local binding
    /// elsewhere; the parameters become the Argument bindings of a new frame.
    /// `ConstNull; Return` closes every body: no statement lowers to a return,
    /// and a body may end in a nested function whose own Return would be last.
    /// Both addresses are written as soon as their labels are marked.
    #[verifier::rlimit(60)]
    fn compile_function_statement(&mut self, state: &mut CompilerState, statement: &Statement) -> (r: Result<(), VmError>)
        requires
            old(self).builder().wf(),
            old(state).wf(),
            chain_ok(old(state).scopes@),
            statement.value is Function,
        ensures
            final(self).builder().wf(),
            final(state).wf(),
            final(state).is_global == old(state).is_global,
            final(state).function_state == old(state).function_state,
            final(state).loop_state == old(state).loop_state,
            final(state).scopes@.len() == old(state).scopes@.len(),
            r is Ok <==> supported(*statement) && (old(state).is_global || old(state).scopes@.len() > 0),
            r is Err ==> r == Err::<(), VmError>(VmError::Compile),
            r is Ok ==> lowered(
                old(self).builder(),
                final(self).builder(),
                *old(state),
                *final(state),
                lower_stmt(old(state).is_global, frames_of(old(state).scopes@), *statement, old(self).builder().code().len() as int),
            ),
        decreases statement, 0nat,
    {
        let (name, parameters, body) = match &statement.value {
            StatementKind::Function { name, parameters, body } => (name, parameters, body),
            _ => {
                return Err(VmError::Compile);
            },
        };
        let id = match name.value {
            ExpressionKind::Identifier(id) => id,
            _ => {
                return Err(VmError::Compile);
            },
        };
        if !state.is_global && state.scopes.len() == 0 {
            return Err(VmError::Compile);
        }
        let mut inner_scope = Scope::new();
        let mut k: usize = 0;
        while k < parameters.len()
            invariant
                statement.value is Function,
                *parameters == statement.value->Function_parameters,
                inner_scope.wf(),
                inner_scope.entries().len() == k,
                forall|j: int| 0 <= j < k ==> (#[trigger] inner_scope.entries()[j]) == (Binding {
                    typ: BindingType::Argument,
                    name: parameters@[j].value->Identifier_0,
                    index: j as usize,
                }),
                *self == *old(self),
                *state == *old(state),
                self.bytecode.wf(),
                state.wf(),
                0 <= k <= parameters@.len(),
                forall|j: int| 0 <= j < k ==> (#[trigger] parameters@[j]).value is Identifier,
            decreases parameters@.len() - k,
        {
            match parameters[k].value {
                ExpressionKind::Identifier(pid) => {
                    proof {
                        lemma_count_all(inner_scope.entries(), BindingType::Argument);
                    }
                    inner_scope.push_binding(BindingType::Argument, pid);
                },
                _ => {
                    return Err(VmError::Compile);
                },
            }
            k = k + 1;
        }
        assert(inner_scope.entries() =~= args_frame(parameters@));
        let ghost b0 = self.bytecode;
        let ghost s0 = *state;
        let ghost p = b0.code().len() as int;
        let ghost decl = if s0.is_global { declare_bytes(id) } else { Seq::<u8>::empty() };
        let ghost q = p + 17 + decl.len();
        let (start_label, end_label, ns) = self.emit_function_header(parameters.len(), state.is_global, id);
        let ghost b_start = self.bytecode;
        let ghost start = q + 9;
        if !state.is_global {
            let ghost scopes0 = state.scopes@;
            let n = state.scopes.len();
            let mut scope = state.scopes.pop().unwrap();
            assert(scope == scopes0[n - 1]);
            scope.push_binding(BindingType::Local, id);
            let ghost sc2 = scope;
            state.scopes.push(scope);
            proof {
                assert(state.scopes@ =~= scopes0.update(n - 1, sc2));
                lemma_chain_push(scopes0, n - 1, sc2, sc2.entries().last());
                assert forall|i: int| 0 <= i < state.scopes@.len() implies (#[trigger] state.scopes@[i]).wf() by {
                    if i < n - 1 {
                        assert(state.scopes@[i] == scopes0[i]);
                    }
                }
                assert(extends(scopes0, state.scopes@)) by {
                    assert forall|i: int| 0 <= i < state.scopes@.len() implies (#[trigger] state.scopes@[i]).wf()
                        && scopes0[i].entries().len() <= state.scopes@[i].entries().len()
                        && state.scopes@[i].entries().subrange(0, scopes0[i].entries().len() as int)
                        == scopes0[i].entries() by {
                        if i < n - 1 {
                            assert(state.scopes@[i] == scopes0[i]);
                        } else {
                            assert(sc2.entries().subrange(0, scopes0[i].entries().len() as int) =~= scopes0[i].entries());
                        }
                    }
                }
                assert(frames_of(state.scopes@) =~= declare_local(frames_of(scopes0), id));
            }
        } else {
            proof {
                lemma_extends_refl(state.scopes@);
            }
        }
        let ghost outer = state.scopes@;
        let mut inner_state = CompilerState {
            is_global: false,
            loop_state: None,
            function_state: Some(FunctionState::new(start_label, end_label)),
            scopes: Vec::new(),
        };
        core::mem::swap(&mut inner_state.scopes, &mut state.scopes);
        inner_state.scopes.push(inner_scope);
        let ghost chain0 = inner_state.scopes@;
        let ghost total = lower_list(false, frames_of(chain0), body@, 0, start);
        proof {
            lemma_grows_refl(b_start);
            assert(chain0 =~= outer.push(inner_scope));
            assert(frames_of(chain0) =~= frames_of(outer).push(args_frame(parameters@)));
            assert forall|j: int, k: int|
                0 <= j < chain0.len() && 0 <= k < chain0[j].entries().len() && (#[trigger] chain0[j].entries()[k]).typ
                    == BindingType::Upvalue implies j >= 1 && binds(chain0[j - 1], chain0[j].entries()[k].name) by {
                if j < outer.len() {
                    assert(chain0[j] == outer[j]);
                    assert(chain0[j - 1] == outer[j - 1]);
                }
            }
            lemma_extends_refl(chain0);
        }
        let mut i: usize = 0;
        while i < body.len()
            invariant
                statement.value is Function,
                *body == statement.value->Function_body,
                inner_state.wf(),
                !inner_state.is_global,
                inner_state.scopes@.len() == outer.len() + 1,
                outer.len() == old(state).scopes@.len(),
                old(state).wf(),
                extends(chain0, inner_state.scopes@),
                chain_ok(inner_state.scopes@),
                inner_state.function_state is Some,
                inner_state.loop_state is None,
                state.scopes@.len() == 0,
                state.is_global == old(state).is_global,
                state.function_state == old(state).function_state,
                state.loop_state == old(state).loop_state,
                self.bytecode.wf(),
                grows(b_start, self.bytecode),
                settled_from(self.bytecode, ns + 2),
                0 <= i <= body@.len(),
                forall|j: int| 0 <= j < i ==> supported(#[trigger] body@[j]),
                self.bytecode.code() + lower_list(false, frames_of(inner_state.scopes@), body@, i as int, self.bytecode.code().len() as int).0
                    == b_start.code() + total.0,
                lower_list(false, frames_of(inner_state.scopes@), body@, i as int, self.bytecode.code().len() as int).1 == total.1,
            decreases body@.len() - i,
        {
            let ghost before = self.bytecode;
            let ghost scopes_before = inner_state.scopes@;
            proof {
                assert(decreases_to!(*body => body[i as int]));
            }
            match self.compile_statement(&mut inner_state, &body[i]) {
                Ok(()) => {},
                Err(e) => {
                    let ghost failed = inner_state.scopes@;
                    inner_state.scopes.pop();
                    core::mem::swap(&mut inner_state.scopes, &mut state.scopes);
                    proof {
                        assert(state.scopes@ =~= failed.drop_last());
                        assert forall|j: int| 0 <= j < state.scopes@.len() implies (#[trigger] state.scopes@[j]).wf() by {
                            assert(state.scopes@[j] == failed[j]);
                        }
                    }
                    return Err(e);
                },
            }
            proof {
                lemma_grows_trans(b_start, before, self.bytecode);
                lemma_extends_trans(chain0, scopes_before, inner_state.scopes@);
                lemma_settled_grows(before, self.bytecode, ns + 2);
                let c1 = lower_stmt(false, frames_of(scopes_before), body@[i as int], before.code().len() as int).0;
                let rest = lower_list(false, frames_of(inner_state.scopes@), body@, i + 1, self.bytecode.code().len() as int).0;
                assert(self.bytecode.code() + rest =~= before.code() + (c1 + rest));
            }
            i = i + 1;
        }
        let ghost b_body = self.bytecode;
        let ghost chain = frames_of(inner_state.scopes@);
        let ghost bc = total.0;
        proof {
            b_body.lemma_wf();
            assert(b_body.code() =~= b_start.code() + bc);
            assert(b_body.sites().subrange(0, b_start.sites().len() as int)[ns + 1] == b_start.sites()[ns + 1]);
            assert(b_body.label_targets().subrange(0, b_start.label_targets().len() as int)[end_label as int]
                == b_start.label_targets()[end_label as int]);
        }
        self.emit_function_close(end_label, ns + 1);
        let ghost b_end = self.bytecode;
        let ghost e = b_body.code().len() + 2;
        let ghost inner_end = inner_state.scopes@;
        let inner_frame = inner_state.scopes.pop().unwrap();
        core::mem::swap(&mut inner_state.scopes, &mut state.scopes);
        let ghost final_chain = state.scopes@;
        proof {
            assert(final_chain.push(inner_frame) =~= inner_end);
            assert(chain =~= frames_of(final_chain).push(inner_frame.entries()));
            assert(extends(outer, final_chain)) by {
                assert forall|i: int| 0 <= i < final_chain.len() implies (#[trigger] final_chain[i]).wf()
                    && outer[i].entries().len() <= final_chain[i].entries().len()
                    && final_chain[i].entries().subrange(0, outer[i].entries().len() as int) == outer[i].entries() by {
                    assert(chain0[i] == outer[i]);
                    assert(inner_end[i] == final_chain[i]);
                }
            }
            assert(chain_ok(final_chain)) by {
                assert forall|j: int, k: int|
                    0 <= j < final_chain.len() && 0 <= k < final_chain[j].entries().len() && (#[trigger] final_chain[j].entries()[k]).typ
                        == BindingType::Upvalue implies j >= 1 && binds(final_chain[j - 1], final_chain[j].entries()[k].name) by {
                    assert(inner_end[j] == final_chain[j]);
                    if j >= 1 {
                        assert(inner_end[j - 1] == final_chain[j - 1]);
                    }
                }
            }
            assert forall|k: int| 0 <= k < inner_frame.entries().len() && (#[trigger] inner_frame.entries()[k]).typ
                == BindingType::Upvalue implies final_chain.len() >= 1 && binds(final_chain[final_chain.len() - 1], inner_frame.entries()[k].name) by {
                let jj = final_chain.len() as int;
                assert(inner_end[jj] == inner_frame);
                assert(inner_end[jj - 1] == final_chain[jj - 1]);
            }
        }
        self.emit_binds(&inner_frame, &state.scopes);
        proof {
            lemma_function_assembled(b0, b_start, b_body, b_end, self.bytecode, ns as int, start_label as int, end_label as int,
                q, parameters@.len() as nat, decl, bc);
            lemma_extends_trans(s0.scopes@, outer, final_chain);
            let fr = frames_of(s0.scopes@);
            let fr1 = if s0.is_global { fr } else { declare_local(fr, id) };
            assert(fr1 == frames_of(outer));
            assert(fr1.push(args_frame(parameters@)) == frames_of(chain0));
            let end = start + bc.len() + 2;
            assert(end == b_body.code().len() + 2);
            let fr2 = chain.drop_last();
            assert(fr2 =~= frames_of(final_chain));
            assert(chain.last() == inner_frame.entries());
            let binds = if fr2.len() == 0 { Seq::<u8>::empty() } else { bind_code(chain.last(), fr2.last()) };
            if final_chain.len() > 0 {
                assert(fr2.last() == final_chain[final_chain.len() - 1].entries());
            }
            let b1 = self.bytecode;
            assert(b1.code() == b_end.code() + binds);
            let lw = lower_stmt(s0.is_global, fr, *statement, p);
            assert(lw.0 == op_bytes(OpCode::NewFunction, parameters@.len() as u64) + le_bytes(start as u64) + decl + op_bytes(
                OpCode::Jump,
                end as u64,
            ) + bc + seq![byte_of(OpCode::ConstNull), byte_of(OpCode::Return)] + binds);
            assert(lw.1 == fr2);
            assert(b1.code() =~= b0.code() + lw.0) by {
                assert(b1.code().subrange(0, b_end.code().len() as int) == b_end.code());
            }
            assert(state_after(s0, *state));
        }
        Ok(())
    }
}

/// The pieces of a lowered function put together: header, body, closing and
/// binds make exactly the function's code, its sites hold their targets, and
/// the builder only grew.
proof fn lemma_function_assembled(
    b0: Bytecode,
    b_start: Bytecode,
    b_body: Bytecode,
    b_end: Bytecode,
    b1: Bytecode,
    ns: int,
    sl: int,
    el: int,
    q: int,
    arity: nat,
    decl: Seq<u8>,
    bc: Seq<u8>,
)
    requires
        b0.wf(),
        b_start.wf(),
        b_body.wf(),
        b_end.wf(),
        b1.wf(),
        ns == b0.sites().len(),
        sl == b0.label_targets().len(),
        el == sl + 1,
        q == b0.code().len() + 17 + decl.len(),
        b_start.code().len() == q + 9,
        b_start.code().subrange(0, q + 1) == b0.code() + op_bytes(OpCode::NewFunction, arity as u64) + le_bytes(
            (q + 9) as u64,
        ) + decl + seq![byte_of(OpCode::Jump)],
        b_start.label_targets() == b0.label_targets().push(Some((q + 9) as usize)).push(None),
        b_start.sites() == b0.sites().push(Patch { label: sl as usize, position: (b0.code().len() + 9) as usize }).push(
            Patch { label: el as usize, position: (q + 1) as usize },
        ),
        grows(b_start, b_body),
        settled_from(b_body, ns + 2),
        b_body.code() == b_start.code() + bc,
        ({
            let c = b_body.code() + seq![byte_of(OpCode::ConstNull), byte_of(OpCode::Return)];
            let e = c.len() as int;
            &&& b_end.code() == c.subrange(0, q + 1) + le_bytes(e as u64) + c.subrange(q + 9, e)
            &&& b_end.label_targets() == b_body.label_targets().update(el, Some(e as usize))
            &&& b_end.sites() == b_body.sites()
        }),
        grows(b_end, b1),
        b1.label_targets() == b_end.label_targets(),
        b1.sites() == b_end.sites(),
    ensures
        grows(b0, b1),
        settled_from(b1, ns),
        b1.code().subrange(0, b_end.code().len() as int) == b0.code() + op_bytes(OpCode::NewFunction, arity as u64)
            + le_bytes((q + 9) as u64) + decl + op_bytes(OpCode::Jump, (b_body.code().len() + 2) as u64) + bc + seq![
            byte_of(OpCode::ConstNull),
            byte_of(OpCode::Return),
        ],
{
    let c0 = b0.code();
    let p = c0.len() as int;
    let head = b0.code() + op_bytes(OpCode::NewFunction, arity as u64) + le_bytes((q + 9) as u64) + decl + seq![byte_of(OpCode::Jump)];
    let c = b_body.code() + seq![byte_of(OpCode::ConstNull), byte_of(OpCode::Return)];
    let e = c.len() as int;
    let tail = bc + seq![byte_of(OpCode::ConstNull), byte_of(OpCode::Return)];
    assert(head.len() == q + 1);
    assert(c.subrange(0, q + 1) =~= head) by {
        assert(c.subrange(0, q + 1) =~= b_start.code().subrange(0, q + 1));
    }
    assert(c.subrange(q + 9, e) =~= tail);
    let full = b0.code() + op_bytes(OpCode::NewFunction, arity as u64) + le_bytes((q + 9) as u64) + decl + op_bytes(
        OpCode::Jump,
        e as u64,
    ) + bc + seq![byte_of(OpCode::ConstNull), byte_of(OpCode::Return)];
    assert(b_end.code() =~= full);
    assert(b1.code().subrange(0, b_end.code().len() as int) == b_end.code());
    b0.lemma_wf();
    b_body.lemma_wf();
    b_start.lemma_wf();
    b_end.lemma_wf();
    b1.lemma_wf();
    // growth from b0
    assert(b1.code().subrange(0, p) =~= c0) by {
        assert(b1.code().subrange(0, p) =~= b_end.code().subrange(0, p));
        assert(full.subrange(0, p) =~= c0);
    }
    assert(b1.label_targets().subrange(0, sl) =~= b0.label_targets()) by {
        assert forall|l: int| 0 <= l < sl implies b1.label_targets()[l] == b0.label_targets()[l] by {
            assert(b_body.label_targets().subrange(0, b_start.label_targets().len() as int)[l] == b_start.label_targets()[l]);
        }
    }
    assert(b1.sites().subrange(0, ns) =~= b0.sites()) by {
        assert forall|k: int| 0 <= k < ns implies b1.sites()[k] == b0.sites()[k] by {
            assert(b_body.sites().subrange(0, b_start.sites().len() as int)[k] == b_start.sites()[k]);
        }
    }
    assert(b1.sites()[ns] == b_start.sites()[ns]) by {
        assert(b_body.sites().subrange(0, b_start.sites().len() as int)[ns] == b_start.sites()[ns]);
    }
    assert(b1.sites()[ns + 1] == b_start.sites()[ns + 1]) by {
        assert(b_body.sites().subrange(0, b_start.sites().len() as int)[ns + 1] == b_start.sites()[ns + 1]);
    }
    assert(b1.label_targets()[sl] == Some((q + 9) as usize)) by {
        assert(b_body.label_targets().subrange(0, b_start.label_targets().len() as int)[sl] == b_start.label_targets()[sl]);
    }
    assert(b1.label_targets()[el] == Some(e as usize));
    assert forall|k: int| ns <= k < b1.sites().len() implies (#[trigger] b1.sites()[k]).label >= b0.label_targets().len() by {
        if k >= ns + 2 {
            assert(b_body.sites()[k].label >= b_start.label_targets().len());
        }
    }
    assert(grows(b0, b1));
    // settled
    assert forall|k: int| ns <= k < b1.sites().len() implies (#[trigger] b1.label_targets()[b1.sites()[k].label as int]) is Some
        && b1.code().subrange(b1.sites()[k].position as int, b1.sites()[k].position + 8) == le_bytes(
        b1.label_targets()[b1.sites()[k].label as int].unwrap() as u64) by {
        let pos = b1.sites()[k].position as int;
        if k == ns {
            assert(pos == p + 9);
            assert(b1.code().subrange(pos, pos + 8) =~= full.subrange(p + 9, p + 17));
            assert(full.subrange(p + 9, p + 17) =~= le_bytes((q + 9) as u64));
            assert(b1.sites()[k].label == sl);
        } else if k == ns + 1 {
            assert(pos == q + 1);
            assert(b1.code().subrange(pos, pos + 8) =~= full.subrange(q + 1, q + 9));
            assert(full.subrange(q + 1, q + 9) =~= le_bytes(e as u64));
            assert(b1.sites()[k].label == el);
        } else {
            let l = b_body.sites()[k].label as int;
            assert(l >= b_start.label_targets().len());
            assert(b_body.sites()[ns + 1].position + 8 <= b_body.sites()[k].position);
            assert(b_body.label_targets()[l] is Some);
            assert(b1.label_targets()[l] == b_body.label_targets()[l]);
            assert(b1.code().subrange(pos, pos + 8) =~= b_body.code().subrange(pos, pos + 8)) by {
                assert(b1.code().subrange(pos, pos + 8) =~= b_end.code().subrange(pos, pos + 8));
                assert(b_end.code().subrange(pos, pos + 8) =~= c.subrange(pos, pos + 8));
            }
        }
    }
}


impl Compiler {
    /// Lowers `statements` at top level and resolves every address. Fails with
    /// a compile error exactly when a statement is not one the compiler lowers;
    /// otherwise the code is the statements' lowering (see `lower_list`).
    pub fn compile(self, statements: Vec<Statement>) -> (r: Result<Vec<u8>, VmError>)
        requires
            self.builder().wf(),
            self.builder().code() == Seq::<u8>::empty(),
            self.builder().sites() == Seq::<Patch>::empty(),
        ensures
            r is Ok <==> forall|i: int| 0 <= i < statements@.len() ==> supported(#[trigger] statements@[i]),
            r is Err ==> r == Err::<Vec<u8>, VmError>(VmError::Compile),
            r matches Ok(c) ==> c@ == lower_list(true, Seq::empty(), statements@, 0, 0).0,
    {
        let mut compiler = self;
        let mut state = CompilerState::new(None);
        let ghost total = lower_list(true, Seq::empty(), statements@, 0, 0);
        proof {
            assert(frames_of(state.scopes@) =~= Seq::<Seq<Binding>>::empty());
            assert(compiler.bytecode.code() + total.0 =~= total.0);
        }
        let mut i: usize = 0;
        while i < statements.len()
            invariant
                state.wf(),
                state.is_global,
                state.scopes@.len() == 0,
                compiler.bytecode.wf(),
                settled_from(compiler.bytecode, 0),
                0 <= i <= statements@.len(),
                forall|j: int| 0 <= j < i ==> supported(#[trigger] statements@[j]),
                compiler.bytecode.code() + lower_list(true, Seq::empty(), statements@, i as int, compiler.bytecode.code().len() as int).0
                    == total.0,
            decreases statements@.len() - i,
        {
            let ghost before = compiler.bytecode;
            let ghost s_before = state;
            proof {
                assert(frames_of(state.scopes@) =~= Seq::<Seq<Binding>>::empty());
            }
            match compiler.compile_statement(&mut state, &statements[i]) {
                Ok(()) => {},
                Err(e) => {
                    return Err(e);
                },
            }
            proof {
                lemma_settled_grows(before, compiler.bytecode, 0);
                assert(frames_of(state.scopes@) =~= Seq::<Seq<Binding>>::empty()) by {
                    assert(state.scopes@.len() == 0);
                }
                let c1 = lower_stmt(true, Seq::empty(), statements@[i as int], before.code().len() as int).0;
                let rest = lower_list(true, Seq::empty(), statements@, i + 1, compiler.bytecode.code().len() as int).0;
                assert(compiler.bytecode.code() + rest =~= before.code() + (c1 + rest));
            }
            i = i + 1;
        }
        let ghost fin = compiler.bytecode;
        proof {
            assert(fin.code() =~= total.0);
            assert(fin.all_resolved());
        }
        match compiler.bytecode.finalize() {
            Ok(c) => {
                proof {
                    lemma_settled_final(fin, c@);
                }
                Ok(c)
            },
            Err(_) => Err(VmError::Compile),
        }
    }
}

} // verus!
