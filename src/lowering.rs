use vstd::prelude::*;
use crate::ast::{Expression, ExpressionKind, Statement, StatementKind};
use crate::bytecode::le_bytes;
use crate::opcode::{byte_of, OpCode};
use crate::scope::{binds, count_of, last_named, lookup, Binding, BindingType, Scope};

verus! {

broadcast use vstd::std_specs::vec::group_vec_axioms;

/// The bindings of each frame of a chain, outermost first.
pub open spec fn frames_of(scopes: Seq<Scope>) -> Seq<Seq<Binding>> {
    scopes.map_values(|s: Scope| s.entries())
}

/// The bytes of `op` followed by the operand `v`.
pub open spec fn op_bytes(op: OpCode, v: u64) -> Seq<u8> {
    seq![byte_of(op)] + le_bytes(v)
}

/// What a global declaration emits: `DeclareGlobal id; StoreGlobal id`.
pub open spec fn declare_bytes(id: usize) -> Seq<u8> {
    op_bytes(OpCode::DeclareGlobal, id as u64) + op_bytes(OpCode::StoreGlobal, id as u64)
}

/// The code of a literal expression; `None` for an identifier.
pub open spec fn literal_code(e: Expression) -> Option<Seq<u8>> {
    match e.value {
        ExpressionKind::Null => Some(seq![byte_of(OpCode::ConstNull)]),
        ExpressionKind::Boolean(b) => Some(
            if b {
                seq![byte_of(OpCode::ConstTrue)]
            } else {
                seq![byte_of(OpCode::ConstFalse)]
            },
        ),
        ExpressionKind::Integer(i) => Some(op_bytes(OpCode::ConstInt, i as u64)),
        ExpressionKind::String(id) => Some(op_bytes(OpCode::ConstString, id as u64)),
        ExpressionKind::Identifier(_) => None,
    }
}

/// The innermost frame of `fr` that declares `name`, if any.
pub open spec fn frame_of(fr: Seq<Seq<Binding>>, name: usize) -> Option<int>
    decreases fr.len(),
{
    if fr.len() == 0 {
        None
    } else if last_named(fr.last(), name) is Some {
        Some(fr.len() - 1)
    } else {
        frame_of(fr.drop_last(), name)
    }
}

/// The Upvalue binding that captures `name` in a frame with bindings `e`.
pub open spec fn capture(e: Seq<Binding>, name: usize) -> Binding {
    Binding { typ: BindingType::Upvalue, name, index: count_of(e, BindingType::Upvalue) as usize }
}

/// The chain after `name`, declared in frame `f`, is captured by every frame inside it.
pub open spec fn capture_frames(fr: Seq<Seq<Binding>>, f: int, name: usize) -> Seq<Seq<Binding>> {
    Seq::new(fr.len(), |t: int| if t > f { fr[t].push(capture(fr[t], name)) } else { fr[t] })
}

/// The load instruction for a binding of kind `t`.
pub open spec fn load_op(t: BindingType) -> OpCode {
    match t {
        BindingType::Local => OpCode::LoadLocal,
        BindingType::Argument => OpCode::LoadArgument,
        BindingType::Upvalue => OpCode::LoadUpvalue,
    }
}

/// The bind instruction for a captured binding of kind `t` in the enclosing frame.
pub open spec fn bind_op(t: BindingType) -> OpCode {
    match t {
        BindingType::Local => OpCode::BindLocal,
        BindingType::Argument => OpCode::BindArgument,
        BindingType::Upvalue => OpCode::BindUpvalue,
    }
}

/// A reference to `name`: a global load at top level or when no frame
/// declares it; a load by kind and slot when the innermost frame declares it;
/// otherwise a capture by every frame inside the declaring one and a load of
/// the innermost frame's new upvalue. Gives the code and the chain after.
pub open spec fn lower_name(g: bool, fr: Seq<Seq<Binding>>, name: usize) -> (Seq<u8>, Seq<Seq<Binding>>) {
    let n = fr.len() as int;
    if g || frame_of(fr, name) is None {
        (op_bytes(OpCode::LoadGlobal, name as u64), fr)
    } else if frame_of(fr, name) == Some(n - 1) {
        let b = fr[n - 1][last_named(fr[n - 1], name).unwrap()];
        (op_bytes(load_op(b.typ), b.index as u64), fr)
    } else {
        (
            op_bytes(OpCode::LoadUpvalue, capture(fr[n - 1], name).index as u64),
            capture_frames(fr, frame_of(fr, name).unwrap(), name),
        )
    }
}

/// The value of an expression: its constant, or the reference to its name.
pub open spec fn lower_expr(g: bool, fr: Seq<Seq<Binding>>, e: Expression) -> (Seq<u8>, Seq<Seq<Binding>>) {
    match literal_code(e) {
        Some(c) => (c, fr),
        None => lower_name(g, fr, e.value->Identifier_0),
    }
}

/// The chain after `name` is declared as the next Local of the innermost frame.
pub open spec fn declare_local(fr: Seq<Seq<Binding>>, name: usize) -> Seq<Seq<Binding>> {
    fr.update(
        fr.len() - 1,
        fr.last().push(Binding { typ: BindingType::Local, name, index: count_of(fr.last(), BindingType::Local) as usize }),
    )
}

/// The frame of a function's parameters: Argument bindings with slots 0, 1, ...
pub open spec fn args_frame(params: Seq<Expression>) -> Seq<Binding> {
    Seq::new(
        params.len(),
        |i: int| Binding { typ: BindingType::Argument, name: params[i].value->Identifier_0, index: i as usize },
    )
}

/// The Bind* instructions for the captures of a closing function with frame
/// `inner`, in order: each names the binding of the enclosing frame `parent`.
pub open spec fn bind_code(inner: Seq<Binding>, parent: Seq<Binding>) -> Seq<u8>
    decreases inner.len(),
{
    if inner.len() == 0 {
        Seq::empty()
    } else {
        bind_code(inner.drop_last(), parent) + if inner.last().typ == BindingType::Upvalue {
            let pb = parent[last_named(parent, inner.last().name).unwrap()];
            op_bytes(bind_op(pb.typ), pb.index as u64)
        } else {
            Seq::empty()
        }
    }
}

/// The code of statement `s` lowered at position `p` over the chain `fr`
/// (`g` at top level), and the chain after it. A function is
/// `NewFunction arity start; <declaration>; Jump end; start: <body>
/// ConstNull; Return; end: <Bind* for its captures>`.
pub open spec fn lower_stmt(g: bool, fr: Seq<Seq<Binding>>, s: Statement, p: int) -> (Seq<u8>, Seq<Seq<Binding>>)
    decreases s, 0nat,
{
    match s.value {
        StatementKind::Let { name, value } => {
            let id = name.value->Identifier_0;
            let (ic, fr1) = match value {
                None => (seq![byte_of(OpCode::ConstNull)], fr),
                Some(e) => lower_expr(g, fr, e),
            };
            if g {
                (ic + declare_bytes(id), fr1)
            } else {
                (ic, declare_local(fr1, id))
            }
        },
        StatementKind::Expression(e) => {
            let (c, fr1) = lower_expr(g, fr, e);
            (c + seq![byte_of(OpCode::Pop)], fr1)
        },
        StatementKind::Function { name, parameters, body } => {
            let id = name.value->Identifier_0;
            let decl = if g { declare_bytes(id) } else { Seq::<u8>::empty() };
            let fr1 = if g { fr } else { declare_local(fr, id) };
            let start = p + 26 + decl.len();
            let (bc, chain) = lower_list(false, fr1.push(args_frame(parameters@)), body@, 0, start);
            let end = start + bc.len() + 2;
            let fr2 = chain.drop_last();
            let binds = if fr2.len() == 0 { Seq::<u8>::empty() } else { bind_code(chain.last(), fr2.last()) };
            (
                op_bytes(OpCode::NewFunction, parameters@.len() as u64) + le_bytes(start as u64) + decl + op_bytes(
                    OpCode::Jump,
                    end as u64,
                ) + bc + seq![byte_of(OpCode::ConstNull), byte_of(OpCode::Return)] + binds,
                fr2,
            )
        },
        _ => (Seq::empty(), fr),
    }
}

/// The code of statements `ss[i..]` lowered one after another from position
/// `p`, and the chain after them.
pub open spec fn lower_list(g: bool, fr: Seq<Seq<Binding>>, ss: Seq<Statement>, i: int, p: int) -> (Seq<u8>, Seq<Seq<Binding>>)
    decreases ss, ss.len() - i,
{
    if i < 0 || i >= ss.len() {
        (Seq::empty(), fr)
    } else {
        let (c1, fr1) = lower_stmt(g, fr, ss[i], p);
        let (c2, fr2) = lower_list(g, fr1, ss, i + 1, p + c1.len());
        (c1 + c2, fr2)
    }
}


/// Looking a name up in a chain of frames is looking it up in their bindings.
pub proof fn lemma_lookup_frames(scopes: Seq<Scope>, name: usize)
    ensures
        lookup(scopes, name) == frame_of(frames_of(scopes), name),
    decreases scopes.len(),
{
    if scopes.len() > 0 {
        assert(frames_of(scopes.drop_last()) =~= frames_of(scopes).drop_last());
        lemma_lookup_frames(scopes.drop_last(), name);
    }
}

/// In a sequence of bindings all of kind `t`, the count of kind `t` is its length.
pub proof fn lemma_count_all(b: Seq<Binding>, t: BindingType)
    requires
        forall|i: int| 0 <= i < b.len() ==> (#[trigger] b[i]).typ == t,
    ensures
        count_of(b, t) == b.len(),
    decreases b.len(),
{
    if b.len() > 0 {
        lemma_count_all(b.drop_last(), t);
    }
}

} // verus!
