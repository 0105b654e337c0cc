use vstd::prelude::*;

verus! {

/// A cell that captures a binding escaping its frame: open while the binding
/// lives on the value stack at the given index, closed once it holds its own copy.
#[derive(Debug, Clone, PartialEq)]
pub enum Upvalue {
    Open(usize),
    Closed(Value),
}

/// A function value: code of the program, or a host function named by a handle
/// that the embedder resolves.
#[derive(Debug, Clone, PartialEq)]
pub enum FunctionValue {
    User { name: Option<usize>, address: usize, arity: usize, upvalues: Vec<usize> },
    Builtin { name: Option<usize>, arity: usize, handle: usize },
}

/// A value of the machine. A double is held as its IEEE-754 bit pattern.
#[derive(Debug, Clone, PartialEq)]
pub enum Value {
    Null,
    Boolean(bool),
    Integer(i64),
    Double(u64),
    String(usize),
    Function(FunctionValue),
}

/// What a function value is, with its upvalue handles as a sequence.
pub enum FunctionModel {
    User { name: Option<usize>, address: usize, arity: usize, upvalues: Seq<usize> },
    Builtin { name: Option<usize>, arity: usize, handle: usize },
}

/// What a value is, for contracts.
pub enum ValueModel {
    Null,
    Boolean(bool),
    Integer(i64),
    Double(u64),
    String(usize),
    Function(FunctionModel),
}

/// What an upvalue cell is, for contracts.
pub enum UpvalueModel {
    Open(usize),
    Closed(ValueModel),
}

impl View for FunctionValue {
    type V = FunctionModel;

    open spec fn view(&self) -> FunctionModel {
        match self {
            FunctionValue::User { name, address, arity, upvalues } => FunctionModel::User {
                name: *name,
                address: *address,
                arity: *arity,
                upvalues: upvalues@,
            },
            FunctionValue::Builtin { name, arity, handle } => FunctionModel::Builtin {
                name: *name,
                arity: *arity,
                handle: *handle,
            },
        }
    }
}

impl View for Value {
    type V = ValueModel;

    open spec fn view(&self) -> ValueModel {
        match self {
            Value::Null => ValueModel::Null,
            Value::Boolean(b) => ValueModel::Boolean(*b),
            Value::Integer(i) => ValueModel::Integer(*i),
            Value::Double(d) => ValueModel::Double(*d),
            Value::String(s) => ValueModel::String(*s),
            Value::Function(f) => ValueModel::Function(f@),
        }
    }
}

impl View for Upvalue {
    type V = UpvalueModel;

    open spec fn view(&self) -> UpvalueModel {
        match self {
            Upvalue::Open(i) => UpvalueModel::Open(*i),
            Upvalue::Closed(v) => UpvalueModel::Closed(v@),
        }
    }
}

/// Null and false are false; every other value is true.
pub open spec fn truthy(v: ValueModel) -> bool {
    !(v is Null || v == ValueModel::Boolean(false))
}

impl Value {
    /// Whether the value counts as true in a conditional jump.
    pub fn is_truthy(&self) -> (r: bool)
        ensures
            r == truthy(self@),
    {
        match self {
            Value::Null => false,
            Value::Boolean(b) => *b,
            _ => true,
        }
    }

    /// A copy of the value, equal to it.
    pub fn duplicate(&self) -> (r: Value)
        ensures
            r@ == self@,
    {
        match self {
            Value::Null => Value::Null,
            Value::Boolean(b) => Value::Boolean(*b),
            Value::Integer(i) => Value::Integer(*i),
            Value::Double(d) => Value::Double(*d),
            Value::String(s) => Value::String(*s),
            Value::Function(FunctionValue::User { name, address, arity, upvalues }) => {
                let copied = copy_handles(upvalues);
                Value::Function(
                    FunctionValue::User { name: *name, address: *address, arity: *arity, upvalues: copied },
                )
            },
            Value::Function(FunctionValue::Builtin { name, arity, handle }) => Value::Function(
                FunctionValue::Builtin { name: *name, arity: *arity, handle: *handle },
            ),
        }
    }
}

/// A copy of a list of upvalue handles.
pub fn copy_handles(v: &Vec<usize>) -> (r: Vec<usize>)
    ensures
        r@ == v@,
{
    let mut r: Vec<usize> = Vec::new();
    let mut i: usize = 0;
    while i < v.len()
        invariant
            0 <= i <= v@.len(),
            r@ == v@.subrange(0, i as int),
        decreases v@.len() - i,
    {
        r.push(v[i]);
        i = i + 1;
        assert(r@ =~= v@.subrange(0, i as int));
    }
    assert(r@ =~= v@);
    r
}

} // verus!
