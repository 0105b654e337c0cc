use std::collections::HashMap;

use stackvm::agent::Agent;
use stackvm::arith::ArithOp;
use stackvm::bytecode::{Bytecode, CodeObject};
use stackvm::error::VmError;
use stackvm::interpreter::{Interpreter, Step};
use stackvm::opcode::OpCode;
use stackvm::value::{FunctionValue, Value};

fn as_double(v: &Value) -> f64 {
    match v {
        Value::Integer(i) => *i as f64,
        Value::Double(bits) => f64::from_bits(*bits),
        other => panic!("not a number: {:?}", other),
    }
}

fn double_op(op: ArithOp, a: f64, b: f64) -> f64 {
    match op {
        ArithOp::Add => a + b,
        ArithOp::Sub => a - b,
        ArithOp::Mul => a * b,
        ArithOp::Div => a / b,
        ArithOp::Mod => a % b,
        ArithOp::Exp => a.powf(b),
    }
}

/// Runs the code to its end, computing the double operations the machine hands out.
fn evaluate(interpreter: &mut Interpreter, code: CodeObject) -> Result<Value, VmError> {
    loop {
        match interpreter.evaluate(&code) {
            Step::Finished(v) => return Ok(v),
            Step::Failed(e) => return Err(e),
            Step::Arithmetic { op, lhs, rhs } => {
                let r = double_op(op, as_double(&lhs), as_double(&rhs));
                interpreter.push(Value::Double(r.to_bits()));
            }
            Step::Builtin { handle, .. } => panic!("no host function {}", handle),
            Step::Continue => {}
        }
    }
}

fn double(x: f64) -> Value {
    Value::Double(x.to_bits())
}

fn const_int(b: &mut Bytecode, v: i64) {
    b.op_u64(OpCode::ConstInt, v as u64);
}

fn const_double(b: &mut Bytecode, v: f64) {
    b.op_u64(OpCode::ConstDouble, v.to_bits());
}

fn code(b: Bytecode) -> CodeObject {
    CodeObject::new(b.finalize().unwrap())
}

fn binop_program(a: i64, x: f64, op: OpCode) -> CodeObject {
    let mut b = Bytecode::new();
    const_int(&mut b, a);
    const_double(&mut b, x);
    b.op(op);
    code(b)
}

#[test]
fn test_halt() {
    let agent = Agent::new();
    let mut interpreter = Interpreter::new(agent);

    let mut b = Bytecode::new();
    b.op(OpCode::Halt);
    b.op(OpCode::ConstTrue);

    let result = evaluate(&mut interpreter, code(b));
    assert_eq!(result, Ok(Value::Null));
}

#[test]
fn test_const_int() {
    let agent = Agent::new();
    let mut interpreter = Interpreter::new(agent);

    let mut b = Bytecode::new();
    const_int(&mut b, 123);

    let result = evaluate(&mut interpreter, code(b));
    assert_eq!(result, Ok(Value::Integer(123)));
}

#[test]
fn test_const_double() {
    let agent = Agent::new();
    let mut interpreter = Interpreter::new(agent);

    let mut b = Bytecode::new();
    const_double(&mut b, 1.23);

    let result = evaluate(&mut interpreter, code(b));
    assert_eq!(result, Ok(double(1.23)));
}

#[test]
fn test_const_true() {
    let mut interpreter = Interpreter::new(Agent::new());
    let mut b = Bytecode::new();
    b.op(OpCode::ConstTrue);
    assert_eq!(evaluate(&mut interpreter, code(b)), Ok(Value::Boolean(true)));
}

#[test]
fn test_const_false() {
    let mut interpreter = Interpreter::new(Agent::new());
    let mut b = Bytecode::new();
    b.op(OpCode::ConstFalse);
    assert_eq!(evaluate(&mut interpreter, code(b)), Ok(Value::Boolean(false)));
}

#[test]
fn test_const_null() {
    let mut interpreter = Interpreter::new(Agent::new());
    let mut b = Bytecode::new();
    b.op(OpCode::ConstNull);
    assert_eq!(evaluate(&mut interpreter, code(b)), Ok(Value::Null));
}

#[test]
fn test_const_string() {
    let mut agent = Agent::new();
    let id = agent.intern_string("hello world");

    let mut b = Bytecode::new();
    b.op_u64(OpCode::ConstString, id as u64);

    let mut interpreter = Interpreter::new(agent);
    let result = evaluate(&mut interpreter, code(b));
    assert_eq!(result, Ok(Value::String(id)));
    assert_eq!(interpreter.agent().string_table[id], "hello world");
}

#[test]
fn test_add() {
    let mut interpreter = Interpreter::new(Agent::new());
    let result = evaluate(&mut interpreter, binop_program(123, 1.23, OpCode::Add));
    assert_eq!(result, Ok(double(124.23)));
}

#[test]
fn test_sub() {
    let mut interpreter = Interpreter::new(Agent::new());
    let result = evaluate(&mut interpreter, binop_program(123, 1.23, OpCode::Sub));
    assert_eq!(result, Ok(double(121.77)));
}

#[test]
fn test_mul() {
    let mut interpreter = Interpreter::new(Agent::new());
    let result = evaluate(&mut interpreter, binop_program(123, 2.0, OpCode::Mul));
    assert_eq!(result, Ok(double(246f64)));
}

#[test]
fn test_div() {
    let mut interpreter = Interpreter::new(Agent::new());
    let result = evaluate(&mut interpreter, binop_program(124, 2.0, OpCode::Div));
    assert_eq!(result, Ok(double(62f64)));
}

#[test]
fn test_mod() {
    let mut interpreter = Interpreter::new(Agent::new());
    let result = evaluate(&mut interpreter, binop_program(124, 2.0, OpCode::Mod));
    assert_eq!(result, Ok(double(0f64)));
}

#[test]
fn test_exp() {
    let mut interpreter = Interpreter::new(Agent::new());
    let mut b = Bytecode::new();
    const_int(&mut b, 4);
    const_int(&mut b, 2);
    b.op(OpCode::Exp);
    assert_eq!(evaluate(&mut interpreter, code(b)), Ok(Value::Integer(16)));
}

#[test]
fn test_jump() {
    let mut interpreter = Interpreter::new(Agent::new());
    let mut b = Bytecode::new();
    const_int(&mut b, 4);
    b.op_u64(OpCode::Jump, 29);
    const_int(&mut b, 8);
    b.op(OpCode::Add);
    b.op(OpCode::Halt);
    const_int(&mut b, 12);
    b.op(OpCode::Mul);
    b.op(OpCode::Halt);
    assert_eq!(evaluate(&mut interpreter, code(b)), Ok(Value::Integer(48)));
}

#[test]
fn test_jump_if_true() {
    let agent = Agent::new();
    let mut b = Bytecode::new();
    let one = b.new_label();
    let two = b.new_label();
    const_int(&mut b, 123);
    const_int(&mut b, 234);
    const_int(&mut b, 1);
    b.op_label(OpCode::JumpIfTrue, one);
    b.op(OpCode::Mul);
    b.op(OpCode::Halt);
    b.mark_label(one).unwrap();
    b.op(OpCode::ConstFalse);
    b.op_label(OpCode::JumpIfTrue, two);
    b.op(OpCode::Add);
    b.op(OpCode::Halt);
    b.mark_label(two).unwrap();
    b.op(OpCode::Sub);

    let mut interpreter = Interpreter::new(agent);
    assert_eq!(evaluate(&mut interpreter, code(b)), Ok(Value::Integer(357)));
}

#[test]
fn test_jump_if_false() {
    let mut agent = Agent::new();
    let empty = agent.intern_string("");
    let mut b = Bytecode::new();
    let one = b.new_label();
    let two = b.new_label();
    b.op(OpCode::ConstTrue);
    b.op_label(OpCode::JumpIfFalse, one);
    const_int(&mut b, 10);
    const_int(&mut b, 2);
    b.op_u64(OpCode::ConstString, empty as u64);
    b.op_label(OpCode::JumpIfFalse, two);
    b.mark_label(one).unwrap();
    b.op(OpCode::Add);
    b.op(OpCode::Halt);
    b.mark_label(two).unwrap();
    b.op(OpCode::Mul);
    b.op(OpCode::Halt);

    // An empty string is true, so the second jump falls through to the addition.
    let mut interpreter = Interpreter::new(agent);
    assert_eq!(evaluate(&mut interpreter, code(b)), Ok(Value::Integer(12)));
}

#[test]
fn test_user_function() {
    let mut agent = Agent::new();

    let name = agent.intern_string("ret123");
    let ret123 = Value::Function(FunctionValue::User { name: Some(name), address: 9, arity: 0, upvalues: Vec::new() });

    let mut global = HashMap::new();
    global.insert(name, ret123);

    let mut b = Bytecode::new();
    let main = b.new_label();
    b.op_label(OpCode::Jump, main);
    const_int(&mut b, 123);
    b.op(OpCode::Return);
    b.mark_label(main).unwrap();
    b.op_u64(OpCode::LoadGlobal, name as u64);
    b.op_u64(OpCode::Call, 0);

    let mut interpreter = Interpreter::with_global(agent, global);
    assert_eq!(evaluate(&mut interpreter, code(b)), Ok(Value::Integer(123)));
}

#[test]
fn test_pop() {
    let mut interpreter = Interpreter::new(Agent::new());
    let mut b = Bytecode::new();
    const_int(&mut b, 123);
    b.op(OpCode::Pop);
    assert_eq!(evaluate(&mut interpreter, code(b)), Ok(Value::Null));
}

#[test]
fn test_load_local() {
    let mut interpreter = Interpreter::new(Agent::new());
    let mut b = Bytecode::new();
    const_int(&mut b, 123);
    const_double(&mut b, 432.0);
    b.op_u64(OpCode::LoadLocal, 0);
    assert_eq!(evaluate(&mut interpreter, code(b)), Ok(Value::Integer(123)));
}

#[test]
fn test_store_local() {
    let mut interpreter = Interpreter::new(Agent::new());
    let mut b = Bytecode::new();
    const_int(&mut b, 123);
    const_int(&mut b, 234);
    b.op_u64(OpCode::StoreLocal, 0);
    b.op(OpCode::Pop);
    b.op_u64(OpCode::LoadLocal, 0);
    assert_eq!(evaluate(&mut interpreter, code(b)), Ok(Value::Integer(234)));
}

#[test]
fn test_load_global() {
    let mut agent = Agent::new();
    let mut global = HashMap::new();
    let test = agent.intern_string("test");
    global.insert(test, Value::String(test));

    let mut b = Bytecode::new();
    b.op_u64(OpCode::LoadGlobal, agent.intern_string("test") as u64);

    let mut interpreter = Interpreter::with_global(agent, global);
    assert_eq!(evaluate(&mut interpreter, code(b)), Ok(Value::String(test)));
}

#[test]
fn test_store_global() {
    let mut agent = Agent::new();
    let mut global = HashMap::new();
    global.insert(agent.intern_string("test"), Value::Integer(3));

    let mut b = Bytecode::new();
    b.op_u64(OpCode::LoadGlobal, agent.intern_string("test") as u64);
    const_int(&mut b, 3);
    b.op(OpCode::Exp);

    let mut interpreter = Interpreter::with_global(agent, global);
    assert_eq!(evaluate(&mut interpreter, code(b)), Ok(Value::Integer(27)));
}

#[test]
fn test_new_function() {
    let mut b = Bytecode::new();
    let func = b.new_label();
    let main = b.new_label();
    b.op_label(OpCode::Jump, main);
    b.mark_label(func).unwrap();
    const_int(&mut b, 999);
    b.op(OpCode::Return);
    b.mark_label(main).unwrap();
    b.op_u64(OpCode::NewFunction, 0);
    b.address_of(func);
    b.op_u64(OpCode::Call, 0);

    let mut interpreter = Interpreter::new(Agent::new());
    assert_eq!(evaluate(&mut interpreter, code(b)), Ok(Value::Integer(999)));
}
