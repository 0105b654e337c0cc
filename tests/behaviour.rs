use std::collections::HashMap;

use stackvm::agent::Agent;
use stackvm::arith::ArithOp;
use stackvm::bytecode::{Bytecode, CodeObject};
use stackvm::error::VmError;
use stackvm::instruction::{decode_all, Instruction};
use stackvm::interpreter::{Interpreter, Step};
use stackvm::opcode::OpCode;
use stackvm::value::{FunctionValue, Value};

fn run(interpreter: &mut Interpreter, code: &CodeObject) -> Step {
    interpreter.evaluate(code)
}

fn code(b: Bytecode) -> CodeObject {
    CodeObject::new(b.finalize().unwrap())
}

fn const_int(b: &mut Bytecode, v: i64) {
    b.op_u64(OpCode::ConstInt, v as u64);
}

fn finished(step: Step) -> Result<Value, VmError> {
    match step {
        Step::Finished(v) => Ok(v),
        Step::Failed(e) => Err(e),
        other => panic!("unexpected step {:?}", other),
    }
}

fn int_program(a: i64, b_: i64, op: OpCode) -> Result<Value, VmError> {
    let mut b = Bytecode::new();
    const_int(&mut b, a);
    const_int(&mut b, b_);
    b.op(op);
    let mut interpreter = Interpreter::new(Agent::new());
    finished(run(&mut interpreter, &code(b)))
}

#[test]
fn integer_arithmetic_is_exact() {
    assert_eq!(int_program(7, 5, OpCode::Add), Ok(Value::Integer(12)));
    assert_eq!(int_program(7, 5, OpCode::Sub), Ok(Value::Integer(2)));
    assert_eq!(int_program(7, -5, OpCode::Mul), Ok(Value::Integer(-35)));
    assert_eq!(int_program(-7, 2, OpCode::Div), Ok(Value::Integer(-3)));
    assert_eq!(int_program(-7, 2, OpCode::Mod), Ok(Value::Integer(-1)));
    assert_eq!(int_program(7, -2, OpCode::Mod), Ok(Value::Integer(1)));
    assert_eq!(int_program(-2, 3, OpCode::Exp), Ok(Value::Integer(-8)));
    assert_eq!(int_program(5, 0, OpCode::Exp), Ok(Value::Integer(1)));
    assert_eq!(int_program(-1, 4_000_000_001, OpCode::Exp), Ok(Value::Integer(-1)));
    assert_eq!(int_program(-2, 63, OpCode::Exp), Ok(Value::Integer(i64::MIN)));
}

#[test]
fn integer_errors() {
    assert_eq!(int_program(2, -1, OpCode::Exp), Err(VmError::IntegerOverflow));
    assert_eq!(int_program(2, 1 << 40, OpCode::Exp), Err(VmError::IntegerOverflow));
    assert_eq!(int_program(2, 63, OpCode::Exp), Err(VmError::IntegerOverflow));
    assert_eq!(int_program(i64::MAX, 1, OpCode::Add), Err(VmError::IntegerOverflow));
    assert_eq!(int_program(i64::MIN, -1, OpCode::Div), Err(VmError::IntegerOverflow));
    assert_eq!(int_program(1, 0, OpCode::Div), Err(VmError::DivisionByZero));
    assert_eq!(int_program(1, 0, OpCode::Mod), Err(VmError::DivisionByZero));
}

#[test]
fn mixed_operands_are_handed_out_as_double_operations() {
    let mut b = Bytecode::new();
    const_int(&mut b, 3);
    b.op_u64(OpCode::ConstDouble, 1.5f64.to_bits());
    b.op(OpCode::Mul);
    let mut interpreter = Interpreter::new(Agent::new());
    match run(&mut interpreter, &code(b)) {
        Step::Arithmetic { op, lhs, rhs } => {
            assert_eq!(op, ArithOp::Mul);
            assert_eq!(lhs, Value::Integer(3));
            assert_eq!(rhs, Value::Double(1.5f64.to_bits()));
        }
        other => panic!("unexpected step {:?}", other),
    }
    assert_eq!(interpreter.stack_depth(), 0);
}

#[test]
fn non_numbers_are_a_type_error() {
    let mut b = Bytecode::new();
    b.op(OpCode::ConstNull);
    const_int(&mut b, 1);
    b.op(OpCode::Add);
    let mut interpreter = Interpreter::new(Agent::new());
    assert_eq!(finished(run(&mut interpreter, &code(b))), Err(VmError::Type));

    let mut b = Bytecode::new();
    const_int(&mut b, 1);
    b.op_u64(OpCode::Call, 0);
    let mut interpreter = Interpreter::new(Agent::new());
    assert_eq!(finished(run(&mut interpreter, &code(b))), Err(VmError::Type));
}

fn jump_taken(cond: Value, op: OpCode) -> bool {
    let mut agent = Agent::new();
    let name = agent.intern_string("c");
    let mut global = HashMap::new();
    global.insert(name, cond);
    let mut b = Bytecode::new();
    let taken = b.new_label();
    b.op_u64(OpCode::LoadGlobal, name as u64);
    b.op_label(op, taken);
    b.op(OpCode::ConstFalse);
    b.op(OpCode::Halt);
    b.mark_label(taken).unwrap();
    b.op(OpCode::ConstTrue);
    let mut interpreter = Interpreter::with_global(agent, global);
    let r = finished(run(&mut interpreter, &code(b))).unwrap();
    assert_eq!(interpreter.stack_depth(), 0);
    r == Value::Boolean(true)
}

#[test]
fn truthiness_of_conditional_jumps() {
    assert!(!jump_taken(Value::Null, OpCode::JumpIfTrue));
    assert!(!jump_taken(Value::Boolean(false), OpCode::JumpIfTrue));
    assert!(jump_taken(Value::Boolean(true), OpCode::JumpIfTrue));
    assert!(jump_taken(Value::Integer(0), OpCode::JumpIfTrue));
    assert!(jump_taken(Value::Double(0f64.to_bits()), OpCode::JumpIfTrue));
    assert!(jump_taken(Value::Null, OpCode::JumpIfFalse));
    assert!(jump_taken(Value::Boolean(false), OpCode::JumpIfFalse));
    assert!(!jump_taken(Value::Integer(0), OpCode::JumpIfFalse));
}

#[test]
fn undeclared_globals_are_reference_errors() {
    let mut b = Bytecode::new();
    const_int(&mut b, 1);
    b.op_u64(OpCode::StoreGlobal, 7);
    let mut interpreter = Interpreter::new(Agent::new());
    assert_eq!(finished(run(&mut interpreter, &code(b))), Err(VmError::Reference));

    let mut b = Bytecode::new();
    b.op_u64(OpCode::LoadGlobal, 7);
    let mut interpreter = Interpreter::new(Agent::new());
    assert_eq!(finished(run(&mut interpreter, &code(b))), Err(VmError::Reference));

    let mut b = Bytecode::new();
    b.op_u64(OpCode::DeclareGlobal, 7);
    const_int(&mut b, 1);
    b.op_u64(OpCode::StoreGlobal, 7);
    b.op_u64(OpCode::DeclareGlobal, 7);
    b.op_u64(OpCode::LoadGlobal, 7);
    let mut interpreter = Interpreter::new(Agent::new());
    assert_eq!(finished(run(&mut interpreter, &code(b))), Ok(Value::Integer(1)));
}

#[test]
fn decode_errors() {
    let mut interpreter = Interpreter::new(Agent::new());
    assert_eq!(finished(run(&mut interpreter, &CodeObject::new(vec![200]))), Err(VmError::Decode));
    let mut interpreter = Interpreter::new(Agent::new());
    assert_eq!(finished(run(&mut interpreter, &CodeObject::new(vec![1, 0, 0]))), Err(VmError::Decode));
}

#[test]
fn stack_underflow_and_missing_frames() {
    let mut b = Bytecode::new();
    b.op(OpCode::Pop);
    let mut interpreter = Interpreter::new(Agent::new());
    assert_eq!(finished(run(&mut interpreter, &code(b))), Err(VmError::StackUnderflow));

    let mut b = Bytecode::new();
    const_int(&mut b, 1);
    b.op(OpCode::Return);
    let mut interpreter = Interpreter::new(Agent::new());
    assert_eq!(finished(run(&mut interpreter, &code(b))), Err(VmError::InternalInvariant));
}

#[test]
fn too_few_arguments_is_an_arity_error() {
    let mut b = Bytecode::new();
    b.op_u64(OpCode::NewFunction, 2);
    b.u64(0);
    b.op_u64(OpCode::Call, 0);
    let mut interpreter = Interpreter::new(Agent::new());
    assert_eq!(finished(run(&mut interpreter, &code(b))), Err(VmError::Arity));
}

#[test]
fn builtin_calls_are_handed_to_the_embedder() {
    let mut global = HashMap::new();
    global.insert(0, Value::Function(FunctionValue::Builtin { name: None, arity: 1, handle: 5 }));
    let mut b = Bytecode::new();
    const_int(&mut b, 1);
    const_int(&mut b, 2);
    b.op_u64(OpCode::LoadGlobal, 0);
    b.op_u64(OpCode::Call, 2);
    let code = code(b);
    let mut interpreter = Interpreter::with_global(Agent::new(), global);
    match run(&mut interpreter, &code) {
        Step::Builtin { handle, args } => {
            assert_eq!(handle, 5);
            assert_eq!(args, vec![Value::Integer(2), Value::Integer(1)]);
        }
        other => panic!("unexpected step {:?}", other),
    }
    assert_eq!(interpreter.stack_depth(), 0);
    interpreter.push(Value::Integer(42));
    assert_eq!(finished(run(&mut interpreter, &code)), Ok(Value::Integer(42)));
}

#[test]
fn call_and_return_replace_function_and_arguments_by_the_result() {
    // f(a, b) returns its second argument; the caller keeps 100 below.
    let mut b = Bytecode::new();
    let f = b.new_label();
    let main = b.new_label();
    b.op_label(OpCode::Jump, main);
    b.mark_label(f).unwrap();
    const_int(&mut b, 9);
    b.op(OpCode::Return);
    b.mark_label(main).unwrap();
    const_int(&mut b, 100);
    const_int(&mut b, 1);
    const_int(&mut b, 2);
    b.op_u64(OpCode::NewFunction, 2);
    b.address_of(f);
    b.op_u64(OpCode::Call, 2);
    b.op(OpCode::Add);
    let mut interpreter = Interpreter::new(Agent::new());
    assert_eq!(finished(run(&mut interpreter, &code(b))), Ok(Value::Integer(109)));
    assert_eq!(interpreter.stack_depth(), 0);
}

/// `f` declares a local, hands a closure over it to global A, calls A (which
/// makes global B share A's upvalue), sets the local to 8 and returns.
fn closure_program(agent: &mut Agent) -> (CodeObject, usize, usize) {
    let a = agent.intern_string("A");
    let bb = agent.intern_string("B");
    let mut b = Bytecode::new();
    let f = b.new_label();
    let g = b.new_label();
    let inner = b.new_label();
    let main = b.new_label();
    b.op_label(OpCode::Jump, main);

    b.mark_label(f).unwrap();
    const_int(&mut b, 1);
    b.op_u64(OpCode::NewFunction, 0);
    b.address_of(g);
    b.op_u64(OpCode::BindLocal, 0);
    b.op_u64(OpCode::DeclareGlobal, a as u64);
    b.op_u64(OpCode::StoreGlobal, a as u64);
    b.op_u64(OpCode::LoadGlobal, a as u64);
    b.op_u64(OpCode::Call, 0);
    b.op(OpCode::Pop);
    const_int(&mut b, 8);
    b.op_u64(OpCode::StoreLocal, 0);
    b.op(OpCode::Pop);
    b.op(OpCode::ConstNull);
    b.op(OpCode::Return);

    b.mark_label(g).unwrap();
    b.op_u64(OpCode::NewFunction, 0);
    b.address_of(inner);
    b.op_u64(OpCode::BindUpvalue, 0);
    b.op_u64(OpCode::DeclareGlobal, bb as u64);
    b.op_u64(OpCode::StoreGlobal, bb as u64);
    b.op(OpCode::ConstNull);
    b.op(OpCode::Return);

    b.mark_label(inner).unwrap();
    b.op(OpCode::ConstNull);
    b.op(OpCode::Return);

    b.mark_label(main).unwrap();
    b.op_u64(OpCode::NewFunction, 0);
    b.address_of(f);
    b.op_u64(OpCode::Call, 0);
    b.op(OpCode::Pop);
    (code(b), a, bb)
}

fn upvalues_of(v: Option<Value>) -> Vec<usize> {
    match v {
        Some(Value::Function(FunctionValue::User { upvalues, .. })) => upvalues,
        other => panic!("not a user function: {:?}", other),
    }
}

#[test]
fn closed_upvalue_keeps_the_last_value_of_its_slot() {
    let mut agent = Agent::new();
    let (code, a, _) = closure_program(&mut agent);
    let mut interpreter = Interpreter::new(agent);
    assert_eq!(finished(run(&mut interpreter, &code)), Ok(Value::Null));
    assert_eq!(interpreter.stack_depth(), 0);
    let ups = upvalues_of(interpreter.global(a));
    assert_eq!(ups.len(), 1);
    assert_eq!(interpreter.read_upvalue(ups[0]), Some(Value::Integer(8)));
    assert!(interpreter.agent().upvalues.is_empty());
}

#[test]
fn closures_share_a_captured_binding() {
    let mut agent = Agent::new();
    let (code, a, bb) = closure_program(&mut agent);
    let mut interpreter = Interpreter::new(agent);
    assert_eq!(finished(run(&mut interpreter, &code)), Ok(Value::Null));
    let ua = upvalues_of(interpreter.global(a));
    let ub = upvalues_of(interpreter.global(bb));
    assert_eq!(ua, ub);
    assert!(interpreter.write_upvalue(ua[0], Value::Integer(42)));
    assert_eq!(interpreter.read_upvalue(ub[0]), Some(Value::Integer(42)));
    assert!(!interpreter.write_upvalue(99, Value::Null));
    assert_eq!(interpreter.read_upvalue(99), None);
}

#[test]
fn unmarked_labels_are_not_finalized() {
    let mut b = Bytecode::new();
    let l = b.new_label();
    b.op_label(OpCode::Jump, l);
    assert_eq!(b.finalize(), Err(VmError::InternalInvariant));

    let mut b = Bytecode::new();
    let l = b.new_label();
    assert_eq!(b.mark_label(l), Ok(()));
    assert_eq!(b.mark_label(l), Err(VmError::InternalInvariant));
    assert_eq!(b.mark_label(5), Err(VmError::InternalInvariant));
}

#[test]
fn finalize_writes_absolute_little_endian_addresses() {
    let mut b = Bytecode::new();
    let back = b.new_label();
    let ahead = b.new_label();
    b.mark_label(back).unwrap();
    b.op(OpCode::ConstNull);
    b.op_label(OpCode::Jump, ahead);
    b.op_label(OpCode::Jump, back);
    b.mark_label(ahead).unwrap();
    let bytes = b.finalize().unwrap();
    assert_eq!(bytes.len(), 19);
    assert_eq!(bytes[1], 13);
    assert_eq!(&bytes[2..10], &19u64.to_le_bytes());
    assert_eq!(&bytes[11..19], &0u64.to_le_bytes());
    let listing = decode_all(&bytes).unwrap();
    assert_eq!(listing, vec![(0, Instruction::ConstNull), (1, Instruction::Jump(19)), (10, Instruction::Jump(0))]);
}

#[test]
fn operands_are_little_endian() {
    let mut b = Bytecode::new();
    b.op_u64(OpCode::ConstInt, (-2i64) as u64);
    b.op_u64(OpCode::NewFunction, 3);
    b.u64(0x0102_0304_0506_0708);
    let bytes = b.finalize().unwrap();
    assert_eq!(bytes[0], 1);
    assert_eq!(&bytes[1..9], &(-2i64).to_le_bytes());
    assert_eq!(&bytes[18..26], &[8, 7, 6, 5, 4, 3, 2, 1]);
    let listing = decode_all(&bytes).unwrap();
    assert_eq!(
        listing,
        vec![(0, Instruction::ConstInt(-2)), (9, Instruction::NewFunction(3, 0x0102_0304_0506_0708))]
    );
    assert_eq!(OpCode::from_byte(OpCode::Return.to_byte()), Some(OpCode::Return));
    assert_eq!(OpCode::from_byte(30), None);
}

#[test]
fn running_with_little_fuel_stops_early() {
    let mut b = Bytecode::new();
    const_int(&mut b, 1);
    const_int(&mut b, 2);
    b.op(OpCode::Add);
    let code = code(b);
    let mut interpreter = Interpreter::new(Agent::new());
    assert!(matches!(interpreter.run(&code, 2), Step::Continue));
    assert_eq!(interpreter.stack_depth(), 2);
    assert_eq!(finished(interpreter.run(&code, 5)), Ok(Value::Integer(3)));
}

#[test]
fn arguments_and_upvalues_are_loaded_in_the_frame() {
    // f(a, b) returns g(), where g reads f's argument b through an upvalue.
    let mut b = Bytecode::new();
    let f = b.new_label();
    let g = b.new_label();
    let main = b.new_label();
    b.op_label(OpCode::Jump, main);
    b.mark_label(f).unwrap();
    b.op_u64(OpCode::LoadArgument, 1);
    b.op(OpCode::Pop);
    b.op_u64(OpCode::NewFunction, 0);
    b.address_of(g);
    b.op_u64(OpCode::BindArgument, 1);
    b.op_u64(OpCode::Call, 0);
    b.op(OpCode::Return);
    b.mark_label(g).unwrap();
    b.op_u64(OpCode::LoadUpvalue, 0);
    b.op(OpCode::Return);
    b.mark_label(main).unwrap();
    const_int(&mut b, 10);
    const_int(&mut b, 20);
    b.op_u64(OpCode::NewFunction, 2);
    b.address_of(f);
    b.op_u64(OpCode::Call, 2);
    let mut interpreter = Interpreter::new(Agent::new());
    assert_eq!(finished(run(&mut interpreter, &code(b))), Ok(Value::Integer(20)));
    assert_eq!(interpreter.stack_depth(), 0);
}

#[test]
fn loads_outside_a_frame_fail() {
    let mut b = Bytecode::new();
    b.op_u64(OpCode::LoadArgument, 0);
    let mut interpreter = Interpreter::new(Agent::new());
    assert_eq!(finished(run(&mut interpreter, &code(b))), Err(VmError::InternalInvariant));
    let mut b = Bytecode::new();
    b.op_u64(OpCode::LoadUpvalue, 0);
    let mut interpreter = Interpreter::new(Agent::new());
    assert_eq!(finished(run(&mut interpreter, &code(b))), Err(VmError::InternalInvariant));
}
