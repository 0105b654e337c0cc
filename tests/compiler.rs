use stackvm::agent::Agent;
use stackvm::ast::{Expression, ExpressionKind, Statement, StatementKind};
use stackvm::bytecode::{Bytecode, CodeObject};
use stackvm::compiler::Compiler;
use stackvm::error::VmError;
use stackvm::instruction::{decode_all, Instruction};
use stackvm::interpreter::{Interpreter, Step};
use stackvm::opcode::OpCode;
use stackvm::value::{FunctionValue, Value};

fn ident(id: usize) -> Expression {
    Expression { value: ExpressionKind::Identifier(id) }
}

fn let_statement(id: usize) -> Statement {
    Statement { value: StatementKind::Let { name: ident(id), value: None } }
}

fn function_statement(id: usize, parameters: Vec<usize>, body: Vec<Statement>) -> Statement {
    Statement {
        value: StatementKind::Function {
            name: ident(id),
            parameters: parameters.into_iter().map(ident).collect(),
            body,
        },
    }
}

#[test]
fn test_let_declaration_without_value() -> Result<(), VmError> {
    let mut agent = Agent::new();
    let ident_test = agent.intern_string("test");

    let ast = vec![let_statement(ident_test)];

    let compiler = Compiler::new();
    let bytecode = CodeObject::new(compiler.compile(ast)?);

    let mut expected = Bytecode::new();
    expected.op(OpCode::ConstNull);
    expected.op_u64(OpCode::DeclareGlobal, ident_test as u64);
    expected.op_u64(OpCode::StoreGlobal, ident_test as u64);
    let expected = CodeObject::new(expected.finalize()?);

    assert_eq!(bytecode, expected);

    Ok(())
}

#[test]
fn test_function_declaration() -> Result<(), VmError> {
    let mut agent = Agent::new();
    let ident_test = agent.intern_string("test");

    let ast = vec![function_statement(ident_test, vec![], vec![])];

    let compiler = Compiler::new();
    let bytecode = CodeObject::new(compiler.compile(ast)?);

    let mut expected = Bytecode::new();
    let start = expected.new_label();
    let end = expected.new_label();
    expected.op_u64(OpCode::NewFunction, 0);
    expected.address_of(start);
    expected.op_u64(OpCode::DeclareGlobal, ident_test as u64);
    expected.op_u64(OpCode::StoreGlobal, ident_test as u64);
    expected.op_label(OpCode::Jump, end);
    expected.mark_label(start)?;
    expected.op(OpCode::ConstNull);
    expected.op(OpCode::Return);
    expected.mark_label(end)?;
    let expected = CodeObject::new(expected.finalize()?);

    assert_eq!(bytecode, expected);

    Ok(())
}

fn evaluate(interpreter: &mut Interpreter, code: &CodeObject) -> Result<Value, VmError> {
    match interpreter.evaluate(code) {
        Step::Finished(v) => Ok(v),
        Step::Failed(e) => Err(e),
        other => panic!("unexpected step {:?}", other),
    }
}

#[test]
fn let_at_top_level_runs_to_an_empty_stack() {
    let mut agent = Agent::new();
    let id = agent.intern_string("test");
    let code = CodeObject::new(Compiler::new().compile(vec![let_statement(id)]).unwrap());
    let mut interpreter = Interpreter::new(agent);
    assert_eq!(evaluate(&mut interpreter, &code), Ok(Value::Null));
    assert_eq!(interpreter.stack_depth(), 0);
    assert_eq!(interpreter.global(id), Some(Value::Null));
}

#[test]
fn function_declaration_binds_a_user_function() {
    let mut agent = Agent::new();
    let id = agent.intern_string("test");
    let code = CodeObject::new(Compiler::new().compile(vec![function_statement(id, vec![], vec![])]).unwrap());
    // NewFunction (17 bytes), DeclareGlobal and StoreGlobal (18), Jump (9).
    assert_eq!(code.instructions.len(), 17 + 18 + 9 + 2);
    let mut interpreter = Interpreter::new(agent);
    assert_eq!(evaluate(&mut interpreter, &code), Ok(Value::Null));
    assert_eq!(interpreter.stack_depth(), 0);
    assert_eq!(
        interpreter.global(id),
        Some(Value::Function(FunctionValue::User { name: None, address: 44, arity: 0, upvalues: vec![] }))
    );
}

#[test]
fn nested_declarations_become_locals() {
    let mut agent = Agent::new();
    let x = agent.intern_string("x");
    let outer = agent.intern_string("outer");
    let y = agent.intern_string("y");
    let inner = agent.intern_string("inner");
    let a = agent.intern_string("a");
    let program = vec![
        let_statement(x),
        function_statement(outer, vec![a], vec![let_statement(y), function_statement(inner, vec![], vec![])]),
    ];
    let code = Compiler::new().compile(program).unwrap();
    let code = CodeObject::new(code);
    let mut interpreter = Interpreter::new(agent);
    assert_eq!(evaluate(&mut interpreter, &code), Ok(Value::Null));
    match interpreter.global(outer) {
        Some(Value::Function(FunctionValue::User { arity, .. })) => assert_eq!(arity, 1),
        other => panic!("unexpected {:?}", other),
    }
}

#[test]
fn unsupported_statements_fail_to_compile() {
    let program = vec![Statement { value: StatementKind::Break }];
    assert_eq!(Compiler::new().compile(program), Err(VmError::Compile));

    let bad_name = Statement {
        value: StatementKind::Let { name: Expression { value: ExpressionKind::Integer(1) }, value: None },
    };
    assert_eq!(Compiler::new().compile(vec![bad_name]), Err(VmError::Compile));

    let bad_parameter = Statement {
        value: StatementKind::Function {
            name: ident(0),
            parameters: vec![Expression { value: ExpressionKind::Null }],
            body: vec![],
        },
    };
    assert_eq!(Compiler::new().compile(vec![bad_parameter]), Err(VmError::Compile));

    let nested_bad = function_statement(0, vec![], vec![Statement { value: StatementKind::Continue }]);
    assert_eq!(Compiler::new().compile(vec![nested_bad]), Err(VmError::Compile));
}

#[test]
fn let_with_literal_initializers() {
    let mut agent = Agent::new();
    let x = agent.intern_string("x");
    let s = agent.intern_string("s");
    let hello = agent.intern_string("hello");
    let f = agent.intern_string("f");
    let y = agent.intern_string("y");
    let literal = |kind: ExpressionKind| Some(Expression { value: kind });
    let program = vec![
        Statement { value: StatementKind::Let { name: ident(x), value: literal(ExpressionKind::Integer(-5)) } },
        Statement { value: StatementKind::Let { name: ident(s), value: literal(ExpressionKind::String(hello)) } },
        function_statement(
            f,
            vec![],
            vec![Statement { value: StatementKind::Let { name: ident(y), value: literal(ExpressionKind::Boolean(true)) } }],
        ),
    ];
    let bytes = Compiler::new().compile(program).unwrap();

    let mut expected = Bytecode::new();
    expected.op_u64(OpCode::ConstInt, (-5i64) as u64);
    expected.op_u64(OpCode::DeclareGlobal, x as u64);
    expected.op_u64(OpCode::StoreGlobal, x as u64);
    expected.op_u64(OpCode::ConstString, hello as u64);
    expected.op_u64(OpCode::DeclareGlobal, s as u64);
    expected.op_u64(OpCode::StoreGlobal, s as u64);
    let start = expected.new_label();
    let end = expected.new_label();
    expected.op_u64(OpCode::NewFunction, 0);
    expected.address_of(start);
    expected.op_u64(OpCode::DeclareGlobal, f as u64);
    expected.op_u64(OpCode::StoreGlobal, f as u64);
    expected.op_label(OpCode::Jump, end);
    expected.mark_label(start).unwrap();
    expected.op(OpCode::ConstTrue);
    expected.op(OpCode::ConstNull);
    expected.op(OpCode::Return);
    expected.mark_label(end).unwrap();
    assert_eq!(bytes, expected.finalize().unwrap());

    let code = CodeObject::new(bytes);
    let mut interpreter = Interpreter::new(agent);
    assert_eq!(evaluate(&mut interpreter, &code), Ok(Value::Null));
    assert_eq!(interpreter.global(x), Some(Value::Integer(-5)));
    assert_eq!(interpreter.global(s), Some(Value::String(hello)));
}

fn expression_statement(e: Expression) -> Statement {
    Statement { value: StatementKind::Expression(e) }
}

fn listing(bytes: &Vec<u8>) -> Vec<Instruction> {
    decode_all(bytes).unwrap().into_iter().map(|(_, i)| i).collect()
}

#[test]
fn closure_captures_enclosing_local_and_reads_global() {
    // let x; function outer() { let y; function inner() { x; y; } }
    let mut agent = Agent::new();
    let x = agent.intern_string("x");
    let outer = agent.intern_string("outer");
    let y = agent.intern_string("y");
    let inner = agent.intern_string("inner");
    let program = vec![
        let_statement(x),
        function_statement(
            outer,
            vec![],
            vec![
                let_statement(y),
                function_statement(inner, vec![], vec![expression_statement(ident(x)), expression_statement(ident(y))]),
            ],
        ),
    ];
    let bytes = Compiler::new().compile(program).unwrap();
    let ins = listing(&bytes);
    // x is a global: a load, no capture. y is outer's first Local, captured as inner's upvalue 0.
    assert!(ins.contains(&Instruction::LoadGlobal(x as u64)));
    assert!(ins.contains(&Instruction::LoadUpvalue(0)));
    let binds: Vec<&Instruction> = ins
        .iter()
        .filter(|i| matches!(i, Instruction::BindLocal(_) | Instruction::BindArgument(_) | Instruction::BindUpvalue(_)))
        .collect();
    assert_eq!(binds, vec![&Instruction::BindLocal(0)]);

    let code = CodeObject::new(bytes);
    let mut interpreter = Interpreter::new(agent);
    assert_eq!(evaluate(&mut interpreter, &code), Ok(Value::Null));
}

#[test]
fn exact_code_of_a_function_with_a_local() {
    let mut agent = Agent::new();
    let f = agent.intern_string("f");
    let a = agent.intern_string("a");
    let bytes = Compiler::new().compile(vec![function_statement(f, vec![], vec![let_statement(a)])]).unwrap();
    let mut expected = Vec::new();
    expected.push(OpCode::NewFunction.to_byte());
    expected.extend_from_slice(&0u64.to_le_bytes());
    expected.extend_from_slice(&44u64.to_le_bytes());
    expected.push(OpCode::DeclareGlobal.to_byte());
    expected.extend_from_slice(&(f as u64).to_le_bytes());
    expected.push(OpCode::StoreGlobal.to_byte());
    expected.extend_from_slice(&(f as u64).to_le_bytes());
    expected.push(OpCode::Jump.to_byte());
    expected.extend_from_slice(&47u64.to_le_bytes());
    expected.push(OpCode::ConstNull.to_byte());
    expected.push(OpCode::ConstNull.to_byte());
    expected.push(OpCode::Return.to_byte());
    assert_eq!(bytes, expected);
}

#[test]
fn parameters_are_arguments_and_captured_by_slot() {
    // function g(a, b) { b; a; function h() { b; a; } }
    let mut agent = Agent::new();
    let g = agent.intern_string("g");
    let a = agent.intern_string("a");
    let b = agent.intern_string("b");
    let h = agent.intern_string("h");
    let program = vec![function_statement(
        g,
        vec![a, b],
        vec![
            expression_statement(ident(b)),
            expression_statement(ident(a)),
            function_statement(h, vec![], vec![expression_statement(ident(b)), expression_statement(ident(a))]),
        ],
    )];
    let bytes = Compiler::new().compile(program).unwrap();
    let ins = listing(&bytes);
    assert_eq!(ins[0], Instruction::NewFunction(2, 44));
    assert!(ins.contains(&Instruction::LoadArgument(1)));
    assert!(ins.contains(&Instruction::LoadArgument(0)));
    assert!(ins.contains(&Instruction::LoadUpvalue(0)));
    assert!(ins.contains(&Instruction::LoadUpvalue(1)));
    let binds: Vec<&Instruction> =
        ins.iter().filter(|i| matches!(i, Instruction::BindArgument(_) | Instruction::BindLocal(_))).collect();
    // First reference order: b, then a.
    assert_eq!(binds, vec![&Instruction::BindArgument(1), &Instruction::BindArgument(0)]);
}

#[test]
fn capture_through_an_intermediate_function() {
    // function f() { let v; function g() { function k() { v; } } }
    let mut agent = Agent::new();
    let f = agent.intern_string("f");
    let v = agent.intern_string("v");
    let g = agent.intern_string("g");
    let k = agent.intern_string("k");
    let program = vec![function_statement(
        f,
        vec![],
        vec![
            let_statement(v),
            function_statement(g, vec![], vec![function_statement(k, vec![], vec![expression_statement(ident(v))])]),
        ],
    )];
    let bytes = Compiler::new().compile(program).unwrap();
    let ins = listing(&bytes);
    let binds: Vec<&Instruction> = ins
        .iter()
        .filter(|i| matches!(i, Instruction::BindLocal(_) | Instruction::BindArgument(_) | Instruction::BindUpvalue(_)))
        .collect();
    // k binds g's upvalue 0; g binds f's Local 0.
    assert_eq!(binds, vec![&Instruction::BindUpvalue(0), &Instruction::BindLocal(0)]);
}

#[test]
fn top_level_names_are_globals() {
    let mut agent = Agent::new();
    let x = agent.intern_string("x");
    let y = agent.intern_string("y");
    let program = vec![
        Statement { value: StatementKind::Let { name: ident(x), value: Some(Expression { value: ExpressionKind::Integer(7) }) } },
        Statement { value: StatementKind::Let { name: ident(y), value: Some(ident(x)) } },
        expression_statement(ident(y)),
    ];
    let bytes = Compiler::new().compile(program).unwrap();
    let code = CodeObject::new(bytes);
    let mut interpreter = Interpreter::new(agent);
    assert_eq!(evaluate(&mut interpreter, &code), Ok(Value::Null));
    assert_eq!(interpreter.global(y), Some(Value::Integer(7)));
}

#[test]
fn exact_code_of_a_function_with_parameters() {
    let mut agent = Agent::new();
    let g = agent.intern_string("g");
    let a = agent.intern_string("a");
    let b = agent.intern_string("b");
    let bytes = Compiler::new().compile(vec![function_statement(g, vec![a, b], vec![])]).unwrap();
    let mut expected = Vec::new();
    expected.push(OpCode::NewFunction.to_byte());
    expected.extend_from_slice(&2u64.to_le_bytes());
    expected.extend_from_slice(&44u64.to_le_bytes());
    expected.push(OpCode::DeclareGlobal.to_byte());
    expected.extend_from_slice(&(g as u64).to_le_bytes());
    expected.push(OpCode::StoreGlobal.to_byte());
    expected.extend_from_slice(&(g as u64).to_le_bytes());
    expected.push(OpCode::Jump.to_byte());
    expected.extend_from_slice(&46u64.to_le_bytes());
    expected.push(OpCode::ConstNull.to_byte());
    expected.push(OpCode::Return.to_byte());
    assert_eq!(bytes, expected);
}

#[test]
fn a_body_ending_in_a_declaration_still_returns() {
    // function f() { function g() {} }: f's body ends with g's binding code,
    // and f gets its own ConstNull; Return.
    let mut agent = Agent::new();
    let f = agent.intern_string("f");
    let g = agent.intern_string("g");
    let bytes = Compiler::new().compile(vec![function_statement(f, vec![], vec![function_statement(g, vec![], vec![])])]).unwrap();
    let ins = listing(&bytes);
    let returns = ins.iter().filter(|i| **i == Instruction::Return).count();
    assert_eq!(returns, 2);
    assert_eq!(ins[ins.len() - 1], Instruction::Return);
    assert_eq!(ins[ins.len() - 2], Instruction::ConstNull);
}
