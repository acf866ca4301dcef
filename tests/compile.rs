use mini_compiler::compile::{compile, compile_expression, UnboundIdentifier};
use mini_compiler::env::Env;
use mini_compiler::expr::Expression;
use mini_compiler::instruction::{Arg, Instruction, Reg};
use mini_compiler::render::asm_to_string;

fn rax() -> Arg {
    Arg::Registry(Reg::Rax)
}

fn slot(n: i64) -> Arg {
    Arg::RegistryOffset(Reg::Rsp, -n)
}

fn num(v: i64) -> Box<Expression> {
    Box::new(Expression::Number(v))
}

fn name(s: &str) -> Box<Expression> {
    Box::new(Expression::Identifier(s.to_string()))
}

const VALUES: [i64; 6] = [0, 1, -1, 420, i64::MAX, i64::MIN];

#[test]
fn test_compile_expression_number() {
    for value in VALUES {
        let code = compile_expression(&Expression::Number(value), &mut Env::new()).unwrap();
        assert_eq!(code, vec![Instruction::Mov(rax(), Arg::Constant(value))]);
    }
}

#[test]
fn number_renders_as_one_mov() {
    for value in VALUES {
        let code = compile(&Expression::Number(value)).unwrap();
        assert_eq!(asm_to_string(code), format!("mov rax, {}", value));
    }
}

#[test]
fn test_compile_expression_increment() {
    for value in VALUES {
        let code = compile_expression(&Expression::Increment(num(value)), &mut Env::new()).unwrap();
        assert_eq!(code, vec![Instruction::Mov(rax(), Arg::Constant(value)), Instruction::Inc(rax())]);
        assert_eq!(code.last(), Some(&Instruction::Inc(rax())));
    }
}

#[test]
fn test_compile_expression_decrement() {
    for value in VALUES {
        let code = compile_expression(&Expression::Decrement(num(value)), &mut Env::new()).unwrap();
        assert_eq!(code, vec![Instruction::Mov(rax(), Arg::Constant(value)), Instruction::Dec(rax())]);
        assert_eq!(code.last(), Some(&Instruction::Dec(rax())));
    }
}

#[test]
fn test_compile_expression_let() {
    for value in VALUES {
        let expression = Expression::Let("x".to_string(), num(value), name("x"));
        let code = compile_expression(&expression, &mut Env::new()).unwrap();
        assert_eq!(
            code,
            vec![
                Instruction::Mov(rax(), Arg::Constant(value)),
                Instruction::Mov(slot(1), rax()),
                Instruction::Mov(rax(), slot(1)),
            ]
        );
    }
}

#[test]
fn test_compile_expression_identifier_not_found() {
    let result = compile_expression(&Expression::Identifier("x".to_string()), &mut Env::new());
    assert_eq!(result, Err(UnboundIdentifier { name: "x".to_string() }));
}

#[test]
fn test_compile_expression_mixed() {
    for value in VALUES {
        let expression = Expression::Let(
            "x".to_string(),
            Box::new(Expression::Increment(num(value))),
            Box::new(Expression::Decrement(name("x"))),
        );
        let code = compile_expression(&expression, &mut Env::new()).unwrap();
        assert_eq!(
            code,
            vec![
                Instruction::Mov(rax(), Arg::Constant(value)),
                Instruction::Inc(rax()),
                Instruction::Mov(slot(1), rax()),
                Instruction::Mov(rax(), slot(1)),
                Instruction::Dec(rax()),
            ]
        );
    }
}

#[test]
fn rebinding_resolves_to_the_newest_slot() {
    // let x = 1; let y = 2; let x = 3; x
    let expression = Expression::Let(
        "x".to_string(),
        num(1),
        Box::new(Expression::Let(
            "y".to_string(),
            num(2),
            Box::new(Expression::Let("x".to_string(), num(3), name("x"))),
        )),
    );
    let code = compile(&expression).unwrap();
    assert_eq!(
        code,
        vec![
            Instruction::Mov(rax(), Arg::Constant(1)),
            Instruction::Mov(slot(1), rax()),
            Instruction::Mov(rax(), Arg::Constant(2)),
            Instruction::Mov(slot(2), rax()),
            Instruction::Mov(rax(), Arg::Constant(3)),
            Instruction::Mov(slot(3), rax()),
            Instruction::Mov(rax(), slot(3)),
        ]
    );
}

#[test]
fn a_name_is_not_visible_in_its_own_initializer() {
    let expression = Expression::Let("x".to_string(), name("x"), name("x"));
    assert_eq!(compile(&expression), Err(UnboundIdentifier { name: "x".to_string() }));
}

#[test]
fn an_initializer_sees_the_earlier_binding() {
    // let x = 5; let x = x++; x
    let expression = Expression::Let(
        "x".to_string(),
        num(5),
        Box::new(Expression::Let(
            "x".to_string(),
            Box::new(Expression::Increment(name("x"))),
            name("x"),
        )),
    );
    let code = compile(&expression).unwrap();
    assert_eq!(
        code,
        vec![
            Instruction::Mov(rax(), Arg::Constant(5)),
            Instruction::Mov(slot(1), rax()),
            Instruction::Mov(rax(), slot(1)),
            Instruction::Inc(rax()),
            Instruction::Mov(slot(2), rax()),
            Instruction::Mov(rax(), slot(2)),
        ]
    );
}

#[test]
fn unbound_name_in_a_body_fails() {
    let expression = Expression::Let("x".to_string(), num(1), name("y"));
    let mut env = Env::new();
    assert_eq!(
        compile_expression(&expression, &mut env),
        Err(UnboundIdentifier { name: "y".to_string() })
    );
}
