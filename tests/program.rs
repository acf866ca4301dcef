use std::collections::HashMap;

use mini_compiler::instruction::{Arg, Instruction, Reg};
use mini_compiler::parse::ParseError;
use mini_compiler::pipeline::{compile_source, CompileError};
use mini_compiler::render::asm_to_string;
use mini_compiler::tokenize::LexError;

/// Runs a straight-line program on a model of the target machine and
/// returns the final accumulator.
fn run(code: &[Instruction]) -> i64 {
    let mut rax: i64 = 0;
    let mut stack: HashMap<i64, i64> = HashMap::new();
    let read = |arg: &Arg, rax: i64, stack: &HashMap<i64, i64>| match arg {
        Arg::Constant(v) => *v,
        Arg::Registry(Reg::Rax) => rax,
        Arg::Registry(Reg::Rsp) => panic!("the stack pointer is never read"),
        Arg::RegistryOffset(Reg::Rsp, offset) => stack[offset],
        Arg::RegistryOffset(Reg::Rax, _) => panic!("no accumulator-relative operands"),
    };
    for instruction in code {
        match instruction {
            Instruction::Inc(Arg::Registry(Reg::Rax)) => rax += 1,
            Instruction::Dec(Arg::Registry(Reg::Rax)) => rax -= 1,
            Instruction::Mov(Arg::Registry(Reg::Rax), source) => rax = read(source, rax, &stack),
            Instruction::Mov(Arg::RegistryOffset(Reg::Rsp, offset), source) => {
                let value = read(source, rax, &stack);
                stack.insert(*offset, value);
            }
            Instruction::Add(Arg::Registry(Reg::Rax), source) => rax += read(source, rax, &stack),
            Instruction::Sub(Arg::Registry(Reg::Rax), source) => rax -= read(source, rax, &stack),
            other => panic!("unexpected instruction {:?}", other),
        }
    }
    rax
}

fn execute(program: &str) -> i64 {
    run(&compile_source(program).unwrap())
}

#[test]
fn executes_correctly() {
    assert_eq!(execute("420"), 420);
    assert_eq!(execute("0"), 0);
    assert_eq!(execute("-420"), -420);
    assert_eq!(execute("420--"), 419);
    assert_eq!(execute("420   --"), 419);
    assert_eq!(execute("420++"), 421);
    assert_eq!(execute("420   ++"), 421);
    assert_eq!(execute("420++--"), 420);
    assert_eq!(execute("420--++"), 420);
    assert_eq!(execute("420++--++"), 421);
    assert_eq!(execute("let x = 420; x"), 420);
    assert_eq!(execute("let x = 420; x++"), 421);
    assert_eq!(execute("let x = 420; let y = x++; y"), 421);
    assert_eq!(execute("let x = 420; let x = 69; x"), 69);
}

#[test]
fn let_program_compiles_and_renders_in_four_lines() {
    let code = compile_source("let x = 420; x++").unwrap();
    let rsp_1 = Arg::RegistryOffset(Reg::Rsp, -1);
    let rax = Arg::Registry(Reg::Rax);
    assert_eq!(
        code,
        vec![
            Instruction::Mov(rax, Arg::Constant(420)),
            Instruction::Mov(rsp_1, rax),
            Instruction::Mov(rax, rsp_1),
            Instruction::Inc(rax),
        ]
    );
    let text = asm_to_string(code);
    assert_eq!(text, "mov rax, 420\nmov rsp + -1, rax\nmov rax, rsp + -1\ninc rax");
    assert_eq!(text.lines().count(), 4);
}

#[test]
fn decrement_program_ends_at_419() {
    let code = compile_source("420--").unwrap();
    assert_eq!(asm_to_string(code.clone()), "mov rax, 420\ndec rax");
    assert_eq!(run(&code), 419);
}

#[test]
fn the_first_failing_stage_decides_the_error() {
    assert_eq!(compile_source("4 !"), Err(CompileError::Lex(LexError::InvalidCharacter('!'))));
    assert_eq!(compile_source("(x"), Err(CompileError::Parse(ParseError::ExpectedClosingParen)));
    let unbound = compile_source("let a = 1; b").unwrap_err();
    assert_eq!(unbound.message(), "Unbound identifier: b");
    assert_eq!(compile_source("+").unwrap_err().message(), "Invalid token: Expected '++'");
    assert_eq!(compile_source("").unwrap_err().message(), "Unexpected end of input");
}
