use mini_compiler::instruction::{Arg, Instruction, Reg};
use mini_compiler::render::{arg_to_string, asm_to_string, reg_to_string};

#[test]
fn it_converts_rax_to_string() {
    assert_eq!(reg_to_string(&Reg::Rax), "rax");
    assert_eq!(reg_to_string(&Reg::Rsp), "rsp");
}

#[test]
fn it_converts_constant_to_string() {
    for value in [0i64, 7, 10, 420, -1, -420, i64::MAX, i64::MIN] {
        assert_eq!(arg_to_string(&Arg::Constant(value)), value.to_string());
    }
}

#[test]
fn it_converts_registry_to_string() {
    assert_eq!(arg_to_string(&Arg::Registry(Reg::Rax)), reg_to_string(&Reg::Rax));
}

#[test]
fn offsets_render_after_a_literal_plus() {
    assert_eq!(arg_to_string(&Arg::RegistryOffset(Reg::Rsp, -1)), "rsp + -1");
    assert_eq!(arg_to_string(&Arg::RegistryOffset(Reg::Rsp, 16)), "rsp + 16");
}

#[test]
fn it_converts_instructions_to_string() {
    let instructions = vec![
        Instruction::Mov(Arg::Registry(Reg::Rax), Arg::Constant(5)),
        Instruction::Add(Arg::Registry(Reg::Rax), Arg::Constant(-3)),
        Instruction::Sub(Arg::Registry(Reg::Rax), Arg::Constant(12)),
        Instruction::Inc(Arg::Registry(Reg::Rax)),
        Instruction::Dec(Arg::RegistryOffset(Reg::Rsp, -2)),
    ];
    assert_eq!(
        asm_to_string(instructions),
        "mov rax, 5\nadd rax, -3\nsub rax, 12\ninc rax\ndec rsp + -2"
    );
}

#[test]
fn empty_program_renders_empty() {
    assert_eq!(asm_to_string(vec![]), "");
}

#[test]
fn single_instruction_has_no_newline() {
    let text = asm_to_string(vec![Instruction::Mov(Arg::Registry(Reg::Rax), Arg::Constant(-9))]);
    assert_eq!(text, "mov rax, -9");
}
