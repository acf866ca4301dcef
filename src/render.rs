use vstd::prelude::*;

use crate::compile::spec_compile;
use crate::expr::ExprModel;
use crate::instruction::{Arg, Instruction, Reg};
use crate::text::push_char;

verus! {

pub open spec fn reg_text(reg: Reg) -> Seq<char> {
    match reg {
        Reg::Rax => seq!['r', 'a', 'x'],
        Reg::Rsp => seq!['r', 's', 'p'],
    }
}

pub open spec fn digit_char(d: int) -> char {
    seq!['0', '1', '2', '3', '4', '5', '6', '7', '8', '9'][d]
}

/// The decimal digits of `n`, most significant first, without leading
/// zeros.
pub open spec fn digits_text(n: nat) -> Seq<char>
    decreases n,
{
    if n < 10 {
        seq![digit_char(n as int)]
    } else {
        digits_text(n / 10).push(digit_char((n % 10) as int))
    }
}

/// `v` in decimal, with a leading `-` when it is negative.
pub open spec fn decimal(v: int) -> Seq<char> {
    if v < 0 {
        seq!['-'] + digits_text((-v) as nat)
    } else {
        digits_text(v as nat)
    }
}

pub open spec fn arg_text(arg: Arg) -> Seq<char> {
    match arg {
        Arg::Constant(v) => decimal(v as int),
        Arg::Registry(reg) => reg_text(reg),
        Arg::RegistryOffset(reg, offset) => reg_text(reg) + seq![' ', '+', ' '] + decimal(offset as int),
    }
}

/// A mnemonic and its operands, separated by a space and by commas.
pub open spec fn instruction_text(i: Instruction) -> Seq<char> {
    let comma = seq![',', ' '];
    match i {
        Instruction::Inc(d) => seq!['i', 'n', 'c', ' '] + arg_text(d),
        Instruction::Dec(d) => seq!['d', 'e', 'c', ' '] + arg_text(d),
        Instruction::Mov(d, s) => seq!['m', 'o', 'v', ' '] + arg_text(d) + comma + arg_text(s),
        Instruction::Add(d, s) => seq!['a', 'd', 'd', ' '] + arg_text(d) + comma + arg_text(s),
        Instruction::Sub(d, s) => seq!['s', 'u', 'b', ' '] + arg_text(d) + comma + arg_text(s),
    }
}

/// One line per instruction, joined by single newlines.
pub open spec fn render(code: Seq<Instruction>) -> Seq<char>
    decreases code.len(),
{
    if code.len() == 0 {
        Seq::empty()
    } else if code.len() == 1 {
        instruction_text(code[0])
    } else {
        render(code.drop_last()) + seq!['\n'] + instruction_text(code.last())
    }
}

fn push_all(out: &mut String, cs: &[char])
    ensures
        final(out)@ == old(out)@ + cs@,
{
    let mut k: usize = 0;
    while k < cs.len()
        invariant
            k <= cs.len(),
            out@ == old(out)@ + cs@.subrange(0, k as int),
        decreases cs.len() - k,
    {
        proof {
            assert(cs@.subrange(0, k + 1) =~= cs@.subrange(0, k as int).push(cs@[k as int]));
        }
        push_char(out, cs[k]);
        k = k + 1;
    }
    proof {
        assert(cs@.subrange(0, cs@.len() as int) =~= cs@);
    }
}

fn digit_to_char(d: u64) -> (c: char)
    requires
        d < 10,
    ensures
        c == digit_char(d as int),
{
    let digits = ['0', '1', '2', '3', '4', '5', '6', '7', '8', '9'];
    proof {
        assert(digits@ =~= seq!['0', '1', '2', '3', '4', '5', '6', '7', '8', '9']);
    }
    digits[d as usize]
}

fn push_digits(out: &mut String, n: u64)
    ensures
        final(out)@ == old(out)@ + digits_text(n as nat),
    decreases n,
{
    if n >= 10 {
        push_digits(out, n / 10);
    }
    let c = digit_to_char(n % 10);
    push_char(out, c);
    proof {
        if n >= 10 {
            assert(old(out)@ + digits_text((n / 10) as nat) + seq![c] =~= old(out)@ + digits_text(n as nat));
        } else {
            assert(old(out)@.push(c) =~= old(out)@ + digits_text(n as nat));
        }
    }
}

pub(crate) fn push_decimal(out: &mut String, v: i64)
    ensures
        final(out)@ == old(out)@ + decimal(v as int),
{
    if v < 0 {
        push_char(out, '-');
        let magnitude: u64 = if v == i64::MIN {
            9223372036854775808u64
        } else {
            (-v) as u64
        };
        push_digits(out, magnitude);
        proof {
            assert(old(out)@.push('-') + digits_text(magnitude as nat) =~= old(out)@ + decimal(v as int));
        }
    } else {
        push_digits(out, v as u64);
    }
}

fn push_reg(out: &mut String, reg: &Reg)
    ensures
        final(out)@ == old(out)@ + reg_text(*reg),
{
    match reg {
        Reg::Rax => push_all(out, &['r', 'a', 'x']),
        Reg::Rsp => push_all(out, &['r', 's', 'p']),
    }
    proof {
        assert(out@ =~= old(out)@ + reg_text(*reg));
    }
}

fn push_arg(out: &mut String, arg: &Arg)
    ensures
        final(out)@ == old(out)@ + arg_text(*arg),
{
    match arg {
        Arg::Constant(v) => push_decimal(out, *v),
        Arg::Registry(reg) => push_reg(out, reg),
        Arg::RegistryOffset(reg, offset) => {
            push_reg(out, reg);
            push_all(out, &[' ', '+', ' ']);
            push_decimal(out, *offset);
        },
    }
    proof {
        assert(out@ =~= old(out)@ + arg_text(*arg));
    }
}

fn push_instruction(out: &mut String, instruction: &Instruction)
    ensures
        final(out)@ == old(out)@ + instruction_text(*instruction),
{
    match instruction {
        Instruction::Inc(d) => {
            push_all(out, &['i', 'n', 'c', ' ']);
            push_arg(out, d);
        },
        Instruction::Dec(d) => {
            push_all(out, &['d', 'e', 'c', ' ']);
            push_arg(out, d);
        },
        Instruction::Mov(d, s) => {
            push_all(out, &['m', 'o', 'v', ' ']);
            push_arg(out, d);
            push_all(out, &[',', ' ']);
            push_arg(out, s);
        },
        Instruction::Add(d, s) => {
            push_all(out, &['a', 'd', 'd', ' ']);
            push_arg(out, d);
            push_all(out, &[',', ' ']);
            push_arg(out, s);
        },
        Instruction::Sub(d, s) => {
            push_all(out, &['s', 'u', 'b', ' ']);
            push_arg(out, d);
            push_all(out, &[',', ' ']);
            push_arg(out, s);
        },
    }
    proof {
        assert(out@ =~= old(out)@ + instruction_text(*instruction));
    }
}

/// The assembly name of a register.
pub fn reg_to_string(reg: &Reg) -> (r: String)
    ensures
        r@ == reg_text(*reg),
{
    let mut out = String::new();
    push_reg(&mut out, reg);
    proof {
        assert(out@ =~= reg_text(*reg));
    }
    out
}

/// The assembly text of an operand; a stack operand shows its offset
/// after a literal ` + `, negative or not.
pub fn arg_to_string(arg: &Arg) -> (r: String)
    ensures
        r@ == arg_text(*arg),
{
    let mut out = String::new();
    push_arg(&mut out, arg);
    proof {
        assert(out@ =~= arg_text(*arg));
    }
    out
}

/// The assembly text of a program: one line per instruction, joined by
/// single newlines.
pub fn asm_to_string(instructions: Vec<Instruction>) -> (r: String)
    ensures
        r@ == render(instructions@),
{
    let mut out = String::new();
    let mut k: usize = 0;
    while k < instructions.len()
        invariant
            k <= instructions.len(),
            out@ == render(instructions@.subrange(0, k as int)),
        decreases instructions.len() - k,
    {
        if k > 0 {
            push_char(&mut out, '\n');
        }
        push_instruction(&mut out, &instructions[k]);
        proof {
            let done = instructions@.subrange(0, k + 1);
            assert(done.drop_last() =~= instructions@.subrange(0, k as int));
            assert(out@ =~= render(done));
        }
        k = k + 1;
    }
    proof {
        assert(instructions@.subrange(0, instructions.len() as int) =~= instructions@);
    }
    out
}

/// A program that is a single number renders as one line that moves the
/// number, in decimal, into the accumulator.
pub proof fn lemma_number_program_text(v: i64)
    ensures
        spec_compile(ExprModel::Number(v)) matches Ok(code) && render(code) == seq![
            'm',
            'o',
            'v',
            ' ',
            'r',
            'a',
            'x',
            ',',
            ' ',
        ] + decimal(v as int),
{
    let code = seq![Instruction::Mov(Arg::Registry(Reg::Rax), Arg::Constant(v))];
    assert(spec_compile(ExprModel::Number(v)) == Ok::<Seq<Instruction>, Seq<char>>(code));
    assert(render(code) =~= seq!['m', 'o', 'v', ' ', 'r', 'a', 'x', ',', ' '] + decimal(v as int));
}

} // verus!
