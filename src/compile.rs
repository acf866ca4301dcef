use vstd::prelude::*;

use crate::env::{bound, empty_env, reserved, Env, EnvModel};
use crate::expr::{let_count, ExprModel, Expression};
use crate::instruction::{Arg, Instruction, Reg};

verus! {

/// A name that is used where no binding of it is visible.
#[derive(Debug, PartialEq, Clone)]
pub struct UnboundIdentifier {
    pub name: String,
}

pub open spec fn accumulator() -> Arg {
    Arg::Registry(Reg::Rax)
}

/// The stack operand of `slot`.
pub open spec fn slot_operand(slot: int) -> Arg {
    Arg::RegistryOffset(Reg::Rsp, (-slot) as i64)
}

/// The instructions for `e` under `env`, with the environment afterwards,
/// or the first name that is used unbound.
pub open spec fn compile_model(e: ExprModel, env: EnvModel) -> Result<(Seq<Instruction>, EnvModel), Seq<char>>
    decreases e,
{
    match e {
        ExprModel::Number(v) => Ok((seq![Instruction::Mov(accumulator(), Arg::Constant(v))], env)),
        ExprModel::Increment(inner) => match compile_model(*inner, env) {
            Ok((code, after)) => Ok((code.push(Instruction::Inc(accumulator())), after)),
            Err(name) => Err(name),
        },
        ExprModel::Decrement(inner) => match compile_model(*inner, env) {
            Ok((code, after)) => Ok((code.push(Instruction::Dec(accumulator())), after)),
            Err(name) => Err(name),
        },
        ExprModel::Identifier(name) => if env.slots.contains_key(name) {
            Ok((seq![Instruction::Mov(accumulator(), slot_operand(env.slots[name]))], env))
        } else {
            Err(name)
        },
        ExprModel::Let(name, value, body) => {
            let slot = env.next;
            match compile_model(*value, reserved(env)) {
                Err(n) => Err(n),
                Ok((value_code, after_value)) => match compile_model(*body, bound(after_value, name, slot)) {
                    Err(n) => Err(n),
                    Ok((body_code, after_body)) => Ok((
                        value_code.push(Instruction::Mov(slot_operand(slot), accumulator())) + body_code,
                        after_body,
                    )),
                },
            }
        },
    }
}

/// The instructions for `e` under a fresh environment, or the first name
/// that is used unbound.
pub open spec fn spec_compile(e: ExprModel) -> Result<Seq<Instruction>, Seq<char>> {
    match compile_model(e, empty_env()) {
        Ok((code, _)) => Ok(code),
        Err(name) => Err(name),
    }
}

/// Compiles `expression` into instructions that leave its value in the
/// accumulator, binding the names of its `let`s in `env`.
pub fn compile_expression(expression: &Expression, env: &mut Env) -> (r: Result<Vec<Instruction>, UnboundIdentifier>)
    requires
        old(env).wf(),
        old(env)@.next + let_count(expression@) <= i64::MAX,
    ensures
        final(env).wf(),
        match r {
            Ok(code) => {
                &&& compile_model(expression@, old(env)@) == Ok::<(Seq<Instruction>, EnvModel), Seq<char>>(
                    (code@, final(env)@),
                )
                &&& final(env)@.next == old(env)@.next + let_count(expression@)
            },
            Err(u) => compile_model(expression@, old(env)@) == Err::<(Seq<Instruction>, EnvModel), Seq<char>>(
                u.name@,
            ),
        },
    decreases expression,
{
    match expression {
        Expression::Number(value) => {
            let code = vec![Instruction::Mov(Arg::Registry(Reg::Rax), Arg::Constant(*value))];
            proof {
                assert(code@ =~= seq![Instruction::Mov(accumulator(), Arg::Constant(*value))]);
            }
            Ok(code)
        },
        Expression::Increment(inner) => {
            let mut code = match compile_expression(inner, env) {
                Ok(c) => c,
                Err(u) => {
                    return Err(u);
                },
            };
            code.push(Instruction::Inc(Arg::Registry(Reg::Rax)));
            Ok(code)
        },
        Expression::Decrement(inner) => {
            let mut code = match compile_expression(inner, env) {
                Ok(c) => c,
                Err(u) => {
                    return Err(u);
                },
            };
            code.push(Instruction::Dec(Arg::Registry(Reg::Rax)));
            Ok(code)
        },
        Expression::Identifier(name) => match env.lookup(name) {
            Some(slot) => {
                let offset = -slot;
                let code = vec![Instruction::Mov(Arg::Registry(Reg::Rax), Arg::RegistryOffset(Reg::Rsp, offset))];
                proof {
                    assert(code@ =~= seq![Instruction::Mov(accumulator(), slot_operand(slot as int))]);
                }
                Ok(code)
            },
            None => Err(UnboundIdentifier { name: name.clone() }),
        },
        Expression::Let(name, value, body) => {
            let slot = env.reserve();
            let mut code = match compile_expression(value, env) {
                Ok(c) => c,
                Err(u) => {
                    return Err(u);
                },
            };
            let offset = -slot;
            code.push(Instruction::Mov(Arg::RegistryOffset(Reg::Rsp, offset), Arg::Registry(Reg::Rax)));
            env.bind(name.clone(), slot);
            let mut body_code = match compile_expression(body, env) {
                Ok(c) => c,
                Err(u) => {
                    return Err(u);
                },
            };
            let ghost before = code@;
            let ghost body_before = body_code@;
            code.append(&mut body_code);
            proof {
                assert(code@ =~= before + body_before);
            }
            Ok(code)
        },
    }
}

/// Compiles a whole program under a fresh environment.
pub fn compile(program: &Expression) -> (r: Result<Vec<Instruction>, UnboundIdentifier>)
    requires
        let_count(program@) < i64::MAX,
    ensures
        match r {
            Ok(code) => spec_compile(program@) == Ok::<Seq<Instruction>, Seq<char>>(code@),
            Err(u) => spec_compile(program@) == Err::<Seq<Instruction>, Seq<char>>(u.name@),
        },
{
    let mut env = Env::new();
    compile_expression(program, &mut env)
}

/// The code of an increment ends by incrementing the accumulator, and the
/// code of a decrement by decrementing it, whatever the operand.
pub proof fn lemma_postfix_code_ends(e: ExprModel, env: EnvModel)
    ensures
        compile_model(ExprModel::Increment(Box::new(e)), env) matches Ok((code, _)) ==> code.last()
            == Instruction::Inc(accumulator()),
        compile_model(ExprModel::Decrement(Box::new(e)), env) matches Ok((code, _)) ==> code.last()
            == Instruction::Dec(accumulator()),
{
}

/// A number incremented or decremented compiles, in any environment, to
/// code whose last instruction increments or decrements the accumulator.
pub proof fn lemma_number_postfix_code_ends(v: i64, env: EnvModel)
    ensures
        compile_model(ExprModel::Increment(Box::new(ExprModel::Number(v))), env) matches Ok((code, _))
            && code.last() == Instruction::Inc(accumulator()),
        compile_model(ExprModel::Decrement(Box::new(ExprModel::Number(v))), env) matches Ok((code, _))
            && code.last() == Instruction::Dec(accumulator()),
        spec_compile(ExprModel::Increment(Box::new(ExprModel::Number(v)))) matches Ok(code) && code.last()
            == Instruction::Inc(accumulator()),
        spec_compile(ExprModel::Decrement(Box::new(ExprModel::Number(v)))) matches Ok(code) && code.last()
            == Instruction::Dec(accumulator()),
{
    let mov = seq![Instruction::Mov(accumulator(), Arg::Constant(v))];
    assert(compile_model(ExprModel::Number(v), env) == Ok::<(Seq<Instruction>, EnvModel), Seq<char>>((mov, env)));
    assert(compile_model(ExprModel::Number(v), empty_env()) == Ok::<(Seq<Instruction>, EnvModel), Seq<char>>(
        (mov, empty_env()),
    ));
    assert(mov.push(Instruction::Inc(accumulator())).last() == Instruction::Inc(accumulator()));
    assert(mov.push(Instruction::Dec(accumulator())).last() == Instruction::Dec(accumulator()));
}

/// A name on its own, with nothing bound, is an unbound identifier.
pub proof fn lemma_unbound_in_empty_env(name: Seq<char>)
    ensures
        spec_compile(ExprModel::Identifier(name)) == Err::<Seq<Instruction>, Seq<char>>(name),
{
}

} // verus!
