use vstd::prelude::*;

use crate::compile::{compile, spec_compile, UnboundIdentifier};
use crate::instruction::Instruction;
use crate::parse::{parse, parse_error_text, spec_parse, ParseError, ParseErrorModel};
use crate::text::push_str;
use crate::tokenize::{lex, lex_error_text, tokenize, LexError, LexErrorModel};

verus! {

/// The first error met on the way from source text to instructions.
#[derive(Debug, PartialEq, Clone)]
pub enum CompileError {
    Lex(LexError),
    Parse(ParseError),
    Unbound(UnboundIdentifier),
}

pub ghost enum CompileErrorModel {
    Lex(LexErrorModel),
    Parse(ParseErrorModel),
    Unbound(Seq<char>),
}

impl View for CompileError {
    type V = CompileErrorModel;

    open spec fn view(&self) -> CompileErrorModel {
        match self {
            CompileError::Lex(e) => CompileErrorModel::Lex(e@),
            CompileError::Parse(e) => CompileErrorModel::Parse(e@),
            CompileError::Unbound(u) => CompileErrorModel::Unbound(u.name@),
        }
    }
}

/// Tokenizes, parses and compiles a source text; the first failing stage
/// decides the error.
pub open spec fn spec_compile_source(s: Seq<char>) -> Result<Seq<Instruction>, CompileErrorModel> {
    match lex(s) {
        Err(e) => Err(CompileErrorModel::Lex(e)),
        Ok(tokens) => match spec_parse(tokens) {
            Err(e) => Err(CompileErrorModel::Parse(e)),
            Ok(e) => match spec_compile(e) {
                Err(name) => Err(CompileErrorModel::Unbound(name)),
                Ok(code) => Ok(code),
            },
        },
    }
}

/// Compiles a source text into instructions. No stage is run after one
/// that fails.
pub fn compile_source(source: &str) -> (r: Result<Vec<Instruction>, CompileError>)
    requires
        source@.len() < i64::MAX,
    ensures
        match r {
            Ok(code) => spec_compile_source(source@) == Ok::<Seq<Instruction>, CompileErrorModel>(code@),
            Err(e) => spec_compile_source(source@) == Err::<Seq<Instruction>, CompileErrorModel>(e@),
        },
{
    let tokens = match tokenize(source) {
        Ok(tokens) => tokens,
        Err(e) => {
            return Err(CompileError::Lex(e));
        },
    };
    let expression = match parse(tokens.as_slice()) {
        Ok(expression) => expression,
        Err(e) => {
            return Err(CompileError::Parse(e));
        },
    };
    match compile(&expression) {
        Ok(code) => Ok(code),
        Err(u) => Err(CompileError::Unbound(u)),
    }
}

/// The message of an error of any stage.
pub open spec fn compile_error_text(e: CompileErrorModel) -> Seq<char> {
    match e {
        CompileErrorModel::Lex(e) => lex_error_text(e),
        CompileErrorModel::Parse(e) => parse_error_text(e),
        CompileErrorModel::Unbound(name) => "Unbound identifier: "@ + name,
    }
}

impl CompileError {
    /// The message of this error.
    pub fn message(&self) -> (r: String)
        ensures
            r@ == compile_error_text(self@),
    {
        match self {
            CompileError::Lex(e) => e.message(),
            CompileError::Parse(e) => e.message(),
            CompileError::Unbound(u) => {
                let mut out = String::new();
                push_str(&mut out, "Unbound identifier: ");
                push_str(&mut out, u.name.as_str());
                proof {
                    assert(out@ =~= compile_error_text(self@));
                }
                out
            },
        }
    }
}

} // verus!
