use vstd::prelude::*;

use crate::expr::{let_count, ExprModel, Expression};
use crate::token::{Token, TokenModel};
use crate::render::{decimal, push_decimal};
use crate::text::{push_char, push_str};
use crate::tokenize::tokens_view;

verus! {

/// Why a token sequence is not an expression.
#[derive(Debug, PartialEq, Clone)]
pub enum ParseError {
    /// `let` not followed by a name.
    ExpectedIdentifier,
    /// `let name` not followed by `=`.
    ExpectedAssign,
    /// The value of a `let` not followed by `;`.
    ExpectedLineEnd,
    /// A `(` whose expression is not followed by `)`.
    ExpectedClosingParen,
    /// A token where an expression should start.
    UnexpectedToken(Token),
    /// The end of the tokens where an expression should start.
    UnexpectedEnd,
}

pub ghost enum ParseErrorModel {
    ExpectedIdentifier,
    ExpectedAssign,
    ExpectedLineEnd,
    ExpectedClosingParen,
    UnexpectedToken(TokenModel),
    UnexpectedEnd,
}

impl View for ParseError {
    type V = ParseErrorModel;

    open spec fn view(&self) -> ParseErrorModel {
        match self {
            ParseError::ExpectedIdentifier => ParseErrorModel::ExpectedIdentifier,
            ParseError::ExpectedAssign => ParseErrorModel::ExpectedAssign,
            ParseError::ExpectedLineEnd => ParseErrorModel::ExpectedLineEnd,
            ParseError::ExpectedClosingParen => ParseErrorModel::ExpectedClosingParen,
            ParseError::UnexpectedToken(t) => ParseErrorModel::UnexpectedToken(t@),
            ParseError::UnexpectedEnd => ParseErrorModel::UnexpectedEnd,
        }
    }
}

/// The result of parsing from some index: the expression and how many
/// tokens it took.
pub type Parsed = Result<(ExprModel, nat), ParseErrorModel>;

/// `expression := "let" IDENT "=" expression ";" expression | term`,
/// starting at index `i`.
pub open spec fn ps_expression(ts: Seq<TokenModel>, i: int) -> Parsed
    decreases ts.len() - i, 3nat,
{
    if 0 <= i < ts.len() && ts[i] is Let {
        ps_let(ts, i)
    } else {
        ps_term(ts, i)
    }
}

/// A `let` binding whose `let` token is at index `i`.
pub open spec fn ps_let(ts: Seq<TokenModel>, i: int) -> Parsed
    decreases ts.len() - i, 2nat,
{
    if !(0 <= i && i + 1 < ts.len() && ts[i + 1] is Identifier) {
        Err(ParseErrorModel::ExpectedIdentifier)
    } else if !(i + 2 < ts.len() && ts[i + 2] is Assign) {
        Err(ParseErrorModel::ExpectedAssign)
    } else {
        match ps_expression(ts, i + 3) {
            Err(e) => Err(e),
            Ok((value, c)) => {
                let j = i + 3 + c;
                if !(j < ts.len() && ts[j] is LineEnd) {
                    Err(ParseErrorModel::ExpectedLineEnd)
                } else {
                    match ps_expression(ts, j + 1) {
                        Err(e) => Err(e),
                        Ok((body, c2)) => Ok((
                            ExprModel::Let(ts[i + 1]->Identifier_0, Box::new(value), Box::new(body)),
                            (4 + c + c2) as nat,
                        )),
                    }
                }
            },
        }
    }
}

/// `term := factor ( "++" | "--" )*`, starting at index `i`.
pub open spec fn ps_term(ts: Seq<TokenModel>, i: int) -> Parsed
    decreases ts.len() - i, 1nat,
{
    match ps_factor(ts, i) {
        Err(e) => Err(e),
        Ok((f, c)) => {
            let (e, c2) = postfix(ts, i + c, f);
            Ok((e, c + c2))
        },
    }
}

/// Folds the run of `++` and `--` tokens at index `i` onto `e`, left to
/// right; also gives the length of the run.
pub open spec fn postfix(ts: Seq<TokenModel>, i: int, e: ExprModel) -> (ExprModel, nat)
    decreases ts.len() - i,
{
    if 0 <= i < ts.len() && ts[i] is Increment {
        let (r, c) = postfix(ts, i + 1, ExprModel::Increment(Box::new(e)));
        (r, c + 1)
    } else if 0 <= i < ts.len() && ts[i] is Decrement {
        let (r, c) = postfix(ts, i + 1, ExprModel::Decrement(Box::new(e)));
        (r, c + 1)
    } else {
        (e, 0)
    }
}

/// `factor := NUMBER | IDENT | "(" expression ")"`, starting at index `i`.
pub open spec fn ps_factor(ts: Seq<TokenModel>, i: int) -> Parsed
    decreases ts.len() - i, 0nat,
{
    if !(0 <= i < ts.len()) {
        Err(ParseErrorModel::UnexpectedEnd)
    } else {
        match ts[i] {
            TokenModel::Number(v) => Ok((ExprModel::Number(v), 1)),
            TokenModel::Identifier(name) => Ok((ExprModel::Identifier(name), 1)),
            TokenModel::LParen => match ps_expression(ts, i + 1) {
                Err(e) => Err(e),
                Ok((e, c)) => {
                    let j = i + 1 + c;
                    if j < ts.len() && ts[j] is RParen {
                        Ok((e, c + 2))
                    } else {
                        Err(ParseErrorModel::ExpectedClosingParen)
                    }
                },
            },
            t => Err(ParseErrorModel::UnexpectedToken(t)),
        }
    }
}

/// The expression that a whole token sequence starts with; tokens after it
/// are not looked at.
pub open spec fn spec_parse(ts: Seq<TokenModel>) -> Result<ExprModel, ParseErrorModel> {
    match ps_expression(ts, 0) {
        Ok((e, _)) => Ok(e),
        Err(e) => Err(e),
    }
}

/// `r`, found at `start`, is the executable form of the parse `m`; a
/// successful parse stays within the `len` tokens and holds no more `let`
/// bindings than tokens taken.
pub open spec fn parsed_as(r: Result<(Expression, usize), ParseError>, m: Parsed, start: int, len: int) -> bool {
    match r {
        Ok((e, j)) => {
            &&& m == Ok::<(ExprModel, nat), ParseErrorModel>((e@, (j - start) as nat))
            &&& start <= j <= len
            &&& let_count(e@) <= j - start
        },
        Err(err) => m == Err::<(ExprModel, nat), ParseErrorModel>(err@),
    }
}

/// Parses an expression starting at `index`.
pub fn parse_expression(tokens: &[Token], index: usize) -> (r: Result<(Expression, usize), ParseError>)
    requires
        index <= tokens.len(),
    ensures
        parsed_as(r, ps_expression(tokens_view(tokens@), index as int), index as int, tokens.len() as int),
    decreases tokens.len() - index, 3nat,
{
    if index < tokens.len() && matches!(tokens[index], Token::Let) {
        parse_let(tokens, index)
    } else {
        parse_term(tokens, index)
    }
}

/// Parses `let name = value; body` whose `let` token is at `index`.
pub fn parse_let(tokens: &[Token], index: usize) -> (r: Result<(Expression, usize), ParseError>)
    requires
        index < tokens.len(),
    ensures
        parsed_as(r, ps_let(tokens_view(tokens@), index as int), index as int, tokens.len() as int),
    decreases tokens.len() - index, 2nat,
{
    let ghost ts = tokens_view(tokens@);
    if index + 1 >= tokens.len() {
        return Err(ParseError::ExpectedIdentifier);
    }
    let name = match &tokens[index + 1] {
        Token::Identifier(name) => name.clone(),
        _ => {
            return Err(ParseError::ExpectedIdentifier);
        },
    };
    if !(index + 2 < tokens.len() && matches!(tokens[index + 2], Token::Assign)) {
        return Err(ParseError::ExpectedAssign);
    }
    let (value, body_start) = match parse_expression(tokens, index + 3) {
        Ok(p) => p,
        Err(e) => {
            return Err(e);
        },
    };
    if !(body_start < tokens.len() && matches!(tokens[body_start], Token::LineEnd)) {
        return Err(ParseError::ExpectedLineEnd);
    }
    let (body, end) = match parse_expression(tokens, body_start + 1) {
        Ok(p) => p,
        Err(e) => {
            return Err(e);
        },
    };
    Ok((Expression::Let(name, Box::new(value), Box::new(body)), end))
}

/// Parses a factor followed by a chain of `++` and `--`, folded left to
/// right.
pub fn parse_term(tokens: &[Token], index: usize) -> (r: Result<(Expression, usize), ParseError>)
    requires
        index <= tokens.len(),
    ensures
        parsed_as(r, ps_term(tokens_view(tokens@), index as int), index as int, tokens.len() as int),
    decreases tokens.len() - index, 1nat,
{
    let ghost ts = tokens_view(tokens@);
    let (mut expression, mut i) = match parse_factor(tokens, index) {
        Ok(p) => p,
        Err(e) => {
            return Err(e);
        },
    };
    let ghost first = expression@;
    let ghost after_factor = i;
    while i < tokens.len()
        invariant
            ts == tokens_view(tokens@),
            index <= after_factor <= i <= tokens.len(),
            ({
                let (a, ca) = postfix(ts, after_factor as int, first);
                let (b, cb) = postfix(ts, i as int, expression@);
                a == b && after_factor + ca == i + cb
            }),
            let_count(expression@) == let_count(first),
        ensures
            ts == tokens_view(tokens@),
            index <= after_factor <= i <= tokens.len(),
            ({
                let (a, ca) = postfix(ts, after_factor as int, first);
                let (b, cb) = postfix(ts, i as int, expression@);
                a == b && after_factor + ca == i + cb
            }),
            let_count(expression@) == let_count(first),
            i < tokens.len() ==> !(ts[i as int] is Increment || ts[i as int] is Decrement),
        decreases tokens.len() - i,
    {
        assert(ts[i as int] == tokens@[i as int]@);
        if matches!(tokens[i], Token::Increment) {
            expression = Expression::Increment(Box::new(expression));
        } else if matches!(tokens[i], Token::Decrement) {
            expression = Expression::Decrement(Box::new(expression));
        } else {
            break;
        }
        i = i + 1;
    }
    assert(postfix(ts, i as int, expression@) == (expression@, 0nat));
    Ok((expression, i))
}

/// Parses a number, a name, or a parenthesized expression.
pub fn parse_factor(tokens: &[Token], index: usize) -> (r: Result<(Expression, usize), ParseError>)
    requires
        index <= tokens.len(),
    ensures
        parsed_as(r, ps_factor(tokens_view(tokens@), index as int), index as int, tokens.len() as int),
    decreases tokens.len() - index, 0nat,
{
    if index >= tokens.len() {
        return Err(ParseError::UnexpectedEnd);
    }
    match &tokens[index] {
        Token::Number(value) => Ok((Expression::Number(*value), index + 1)),
        Token::Identifier(name) => Ok((Expression::Identifier(name.clone()), index + 1)),
        Token::LParen => {
            let (expression, next) = match parse_expression(tokens, index + 1) {
                Ok(p) => p,
                Err(e) => {
                    return Err(e);
                },
            };
            if next < tokens.len() && matches!(tokens[next], Token::RParen) {
                Ok((expression, next + 1))
            } else {
                Err(ParseError::ExpectedClosingParen)
            }
        },
        Token::Increment => Err(ParseError::UnexpectedToken(Token::Increment)),
        Token::Decrement => Err(ParseError::UnexpectedToken(Token::Decrement)),
        Token::RParen => Err(ParseError::UnexpectedToken(Token::RParen)),
        Token::Assign => Err(ParseError::UnexpectedToken(Token::Assign)),
        Token::LineEnd => Err(ParseError::UnexpectedToken(Token::LineEnd)),
        Token::Let => Err(ParseError::UnexpectedToken(Token::Let)),
    }
}

/// Parses the expression that `tokens` starts with. Tokens after it are
/// not looked at.
pub fn parse(tokens: &[Token]) -> (r: Result<Expression, ParseError>)
    ensures
        match r {
            Ok(e) => spec_parse(tokens_view(tokens@)) == Ok::<ExprModel, ParseErrorModel>(e@)
                && let_count(e@) <= tokens.len(),
            Err(err) => spec_parse(tokens_view(tokens@)) == Err::<ExprModel, ParseErrorModel>(err@),
        },
{
    match parse_expression(tokens, 0) {
        Ok((expression, _)) => Ok(expression),
        Err(e) => Err(e),
    }
}

/// Whether a parse that reaches the start of `q` stops its chain of `++`
/// and `--` there, as it does at the end of the tokens.
pub open spec fn ends_postfix(q: Seq<TokenModel>) -> bool {
    q.len() == 0 || !(q[0] is Increment || q[0] is Decrement)
}

pub proof fn lemma_postfix_in_context(ts: Seq<TokenModel>, p: Seq<TokenModel>, q: Seq<TokenModel>, i: int, e: ExprModel)
    requires
        0 <= i <= ts.len(),
        ends_postfix(q),
    ensures
        postfix(p + ts + q, p.len() + i, e) == postfix(ts, i, e),
        i + postfix(ts, i, e).1 <= ts.len(),
    decreases ts.len() - i,
{
    let big = p + ts + q;
    if i < ts.len() {
        assert(big[p.len() + i] == ts[i]);
        if ts[i] is Increment {
            lemma_postfix_in_context(ts, p, q, i + 1, ExprModel::Increment(Box::new(e)));
        } else if ts[i] is Decrement {
            lemma_postfix_in_context(ts, p, q, i + 1, ExprModel::Decrement(Box::new(e)));
        }
    } else if q.len() > 0 {
        assert(big[p.len() + i] == q[0]);
    }
}

pub proof fn lemma_expression_in_context(ts: Seq<TokenModel>, p: Seq<TokenModel>, q: Seq<TokenModel>, i: int)
    requires
        0 <= i <= ts.len(),
        ends_postfix(q),
        ps_expression(ts, i) is Ok,
    ensures
        ps_expression(p + ts + q, p.len() + i) == ps_expression(ts, i),
        ps_expression(ts, i) matches Ok((_, c)) && i + c <= ts.len(),
    decreases ts.len() - i, 3nat,
{
    let big = p + ts + q;
    if i < ts.len() {
        assert(big[p.len() + i] == ts[i]);
        if ts[i] is Let {
            lemma_let_in_context(ts, p, q, i);
        } else {
            lemma_term_in_context(ts, p, q, i);
        }
    } else {
        assert(ps_factor(ts, i) is Err);
    }
}

pub proof fn lemma_let_in_context(ts: Seq<TokenModel>, p: Seq<TokenModel>, q: Seq<TokenModel>, i: int)
    requires
        0 <= i < ts.len(),
        ends_postfix(q),
        ps_let(ts, i) is Ok,
    ensures
        ps_let(p + ts + q, p.len() + i) == ps_let(ts, i),
        ps_let(ts, i) matches Ok((_, c)) && i + c <= ts.len(),
    decreases ts.len() - i, 2nat,
{
    let big = p + ts + q;
    let k = p.len();
    assert(big[k + i + 1] == ts[i + 1]);
    assert(big[k + i + 2] == ts[i + 2]);
    lemma_expression_in_context(ts, p, q, i + 3);
    let c = ps_expression(ts, i + 3)->Ok_0.1;
    let j = i + 3 + c;
    assert(big[k + j] == ts[j]);
    lemma_expression_in_context(ts, p, q, j + 1);
}

pub proof fn lemma_term_in_context(ts: Seq<TokenModel>, p: Seq<TokenModel>, q: Seq<TokenModel>, i: int)
    requires
        0 <= i <= ts.len(),
        ends_postfix(q),
        ps_term(ts, i) is Ok,
    ensures
        ps_term(p + ts + q, p.len() + i) == ps_term(ts, i),
        ps_term(ts, i) matches Ok((_, c)) && i + c <= ts.len(),
    decreases ts.len() - i, 1nat,
{
    lemma_factor_in_context(ts, p, q, i);
    let (f, c) = ps_factor(ts, i)->Ok_0;
    lemma_postfix_in_context(ts, p, q, i + c, f);
    assert(p.len() + i + c == p.len() + (i + c));
}

pub proof fn lemma_factor_in_context(ts: Seq<TokenModel>, p: Seq<TokenModel>, q: Seq<TokenModel>, i: int)
    requires
        0 <= i <= ts.len(),
        ends_postfix(q),
        ps_factor(ts, i) is Ok,
    ensures
        ps_factor(p + ts + q, p.len() + i) == ps_factor(ts, i),
        ps_factor(ts, i) matches Ok((_, c)) && i + c <= ts.len(),
    decreases ts.len() - i, 0nat,
{
    let big = p + ts + q;
    let k = p.len();
    assert(big[k + i] == ts[i]);
    if ts[i] is LParen {
        lemma_expression_in_context(ts, p, q, i + 1);
        let c = ps_expression(ts, i + 1)->Ok_0.1;
        let j = i + 1 + c;
        assert(big[k + j] == ts[j]);
    }
}

/// Parentheses are transparent: a token sequence that parses as a whole
/// parses, in parentheses, to the same expression.
pub proof fn lemma_parentheses_transparent(ts: Seq<TokenModel>)
    requires
        ps_expression(ts, 0) matches Ok((_, c)) && c == ts.len(),
    ensures
        spec_parse(seq![TokenModel::LParen] + ts + seq![TokenModel::RParen]) == spec_parse(ts),
{
    let p = seq![TokenModel::LParen];
    let q = seq![TokenModel::RParen];
    let big = p + ts + q;
    lemma_expression_in_context(ts, p, q, 0);
    let e = ps_expression(ts, 0)->Ok_0.0;
    assert(big[0] == TokenModel::LParen);
    assert(big[ts.len() as int + 1] == TokenModel::RParen);
    assert(ps_factor(big, 0) == Ok::<(ExprModel, nat), ParseErrorModel>((e, (ts.len() + 2) as nat)));
    assert(postfix(big, ts.len() as int + 2, e) == (e, 0nat));
}

/// Applies a run of `++` and `--` tokens to `e`, the first one innermost.
pub open spec fn fold_postfix(e: ExprModel, ops: Seq<TokenModel>) -> ExprModel
    decreases ops.len(),
{
    if ops.len() == 0 {
        e
    } else if ops[0] is Increment {
        fold_postfix(ExprModel::Increment(Box::new(e)), ops.drop_first())
    } else {
        fold_postfix(ExprModel::Decrement(Box::new(e)), ops.drop_first())
    }
}

pub open spec fn all_postfix_ops(ops: Seq<TokenModel>) -> bool {
    forall|k: int| 0 <= k < ops.len() ==> (#[trigger] ops[k] is Increment || ops[k] is Decrement)
}

pub proof fn lemma_postfix_run(ts: Seq<TokenModel>, i: int, e: ExprModel)
    requires
        0 <= i <= ts.len(),
        all_postfix_ops(ts.subrange(i, ts.len() as int)),
    ensures
        postfix(ts, i, e) == (fold_postfix(e, ts.subrange(i, ts.len() as int)), (ts.len() - i) as nat),
    decreases ts.len() - i,
{
    let rest = ts.subrange(i, ts.len() as int);
    if i < ts.len() {
        assert(rest[0] == ts[i]);
        assert(rest.drop_first() =~= ts.subrange(i + 1, ts.len() as int));
        assert(all_postfix_ops(ts.subrange(i + 1, ts.len() as int))) by {
            assert forall|k: int| 0 <= k < ts.len() - (i + 1) implies (#[trigger] ts.subrange(
                i + 1,
                ts.len() as int,
            )[k] is Increment || ts.subrange(i + 1, ts.len() as int)[k] is Decrement) by {
                assert(ts.subrange(i + 1, ts.len() as int)[k] == rest[k + 1]);
            }
        }
        if ts[i] is Increment {
            lemma_postfix_run(ts, i + 1, ExprModel::Increment(Box::new(e)));
        } else {
            assert(rest[0] is Decrement);
            lemma_postfix_run(ts, i + 1, ExprModel::Decrement(Box::new(e)));
        }
    } else {
        assert(rest.len() == 0);
    }
}

/// A chain of `++` and `--` after a number folds onto it from the left:
/// the first operator applies first.
pub proof fn lemma_postfix_chain_folds_left(v: i64, ops: Seq<TokenModel>)
    requires
        all_postfix_ops(ops),
    ensures
        spec_parse(seq![TokenModel::Number(v)] + ops) == Ok::<ExprModel, ParseErrorModel>(
            fold_postfix(ExprModel::Number(v), ops),
        ),
{
    let ts = seq![TokenModel::Number(v)] + ops;
    assert(ts.subrange(1, ts.len() as int) =~= ops);
    lemma_postfix_run(ts, 1, ExprModel::Number(v));
    assert(ts[0] == TokenModel::Number(v));
    assert(ps_factor(ts, 0) == Ok::<(ExprModel, nat), ParseErrorModel>((ExprModel::Number(v), 1nat)));
}

/// How a token is written in messages: its kind, and what it holds.
pub open spec fn token_text(t: TokenModel) -> Seq<char> {
    match t {
        TokenModel::Number(v) => "Number("@ + decimal(v as int) + ")"@,
        TokenModel::Increment => "Increment"@,
        TokenModel::Decrement => "Decrement"@,
        TokenModel::LParen => "LParen"@,
        TokenModel::RParen => "RParen"@,
        TokenModel::Assign => "Assign"@,
        TokenModel::LineEnd => "LineEnd"@,
        TokenModel::Let => "Let"@,
        TokenModel::Identifier(name) => "Identifier(\""@ + name + "\")"@,
    }
}

/// The message of a parse error: what was expected, or the offending token.
pub open spec fn parse_error_text(e: ParseErrorModel) -> Seq<char> {
    match e {
        ParseErrorModel::ExpectedIdentifier => "Expected identifier after 'let'"@,
        ParseErrorModel::ExpectedAssign => "Expected '=' in let binding"@,
        ParseErrorModel::ExpectedLineEnd => "Expected ';' at the end of let binding"@,
        ParseErrorModel::ExpectedClosingParen => "Expected closing parenthesis"@,
        ParseErrorModel::UnexpectedToken(t) => "Unexpected token: "@ + token_text(t),
        ParseErrorModel::UnexpectedEnd => "Unexpected end of input"@,
    }
}

impl Token {
    /// The token as it is written in messages.
    pub fn describe(&self) -> (r: String)
        ensures
            r@ == token_text(self@),
    {
        let mut out = String::new();
        match self {
            Token::Number(v) => {
                push_str(&mut out, "Number(");
                push_decimal(&mut out, *v);
                push_str(&mut out, ")");
            },
            Token::Increment => push_str(&mut out, "Increment"),
            Token::Decrement => push_str(&mut out, "Decrement"),
            Token::LParen => push_str(&mut out, "LParen"),
            Token::RParen => push_str(&mut out, "RParen"),
            Token::Assign => push_str(&mut out, "Assign"),
            Token::LineEnd => push_str(&mut out, "LineEnd"),
            Token::Let => push_str(&mut out, "Let"),
            Token::Identifier(name) => {
                push_str(&mut out, "Identifier(\"");
                push_str(&mut out, name.as_str());
                push_str(&mut out, "\")");
            },
        }
        proof {
            assert(out@ =~= token_text(self@));
        }
        out
    }
}

impl ParseError {
    /// The message of this error.
    pub fn message(&self) -> (r: String)
        ensures
            r@ == parse_error_text(self@),
    {
        let mut out = String::new();
        match self {
            ParseError::ExpectedIdentifier => push_str(&mut out, "Expected identifier after 'let'"),
            ParseError::ExpectedAssign => push_str(&mut out, "Expected '=' in let binding"),
            ParseError::ExpectedLineEnd => push_str(&mut out, "Expected ';' at the end of let binding"),
            ParseError::ExpectedClosingParen => push_str(&mut out, "Expected closing parenthesis"),
            ParseError::UnexpectedToken(t) => {
                push_str(&mut out, "Unexpected token: ");
                let d = t.describe();
                push_str(&mut out, d.as_str());
            },
            ParseError::UnexpectedEnd => push_str(&mut out, "Unexpected end of input"),
        }
        proof {
            assert(out@ =~= parse_error_text(self@));
        }
        out
    }
}

} // verus!
