use vstd::prelude::*;

use crate::text::{chars_of, push_char, push_chars, push_str};
use crate::token::{Token, TokenModel};

verus! {

/// Why a source text could not be split into tokens.
#[derive(Debug, PartialEq, Clone)]
pub enum LexError {
    /// A character that starts no token.
    InvalidCharacter(char),
    /// A `+` that is not followed by a second `+`.
    ExpectedIncrement,
    /// A `-` that is followed neither by a second `-` nor by a digit.
    ExpectedDecrementOrNumber,
    /// A number, as written, immediately followed by this alphabetic
    /// character.
    NumberFollowedByLetter(String, char),
    /// A number that does not fit in an `i64`.
    NumberOutOfRange,
}

/// The mathematical model of a lexical error.
pub ghost enum LexErrorModel {
    InvalidCharacter(char),
    ExpectedIncrement,
    ExpectedDecrementOrNumber,
    NumberFollowedByLetter(Seq<char>, char),
    NumberOutOfRange,
}

impl View for LexError {
    type V = LexErrorModel;

    open spec fn view(&self) -> LexErrorModel {
        match self {
            LexError::InvalidCharacter(c) => LexErrorModel::InvalidCharacter(*c),
            LexError::ExpectedIncrement => LexErrorModel::ExpectedIncrement,
            LexError::ExpectedDecrementOrNumber => LexErrorModel::ExpectedDecrementOrNumber,
            LexError::NumberFollowedByLetter(text, c) => LexErrorModel::NumberFollowedByLetter(text@, *c),
            LexError::NumberOutOfRange => LexErrorModel::NumberOutOfRange,
        }
    }
}

/// Whether `c` has Unicode's Alphabetic property.
pub uninterp spec fn alphabetic(c: char) -> bool;

/// Whether `c` is Unicode alphabetic or numeric.
pub uninterp spec fn alphanumeric(c: char) -> bool;

/// Whether `c` has Unicode's White_Space property.
pub uninterp spec fn white_space(c: char) -> bool;

/// Relies on `char::is_alphabetic`, which depends on the character alone.
#[verifier::external_body]
fn is_alphabetic(c: char) -> (r: bool)
    ensures
        r == alphabetic(c),
{
    c.is_alphabetic()
}

/// Relies on `char::is_alphanumeric`, which depends on the character alone.
#[verifier::external_body]
fn is_alphanumeric(c: char) -> (r: bool)
    ensures
        r == alphanumeric(c),
{
    c.is_alphanumeric()
}

/// Relies on `char::is_whitespace`, which depends on the character alone.
#[verifier::external_body]
fn is_whitespace(c: char) -> (r: bool)
    ensures
        r == white_space(c),
{
    c.is_whitespace()
}

pub open spec fn is_digit(c: char) -> bool {
    '0' <= c && c <= '9'
}

pub open spec fn digit_value(c: char) -> int {
    (c as u32) as int - ('0' as u32) as int
}

/// A character that may continue an identifier.
pub open spec fn is_word_char(c: char) -> bool {
    alphanumeric(c) || c == '_'
}

/// The end of the run of decimal digits that starts at `i`.
pub open spec fn digits_end(s: Seq<char>, i: int) -> int
    decreases s.len() - i,
{
    if 0 <= i < s.len() && is_digit(s[i]) {
        digits_end(s, i + 1)
    } else {
        i
    }
}

/// The end of the run of identifier characters that starts at `i`.
pub open spec fn word_end(s: Seq<char>, i: int) -> int
    decreases s.len() - i,
{
    if 0 <= i < s.len() && is_word_char(s[i]) {
        word_end(s, i + 1)
    } else {
        i
    }
}

/// The value of a sequence of decimal digits.
pub open spec fn digits_value(d: Seq<char>) -> int
    decreases d.len(),
{
    if d.len() == 0 {
        0
    } else {
        10 * digits_value(d.drop_last()) + digit_value(d.last())
    }
}

/// The number token whose digits start at `start`, negated when `negative`,
/// and the index after it.
pub open spec fn spec_number(s: Seq<char>, start: int, negative: bool) -> Result<(TokenModel, int), LexErrorModel> {
    let end = digits_end(s, start);
    let magnitude = digits_value(s.subrange(start, end));
    let value = if negative { -magnitude } else { magnitude };
    if end < s.len() && alphabetic(s[end]) {
        Err(LexErrorModel::NumberFollowedByLetter(s.subrange(if negative { start - 1 } else { start }, end), s[end]))
    } else if value < i64::MIN || value > i64::MAX {
        Err(LexErrorModel::NumberOutOfRange)
    } else {
        Ok((TokenModel::Number(value as i64), end))
    }
}

/// What a `-` at `i` starts: a decrement or a negative number.
pub open spec fn spec_minus(s: Seq<char>, i: int) -> Result<(TokenModel, int), LexErrorModel> {
    if i + 1 < s.len() && s[i + 1] == '-' {
        Ok((TokenModel::Decrement, i + 2))
    } else if i + 1 < s.len() && is_digit(s[i + 1]) {
        spec_number(s, i + 1, true)
    } else {
        Err(LexErrorModel::ExpectedDecrementOrNumber)
    }
}

/// What a `+` at `i` starts: an increment.
pub open spec fn spec_plus(s: Seq<char>, i: int) -> Result<(TokenModel, int), LexErrorModel> {
    if i + 1 < s.len() && s[i + 1] == '+' {
        Ok((TokenModel::Increment, i + 2))
    } else {
        Err(LexErrorModel::ExpectedIncrement)
    }
}

/// The token for a word: the keyword `let`, or an identifier.
pub open spec fn word_token(w: Seq<char>) -> TokenModel {
    if w == seq!['l', 'e', 't'] {
        TokenModel::Let
    } else {
        TokenModel::Identifier(w)
    }
}

/// The word that starts with the character at `i`, and the index after it.
pub open spec fn spec_word(s: Seq<char>, i: int) -> (TokenModel, int) {
    let end = word_end(s, i + 1);
    (word_token(s.subrange(i, end)), end)
}

/// One step of scanning at `i < s.len()`: the token found there (none for
/// whitespace) and the index after it.
pub open spec fn lex_step(s: Seq<char>, i: int) -> Result<(Option<TokenModel>, int), LexErrorModel> {
    let c = s[i];
    let some = |r: Result<(TokenModel, int), LexErrorModel>|
        match r {
            Ok((t, n)) => Ok((Some(t), n)),
            Err(e) => Err(e),
        };
    if is_digit(c) {
        some(spec_number(s, i, false))
    } else if c == '-' {
        some(spec_minus(s, i))
    } else if c == '+' {
        some(spec_plus(s, i))
    } else if c == '(' {
        Ok((Some(TokenModel::LParen), i + 1))
    } else if c == ')' {
        Ok((Some(TokenModel::RParen), i + 1))
    } else if c == '=' {
        Ok((Some(TokenModel::Assign), i + 1))
    } else if c == ';' {
        Ok((Some(TokenModel::LineEnd), i + 1))
    } else if white_space(c) {
        Ok((None, i + 1))
    } else if alphabetic(c) {
        some(Ok(spec_word(s, i)))
    } else {
        Err(LexErrorModel::InvalidCharacter(c))
    }
}

/// `ts` followed by the tokens of `r`, or the error of `r`.
pub open spec fn prepend(ts: Seq<TokenModel>, r: Result<Seq<TokenModel>, LexErrorModel>) -> Result<Seq<TokenModel>, LexErrorModel> {
    match r {
        Ok(rest) => Ok(ts + rest),
        Err(e) => Err(e),
    }
}

/// The tokens of `s` from index `i` on, scanning left to right.
pub open spec fn lex_from(s: Seq<char>, i: int) -> Result<Seq<TokenModel>, LexErrorModel>
    decreases s.len() - i,
{
    if i < 0 || i >= s.len() {
        Ok(Seq::empty())
    } else {
        match lex_step(s, i) {
            Err(e) => Err(e),
            Ok((t, n)) => {
                proof {
                    lemma_step_advances(s, i);
                }
                match t {
                    Some(t) => prepend(seq![t], lex_from(s, n)),
                    None => lex_from(s, n),
                }
            },
        }
    }
}

/// The tokens of a whole source text.
pub open spec fn lex(s: Seq<char>) -> Result<Seq<TokenModel>, LexErrorModel> {
    lex_from(s, 0)
}

pub open spec fn tokens_view(ts: Seq<Token>) -> Seq<TokenModel> {
    ts.map_values(|t: Token| t@)
}

/// `r` is what scanning the whole of `s` gives.
pub open spec fn tokenized(s: Seq<char>, r: Result<Vec<Token>, LexError>) -> bool {
    match r {
        Ok(ts) => lex(s) == Ok::<Seq<TokenModel>, LexErrorModel>(tokens_view(ts@)),
        Err(e) => lex(s) == Err::<Seq<TokenModel>, LexErrorModel>(e@),
    }
}

/// Tokenizing is deterministic: two results of tokenizing the same text
/// agree, token for token, or are the same error.
pub proof fn lemma_tokenize_deterministic(
    a: Seq<char>,
    b: Seq<char>,
    ra: Result<Vec<Token>, LexError>,
    rb: Result<Vec<Token>, LexError>,
)
    requires
        a == b,
        tokenized(a, ra),
        tokenized(b, rb),
    ensures
        ra is Ok <==> rb is Ok,
        ra matches Ok(ta) ==> rb matches Ok(tb) && tokens_view(ta@) == tokens_view(tb@),
        ra matches Err(ea) ==> rb matches Err(eb) && ea@ == eb@,
{
}

/// `r` is the executable form of the single-token scan `m`.
pub open spec fn scans_as(r: Result<(Token, usize), LexError>, m: Result<(TokenModel, int), LexErrorModel>) -> bool {
    match r {
        Ok((t, n)) => m == Ok::<(TokenModel, int), LexErrorModel>((t@, n as int)),
        Err(e) => m == Err::<(TokenModel, int), LexErrorModel>(e@),
    }
}

pub proof fn lemma_digits_end(s: Seq<char>, i: int)
    requires
        0 <= i <= s.len(),
    ensures
        i <= digits_end(s, i) <= s.len(),
        i < s.len() && is_digit(s[i]) ==> digits_end(s, i) > i,
    decreases s.len() - i,
{
    if i < s.len() && is_digit(s[i]) {
        lemma_digits_end(s, i + 1);
    }
}

pub proof fn lemma_word_end(s: Seq<char>, i: int)
    requires
        0 <= i <= s.len(),
    ensures
        i <= word_end(s, i) <= s.len(),
    decreases s.len() - i,
{
    if i < s.len() && is_word_char(s[i]) {
        lemma_word_end(s, i + 1);
    }
}

pub proof fn lemma_step_advances(s: Seq<char>, i: int)
    requires
        0 <= i < s.len(),
    ensures
        lex_step(s, i) matches Ok((_, n)) ==> i < n <= s.len(),
{
    lemma_digits_end(s, i);
    if i + 1 < s.len() {
        lemma_digits_end(s, i + 1);
    }
    lemma_word_end(s, i + 1);
}

pub proof fn lemma_digits_value_nonneg(d: Seq<char>)
    requires
        forall|k: int| 0 <= k < d.len() ==> is_digit(#[trigger] d[k]),
    ensures
        digits_value(d) >= 0,
    decreases d.len(),
{
    if d.len() > 0 {
        lemma_digits_value_nonneg(d.drop_last());
    }
}

/// Scans the run of digits that starts at `start` into a number token,
/// negated when `negative`, in which case a `-` stands before `start`.
fn scan_number(chars: &Vec<char>, start: usize, negative: bool) -> (r: Result<(Token, usize), LexError>)
    requires
        start <= chars.len(),
        negative ==> start >= 1,
    ensures
        scans_as(r, spec_number(chars@, start as int, negative)),
{
    let ghost s = chars@;
    let limit: u64 = if negative { 9223372036854775808u64 } else { 9223372036854775807u64 };
    let mut magnitude: u64 = 0;
    let mut overflow = false;
    let mut j: usize = start;
    while j < chars.len() && '0' <= chars[j] && chars[j] <= '9'
        invariant
            s == chars@,
            limit == if negative { 9223372036854775808u64 } else { 9223372036854775807u64 },
            start <= j <= chars.len(),
            digits_end(s, start as int) == digits_end(s, j as int),
            forall|k: int| start <= k < j ==> is_digit(#[trigger] s[k]),
            !overflow ==> magnitude == digits_value(s.subrange(start as int, j as int)),
            !overflow ==> magnitude <= limit,
            overflow ==> digits_value(s.subrange(start as int, j as int)) > limit,
        decreases chars.len() - j,
    {
        let c = chars[j];
        let d: u64 = (c as u32 - '0' as u32) as u64;
        assert(d <= 9);
        proof {
            let prefix = s.subrange(start as int, j as int);
            let next = s.subrange(start as int, j + 1);
            assert(next.drop_last() =~= prefix);
            assert(digits_value(next) == 10 * digits_value(prefix) + d);
            lemma_digits_value_nonneg(prefix);
        }
        if !overflow {
            if magnitude <= (limit - d) / 10 {
                proof {
                    assert(magnitude * 10 + d <= limit) by (nonlinear_arith)
                        requires
                            magnitude <= (limit - d) / 10,
                            d <= 9,
                            d <= limit,
                    ;
                }
                magnitude = magnitude * 10 + d;
            } else {
                proof {
                    assert(magnitude * 10 + d > limit) by (nonlinear_arith)
                        requires
                            magnitude > (limit - d) / 10,
                            d <= 9,
                            d <= limit,
                    ;
                }
                overflow = true;
            }
        }
        j = j + 1;
    }
    let end = j;
    if end < chars.len() && is_alphabetic(chars[end]) {
        let from = if negative { start - 1 } else { start };
        let mut text = String::new();
        push_chars(&mut text, chars, from, end);
        proof {
            assert(text@ =~= s.subrange(from as int, end as int));
        }
        return Err(LexError::NumberFollowedByLetter(text, chars[end]));
    }
    if overflow {
        return Err(LexError::NumberOutOfRange);
    }
    let value: i64 = if !negative {
        magnitude as i64
    } else if magnitude == 9223372036854775808u64 {
        i64::MIN
    } else {
        -(magnitude as i64)
    };
    Ok((Token::Number(value), end))
}

/// Scans the number token whose first digit is at `i`.
pub fn parse_number(chars: &Vec<char>, i: usize) -> (r: Result<(Token, usize), LexError>)
    requires
        i < chars.len(),
        is_digit(chars@[i as int]),
    ensures
        scans_as(r, spec_number(chars@, i as int, false)),
{
    scan_number(chars, i, false)
}

/// Scans what a `-` at `i` starts: a decrement, or a negative number.
pub fn parse_minus(chars: &Vec<char>, i: usize) -> (r: Result<(Token, usize), LexError>)
    requires
        i < chars.len(),
        chars@[i as int] == '-',
    ensures
        scans_as(r, spec_minus(chars@, i as int)),
{
    if i + 1 < chars.len() && chars[i + 1] == '-' {
        Ok((Token::Decrement, i + 2))
    } else if i + 1 < chars.len() && '0' <= chars[i + 1] && chars[i + 1] <= '9' {
        scan_number(chars, i + 1, true)
    } else {
        Err(LexError::ExpectedDecrementOrNumber)
    }
}

/// Scans what a `+` at `i` starts: an increment.
pub fn parse_plus(chars: &Vec<char>, i: usize) -> (r: Result<(Token, usize), LexError>)
    requires
        i < chars.len(),
        chars@[i as int] == '+',
    ensures
        scans_as(r, spec_plus(chars@, i as int)),
{
    if i + 1 < chars.len() && chars[i + 1] == '+' {
        Ok((Token::Increment, i + 2))
    } else {
        Err(LexError::ExpectedIncrement)
    }
}

/// Scans the word that starts with the character at `i`: the keyword `let`
/// or an identifier.
pub fn parse_identifier_or_keyword(chars: &Vec<char>, i: usize) -> (r: (Token, usize))
    requires
        i < chars.len(),
    ensures
        (r.0@, r.1 as int) == spec_word(chars@, i as int),
{
    let ghost s = chars@;
    let mut end: usize = i + 1;
    while end < chars.len() && (is_alphanumeric(chars[end]) || chars[end] == '_')
        invariant
            s == chars@,
            i < end <= chars.len(),
            word_end(s, i + 1) == word_end(s, end as int),
        decreases chars.len() - end,
    {
        end = end + 1;
    }
    if end - i == 3 && chars[i] == 'l' && chars[i + 1] == 'e' && chars[i + 2] == 't' {
        proof {
            assert(s.subrange(i as int, end as int) =~= seq!['l', 'e', 't']);
        }
        (Token::Let, end)
    } else {
        proof {
            if s.subrange(i as int, end as int) == seq!['l', 'e', 't'] {
                assert(s.subrange(i as int, end as int)[0] == s[i as int]);
                assert(s.subrange(i as int, end as int)[1] == s[i + 1]);
                assert(s.subrange(i as int, end as int)[2] == s[i + 2]);
            }
        }
        let mut name = String::new();
        push_chars(&mut name, chars, i, end);
        proof {
            assert(name@ =~= s.subrange(i as int, end as int));
        }
        (Token::Identifier(name), end)
    }
}

/// Splits a source text into tokens, left to right, skipping whitespace.
pub fn tokenize(input: &str) -> (r: Result<Vec<Token>, LexError>)
    ensures
        tokenized(input@, r),
        r matches Ok(ts) ==> ts.len() <= input@.len(),
{
    let chars = chars_of(input);
    let ghost s = chars@;
    let mut tokens: Vec<Token> = Vec::new();
    let mut i: usize = 0;
    while i < chars.len()
        invariant
            s == chars@,
            s == input@,
            i <= chars.len(),
            tokens.len() <= i,
            lex(s) == prepend(tokens_view(tokens@), lex_from(s, i as int)),
        decreases chars.len() - i,
    {
        let c = chars[i];
        let ghost before = tokens@;
        proof {
            lemma_step_advances(s, i as int);
        }
        let step: Result<(Token, usize), LexError>;
        if '0' <= c && c <= '9' {
            step = parse_number(&chars, i);
        } else if c == '-' {
            step = parse_minus(&chars, i);
        } else if c == '+' {
            step = parse_plus(&chars, i);
        } else if c == '(' {
            step = Ok((Token::LParen, i + 1));
        } else if c == ')' {
            step = Ok((Token::RParen, i + 1));
        } else if c == '=' {
            step = Ok((Token::Assign, i + 1));
        } else if c == ';' {
            step = Ok((Token::LineEnd, i + 1));
        } else if is_whitespace(c) {
            i = i + 1;
            continue;
        } else if is_alphabetic(c) {
            step = Ok(parse_identifier_or_keyword(&chars, i));
        } else {
            return Err(LexError::InvalidCharacter(c));
        }
        match step {
            Ok((t, next)) => {
                tokens.push(t);
                proof {
                    assert(tokens_view(tokens@) =~= tokens_view(before) + seq![t@]);
                    let rest = lex_from(s, next as int);
                    match rest {
                        Ok(r) => assert(tokens_view(before) + (seq![t@] + r) =~= tokens_view(tokens@) + r),
                        Err(_) => {},
                    }
                }
                i = next;
            },
            Err(e) => {
                return Err(e);
            },
        }
    }
    proof {
        assert(tokens_view(tokens@) + Seq::<TokenModel>::empty() =~= tokens_view(tokens@));
    }
    Ok(tokens)
}

/// The message of a lexical error.
pub open spec fn lex_error_text(e: LexErrorModel) -> Seq<char> {
    match e {
        LexErrorModel::InvalidCharacter(c) => "Invalid character: "@.push(c),
        LexErrorModel::ExpectedIncrement => "Invalid token: Expected '++'"@,
        LexErrorModel::ExpectedDecrementOrNumber => "Invalid token: Expected '--' or a number"@,
        LexErrorModel::NumberFollowedByLetter(text, c) => "Invalid sequence: Number '"@ + text
            + "' followed by identifier starting with '"@ + seq![c, '\''],
        LexErrorModel::NumberOutOfRange => "Invalid number: out of range"@,
    }
}

impl LexError {
    /// The message of this error.
    pub fn message(&self) -> (r: String)
        ensures
            r@ == lex_error_text(self@),
    {
        let mut out = String::new();
        match self {
            LexError::InvalidCharacter(c) => {
                push_str(&mut out, "Invalid character: ");
                push_char(&mut out, *c);
            },
            LexError::ExpectedIncrement => push_str(&mut out, "Invalid token: Expected '++'"),
            LexError::ExpectedDecrementOrNumber => push_str(&mut out, "Invalid token: Expected '--' or a number"),
            LexError::NumberFollowedByLetter(text, c) => {
                push_str(&mut out, "Invalid sequence: Number '");
                push_str(&mut out, text.as_str());
                push_str(&mut out, "' followed by identifier starting with '");
                push_char(&mut out, *c);
                push_char(&mut out, '\'');
            },
            LexError::NumberOutOfRange => push_str(&mut out, "Invalid number: out of range"),
        }
        proof {
            assert(out@ =~= lex_error_text(self@));
        }
        out
    }
}

} // verus!
