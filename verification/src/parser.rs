//! The parser: recursive descent with one token of lookahead (and a second
//! token of lookahead to recognise an assignment), following the grammar
//!
//! ```text
//! declaration  := block | variable_assignment | statement
//! block        := '{' declaration* '}'
//! variable_assignment := IDENTIFIER '=' expression ';'
//! statement    := 'print' expression ';' | 'if' expression declaration
//!               | expression ';'
//! expression   := equality
//! equality     := comparison (('!=' | '==') comparison)*
//! comparison   := term (('>' | '>=' | '<' | '<=') term)*
//! term         := factor (('-' | '+') factor)*
//! factor       := unary (('/' | '*') unary)*
//! unary        := ('!' | '-' | '+') unary | primary
//! primary      := 'false' | 'true' | 'nil' | NUMBER | STRING | IDENTIFIER
//!               | '(' expression ')'
//! ```
//!
//! The spec functions below are that grammar, written as a functional
//! parser; the executable parser is proved to return exactly what they
//! denote. Any structural mismatch is a fatal parse error: no partial
//! program is ever produced.

use crate::ast::{Declaration, DeclarationM, Expression, ExpressionM, Operator, Program, Statement,
    StatementM};
use crate::scanner::{sp_tokens_wf, Keyword, Token, TokenDirection, TokenM, Tokens};
use crate::value::{LiteralValue, LiteralValueM};
use vstd::prelude::*;
use vstd::string::{StrSliceExecFns, StringExecFns};

verus! {

/// A parse error: the first one aborts the whole parse.
#[derive(Clone, Copy, PartialEq, Eq, Structural, Debug)]
pub enum ParseError {
    /// A statement did not end with `;`.
    MissingSemicolon,
    /// A block was not closed with `}`.
    MissingRightBrace,
    /// A parenthesised expression was not closed with `)`.
    MissingRightParen,
    /// The input ended in the middle of a construct.
    UnexpectedEnd,
    /// A token that cannot start an expression.
    UnexpectedToken,
}

/// The message of each parse error.
pub open spec fn sp_parse_error_message(e: ParseError) -> Seq<char> {
    match e {
        ParseError::MissingSemicolon => "Expected a semicolon"@,
        ParseError::MissingRightBrace => "Expected right brace"@,
        ParseError::MissingRightParen => "Expected ')' after expression"@,
        ParseError::UnexpectedEnd => "Unexpected end of input"@,
        ParseError::UnexpectedToken => "Expected an expression"@,
    }
}

impl ParseError {
    pub fn message(&self) -> (r: String)
        ensures
            r@ == sp_parse_error_message(*self),
    {
        match self {
            ParseError::MissingSemicolon => String::from_str("Expected a semicolon"),
            ParseError::MissingRightBrace => String::from_str("Expected right brace"),
            ParseError::MissingRightParen => String::from_str("Expected ')' after expression"),
            ParseError::UnexpectedEnd => String::from_str("Unexpected end of input"),
            ParseError::UnexpectedToken => String::from_str("Expected an expression"),
        }
    }
}

/// The operator a token denotes, if any.
pub open spec fn sp_operator_of(t: TokenM) -> Option<Operator> {
    match t {
        TokenM::BangEquals => Some(Operator::BangEquals),
        TokenM::EqualsEquals => Some(Operator::EqualsEquals),
        TokenM::Greater => Some(Operator::Greater),
        TokenM::GreaterEqual => Some(Operator::GreaterEqual),
        TokenM::Less => Some(Operator::Less),
        TokenM::LessEqual => Some(Operator::LessEqual),
        TokenM::Minus => Some(Operator::Minus),
        TokenM::Plus => Some(Operator::Plus),
        TokenM::Slash => Some(Operator::Slash),
        TokenM::Star => Some(Operator::Star),
        TokenM::Bang => Some(Operator::Bang),
        _ => None,
    }
}

/// A string literal's payload with its delimiting quotes stripped.
pub open spec fn sp_unquote(s: Seq<char>) -> Seq<char> {
    if s.len() >= 2 {
        s.subrange(1, s.len() - 1)
    } else {
        Seq::empty()
    }
}

/// A primary expression: a literal, or a parenthesised expression.
pub open spec fn sp_primary(ts: Seq<TokenM>, pos: int) -> Result<(ExpressionM, int), ParseError>
    decreases ts.len() - pos, 2int,
{
    if pos < 0 || pos >= ts.len() {
        Err(ParseError::UnexpectedEnd)
    } else {
        match ts[pos] {
            TokenM::Keyword(Keyword::False) => Ok(
                (ExpressionM::Literal(LiteralValueM::Boolean(false)), pos + 1),
            ),
            TokenM::Keyword(Keyword::True) => Ok(
                (ExpressionM::Literal(LiteralValueM::Boolean(true)), pos + 1),
            ),
            TokenM::Keyword(Keyword::Nil) => Ok(
                (ExpressionM::Literal(LiteralValueM::Nil), pos + 1),
            ),
            TokenM::Number(n) => Ok((ExpressionM::Literal(LiteralValueM::Number(n)), pos + 1)),
            TokenM::String(s) => Ok(
                (ExpressionM::Literal(LiteralValueM::String(sp_unquote(s))), pos + 1),
            ),
            TokenM::Identifier(name) => Ok(
                (ExpressionM::Literal(LiteralValueM::Identifier(name)), pos + 1),
            ),
            TokenM::Paren(TokenDirection::Left) => match sp_expression(ts, pos + 1) {
                Ok((e, p2)) => if p2 < ts.len() && ts[p2] matches TokenM::Paren(
                    TokenDirection::Right,
                ) {
                    Ok((ExpressionM::Grouping(Box::new(e)), p2 + 1))
                } else {
                    Err(ParseError::MissingRightParen)
                },
                Err(e) => Err(e),
            },
            _ => Err(ParseError::UnexpectedToken),
        }
    }
}

/// A unary expression: any chain of `!`, `-` and `+` before a primary.
pub open spec fn sp_unary(ts: Seq<TokenM>, pos: int) -> Result<(ExpressionM, int), ParseError>
    decreases ts.len() - pos, 3int,
{
    if 0 <= pos < ts.len() && ((ts[pos] matches TokenM::Bang) || (ts[pos] matches TokenM::Minus)
        || (ts[pos] matches TokenM::Plus)) {
        let op = sp_operator_of(ts[pos]).unwrap();
        match sp_unary(ts, pos + 1) {
            Ok((r, p2)) => Ok((ExpressionM::Unary { right: Box::new(r), operator: op }, p2)),
            Err(e) => Err(e),
        }
    } else {
        sp_primary(ts, pos)
    }
}

/// The left-to-right fold of one precedence level: while the next token is
/// one of the level's operators, the expression so far becomes the left
/// operand of a new binary node.
pub open spec fn sp_binary_rest(
    ts: Seq<TokenM>,
    left: ExpressionM,
    pos: int,
    level: int,
) -> Result<(ExpressionM, int), ParseError>
    decreases ts.len() - pos, 0int,
{
    if 0 <= pos < ts.len() && sp_level_op(ts[pos], level) is Some {
        let op = sp_level_op(ts[pos], level).unwrap();
        match sp_level_operand(ts, pos + 1, level) {
            Ok((right, p2)) => if pos + 1 < p2 <= ts.len() {
                sp_binary_rest(
                    ts,
                    ExpressionM::Binary {
                        left: Box::new(left),
                        right: Box::new(right),
                        operator: op,
                    },
                    p2,
                    level,
                )
            } else {
                Err(ParseError::UnexpectedEnd)
            },
            Err(e) => Err(e),
        }
    } else {
        Ok((left, pos))
    }
}

/// The operators of each binary precedence level, from `factor` at one up
/// to `equality` at four.
pub open spec fn sp_level_op(t: TokenM, level: int) -> Option<Operator> {
    if level == 1 {
        match t {
            TokenM::Slash => Some(Operator::Slash),
            TokenM::Star => Some(Operator::Star),
            _ => None,
        }
    } else if level == 2 {
        match t {
            TokenM::Minus => Some(Operator::Minus),
            TokenM::Plus => Some(Operator::Plus),
            _ => None,
        }
    } else if level == 3 {
        match t {
            TokenM::Greater => Some(Operator::Greater),
            TokenM::GreaterEqual => Some(Operator::GreaterEqual),
            TokenM::Less => Some(Operator::Less),
            TokenM::LessEqual => Some(Operator::LessEqual),
            _ => None,
        }
    } else if level == 4 {
        match t {
            TokenM::BangEquals => Some(Operator::BangEquals),
            TokenM::EqualsEquals => Some(Operator::EqualsEquals),
            _ => None,
        }
    } else {
        None
    }
}

/// The operand parser one step below each binary precedence level.
pub open spec fn sp_level_operand(ts: Seq<TokenM>, pos: int, level: int) -> Result<
    (ExpressionM, int),
    ParseError,
>
    decreases ts.len() - pos, 3 * level + 1,
{
    if level < 1 || level > 4 {
        Err(ParseError::UnexpectedEnd)
    } else if level == 1 {
        sp_unary(ts, pos)
    } else {
        sp_level(ts, pos, level - 1)
    }
}

/// One whole binary precedence level: its operand, then the fold.
pub open spec fn sp_level(ts: Seq<TokenM>, pos: int, level: int) -> Result<
    (ExpressionM, int),
    ParseError,
>
    decreases ts.len() - pos, 3 * level + 2,
{
    if level < 1 || level > 4 {
        Err(ParseError::UnexpectedEnd)
    } else {
        match sp_level_operand(ts, pos, level) {
            Ok((e, p2)) => if pos < p2 <= ts.len() {
                sp_binary_rest(ts, e, p2, level)
            } else {
                Err(ParseError::UnexpectedEnd)
            },
            Err(e) => Err(e),
        }
    }
}

/// `factor`: `/` and `*` over unary expressions.
pub open spec fn sp_factor(ts: Seq<TokenM>, pos: int) -> Result<(ExpressionM, int), ParseError>
    decreases ts.len() - pos, 6int,
{
    sp_level(ts, pos, 1)
}

/// `term`: `-` and `+` over factors.
pub open spec fn sp_term(ts: Seq<TokenM>, pos: int) -> Result<(ExpressionM, int), ParseError>
    decreases ts.len() - pos, 9int,
{
    sp_level(ts, pos, 2)
}

/// `comparison`: the ordering operators over terms.
pub open spec fn sp_comparison(ts: Seq<TokenM>, pos: int) -> Result<(ExpressionM, int), ParseError>
    decreases ts.len() - pos, 18int,
{
    sp_level(ts, pos, 3)
}

/// `equality`: `!=` and `==` over comparisons.
pub open spec fn sp_equality(ts: Seq<TokenM>, pos: int) -> Result<(ExpressionM, int), ParseError>
    decreases ts.len() - pos, 15int,
{
    sp_level(ts, pos, 4)
}

/// An expression is an equality.
pub open spec fn sp_expression(ts: Seq<TokenM>, pos: int) -> Result<(ExpressionM, int), ParseError>
    decreases ts.len() - pos, 16int,
{
    sp_equality(ts, pos)
}

/// A statement: `print`, `if`, or a bare expression statement.
pub open spec fn sp_statement(ts: Seq<TokenM>, pos: int) -> Result<(StatementM, int), ParseError>
    decreases ts.len() - pos, 17int,
{
    if 0 <= pos < ts.len() && (ts[pos] matches TokenM::Keyword(Keyword::Print)) {
        match sp_expression(ts, pos + 1) {
            Ok((e, p2)) => if 0 <= p2 < ts.len() && (ts[p2] matches TokenM::SemiColon) {
                Ok((StatementM::Print(e), p2 + 1))
            } else {
                Err(ParseError::MissingSemicolon)
            },
            Err(e) => Err(e),
        }
    } else if 0 <= pos < ts.len() && (ts[pos] matches TokenM::Keyword(Keyword::If)) {
        match sp_expression(ts, pos + 1) {
            Ok((cond, p2)) => if pos < p2 <= ts.len() {
                match sp_declaration(ts, p2) {
                    Ok((d, p3)) => Ok(
                        (StatementM::If { condition: cond, declaration: Box::new(d) }, p3),
                    ),
                    Err(e) => Err(e),
                }
            } else {
                Err(ParseError::UnexpectedEnd)
            },
            Err(e) => Err(e),
        }
    } else {
        match sp_expression(ts, pos) {
            Ok((e, p2)) => if 0 <= p2 < ts.len() && (ts[p2] matches TokenM::SemiColon) {
                Ok((StatementM::Expression(e), p2 + 1))
            } else {
                Err(ParseError::MissingSemicolon)
            },
            Err(e) => Err(e),
        }
    }
}

/// A variable assignment — only when an identifier is directly followed by
/// `=`; anything else falls through to a statement.
pub open spec fn sp_variable_assignment(ts: Seq<TokenM>, pos: int) -> Result<
    (DeclarationM, int),
    ParseError,
>
    decreases ts.len() - pos, 18int,
{
    if 0 <= pos < ts.len() && (ts[pos] matches TokenM::Identifier(_)) && pos + 1 < ts.len()
        && (ts[pos + 1] matches TokenM::Equals) {
        let name = ts[pos]->Identifier_0;
        match sp_expression(ts, pos + 2) {
            Ok((e, p2)) => if 0 <= p2 < ts.len() && (ts[p2] matches TokenM::SemiColon) {
                Ok((DeclarationM::VariableAssignment { identifier: name, value: e }, p2 + 1))
            } else {
                Err(ParseError::MissingSemicolon)
            },
            Err(e) => Err(e),
        }
    } else {
        match sp_statement(ts, pos) {
            Ok((s, p2)) => Ok((DeclarationM::Statement(s), p2)),
            Err(e) => Err(e),
        }
    }
}

/// The declarations inside a block, up to and past the closing brace.
pub open spec fn sp_block_items(ts: Seq<TokenM>, pos: int) -> Result<
    (Seq<DeclarationM>, int),
    ParseError,
>
    decreases ts.len() - pos, 20int,
{
    if pos < 0 || pos >= ts.len() {
        Err(ParseError::MissingRightBrace)
    } else if ts[pos] matches TokenM::Brace(TokenDirection::Right) {
        Ok((Seq::empty(), pos + 1))
    } else {
        match sp_declaration(ts, pos) {
            Ok((d, p2)) => if pos < p2 <= ts.len() {
                match sp_block_items(ts, p2) {
                    Ok((rest, p3)) => Ok((seq![d] + rest, p3)),
                    Err(e) => Err(e),
                }
            } else {
                Err(ParseError::UnexpectedEnd)
            },
            Err(e) => Err(e),
        }
    }
}

/// A brace-delimited block.
pub open spec fn sp_block(ts: Seq<TokenM>, pos: int) -> Result<(DeclarationM, int), ParseError>
    decreases ts.len() - pos, 17int,
{
    if 0 <= pos < ts.len() && (ts[pos] matches TokenM::Brace(TokenDirection::Left)) {
        match sp_block_items(ts, pos + 1) {
            Ok((ds, p2)) => Ok((DeclarationM::Block(ds), p2)),
            Err(e) => Err(e),
        }
    } else {
        Err(ParseError::UnexpectedEnd)
    }
}

/// A declaration: a block, a variable assignment, or a statement.
pub open spec fn sp_declaration(ts: Seq<TokenM>, pos: int) -> Result<
    (DeclarationM, int),
    ParseError,
>
    decreases ts.len() - pos, 19int,
{
    if pos < 0 || pos >= ts.len() {
        Err(ParseError::UnexpectedEnd)
    } else if ts[pos] matches TokenM::Brace(TokenDirection::Left) {
        sp_block(ts, pos)
    } else {
        sp_variable_assignment(ts, pos)
    }
}

/// A whole program: declarations until the tokens are exhausted.
pub open spec fn sp_program(ts: Seq<TokenM>, pos: int) -> Result<Seq<DeclarationM>, ParseError>
    decreases ts.len() - pos, 21int,
{
    if pos < 0 || pos >= ts.len() {
        Ok(Seq::empty())
    } else {
        match sp_declaration(ts, pos) {
            Ok((d, p2)) => if pos < p2 <= ts.len() {
                match sp_program(ts, p2) {
                    Ok(rest) => Ok(seq![d] + rest),
                    Err(e) => Err(e),
                }
            } else {
                Err(ParseError::UnexpectedEnd)
            },
            Err(e) => Err(e),
        }
    }
}

/// A successful primary stops strictly past its start, inside the input.
proof fn lemma_primary_progress(ts: Seq<TokenM>, pos: int)
    ensures
        sp_primary(ts, pos) is Ok ==> pos < sp_primary(ts, pos).unwrap().1 <= ts.len(),
    decreases ts.len() - pos, 2int,
{
    if 0 <= pos < ts.len() && (ts[pos] matches TokenM::Paren(TokenDirection::Left)) {
        lemma_expression_progress(ts, pos + 1);
    }
}

/// A successful unary stops strictly past its start, inside the input.
proof fn lemma_unary_progress(ts: Seq<TokenM>, pos: int)
    ensures
        sp_unary(ts, pos) is Ok ==> pos < sp_unary(ts, pos).unwrap().1 <= ts.len(),
    decreases ts.len() - pos, 3int,
{
    if 0 <= pos < ts.len() && ((ts[pos] matches TokenM::Bang) || (ts[pos] matches TokenM::Minus)
        || (ts[pos] matches TokenM::Plus)) {
        lemma_unary_progress(ts, pos + 1);
    } else {
        lemma_primary_progress(ts, pos);
    }
}

/// A successful operand stops strictly past its start, inside the input.
proof fn lemma_operand_progress(ts: Seq<TokenM>, pos: int, level: int)
    ensures
        sp_level_operand(ts, pos, level) is Ok ==> pos < sp_level_operand(
            ts,
            pos,
            level,
        ).unwrap().1 <= ts.len(),
    decreases ts.len() - pos, 3 * level + 1,
{
    if level == 1 {
        lemma_unary_progress(ts, pos);
    } else if 1 < level <= 4 {
        lemma_level_progress(ts, pos, level - 1);
    }
}

/// A binary level's fold never moves backwards and stays inside the input.
proof fn lemma_rest_progress(ts: Seq<TokenM>, left: ExpressionM, pos: int, level: int)
    requires
        pos <= ts.len(),
    ensures
        sp_binary_rest(ts, left, pos, level) is Ok ==> pos <= sp_binary_rest(
            ts,
            left,
            pos,
            level,
        ).unwrap().1 <= ts.len(),
    decreases ts.len() - pos, 0int,
{
    if 0 <= pos < ts.len() && sp_level_op(ts[pos], level) is Some {
        let op = sp_level_op(ts[pos], level).unwrap();
        lemma_operand_progress(ts, pos + 1, level);
        match sp_level_operand(ts, pos + 1, level) {
            Ok((right, p2)) => {
                if pos + 1 < p2 <= ts.len() {
                    lemma_rest_progress(
                        ts,
                        ExpressionM::Binary {
                            left: Box::new(left),
                            right: Box::new(right),
                            operator: op,
                        },
                        p2,
                        level,
                    );
                }
            },
            Err(_) => {},
        }
    }
}

/// A successful binary level stops strictly past its start.
proof fn lemma_level_progress(ts: Seq<TokenM>, pos: int, level: int)
    ensures
        sp_level(ts, pos, level) is Ok ==> pos < sp_level(ts, pos, level).unwrap().1
            <= ts.len(),
    decreases ts.len() - pos, 3 * level + 2,
{
    if 1 <= level <= 4 {
        lemma_operand_progress(ts, pos, level);
        match sp_level_operand(ts, pos, level) {
            Ok((e, p2)) => {
                if pos < p2 <= ts.len() {
                    lemma_rest_progress(ts, e, p2, level);
                }
            },
            Err(_) => {},
        }
    }
}

/// A successful expression stops strictly past its start.
proof fn lemma_expression_progress(ts: Seq<TokenM>, pos: int)
    ensures
        sp_expression(ts, pos) is Ok ==> pos < sp_expression(ts, pos).unwrap().1 <= ts.len(),
    decreases ts.len() - pos, 16int,
{
    lemma_level_progress(ts, pos, 4);
}

/// A successful statement stops strictly past its start.
proof fn lemma_statement_progress(ts: Seq<TokenM>, pos: int)
    ensures
        sp_statement(ts, pos) is Ok ==> pos < sp_statement(ts, pos).unwrap().1 <= ts.len(),
    decreases ts.len() - pos, 17int,
{
    if 0 <= pos < ts.len() && (ts[pos] matches TokenM::Keyword(Keyword::Print)) {
        lemma_expression_progress(ts, pos + 1);
    } else if 0 <= pos < ts.len() && (ts[pos] matches TokenM::Keyword(Keyword::If)) {
        lemma_expression_progress(ts, pos + 1);
        match sp_expression(ts, pos + 1) {
            Ok((cond, p2)) => {
                if pos < p2 <= ts.len() {
                    lemma_declaration_progress(ts, p2);
                }
            },
            Err(_) => {},
        }
    } else {
        lemma_expression_progress(ts, pos);
    }
}

/// A successful assignment or fall-through statement stops strictly past
/// its start.
proof fn lemma_variable_assignment_progress(ts: Seq<TokenM>, pos: int)
    ensures
        sp_variable_assignment(ts, pos) is Ok ==> pos < sp_variable_assignment(
            ts,
            pos,
        ).unwrap().1 <= ts.len(),
    decreases ts.len() - pos, 18int,
{
    if 0 <= pos < ts.len() && (ts[pos] matches TokenM::Identifier(_)) && pos + 1 < ts.len()
        && (ts[pos + 1] matches TokenM::Equals) {
        lemma_expression_progress(ts, pos + 2);
    } else {
        lemma_statement_progress(ts, pos);
    }
}

/// Successful block items end just past their closing brace.
proof fn lemma_block_items_progress(ts: Seq<TokenM>, pos: int)
    ensures
        sp_block_items(ts, pos) is Ok ==> pos < sp_block_items(ts, pos).unwrap().1 <= ts.len(),
    decreases ts.len() - pos, 20int,
{
    if 0 <= pos < ts.len() && !(ts[pos] matches TokenM::Brace(TokenDirection::Right)) {
        lemma_declaration_progress(ts, pos);
        match sp_declaration(ts, pos) {
            Ok((d, p2)) => {
                if pos < p2 <= ts.len() {
                    lemma_block_items_progress(ts, p2);
                }
            },
            Err(_) => {},
        }
    }
}

/// A successful block stops strictly past its start.
proof fn lemma_block_progress(ts: Seq<TokenM>, pos: int)
    ensures
        sp_block(ts, pos) is Ok ==> pos < sp_block(ts, pos).unwrap().1 <= ts.len(),
    decreases ts.len() - pos, 17int,
{
    if 0 <= pos < ts.len() && (ts[pos] matches TokenM::Brace(TokenDirection::Left)) {
        lemma_block_items_progress(ts, pos + 1);
    }
}

/// Every successful declaration consumes at least one token and stops
/// inside the input; with it, the `UnexpectedEnd` guards in the grammar's
/// sequence rules can never fire.
pub proof fn lemma_declaration_progress(ts: Seq<TokenM>, pos: int)
    ensures
        sp_declaration(ts, pos) is Ok ==> pos < sp_declaration(ts, pos).unwrap().1 <= ts.len(),
    decreases ts.len() - pos, 19int,
{
    if 0 <= pos < ts.len() {
        if ts[pos] matches TokenM::Brace(TokenDirection::Left) {
            lemma_block_progress(ts, pos);
        } else {
            lemma_variable_assignment_progress(ts, pos);
        }
    }
}

/// A whole program parses exactly when its declarations do, consuming the
/// tokens left to right; the guard in the program rule can never fire.
pub proof fn lemma_program_progress(ts: Seq<TokenM>, pos: int)
    requires
        0 <= pos,
    ensures
        sp_program(ts, pos) is Ok ==> (pos >= ts.len() || (sp_declaration(ts, pos) is Ok
            && pos < sp_declaration(ts, pos).unwrap().1 <= ts.len() && sp_program(
            ts,
            sp_declaration(ts, pos).unwrap().1,
        ) is Ok)),
    decreases ts.len() - pos,
{
    if 0 <= pos < ts.len() {
        lemma_declaration_progress(ts, pos);
    }
}

/// The operator a binary precedence level accepts in a token, if any.
fn level_op_of(t: &Token, level: u8) -> (r: Option<Operator>)
    ensures
        r == sp_level_op(t@, level as int),
{
    if level == 1 {
        match t {
            Token::Slash => Some(Operator::Slash),
            Token::Star => Some(Operator::Star),
            _ => None,
        }
    } else if level == 2 {
        match t {
            Token::Minus => Some(Operator::Minus),
            Token::Plus => Some(Operator::Plus),
            _ => None,
        }
    } else if level == 3 {
        match t {
            Token::Greater => Some(Operator::Greater),
            Token::GreaterEqual => Some(Operator::GreaterEqual),
            Token::Less => Some(Operator::Less),
            Token::LessEqual => Some(Operator::LessEqual),
            _ => None,
        }
    } else if level == 4 {
        match t {
            Token::BangEquals => Some(Operator::BangEquals),
            Token::EqualsEquals => Some(Operator::EqualsEquals),
            _ => None,
        }
    } else {
        None
    }
}

/// A string literal's payload with its quotes stripped.
fn unquote(s: &String) -> (r: String)
    ensures
        r@ == sp_unquote(s@),
{
    let n: usize = s.as_str().unicode_len();
    if n >= 2 {
        s.as_str().substring_char(1, n - 1).to_owned()
    } else {
        String::new()
    }
}

/// The recursive-descent parser: one token of lookahead over a borrowed
/// token sequence.
pub struct Parser<'a> {
    pub tokens: &'a Tokens,
    pub current: usize,
}

impl<'a> Parser<'a> {
    /// The cursor stays inside the tokens, and every token is well formed.
    pub open spec fn wf(self) -> bool {
        self.current <= self.tokens@.len() && sp_tokens_wf(self.tokens@)
    }

    pub fn new(tokens: &'a Tokens) -> (r: Parser<'a>)
        requires
            sp_tokens_wf(tokens@),
        ensures
            r.tokens == tokens,
            r.current == 0,
            r.wf(),
    {
        Parser { tokens, current: 0 }
    }

    /// Parses one expression from the whole token sequence.
    pub fn parse_expr_from_tokens(tokens: &'a Tokens) -> (r: Result<Expression, ParseError>)
        requires
            sp_tokens_wf(tokens@),
        ensures
            ({
                let t = sp_expression(tokens@, 0);
                match t {
                    Ok((em, p)) => r is Ok && r.unwrap()@ == em && crate::ast::sp_expr_wf(em),
                    Err(e) => r == Err::<Expression, ParseError>(e),
                }
            }),
    {
        let mut parser = Self::new(tokens);
        parser.parse_expression()
    }

    /// Parses one expression from the cursor onward.
    pub fn parse_expression(&mut self) -> (r: Result<Expression, ParseError>)
        requires
            old(self).wf(),
        ensures
            final(self).tokens == old(self).tokens,
            final(self).wf(),
            ({
                let t = sp_expression(old(self).tokens@, old(self).current as int);
                match t {
                    Ok((em, p)) => r is Ok && r.unwrap()@ == em && crate::ast::sp_expr_wf(em)
                        && final(self).current as int == p && old(self).current < final(self).current,
                    Err(e) => r == Err::<Expression, ParseError>(e),
                }
            }),
    {
        self.expression()
    }

    /// Parses the whole token sequence into a program.
    pub fn parse(&mut self) -> (r: Result<Program, ParseError>)
        requires
            old(self).wf(),
        ensures
            final(self).tokens == old(self).tokens,
            final(self).wf(),
            ({
                let t = sp_program(old(self).tokens@, old(self).current as int);
                match t {
                    Ok(ds) => r is Ok && r.unwrap()@ == ds && crate::ast::sp_decls_wf(ds),
                    Err(e) => r == Err::<Program, ParseError>(e),
                }
            }),
    {
        let ghost toks = self.tokens@;
        let ghost c0 = self.current as int;
        let n: usize = self.tokens.len();
        let mut declarations: Vec<Declaration> = Vec::new();
        proof {
            assert(crate::ast::sp_decls_view(declarations@) =~= Seq::<DeclarationM>::empty());
        }
        while self.current < n
            invariant
                self.wf(),
                self.tokens == old(self).tokens,
                toks == self.tokens@,
                c0 == old(self).current as int,
                n == toks.len(),
                crate::ast::sp_decls_wf(crate::ast::sp_decls_view(declarations@)),
                sp_program(toks, c0) == (match sp_program(toks, self.current as int) {
                    Ok(rest) => Ok::<Seq<DeclarationM>, ParseError>(
                        crate::ast::sp_decls_view(declarations@) + rest,
                    ),
                    Err(e) => Err::<Seq<DeclarationM>, ParseError>(e),
                }),
            decreases n - self.current,
        {
            let ghost cur = self.current as int;
            let ghost before = declarations@;
            match self.declaration() {
                Ok(d) => {
                    let ghost dm = d@;
                    declarations.push(d);
                    proof {
                        crate::ast::lemma_decls_view_push(before, declarations@.last());
                        let dv = crate::ast::sp_decls_view(before);
                        assert forall|i: int|
                            0 <= i < crate::ast::sp_decls_view(declarations@).len() implies
                            crate::ast::sp_decl_wf(
                                #[trigger] crate::ast::sp_decls_view(declarations@)[i],
                            ) by {
                            if i < dv.len() {
                                assert(crate::ast::sp_decls_view(declarations@)[i] == dv[i]);
                            }
                        }
                        if sp_program(toks, self.current as int) is Ok {
                            assert(dv + (seq![dm] + sp_program(
                                toks,
                                self.current as int,
                            ).unwrap()) =~= crate::ast::sp_decls_view(declarations@) + sp_program(
                                toks,
                                self.current as int,
                            ).unwrap());
                        }
                    }
                },
                Err(e) => {
                    return Err(e);
                },
            }
        }
        proof {
            assert(crate::ast::sp_decls_view(declarations@) + Seq::<DeclarationM>::empty()
                =~= crate::ast::sp_decls_view(declarations@));
        }
        Ok(Program(declarations))
    }

    /// One declaration: a block, a variable assignment, or a statement.
    fn declaration(&mut self) -> (r: Result<Declaration, ParseError>)
        requires
            old(self).wf(),
        ensures
            final(self).tokens == old(self).tokens,
            final(self).wf(),
            ({
                let t = sp_declaration(old(self).tokens@, old(self).current as int);
                match t {
                    Ok((dm, p)) => r is Ok && r.unwrap()@ == dm && crate::ast::sp_decl_wf(dm)
                        && final(self).current as int == p && old(self).current < final(self).current,
                    Err(e) => r == Err::<Declaration, ParseError>(e),
                }
            }),
        decreases self.tokens@.len() - self.current, 19int,
    {
        if self.current >= self.tokens.len() {
            return Err(ParseError::UnexpectedEnd);
        }
        let is_block = match self.tokens.get(self.current) {
            Some(Token::Brace(TokenDirection::Left)) => true,
            _ => false,
        };
        if is_block {
            self.block()
        } else {
            self.variable_assignment()
        }
    }

    /// A brace-delimited block of declarations.
    fn block(&mut self) -> (r: Result<Declaration, ParseError>)
        requires
            old(self).wf(),
        ensures
            final(self).tokens == old(self).tokens,
            final(self).wf(),
            ({
                let t = sp_block(old(self).tokens@, old(self).current as int);
                match t {
                    Ok((dm, p)) => r is Ok && r.unwrap()@ == dm && crate::ast::sp_decl_wf(dm)
                        && final(self).current as int == p && old(self).current < final(self).current,
                    Err(e) => r == Err::<Declaration, ParseError>(e),
                }
            }),
        decreases self.tokens@.len() - self.current, 17int,
    {
        let ghost toks = self.tokens@;
        let ghost c0 = self.current as int;
        let n: usize = self.tokens.len();
        let opens = self.current < n && (match self.tokens.get(self.current) {
            Some(Token::Brace(TokenDirection::Left)) => true,
            _ => false,
        });
        if !opens {
            return Err(ParseError::UnexpectedEnd);
        }
        self.current = self.current + 1;
        let mut items: Vec<Declaration> = Vec::new();
        proof {
            assert(crate::ast::sp_decls_view(items@) =~= Seq::<DeclarationM>::empty());
        }
        loop
            invariant
                self.wf(),
                self.tokens == old(self).tokens,
                toks == self.tokens@,
                c0 == old(self).current as int,
                n == toks.len(),
                c0 < self.current <= n,
                crate::ast::sp_decls_wf(crate::ast::sp_decls_view(items@)),
                sp_block_items(toks, c0 + 1) == (match sp_block_items(
                    toks,
                    self.current as int,
                ) {
                    Ok((rest, p)) => Ok::<(Seq<DeclarationM>, int), ParseError>(
                        (crate::ast::sp_decls_view(items@) + rest, p),
                    ),
                    Err(e) => Err::<(Seq<DeclarationM>, int), ParseError>(e),
                }),
                sp_block(toks, c0) == (match sp_block_items(toks, c0 + 1) {
                    Ok((ds, p2)) => Ok::<(DeclarationM, int), ParseError>(
                        (DeclarationM::Block(ds), p2),
                    ),
                    Err(e) => Err::<(DeclarationM, int), ParseError>(e),
                }),
            decreases toks.len() - self.current,
        {
            if self.current >= n {
                return Err(ParseError::MissingRightBrace);
            }
            let closes = match self.tokens.get(self.current) {
                Some(Token::Brace(TokenDirection::Right)) => true,
                _ => false,
            };
            if closes {
                self.current = self.current + 1;
                proof {
                    assert(crate::ast::sp_decls_view(items@) + Seq::<DeclarationM>::empty()
                        =~= crate::ast::sp_decls_view(items@));
                }
                return Ok(Declaration::Block(crate::ast::Block(items)));
            }
            let ghost before = items@;
            match self.declaration() {
                Ok(d) => {
                    let ghost dm = d@;
                    items.push(d);
                    proof {
                        crate::ast::lemma_decls_view_push(before, items@.last());
                        let dv = crate::ast::sp_decls_view(before);
                        assert forall|i: int|
                            0 <= i < crate::ast::sp_decls_view(items@).len() implies
                            crate::ast::sp_decl_wf(
                                #[trigger] crate::ast::sp_decls_view(items@)[i],
                            ) by {
                            if i < dv.len() {
                                assert(crate::ast::sp_decls_view(items@)[i] == dv[i]);
                            }
                        }
                        if sp_block_items(toks, self.current as int) is Ok {
                            let rest2 = sp_block_items(toks, self.current as int).unwrap().0;
                            assert(dv + (seq![dm] + rest2) =~= crate::ast::sp_decls_view(items@)
                                + rest2);
                        }
                    }
                },
                Err(e) => {
                    return Err(e);
                },
            }
        }
    }

    /// A variable assignment when an identifier is directly followed by
    /// `=`; otherwise the declaration is a statement.
    fn variable_assignment(&mut self) -> (r: Result<Declaration, ParseError>)
        requires
            old(self).wf(),
        ensures
            final(self).tokens == old(self).tokens,
            final(self).wf(),
            ({
                let t = sp_variable_assignment(old(self).tokens@, old(self).current as int);
                match t {
                    Ok((dm, p)) => r is Ok && r.unwrap()@ == dm && crate::ast::sp_decl_wf(dm)
                        && final(self).current as int == p && old(self).current < final(self).current,
                    Err(e) => r == Err::<Declaration, ParseError>(e),
                }
            }),
        decreases self.tokens@.len() - self.current, 18int,
    {
        let n: usize = self.tokens.len();
        let cur: usize = self.current;
        if cur < n && cur + 1 < n {
            let is_assign = (match self.tokens.get(cur) {
                Some(Token::Identifier(_)) => true,
                _ => false,
            }) && (match self.tokens.get(cur + 1) {
                Some(Token::Equals) => true,
                _ => false,
            });
            if is_assign {
                let name: String = match self.tokens.get(cur) {
                    Some(Token::Identifier(s)) => s.clone(),
                    _ => String::new(),
                };
                self.current = cur + 2;
                let value = match self.expression() {
                    Ok(e) => e,
                    Err(e) => {
                        return Err(e);
                    },
                };
                let has_semi = self.current < n && (match self.tokens.get(self.current) {
                    Some(Token::SemiColon) => true,
                    _ => false,
                });
                if has_semi {
                    self.current = self.current + 1;
                    return Ok(Declaration::VariableAssignment { identifier: name, value });
                } else {
                    return Err(ParseError::MissingSemicolon);
                }
            }
        }
        match self.statement() {
            Ok(s) => Ok(Declaration::Statement(s)),
            Err(e) => Err(e),
        }
    }

    /// One statement: `print`, `if`, or a bare expression statement.
    fn statement(&mut self) -> (r: Result<Statement, ParseError>)
        requires
            old(self).wf(),
        ensures
            final(self).tokens == old(self).tokens,
            final(self).wf(),
            ({
                let t = sp_statement(old(self).tokens@, old(self).current as int);
                match t {
                    Ok((sm, p)) => r is Ok && r.unwrap()@ == sm && crate::ast::sp_stmt_wf(sm)
                        && final(self).current as int == p && old(self).current < final(self).current,
                    Err(e) => r == Err::<Statement, ParseError>(e),
                }
            }),
        decreases self.tokens@.len() - self.current, 17int,
    {
        let n: usize = self.tokens.len();
        let cur: usize = self.current;
        let is_print = cur < n && (match self.tokens.get(cur) {
            Some(Token::Keyword(Keyword::Print)) => true,
            _ => false,
        });
        let is_if = cur < n && (match self.tokens.get(cur) {
            Some(Token::Keyword(Keyword::If)) => true,
            _ => false,
        });
        if is_print {
            self.current = cur + 1;
            let e = match self.expression() {
                Ok(e) => e,
                Err(er) => {
                    return Err(er);
                },
            };
            let has_semi = self.current < n && (match self.tokens.get(self.current) {
                Some(Token::SemiColon) => true,
                _ => false,
            });
            if has_semi {
                self.current = self.current + 1;
                Ok(Statement::Print(e))
            } else {
                Err(ParseError::MissingSemicolon)
            }
        } else if is_if {
            self.current = cur + 1;
            let condition = match self.expression() {
                Ok(e) => e,
                Err(er) => {
                    return Err(er);
                },
            };
            match self.declaration() {
                Ok(d) => Ok(Statement::If { condition, declaration: Box::new(d) }),
                Err(er) => Err(er),
            }
        } else {
            let e = match self.expression() {
                Ok(e) => e,
                Err(er) => {
                    return Err(er);
                },
            };
            let has_semi = self.current < n && (match self.tokens.get(self.current) {
                Some(Token::SemiColon) => true,
                _ => false,
            });
            if has_semi {
                self.current = self.current + 1;
                Ok(Statement::Expression(e))
            } else {
                Err(ParseError::MissingSemicolon)
            }
        }
    }

    /// An expression: the lowest binary precedence level.
    fn expression(&mut self) -> (r: Result<Expression, ParseError>)
        requires
            old(self).wf(),
        ensures
            final(self).tokens == old(self).tokens,
            final(self).wf(),
            ({
                let t = sp_expression(old(self).tokens@, old(self).current as int);
                match t {
                    Ok((em, p)) => r is Ok && r.unwrap()@ == em && crate::ast::sp_expr_wf(em)
                        && final(self).current as int == p && old(self).current < final(self).current,
                    Err(e) => r == Err::<Expression, ParseError>(e),
                }
            }),
        decreases self.tokens@.len() - self.current, 16int,
    {
        self.binary_level(4)
    }

    /// One binary precedence level: its operand, then the left-to-right
    /// fold over the level's operators.
    fn binary_level(&mut self, level: u8) -> (r: Result<Expression, ParseError>)
        requires
            old(self).wf(),
            1 <= level <= 4,
        ensures
            final(self).tokens == old(self).tokens,
            final(self).wf(),
            ({
                let t = sp_level(old(self).tokens@, old(self).current as int, level as int);
                match t {
                    Ok((em, p)) => r is Ok && r.unwrap()@ == em && crate::ast::sp_expr_wf(em)
                        && final(self).current as int == p && old(self).current < final(self).current,
                    Err(e) => r == Err::<Expression, ParseError>(e),
                }
            }),
        decreases self.tokens@.len() - self.current, 3 * level + 2,
    {
        let ghost toks = self.tokens@;
        let ghost c0 = self.current as int;
        let first = if level == 1 {
            self.unary()
        } else {
            self.binary_level(level - 1)
        };
        let mut expr = match first {
            Ok(e) => e,
            Err(e) => {
                return Err(e);
            },
        };
        let n: usize = self.tokens.len();
        loop
            invariant
                self.wf(),
                self.tokens == old(self).tokens,
                toks == self.tokens@,
                c0 == old(self).current as int,
                n == toks.len(),
                1 <= level <= 4,
                c0 < self.current <= n,
                crate::ast::sp_expr_wf(expr@),
                sp_level(toks, c0, level as int) == sp_binary_rest(
                    toks,
                    expr@,
                    self.current as int,
                    level as int,
                ),
            decreases toks.len() - self.current,
        {
            let ghost pos_op = self.current as int;
            let ghost expr_before = expr@;
            let op = if self.current < n {
                match self.tokens.get(self.current) {
                    Some(t) => level_op_of(t, level),
                    None => None,
                }
            } else {
                None
            };
            match op {
                None => {
                    return Ok(expr);
                },
                Some(operator) => {
                    proof {
                        assert(sp_level_op(toks[pos_op], level as int) == Some(operator));
                    }
                    self.current = self.current + 1;
                    let next = if level == 1 {
                        self.unary()
                    } else {
                        self.binary_level(level - 1)
                    };
                    proof {
                        if level == 1 {
                            assert(sp_level_operand(toks, pos_op + 1, level as int) == sp_unary(
                                toks,
                                pos_op + 1,
                            ));
                        } else {
                            assert(sp_level_operand(toks, pos_op + 1, level as int) == sp_level(
                                toks,
                                pos_op + 1,
                                level as int - 1,
                            ));
                        }
                    }
                    match next {
                        Ok(right) => {
                            proof {
                                assert(sp_binary_rest(toks, expr_before, pos_op, level as int)
                                    == sp_binary_rest(
                                    toks,
                                    ExpressionM::Binary {
                                        left: Box::new(expr_before),
                                        right: Box::new(right@),
                                        operator,
                                    },
                                    self.current as int,
                                    level as int,
                                ));
                            }
                            expr = Expression::Binary {
                                left: Box::new(expr),
                                right: Box::new(right),
                                operator,
                            };
                        },
                        Err(e) => {
                            proof {
                                assert(sp_binary_rest(toks, expr_before, pos_op, level as int)
                                    == Err::<(ExpressionM, int), ParseError>(e));
                            }
                            return Err(e);
                        },
                    }
                },
            }
        }
    }

    /// A unary expression: a chain of `!`, `-` and `+` before a primary.
    fn unary(&mut self) -> (r: Result<Expression, ParseError>)
        requires
            old(self).wf(),
        ensures
            final(self).tokens == old(self).tokens,
            final(self).wf(),
            ({
                let t = sp_unary(old(self).tokens@, old(self).current as int);
                match t {
                    Ok((em, p)) => r is Ok && r.unwrap()@ == em && crate::ast::sp_expr_wf(em)
                        && final(self).current as int == p && old(self).current < final(self).current,
                    Err(e) => r == Err::<Expression, ParseError>(e),
                }
            }),
        decreases self.tokens@.len() - self.current, 3int,
    {
        let n: usize = self.tokens.len();
        let cur: usize = self.current;
        let op: Option<Operator> = if cur < n {
            match self.tokens.get(cur) {
                Some(Token::Bang) => Some(Operator::Bang),
                Some(Token::Minus) => Some(Operator::Minus),
                Some(Token::Plus) => Some(Operator::Plus),
                _ => None,
            }
        } else {
            None
        };
        match op {
            Some(operator) => {
                self.current = cur + 1;
                match self.unary() {
                    Ok(right) => Ok(Expression::Unary { right: Box::new(right), operator }),
                    Err(e) => Err(e),
                }
            },
            None => self.primary(),
        }
    }

    /// A primary expression: a literal, or a parenthesised expression.
    fn primary(&mut self) -> (r: Result<Expression, ParseError>)
        requires
            old(self).wf(),
        ensures
            final(self).tokens == old(self).tokens,
            final(self).wf(),
            ({
                let t = sp_primary(old(self).tokens@, old(self).current as int);
                match t {
                    Ok((em, p)) => r is Ok && r.unwrap()@ == em && crate::ast::sp_expr_wf(em)
                        && final(self).current as int == p && old(self).current < final(self).current,
                    Err(e) => r == Err::<Expression, ParseError>(e),
                }
            }),
        decreases self.tokens@.len() - self.current, 2int,
    {
        let n: usize = self.tokens.len();
        let cur: usize = self.current;
        if cur >= n {
            return Err(ParseError::UnexpectedEnd);
        }
        match self.tokens.get(cur) {
            Some(Token::Keyword(Keyword::False)) => {
                self.current = cur + 1;
                Ok(Expression::Literal(LiteralValue::Boolean(false)))
            },
            Some(Token::Keyword(Keyword::True)) => {
                self.current = cur + 1;
                Ok(Expression::Literal(LiteralValue::Boolean(true)))
            },
            Some(Token::Keyword(Keyword::Nil)) => {
                self.current = cur + 1;
                Ok(Expression::Literal(LiteralValue::Nil))
            },
            Some(Token::Number(number)) => {
                let nv = *number;
                self.current = cur + 1;
                Ok(Expression::Literal(LiteralValue::Number(nv)))
            },
            Some(Token::String(text)) => {
                let inner = unquote(text);
                self.current = cur + 1;
                Ok(Expression::Literal(LiteralValue::String(inner)))
            },
            Some(Token::Identifier(name)) => {
                let owned = name.clone();
                self.current = cur + 1;
                Ok(Expression::Literal(LiteralValue::Identifier(owned)))
            },
            Some(Token::Paren(TokenDirection::Left)) => {
                self.current = cur + 1;
                let e = match self.expression() {
                    Ok(e) => e,
                    Err(er) => {
                        return Err(er);
                    },
                };
                let closes = self.current < n && (match self.tokens.get(self.current) {
                    Some(Token::Paren(TokenDirection::Right)) => true,
                    _ => false,
                });
                if closes {
                    self.current = self.current + 1;
                    Ok(Expression::Grouping(Box::new(e)))
                } else {
                    Err(ParseError::MissingRightParen)
                }
            },
            _ => Err(ParseError::UnexpectedToken),
        }
    }
}

} // verus!
