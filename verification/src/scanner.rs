//! The lexer: a single left-to-right pass that turns source text into
//! tokens, tracking the current line for error messages. The spec functions
//! below define exactly which tokens a source text denotes; the executable
//! scanner is proved to produce them.

use crate::decimal::{
    lemma_digits_val_bound, lemma_pow10_38, lemma_pow10_le, sp_digits_val, sp_pow10,
    sp_uint_digits, char_digit, push_uint_digits,
};
use crate::number::{normalize, sp_norm, NumberValue};
use crate::strutil::push_char;
use crate::utils::{is_alpha, is_alpha_numeric, is_digit, spec_is_alpha, spec_is_alpha_numeric,
    spec_is_digit};
use vstd::prelude::*;
use vstd::string::StringExecFns;

verus! {

/// Which of a paired punctuation's two sides a token is.
#[derive(Clone, Copy, PartialEq, Eq, Structural, Debug)]
pub enum TokenDirection {
    Left,
    Right,
}

/// The fixed, closed set of keywords.
#[derive(Clone, Copy, PartialEq, Eq, Structural, Debug)]
pub enum Keyword {
    And,
    Class,
    Else,
    False,
    For,
    Function,
    If,
    Nil,
    Or,
    Print,
    Return,
    Super,
    This,
    True,
    VariableDeclaration,
    While,
}

/// One lexical unit. A string token keeps its delimiting quotes; they are
/// stripped later, when the literal is built.
#[derive(Debug, PartialEq)]
pub enum Token {
    Paren(TokenDirection),
    Brace(TokenDirection),
    Comma,
    Dot,
    Minus,
    Plus,
    Slash,
    Star,
    SemiColon,
    Bang,
    BangEquals,
    Equals,
    EqualsEquals,
    LessEqual,
    Less,
    Greater,
    GreaterEqual,
    String(String),
    Number(NumberValue),
    Identifier(String),
    Keyword(Keyword),
}

/// The model of a token.
pub enum TokenM {
    Paren(TokenDirection),
    Brace(TokenDirection),
    Comma,
    Dot,
    Minus,
    Plus,
    Slash,
    Star,
    SemiColon,
    Bang,
    BangEquals,
    Equals,
    EqualsEquals,
    LessEqual,
    Less,
    Greater,
    GreaterEqual,
    String(Seq<char>),
    Number(NumberValue),
    Identifier(Seq<char>),
    Keyword(Keyword),
}

impl View for Token {
    type V = TokenM;

    open spec fn view(&self) -> TokenM {
        match self {
            Token::Paren(d) => TokenM::Paren(*d),
            Token::Brace(d) => TokenM::Brace(*d),
            Token::Comma => TokenM::Comma,
            Token::Dot => TokenM::Dot,
            Token::Minus => TokenM::Minus,
            Token::Plus => TokenM::Plus,
            Token::Slash => TokenM::Slash,
            Token::Star => TokenM::Star,
            Token::SemiColon => TokenM::SemiColon,
            Token::Bang => TokenM::Bang,
            Token::BangEquals => TokenM::BangEquals,
            Token::Equals => TokenM::Equals,
            Token::EqualsEquals => TokenM::EqualsEquals,
            Token::LessEqual => TokenM::LessEqual,
            Token::Less => TokenM::Less,
            Token::Greater => TokenM::Greater,
            Token::GreaterEqual => TokenM::GreaterEqual,
            Token::String(s) => TokenM::String(s@),
            Token::Number(n) => TokenM::Number(*n),
            Token::Identifier(s) => TokenM::Identifier(s@),
            Token::Keyword(k) => TokenM::Keyword(*k),
        }
    }
}

/// A number token carries a positive denominator.
pub open spec fn sp_token_wf(t: TokenM) -> bool {
    match t {
        TokenM::Number(n) => n.wf(),
        _ => true,
    }
}

/// Every number token in the sequence is well formed.
pub open spec fn sp_tokens_wf(ts: Seq<TokenM>) -> bool {
    forall|i: int| 0 <= i < ts.len() ==> sp_token_wf(#[trigger] ts[i])
}

/// The ordered token sequence a scan produces.
#[derive(Debug, PartialEq)]
pub struct Tokens(pub Vec<Token>);

impl View for Tokens {
    type V = Seq<TokenM>;

    open spec fn view(&self) -> Seq<TokenM> {
        self.0@.map_values(|t: Token| t@)
    }
}

impl Tokens {
    pub fn new() -> (r: Tokens)
        ensures
            r@ == Seq::<TokenM>::empty(),
    {
        let r = Tokens(Vec::new());
        proof {
            assert(r@ =~= Seq::<TokenM>::empty());
        }
        r
    }

    pub fn push(&mut self, token: Token)
        ensures
            final(self)@ == old(self)@.push(token@),
    {
        let ghost tv = token@;
        self.0.push(token);
        proof {
            assert(self@ =~= old(self)@.push(tv));
        }
    }

    pub fn len(&self) -> (r: usize)
        ensures
            r == self@.len(),
    {
        self.0.len()
    }

    pub fn get(&self, index: usize) -> (r: Option<&Token>)
        ensures
            index < self@.len() ==> r is Some && r.unwrap()@ == self@[index as int],
            index >= self@.len() ==> r is None,
    {
        if index < self.0.len() {
            Some(&self.0[index])
        } else {
            None
        }
    }
}

/// A lexical error: the first one aborts the whole scan.
#[derive(Clone, Copy, PartialEq, Eq, Structural, Debug)]
pub enum LexError {
    /// The input ended inside a string literal.
    UnterminatedString,
    /// A character that cannot start any token.
    UnexpectedCharacter { character: char, line: u64 },
    /// A numeric literal with too many significant digits, or whose reduced
    /// value does not fit the numeric representation.
    NumberTooLarge { line: u64 },
}

/// The message of a lexical error.
pub open spec fn sp_lex_error_message(e: LexError) -> Seq<char> {
    match e {
        LexError::UnterminatedString => "Unterminated string"@,
        LexError::UnexpectedCharacter { character, line } => "Unexpected character ("@ + seq![
            character,
        ] + ") on line "@ + sp_uint_digits(line as nat),
        LexError::NumberTooLarge { line } => "Number literal too large on line "@
            + sp_uint_digits(line as nat),
    }
}

impl LexError {
    pub fn message(&self) -> (r: String)
        ensures
            r@ == sp_lex_error_message(*self),
    {
        match self {
            LexError::UnterminatedString => String::from_str("Unterminated string"),
            LexError::UnexpectedCharacter { character, line } => {
                let mut out = String::from_str("Unexpected character (");
                push_char(&mut out, *character);
                out.append(") on line ");
                push_uint_digits(&mut out, *line as u128);
                proof {
                    assert(out@ =~= sp_lex_error_message(*self));
                }
                out
            },
            LexError::NumberTooLarge { line } => {
                let mut out = String::from_str("Number literal too large on line ");
                push_uint_digits(&mut out, *line as u128);
                proof {
                    assert(out@ =~= sp_lex_error_message(*self));
                }
                out
            },
        }
    }
}

/// The position just past a line comment that starts before `pos`: the
/// input's end, or just past the next newline.
pub open spec fn sp_comment_end(s: Seq<char>, pos: int) -> int
    decreases s.len() - pos,
{
    if pos < 0 || pos >= s.len() {
        s.len() as int
    } else if s[pos] == '\n' {
        pos + 1
    } else {
        sp_comment_end(s, pos + 1)
    }
}

/// The position just past the closing quote of a string whose body starts at
/// `pos`, or `None` when the input ends first.
pub open spec fn sp_string_end(s: Seq<char>, pos: int) -> Option<int>
    decreases s.len() - pos,
{
    if pos < 0 || pos >= s.len() {
        None
    } else if s[pos] == '"' {
        Some(pos + 1)
    } else {
        sp_string_end(s, pos + 1)
    }
}

/// How many newlines `s` holds in the range `[a, b)`.
pub open spec fn sp_count_newlines(s: Seq<char>, a: int, b: int) -> nat
    decreases b - a,
{
    if a < 0 || a >= b || b > s.len() {
        0
    } else {
        (if s[a] == '\n' {
            1nat
        } else {
            0nat
        }) + sp_count_newlines(s, a + 1, b)
    }
}

/// The end of the maximal run of digits starting at `pos`.
pub open spec fn sp_digits_end(s: Seq<char>, pos: int) -> int
    decreases s.len() - pos,
{
    if pos < 0 || pos >= s.len() {
        s.len() as int
    } else if spec_is_digit(s[pos]) {
        sp_digits_end(s, pos + 1)
    } else {
        pos
    }
}

/// The end of the maximal run of identifier characters starting at `pos`.
pub open spec fn sp_ident_end(s: Seq<char>, pos: int) -> int
    decreases s.len() - pos,
{
    if pos < 0 || pos >= s.len() {
        s.len() as int
    } else if spec_is_alpha_numeric(s[pos]) {
        sp_ident_end(s, pos + 1)
    } else {
        pos
    }
}

/// `d` without its leading zero digits.
pub open spec fn sp_strip_leading_zeros(d: Seq<char>) -> Seq<char>
    decreases d.len(),
{
    if d.len() > 0 && d[0] == '0' {
        sp_strip_leading_zeros(d.drop_first())
    } else {
        d
    }
}

/// `d` without its trailing zero digits.
pub open spec fn sp_strip_trailing_zeros(d: Seq<char>) -> Seq<char>
    decreases d.len(),
{
    if d.len() > 0 && d.last() == '0' {
        sp_strip_trailing_zeros(d.drop_last())
    } else {
        d
    }
}

/// The keyword a word denotes, if any; matching is case sensitive.
pub open spec fn sp_keyword_of(w: Seq<char>) -> Option<Keyword> {
    if w == "and"@ {
        Some(Keyword::And)
    } else if w == "class"@ {
        Some(Keyword::Class)
    } else if w == "else"@ {
        Some(Keyword::Else)
    } else if w == "false"@ {
        Some(Keyword::False)
    } else if w == "for"@ {
        Some(Keyword::For)
    } else if w == "fun"@ {
        Some(Keyword::Function)
    } else if w == "if"@ {
        Some(Keyword::If)
    } else if w == "nil"@ {
        Some(Keyword::Nil)
    } else if w == "or"@ {
        Some(Keyword::Or)
    } else if w == "print"@ {
        Some(Keyword::Print)
    } else if w == "return"@ {
        Some(Keyword::Return)
    } else if w == "super"@ {
        Some(Keyword::Super)
    } else if w == "this"@ {
        Some(Keyword::This)
    } else if w == "true"@ {
        Some(Keyword::True)
    } else if w == "var"@ {
        Some(Keyword::VariableDeclaration)
    } else if w == "while"@ {
        Some(Keyword::While)
    } else {
        None
    }
}

/// How many significant digits a numeric literal may carry.
pub const MAX_NUMBER_DIGITS: u64 = 38;

/// The token a numeric literal starting at `pos` denotes, and the position
/// just past it: a maximal digit run, with one embedded point accepted only
/// when a digit follows it. The literal's exact decimal value is reduced;
/// a literal with too many significant digits, or whose reduced value does
/// not fit, is an error.
pub open spec fn sp_number_token(s: Seq<char>, pos: int, line: int) -> Result<
    (TokenM, int),
    LexError,
> {
    let e1 = sp_digits_end(s, pos);
    let dotted = e1 + 1 < s.len() && s[e1] == '.' && spec_is_digit(s[e1 + 1]);
    let end = if dotted {
        sp_digits_end(s, e1 + 1)
    } else {
        e1
    };
    let frac = if dotted {
        s.subrange(e1 + 1, end)
    } else {
        Seq::<char>::empty()
    };
    let si = sp_strip_leading_zeros(s.subrange(pos, e1));
    let sf = sp_strip_trailing_zeros(frac);
    if si.len() + sf.len() > MAX_NUMBER_DIGITS {
        Err(LexError::NumberTooLarge { line: line as u64 })
    } else {
        match sp_norm(sp_digits_val(si + sf) as int, sp_pow10(sf.len()) as int) {
            Some(nv) => Ok((TokenM::Number(nv), end)),
            None => Err(LexError::NumberTooLarge { line: line as u64 }),
        }
    }
}

/// One step of the scan at `pos`: the token it produces, if any, and the
/// next position and line.
pub open spec fn sp_scan_token(s: Seq<char>, pos: int, line: int) -> Result<
    (Option<TokenM>, int, int),
    LexError,
>
    recommends
        0 <= pos < s.len(),
{
    let c = s[pos];
    if c == ' ' || c == '\r' || c == '\t' {
        Ok((None, pos + 1, line))
    } else if c == '\n' {
        Ok((None, pos + 1, line + 1))
    } else if c == '(' {
        Ok((Some(TokenM::Paren(TokenDirection::Left)), pos + 1, line))
    } else if c == ')' {
        Ok((Some(TokenM::Paren(TokenDirection::Right)), pos + 1, line))
    } else if c == '{' {
        Ok((Some(TokenM::Brace(TokenDirection::Left)), pos + 1, line))
    } else if c == '}' {
        Ok((Some(TokenM::Brace(TokenDirection::Right)), pos + 1, line))
    } else if c == ',' {
        Ok((Some(TokenM::Comma), pos + 1, line))
    } else if c == '.' {
        Ok((Some(TokenM::Dot), pos + 1, line))
    } else if c == '-' {
        Ok((Some(TokenM::Minus), pos + 1, line))
    } else if c == '+' {
        Ok((Some(TokenM::Plus), pos + 1, line))
    } else if c == '*' {
        Ok((Some(TokenM::Star), pos + 1, line))
    } else if c == ';' {
        Ok((Some(TokenM::SemiColon), pos + 1, line))
    } else if c == '!' {
        if pos + 1 < s.len() && s[pos + 1] == '=' {
            Ok((Some(TokenM::BangEquals), pos + 2, line))
        } else {
            Ok((Some(TokenM::Bang), pos + 1, line))
        }
    } else if c == '=' {
        if pos + 1 < s.len() && s[pos + 1] == '=' {
            Ok((Some(TokenM::EqualsEquals), pos + 2, line))
        } else {
            Ok((Some(TokenM::Equals), pos + 1, line))
        }
    } else if c == '<' {
        if pos + 1 < s.len() && s[pos + 1] == '=' {
            Ok((Some(TokenM::LessEqual), pos + 2, line))
        } else {
            Ok((Some(TokenM::Less), pos + 1, line))
        }
    } else if c == '>' {
        if pos + 1 < s.len() && s[pos + 1] == '=' {
            Ok((Some(TokenM::GreaterEqual), pos + 2, line))
        } else {
            Ok((Some(TokenM::Greater), pos + 1, line))
        }
    } else if c == '/' {
        if pos + 1 < s.len() && s[pos + 1] == '/' {
            Ok((None, sp_comment_end(s, pos + 2), line))
        } else {
            Ok((Some(TokenM::Slash), pos + 1, line))
        }
    } else if c == '"' {
        match sp_string_end(s, pos + 1) {
            Some(e) => Ok(
                (
                    Some(TokenM::String(s.subrange(pos, e))),
                    e,
                    line + sp_count_newlines(s, pos + 1, e),
                ),
            ),
            None => Err(LexError::UnterminatedString),
        }
    } else if spec_is_digit(c) {
        match sp_number_token(s, pos, line) {
            Ok((t, end)) => Ok((Some(t), end, line)),
            Err(e) => Err(e),
        }
    } else if spec_is_alpha(c) {
        let end = sp_ident_end(s, pos + 1);
        let w = s.subrange(pos, end);
        match sp_keyword_of(w) {
            Some(k) => Ok((Some(TokenM::Keyword(k)), end, line)),
            None => Ok((Some(TokenM::Identifier(w)), end, line)),
        }
    } else {
        Err(LexError::UnexpectedCharacter { character: c, line: line as u64 })
    }
}

/// The tokens of the whole input from `pos` onward, or the first lexical
/// error. Each step consumes at least one character.
pub open spec fn sp_scan(s: Seq<char>, pos: int, line: int) -> Result<Seq<TokenM>, LexError>
    decreases s.len() - pos,
{
    if pos < 0 || pos >= s.len() {
        Ok(Seq::empty())
    } else {
        match sp_scan_token(s, pos, line) {
            Err(e) => Err(e),
            Ok((t, p_raw, l2)) => {
                let p2 = if p_raw <= pos {
                    pos + 1
                } else if p_raw > s.len() {
                    s.len() as int
                } else {
                    p_raw
                };
                match sp_scan(s, p2, l2) {
                    Err(e) => Err(e),
                    Ok(rest) => Ok(
                        match t {
                            Some(tok) => seq![tok] + rest,
                            None => rest,
                        },
                    ),
                }
            },
        }
    }
}

/// Newlines in a range are no more numerous than its characters.
proof fn lemma_count_newlines_le(s: Seq<char>, a: int, b: int)
    ensures
        sp_count_newlines(s, a, b) <= (if b > a {
            b - a
        } else {
            0
        }),
    decreases b - a,
{
    if !(a < 0 || a >= b || b > s.len()) {
        lemma_count_newlines_le(s, a + 1, b);
    }
}

/// The position just past the current line comment.
fn find_comment_end(chars: &Vec<char>, pos: usize) -> (r: usize)
    requires
        pos <= chars.len(),
    ensures
        r as int == sp_comment_end(chars@, pos as int),
        pos <= r <= chars.len(),
{
    let n: usize = chars.len();
    let mut i: usize = pos;
    while i < n
        invariant
            pos <= i <= n,
            n == chars.len(),
            sp_comment_end(chars@, pos as int) == sp_comment_end(chars@, i as int),
        decreases n - i,
    {
        if chars[i] == '\n' {
            return i + 1;
        }
        i = i + 1;
    }
    i
}

/// The position just past the closing quote, when there is one.
fn find_string_end(chars: &Vec<char>, pos: usize) -> (r: Option<usize>)
    requires
        pos <= chars.len(),
    ensures
        sp_string_end(chars@, pos as int) == (match r {
            Some(v) => Some(v as int),
            None => None::<int>,
        }),
        r is Some ==> pos < r.unwrap() <= chars.len(),
{
    let n: usize = chars.len();
    let mut i: usize = pos;
    while i < n
        invariant
            pos <= i <= n,
            n == chars.len(),
            sp_string_end(chars@, pos as int) == sp_string_end(chars@, i as int),
        decreases n - i,
    {
        if chars[i] == '"' {
            return Some(i + 1);
        }
        i = i + 1;
    }
    None
}

/// How many newlines the range `[a, b)` holds.
fn count_newlines(chars: &Vec<char>, a: usize, b: usize) -> (r: usize)
    requires
        a <= b <= chars.len(),
    ensures
        r as nat == sp_count_newlines(chars@, a as int, b as int),
        r <= b - a,
{
    let mut count: usize = 0;
    let mut i: usize = a;
    while i < b
        invariant
            a <= i <= b <= chars.len(),
            count <= i - a,
            count + sp_count_newlines(chars@, i as int, b as int) == sp_count_newlines(
                chars@,
                a as int,
                b as int,
            ),
        decreases b - i,
    {
        proof {
            lemma_count_newlines_le(chars@, a as int, b as int);
        }
        if chars[i] == '\n' {
            count = count + 1;
        }
        i = i + 1;
    }
    count
}

/// The end of the maximal digit run from `pos`.
fn find_digits_end(chars: &Vec<char>, pos: usize) -> (r: usize)
    requires
        pos <= chars.len(),
    ensures
        r as int == sp_digits_end(chars@, pos as int),
        pos <= r <= chars.len(),
{
    let n: usize = chars.len();
    let mut i: usize = pos;
    while i < n
        invariant
            pos <= i <= n,
            n == chars.len(),
            sp_digits_end(chars@, pos as int) == sp_digits_end(chars@, i as int),
        decreases n - i,
    {
        if !is_digit(chars[i]) {
            return i;
        }
        i = i + 1;
    }
    i
}

/// The end of the maximal identifier-character run from `pos`.
fn find_ident_end(chars: &Vec<char>, pos: usize) -> (r: usize)
    requires
        pos <= chars.len(),
    ensures
        r as int == sp_ident_end(chars@, pos as int),
        pos <= r <= chars.len(),
{
    let n: usize = chars.len();
    let mut i: usize = pos;
    while i < n
        invariant
            pos <= i <= n,
            n == chars.len(),
            sp_ident_end(chars@, pos as int) == sp_ident_end(chars@, i as int),
        decreases n - i,
    {
        if !is_alpha_numeric(chars[i]) {
            return i;
        }
        i = i + 1;
    }
    i
}

/// The text of the range `[a, b)` as an owned string.
fn substring_string(chars: &Vec<char>, a: usize, b: usize) -> (r: String)
    requires
        a <= b <= chars.len(),
    ensures
        r@ == chars@.subrange(a as int, b as int),
{
    let mut out = String::new();
    let mut i: usize = a;
    while i < b
        invariant
            a <= i <= b <= chars.len(),
            out@ == chars@.subrange(a as int, i as int),
        decreases b - i,
    {
        push_char(&mut out, chars[i]);
        proof {
            assert(chars@.subrange(a as int, i as int).push(chars@[i as int]) =~= chars@.subrange(
                a as int,
                i + 1,
            ));
        }
        i = i + 1;
    }
    proof {
        assert(out@ =~= chars@.subrange(a as int, b as int));
    }
    out
}

/// The keyword a word denotes, if any.
fn keyword_of(w: &String) -> (r: Option<Keyword>)
    ensures
        r == sp_keyword_of(w@),
{
    if w.eq(&String::from_str("and")) {
        Some(Keyword::And)
    } else if w.eq(&String::from_str("class")) {
        Some(Keyword::Class)
    } else if w.eq(&String::from_str("else")) {
        Some(Keyword::Else)
    } else if w.eq(&String::from_str("false")) {
        Some(Keyword::False)
    } else if w.eq(&String::from_str("for")) {
        Some(Keyword::For)
    } else if w.eq(&String::from_str("fun")) {
        Some(Keyword::Function)
    } else if w.eq(&String::from_str("if")) {
        Some(Keyword::If)
    } else if w.eq(&String::from_str("nil")) {
        Some(Keyword::Nil)
    } else if w.eq(&String::from_str("or")) {
        Some(Keyword::Or)
    } else if w.eq(&String::from_str("print")) {
        Some(Keyword::Print)
    } else if w.eq(&String::from_str("return")) {
        Some(Keyword::Return)
    } else if w.eq(&String::from_str("super")) {
        Some(Keyword::Super)
    } else if w.eq(&String::from_str("this")) {
        Some(Keyword::This)
    } else if w.eq(&String::from_str("true")) {
        Some(Keyword::True)
    } else if w.eq(&String::from_str("var")) {
        Some(Keyword::VariableDeclaration)
    } else if w.eq(&String::from_str("while")) {
        Some(Keyword::While)
    } else {
        None
    }
}

/// Ten to the `k`, computed exactly.
fn pow10_u128(k: u64) -> (r: u128)
    requires
        k <= MAX_NUMBER_DIGITS,
    ensures
        r as nat == sp_pow10(k as nat),
        1 <= r,
{
    proof {
        lemma_pow10_38();
    }
    let mut p: u128 = 1;
    let mut i: u64 = 0;
    while i < k
        invariant
            i <= k <= MAX_NUMBER_DIGITS,
            p as nat == sp_pow10(i as nat),
        decreases k - i,
    {
        proof {
            lemma_pow10_le(i as nat + 1, MAX_NUMBER_DIGITS as nat);
            lemma_pow10_38();
        }
        p = p * 10;
        i = i + 1;
    }
    proof {
        lemma_pow10_le(0, k as nat);
    }
    p
}

/// The digit run's end lies between `pos` and the input's end, and every
/// character before it is a digit.
proof fn lemma_digits_end_props(s: Seq<char>, pos: int)
    requires
        0 <= pos <= s.len(),
    ensures
        pos <= sp_digits_end(s, pos) <= s.len(),
        forall|j: int| pos <= j < sp_digits_end(s, pos) ==> spec_is_digit(s[j]),
    decreases s.len() - pos,
{
    if pos < s.len() && spec_is_digit(s[pos]) {
        lemma_digits_end_props(s, pos + 1);
    }
}

/// Scans the numeric literal starting at `pos` and builds its token.
fn scan_number(chars: &Vec<char>, pos: usize, line: u64) -> (r: Result<(Token, usize), LexError>)
    requires
        pos < chars.len(),
        spec_is_digit(chars@[pos as int]),
    ensures
        ({
            let t = sp_number_token(chars@, pos as int, line as int);
            match t {
                Ok((tm, end)) => r is Ok && r.unwrap().0@ == tm && r.unwrap().1 as int == end
                    && sp_token_wf(tm) && pos < r.unwrap().1 <= chars.len(),
                Err(e) => r == Err::<(Token, usize), LexError>(e),
            }
        }),
{
    let n: usize = chars.len();
    let e1: usize = find_digits_end(chars, pos);
    proof {
        assert(sp_digits_end(chars@, pos as int) == sp_digits_end(chars@, pos + 1));
        lemma_digits_end_props(chars@, pos + 1);
        lemma_digits_end_props(chars@, pos as int);
    }
    let dotted: bool = e1 < n && e1 + 1 < n && chars[e1] == '.' && is_digit(chars[e1 + 1]);
    let end: usize = if dotted {
        find_digits_end(chars, e1 + 1)
    } else {
        e1
    };
    proof {
        if dotted {
            assert(sp_digits_end(chars@, e1 + 1) == sp_digits_end(chars@, e1 + 2));
            lemma_digits_end_props(chars@, e1 + 2);
            lemma_digits_end_props(chars@, e1 + 1);
        }
    }
    // Skip the integer part's leading zeros.
    let mut z: usize = pos;
    while z < e1 && chars[z] == '0'
        invariant
            pos <= z <= e1 <= chars.len(),
            sp_strip_leading_zeros(chars@.subrange(pos as int, e1 as int))
                == sp_strip_leading_zeros(chars@.subrange(z as int, e1 as int)),
        decreases e1 - z,
    {
        proof {
            assert(chars@.subrange(z as int, e1 as int).drop_first() =~= chars@.subrange(
                z + 1,
                e1 as int,
            ));
        }
        z = z + 1;
    }
    let ghost si = sp_strip_leading_zeros(chars@.subrange(pos as int, e1 as int));
    proof {
        assert(si =~= chars@.subrange(z as int, e1 as int));
    }
    // Drop the fraction's trailing zeros.
    let fs: usize = if dotted {
        e1 + 1
    } else {
        e1
    };
    let mut fe: usize = end;
    if dotted {
        while fe > fs && chars[fe - 1] == '0'
            invariant
                fs <= fe <= end <= chars.len(),
                sp_strip_trailing_zeros(chars@.subrange(fs as int, end as int))
                    == sp_strip_trailing_zeros(chars@.subrange(fs as int, fe as int)),
            decreases fe,
        {
            proof {
                assert(chars@.subrange(fs as int, fe as int).drop_last() =~= chars@.subrange(
                    fs as int,
                    fe - 1,
                ));
            }
            fe = fe - 1;
        }
    } else {
        fe = fs;
    }
    let ghost frac = if dotted {
        chars@.subrange(e1 + 1, end as int)
    } else {
        Seq::<char>::empty()
    };
    let ghost sf = sp_strip_trailing_zeros(frac);
    proof {
        if dotted {
            assert(sf =~= chars@.subrange(fs as int, fe as int));
        } else {
            assert(sf =~= Seq::<char>::empty());
        }
    }
    let si_len: usize = e1 - z;
    let sf_len: usize = if dotted {
        fe - fs
    } else {
        0
    };
    if si_len + sf_len > MAX_NUMBER_DIGITS as usize {
        return Err(LexError::NumberTooLarge { line });
    }
    // Accumulate the significant digits' value.
    let mut val: u128 = 0;
    let mut j: usize = z;
    while j < e1
        invariant
            z <= j <= e1 <= chars.len(),
            e1 as int == sp_digits_end(chars@, pos as int),
            pos <= z <= e1,
            si == chars@.subrange(z as int, e1 as int),
            e1 - z <= MAX_NUMBER_DIGITS,
            val as nat == sp_digits_val(chars@.subrange(z as int, j as int)),
        decreases e1 - j,
    {
        proof {
            lemma_digits_val_bound(chars@.subrange(z as int, j as int));
            lemma_pow10_le((j - z) as nat, 37);
            lemma_pow10_38();
            lemma_digits_end_props(chars@, pos as int);
        }
        let d: u64 = char_digit(chars[j]);
        val = val * 10 + d as u128;
        proof {
            assert(chars@.subrange(z as int, j + 1).drop_last() =~= chars@.subrange(
                z as int,
                j as int,
            ));
        }
        j = j + 1;
    }
    let mut k: usize = fs;
    if dotted {
        proof {
            assert(si + Seq::<char>::empty() =~= si);
        }
        while k < fe
            invariant
                fs <= k <= fe <= chars.len(),
                dotted,
                fs == e1 + 1,
                si.len() + (fe - fs) <= MAX_NUMBER_DIGITS,
                sf == chars@.subrange(fs as int, fe as int),
                fe as int <= sp_digits_end(chars@, e1 + 1),
                val as nat == sp_digits_val(si + chars@.subrange(fs as int, k as int)),
            decreases fe - k,
        {
            proof {
                lemma_digits_val_bound(si + chars@.subrange(fs as int, k as int));
                lemma_pow10_le(si.len() + (k - fs) as nat, 37);
                lemma_pow10_38();
                lemma_digits_end_props(chars@, e1 + 1);
            }
            let d: u64 = char_digit(chars[k]);
            val = val * 10 + d as u128;
            proof {
                assert((si + chars@.subrange(fs as int, k + 1)).drop_last() =~= si
                    + chars@.subrange(fs as int, k as int));
            }
            k = k + 1;
        }
    } else {
        proof {
            assert(si + sf =~= si);
        }
    }
    proof {
        assert(val as nat == sp_digits_val(si + sf));
    }
    let p: u128 = pow10_u128(sf_len as u64);
    match normalize(false, val, p) {
        Some(nv) => Ok((Token::Number(nv), end)),
        None => Err(LexError::NumberTooLarge { line }),
    }
}

/// The sequence one optional token denotes.
pub open spec fn sp_opt_token(t: Option<TokenM>) -> Seq<TokenM> {
    match t {
        Some(tok) => seq![tok],
        None => Seq::empty(),
    }
}

/// The single left-to-right pass over the source characters.
pub struct Scanner {
    pub tokens: Tokens,
    pub source_chars: Vec<char>,
    pub start: usize,
    pub current: usize,
    pub line: u128,
}

impl Scanner {
    /// The scanner's bookkeeping stays inside the source, the line counter
    /// never outruns the characters read, and every token built so far is
    /// well formed.
    pub open spec fn wf(self) -> bool {
        self.current <= self.source_chars@.len() && 1 <= self.line && self.line <= self.current
            + 1 && sp_tokens_wf(self.tokens@)
    }

    /// Scans a whole source text: the tokens it denotes, or the first
    /// lexical error.
    pub fn parse_tokens_from_source(source: &str) -> (r: Result<Tokens, LexError>)
        ensures
            ({
                let t = sp_scan(source@, 0, 1);
                match t {
                    Ok(ts) => r is Ok && r.unwrap()@ == ts && sp_tokens_wf(ts),
                    Err(e) => r == Err::<Tokens, LexError>(e),
                }
            }),
    {
        let mut scanner = Self::from_source(source);
        match scanner.scan_tokens() {
            Ok(_) => {
                proof {
                    assert(Seq::<TokenM>::empty() + sp_scan(source@, 0, 1).unwrap() =~= sp_scan(
                        source@,
                        0,
                        1,
                    ).unwrap());
                }
                Ok(scanner.tokens)
            },
            Err(e) => Err(e),
        }
    }

    /// A scanner at the start of `source`, on line one, with no tokens yet.
    pub fn from_source(source: &str) -> (r: Scanner)
        ensures
            r.source_chars@ == source@,
            r.tokens@ == Seq::<TokenM>::empty(),
            r.current == 0,
            r.start == 0,
            r.line == 1,
            r.wf(),
    {
        Scanner {
            tokens: Tokens::new(),
            source_chars: crate::strutil::chars_of(source),
            start: 0,
            current: 0,
            line: 1,
        }
    }

    /// Scans from the current position to the input's end, appending every
    /// token found, or stops at the first lexical error.
    pub fn scan_tokens(&mut self) -> (r: Result<(), LexError>)
        requires
            old(self).wf(),
        ensures
            final(self).source_chars == old(self).source_chars,
            final(self).wf(),
            ({
                let t = sp_scan(
                    old(self).source_chars@,
                    old(self).current as int,
                    old(self).line as int,
                );
                match t {
                    Ok(ts) => r is Ok && final(self).tokens@ == old(self).tokens@ + ts
                        && final(self).current == final(self).source_chars@.len(),
                    Err(e) => r == Err::<(), LexError>(e),
                }
            }),
    {
        let ghost chars = self.source_chars@;
        let ghost c0 = self.current as int;
        let ghost l0 = self.line as int;
        let ghost n0 = self.tokens@.len();
        let n: usize = self.source_chars.len();
        while self.current < n
            invariant
                self.wf(),
                n == self.source_chars@.len(),
                self.source_chars == old(self).source_chars,
                chars == self.source_chars@,
                c0 == old(self).current as int,
                l0 == old(self).line as int,
                n0 == old(self).tokens@.len(),
                n0 <= self.tokens@.len(),
                self.tokens@.take(n0 as int) == old(self).tokens@,
                sp_scan(chars, c0, l0) == (match sp_scan(
                    chars,
                    self.current as int,
                    self.line as int,
                ) {
                    Ok(rest) => Ok::<Seq<TokenM>, LexError>(
                        self.tokens@.skip(n0 as int) + rest,
                    ),
                    Err(e) => Err::<Seq<TokenM>, LexError>(e),
                }),
            decreases n - self.current,
        {
            let ghost cur = self.current as int;
            let ghost ln = self.line as int;
            let ghost toks = self.tokens@;
            let step = self.scan_token();
            match step {
                Ok(_) => {
                    proof {
                        let st = sp_scan_token(chars, cur, ln);
                        assert(self.tokens@.skip(n0 as int) =~= toks.skip(n0 as int)
                            + sp_opt_token(st.unwrap().0));
                        assert(self.tokens@.take(n0 as int) =~= toks.take(n0 as int));
                        if sp_scan(chars, self.current as int, self.line as int) is Ok {
                            assert(toks.skip(n0 as int) + (sp_opt_token(st.unwrap().0) + sp_scan(
                                chars,
                                self.current as int,
                                self.line as int,
                            ).unwrap()) =~= self.tokens@.skip(n0 as int) + sp_scan(
                                chars,
                                self.current as int,
                                self.line as int,
                            ).unwrap());
                        }
                    }
                },
                Err(e) => {
                    return Err(e);
                },
            }
        }
        proof {
            assert(self.tokens@.skip(n0 as int) + Seq::<TokenM>::empty() =~= self.tokens@.skip(
                n0 as int,
            ));
            assert(old(self).tokens@ + self.tokens@.skip(n0 as int) =~= self.tokens@);
        }
        Ok(())
    }

    /// Scans one token: skips whitespace and comments, recognises one- and
    /// two-character punctuation by one character of lookahead, and hands
    /// strings, numbers and words to their own scanners.
    fn scan_token(&mut self) -> (r: Result<(), LexError>)
        requires
            old(self).wf(),
            old(self).current < old(self).source_chars@.len(),
        ensures
            final(self).source_chars == old(self).source_chars,
            final(self).wf(),
            ({
                let st = sp_scan_token(
                    old(self).source_chars@,
                    old(self).current as int,
                    old(self).line as int,
                );
                match st {
                    Ok((t, p_raw, l2)) => r is Ok && final(self).current as int == p_raw
                        && final(self).current > old(self).current
                        && final(self).current <= final(self).source_chars@.len()
                        && final(self).line as int == l2
                        && final(self).tokens@ == old(self).tokens@ + sp_opt_token(t),
                    Err(e) => r == Err::<(), LexError>(e)
                        && final(self).tokens@ == old(self).tokens@
                        && final(self).current == old(self).current
                        && final(self).line == old(self).line,
                }
            }),
    {
        let ghost chars = self.source_chars@;
        let n: usize = self.source_chars.len();
        self.start = self.current;
        let cur: usize = self.current;
        let c: char = self.source_chars[cur];
        if c == ' ' || c == '\r' || c == '\t' {
            self.current = cur + 1;
            proof {
                assert(old(self).tokens@ + Seq::<TokenM>::empty() =~= old(self).tokens@);
            }
            Ok(())
        } else if c == '\n' {
            self.current = cur + 1;
            self.line = self.line + 1;
            proof {
                assert(old(self).tokens@ + Seq::<TokenM>::empty() =~= old(self).tokens@);
            }
            Ok(())
        } else if c == '(' {
            self.current = cur + 1;
            self.push_token(Token::Paren(TokenDirection::Left));
            Ok(())
        } else if c == ')' {
            self.current = cur + 1;
            self.push_token(Token::Paren(TokenDirection::Right));
            Ok(())
        } else if c == '{' {
            self.current = cur + 1;
            self.push_token(Token::Brace(TokenDirection::Left));
            Ok(())
        } else if c == '}' {
            self.current = cur + 1;
            self.push_token(Token::Brace(TokenDirection::Right));
            Ok(())
        } else if c == ',' {
            self.current = cur + 1;
            self.push_token(Token::Comma);
            Ok(())
        } else if c == '.' {
            self.current = cur + 1;
            self.push_token(Token::Dot);
            Ok(())
        } else if c == '-' {
            self.current = cur + 1;
            self.push_token(Token::Minus);
            Ok(())
        } else if c == '+' {
            self.current = cur + 1;
            self.push_token(Token::Plus);
            Ok(())
        } else if c == '*' {
            self.current = cur + 1;
            self.push_token(Token::Star);
            Ok(())
        } else if c == ';' {
            self.current = cur + 1;
            self.push_token(Token::SemiColon);
            Ok(())
        } else if c == '!' {
            if cur + 1 < n && self.source_chars[cur + 1] == '=' {
                self.current = cur + 2;
                self.push_token(Token::BangEquals);
            } else {
                self.current = cur + 1;
                self.push_token(Token::Bang);
            }
            Ok(())
        } else if c == '=' {
            if cur + 1 < n && self.source_chars[cur + 1] == '=' {
                self.current = cur + 2;
                self.push_token(Token::EqualsEquals);
            } else {
                self.current = cur + 1;
                self.push_token(Token::Equals);
            }
            Ok(())
        } else if c == '<' {
            if cur + 1 < n && self.source_chars[cur + 1] == '=' {
                self.current = cur + 2;
                self.push_token(Token::LessEqual);
            } else {
                self.current = cur + 1;
                self.push_token(Token::Less);
            }
            Ok(())
        } else if c == '>' {
            if cur + 1 < n && self.source_chars[cur + 1] == '=' {
                self.current = cur + 2;
                self.push_token(Token::GreaterEqual);
            } else {
                self.current = cur + 1;
                self.push_token(Token::Greater);
            }
            Ok(())
        } else if c == '/' {
            if cur + 1 < n && self.source_chars[cur + 1] == '/' {
                self.current = find_comment_end(&self.source_chars, cur + 2);
                proof {
                    assert(old(self).tokens@ + Seq::<TokenM>::empty() =~= old(self).tokens@);
                }
                Ok(())
            } else {
                self.current = cur + 1;
                self.push_token(Token::Slash);
                Ok(())
            }
        } else if c == '"' {
            match find_string_end(&self.source_chars, cur + 1) {
                Some(e) => {
                    let nl: usize = count_newlines(&self.source_chars, cur + 1, e);
                    let text = substring_string(&self.source_chars, cur, e);
                    self.current = e;
                    self.line = self.line + nl as u128;
                    self.push_token(Token::String(text));
                    Ok(())
                },
                None => Err(LexError::UnterminatedString),
            }
        } else if is_digit(c) {
            match scan_number(&self.source_chars, cur, self.line as u64) {
                Ok((token, end)) => {
                    self.current = end;
                    self.push_token(token);
                    Ok(())
                },
                Err(e) => Err(e),
            }
        } else if is_alpha(c) {
            let e: usize = find_ident_end(&self.source_chars, cur + 1);
            let w = substring_string(&self.source_chars, cur, e);
            self.current = e;
            match keyword_of(&w) {
                Some(k) => self.push_token(Token::Keyword(k)),
                None => self.push_token(Token::Identifier(w)),
            }
            Ok(())
        } else {
            Err(LexError::UnexpectedCharacter { character: c, line: self.line as u64 })
        }
    }

    /// Appends one token, keeping every token well formed.
    fn push_token(&mut self, token: Token)
        requires
            sp_token_wf(token@),
            sp_tokens_wf(old(self).tokens@),
        ensures
            final(self).tokens@ == old(self).tokens@ + seq![token@],
            sp_tokens_wf(final(self).tokens@),
            final(self).source_chars == old(self).source_chars,
            final(self).current == old(self).current,
            final(self).line == old(self).line,
            final(self).start == old(self).start,
    {
        let ghost before = self.tokens@;
        let ghost tv = token@;
        self.tokens.push(token);
        proof {
            assert(self.tokens@ =~= before + seq![tv]);
            assert forall|i: int| 0 <= i < self.tokens@.len() implies sp_token_wf(
                #[trigger] self.tokens@[i],
            ) by {
                if i < before.len() {
                    assert(self.tokens@[i] == before[i]);
                }
            }
        }
    }
}

} // verus!
