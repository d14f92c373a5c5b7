//! The runtime value model: the dynamically typed values the interpreter
//! works with, the semantics of every operator over them, and their printed
//! forms.

use crate::ast::Operator;
use crate::decimal::{push_frac_digits, push_uint_digits, sp_frac_digits, sp_uint_digits};
use crate::number::{sp_abs, NumberValue};
use crate::strutil::push_char;
use vstd::prelude::*;
use vstd::string::{StrSliceExecFns, StringExecFns};

verus! {

/// How many digits after the point a non-terminating fraction is written
/// with before it is cut off.
pub const FRACTION_DIGITS: u64 = 9;

/// A runtime value. An `Identifier` is transient: it stands for a variable
/// reference before resolution and is never the result of an evaluation.
#[derive(Debug, PartialEq)]
pub enum LiteralValue {
    Boolean(bool),
    String(String),
    Number(NumberValue),
    Identifier(String),
    Nil,
}

/// The model of a runtime value.
pub enum LiteralValueM {
    Boolean(bool),
    String(Seq<char>),
    Number(NumberValue),
    Identifier(Seq<char>),
    Nil,
}

impl View for LiteralValue {
    type V = LiteralValueM;

    open spec fn view(&self) -> LiteralValueM {
        match self {
            LiteralValue::Boolean(b) => LiteralValueM::Boolean(*b),
            LiteralValue::String(s) => LiteralValueM::String(s@),
            LiteralValue::Number(n) => LiteralValueM::Number(*n),
            LiteralValue::Identifier(s) => LiteralValueM::Identifier(s@),
            LiteralValue::Nil => LiteralValueM::Nil,
        }
    }
}

impl Clone for LiteralValue {
    fn clone(&self) -> (r: Self)
        ensures
            r@ == self@,
    {
        match self {
            LiteralValue::Boolean(b) => LiteralValue::Boolean(*b),
            LiteralValue::String(s) => LiteralValue::String(s.clone()),
            LiteralValue::Number(n) => LiteralValue::Number(*n),
            LiteralValue::Identifier(s) => LiteralValue::Identifier(s.clone()),
            LiteralValue::Nil => LiteralValue::Nil,
        }
    }
}

/// A number payload carries a positive denominator.
pub open spec fn sp_lit_wf(v: LiteralValueM) -> bool {
    match v {
        LiteralValueM::Number(n) => n.wf(),
        _ => true,
    }
}

/// An evaluation error. Every invalid operation surfaces as one of these
/// rather than aborting the process.
#[derive(Clone, Copy, PartialEq, Eq, Structural, Debug)]
pub enum EvalError {
    /// The operands' types do not fit the operator.
    TypeMismatch,
    /// The operator cannot appear in this position.
    InvalidOperator,
    /// An identifier stood where a concrete value was required.
    UnresolvedIdentifier,
    /// A number was divided by zero.
    DivisionByZero,
    /// An arithmetic result does not fit the numeric representation.
    NumberOverflow,
}

/// The message of each evaluation error.
pub open spec fn sp_eval_error_message(e: EvalError) -> Seq<char> {
    match e {
        EvalError::TypeMismatch => "Operand types do not fit the operator"@,
        EvalError::InvalidOperator => "Invalid operator for this position"@,
        EvalError::UnresolvedIdentifier => "Unexpected unresolved identifier"@,
        EvalError::DivisionByZero => "Cannot divide by zero"@,
        EvalError::NumberOverflow => "Number out of range"@,
    }
}

impl EvalError {
    pub fn message(&self) -> (r: String)
        ensures
            r@ == sp_eval_error_message(*self),
    {
        match self {
            EvalError::TypeMismatch => String::from_str("Operand types do not fit the operator"),
            EvalError::InvalidOperator => String::from_str("Invalid operator for this position"),
            EvalError::UnresolvedIdentifier => String::from_str(
                "Unexpected unresolved identifier",
            ),
            EvalError::DivisionByZero => String::from_str("Cannot divide by zero"),
            EvalError::NumberOverflow => String::from_str("Number out of range"),
        }
    }
}

/// The printed form of a number: an optional sign, the integer digits, and,
/// for a non-integer value, a point followed by the fraction's digits.
pub open spec fn sp_num_display(n: NumberValue) -> Seq<char>
    recommends
        n.wf(),
{
    let m = sp_abs(n.num as int);
    let ip = m / (n.den as nat);
    let rp = m % (n.den as nat);
    let sign: Seq<char> = if n.num < 0 {
        seq!['-']
    } else {
        Seq::empty()
    };
    sign + sp_uint_digits(ip) + if rp == 0 {
        Seq::<char>::empty()
    } else {
        seq!['.'] + sp_frac_digits(rp, n.den as nat, FRACTION_DIGITS as nat)
    }
}

/// The diagnostic form of a number: as the printed form, but always with at
/// least one digit after the point.
pub open spec fn sp_num_debug(n: NumberValue) -> Seq<char>
    recommends
        n.wf(),
{
    let m = sp_abs(n.num as int);
    let ip = m / (n.den as nat);
    let rp = m % (n.den as nat);
    let sign: Seq<char> = if n.num < 0 {
        seq!['-']
    } else {
        Seq::empty()
    };
    sign + sp_uint_digits(ip) + seq!['.'] + if rp == 0 {
        seq!['0']
    } else {
        sp_frac_digits(rp, n.den as nat, FRACTION_DIGITS as nat)
    }
}

/// The escaped form of one character inside a quoted diagnostic string.
pub open spec fn sp_escape_char(c: char) -> Seq<char> {
    if c == '"' {
        seq!['\\', '"']
    } else if c == '\\' {
        seq!['\\', '\\']
    } else if c == '\n' {
        seq!['\\', 'n']
    } else if c == '\r' {
        seq!['\\', 'r']
    } else if c == '\t' {
        seq!['\\', 't']
    } else {
        seq![c]
    }
}

/// The escaped form of a whole string.
pub open spec fn sp_escape(s: Seq<char>) -> Seq<char>
    decreases s.len(),
{
    if s.len() == 0 {
        Seq::empty()
    } else {
        sp_escape(s.drop_last()) + sp_escape_char(s.last())
    }
}

/// The human-readable form of a value, as `print` writes it.
pub open spec fn sp_display(v: LiteralValueM) -> Seq<char> {
    match v {
        LiteralValueM::Boolean(b) => if b {
            "true"@
        } else {
            "false"@
        },
        LiteralValueM::String(s) => s,
        LiteralValueM::Number(n) => sp_num_display(n),
        LiteralValueM::Identifier(s) => s,
        LiteralValueM::Nil => "nil"@,
    }
}

/// The diagnostic form of a value, as a bare expression statement reports
/// it: the variant's name around its payload.
pub open spec fn sp_debug(v: LiteralValueM) -> Seq<char> {
    match v {
        LiteralValueM::Boolean(b) => "Boolean("@ + (if b {
            "true"@
        } else {
            "false"@
        }) + ")"@,
        LiteralValueM::String(s) => "String(\""@ + sp_escape(s) + "\")"@,
        LiteralValueM::Number(n) => "Number("@ + sp_num_debug(n) + ")"@,
        LiteralValueM::Identifier(s) => "Identifier(\""@ + sp_escape(s) + "\")"@,
        LiteralValueM::Nil => "Nil"@,
    }
}

/// Whether a value counts as true in a condition; an unresolved identifier
/// has no truth value.
pub open spec fn sp_truthy(v: LiteralValueM) -> Result<bool, EvalError> {
    match v {
        LiteralValueM::Boolean(b) => Ok(b),
        LiteralValueM::String(s) => Ok(s.len() > 0),
        LiteralValueM::Number(n) => Ok(n.num != 0),
        LiteralValueM::Nil => Ok(false),
        LiteralValueM::Identifier(_) => Err(EvalError::UnresolvedIdentifier),
    }
}

/// Lexicographic order on character sequences.
pub open spec fn sp_seq_lt(a: Seq<char>, b: Seq<char>) -> bool
    decreases a.len(),
{
    if b.len() == 0 {
        false
    } else if a.len() == 0 {
        true
    } else if a[0] != b[0] {
        a[0] < b[0]
    } else {
        sp_seq_lt(a.drop_first(), b.drop_first())
    }
}

/// The rank a value's variant takes in the cross-type total order.
pub open spec fn sp_val_rank(v: LiteralValueM) -> int {
    match v {
        LiteralValueM::Boolean(_) => 0,
        LiteralValueM::String(_) => 1,
        LiteralValueM::Number(_) => 2,
        LiteralValueM::Identifier(_) => 3,
        LiteralValueM::Nil => 4,
    }
}

/// Structural equality of two values; numbers compare by their rational
/// value.
pub open spec fn sp_val_eq(a: LiteralValueM, b: LiteralValueM) -> bool {
    match (a, b) {
        (LiteralValueM::Boolean(x), LiteralValueM::Boolean(y)) => x == y,
        (LiteralValueM::String(x), LiteralValueM::String(y)) => x == y,
        (LiteralValueM::Number(x), LiteralValueM::Number(y)) => NumberValue::sp_eq(x, y),
        (LiteralValueM::Nil, LiteralValueM::Nil) => true,
        _ => false,
    }
}

/// The total order on values: variant rank first, then the payload; false
/// before true, strings lexicographically, numbers by value.
pub open spec fn sp_val_lt(a: LiteralValueM, b: LiteralValueM) -> bool {
    if sp_val_rank(a) != sp_val_rank(b) {
        sp_val_rank(a) < sp_val_rank(b)
    } else {
        match (a, b) {
            (LiteralValueM::Boolean(x), LiteralValueM::Boolean(y)) => !x && y,
            (LiteralValueM::String(x), LiteralValueM::String(y)) => sp_seq_lt(x, y),
            (LiteralValueM::Number(x), LiteralValueM::Number(y)) => NumberValue::sp_lt(x, y),
            _ => false,
        }
    }
}

/// Whether either operand is an unresolved identifier.
pub open spec fn sp_has_ident(a: LiteralValueM, b: LiteralValueM) -> bool {
    a is Identifier || b is Identifier
}

/// A string repeated `k` times.
pub open spec fn sp_repeat(s: Seq<char>, k: nat) -> Seq<char>
    decreases k,
{
    if k == 0 {
        Seq::empty()
    } else {
        sp_repeat(s, (k - 1) as nat) + s
    }
}

/// What `+` yields: numeric addition, string concatenation, or
/// stringification of the non-string side next to a string.
pub open spec fn sp_add_values(a: LiteralValueM, b: LiteralValueM) -> Result<
    LiteralValueM,
    EvalError,
> {
    if sp_has_ident(a, b) {
        Err(EvalError::UnresolvedIdentifier)
    } else {
        match (a, b) {
            (LiteralValueM::Number(x), LiteralValueM::Number(y)) => match NumberValue::sp_add(
                x,
                y,
            ) {
                Some(n) => Ok(LiteralValueM::Number(n)),
                None => Err(EvalError::NumberOverflow),
            },
            (LiteralValueM::String(x), LiteralValueM::String(y)) => Ok(
                LiteralValueM::String(x + y),
            ),
            (LiteralValueM::String(x), y) => Ok(LiteralValueM::String(x + sp_display(y))),
            (x, LiteralValueM::String(y)) => Ok(LiteralValueM::String(sp_display(x) + y)),
            _ => Err(EvalError::TypeMismatch),
        }
    }
}

/// What `-` yields: numeric subtraction only.
pub open spec fn sp_sub_values(a: LiteralValueM, b: LiteralValueM) -> Result<
    LiteralValueM,
    EvalError,
> {
    if sp_has_ident(a, b) {
        Err(EvalError::UnresolvedIdentifier)
    } else {
        match (a, b) {
            (LiteralValueM::Number(x), LiteralValueM::Number(y)) => match NumberValue::sp_sub(
                x,
                y,
            ) {
                Some(n) => Ok(LiteralValueM::Number(n)),
                None => Err(EvalError::NumberOverflow),
            },
            _ => Err(EvalError::TypeMismatch),
        }
    }
}

/// What `*` yields: numeric multiplication, or a string repeated the floor
/// of the numeric side's value many times (never for a non-positive value).
pub open spec fn sp_mul_values(a: LiteralValueM, b: LiteralValueM) -> Result<
    LiteralValueM,
    EvalError,
> {
    if sp_has_ident(a, b) {
        Err(EvalError::UnresolvedIdentifier)
    } else {
        match (a, b) {
            (LiteralValueM::Number(x), LiteralValueM::Number(y)) => match NumberValue::sp_mul(
                x,
                y,
            ) {
                Some(n) => Ok(LiteralValueM::Number(n)),
                None => Err(EvalError::NumberOverflow),
            },
            (LiteralValueM::String(s), LiteralValueM::Number(k)) => Ok(
                LiteralValueM::String(sp_repeat(s, NumberValue::sp_repeat_count(k))),
            ),
            (LiteralValueM::Number(k), LiteralValueM::String(s)) => Ok(
                LiteralValueM::String(sp_repeat(s, NumberValue::sp_repeat_count(k))),
            ),
            _ => Err(EvalError::TypeMismatch),
        }
    }
}

/// What `/` yields: numeric division only; dividing by zero is an error.
pub open spec fn sp_div_values(a: LiteralValueM, b: LiteralValueM) -> Result<
    LiteralValueM,
    EvalError,
> {
    if sp_has_ident(a, b) {
        Err(EvalError::UnresolvedIdentifier)
    } else {
        match (a, b) {
            (LiteralValueM::Number(x), LiteralValueM::Number(y)) => if y.num == 0 {
                Err(EvalError::DivisionByZero)
            } else {
                match NumberValue::sp_div(x, y) {
                    Some(n) => Ok(LiteralValueM::Number(n)),
                    None => Err(EvalError::NumberOverflow),
                }
            },
            _ => Err(EvalError::TypeMismatch),
        }
    }
}

/// What a binary operator yields on two evaluated operands.
pub open spec fn sp_binop(op: Operator, a: LiteralValueM, b: LiteralValueM) -> Result<
    LiteralValueM,
    EvalError,
> {
    match op {
        Operator::EqualsEquals => if sp_has_ident(a, b) {
            Err(EvalError::UnresolvedIdentifier)
        } else {
            Ok(LiteralValueM::Boolean(sp_val_eq(a, b)))
        },
        Operator::BangEquals => if sp_has_ident(a, b) {
            Err(EvalError::UnresolvedIdentifier)
        } else {
            Ok(LiteralValueM::Boolean(!sp_val_eq(a, b)))
        },
        Operator::Greater => if sp_has_ident(a, b) {
            Err(EvalError::UnresolvedIdentifier)
        } else {
            Ok(LiteralValueM::Boolean(sp_val_lt(b, a)))
        },
        Operator::GreaterEqual => if sp_has_ident(a, b) {
            Err(EvalError::UnresolvedIdentifier)
        } else {
            Ok(LiteralValueM::Boolean(!sp_val_lt(a, b)))
        },
        Operator::Less => if sp_has_ident(a, b) {
            Err(EvalError::UnresolvedIdentifier)
        } else {
            Ok(LiteralValueM::Boolean(sp_val_lt(a, b)))
        },
        Operator::LessEqual => if sp_has_ident(a, b) {
            Err(EvalError::UnresolvedIdentifier)
        } else {
            Ok(LiteralValueM::Boolean(!sp_val_lt(b, a)))
        },
        Operator::Minus => sp_sub_values(a, b),
        Operator::Plus => sp_add_values(a, b),
        Operator::Slash => sp_div_values(a, b),
        Operator::Star => sp_mul_values(a, b),
        Operator::Bang => Err(EvalError::InvalidOperator),
    }
}

/// The lexicographic order on character sequences is trichotomous.
proof fn lemma_seq_lt_trichotomy(x: Seq<char>, y: Seq<char>)
    ensures
        sp_seq_lt(x, y) ==> x != y && !sp_seq_lt(y, x),
        x == y ==> !sp_seq_lt(x, y) && !sp_seq_lt(y, x),
        !sp_seq_lt(x, y) && !sp_seq_lt(y, x) ==> x == y,
    decreases x.len() + y.len(),
{
    if x.len() == 0 && y.len() == 0 {
        assert(x =~= y);
    } else if x.len() > 0 && y.len() > 0 {
        lemma_seq_lt_trichotomy(x.drop_first(), y.drop_first());
        if x[0] == y[0] {
            if x.drop_first() == y.drop_first() {
                assert(x =~= y) by {
                    assert(forall|i: int|
                        1 <= i < x.len() ==> #[trigger] x[i] == x.drop_first()[i - 1]);
                    assert(forall|i: int|
                        1 <= i < y.len() ==> #[trigger] y[i] == y.drop_first()[i - 1]);
                }
            }
            if x == y {
                assert(x.drop_first() =~= y.drop_first());
            }
            if x != y {
                assert(x.drop_first() != y.drop_first()) by {
                    if x.drop_first() == y.drop_first() {
                        assert(x =~= y) by {
                            assert(forall|i: int|
                                1 <= i < x.len() ==> #[trigger] x[i] == x.drop_first()[i - 1]);
                            assert(forall|i: int|
                                1 <= i < y.len() ==> #[trigger] y[i] == y.drop_first()[i - 1]);
                        }
                    }
                }
            }
        }
    }
}

/// The order on values is a total order wherever it is defined: for any two
/// values that are not unresolved identifiers, exactly one of "less",
/// "equal" and "greater" holds.
pub proof fn lemma_val_order_trichotomy(a: LiteralValueM, b: LiteralValueM)
    requires
        !sp_has_ident(a, b),
    ensures
        sp_val_lt(a, b) ==> !sp_val_eq(a, b) && !sp_val_lt(b, a),
        sp_val_eq(a, b) ==> !sp_val_lt(a, b) && !sp_val_lt(b, a),
        !sp_val_lt(a, b) && !sp_val_lt(b, a) ==> sp_val_eq(a, b),
{
    match (a, b) {
        (LiteralValueM::String(x), LiteralValueM::String(y)) => {
            lemma_seq_lt_trichotomy(x, y);
        },
        _ => {},
    }
}

/// Multiplying a string by a non-positive number yields the empty string:
/// the repeat count is the value's floor, never below zero.
pub proof fn lemma_repeat_non_positive(s: Seq<char>, k: NumberValue)
    requires
        k.wf(),
        k.num <= 0,
    ensures
        sp_mul_values(LiteralValueM::String(s), LiteralValueM::Number(k)) == Ok::<
            LiteralValueM,
            EvalError,
        >(LiteralValueM::String(Seq::empty())),
        sp_mul_values(LiteralValueM::Number(k), LiteralValueM::String(s)) == Ok::<
            LiteralValueM,
            EvalError,
        >(LiteralValueM::String(Seq::empty())),
{
}

/// `<=` is the negation of `>`, and `>=` the negation of `<`: on operands
/// that are not unresolved identifiers, each ordering operator answers by
/// the one total order on values.
pub proof fn lemma_orderings_agree(a: LiteralValueM, b: LiteralValueM)
    requires
        !sp_has_ident(a, b),
    ensures
        sp_binop(Operator::Greater, a, b) == Ok::<LiteralValueM, EvalError>(
            LiteralValueM::Boolean(sp_val_lt(b, a)),
        ),
        sp_binop(Operator::LessEqual, a, b) == Ok::<LiteralValueM, EvalError>(
            LiteralValueM::Boolean(!sp_val_lt(b, a)),
        ),
        sp_binop(Operator::Less, a, b) == Ok::<LiteralValueM, EvalError>(
            LiteralValueM::Boolean(sp_val_lt(a, b)),
        ),
        sp_binop(Operator::GreaterEqual, a, b) == Ok::<LiteralValueM, EvalError>(
            LiteralValueM::Boolean(!sp_val_lt(a, b)),
        ),
{
}

/// Appends "true" or "false" to `out`.
fn push_bool(out: &mut String, b: bool)
    ensures
        final(out)@ == old(out)@ + (if b {
            "true"@
        } else {
            "false"@
        }),
{
    if b {
        out.append("true");
    } else {
        out.append("false");
    }
}

/// Appends the printed form of a number to `out`.
fn push_number_display(out: &mut String, n: &NumberValue)
    requires
        n.wf(),
    ensures
        final(out)@ == old(out)@ + sp_num_display(*n),
{
    let ghost sign: Seq<char> = if n.num < 0 {
        seq!['-']
    } else {
        Seq::empty()
    };
    if n.num < 0 {
        push_char(out, '-');
    }
    proof {
        assert(out@ =~= old(out)@ + sign);
    }
    let m: u128 = if n.num < 0 {
        (-(n.num as i128)) as u128
    } else {
        n.num as u128
    };
    let den: u128 = n.den as u128;
    let ip: u128 = m / den;
    let rp: u128 = m % den;
    push_uint_digits(out, ip);
    if rp != 0 {
        push_char(out, '.');
        push_frac_digits(out, rp, den, FRACTION_DIGITS);
        proof {
            assert(final(out)@ =~= old(out)@ + sp_num_display(*n));
        }
    } else {
        proof {
            assert(final(out)@ =~= old(out)@ + sp_num_display(*n));
        }
    }
}

/// Appends the diagnostic form of a number to `out`.
fn push_number_debug(out: &mut String, n: &NumberValue)
    requires
        n.wf(),
    ensures
        final(out)@ == old(out)@ + sp_num_debug(*n),
{
    let ghost sign: Seq<char> = if n.num < 0 {
        seq!['-']
    } else {
        Seq::empty()
    };
    if n.num < 0 {
        push_char(out, '-');
    }
    proof {
        assert(out@ =~= old(out)@ + sign);
    }
    let m: u128 = if n.num < 0 {
        (-(n.num as i128)) as u128
    } else {
        n.num as u128
    };
    let den: u128 = n.den as u128;
    let ip: u128 = m / den;
    let rp: u128 = m % den;
    push_uint_digits(out, ip);
    push_char(out, '.');
    if rp != 0 {
        push_frac_digits(out, rp, den, FRACTION_DIGITS);
        proof {
            assert(final(out)@ =~= old(out)@ + sp_num_debug(*n));
        }
    } else {
        push_char(out, '0');
        proof {
            assert(final(out)@ =~= old(out)@ + sp_num_debug(*n));
        }
    }
}

/// Appends the escaped form of `s` to `out`.
fn push_escaped(out: &mut String, s: &str)
    ensures
        final(out)@ == old(out)@ + sp_escape(s@),
{
    let n: usize = s.unicode_len();
    let mut i: usize = 0;
    while i < n
        invariant
            i <= n,
            n == s@.len(),
            out@ == old(out)@ + sp_escape(s@.take(i as int)),
        decreases n - i,
    {
        let c: char = s.get_char(i);
        if c == '"' {
            push_char(out, '\\');
            push_char(out, '"');
        } else if c == '\\' {
            push_char(out, '\\');
            push_char(out, '\\');
        } else if c == '\n' {
            push_char(out, '\\');
            push_char(out, 'n');
        } else if c == '\r' {
            push_char(out, '\\');
            push_char(out, 'r');
        } else if c == '\t' {
            push_char(out, '\\');
            push_char(out, 't');
        } else {
            push_char(out, c);
        }
        proof {
            assert(s@.take(i + 1).drop_last() =~= s@.take(i as int));
            assert(out@ =~= old(out)@ + sp_escape(s@.take(i + 1)));
        }
        i = i + 1;
    }
    proof {
        assert(s@.take(n as int) =~= s@);
    }
}

/// Appends the printed form of a value to `out`.
fn push_display(out: &mut String, v: &LiteralValue)
    requires
        sp_lit_wf(v@),
    ensures
        final(out)@ == old(out)@ + sp_display(v@),
{
    match v {
        LiteralValue::Boolean(b) => push_bool(out, *b),
        LiteralValue::String(s) => out.append(s.as_str()),
        LiteralValue::Number(n) => push_number_display(out, n),
        LiteralValue::Identifier(s) => out.append(s.as_str()),
        LiteralValue::Nil => out.append("nil"),
    }
}

/// The string `s` repeated `k` times.
fn repeat_str(s: &str, k: u64) -> (r: String)
    ensures
        r@ == sp_repeat(s@, k as nat),
{
    let mut out = String::new();
    let mut i: u64 = 0;
    while i < k
        invariant
            i <= k,
            out@ == sp_repeat(s@, i as nat),
        decreases k - i,
    {
        out.append(s);
        i = i + 1;
    }
    out
}

/// Lexicographic comparison of two strings.
fn str_lt(a: &str, b: &str) -> (r: bool)
    ensures
        r == sp_seq_lt(a@, b@),
{
    let la: usize = a.unicode_len();
    let lb: usize = b.unicode_len();
    let mut i: usize = 0;
    proof {
        assert(a@.skip(0) =~= a@);
        assert(b@.skip(0) =~= b@);
    }
    loop
        invariant
            i <= la,
            i <= lb,
            la == a@.len(),
            lb == b@.len(),
            sp_seq_lt(a@, b@) == sp_seq_lt(a@.skip(i as int), b@.skip(i as int)),
        decreases la - i,
    {
        if i >= lb {
            return false;
        }
        if i >= la {
            return true;
        }
        let ca: char = a.get_char(i);
        let cb: char = b.get_char(i);
        if ca != cb {
            return ca < cb;
        }
        proof {
            assert(a@.skip(i as int).drop_first() =~= a@.skip(i + 1));
            assert(b@.skip(i as int).drop_first() =~= b@.skip(i + 1));
        }
        i = i + 1;
    }
}

/// Whether a value counts as true in a condition.
pub fn truthy(v: &LiteralValue) -> (r: Result<bool, EvalError>)
    ensures
        r == sp_truthy(v@),
{
    match v {
        LiteralValue::Boolean(b) => Ok(*b),
        LiteralValue::String(s) => Ok(!s.as_str().is_empty()),
        LiteralValue::Number(n) => Ok(n.num != 0),
        LiteralValue::Nil => Ok(false),
        LiteralValue::Identifier(_) => Err(EvalError::UnresolvedIdentifier),
    }
}

/// The rank of a value's variant in the cross-type total order.
fn value_rank(v: &LiteralValue) -> (r: u64)
    ensures
        r as int == sp_val_rank(v@),
{
    match v {
        LiteralValue::Boolean(_) => 0,
        LiteralValue::String(_) => 1,
        LiteralValue::Number(_) => 2,
        LiteralValue::Identifier(_) => 3,
        LiteralValue::Nil => 4,
    }
}

/// Structural equality of two values.
pub fn value_eq(a: &LiteralValue, b: &LiteralValue) -> (r: bool)
    requires
        sp_lit_wf(a@),
        sp_lit_wf(b@),
    ensures
        r == sp_val_eq(a@, b@),
{
    match (a, b) {
        (LiteralValue::Boolean(x), LiteralValue::Boolean(y)) => *x == *y,
        (LiteralValue::String(x), LiteralValue::String(y)) => *x == *y,
        (LiteralValue::Number(x), LiteralValue::Number(y)) => x.eq_value(y),
        (LiteralValue::Nil, LiteralValue::Nil) => true,
        _ => false,
    }
}

/// The cross-type total order on two values.
pub fn value_lt(a: &LiteralValue, b: &LiteralValue) -> (r: bool)
    requires
        sp_lit_wf(a@),
        sp_lit_wf(b@),
    ensures
        r == sp_val_lt(a@, b@),
{
    let ra: u64 = value_rank(a);
    let rb: u64 = value_rank(b);
    if ra != rb {
        ra < rb
    } else {
        match (a, b) {
            (LiteralValue::Boolean(x), LiteralValue::Boolean(y)) => !*x && *y,
            (LiteralValue::String(x), LiteralValue::String(y)) => str_lt(x.as_str(), y.as_str()),
            (LiteralValue::Number(x), LiteralValue::Number(y)) => x.lt_value(y),
            _ => false,
        }
    }
}

impl LiteralValue {
    /// The human-readable form of the value, as `print` writes it.
    pub fn to_string(&self) -> (r: String)
        requires
            sp_lit_wf(self@),
        ensures
            r@ == sp_display(self@),
    {
        let mut out = String::new();
        push_display(&mut out, self);
        proof {
            assert(Seq::<char>::empty() + sp_display(self@) =~= sp_display(self@));
        }
        out
    }

    /// The diagnostic form of the value: the variant's name around its
    /// payload.
    pub fn debug_string(&self) -> (r: String)
        requires
            sp_lit_wf(self@),
        ensures
            r@ == sp_debug(self@),
    {
        match self {
            LiteralValue::Boolean(b) => {
                let mut out = String::from_str("Boolean(");
                push_bool(&mut out, *b);
                out.append(")");
                proof {
                    assert(out@ =~= sp_debug(self@));
                }
                out
            },
            LiteralValue::String(s) => {
                let mut out = String::from_str("String(\"");
                push_escaped(&mut out, s.as_str());
                out.append("\")");
                proof {
                    assert(out@ =~= sp_debug(self@));
                }
                out
            },
            LiteralValue::Number(n) => {
                let mut out = String::from_str("Number(");
                push_number_debug(&mut out, n);
                out.append(")");
                proof {
                    assert(out@ =~= sp_debug(self@));
                }
                out
            },
            LiteralValue::Identifier(s) => {
                let mut out = String::from_str("Identifier(\"");
                push_escaped(&mut out, s.as_str());
                out.append("\")");
                proof {
                    assert(out@ =~= sp_debug(self@));
                }
                out
            },
            LiteralValue::Nil => String::from_str("Nil"),
        }
    }

    /// The `+` operator.
    pub fn add(&self, rhs: &LiteralValue) -> (r: Result<LiteralValue, EvalError>)
        requires
            sp_lit_wf(self@),
            sp_lit_wf(rhs@),
        ensures
            ({
                let s = sp_add_values(self@, rhs@);
                match s {
                    Ok(v) => r is Ok && r.unwrap()@ == v && sp_lit_wf(v),
                    Err(e) => r == Err::<LiteralValue, EvalError>(e),
                }
            }),
    {
        match (self, rhs) {
            (LiteralValue::Identifier(_), _) => Err(EvalError::UnresolvedIdentifier),
            (_, LiteralValue::Identifier(_)) => Err(EvalError::UnresolvedIdentifier),
            (LiteralValue::Number(x), LiteralValue::Number(y)) => match x.add(y) {
                Some(n) => Ok(LiteralValue::Number(n)),
                None => Err(EvalError::NumberOverflow),
            },
            (LiteralValue::String(x), LiteralValue::String(y)) => {
                let mut out = x.clone();
                out.append(y.as_str());
                Ok(LiteralValue::String(out))
            },
            (LiteralValue::String(x), y) => {
                let mut out = x.clone();
                push_display(&mut out, y);
                Ok(LiteralValue::String(out))
            },
            (x, LiteralValue::String(y)) => {
                let mut out = String::new();
                push_display(&mut out, x);
                out.append(y.as_str());
                proof {
                    assert(out@ =~= sp_display(x@) + y@);
                }
                Ok(LiteralValue::String(out))
            },
            _ => Err(EvalError::TypeMismatch),
        }
    }

    /// The `-` operator.
    pub fn sub(&self, rhs: &LiteralValue) -> (r: Result<LiteralValue, EvalError>)
        requires
            sp_lit_wf(self@),
            sp_lit_wf(rhs@),
        ensures
            ({
                let s = sp_sub_values(self@, rhs@);
                match s {
                    Ok(v) => r is Ok && r.unwrap()@ == v && sp_lit_wf(v),
                    Err(e) => r == Err::<LiteralValue, EvalError>(e),
                }
            }),
    {
        match (self, rhs) {
            (LiteralValue::Identifier(_), _) => Err(EvalError::UnresolvedIdentifier),
            (_, LiteralValue::Identifier(_)) => Err(EvalError::UnresolvedIdentifier),
            (LiteralValue::Number(x), LiteralValue::Number(y)) => match x.sub(y) {
                Some(n) => Ok(LiteralValue::Number(n)),
                None => Err(EvalError::NumberOverflow),
            },
            _ => Err(EvalError::TypeMismatch),
        }
    }

    /// The `*` operator.
    pub fn mul(&self, rhs: &LiteralValue) -> (r: Result<LiteralValue, EvalError>)
        requires
            sp_lit_wf(self@),
            sp_lit_wf(rhs@),
        ensures
            ({
                let s = sp_mul_values(self@, rhs@);
                match s {
                    Ok(v) => r is Ok && r.unwrap()@ == v && sp_lit_wf(v),
                    Err(e) => r == Err::<LiteralValue, EvalError>(e),
                }
            }),
    {
        match (self, rhs) {
            (LiteralValue::Identifier(_), _) => Err(EvalError::UnresolvedIdentifier),
            (_, LiteralValue::Identifier(_)) => Err(EvalError::UnresolvedIdentifier),
            (LiteralValue::Number(x), LiteralValue::Number(y)) => match x.mul(y) {
                Some(n) => Ok(LiteralValue::Number(n)),
                None => Err(EvalError::NumberOverflow),
            },
            (LiteralValue::String(s), LiteralValue::Number(k)) => Ok(
                LiteralValue::String(repeat_str(s.as_str(), k.repeat_count())),
            ),
            (LiteralValue::Number(k), LiteralValue::String(s)) => Ok(
                LiteralValue::String(repeat_str(s.as_str(), k.repeat_count())),
            ),
            _ => Err(EvalError::TypeMismatch),
        }
    }

    /// The `/` operator.
    pub fn div(&self, rhs: &LiteralValue) -> (r: Result<LiteralValue, EvalError>)
        requires
            sp_lit_wf(self@),
            sp_lit_wf(rhs@),
        ensures
            ({
                let s = sp_div_values(self@, rhs@);
                match s {
                    Ok(v) => r is Ok && r.unwrap()@ == v && sp_lit_wf(v),
                    Err(e) => r == Err::<LiteralValue, EvalError>(e),
                }
            }),
    {
        match (self, rhs) {
            (LiteralValue::Identifier(_), _) => Err(EvalError::UnresolvedIdentifier),
            (_, LiteralValue::Identifier(_)) => Err(EvalError::UnresolvedIdentifier),
            (LiteralValue::Number(x), LiteralValue::Number(y)) => {
                if y.num == 0 {
                    Err(EvalError::DivisionByZero)
                } else {
                    match x.div(y) {
                        Some(n) => Ok(LiteralValue::Number(n)),
                        None => Err(EvalError::NumberOverflow),
                    }
                }
            },
            _ => Err(EvalError::TypeMismatch),
        }
    }
}

/// Applies a binary operator to two evaluated operands.
pub fn apply_binary(op: Operator, a: &LiteralValue, b: &LiteralValue) -> (r: Result<
    LiteralValue,
    EvalError,
>)
    requires
        sp_lit_wf(a@),
        sp_lit_wf(b@),
    ensures
        ({
            let s = sp_binop(op, a@, b@);
            match s {
                Ok(v) => r is Ok && r.unwrap()@ == v && sp_lit_wf(v),
                Err(e) => r == Err::<LiteralValue, EvalError>(e),
            }
        }),
{
    let has_ident = matches!(a, LiteralValue::Identifier(_)) || matches!(
        b,
        LiteralValue::Identifier(_),
    );
    match op {
        Operator::EqualsEquals => if has_ident {
            Err(EvalError::UnresolvedIdentifier)
        } else {
            Ok(LiteralValue::Boolean(value_eq(a, b)))
        },
        Operator::BangEquals => if has_ident {
            Err(EvalError::UnresolvedIdentifier)
        } else {
            Ok(LiteralValue::Boolean(!value_eq(a, b)))
        },
        Operator::Greater => if has_ident {
            Err(EvalError::UnresolvedIdentifier)
        } else {
            Ok(LiteralValue::Boolean(value_lt(b, a)))
        },
        Operator::GreaterEqual => if has_ident {
            Err(EvalError::UnresolvedIdentifier)
        } else {
            Ok(LiteralValue::Boolean(!value_lt(a, b)))
        },
        Operator::Less => if has_ident {
            Err(EvalError::UnresolvedIdentifier)
        } else {
            Ok(LiteralValue::Boolean(value_lt(a, b)))
        },
        Operator::LessEqual => if has_ident {
            Err(EvalError::UnresolvedIdentifier)
        } else {
            Ok(LiteralValue::Boolean(!value_lt(b, a)))
        },
        Operator::Minus => a.sub(b),
        Operator::Plus => a.add(b),
        Operator::Slash => a.div(b),
        Operator::Star => a.mul(b),
        Operator::Bang => Err(EvalError::InvalidOperator),
    }
}

/// Applies a unary operator to an evaluated operand.
pub fn apply_unary(op: Operator, v: &LiteralValue) -> (r: Result<LiteralValue, EvalError>)
    requires
        sp_lit_wf(v@),
    ensures
        ({
            let s = sp_unop(op, v@);
            match s {
                Ok(w) => r is Ok && r.unwrap()@ == w && sp_lit_wf(w),
                Err(e) => r == Err::<LiteralValue, EvalError>(e),
            }
        }),
{
    match op {
        Operator::Minus => match v {
            LiteralValue::Number(n) => match n.neg() {
                Some(m) => Ok(LiteralValue::Number(m)),
                None => Err(EvalError::NumberOverflow),
            },
            LiteralValue::Identifier(_) => Err(EvalError::UnresolvedIdentifier),
            _ => Err(EvalError::TypeMismatch),
        },
        Operator::Plus => Ok(v.clone()),
        Operator::Bang => match truthy(v) {
            Ok(b) => Ok(LiteralValue::Boolean(!b)),
            Err(e) => Err(e),
        },
        _ => Err(EvalError::InvalidOperator),
    }
}

/// What a unary operator yields on an evaluated operand.
pub open spec fn sp_unop(op: Operator, v: LiteralValueM) -> Result<LiteralValueM, EvalError> {
    match op {
        Operator::Minus => match v {
            LiteralValueM::Number(n) => match NumberValue::sp_neg(n) {
                Some(r) => Ok(LiteralValueM::Number(r)),
                None => Err(EvalError::NumberOverflow),
            },
            LiteralValueM::Identifier(_) => Err(EvalError::UnresolvedIdentifier),
            _ => Err(EvalError::TypeMismatch),
        },
        Operator::Plus => Ok(v),
        Operator::Bang => match sp_truthy(v) {
            Ok(b) => Ok(LiteralValueM::Boolean(!b)),
            Err(e) => Err(e),
        },
        _ => Err(EvalError::InvalidOperator),
    }
}

} // verus!
