//! The abstract syntax tree the parser produces and the interpreter walks,
//! together with its mathematical model: a mirror of each node type whose
//! text payloads are character sequences.

use crate::value::{LiteralValue, LiteralValueM};
use vstd::prelude::*;

verus! {

/// A binary or unary operator.
#[derive(Clone, Copy, PartialEq, Eq, Structural, Debug)]
pub enum Operator {
    BangEquals,
    EqualsEquals,
    Greater,
    GreaterEqual,
    Less,
    LessEqual,
    Minus,
    Plus,
    Slash,
    Star,
    Bang,
}

/// A tree of operators and operands that evaluates to a single value.
#[derive(Debug, PartialEq)]
pub enum Expression {
    Binary { left: Box<Expression>, right: Box<Expression>, operator: Operator },
    Grouping(Box<Expression>),
    Literal(LiteralValue),
    Unary { right: Box<Expression>, operator: Operator },
}

/// The model of an expression tree.
pub enum ExpressionM {
    Binary { left: Box<ExpressionM>, right: Box<ExpressionM>, operator: Operator },
    Grouping(Box<ExpressionM>),
    Literal(LiteralValueM),
    Unary { right: Box<ExpressionM>, operator: Operator },
}

impl View for Expression {
    type V = ExpressionM;

    open spec fn view(&self) -> ExpressionM
        decreases self,
    {
        match self {
            Expression::Binary { left, right, operator } => ExpressionM::Binary {
                left: Box::new((**left)@),
                right: Box::new((**right)@),
                operator: *operator,
            },
            Expression::Grouping(inner) => ExpressionM::Grouping(Box::new((**inner)@)),
            Expression::Literal(value) => ExpressionM::Literal(value@),
            Expression::Unary { right, operator } => ExpressionM::Unary {
                right: Box::new((**right)@),
                operator: *operator,
            },
        }
    }
}

/// A statement: executed for its effect, never for a value.
#[derive(Debug, PartialEq)]
pub enum Statement {
    Print(Expression),
    If { condition: Expression, declaration: Box<Declaration> },
    Expression(Expression),
}

/// The model of a statement.
pub enum StatementM {
    Print(ExpressionM),
    If { condition: ExpressionM, declaration: Box<DeclarationM> },
    Expression(ExpressionM),
}

/// A top-level executable unit of a program.
#[derive(Debug, PartialEq)]
pub enum Declaration {
    VariableAssignment { identifier: String, value: Expression },
    Statement(Statement),
    Block(Block),
}

/// The model of a declaration; a block is modelled directly as the sequence
/// of its declarations.
pub enum DeclarationM {
    VariableAssignment { identifier: Seq<char>, value: ExpressionM },
    Statement(StatementM),
    Block(Seq<DeclarationM>),
}

/// A brace-delimited sequence of declarations.
#[derive(Debug, PartialEq)]
pub struct Block(pub Vec<Declaration>);

/// The model of a statement value.
pub open spec fn sp_stmt_view(s: Statement) -> StatementM
    decreases s,
{
    match s {
        Statement::Print(e) => StatementM::Print(e@),
        Statement::If { condition, declaration } => StatementM::If {
            condition: condition@,
            declaration: Box::new(sp_decl_view(*declaration)),
        },
        Statement::Expression(e) => StatementM::Expression(e@),
    }
}

/// The model of a declaration value.
pub open spec fn sp_decl_view(d: Declaration) -> DeclarationM
    decreases d,
{
    match d {
        Declaration::VariableAssignment { identifier, value } =>
            DeclarationM::VariableAssignment { identifier: identifier@, value: value@ },
        Declaration::Statement(s) => DeclarationM::Statement(sp_stmt_view(s)),
        Declaration::Block(b) => DeclarationM::Block(sp_decls_view(b.0@)),
    }
}

/// The model of a sequence of declarations.
pub open spec fn sp_decls_view(s: Seq<Declaration>) -> Seq<DeclarationM>
    decreases s,
{
    if s.len() == 0 {
        Seq::empty()
    } else {
        sp_decls_view(s.drop_last()).push(sp_decl_view(s.last()))
    }
}

/// Appending a declaration appends its model.
pub proof fn lemma_decls_view_push(s: Seq<Declaration>, d: Declaration)
    ensures
        sp_decls_view(s.push(d)) == sp_decls_view(s).push(sp_decl_view(d)),
{
    assert(s.push(d).drop_last() =~= s);
    assert(s.push(d).last() == d);
}

/// The models line up index by index.
pub proof fn lemma_decls_view_index(s: Seq<Declaration>)
    ensures
        sp_decls_view(s).len() == s.len(),
        forall|i: int| 0 <= i < s.len() ==> sp_decls_view(s)[i] == sp_decl_view(#[trigger] s[i]),
    decreases s.len(),
{
    if s.len() > 0 {
        lemma_decls_view_index(s.drop_last());
        assert forall|i: int| 0 <= i < s.len() implies sp_decls_view(s)[i] == sp_decl_view(
            #[trigger] s[i],
        ) by {
            if i < s.len() - 1 {
                assert(s.drop_last()[i] == s[i]);
                assert(sp_decls_view(s)[i] == sp_decls_view(s.drop_last())[i]);
            } else {
                assert(s.last() == s[i]);
            }
        }
    }
}

/// Every number literal in the expression carries a positive denominator.
pub open spec fn sp_expr_wf(e: ExpressionM) -> bool
    decreases e,
{
    match e {
        ExpressionM::Binary { left, right, operator: _ } => sp_expr_wf(*left) && sp_expr_wf(
            *right,
        ),
        ExpressionM::Grouping(inner) => sp_expr_wf(*inner),
        ExpressionM::Literal(v) => crate::value::sp_lit_wf(v),
        ExpressionM::Unary { right, operator: _ } => sp_expr_wf(*right),
    }
}

/// Every number literal in the statement carries a positive denominator.
pub open spec fn sp_stmt_wf(s: StatementM) -> bool
    decreases s,
{
    match s {
        StatementM::Print(e) => sp_expr_wf(e),
        StatementM::If { condition, declaration } => sp_expr_wf(condition) && sp_decl_wf(
            *declaration,
        ),
        StatementM::Expression(e) => sp_expr_wf(e),
    }
}

/// Every number literal in the declaration carries a positive denominator.
pub open spec fn sp_decl_wf(d: DeclarationM) -> bool
    decreases d,
{
    match d {
        DeclarationM::VariableAssignment { identifier: _, value } => sp_expr_wf(value),
        DeclarationM::Statement(s) => sp_stmt_wf(s),
        DeclarationM::Block(ds) => sp_decls_wf(ds),
    }
}

/// Every number literal in the sequence carries a positive denominator.
pub open spec fn sp_decls_wf(ds: Seq<DeclarationM>) -> bool
    decreases ds,
{
    forall|i: int| 0 <= i < ds.len() ==> sp_decl_wf(#[trigger] ds[i])
}

impl View for Statement {
    type V = StatementM;

    open spec fn view(&self) -> StatementM {
        sp_stmt_view(*self)
    }
}

impl View for Declaration {
    type V = DeclarationM;

    open spec fn view(&self) -> DeclarationM {
        sp_decl_view(*self)
    }
}

impl View for Block {
    type V = Seq<DeclarationM>;

    open spec fn view(&self) -> Seq<DeclarationM> {
        sp_decls_view(self.0@)
    }
}

impl Block {
    pub fn get_declarations(&self) -> (r: &Vec<Declaration>)
        ensures
            r == &self.0,
            sp_decls_view(r@) == self@,
    {
        &self.0
    }
}

/// An ordered sequence of declarations; ordering is execution order.
#[derive(Debug, PartialEq)]
pub struct Program(pub Vec<Declaration>);

impl View for Program {
    type V = Seq<DeclarationM>;

    open spec fn view(&self) -> Seq<DeclarationM> {
        sp_decls_view(self.0@)
    }
}

impl Program {
    pub fn new() -> (r: Program)
        ensures
            r@ == Seq::<DeclarationM>::empty(),
    {
        Program(Vec::new())
    }

    pub fn add_declaration(&mut self, declaration: Declaration)
        ensures
            final(self)@ == old(self)@.push(declaration@),
    {
        let ghost before = self.0@;
        let ghost dv = declaration@;
        self.0.push(declaration);
        proof {
            lemma_decls_view_push(before, self.0@.last());
        }
    }

    pub fn get_declarations(&self) -> (r: &Vec<Declaration>)
        ensures
            r == &self.0,
            sp_decls_view(r@) == self@,
    {
        &self.0
    }
}

} // verus!
