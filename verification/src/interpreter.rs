//! The tree-walking interpreter: evaluates expressions into values and
//! executes declarations for their effects — output lines, variable
//! assignment and conditional branching — against one flat variable store.
//!
//! The semantics is given by the spec functions below; the executable
//! interpreter is proved to follow them exactly. Output is collected as a
//! sequence of lines for the host to write.

use crate::ast::{
    lemma_decls_view_index, sp_decl_wf, sp_decls_wf, sp_expr_wf, sp_stmt_wf, Declaration,
    DeclarationM, Expression, ExpressionM, Program, Statement, StatementM,
};
use crate::environment::{sp_resolve, Environment};
use crate::value::{
    apply_binary, apply_unary, sp_binop, sp_debug, sp_display, sp_lit_wf, sp_truthy, sp_unop,
    truthy, EvalError, LiteralValue, LiteralValueM,
};
use vstd::prelude::*;

verus! {

/// The store an evaluation reads.
pub type EnvM = Map<Seq<char>, LiteralValueM>;

/// The output collected so far: one sequence of characters per line.
pub type OutM = Seq<Seq<char>>;

/// What an expression evaluates to under a store: children first, the
/// parent's operator applied to their values; an identifier resolves at the
/// moment of evaluation.
pub open spec fn sp_eval_expr(e: ExpressionM, env: EnvM) -> Result<LiteralValueM, EvalError>
    decreases e,
{
    match e {
        ExpressionM::Literal(LiteralValueM::Identifier(name)) => Ok(sp_resolve(env, name)),
        ExpressionM::Literal(v) => Ok(v),
        ExpressionM::Grouping(inner) => sp_eval_expr(*inner, env),
        ExpressionM::Binary { left, right, operator } => match sp_eval_expr(*left, env) {
            Ok(lv) => match sp_eval_expr(*right, env) {
                Ok(rv) => sp_binop(operator, lv, rv),
                Err(er) => Err(er),
            },
            Err(er) => Err(er),
        },
        ExpressionM::Unary { right, operator } => if operator == crate::ast::Operator::Minus
            || operator == crate::ast::Operator::Plus || operator == crate::ast::Operator::Bang {
            match sp_eval_expr(*right, env) {
                Ok(v) => sp_unop(operator, v),
                Err(er) => Err(er),
            }
        } else {
            Err(EvalError::InvalidOperator)
        },
    }
}

/// The effect of one declaration: the result, the store after it, and the
/// output after it. An error leaves store and output as they stood when it
/// arose.
pub open spec fn sp_exec_decl(d: DeclarationM, env: EnvM, out: OutM) -> (Result<(), EvalError>, EnvM, OutM)
    decreases d,
{
    match d {
        DeclarationM::VariableAssignment { identifier, value } => match sp_eval_expr(value, env) {
            Ok(v) => (Ok(()), env.insert(identifier, v), out),
            Err(er) => (Err(er), env, out),
        },
        DeclarationM::Statement(s) => sp_exec_stmt(s, env, out),
        DeclarationM::Block(ds) => sp_exec_decls(ds, env, out),
    }
}

/// The effect of one statement.
pub open spec fn sp_exec_stmt(s: StatementM, env: EnvM, out: OutM) -> (Result<(), EvalError>, EnvM, OutM)
    decreases s,
{
    match s {
        StatementM::Print(e) => match sp_eval_expr(e, env) {
            Ok(v) => (Ok(()), env, out.push(sp_display(v))),
            Err(er) => (Err(er), env, out),
        },
        StatementM::Expression(e) => match sp_eval_expr(e, env) {
            Ok(v) => (Ok(()), env, out.push(sp_debug(v))),
            Err(er) => (Err(er), env, out),
        },
        StatementM::If { condition, declaration } => match sp_eval_expr(condition, env) {
            Ok(v) => match sp_truthy(v) {
                Ok(b) => if b {
                    sp_exec_decl(*declaration, env, out)
                } else {
                    (Ok(()), env, out)
                },
                Err(er) => (Err(er), env, out),
            },
            Err(er) => (Err(er), env, out),
        },
    }
}

/// The effect of a sequence of declarations, run in order against the same
/// store; the first error stops the run.
pub open spec fn sp_exec_decls(ds: Seq<DeclarationM>, env: EnvM, out: OutM) -> (Result<(), EvalError>, EnvM, OutM)
    decreases ds,
{
    if ds.len() == 0 {
        (Ok(()), env, out)
    } else {
        let r = sp_exec_decl(ds[0], env, out);
        match r.0 {
            Ok(_) => sp_exec_decls(ds.drop_first(), r.1, r.2),
            Err(_) => r,
        }
    }
}

/// The effect of running a program from its `i`-th declaration onward.
pub open spec fn sp_run_from(prog: Seq<DeclarationM>, i: int, env: EnvM, out: OutM) -> (Result<(), EvalError>, EnvM, OutM)
    decreases prog.len() - i,
{
    if i < 0 || i >= prog.len() {
        (Ok(()), env, out)
    } else {
        let r = sp_exec_decl(prog[i], env, out);
        match r.0 {
            Ok(_) => sp_run_from(prog, i + 1, r.1, r.2),
            Err(_) => r,
        }
    }
}

/// The output lines a vector of strings denotes.
pub open spec fn sp_out_view(s: Seq<String>) -> OutM {
    s.map_values(|x: String| x@)
}

/// Evaluates one expression against a store.
pub fn eval_expr(env: &Environment, expression: &Expression) -> (r: Result<LiteralValue, EvalError>)
    requires
        env.wf(),
        sp_expr_wf(expression@),
    ensures
        ({
            let s = sp_eval_expr(expression@, env@);
            match s {
                Ok(v) => r is Ok && r.unwrap()@ == v && sp_lit_wf(v),
                Err(e) => r == Err::<LiteralValue, EvalError>(e),
            }
        }),
    decreases expression,
{
    match expression {
        Expression::Literal(LiteralValue::Identifier(name)) => Ok(env.resolve(name)),
        Expression::Literal(value) => Ok(value.clone()),
        Expression::Grouping(inner) => eval_expr(env, inner),
        Expression::Binary { left, right, operator } => {
            let lv = match eval_expr(env, left) {
                Ok(v) => v,
                Err(er) => {
                    return Err(er);
                },
            };
            let rv = match eval_expr(env, right) {
                Ok(v) => v,
                Err(er) => {
                    return Err(er);
                },
            };
            apply_binary(*operator, &lv, &rv)
        },
        Expression::Unary { right, operator } => {
            if matches!(operator, crate::ast::Operator::Minus | crate::ast::Operator::Plus
                | crate::ast::Operator::Bang) {
                let v = match eval_expr(env, right) {
                    Ok(v) => v,
                    Err(er) => {
                        return Err(er);
                    },
                };
                apply_unary(*operator, &v)
            } else {
                Err(EvalError::InvalidOperator)
            }
        },
    }
}

/// Executes one declaration: assignment writes the store, a statement may
/// write output, a block runs its declarations against the same store.
fn exec_decl(env: &mut Environment, out: &mut Vec<String>, declaration: &Declaration) -> (r:
    Result<(), EvalError>)
    requires
        old(env).wf(),
        sp_decl_wf(declaration@),
    ensures
        ({
            let t = sp_exec_decl(declaration@, old(env)@, sp_out_view(old(out)@));
            r == t.0 && final(env)@ == t.1 && sp_out_view(final(out)@) == t.2
        }),
        final(env).wf(),
    decreases declaration,
{
    match declaration {
        Declaration::VariableAssignment { identifier, value } => {
            match eval_expr(env, value) {
                Ok(v) => {
                    env.assign(identifier, v);
                    Ok(())
                },
                Err(er) => Err(er),
            }
        },
        Declaration::Statement(statement) => exec_stmt(env, out, statement),
        Declaration::Block(block) => exec_decls(env, out, &block.0),
    }
}

/// Executes one statement.
fn exec_stmt(env: &mut Environment, out: &mut Vec<String>, statement: &Statement) -> (r: Result<
    (),
    EvalError,
>)
    requires
        old(env).wf(),
        sp_stmt_wf(statement@),
    ensures
        ({
            let t = sp_exec_stmt(statement@, old(env)@, sp_out_view(old(out)@));
            r == t.0 && final(env)@ == t.1 && sp_out_view(final(out)@) == t.2
        }),
        final(env).wf(),
    decreases statement,
{
    match statement {
        Statement::Print(e) => match eval_expr(env, e) {
            Ok(v) => {
                let line = v.to_string();
                let ghost lv = line@;
                out.push(line);
                proof {
                    assert(sp_out_view(out@) =~= sp_out_view(old(out)@).push(lv));
                }
                Ok(())
            },
            Err(er) => Err(er),
        },
        Statement::Expression(e) => match eval_expr(env, e) {
            Ok(v) => {
                let line = v.debug_string();
                let ghost lv = line@;
                out.push(line);
                proof {
                    assert(sp_out_view(out@) =~= sp_out_view(old(out)@).push(lv));
                }
                Ok(())
            },
            Err(er) => Err(er),
        },
        Statement::If { condition, declaration } => match eval_expr(env, condition) {
            Ok(v) => match truthy(&v) {
                Ok(b) => {
                    if b {
                        exec_decl(env, out, &**declaration)
                    } else {
                        Ok(())
                    }
                },
                Err(er) => Err(er),
            },
            Err(er) => Err(er),
        },
    }
}

/// Executes a vector of declarations in order.
fn exec_decls(env: &mut Environment, out: &mut Vec<String>, declarations: &Vec<Declaration>) -> (r:
    Result<(), EvalError>)
    requires
        old(env).wf(),
        sp_decls_wf(crate::ast::sp_decls_view(declarations@)),
    ensures
        ({
            let t = sp_exec_decls(
                crate::ast::sp_decls_view(declarations@),
                old(env)@,
                sp_out_view(old(out)@),
            );
            r == t.0 && final(env)@ == t.1 && sp_out_view(final(out)@) == t.2
        }),
        final(env).wf(),
    decreases declarations@,
{
    let ghost dsm = crate::ast::sp_decls_view(declarations@);
    proof {
        lemma_decls_view_index(declarations@);
        assert(dsm.skip(0) =~= dsm);
    }
    let mut i: usize = 0;
    while i < declarations.len()
        invariant
            i <= declarations.len(),
            env.wf(),
            dsm == crate::ast::sp_decls_view(declarations@),
            dsm.len() == declarations@.len(),
            forall|j: int|
                0 <= j < declarations@.len() ==> dsm[j] == crate::ast::sp_decl_view(
                    #[trigger] declarations@[j],
                ),
            sp_decls_wf(dsm),
            sp_exec_decls(dsm, old(env)@, sp_out_view(old(out)@)) == sp_exec_decls(
                dsm.skip(i as int),
                env@,
                sp_out_view(out@),
            ),
        decreases declarations.len() - i,
    {
        let ghost env_before = env@;
        let ghost out_before = sp_out_view(out@);
        let r = exec_decl(env, out, &declarations[i]);
        proof {
            assert(dsm.skip(i as int)[0] == dsm[i as int]);
            assert(dsm.skip(i as int).drop_first() =~= dsm.skip(i + 1));
        }
        match r {
            Ok(_) => {},
            Err(er) => {
                return Err(er);
            },
        }
        i = i + 1;
    }
    proof {
        assert(dsm.skip(declarations@.len() as int) =~= Seq::<DeclarationM>::empty());
    }
    Ok(())
}

/// Runs programs: owns the store for its lifetime and collects every line
/// the program prints.
pub struct Interpreter {
    pub environment: Environment,
    pub program: Program,
    pub current: usize,
    pub output: Vec<String>,
}

impl Interpreter {
    /// An interpreter over a fresh, empty store, set to run `program` from
    /// its first declaration.
    pub fn new(program: Program) -> (r: Interpreter)
        ensures
            r.environment@ == Map::<Seq<char>, LiteralValueM>::empty(),
            r.environment.wf(),
            r.program == program,
            r.current == 0,
            r.output@ == Seq::<String>::empty(),
    {
        Interpreter {
            environment: Environment::new(),
            program,
            current: 0,
            output: Vec::new(),
        }
    }

    /// Runs the program's declarations from `current` to the end, in order,
    /// against the one store. The first error stops the run; declarations
    /// already executed keep their effects.
    pub fn run(&mut self) -> (r: Result<(), EvalError>)
        requires
            old(self).environment.wf(),
            sp_decls_wf(old(self).program@),
            old(self).current <= old(self).program.0.len(),
        ensures
            ({
                let t = sp_run_from(
                    old(self).program@,
                    old(self).current as int,
                    old(self).environment@,
                    sp_out_view(old(self).output@),
                );
                r == t.0 && final(self).environment@ == t.1 && sp_out_view(final(self).output@)
                    == t.2
            }),
            final(self).environment.wf(),
            final(self).program == old(self).program,
            final(self).current == final(self).program.0.len(),
    {
        proof {
            lemma_decls_view_index(self.program.0@);
        }
        let ghost progm = self.program@;
        let n: usize = self.program.0.len();
        while self.current < n
            invariant
                self.current <= n,
                n == self.program.0.len(),
                self.program == old(self).program,
                progm == self.program@,
                progm.len() == n,
                forall|j: int|
                    0 <= j < n ==> progm[j] == crate::ast::sp_decl_view(
                        #[trigger] self.program.0@[j],
                    ),
                sp_decls_wf(progm),
                self.environment.wf(),
                sp_run_from(
                    progm,
                    old(self).current as int,
                    old(self).environment@,
                    sp_out_view(old(self).output@),
                ) == sp_run_from(
                    progm,
                    self.current as int,
                    self.environment@,
                    sp_out_view(self.output@),
                ),
            decreases n - self.current,
        {
            let i: usize = self.current;
            let r = exec_decl(&mut self.environment, &mut self.output, &self.program.0[i]);
            match r {
                Ok(_) => {},
                Err(er) => {
                    self.current = n;
                    return Err(er);
                },
            }
            self.current = i + 1;
        }
        Ok(())
    }

    /// Appends the given declarations to the program and runs from where the
    /// last run stopped: the interactive host's way to feed one more line.
    pub fn evaluate_declarations(&mut self, declarations: &mut Vec<Declaration>) -> (r: Result<
        (),
        EvalError,
    >)
        requires
            old(self).environment.wf(),
            sp_decls_wf(old(self).program@),
            sp_decls_wf(crate::ast::sp_decls_view(old(declarations)@)),
            old(self).current <= old(self).program.0.len(),
        ensures
            ({
                let prog2 = old(self).program@ + crate::ast::sp_decls_view(old(declarations)@);
                let t = sp_run_from(
                    prog2,
                    old(self).current as int,
                    old(self).environment@,
                    sp_out_view(old(self).output@),
                );
                r == t.0 && final(self).environment@ == t.1 && sp_out_view(final(self).output@)
                    == t.2 && final(self).program@ == prog2
            }),
            final(self).environment.wf(),
            final(self).current == final(self).program.0.len(),
    {
        proof {
            lemma_decls_view_append(self.program.0@, declarations@);
        }
        self.program.0.append(declarations);
        proof {
            lemma_decls_wf_concat(
                old(self).program@,
                crate::ast::sp_decls_view(old(declarations)@),
            );
        }
        self.run()
    }

    /// Evaluates one expression against the interpreter's store, without
    /// executing anything.
    pub fn evaluate_expression(&self, expression: &Expression) -> (r: Result<
        LiteralValue,
        EvalError,
    >)
        requires
            self.environment.wf(),
            sp_expr_wf(expression@),
        ensures
            ({
                let s = sp_eval_expr(expression@, self.environment@);
                match s {
                    Ok(v) => r is Ok && r.unwrap()@ == v && sp_lit_wf(v),
                    Err(e) => r == Err::<LiteralValue, EvalError>(e),
                }
            }),
    {
        eval_expr(&self.environment, expression)
    }

    /// The lines printed so far.
    pub fn output(&self) -> (r: &Vec<String>)
        ensures
            r == &self.output,
    {
        &self.output
    }
}

/// The model of a concatenation is the concatenation of the models.
proof fn lemma_decls_view_append(a: Seq<Declaration>, b: Seq<Declaration>)
    ensures
        crate::ast::sp_decls_view(a + b) == crate::ast::sp_decls_view(a)
            + crate::ast::sp_decls_view(b),
    decreases b.len(),
{
    if b.len() == 0 {
        assert(a + b =~= a);
        assert(crate::ast::sp_decls_view(a) + crate::ast::sp_decls_view(b)
            =~= crate::ast::sp_decls_view(a));
    } else {
        assert((a + b).drop_last() =~= a + b.drop_last());
        lemma_decls_view_append(a, b.drop_last());
        assert(crate::ast::sp_decls_view(a + b) =~= crate::ast::sp_decls_view(a)
            + crate::ast::sp_decls_view(b));
    }
}

/// Well-formedness carries over concatenation.
proof fn lemma_decls_wf_concat(a: Seq<DeclarationM>, b: Seq<DeclarationM>)
    requires
        sp_decls_wf(a),
        sp_decls_wf(b),
    ensures
        sp_decls_wf(a + b),
{
    assert forall|i: int| 0 <= i < (a + b).len() implies sp_decl_wf(#[trigger] (a + b)[i]) by {
        if i < a.len() {
            assert((a + b)[i] == a[i]);
        } else {
            assert((a + b)[i] == b[i - a.len()]);
        }
    }
}

} // verus!
