//! Constant propagation: folds every sub-expression whose operands are literals
//! and removes each definition of a variable to a literal, substituting the
//! literal at the later uses of the variable.
use crate::constants::{Constants, Environment};
use crate::field::{FieldPrime, MAX_EXPONENT};
use crate::typed_absy::{
    BoolTerm, BooleanExpression, FieldElementExpression, FieldTerm, Term, TypedExpression,
    TypedExpressionList, TypedFunction, ExpressionListTerm, TypedProg, TypedStatement, StatementTerm, FunctionTerm,
    Variable, Type, terms,
};
use vstd::prelude::*;

verus! {

/// Why propagation of a program stopped.
#[derive(Clone, Copy, Debug, PartialEq, Eq, Structural)]
pub enum Error {
    /// A division whose divisor folds to zero; holds the folded dividend.
    DivisionByZero(FieldPrime),
    /// A power whose exponent folds to a value above `MAX_EXPONENT`; holds the
    /// folded base and exponent.
    ExponentTooLarge(FieldPrime, FieldPrime),
    /// A loop is still present. Loops are unrolled before this pass, so this
    /// is a broken internal invariant rather than an error in the program.
    LoopNotUnrolled,
}

pub open spec fn fold_add(a: FieldTerm, b: FieldTerm) -> FieldTerm {
    match (a, b) {
        (FieldTerm::Number(x), FieldTerm::Number(y)) => FieldTerm::Number(x.spec_add(y)),
        _ => FieldTerm::Add(Box::new(a), Box::new(b)),
    }
}

pub open spec fn fold_sub(a: FieldTerm, b: FieldTerm) -> FieldTerm {
    match (a, b) {
        (FieldTerm::Number(x), FieldTerm::Number(y)) => FieldTerm::Number(x.spec_sub(y)),
        _ => FieldTerm::Sub(Box::new(a), Box::new(b)),
    }
}

pub open spec fn fold_mult(a: FieldTerm, b: FieldTerm) -> FieldTerm {
    match (a, b) {
        (FieldTerm::Number(x), FieldTerm::Number(y)) => FieldTerm::Number(x.spec_mul(y)),
        _ => FieldTerm::Mult(Box::new(a), Box::new(b)),
    }
}

pub open spec fn fold_div(a: FieldTerm, b: FieldTerm) -> Result<FieldTerm, Error> {
    match (a, b) {
        (FieldTerm::Number(x), FieldTerm::Number(y)) => if y@ == 0 {
            Err(Error::DivisionByZero(x))
        } else {
            Ok(FieldTerm::Number(x.spec_div(y)))
        },
        _ => Ok(FieldTerm::Div(Box::new(a), Box::new(b))),
    }
}

pub open spec fn fold_pow(a: FieldTerm, b: FieldTerm) -> Result<FieldTerm, Error> {
    match (a, b) {
        (FieldTerm::Number(x), FieldTerm::Number(y)) => if y@ > MAX_EXPONENT {
            Err(Error::ExponentTooLarge(x, y))
        } else {
            Ok(FieldTerm::Number(x.spec_pow(y@)))
        },
        _ => Ok(FieldTerm::Pow(Box::new(a), Box::new(b))),
    }
}

pub open spec fn fold_lt(a: FieldTerm, b: FieldTerm) -> BoolTerm {
    match (a, b) {
        (FieldTerm::Number(x), FieldTerm::Number(y)) => BoolTerm::Value(x@ < y@),
        _ => BoolTerm::Lt(Box::new(a), Box::new(b)),
    }
}

pub open spec fn fold_le(a: FieldTerm, b: FieldTerm) -> BoolTerm {
    match (a, b) {
        (FieldTerm::Number(x), FieldTerm::Number(y)) => BoolTerm::Value(x@ <= y@),
        _ => BoolTerm::Le(Box::new(a), Box::new(b)),
    }
}

pub open spec fn fold_eq(a: FieldTerm, b: FieldTerm) -> BoolTerm {
    match (a, b) {
        (FieldTerm::Number(x), FieldTerm::Number(y)) => BoolTerm::Value(x@ == y@),
        _ => BoolTerm::Eq(Box::new(a), Box::new(b)),
    }
}

pub open spec fn fold_ge(a: FieldTerm, b: FieldTerm) -> BoolTerm {
    match (a, b) {
        (FieldTerm::Number(x), FieldTerm::Number(y)) => BoolTerm::Value(x@ >= y@),
        _ => BoolTerm::Ge(Box::new(a), Box::new(b)),
    }
}

pub open spec fn fold_gt(a: FieldTerm, b: FieldTerm) -> BoolTerm {
    match (a, b) {
        (FieldTerm::Number(x), FieldTerm::Number(y)) => BoolTerm::Value(x@ > y@),
        _ => BoolTerm::Gt(Box::new(a), Box::new(b)),
    }
}

/// Both results, or the first error.
pub open spec fn both<A, B>(a: Result<A, Error>, b: Result<B, Error>) -> Result<(A, B), Error> {
    match a {
        Err(x) => Err(x),
        Ok(a) => match b {
            Err(y) => Err(y),
            Ok(b) => Ok((a, b)),
        },
    }
}

/// The conditional once its condition and both branches are propagated: a
/// literal condition selects its branch and drops the other, error or not.
pub open spec fn select(
    c: Result<BoolTerm, Error>,
    a: Result<FieldTerm, Error>,
    b: Result<FieldTerm, Error>,
) -> Result<FieldTerm, Error> {
    match c {
        Err(x) => Err(x),
        Ok(BoolTerm::Value(true)) => a,
        Ok(BoolTerm::Value(false)) => b,
        Ok(c) => match both(a, b) {
            Err(x) => Err(x),
            Ok((a, b)) => Ok(FieldTerm::IfElse(Box::new(c), Box::new(a), Box::new(b))),
        },
    }
}

pub open spec fn propagate_field(e: FieldTerm, env: Environment) -> Result<FieldTerm, Error>
    decreases e,
{
    match e {
        FieldTerm::Number(n) => Ok(FieldTerm::Number(n)),
        FieldTerm::Identifier(id) => if env.field_elements.contains_key(id) {
            Ok(FieldTerm::Number(env.field_elements[id]))
        } else {
            Ok(FieldTerm::Identifier(id))
        },
        FieldTerm::Add(a, b) => match both(propagate_field(*a, env), propagate_field(*b, env)) {
            Err(x) => Err(x),
            Ok((a, b)) => Ok(fold_add(a, b)),
        },
        FieldTerm::Sub(a, b) => match both(propagate_field(*a, env), propagate_field(*b, env)) {
            Err(x) => Err(x),
            Ok((a, b)) => Ok(fold_sub(a, b)),
        },
        FieldTerm::Mult(a, b) => match both(propagate_field(*a, env), propagate_field(*b, env)) {
            Err(x) => Err(x),
            Ok((a, b)) => Ok(fold_mult(a, b)),
        },
        FieldTerm::Div(a, b) => match both(propagate_field(*a, env), propagate_field(*b, env)) {
            Err(x) => Err(x),
            Ok((a, b)) => fold_div(a, b),
        },
        FieldTerm::Pow(a, b) => match both(propagate_field(*a, env), propagate_field(*b, env)) {
            Err(x) => Err(x),
            Ok((a, b)) => fold_pow(a, b),
        },
        FieldTerm::IfElse(c, a, b) => select(
            propagate_bool(*c, env),
            propagate_field(*a, env),
            propagate_field(*b, env),
        ),
        FieldTerm::FunctionCall(id, args) => match propagate_terms(args, env) {
            Err(x) => Err(x),
            Ok(args) => Ok(FieldTerm::FunctionCall(id, args)),
        },
    }
}

pub open spec fn propagate_bool(e: BoolTerm, env: Environment) -> Result<BoolTerm, Error>
    decreases e,
{
    match e {
        BoolTerm::Value(v) => Ok(BoolTerm::Value(v)),
        BoolTerm::Identifier(id) => if env.booleans.contains_key(id) {
            Ok(BoolTerm::Value(env.booleans[id]))
        } else {
            Ok(BoolTerm::Identifier(id))
        },
        BoolTerm::Lt(a, b) => match both(propagate_field(*a, env), propagate_field(*b, env)) {
            Err(x) => Err(x),
            Ok((a, b)) => Ok(fold_lt(a, b)),
        },
        BoolTerm::Le(a, b) => match both(propagate_field(*a, env), propagate_field(*b, env)) {
            Err(x) => Err(x),
            Ok((a, b)) => Ok(fold_le(a, b)),
        },
        BoolTerm::Eq(a, b) => match both(propagate_field(*a, env), propagate_field(*b, env)) {
            Err(x) => Err(x),
            Ok((a, b)) => Ok(fold_eq(a, b)),
        },
        BoolTerm::Ge(a, b) => match both(propagate_field(*a, env), propagate_field(*b, env)) {
            Err(x) => Err(x),
            Ok((a, b)) => Ok(fold_ge(a, b)),
        },
        BoolTerm::Gt(a, b) => match both(propagate_field(*a, env), propagate_field(*b, env)) {
            Err(x) => Err(x),
            Ok((a, b)) => Ok(fold_gt(a, b)),
        },
    }
}

pub open spec fn propagate_term(e: Term, env: Environment) -> Result<Term, Error>
    decreases e,
{
    match e {
        Term::Boolean(b) => match propagate_bool(b, env) {
            Err(x) => Err(x),
            Ok(b) => Ok(Term::Boolean(b)),
        },
        Term::FieldElement(f) => match propagate_field(f, env) {
            Err(x) => Err(x),
            Ok(f) => Ok(Term::FieldElement(f)),
        },
    }
}

/// Each expression propagated in order; the first error stops the sequence.
pub open spec fn propagate_terms(s: Seq<Term>, env: Environment) -> Result<Seq<Term>, Error>
    decreases s,
{
    if s.len() == 0 {
        Ok(Seq::empty())
    } else {
        match both(
            propagate_terms(s.subrange(0, s.len() - 1), env),
            propagate_term(s[s.len() - 1], env),
        ) {
            Err(x) => Err(x),
            Ok((init, last)) => Ok(init.push(last)),
        }
    }
}

pub open spec fn propagate_expression_list(l: ExpressionListTerm, env: Environment) -> Result<
    ExpressionListTerm,
    Error,
> {
    match l {
        ExpressionListTerm::FunctionCall(id, args, tys) => match propagate_terms(args, env) {
            Err(x) => Err(x),
            Ok(args) => Ok(ExpressionListTerm::FunctionCall(id, args, tys)),
        },
    }
}

/// A definition whose right-hand side is propagated to `e`: a literal of the
/// variable's own kind becomes a constant and the statement goes; anything else
/// stays as a definition and leaves the environment as it was.
pub open spec fn bind_definition(v: Variable, e: Term, env: Environment) -> (
    Option<StatementTerm>,
    Environment,
) {
    match e {
        Term::FieldElement(FieldTerm::Number(n)) if v._type == Type::FieldElement => (
            None,
            Environment { field_elements: env.field_elements.insert(v.id@, n), ..env },
        ),
        Term::Boolean(BoolTerm::Value(b)) if v._type == Type::Boolean => (
            None,
            Environment { booleans: env.booleans.insert(v.id@, b), ..env },
        ),
        _ => (Some(StatementTerm::Definition(v, e)), env),
    }
}

/// One statement propagated: what stays of it, if anything, and the
/// environment for the statements after it.
#[verifier::opaque]
pub open spec fn propagate_statement(s: StatementTerm, env: Environment) -> Result<
    (Option<StatementTerm>, Environment),
    Error,
> {
    match s {
        StatementTerm::Declaration(v) => Ok((Some(StatementTerm::Declaration(v)), env)),
        StatementTerm::Return(es) => match propagate_terms(es, env) {
            Err(x) => Err(x),
            Ok(es) => Ok((Some(StatementTerm::Return(es)), env)),
        },
        StatementTerm::Definition(v, e) => match propagate_term(e, env) {
            Err(x) => Err(x),
            Ok(e) => Ok(bind_definition(v, e, env)),
        },
        StatementTerm::Condition(a, b) => match both(propagate_term(a, env), propagate_term(b, env)) {
            Err(x) => Err(x),
            Ok((a, b)) => Ok((Some(StatementTerm::Condition(a, b)), env)),
        },
        StatementTerm::For(..) => Err(Error::LoopNotUnrolled),
        StatementTerm::MultipleDefinition(vs, l) => match propagate_expression_list(l, env) {
            Err(x) => Err(x),
            Ok(l) => Ok((Some(StatementTerm::MultipleDefinition(vs, l)), env)),
        },
    }
}

/// The statements kept so far, extended by what stays of `s`, and the
/// environment after `s`.
pub open spec fn step(kept: Seq<StatementTerm>, env: Environment, s: StatementTerm) -> Result<
    (Seq<StatementTerm>, Environment),
    Error,
> {
    match propagate_statement(s, env) {
        Err(x) => Err(x),
        Ok((None, env2)) => Ok((kept, env2)),
        Ok((Some(t), env2)) => Ok((kept.push(t), env2)),
    }
}

/// The statements propagated in order, threading the environment through them.
pub open spec fn propagate_statements(ss: Seq<StatementTerm>, env: Environment) -> Result<
    (Seq<StatementTerm>, Environment),
    Error,
>
    decreases ss.len(),
{
    if ss.len() == 0 {
        Ok((Seq::empty(), env))
    } else {
        match propagate_statements(ss.drop_last(), env) {
            Err(x) => Err(x),
            Ok((kept, env1)) => step(kept, env1, ss.last()),
        }
    }
}

/// A function propagated from an empty environment; only its statements change.
pub open spec fn propagate_function(f: FunctionTerm) -> Result<FunctionTerm, Error> {
    match propagate_statements(f.statements, Environment::empty()) {
        Err(x) => Err(x),
        Ok((ss, _)) => Ok(FunctionTerm { statements: ss, ..f }),
    }
}

/// Each function propagated on its own, in order; the first error stops the program.
pub open spec fn propagate_program(fs: Seq<FunctionTerm>) -> Result<Seq<FunctionTerm>, Error>
    decreases fs.len(),
{
    if fs.len() == 0 {
        Ok(Seq::empty())
    } else {
        match both(propagate_program(fs.drop_last()), propagate_function(fs.last())) {
            Err(x) => Err(x),
            Ok((init, last)) => Ok(init.push(last)),
        }
    }
}

/// The mathematical form of a propagation result.
pub open spec fn result_view<T: View>(r: Result<T, Error>) -> Result<T::V, Error> {
    match r {
        Ok(x) => Ok(x@),
        Err(e) => Err(e),
    }
}

/// The mathematical form of a propagated sequence of expressions.
pub open spec fn terms_result(r: Result<Vec<TypedExpression>, Error>) -> Result<Seq<Term>, Error> {
    match r {
        Ok(v) => Ok(terms(v@)),
        Err(e) => Err(e),
    }
}

/// Propagation of a whole function. `functions` holds the functions of the
/// program propagated before this one; calls are never resolved through it.
pub trait Propagate: Sized {
    fn propagate(self, functions: &Vec<TypedFunction>) -> Result<Self, Error>;
}

/// Propagation against the constants known at this point of a function body.
/// Expressions only read `constants`; `functions` is handed on to nested
/// expressions and never consulted.
pub trait PropagateWithContext: Sized {
    fn propagate(self, constants: &mut Constants, functions: &Vec<TypedFunction>) -> Result<
        Self,
        Error,
    >;
}

fn fold_add_exec(a: FieldElementExpression, b: FieldElementExpression) -> (r:
    FieldElementExpression)
    ensures
        r@ == fold_add(a@, b@),
{
    match (a, b) {
        (FieldElementExpression::Number(x), FieldElementExpression::Number(y)) => {
            FieldElementExpression::Number(x.add(y))
        },
        (a, b) => FieldElementExpression::Add(Box::new(a), Box::new(b)),
    }
}

fn fold_sub_exec(a: FieldElementExpression, b: FieldElementExpression) -> (r:
    FieldElementExpression)
    ensures
        r@ == fold_sub(a@, b@),
{
    match (a, b) {
        (FieldElementExpression::Number(x), FieldElementExpression::Number(y)) => {
            FieldElementExpression::Number(x.sub(y))
        },
        (a, b) => FieldElementExpression::Sub(Box::new(a), Box::new(b)),
    }
}

fn fold_mult_exec(a: FieldElementExpression, b: FieldElementExpression) -> (r:
    FieldElementExpression)
    ensures
        r@ == fold_mult(a@, b@),
{
    match (a, b) {
        (FieldElementExpression::Number(x), FieldElementExpression::Number(y)) => {
            FieldElementExpression::Number(x.mul(y))
        },
        (a, b) => FieldElementExpression::Mult(Box::new(a), Box::new(b)),
    }
}

fn fold_div_exec(a: FieldElementExpression, b: FieldElementExpression) -> (r: Result<
    FieldElementExpression,
    Error,
>)
    ensures
        result_view(r) == fold_div(a@, b@),
{
    match (a, b) {
        (FieldElementExpression::Number(x), FieldElementExpression::Number(y)) => {
            if y.value() == 0 {
                Err(Error::DivisionByZero(x))
            } else {
                Ok(FieldElementExpression::Number(x.div(y)))
            }
        },
        (a, b) => Ok(FieldElementExpression::Div(Box::new(a), Box::new(b))),
    }
}

fn fold_pow_exec(a: FieldElementExpression, b: FieldElementExpression) -> (r: Result<
    FieldElementExpression,
    Error,
>)
    ensures
        result_view(r) == fold_pow(a@, b@),
{
    match (a, b) {
        (FieldElementExpression::Number(x), FieldElementExpression::Number(y)) => {
            if y.value() > MAX_EXPONENT {
                Err(Error::ExponentTooLarge(x, y))
            } else {
                Ok(FieldElementExpression::Number(x.pow(y.value())))
            }
        },
        (a, b) => Ok(FieldElementExpression::Pow(Box::new(a), Box::new(b))),
    }
}

fn fold_lt_exec(a: FieldElementExpression, b: FieldElementExpression) -> (r: BooleanExpression)
    ensures
        r@ == fold_lt(a@, b@),
{
    match (a, b) {
        (FieldElementExpression::Number(x), FieldElementExpression::Number(y)) => {
            BooleanExpression::Value(x.value() < y.value())
        },
        (a, b) => BooleanExpression::Lt(Box::new(a), Box::new(b)),
    }
}

fn fold_le_exec(a: FieldElementExpression, b: FieldElementExpression) -> (r: BooleanExpression)
    ensures
        r@ == fold_le(a@, b@),
{
    match (a, b) {
        (FieldElementExpression::Number(x), FieldElementExpression::Number(y)) => {
            BooleanExpression::Value(x.value() <= y.value())
        },
        (a, b) => BooleanExpression::Le(Box::new(a), Box::new(b)),
    }
}

fn fold_eq_exec(a: FieldElementExpression, b: FieldElementExpression) -> (r: BooleanExpression)
    ensures
        r@ == fold_eq(a@, b@),
{
    match (a, b) {
        (FieldElementExpression::Number(x), FieldElementExpression::Number(y)) => {
            BooleanExpression::Value(x.value() == y.value())
        },
        (a, b) => BooleanExpression::Eq(Box::new(a), Box::new(b)),
    }
}

fn fold_ge_exec(a: FieldElementExpression, b: FieldElementExpression) -> (r: BooleanExpression)
    ensures
        r@ == fold_ge(a@, b@),
{
    match (a, b) {
        (FieldElementExpression::Number(x), FieldElementExpression::Number(y)) => {
            BooleanExpression::Value(x.value() >= y.value())
        },
        (a, b) => BooleanExpression::Ge(Box::new(a), Box::new(b)),
    }
}

fn fold_gt_exec(a: FieldElementExpression, b: FieldElementExpression) -> (r: BooleanExpression)
    ensures
        r@ == fold_gt(a@, b@),
{
    match (a, b) {
        (FieldElementExpression::Number(x), FieldElementExpression::Number(y)) => {
            BooleanExpression::Value(x.value() > y.value())
        },
        (a, b) => BooleanExpression::Gt(Box::new(a), Box::new(b)),
    }
}

impl PropagateWithContext for FieldElementExpression {
    fn propagate(self, constants: &mut Constants, functions: &Vec<TypedFunction>) -> (r: Result<
        FieldElementExpression,
        Error,
    >)
        ensures
            *final(constants) == *old(constants),
            result_view(r) == propagate_field(self@, old(constants)@),
        decreases self,
    {
        match self {
            FieldElementExpression::Number(n) => Ok(FieldElementExpression::Number(n)),
            FieldElementExpression::Identifier(id) => match constants.get_field_element(&id) {
                Some(n) => Ok(FieldElementExpression::Number(n)),
                None => Ok(FieldElementExpression::Identifier(id)),
            },
            FieldElementExpression::Add(a, b) => {
                let a = match (*a).propagate(constants, functions) {
                    Ok(a) => a,
                    Err(x) => return Err(x),
                };
                let b = match (*b).propagate(constants, functions) {
                    Ok(b) => b,
                    Err(x) => return Err(x),
                };
                Ok(fold_add_exec(a, b))
            },
            FieldElementExpression::Sub(a, b) => {
                let a = match (*a).propagate(constants, functions) {
                    Ok(a) => a,
                    Err(x) => return Err(x),
                };
                let b = match (*b).propagate(constants, functions) {
                    Ok(b) => b,
                    Err(x) => return Err(x),
                };
                Ok(fold_sub_exec(a, b))
            },
            FieldElementExpression::Mult(a, b) => {
                let a = match (*a).propagate(constants, functions) {
                    Ok(a) => a,
                    Err(x) => return Err(x),
                };
                let b = match (*b).propagate(constants, functions) {
                    Ok(b) => b,
                    Err(x) => return Err(x),
                };
                Ok(fold_mult_exec(a, b))
            },
            FieldElementExpression::Div(a, b) => {
                let a = match (*a).propagate(constants, functions) {
                    Ok(a) => a,
                    Err(x) => return Err(x),
                };
                let b = match (*b).propagate(constants, functions) {
                    Ok(b) => b,
                    Err(x) => return Err(x),
                };
                fold_div_exec(a, b)
            },
            FieldElementExpression::Pow(a, b) => {
                let a = match (*a).propagate(constants, functions) {
                    Ok(a) => a,
                    Err(x) => return Err(x),
                };
                let b = match (*b).propagate(constants, functions) {
                    Ok(b) => b,
                    Err(x) => return Err(x),
                };
                fold_pow_exec(a, b)
            },
            FieldElementExpression::IfElse(c, a, b) => {
                let c = match (*c).propagate(constants, functions) {
                    Ok(c) => c,
                    Err(x) => return Err(x),
                };
                let a = (*a).propagate(constants, functions);
                let b = (*b).propagate(constants, functions);
                match c {
                    BooleanExpression::Value(true) => a,
                    BooleanExpression::Value(false) => b,
                    c => match (a, b) {
                        (Ok(a), Ok(b)) => Ok(
                            FieldElementExpression::IfElse(Box::new(c), Box::new(a), Box::new(b)),
                        ),
                        (Err(x), _) => Err(x),
                        (_, Err(y)) => Err(y),
                    },
                }
            },
            FieldElementExpression::FunctionCall(id, args) => {
                match propagate_all(args, constants, functions) {
                    Ok(args) => Ok(FieldElementExpression::FunctionCall(id, args)),
                    Err(x) => Err(x),
                }
            },
        }
    }
}

impl PropagateWithContext for BooleanExpression {
    fn propagate(self, constants: &mut Constants, functions: &Vec<TypedFunction>) -> (r: Result<
        BooleanExpression,
        Error,
    >)
        ensures
            *final(constants) == *old(constants),
            result_view(r) == propagate_bool(self@, old(constants)@),
        decreases self,
    {
        match self {
            BooleanExpression::Value(v) => Ok(BooleanExpression::Value(v)),
            BooleanExpression::Identifier(id) => match constants.get_boolean(&id) {
                Some(v) => Ok(BooleanExpression::Value(v)),
                None => Ok(BooleanExpression::Identifier(id)),
            },
            BooleanExpression::Lt(a, b) => {
                let a = match (*a).propagate(constants, functions) {
                    Ok(a) => a,
                    Err(x) => return Err(x),
                };
                let b = match (*b).propagate(constants, functions) {
                    Ok(b) => b,
                    Err(x) => return Err(x),
                };
                Ok(fold_lt_exec(a, b))
            },
            BooleanExpression::Le(a, b) => {
                let a = match (*a).propagate(constants, functions) {
                    Ok(a) => a,
                    Err(x) => return Err(x),
                };
                let b = match (*b).propagate(constants, functions) {
                    Ok(b) => b,
                    Err(x) => return Err(x),
                };
                Ok(fold_le_exec(a, b))
            },
            BooleanExpression::Eq(a, b) => {
                let a = match (*a).propagate(constants, functions) {
                    Ok(a) => a,
                    Err(x) => return Err(x),
                };
                let b = match (*b).propagate(constants, functions) {
                    Ok(b) => b,
                    Err(x) => return Err(x),
                };
                Ok(fold_eq_exec(a, b))
            },
            BooleanExpression::Ge(a, b) => {
                let a = match (*a).propagate(constants, functions) {
                    Ok(a) => a,
                    Err(x) => return Err(x),
                };
                let b = match (*b).propagate(constants, functions) {
                    Ok(b) => b,
                    Err(x) => return Err(x),
                };
                Ok(fold_ge_exec(a, b))
            },
            BooleanExpression::Gt(a, b) => {
                let a = match (*a).propagate(constants, functions) {
                    Ok(a) => a,
                    Err(x) => return Err(x),
                };
                let b = match (*b).propagate(constants, functions) {
                    Ok(b) => b,
                    Err(x) => return Err(x),
                };
                Ok(fold_gt_exec(a, b))
            },
        }
    }
}

impl PropagateWithContext for TypedExpression {
    fn propagate(self, constants: &mut Constants, functions: &Vec<TypedFunction>) -> (r: Result<
        TypedExpression,
        Error,
    >)
        ensures
            *final(constants) == *old(constants),
            result_view(r) == propagate_term(self@, old(constants)@),
        decreases self,
    {
        match self {
            TypedExpression::Boolean(e) => match e.propagate(constants, functions) {
                Ok(e) => Ok(TypedExpression::Boolean(e)),
                Err(x) => Err(x),
            },
            TypedExpression::FieldElement(e) => match e.propagate(constants, functions) {
                Ok(e) => Ok(TypedExpression::FieldElement(e)),
                Err(x) => Err(x),
            },
        }
    }
}

proof fn lemma_terms_push(s: Seq<TypedExpression>, i: int)
    requires
        0 <= i < s.len(),
    ensures
        terms(s.take(i + 1)) == terms(s.take(i)).push(s[i]@),
{
    assert(s.take(i + 1).subrange(0, i) =~= s.take(i));
}

proof fn lemma_terms_of_push(v: Seq<TypedExpression>, x: TypedExpression)
    ensures
        terms(v.push(x)) == terms(v).push(x@),
{
    assert(v.push(x).subrange(0, v.len() as int) =~= v);
}

proof fn lemma_propagate_terms_push(ts: Seq<Term>, t: Term, env: Environment)
    ensures
        propagate_terms(ts.push(t), env) == match both(
            propagate_terms(ts, env),
            propagate_term(t, env),
        ) {
            Err(x) => Err(x),
            Ok((init, last)) => Ok(init.push(last)),
        },
{
    assert(ts.push(t).subrange(0, ts.len() as int) =~= ts);
}

proof fn lemma_terms_error_persists(s: Seq<TypedExpression>, k: int, m: int, env: Environment)
    requires
        0 <= k <= m <= s.len(),
        propagate_terms(terms(s.take(k)), env) is Err,
    ensures
        propagate_terms(terms(s.take(m)), env) == propagate_terms(terms(s.take(k)), env),
    decreases m - k,
{
    if m > k {
        lemma_terms_error_persists(s, k, m - 1, env);
        lemma_terms_push(s, m - 1);
        lemma_propagate_terms_push(terms(s.take(m - 1)), s[m - 1]@, env);
    }
}

/// Propagates each expression in order, stopping at the first error.
fn propagate_all(
    args: Vec<TypedExpression>,
    constants: &mut Constants,
    functions: &Vec<TypedFunction>,
) -> (r: Result<Vec<TypedExpression>, Error>)
    ensures
        *final(constants) == *old(constants),
        terms_result(r) == propagate_terms(terms(args@), old(constants)@),
    decreases args,
{
    let ghost s = args@;
    let ghost env = constants@;
    let mut out: Vec<TypedExpression> = Vec::new();
    proof {
        assert(s.take(0) =~= Seq::<TypedExpression>::empty());
        assert(terms(Seq::<TypedExpression>::empty()) =~= Seq::<Term>::empty());
    }
    for a in it: args.into_iter()
        invariant
            it.seq() == s,
            *constants == *old(constants),
            env == old(constants)@,
            propagate_terms(terms(s.take(it.index())), env) == Ok::<Seq<Term>, Error>(terms(out@)),
    {
        let ghost i = it.index();
        assert(a == s[i]);
        proof {
            lemma_terms_push(s, i);
            lemma_propagate_terms_push(terms(s.take(i)), s[i]@, env);
        }
        let t = match a.propagate(constants, functions) {
            Ok(t) => t,
            Err(x) => {
                proof {
                    lemma_terms_error_persists(s, i + 1, s.len() as int, env);
                    assert(s.take(s.len() as int) =~= s);
                }
                return Err(x);
            },
        };
        proof {
            lemma_terms_of_push(out@, t);
        }
        out.push(t);
    }
    proof {
        assert(s.take(s.len() as int) =~= s);
    }
    Ok(out)
}

impl TypedExpressionList {
    pub fn propagate(self, constants: &mut Constants, functions: &Vec<TypedFunction>) -> (r:
        Result<TypedExpressionList, Error>)
        ensures
            *final(constants) == *old(constants),
            result_view(r) == propagate_expression_list(self@, old(constants)@),
    {
        match self {
            TypedExpressionList::FunctionCall(id, args, types) => {
                match propagate_all(args, constants, functions) {
                    Ok(args) => Ok(TypedExpressionList::FunctionCall(id, args, types)),
                    Err(x) => Err(x),
                }
            },
        }
    }
}

/// The mathematical form of what stays of a propagated statement.
pub open spec fn kept_view(o: Option<TypedStatement>) -> Option<StatementTerm> {
    match o {
        Some(s) => Some(s@),
        None => None,
    }
}

impl TypedStatement {
    /// Propagates the statement, recording in `constants` a definition whose
    /// right-hand side becomes a literal; such a definition is not kept.
    pub fn propagate(self, constants: &mut Constants, functions: &Vec<TypedFunction>) -> (r:
        Result<Option<TypedStatement>, Error>)
        ensures
            match r {
                Ok(o) => propagate_statement(self@, old(constants)@) == Ok::<
                    (Option<StatementTerm>, Environment),
                    Error,
                >((kept_view(o), final(constants)@)),
                Err(x) => propagate_statement(self@, old(constants)@) is Err
                    && propagate_statement(self@, old(constants)@)->Err_0 == x,
            },
    {
        proof {
            reveal(propagate_statement);
        }
        match self {
            TypedStatement::Declaration(v) => Ok(Some(TypedStatement::Declaration(v))),
            TypedStatement::Return(es) => match propagate_all(es, constants, functions) {
                Ok(es) => Ok(Some(TypedStatement::Return(es))),
                Err(x) => Err(x),
            },
            TypedStatement::Definition(v, e) => {
                let e = match e.propagate(constants, functions) {
                    Ok(e) => e,
                    Err(x) => return Err(x),
                };
                match e {
                    TypedExpression::FieldElement(FieldElementExpression::Number(n)) => {
                        if v._type == Type::FieldElement {
                            constants.insert_field_element(v.id, n);
                            Ok(None)
                        } else {
                            Ok(
                                Some(
                                    TypedStatement::Definition(
                                        v,
                                        TypedExpression::FieldElement(
                                            FieldElementExpression::Number(n),
                                        ),
                                    ),
                                ),
                            )
                        }
                    },
                    TypedExpression::Boolean(BooleanExpression::Value(b)) => {
                        if v._type == Type::Boolean {
                            constants.insert_boolean(v.id, b);
                            Ok(None)
                        } else {
                            Ok(
                                Some(
                                    TypedStatement::Definition(
                                        v,
                                        TypedExpression::Boolean(BooleanExpression::Value(b)),
                                    ),
                                ),
                            )
                        }
                    },
                    e => Ok(Some(TypedStatement::Definition(v, e))),
                }
            },
            TypedStatement::Condition(a, b) => {
                let a = match a.propagate(constants, functions) {
                    Ok(a) => a,
                    Err(x) => return Err(x),
                };
                let b = match b.propagate(constants, functions) {
                    Ok(b) => b,
                    Err(x) => return Err(x),
                };
                Ok(Some(TypedStatement::Condition(a, b)))
            },
            TypedStatement::For(..) => Err(Error::LoopNotUnrolled),
            TypedStatement::MultipleDefinition(variables, l) => {
                match l.propagate(constants, functions) {
                    Ok(l) => Ok(Some(TypedStatement::MultipleDefinition(variables, l))),
                    Err(x) => Err(x),
                }
            },
        }
    }
}

pub(crate) proof fn lemma_statements_error_persists(
    ss: Seq<StatementTerm>,
    k: int,
    m: int,
    env: Environment,
)
    requires
        0 <= k <= m <= ss.len(),
        propagate_statements(ss.take(k), env) is Err,
    ensures
        propagate_statements(ss.take(m), env) == propagate_statements(ss.take(k), env),
    decreases m - k,
{
    if m > k {
        lemma_statements_error_persists(ss, k, m - 1, env);
        assert(ss.take(m).drop_last() =~= ss.take(m - 1));
    }
}

pub(crate) proof fn lemma_program_error_persists(fs: Seq<FunctionTerm>, k: int, m: int)
    requires
        0 <= k <= m <= fs.len(),
        propagate_program(fs.take(k)) is Err,
    ensures
        propagate_program(fs.take(m)) == propagate_program(fs.take(k)),
    decreases m - k,
{
    if m > k {
        lemma_program_error_persists(fs, k, m - 1);
        assert(fs.take(m).drop_last() =~= fs.take(m - 1));
    }
}

pub(crate) proof fn lemma_statements_step(ss: Seq<StatementTerm>, i: int, env: Environment)
    requires
        0 <= i < ss.len(),
    ensures
        propagate_statements(ss.take(i + 1), env) == match propagate_statements(ss.take(i), env) {
            Err(x) => Err(x),
            Ok((kept, env1)) => step(kept, env1, ss[i]),
        },
{
    assert(ss.take(i + 1).drop_last() =~= ss.take(i));
}

/// The mathematical form of a sequence of statements.
pub open spec fn statement_terms(v: Seq<TypedStatement>) -> Seq<StatementTerm> {
    v.map_values(|t: TypedStatement| t@)
}

/// Propagates one statement of a body and appends what stays of it to `out`.
fn propagate_into(
    s: TypedStatement,
    constants: &mut Constants,
    functions: &Vec<TypedFunction>,
    out: &mut Vec<TypedStatement>,
) -> (r: Result<(), Error>)
    ensures
        match r {
            Ok(()) => step(statement_terms(old(out)@), old(constants)@, s@) == Ok::<
                (Seq<StatementTerm>, Environment),
                Error,
            >((statement_terms(final(out)@), final(constants)@)),
            Err(x) => step(statement_terms(old(out)@), old(constants)@, s@) == Err::<
                (Seq<StatementTerm>, Environment),
                Error,
            >(x),
        },
{
    match s.propagate(constants, functions) {
        Ok(Some(t)) => {
            let ghost before = out@;
            out.push(t);
            assert(statement_terms(out@) =~= statement_terms(before).push(t@));
            Ok(())
        },
        Ok(None) => Ok(()),
        Err(x) => Err(x),
    }
}

impl Propagate for TypedFunction {
    /// Propagates the function's statements from an empty environment of
    /// constants; every other part of the function is kept.
    fn propagate(self, functions: &Vec<TypedFunction>) -> (r: Result<TypedFunction, Error>)
        ensures
            result_view(r) == propagate_function(self@),
    {
        let ghost ss = self.statements@;
        let ghost whole = self@;
        let ghost views = self@.statements;
        let TypedFunction { id, arguments, statements, signature } = self;
        let mut constants = Constants::new();
        let mut out: Vec<TypedStatement> = Vec::new();
        proof {
            assert(views.take(0) =~= Seq::<StatementTerm>::empty());
            assert(statement_terms(out@) =~= Seq::<StatementTerm>::empty());
        }
        for s in it: statements.into_iter()
            invariant
                it.seq() == ss,
                views == statement_terms(ss),
                views == whole.statements,
                whole == self@,
                propagate_statements(views.take(it.index()), Environment::empty()) == Ok::<
                    (Seq<StatementTerm>, Environment),
                    Error,
                >((statement_terms(out@), constants@)),
        {
            let ghost i = it.index();
            proof {
                lemma_statements_step(views, i, Environment::empty());
                assert(views[i] == s@);
            }
            match propagate_into(s, &mut constants, functions, &mut out) {
                Ok(()) => {},
                Err(x) => {
                    proof {
                        lemma_statements_error_persists(
                            views,
                            i + 1,
                            views.len() as int,
                            Environment::empty(),
                        );
                        assert(views.take(views.len() as int) =~= views);
                    }
                    return Err(x);
                },
            }
        }
        proof {
            assert(views.take(views.len() as int) =~= views);
        }
        Ok(TypedFunction { id, arguments, statements: out, signature })
    }
}

impl TypedProg {
    /// Propagates each function in declaration order, each from an empty
    /// environment of constants, handing it the functions propagated before it.
    pub fn propagate(self) -> (r: Result<TypedProg, Error>)
        ensures
            result_view(r) == propagate_program(self@),
    {
        let ghost fs = self.functions@;
        let ghost views = self@;
        let mut functions: Vec<TypedFunction> = Vec::new();
        proof {
            assert(views.take(0) =~= Seq::<FunctionTerm>::empty());
            assert(functions@.map_values(|g: TypedFunction| g@) =~= Seq::<FunctionTerm>::empty());
        }
        for f in it: self.functions.into_iter()
            invariant
                it.seq() == fs,
                views == fs.map_values(|g: TypedFunction| g@),
                propagate_program(views.take(it.index())) == Ok::<Seq<FunctionTerm>, Error>(
                    functions@.map_values(|g: TypedFunction| g@),
                ),
        {
            let ghost i = it.index();
            let ghost before = functions@;
            assert(f == fs[i]);
            assert(views.take(i + 1).drop_last() =~= views.take(i));
            match f.propagate(&functions) {
                Ok(g) => {
                    functions.push(g);
                    assert(functions@.map_values(|g: TypedFunction| g@) =~= before.map_values(
                        |g: TypedFunction| g@,
                    ).push(g@));
                },
                Err(x) => {
                    proof {
                        lemma_program_error_persists(views, i + 1, views.len() as int);
                        assert(views.take(views.len() as int) =~= views);
                    }
                    return Err(x);
                },
            }
        }
        proof {
            assert(views.take(views.len() as int) =~= views);
        }
        Ok(TypedProg { functions })
    }
}

} // verus!
