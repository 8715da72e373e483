//! What holds of propagation in general, proved from its definition.
use crate::constants::Environment;
use crate::field::{power, FieldPrime, MAX_EXPONENT, MODULUS};
use crate::propagation::{
    lemma_program_error_persists, lemma_statements_error_persists, lemma_statements_step,
    propagate_bool, propagate_expression_list, propagate_field, propagate_function, propagate_program, propagate_statement,
    propagate_statements, propagate_term, propagate_terms, bind_definition, step, Error,
};
use crate::typed_absy::{BoolTerm, ExpressionListTerm, FieldTerm, FunctionTerm, StatementTerm, Term};
use vstd::prelude::*;

verus! {

pub open spec fn number(n: FieldPrime) -> Box<FieldTerm> {
    Box::new(FieldTerm::Number(n))
}

/// Two literal operands fold to the literal that the field operation gives:
/// the modular sum, difference and product; the power, for an exponent up to
/// `MAX_EXPONENT` and an error above it; the product with the divisor's inverse,
/// for a nonzero divisor and an error for zero.
pub proof fn lemma_literals_fold(a: FieldPrime, b: FieldPrime, env: Environment)
    ensures
        propagate_field(FieldTerm::Add(number(a), number(b)), env) == Ok::<FieldTerm, Error>(
            FieldTerm::Number(a.spec_add(b)),
        ),
        a.spec_add(b)@ == (a@ + b@) % (MODULUS as nat),
        propagate_field(FieldTerm::Sub(number(a), number(b)), env) == Ok::<FieldTerm, Error>(
            FieldTerm::Number(a.spec_sub(b)),
        ),
        a.spec_sub(b)@ == (a@ - b@) % (MODULUS as int),
        propagate_field(FieldTerm::Mult(number(a), number(b)), env) == Ok::<FieldTerm, Error>(
            FieldTerm::Number(a.spec_mul(b)),
        ),
        a.spec_mul(b)@ == (a@ * b@) % (MODULUS as nat),
        b@ <= MAX_EXPONENT ==> propagate_field(FieldTerm::Pow(number(a), number(b)), env) == Ok::<
            FieldTerm,
            Error,
        >(FieldTerm::Number(a.spec_pow(b@))),
        a.spec_pow(b@)@ == power(a@, b@) % (MODULUS as nat),
        b@ > MAX_EXPONENT ==> propagate_field(FieldTerm::Pow(number(a), number(b)), env) == Err::<
            FieldTerm,
            Error,
        >(Error::ExponentTooLarge(a, b)),
        b@ != 0 ==> propagate_field(FieldTerm::Div(number(a), number(b)), env) == Ok::<
            FieldTerm,
            Error,
        >(FieldTerm::Number(a.spec_div(b))),
        a.spec_div(b)@ == (a@ * b.spec_inverse()@) % (MODULUS as nat),
        b.spec_inverse()@ == power(b@, (MODULUS - 2) as nat) % (MODULUS as nat),
        b@ == 0 ==> propagate_field(FieldTerm::Div(number(a), number(b)), env) == Err::<
            FieldTerm,
            Error,
        >(Error::DivisionByZero(a)),
{
    reveal_with_fuel(propagate_field, 2);
    FieldPrime::lemma_view_bound(a);
    FieldPrime::lemma_view_bound(b);
    FieldPrime::lemma_from_nat(a@ + b@);
    FieldPrime::lemma_from_nat((a@ + MODULUS - b@) as nat);
    FieldPrime::lemma_from_nat(a@ * b@);
    FieldPrime::lemma_from_nat(power(a@, b@));
    FieldPrime::lemma_from_nat(power(b@, (MODULUS - 2) as nat));
    FieldPrime::lemma_from_nat(a@ * b.spec_inverse()@);
    vstd::arithmetic::div_mod::lemma_mod_add_multiples_vanish(a@ - b@, MODULUS as int);
}

/// Two literal operands of a comparison fold to the boolean that comparing
/// their representatives gives.
pub proof fn lemma_comparisons_fold(a: FieldPrime, b: FieldPrime, env: Environment)
    ensures
        propagate_bool(BoolTerm::Eq(number(a), number(b)), env) == Ok::<BoolTerm, Error>(
            BoolTerm::Value(a@ == b@),
        ),
        propagate_bool(BoolTerm::Lt(number(a), number(b)), env) == Ok::<BoolTerm, Error>(
            BoolTerm::Value(a@ < b@),
        ),
        propagate_bool(BoolTerm::Le(number(a), number(b)), env) == Ok::<BoolTerm, Error>(
            BoolTerm::Value(a@ <= b@),
        ),
        propagate_bool(BoolTerm::Gt(number(a), number(b)), env) == Ok::<BoolTerm, Error>(
            BoolTerm::Value(a@ > b@),
        ),
        propagate_bool(BoolTerm::Ge(number(a), number(b)), env) == Ok::<BoolTerm, Error>(
            BoolTerm::Value(a@ >= b@),
        ),
{
    reveal_with_fuel(propagate_bool, 2);
    reveal_with_fuel(propagate_field, 2);
}

/// A conditional on a literal is its selected branch propagated, whatever the
/// other branch gives, an error included.
pub proof fn lemma_literal_condition_selects(c: FieldTerm, a: FieldTerm, env: Environment)
    ensures
        propagate_field(
            FieldTerm::IfElse(Box::new(BoolTerm::Value(true)), Box::new(c), Box::new(a)),
            env,
        ) == propagate_field(c, env),
        propagate_field(
            FieldTerm::IfElse(Box::new(BoolTerm::Value(false)), Box::new(c), Box::new(a)),
            env,
        ) == propagate_field(a, env),
{
    reveal_with_fuel(propagate_field, 2);
    reveal_with_fuel(propagate_bool, 2);
}

/// An operator whose operands propagate to terms that are not both literals
/// keeps its operator, over the propagated operands.
pub proof fn lemma_open_operands_keep_operator(
    a: FieldTerm,
    b: FieldTerm,
    x: FieldTerm,
    y: FieldTerm,
    env: Environment,
)
    requires
        propagate_field(a, env) == Ok::<FieldTerm, Error>(x),
        propagate_field(b, env) == Ok::<FieldTerm, Error>(y),
        !(x is Number && y is Number),
    ensures
        propagate_field(FieldTerm::Add(Box::new(a), Box::new(b)), env) == Ok::<FieldTerm, Error>(
            FieldTerm::Add(Box::new(x), Box::new(y)),
        ),
        propagate_field(FieldTerm::Sub(Box::new(a), Box::new(b)), env) == Ok::<FieldTerm, Error>(
            FieldTerm::Sub(Box::new(x), Box::new(y)),
        ),
        propagate_field(FieldTerm::Mult(Box::new(a), Box::new(b)), env) == Ok::<FieldTerm, Error>(
            FieldTerm::Mult(Box::new(x), Box::new(y)),
        ),
        propagate_field(FieldTerm::Div(Box::new(a), Box::new(b)), env) == Ok::<FieldTerm, Error>(
            FieldTerm::Div(Box::new(x), Box::new(y)),
        ),
        propagate_field(FieldTerm::Pow(Box::new(a), Box::new(b)), env) == Ok::<FieldTerm, Error>(
            FieldTerm::Pow(Box::new(x), Box::new(y)),
        ),
        propagate_bool(BoolTerm::Eq(Box::new(a), Box::new(b)), env) == Ok::<BoolTerm, Error>(
            BoolTerm::Eq(Box::new(x), Box::new(y)),
        ),
        propagate_bool(BoolTerm::Lt(Box::new(a), Box::new(b)), env) == Ok::<BoolTerm, Error>(
            BoolTerm::Lt(Box::new(x), Box::new(y)),
        ),
        propagate_bool(BoolTerm::Le(Box::new(a), Box::new(b)), env) == Ok::<BoolTerm, Error>(
            BoolTerm::Le(Box::new(x), Box::new(y)),
        ),
        propagate_bool(BoolTerm::Gt(Box::new(a), Box::new(b)), env) == Ok::<BoolTerm, Error>(
            BoolTerm::Gt(Box::new(x), Box::new(y)),
        ),
        propagate_bool(BoolTerm::Ge(Box::new(a), Box::new(b)), env) == Ok::<BoolTerm, Error>(
            BoolTerm::Ge(Box::new(x), Box::new(y)),
        ),
{
}

/// Every function of a program is propagated on its own, from an empty
/// environment: what the program gives for a function is what propagating that
/// function alone gives, so no constant of one function reaches another.
pub proof fn lemma_functions_are_isolated(fs: Seq<FunctionTerm>)
    requires
        propagate_program(fs) is Ok,
    ensures
        propagate_program(fs)->Ok_0.len() == fs.len(),
        forall|i: int|
            0 <= i < fs.len() ==> propagate_function(#[trigger] fs[i]) == Ok::<FunctionTerm, Error>(
                propagate_program(fs)->Ok_0[i],
            ),
    decreases fs.len(),
{
    if fs.len() > 0 {
        lemma_functions_are_isolated(fs.drop_last());
        let init = propagate_program(fs.drop_last())->Ok_0;
        assert forall|i: int| 0 <= i < fs.len() implies propagate_function(#[trigger] fs[i])
            == Ok::<FunctionTerm, Error>(propagate_program(fs)->Ok_0[i]) by {
            if i < fs.len() - 1 {
                assert(fs[i] == fs.drop_last()[i]);
            }
        }
    }
}

/// A loop statement is refused with the broken-invariant error, and a program
/// that still holds one anywhere does not propagate.
pub proof fn lemma_loops_are_refused(fs: Seq<FunctionTerm>, i: int, j: int, env: Environment)
    requires
        0 <= i < fs.len(),
        0 <= j < fs[i].statements.len(),
        fs[i].statements[j] is For,
    ensures
        propagate_statement(fs[i].statements[j], env) == Err::<
            (Option<StatementTerm>, Environment),
            Error,
        >(Error::LoopNotUnrolled),
        propagate_program(fs) is Err,
{
    reveal(propagate_statement);
    let ss = fs[i].statements;
    lemma_statements_step(ss, j, Environment::empty());
    lemma_statements_error_persists(ss, j + 1, ss.len() as int, Environment::empty());
    assert(ss.take(ss.len() as int) =~= ss);
    assert(propagate_function(fs[i]) is Err);
    if propagate_program(fs.take(i)) is Err {
        lemma_program_error_persists(fs, i, fs.len() as int);
    } else {
        assert(fs.take(i + 1).drop_last() =~= fs.take(i));
        assert(propagate_program(fs.take(i + 1)) is Err);
        lemma_program_error_persists(fs, i + 1, fs.len() as int);
    }
    assert(fs.take(fs.len() as int) =~= fs);
}

/// No literal left to fold: no operator over two literals and no conditional
/// on a literal.
pub open spec fn field_normal(e: FieldTerm) -> bool
    decreases e,
{
    match e {
        FieldTerm::Number(_) => true,
        FieldTerm::Identifier(_) => true,
        FieldTerm::Add(a, b) => field_normal(*a) && field_normal(*b) && !(*a is Number && *b is Number),
        FieldTerm::Sub(a, b) => field_normal(*a) && field_normal(*b) && !(*a is Number && *b is Number),
        FieldTerm::Mult(a, b) => field_normal(*a) && field_normal(*b) && !(*a is Number && *b is Number),
        FieldTerm::Div(a, b) => field_normal(*a) && field_normal(*b) && !(*a is Number && *b is Number),
        FieldTerm::Pow(a, b) => field_normal(*a) && field_normal(*b) && !(*a is Number && *b is Number),
        FieldTerm::IfElse(c, a, b) => bool_normal(*c) && !(*c is Value) && field_normal(*a)
            && field_normal(*b),
        FieldTerm::FunctionCall(_, args) => terms_normal(args),
    }
}

pub open spec fn bool_normal(e: BoolTerm) -> bool
    decreases e,
{
    match e {
        BoolTerm::Value(_) => true,
        BoolTerm::Identifier(_) => true,
        BoolTerm::Lt(a, b) => field_normal(*a) && field_normal(*b) && !(*a is Number && *b is Number),
        BoolTerm::Le(a, b) => field_normal(*a) && field_normal(*b) && !(*a is Number && *b is Number),
        BoolTerm::Eq(a, b) => field_normal(*a) && field_normal(*b) && !(*a is Number && *b is Number),
        BoolTerm::Ge(a, b) => field_normal(*a) && field_normal(*b) && !(*a is Number && *b is Number),
        BoolTerm::Gt(a, b) => field_normal(*a) && field_normal(*b) && !(*a is Number && *b is Number),
    }
}

pub open spec fn term_normal(e: Term) -> bool
    decreases e,
{
    match e {
        Term::Boolean(b) => bool_normal(b),
        Term::FieldElement(f) => field_normal(f),
    }
}

pub open spec fn terms_normal(s: Seq<Term>) -> bool
    decreases s,
{
    s.len() == 0 || (terms_normal(s.subrange(0, s.len() - 1)) && term_normal(s[s.len() - 1]))
}

/// A statement that propagation keeps as it is: normal expressions, and no
/// definition of a variable to a literal of its own kind.
pub open spec fn statement_normal(s: StatementTerm) -> bool {
    match s {
        StatementTerm::Return(es) => terms_normal(es),
        StatementTerm::Definition(v, e) => term_normal(e) && bind_definition(
            v,
            e,
            Environment::empty(),
        ).0 is Some,
        StatementTerm::Declaration(_) => true,
        StatementTerm::Condition(a, b) => term_normal(a) && term_normal(b),
        StatementTerm::For(..) => false,
        StatementTerm::MultipleDefinition(_, ExpressionListTerm::FunctionCall(_, args, _)) =>
            terms_normal(args),
    }
}

proof fn lemma_field_result_normal(e: FieldTerm, env: Environment)
    ensures
        propagate_field(e, env) is Ok ==> field_normal(propagate_field(e, env)->Ok_0),
    decreases e,
{
    match e {
        FieldTerm::Number(_) => {},
        FieldTerm::Identifier(_) => {},
        FieldTerm::Add(a, b) => {
            lemma_field_result_normal(*a, env);
            lemma_field_result_normal(*b, env);
        },
        FieldTerm::Sub(a, b) => {
            lemma_field_result_normal(*a, env);
            lemma_field_result_normal(*b, env);
        },
        FieldTerm::Mult(a, b) => {
            lemma_field_result_normal(*a, env);
            lemma_field_result_normal(*b, env);
        },
        FieldTerm::Div(a, b) => {
            lemma_field_result_normal(*a, env);
            lemma_field_result_normal(*b, env);
        },
        FieldTerm::Pow(a, b) => {
            lemma_field_result_normal(*a, env);
            lemma_field_result_normal(*b, env);
        },
        FieldTerm::IfElse(c, a, b) => {
            lemma_bool_result_normal(*c, env);
            lemma_field_result_normal(*a, env);
            lemma_field_result_normal(*b, env);
        },
        FieldTerm::FunctionCall(_, args) => {
            lemma_terms_result_normal(args, env);
        },
    }
}

proof fn lemma_bool_result_normal(e: BoolTerm, env: Environment)
    ensures
        propagate_bool(e, env) is Ok ==> bool_normal(propagate_bool(e, env)->Ok_0),
    decreases e,
{
    match e {
        BoolTerm::Value(_) => {},
        BoolTerm::Identifier(_) => {},
        BoolTerm::Lt(a, b) => {
            lemma_field_result_normal(*a, env);
            lemma_field_result_normal(*b, env);
        },
        BoolTerm::Le(a, b) => {
            lemma_field_result_normal(*a, env);
            lemma_field_result_normal(*b, env);
        },
        BoolTerm::Eq(a, b) => {
            lemma_field_result_normal(*a, env);
            lemma_field_result_normal(*b, env);
        },
        BoolTerm::Ge(a, b) => {
            lemma_field_result_normal(*a, env);
            lemma_field_result_normal(*b, env);
        },
        BoolTerm::Gt(a, b) => {
            lemma_field_result_normal(*a, env);
            lemma_field_result_normal(*b, env);
        },
    }
}

proof fn lemma_term_result_normal(e: Term, env: Environment)
    ensures
        propagate_term(e, env) is Ok ==> term_normal(propagate_term(e, env)->Ok_0),
    decreases e,
{
    match e {
        Term::Boolean(b) => lemma_bool_result_normal(b, env),
        Term::FieldElement(f) => lemma_field_result_normal(f, env),
    }
}

proof fn lemma_terms_result_normal(s: Seq<Term>, env: Environment)
    ensures
        propagate_terms(s, env) is Ok ==> terms_normal(propagate_terms(s, env)->Ok_0),
    decreases s,
{
    if s.len() > 0 {
        lemma_terms_result_normal(s.subrange(0, s.len() - 1), env);
        lemma_term_result_normal(s[s.len() - 1], env);
        if propagate_terms(s, env) is Ok {
            let r = propagate_terms(s, env)->Ok_0;
            assert(r.subrange(0, r.len() - 1) =~= propagate_terms(
                s.subrange(0, s.len() - 1),
                env,
            )->Ok_0);
        }
    }
}

proof fn lemma_field_normal_fixed(e: FieldTerm)
    requires
        field_normal(e),
    ensures
        propagate_field(e, Environment::empty()) == Ok::<FieldTerm, Error>(e),
    decreases e,
{
    match e {
        FieldTerm::Number(_) => {},
        FieldTerm::Identifier(_) => {},
        FieldTerm::Add(a, b) => {
            lemma_field_normal_fixed(*a);
            lemma_field_normal_fixed(*b);
        },
        FieldTerm::Sub(a, b) => {
            lemma_field_normal_fixed(*a);
            lemma_field_normal_fixed(*b);
        },
        FieldTerm::Mult(a, b) => {
            lemma_field_normal_fixed(*a);
            lemma_field_normal_fixed(*b);
        },
        FieldTerm::Div(a, b) => {
            lemma_field_normal_fixed(*a);
            lemma_field_normal_fixed(*b);
        },
        FieldTerm::Pow(a, b) => {
            lemma_field_normal_fixed(*a);
            lemma_field_normal_fixed(*b);
        },
        FieldTerm::IfElse(c, a, b) => {
            lemma_bool_normal_fixed(*c);
            lemma_field_normal_fixed(*a);
            lemma_field_normal_fixed(*b);
        },
        FieldTerm::FunctionCall(_, args) => {
            lemma_terms_normal_fixed(args);
        },
    }
}

proof fn lemma_bool_normal_fixed(e: BoolTerm)
    requires
        bool_normal(e),
    ensures
        propagate_bool(e, Environment::empty()) == Ok::<BoolTerm, Error>(e),
    decreases e,
{
    match e {
        BoolTerm::Value(_) => {},
        BoolTerm::Identifier(_) => {},
        BoolTerm::Lt(a, b) => {
            lemma_field_normal_fixed(*a);
            lemma_field_normal_fixed(*b);
        },
        BoolTerm::Le(a, b) => {
            lemma_field_normal_fixed(*a);
            lemma_field_normal_fixed(*b);
        },
        BoolTerm::Eq(a, b) => {
            lemma_field_normal_fixed(*a);
            lemma_field_normal_fixed(*b);
        },
        BoolTerm::Ge(a, b) => {
            lemma_field_normal_fixed(*a);
            lemma_field_normal_fixed(*b);
        },
        BoolTerm::Gt(a, b) => {
            lemma_field_normal_fixed(*a);
            lemma_field_normal_fixed(*b);
        },
    }
}

proof fn lemma_term_normal_fixed(e: Term)
    requires
        term_normal(e),
    ensures
        propagate_term(e, Environment::empty()) == Ok::<Term, Error>(e),
    decreases e,
{
    match e {
        Term::Boolean(b) => lemma_bool_normal_fixed(b),
        Term::FieldElement(f) => lemma_field_normal_fixed(f),
    }
}

proof fn lemma_terms_normal_fixed(s: Seq<Term>)
    requires
        terms_normal(s),
    ensures
        propagate_terms(s, Environment::empty()) == Ok::<Seq<Term>, Error>(s),
    decreases s,
{
    if s.len() > 0 {
        lemma_terms_normal_fixed(s.subrange(0, s.len() - 1));
        lemma_term_normal_fixed(s[s.len() - 1]);
        assert(s.subrange(0, s.len() - 1).push(s[s.len() - 1]) =~= s);
    } else {
        assert(s =~= Seq::<Term>::empty());
    }
}

proof fn lemma_statement_result_normal(st: StatementTerm, env: Environment)
    ensures
        propagate_statement(st, env) is Ok && propagate_statement(st, env)->Ok_0.0 is Some
            ==> statement_normal(propagate_statement(st, env)->Ok_0.0->Some_0),
{
    reveal(propagate_statement);
    match st {
        StatementTerm::Return(es) => lemma_terms_result_normal(es, env),
        StatementTerm::Definition(v, e) => lemma_term_result_normal(e, env),
        StatementTerm::Declaration(_) => {},
        StatementTerm::Condition(a, b) => {
            lemma_term_result_normal(a, env);
            lemma_term_result_normal(b, env);
        },
        StatementTerm::For(..) => {},
        StatementTerm::MultipleDefinition(_, ExpressionListTerm::FunctionCall(_, args, _)) => {
            lemma_terms_result_normal(args, env);
        },
    }
}

proof fn lemma_statement_normal_fixed(st: StatementTerm)
    requires
        statement_normal(st),
    ensures
        propagate_statement(st, Environment::empty()) == Ok::<
            (Option<StatementTerm>, Environment),
            Error,
        >((Some(st), Environment::empty())),
{
    reveal(propagate_statement);
    match st {
        StatementTerm::Return(es) => lemma_terms_normal_fixed(es),
        StatementTerm::Definition(v, e) => lemma_term_normal_fixed(e),
        StatementTerm::Declaration(_) => {},
        StatementTerm::Condition(a, b) => {
            lemma_term_normal_fixed(a);
            lemma_term_normal_fixed(b);
        },
        StatementTerm::For(..) => {},
        StatementTerm::MultipleDefinition(_, ExpressionListTerm::FunctionCall(_, args, _)) => {
            lemma_terms_normal_fixed(args);
        },
    }
}

proof fn lemma_statements_result_normal(ss: Seq<StatementTerm>, env: Environment)
    ensures
        propagate_statements(ss, env) is Ok ==> forall|i: int|
            0 <= i < propagate_statements(ss, env)->Ok_0.0.len() ==> statement_normal(
                #[trigger] propagate_statements(ss, env)->Ok_0.0[i],
            ),
    decreases ss.len(),
{
    if ss.len() > 0 {
        lemma_statements_result_normal(ss.drop_last(), env);
        let prev = propagate_statements(ss.drop_last(), env);
        if prev is Ok {
            lemma_statement_result_normal(ss.last(), prev->Ok_0.1);
        }
    }
}

proof fn lemma_statements_normal_fixed(ss: Seq<StatementTerm>)
    requires
        forall|i: int| 0 <= i < ss.len() ==> statement_normal(#[trigger] ss[i]),
    ensures
        propagate_statements(ss, Environment::empty()) == Ok::<
            (Seq<StatementTerm>, Environment),
            Error,
        >((ss, Environment::empty())),
    decreases ss.len(),
{
    if ss.len() > 0 {
        lemma_statements_normal_fixed(ss.drop_last());
        lemma_statement_normal_fixed(ss.last());
        assert(ss.drop_last().push(ss.last()) =~= ss);
    } else {
        assert(ss =~= Seq::<StatementTerm>::empty());
    }
}

/// Propagating a propagated function changes nothing: one pass reaches a
/// fixed point.
pub proof fn lemma_function_idempotent(f: FunctionTerm)
    requires
        propagate_function(f) is Ok,
    ensures
        propagate_function(propagate_function(f)->Ok_0) == propagate_function(f),
{
    lemma_statements_result_normal(f.statements, Environment::empty());
    let g = propagate_function(f)->Ok_0;
    lemma_statements_normal_fixed(g.statements);
}

/// Propagating a propagated program changes nothing: one pass reaches a fixed
/// point.
pub proof fn lemma_program_idempotent(fs: Seq<FunctionTerm>)
    requires
        propagate_program(fs) is Ok,
    ensures
        propagate_program(propagate_program(fs)->Ok_0) == propagate_program(fs),
{
    let gs = propagate_program(fs)->Ok_0;
    lemma_functions_are_isolated(fs);
    assert forall|i: int| 0 <= i < gs.len() implies propagate_function(#[trigger] gs[i])
        == Ok::<FunctionTerm, Error>(gs[i]) by {
        assert(propagate_function(fs[i]) == Ok::<FunctionTerm, Error>(gs[i]));
        lemma_function_idempotent(fs[i]);
    }
    lemma_fixed_functions_fixed_program(gs);
}

proof fn lemma_fixed_functions_fixed_program(gs: Seq<FunctionTerm>)
    requires
        forall|i: int|
            0 <= i < gs.len() ==> propagate_function(#[trigger] gs[i]) == Ok::<FunctionTerm, Error>(
                gs[i],
            ),
    ensures
        propagate_program(gs) == Ok::<Seq<FunctionTerm>, Error>(gs),
    decreases gs.len(),
{
    if gs.len() > 0 {
        let init = gs.drop_last();
        assert forall|i: int| 0 <= i < init.len() implies propagate_function(#[trigger] init[i])
            == Ok::<FunctionTerm, Error>(init[i]) by {
            assert(init[i] == gs[i]);
        }
        lemma_fixed_functions_fixed_program(init);
        assert(propagate_function(gs.last()) == Ok::<FunctionTerm, Error>(gs[gs.len() - 1]));
        assert(init.push(gs.last()) =~= gs);
    } else {
        assert(gs =~= Seq::<FunctionTerm>::empty());
    }
}

} // verus!
