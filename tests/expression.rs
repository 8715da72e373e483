use zokrates_core::typed_absy::{BooleanExpression, FieldElementExpression, TypedFunction};
use zokrates_core::{Constants, FieldPrime, PropagateWithContext};

fn num(n: u64) -> Box<FieldElementExpression> {
    Box::new(FieldElementExpression::Number(FieldPrime::from(n)))
}

fn no_functions() -> Vec<TypedFunction> {
    vec![]
}

#[test]
fn add() {
    let e = FieldElementExpression::Add(num(2), num(3));
    assert_eq!(
        e.propagate(&mut Constants::new(), &no_functions()),
        Ok(FieldElementExpression::Number(FieldPrime::from(5)))
    );
}

#[test]
fn sub() {
    let e = FieldElementExpression::Sub(num(3), num(2));
    assert_eq!(
        e.propagate(&mut Constants::new(), &no_functions()),
        Ok(FieldElementExpression::Number(FieldPrime::from(1)))
    );
}

#[test]
fn mult() {
    let e = FieldElementExpression::Mult(num(3), num(2));
    assert_eq!(
        e.propagate(&mut Constants::new(), &no_functions()),
        Ok(FieldElementExpression::Number(FieldPrime::from(6)))
    );
}

#[test]
fn div() {
    let e = FieldElementExpression::Div(num(6), num(2));
    assert_eq!(
        e.propagate(&mut Constants::new(), &no_functions()),
        Ok(FieldElementExpression::Number(FieldPrime::from(3)))
    );
}

#[test]
fn pow() {
    let e = FieldElementExpression::Pow(num(2), num(3));
    assert_eq!(
        e.propagate(&mut Constants::new(), &no_functions()),
        Ok(FieldElementExpression::Number(FieldPrime::from(8)))
    );
}

#[test]
fn if_else_true() {
    let e = FieldElementExpression::IfElse(
        Box::new(BooleanExpression::Value(true)),
        num(2),
        num(3),
    );
    assert_eq!(
        e.propagate(&mut Constants::new(), &no_functions()),
        Ok(FieldElementExpression::Number(FieldPrime::from(2)))
    );
}

#[test]
fn if_else_false() {
    let e = FieldElementExpression::IfElse(
        Box::new(BooleanExpression::Value(false)),
        num(2),
        num(3),
    );
    assert_eq!(
        e.propagate(&mut Constants::new(), &no_functions()),
        Ok(FieldElementExpression::Number(FieldPrime::from(3)))
    );
}

#[test]
fn eq() {
    let e_true = BooleanExpression::Eq(num(2), num(2));
    let e_false = BooleanExpression::Eq(num(4), num(2));
    assert_eq!(
        e_true.propagate(&mut Constants::new(), &no_functions()),
        Ok(BooleanExpression::Value(true))
    );
    assert_eq!(
        e_false.propagate(&mut Constants::new(), &no_functions()),
        Ok(BooleanExpression::Value(false))
    );
}

#[test]
fn lt() {
    let e_true = BooleanExpression::Lt(num(2), num(4));
    let e_false = BooleanExpression::Lt(num(4), num(2));
    assert_eq!(
        e_true.propagate(&mut Constants::new(), &no_functions()),
        Ok(BooleanExpression::Value(true))
    );
    assert_eq!(
        e_false.propagate(&mut Constants::new(), &no_functions()),
        Ok(BooleanExpression::Value(false))
    );
}

#[test]
fn le() {
    let e_true = BooleanExpression::Le(num(2), num(2));
    let e_false = BooleanExpression::Le(num(4), num(2));
    assert_eq!(
        e_true.propagate(&mut Constants::new(), &no_functions()),
        Ok(BooleanExpression::Value(true))
    );
    assert_eq!(
        e_false.propagate(&mut Constants::new(), &no_functions()),
        Ok(BooleanExpression::Value(false))
    );
}

#[test]
fn gt() {
    let e_true = BooleanExpression::Gt(num(5), num(4));
    let e_false = BooleanExpression::Gt(num(4), num(5));
    assert_eq!(
        e_true.propagate(&mut Constants::new(), &no_functions()),
        Ok(BooleanExpression::Value(true))
    );
    assert_eq!(
        e_false.propagate(&mut Constants::new(), &no_functions()),
        Ok(BooleanExpression::Value(false))
    );
}

#[test]
fn ge() {
    let e_true = BooleanExpression::Ge(num(5), num(5));
    let e_false = BooleanExpression::Ge(num(4), num(5));
    assert_eq!(
        e_true.propagate(&mut Constants::new(), &no_functions()),
        Ok(BooleanExpression::Value(true))
    );
    assert_eq!(
        e_false.propagate(&mut Constants::new(), &no_functions()),
        Ok(BooleanExpression::Value(false))
    );
}
