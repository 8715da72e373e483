use zokrates_core::field::{MAX_EXPONENT, MODULUS};
use zokrates_core::typed_absy::{
    BooleanExpression, FieldElementExpression, Signature, Type, TypedExpression,
    TypedExpressionList, TypedFunction, TypedProg, TypedStatement, Variable,
};
use zokrates_core::{Constants, Error, FieldPrime, Propagate, PropagateWithContext};

fn num(n: u64) -> Box<FieldElementExpression> {
    Box::new(FieldElementExpression::Number(FieldPrime::from(n)))
}

fn field_id(name: &str) -> Box<FieldElementExpression> {
    Box::new(FieldElementExpression::Identifier(String::from(name)))
}

fn field(e: FieldElementExpression) -> TypedExpression {
    TypedExpression::FieldElement(e)
}

fn function(id: &str, statements: Vec<TypedStatement>) -> TypedFunction {
    TypedFunction {
        id: String::from(id),
        arguments: vec![],
        statements,
        signature: Signature { inputs: vec![], outputs: vec![Type::FieldElement] },
    }
}

#[test]
fn definitions_fold_into_return() {
    let f = function(
        "main",
        vec![
            TypedStatement::Definition(
                Variable::field_element(String::from("x")),
                field(FieldElementExpression::Number(FieldPrime::from(2))),
            ),
            TypedStatement::Definition(
                Variable::field_element(String::from("y")),
                field(FieldElementExpression::Add(field_id("x"), num(3))),
            ),
            TypedStatement::Return(vec![field(*field_id("y"))]),
        ],
    );
    let g = f.propagate(&vec![]).unwrap();
    assert_eq!(
        g.statements,
        vec![TypedStatement::Return(vec![field(FieldElementExpression::Number(
            FieldPrime::from(5)
        ))])]
    );
    assert_eq!(g.id, "main");
    assert_eq!(g.signature.outputs, vec![Type::FieldElement]);
}

#[test]
fn constants_do_not_cross_functions() {
    let first = function(
        "first",
        vec![
            TypedStatement::Definition(
                Variable::field_element(String::from("x")),
                field(FieldElementExpression::Number(FieldPrime::from(7))),
            ),
            TypedStatement::Return(vec![field(*field_id("x"))]),
        ],
    );
    let second = function(
        "second",
        vec![
            TypedStatement::Declaration(Variable::field_element(String::from("x"))),
            TypedStatement::Return(vec![field(*field_id("x"))]),
        ],
    );
    let p = TypedProg { functions: vec![first, second] }.propagate().unwrap();
    assert_eq!(p.functions.len(), 2);
    assert_eq!(
        p.functions[0].statements,
        vec![TypedStatement::Return(vec![field(FieldElementExpression::Number(
            FieldPrime::from(7)
        ))])]
    );
    assert_eq!(
        p.functions[1].statements,
        vec![
            TypedStatement::Declaration(Variable::field_element(String::from("x"))),
            TypedStatement::Return(vec![field(*field_id("x"))]),
        ]
    );
}

#[test]
fn propagating_twice_changes_nothing() {
    let make = || {
        TypedProg {
            functions: vec![function(
                "main",
                vec![
                    TypedStatement::Definition(
                        Variable::field_element(String::from("a")),
                        field(FieldElementExpression::Mult(num(4), num(5))),
                    ),
                    TypedStatement::Definition(
                        Variable::field_element(String::from("b")),
                        field(FieldElementExpression::Add(field_id("a"), field_id("input"))),
                    ),
                    TypedStatement::Condition(field(*field_id("b")), field(*num(20))),
                    TypedStatement::Return(vec![field(*field_id("b"))]),
                ],
            )],
        }
    };
    let once = make().propagate().unwrap();
    let twice = make().propagate().unwrap().propagate().unwrap();
    assert_eq!(once, twice);
    assert_eq!(
        once.functions[0].statements[0],
        TypedStatement::Definition(
            Variable::field_element(String::from("b")),
            field(FieldElementExpression::Add(num(20), field_id("input"))),
        )
    );
}

#[test]
fn loop_is_refused() {
    let f = function(
        "main",
        vec![
            TypedStatement::For(
                Variable::field_element(String::from("i")),
                FieldPrime::from(0),
                FieldPrime::from(3),
                vec![],
            ),
            TypedStatement::Return(vec![field(*num(1))]),
        ],
    );
    assert_eq!(TypedProg { functions: vec![f] }.propagate(), Err(Error::LoopNotUnrolled));
}

#[test]
fn division_by_zero_is_reported() {
    let e = FieldElementExpression::Div(num(6), Box::new(FieldElementExpression::Sub(num(2), num(2))));
    assert_eq!(
        e.propagate(&mut Constants::new(), &vec![]),
        Err(Error::DivisionByZero(FieldPrime::from(6)))
    );
}

#[test]
fn exponent_above_bound_is_reported() {
    let e = FieldElementExpression::Pow(num(2), num(MAX_EXPONENT + 1));
    assert_eq!(
        e.propagate(&mut Constants::new(), &vec![]),
        Err(Error::ExponentTooLarge(FieldPrime::from(2), FieldPrime::from(MAX_EXPONENT + 1)))
    );
    let ok = FieldElementExpression::Pow(num(1), num(MAX_EXPONENT));
    assert_eq!(
        ok.propagate(&mut Constants::new(), &vec![]),
        Ok(FieldElementExpression::Number(FieldPrime::from(1)))
    );
}

#[test]
fn subtraction_wraps_around_the_modulus() {
    let e = FieldElementExpression::Sub(num(2), num(3));
    assert_eq!(
        e.propagate(&mut Constants::new(), &vec![]),
        Ok(FieldElementExpression::Number(FieldPrime::from(MODULUS - 1)))
    );
    let s = FieldElementExpression::Add(num(MODULUS - 1), num(2));
    assert_eq!(
        s.propagate(&mut Constants::new(), &vec![]),
        Ok(FieldElementExpression::Number(FieldPrime::from(1)))
    );
}

#[test]
fn large_products_and_inverses() {
    // (p - 1)^2 = 1 and 1 / 3 * 3 = 1
    let sq = FieldElementExpression::Mult(num(MODULUS - 1), num(MODULUS - 1));
    assert_eq!(
        sq.propagate(&mut Constants::new(), &vec![]),
        Ok(FieldElementExpression::Number(FieldPrime::from(1)))
    );
    let third = FieldElementExpression::Div(num(1), num(3));
    let back = FieldElementExpression::Mult(Box::new(third), num(3));
    assert_eq!(
        back.propagate(&mut Constants::new(), &vec![]),
        Ok(FieldElementExpression::Number(FieldPrime::from(1)))
    );
    assert_eq!(FieldPrime::from(MODULUS).value(), 0);
    assert_eq!(FieldPrime::from(7).pow(0).value(), 1);
    assert_eq!(FieldPrime::from(3).pow(40).value(), 12157665459056928801 % MODULUS);
}

#[test]
fn operands_that_stay_open_keep_the_operator() {
    let e = FieldElementExpression::Div(field_id("a"), Box::new(FieldElementExpression::Add(num(1), num(1))));
    assert_eq!(
        e.propagate(&mut Constants::new(), &vec![]),
        Ok(FieldElementExpression::Div(field_id("a"), num(2)))
    );
    let c = BooleanExpression::Lt(num(1), field_id("a"));
    assert_eq!(
        c.propagate(&mut Constants::new(), &vec![]),
        Ok(BooleanExpression::Lt(num(1), field_id("a")))
    );
    let i = FieldElementExpression::IfElse(
        Box::new(BooleanExpression::Identifier(String::from("c"))),
        Box::new(FieldElementExpression::Pow(num(3), num(2))),
        field_id("a"),
    );
    assert_eq!(
        i.propagate(&mut Constants::new(), &vec![]),
        Ok(FieldElementExpression::IfElse(
            Box::new(BooleanExpression::Identifier(String::from("c"))),
            num(9),
            field_id("a"),
        ))
    );
}

#[test]
fn discarded_branch_error_is_dropped() {
    let e = FieldElementExpression::IfElse(
        Box::new(BooleanExpression::Eq(num(1), num(1))),
        num(4),
        Box::new(FieldElementExpression::Div(num(1), num(0))),
    );
    assert_eq!(
        e.propagate(&mut Constants::new(), &vec![]),
        Ok(FieldElementExpression::Number(FieldPrime::from(4)))
    );
}

#[test]
fn kinds_are_separate_keys() {
    let f = function(
        "main",
        vec![
            TypedStatement::Definition(
                Variable::boolean(String::from("x")),
                TypedExpression::Boolean(BooleanExpression::Value(true)),
            ),
            TypedStatement::Definition(
                Variable::field_element(String::from("y")),
                field(FieldElementExpression::IfElse(
                    Box::new(BooleanExpression::Identifier(String::from("x"))),
                    field_id("x"),
                    num(0),
                )),
            ),
            TypedStatement::Return(vec![field(*field_id("y"))]),
        ],
    );
    let g = f.propagate(&vec![]).unwrap();
    assert_eq!(
        g.statements,
        vec![
            TypedStatement::Definition(Variable::field_element(String::from("y")), field(*field_id("x"))),
            TypedStatement::Return(vec![field(*field_id("y"))]),
        ]
    );
}

#[test]
fn calls_and_conditions_are_kept() {
    let call = TypedExpressionList::FunctionCall(
        String::from("g"),
        vec![field(FieldElementExpression::Add(num(1), num(2)))],
        vec![Type::FieldElement, Type::FieldElement],
    );
    let f = function(
        "main",
        vec![
            TypedStatement::MultipleDefinition(
                vec![
                    Variable::field_element(String::from("a")),
                    Variable::field_element(String::from("b")),
                ],
                call,
            ),
            TypedStatement::Condition(field(*num(1)), field(FieldElementExpression::Sub(num(3), num(2)))),
            TypedStatement::Return(vec![field(FieldElementExpression::FunctionCall(
                String::from("h"),
                vec![field(*num(4)), field(FieldElementExpression::Mult(field_id("a"), num(2)))],
            ))]),
        ],
    );
    let g = f.propagate(&vec![]).unwrap();
    assert_eq!(
        g.statements,
        vec![
            TypedStatement::MultipleDefinition(
                vec![
                    Variable::field_element(String::from("a")),
                    Variable::field_element(String::from("b")),
                ],
                TypedExpressionList::FunctionCall(
                    String::from("g"),
                    vec![field(*num(3))],
                    vec![Type::FieldElement, Type::FieldElement],
                ),
            ),
            TypedStatement::Condition(field(*num(1)), field(*num(1))),
            TypedStatement::Return(vec![field(FieldElementExpression::FunctionCall(
                String::from("h"),
                vec![field(*num(4)), field(FieldElementExpression::Mult(field_id("a"), num(2)))],
            ))]),
        ]
    );
}

#[test]
fn environment_lookups() {
    let mut c = Constants::new();
    c.insert_field_element(String::from("x"), FieldPrime::from(3));
    c.insert_field_element(String::from("x"), FieldPrime::from(4));
    c.insert_boolean(String::from("x"), false);
    assert_eq!(c.get_field_element(&String::from("x")), Some(FieldPrime::from(4)));
    assert_eq!(c.get_boolean(&String::from("x")), Some(false));
    assert_eq!(c.get_boolean(&String::from("y")), None);
}
