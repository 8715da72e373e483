//! The typed, loop-free program representation that constant propagation rewrites.
use crate::field::FieldPrime;
use vstd::prelude::*;

verus! {

/// The kind of value a variable or an expression holds.
#[derive(Clone, Copy, Debug, PartialEq, Eq, Structural)]
pub enum Type {
    FieldElement,
    Boolean,
}

/// A variable: a name together with the kind of value it holds.
#[derive(Clone, Debug, PartialEq, Eq)]
pub struct Variable {
    pub id: String,
    pub _type: Type,
}

impl Variable {
    pub fn field_element(id: String) -> (r: Variable)
        ensures
            r.id == id,
            r._type == Type::FieldElement,
    {
        Variable { id, _type: Type::FieldElement }
    }

    pub fn boolean(id: String) -> (r: Variable)
        ensures
            r.id == id,
            r._type == Type::Boolean,
    {
        Variable { id, _type: Type::Boolean }
    }
}

/// An expression whose value is a field element.
#[derive(Debug, PartialEq, Eq)]
pub enum FieldElementExpression {
    Number(FieldPrime),
    Identifier(String),
    Add(Box<FieldElementExpression>, Box<FieldElementExpression>),
    Sub(Box<FieldElementExpression>, Box<FieldElementExpression>),
    Mult(Box<FieldElementExpression>, Box<FieldElementExpression>),
    Div(Box<FieldElementExpression>, Box<FieldElementExpression>),
    Pow(Box<FieldElementExpression>, Box<FieldElementExpression>),
    IfElse(Box<BooleanExpression>, Box<FieldElementExpression>, Box<FieldElementExpression>),
    FunctionCall(String, Vec<TypedExpression>),
}

/// An expression whose value is a boolean.
#[derive(Debug, PartialEq, Eq)]
pub enum BooleanExpression {
    Identifier(String),
    Value(bool),
    Lt(Box<FieldElementExpression>, Box<FieldElementExpression>),
    Le(Box<FieldElementExpression>, Box<FieldElementExpression>),
    Eq(Box<FieldElementExpression>, Box<FieldElementExpression>),
    Ge(Box<FieldElementExpression>, Box<FieldElementExpression>),
    Gt(Box<FieldElementExpression>, Box<FieldElementExpression>),
}

/// An expression of either kind.
#[derive(Debug, PartialEq, Eq)]
pub enum TypedExpression {
    Boolean(BooleanExpression),
    FieldElement(FieldElementExpression),
}

/// An expression that yields several values at once.
#[derive(Debug, PartialEq, Eq)]
pub enum TypedExpressionList {
    /// A call: the function's name, its arguments and the kinds it returns.
    FunctionCall(String, Vec<TypedExpression>, Vec<Type>),
}

#[derive(Debug, PartialEq, Eq)]
pub enum TypedStatement {
    Return(Vec<TypedExpression>),
    Definition(Variable, TypedExpression),
    Declaration(Variable),
    /// An assertion that both expressions are equal.
    Condition(TypedExpression, TypedExpression),
    /// A bounded loop: its variable, its bounds and its body.
    For(Variable, FieldPrime, FieldPrime, Vec<TypedStatement>),
    MultipleDefinition(Vec<Variable>, TypedExpressionList),
}

#[derive(Clone, Debug, PartialEq, Eq)]
pub struct Parameter {
    pub id: Variable,
    pub private: bool,
}

#[derive(Clone, Debug, PartialEq, Eq)]
pub struct Signature {
    pub inputs: Vec<Type>,
    pub outputs: Vec<Type>,
}

#[derive(Debug, PartialEq, Eq)]
pub struct TypedFunction {
    pub id: String,
    pub arguments: Vec<Parameter>,
    pub statements: Vec<TypedStatement>,
    pub signature: Signature,
}

#[derive(Debug, PartialEq, Eq)]
pub struct TypedProg {
    pub functions: Vec<TypedFunction>,
}

/// The mathematical form of a field-element expression: names as character
/// sequences and argument lists as sequences.
pub enum FieldTerm {
    Number(FieldPrime),
    Identifier(Seq<char>),
    Add(Box<FieldTerm>, Box<FieldTerm>),
    Sub(Box<FieldTerm>, Box<FieldTerm>),
    Mult(Box<FieldTerm>, Box<FieldTerm>),
    Div(Box<FieldTerm>, Box<FieldTerm>),
    Pow(Box<FieldTerm>, Box<FieldTerm>),
    IfElse(Box<BoolTerm>, Box<FieldTerm>, Box<FieldTerm>),
    FunctionCall(Seq<char>, Seq<Term>),
}

/// The mathematical form of a boolean expression.
pub enum BoolTerm {
    Identifier(Seq<char>),
    Value(bool),
    Lt(Box<FieldTerm>, Box<FieldTerm>),
    Le(Box<FieldTerm>, Box<FieldTerm>),
    Eq(Box<FieldTerm>, Box<FieldTerm>),
    Ge(Box<FieldTerm>, Box<FieldTerm>),
    Gt(Box<FieldTerm>, Box<FieldTerm>),
}

/// The mathematical form of an expression of either kind.
pub enum Term {
    Boolean(BoolTerm),
    FieldElement(FieldTerm),
}

/// The mathematical form of a statement. A loop keeps its variable and bounds;
/// its body plays no part in propagation.
pub enum StatementTerm {
    Return(Seq<Term>),
    Definition(Variable, Term),
    Declaration(Variable),
    Condition(Term, Term),
    For(Variable, FieldPrime, FieldPrime),
    MultipleDefinition(Seq<Variable>, ExpressionListTerm),
}

/// The mathematical form of an expression that yields several values.
pub enum ExpressionListTerm {
    FunctionCall(Seq<char>, Seq<Term>, Seq<Type>),
}

/// The mathematical form of a function.
pub struct FunctionTerm {
    pub id: Seq<char>,
    pub arguments: Seq<Parameter>,
    pub inputs: Seq<Type>,
    pub outputs: Seq<Type>,
    pub statements: Seq<StatementTerm>,
}

pub open spec fn field_term(e: FieldElementExpression) -> FieldTerm
    decreases e,
{
    match e {
        FieldElementExpression::Number(n) => FieldTerm::Number(n),
        FieldElementExpression::Identifier(id) => FieldTerm::Identifier(id@),
        FieldElementExpression::Add(a, b) => FieldTerm::Add(
            Box::new(field_term(*a)),
            Box::new(field_term(*b)),
        ),
        FieldElementExpression::Sub(a, b) => FieldTerm::Sub(
            Box::new(field_term(*a)),
            Box::new(field_term(*b)),
        ),
        FieldElementExpression::Mult(a, b) => FieldTerm::Mult(
            Box::new(field_term(*a)),
            Box::new(field_term(*b)),
        ),
        FieldElementExpression::Div(a, b) => FieldTerm::Div(
            Box::new(field_term(*a)),
            Box::new(field_term(*b)),
        ),
        FieldElementExpression::Pow(a, b) => FieldTerm::Pow(
            Box::new(field_term(*a)),
            Box::new(field_term(*b)),
        ),
        FieldElementExpression::IfElse(c, a, b) => FieldTerm::IfElse(
            Box::new(bool_term(*c)),
            Box::new(field_term(*a)),
            Box::new(field_term(*b)),
        ),
        FieldElementExpression::FunctionCall(id, args) => FieldTerm::FunctionCall(
            id@,
            terms(args@),
        ),
    }
}

pub open spec fn bool_term(e: BooleanExpression) -> BoolTerm
    decreases e,
{
    match e {
        BooleanExpression::Identifier(id) => BoolTerm::Identifier(id@),
        BooleanExpression::Value(v) => BoolTerm::Value(v),
        BooleanExpression::Lt(a, b) => BoolTerm::Lt(
            Box::new(field_term(*a)),
            Box::new(field_term(*b)),
        ),
        BooleanExpression::Le(a, b) => BoolTerm::Le(
            Box::new(field_term(*a)),
            Box::new(field_term(*b)),
        ),
        BooleanExpression::Eq(a, b) => BoolTerm::Eq(
            Box::new(field_term(*a)),
            Box::new(field_term(*b)),
        ),
        BooleanExpression::Ge(a, b) => BoolTerm::Ge(
            Box::new(field_term(*a)),
            Box::new(field_term(*b)),
        ),
        BooleanExpression::Gt(a, b) => BoolTerm::Gt(
            Box::new(field_term(*a)),
            Box::new(field_term(*b)),
        ),
    }
}

pub open spec fn term(e: TypedExpression) -> Term
    decreases e,
{
    match e {
        TypedExpression::Boolean(b) => Term::Boolean(bool_term(b)),
        TypedExpression::FieldElement(f) => Term::FieldElement(field_term(f)),
    }
}

/// The terms of a sequence of expressions, one for one.
pub open spec fn terms(s: Seq<TypedExpression>) -> Seq<Term>
    decreases s,
{
    if s.len() == 0 {
        Seq::empty()
    } else {
        terms(s.subrange(0, s.len() - 1)).push(term(s[s.len() - 1]))
    }
}

pub open spec fn statement_term(s: TypedStatement) -> StatementTerm {
    match s {
        TypedStatement::Return(es) => StatementTerm::Return(terms(es@)),
        TypedStatement::Definition(v, e) => StatementTerm::Definition(v, term(e)),
        TypedStatement::Declaration(v) => StatementTerm::Declaration(v),
        TypedStatement::Condition(a, b) => StatementTerm::Condition(term(a), term(b)),
        TypedStatement::For(v, from, to, _) => StatementTerm::For(v, from, to),
        TypedStatement::MultipleDefinition(vs, l) => StatementTerm::MultipleDefinition(vs@, l@),
    }
}

impl View for FieldElementExpression {
    type V = FieldTerm;

    open spec fn view(&self) -> FieldTerm {
        field_term(*self)
    }
}

impl View for BooleanExpression {
    type V = BoolTerm;

    open spec fn view(&self) -> BoolTerm {
        bool_term(*self)
    }
}

impl View for TypedExpression {
    type V = Term;

    open spec fn view(&self) -> Term {
        term(*self)
    }
}

impl View for TypedExpressionList {
    type V = ExpressionListTerm;

    open spec fn view(&self) -> ExpressionListTerm {
        match *self {
            TypedExpressionList::FunctionCall(id, args, tys) => ExpressionListTerm::FunctionCall(
                id@,
                terms(args@),
                tys@,
            ),
        }
    }
}

impl View for TypedStatement {
    type V = StatementTerm;

    open spec fn view(&self) -> StatementTerm {
        statement_term(*self)
    }
}

impl View for TypedFunction {
    type V = FunctionTerm;

    open spec fn view(&self) -> FunctionTerm {
        FunctionTerm {
            id: self.id@,
            arguments: self.arguments@,
            inputs: self.signature.inputs@,
            outputs: self.signature.outputs@,
            statements: self.statements@.map_values(|s: TypedStatement| s@),
        }
    }
}

impl View for TypedProg {
    type V = Seq<FunctionTerm>;

    open spec fn view(&self) -> Seq<FunctionTerm> {
        self.functions@.map_values(|f: TypedFunction| f@)
    }
}

} // verus!
