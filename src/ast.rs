use vstd::prelude::*;
use std::rc::Rc;

verus! {

/// The argument list of a call: expressions that are evaluated in the caller's scope.
pub struct Tuple {
    pub expressions: Vec<Expression>,
}

/// A user-defined function: its parameter names and its body.
pub struct Function {
    pub args: Vec<String>,
    pub scope: Scope,
}

/// The host's `print` builtin.
pub struct PrintFunction;

/// Something that can be called: a user-defined function or a builtin.
pub enum Callable {
    Function(Function),
    Print(PrintFunction),
}

#[derive(Clone, Copy, PartialEq, Eq, Structural)]
pub enum ExpressionType {
    Undefined,
    Value,
    Operation,
}

pub struct Expression {
    pub expression_type: ExpressionType,
    pub left: Option<Box<Expression>>,
    pub right: Option<Box<Expression>>,
    pub value: Option<Value>,
    pub operator: Option<String>,
}

pub enum Constant {
    Undefined,
    Integer(i64),
    Function(Rc<Callable>),
    Tuple(Rc<Tuple>),
}

#[derive(Clone, Copy, PartialEq, Eq, Structural)]
pub enum ValueType {
    Undefined,
    VariableName,
    Constant,
}

pub struct Value {
    pub value_type: ValueType,
    pub variable: Option<String>,
    pub constant: Option<Constant>,
}

pub enum Statement {
    Undefined,
    Expression(Expression),
    VariableDeclaration(Expression),
    ReturnStatement(Expression),
}

/// A sequence of statements together with its environment.
///
/// `parent` and the entries of `accessible_variables` and `return_value` are
/// indices into the arenas of a `Runtime`: scopes are held in `Runtime::scopes`
/// and variable cells in `Runtime::cells`.
pub struct Scope {
    pub statements: Rc<Vec<Statement>>,
    pub parent: Option<usize>,
    pub accessible_variables: Vec<usize>,
    pub return_value: Option<usize>,
}

/// Why a token sequence is not a program.
#[derive(Clone, Copy, PartialEq, Eq, Structural, Debug)]
pub enum ParseError {
    EmptyExpression,
    OperatorInsteadOfValue,
    EndsWithOperator,
    MissingOperator,
    ExpectedComma,
    ExpectedVariableName,
    UnexpectedToken,
    UnexpectedEnd,
    UnsupportedCharacter,
}

/// The value expression of a literal value.
pub open spec fn value_expression(v: Value) -> Expression {
    Expression {
        expression_type: ExpressionType::Value,
        left: None,
        right: None,
        value: Some(v),
        operator: None,
    }
}

/// The binary operation `l op r`.
pub open spec fn operation(l: Expression, op: String, r: Expression) -> Expression {
    Expression {
        expression_type: ExpressionType::Operation,
        left: Some(Box::new(l)),
        right: Some(Box::new(r)),
        value: None,
        operator: Some(op),
    }
}

/// A value is well formed when exactly the field its kind names is populated.
pub open spec fn value_wf(v: Value) -> bool {
    match v.value_type {
        ValueType::Undefined => v.variable.is_none() && v.constant.is_none(),
        ValueType::VariableName => v.variable.is_some() && v.constant.is_none(),
        ValueType::Constant => v.variable.is_none() && v.constant.is_some(),
    }
}

/// An expression of a finished tree: every operation has both children and an
/// operator, every value node a well-formed value, and no node is undefined.
pub open spec fn expression_wf(e: Expression) -> bool
    decreases e,
{
    match e.expression_type {
        ExpressionType::Undefined => false,
        ExpressionType::Value => e.value.is_some() && value_wf(e.value.unwrap()) && e.left.is_none()
            && e.right.is_none() && e.operator.is_none(),
        ExpressionType::Operation => e.value.is_none() && e.operator.is_some()
            && e.left.is_some() && e.right.is_some()
            && expression_wf(*e.left.unwrap()) && expression_wf(*e.right.unwrap()),
    }
}

/// A statement of a finished tree: not undefined, and its expression well formed.
pub open spec fn statement_wf(s: Statement) -> bool {
    match s {
        Statement::Undefined => false,
        Statement::Expression(e) => expression_wf(e),
        Statement::VariableDeclaration(e) => expression_wf(e),
        Statement::ReturnStatement(e) => expression_wf(e),
    }
}

impl Expression {
    pub fn new_value(v: Value) -> (r: Expression)
        ensures
            r == value_expression(v),
    {
        Expression {
            expression_type: ExpressionType::Value,
            left: None,
            right: None,
            value: Some(v),
            operator: None,
        }
    }

    pub fn new_operation(l: Expression, op: String, r: Expression) -> (e: Expression)
        ensures
            e == operation(l, op, r),
    {
        Expression {
            expression_type: ExpressionType::Operation,
            left: Some(Box::new(l)),
            right: Some(Box::new(r)),
            value: None,
            operator: Some(op),
        }
    }
}

impl Value {
    pub fn variable_name(name: String) -> (r: Value)
        ensures
            r == (Value { value_type: ValueType::VariableName, variable: Some(name), constant: None }),
    {
        Value { value_type: ValueType::VariableName, variable: Some(name), constant: None }
    }

    pub fn constant(c: Constant) -> (r: Value)
        ensures
            r == (Value { value_type: ValueType::Constant, variable: None, constant: Some(c) }),
    {
        Value { value_type: ValueType::Constant, variable: None, constant: Some(c) }
    }
}

} // verus!
