use std::rc::Rc;

use interpreter::ast::{Callable, Constant, Expression, ExpressionType, Function, PrintFunction, Scope, Tuple, Value};
use interpreter::constructors::{construct_variable, construct_variable_from_integer};
use interpreter::executor::{call, execute_expression, execute_scope, EvalError, Runtime, VVA};

fn empty_scope() -> Scope {
    Scope { statements: Rc::new(Vec::new()), parent: None, accessible_variables: Vec::new(), return_value: None }
}

fn integer(i: i64) -> Expression {
    Expression::new_value(Value::constant(Constant::Integer(i)))
}

fn name(n: &str) -> Expression {
    Expression::new_value(Value::variable_name(n.to_string()))
}

fn integer_in(rt: &Runtime, cell: usize) -> Option<i64> {
    match rt.cells[cell].constant {
        Constant::Integer(i) => Some(i),
        _ => None,
    }
}

#[test]
fn calling_with_a_non_tuple_is_an_error() {
    let mut rt = Runtime::new(empty_scope());
    let f = Constant::Function(Rc::new(Callable::Function(Function { args: Vec::new(), scope: empty_scope() })));
    rt.bind_host_value(0, "f".to_string(), f);
    let e = Expression::new_operation(name("f"), "(".to_string(), integer(1));
    assert!(matches!(execute_expression(&mut rt, &e, 0, 10), Err(EvalError::NotATuple)));
}

#[test]
fn value_node_without_value_is_malformed() {
    let mut rt = Runtime::new(empty_scope());
    let e = Expression { expression_type: ExpressionType::Value, left: None, right: None, value: None, operator: None };
    assert!(matches!(execute_expression(&mut rt, &e, 0, 10), Err(EvalError::MalformedExpression)));
}

#[test]
fn names_stay_unresolved_until_used() {
    let mut rt = Runtime::new(empty_scope());
    let r = execute_expression(&mut rt, &name("x"), 0, 10);
    assert!(matches!(r, Ok(VVA::Value(_))));
    assert_eq!(rt.cells.len(), 0);
}

#[test]
fn unbound_name_gets_a_fresh_cell_outside_every_scope() {
    let mut rt = Runtime::new(empty_scope());
    let c = construct_variable(&mut rt, Value::variable_name("zz".to_string()), 0).unwrap();
    assert!(matches!(rt.cells[c].constant, Constant::Undefined));
    assert_eq!(rt.cells[c].name.as_deref(), Some("zz"));
    assert_eq!(rt.scopes[0].accessible_variables.len(), 0);
}

#[test]
fn lookup_prefers_the_nearest_scope() {
    let mut rt = Runtime::new(empty_scope());
    let outer = rt.bind_host_value(0, "v".to_string(), Constant::Integer(1));
    let mut inner = empty_scope();
    inner.parent = Some(0);
    rt.scopes.push(inner);
    assert_eq!(rt.lookup(1, &"v".to_string()), Some(outer));
    let near = rt.bind_host_value(1, "v".to_string(), Constant::Integer(2));
    assert_eq!(rt.lookup(1, &"v".to_string()), Some(near));
    assert_eq!(rt.lookup(0, &"v".to_string()), Some(outer));
}

#[test]
fn member_access_finds_named_member() {
    let mut rt = Runtime::new(empty_scope());
    let owner = construct_variable_from_integer(&mut rt, 0);
    let m = rt.new_cell(Some("len".to_string()), Constant::Integer(3));
    rt.cells[owner].members.push(m);
    assert_eq!(rt.member(owner, &"len".to_string()), Ok(m));
    assert_eq!(rt.member(owner, &"size".to_string()), Err(EvalError::NoSuchMember));
}

#[test]
fn dot_reads_a_member_by_name() {
    let mut rt = Runtime::new(empty_scope());
    let owner = rt.bind_host_value(0, "o".to_string(), Constant::Integer(0));
    let m = rt.new_cell(Some("len".to_string()), Constant::Integer(3));
    rt.cells[owner].members.push(m);
    let e = Expression::new_operation(name("o"), ".".to_string(), name("len"));
    assert!(matches!(execute_expression(&mut rt, &e, 0, 10), Ok(VVA::Variable(c)) if c == m));
}

#[test]
fn assignment_copies_value_and_members() {
    let mut rt = Runtime::new(empty_scope());
    let a = construct_variable_from_integer(&mut rt, 1);
    let b = construct_variable_from_integer(&mut rt, 2);
    let m = rt.new_cell(Some("k".to_string()), Constant::Integer(9));
    rt.cells[b].members.push(m);
    assert_eq!(rt.apply_value_operator(a, b, &"=".to_string()), Ok(a));
    assert_eq!(integer_in(&rt, a), Some(2));
    assert_eq!(rt.cells[a].members, vec![m]);
}

#[test]
fn arithmetic_makes_new_cell_and_compound_updates_left() {
    let mut rt = Runtime::new(empty_scope());
    let a = construct_variable_from_integer(&mut rt, 7);
    let b = construct_variable_from_integer(&mut rt, -2);
    let sum = rt.apply_value_operator(a, b, &"/".to_string()).unwrap();
    assert_eq!(integer_in(&rt, sum), Some(-3));
    assert_eq!(integer_in(&rt, a), Some(7));
    assert_eq!(rt.apply_value_operator(a, b, &"*=".to_string()), Ok(a));
    assert_eq!(integer_in(&rt, a), Some(-14));
    assert_eq!(rt.apply_value_operator(a, b, &"%".to_string()), Err(EvalError::UnknownOperator));
}

#[test]
fn print_records_each_argument() {
    let mut rt = Runtime::new(empty_scope());
    let args = Rc::new(Tuple { expressions: vec![integer(4), integer(5)] });
    let printer = Rc::new(Callable::Print(PrintFunction));
    let r = call(&mut rt, &printer, &args, 0, 5).unwrap();
    assert!(matches!(rt.cells[r].constant, Constant::Undefined));
    assert_eq!(rt.output.len(), 2);
    assert!(matches!(rt.output[1], Constant::Integer(5)));
}

#[test]
fn call_without_depth_left_fails() {
    let mut rt = Runtime::new(empty_scope());
    let args = Rc::new(Tuple { expressions: Vec::new() });
    let f = Rc::new(Callable::Function(Function { args: Vec::new(), scope: empty_scope() }));
    assert_eq!(call(&mut rt, &f, &args, 0, 0), Err(EvalError::CallDepthExceeded));
}

#[test]
fn empty_scope_returns_nothing() {
    let mut rt = Runtime::new(empty_scope());
    assert!(matches!(execute_scope(&mut rt, 0, 5), Ok(None)));
}
