use interpreter::ast::{Constant, Expression, ExpressionType, Statement, ValueType};
use interpreter::fold::{build_expression, ExprObj};
use interpreter::literal::parse_integer;
use interpreter::operators::{get_operator_priority, operator_exists};
use interpreter::program::standard_operators;

fn tokens(words: &[&str]) -> Vec<String> {
    words.iter().map(|w| w.to_string()).collect()
}

fn integer_of(e: &Expression) -> Option<i64> {
    match e.expression_type {
        ExpressionType::Value => match &e.value.as_ref().unwrap().constant {
            Some(Constant::Integer(i)) => Some(*i),
            _ => None,
        },
        _ => None,
    }
}

fn name_of(e: &Expression) -> Option<String> {
    match e.expression_type {
        ExpressionType::Value => e.value.as_ref().unwrap().variable.clone(),
        _ => None,
    }
}

fn operator_of(e: &Expression) -> String {
    e.operator.clone().unwrap()
}

fn parse_expression(words: &[&str]) -> Expression {
    let (ops, prios) = standard_operators();
    let t = tokens(words);
    let mut it: usize = 0;
    Expression::parse(&t, &ops, &prios, &mut it, t.len()).expect("expression parses")
}

#[test]
fn lower_precedence_is_outer() {
    let e = parse_expression(&["1", "+", "2", "*", "3"]);
    assert_eq!(operator_of(&e), "+");
    assert_eq!(integer_of(e.left.as_ref().unwrap()), Some(1));
    let r = e.right.as_ref().unwrap();
    assert_eq!(operator_of(r), "*");
    assert_eq!(integer_of(r.left.as_ref().unwrap()), Some(2));
    assert_eq!(integer_of(r.right.as_ref().unwrap()), Some(3));
}

#[test]
fn equal_precedence_associates_left() {
    let e = parse_expression(&["a", "-", "b", "-", "c"]);
    assert_eq!(operator_of(&e), "-");
    assert_eq!(name_of(e.right.as_ref().unwrap()), Some("c".to_string()));
    let l = e.left.as_ref().unwrap();
    assert_eq!(operator_of(l), "-");
    assert_eq!(name_of(l.left.as_ref().unwrap()), Some("a".to_string()));
    assert_eq!(name_of(l.right.as_ref().unwrap()), Some("b".to_string()));
}

#[test]
fn assignment_binds_loosest() {
    let e = parse_expression(&["x", "=", "1", "+", "2"]);
    assert_eq!(operator_of(&e), "=");
    assert_eq!(operator_of(e.right.as_ref().unwrap()), "+");
}

#[test]
fn call_becomes_paren_operator_with_tuple() {
    let e = parse_expression(&["f", "(", "1", ",", "2", ")"]);
    assert_eq!(operator_of(&e), "(");
    assert_eq!(name_of(e.left.as_ref().unwrap()), Some("f".to_string()));
    let r = e.right.as_ref().unwrap();
    match &r.value.as_ref().unwrap().constant {
        Some(Constant::Tuple(t)) => assert_eq!(t.expressions.len(), 2),
        _ => panic!("expected an argument tuple"),
    }
}

#[test]
fn expression_stops_at_terminator() {
    let (ops, prios) = standard_operators();
    let t = tokens(&["1", "+", "2", ";", "3"]);
    let mut it: usize = 0;
    let e = Expression::parse(&t, &ops, &prios, &mut it, t.len()).unwrap();
    assert_eq!(it, 3);
    assert_eq!(operator_of(&e), "+");
}

#[test]
fn statement_kinds() {
    let (ops, prios) = standard_operators();
    let t = tokens(&["let", "a", "=", "1", ";", "return", "a", ";", "a", ";"]);
    let mut it: usize = 0;
    assert!(matches!(Statement::parse(&t, &ops, &prios, &mut it, t.len()), Ok(Statement::VariableDeclaration(_))));
    assert_eq!(it, 4);
    it = 5;
    assert!(matches!(Statement::parse(&t, &ops, &prios, &mut it, t.len()), Ok(Statement::ReturnStatement(_))));
    assert_eq!(it, 7);
    it = 8;
    assert!(matches!(Statement::parse(&t, &ops, &prios, &mut it, t.len()), Ok(Statement::Expression(_))));
    assert_eq!(it, 9);
}

#[test]
fn scope_parse_stops_at_closing_brace() {
    let (ops, prios) = standard_operators();
    let t = tokens(&["a", "=", "1", ";", "b", "=", "2", "}", "c"]);
    let mut it: usize = 0;
    let s = interpreter::ast::Scope::parse(&t, &ops, &prios, &mut it, t.len()).unwrap();
    assert_eq!(s.statements.len(), 2);
    assert_eq!(it, 7);
    assert!(s.parent.is_none());
}

#[test]
fn folding_a_flat_list() {
    let (ops, prios) = standard_operators();
    let one = interpreter::ast::Value::constant(Constant::Integer(1));
    let two = interpreter::ast::Value::constant(Constant::Integer(2));
    let objs = vec![
        ExprObj::Parentheses(vec![ExprObj::Value(one)]),
        ExprObj::Operator("*".to_string()),
        ExprObj::Value(two),
    ];
    let e = build_expression(objs, &ops, &prios).unwrap();
    assert_eq!(operator_of(&e), "*");
    assert_eq!(integer_of(e.left.as_ref().unwrap()), Some(1));
    assert_eq!(integer_of(e.right.as_ref().unwrap()), Some(2));
}

#[test]
fn names_are_variable_values() {
    let e = parse_expression(&["abc"]);
    assert!(e.value.as_ref().unwrap().value_type == ValueType::VariableName);
}

#[test]
fn integer_literals() {
    assert_eq!(parse_integer(&"123".to_string()), Some(123));
    assert_eq!(parse_integer(&"-5".to_string()), Some(-5));
    assert_eq!(parse_integer(&"+7".to_string()), Some(7));
    assert_eq!(parse_integer(&"-9223372036854775808".to_string()), Some(i64::MIN));
    assert_eq!(parse_integer(&"9223372036854775807".to_string()), Some(i64::MAX));
    assert_eq!(parse_integer(&"9223372036854775808".to_string()), None);
    assert_eq!(parse_integer(&"abc".to_string()), None);
    assert_eq!(parse_integer(&"-".to_string()), None);
    assert_eq!(parse_integer(&"".to_string()), None);
    assert_eq!(parse_integer(&"12a".to_string()), None);
}

#[test]
fn operator_table_lookups() {
    let (ops, prios) = standard_operators();
    assert!(operator_exists(&ops, &"+=".to_string()));
    assert!(!operator_exists(&ops, &"let".to_string()));
    assert_eq!(get_operator_priority(&ops, &prios, &"*".to_string()), 1);
    assert_eq!(get_operator_priority(&ops, &prios, &"=".to_string()), -3);
    assert_eq!(get_operator_priority(&ops, &prios, &"(".to_string()), 2);
    assert_eq!(get_operator_priority(&ops, &prios, &"let".to_string()), 0);
}

#[test]
fn call_inside_group_is_a_call() {
    let e = parse_expression(&["(", "f", "(", "1", ")", ")"]);
    assert_eq!(operator_of(&e), "(");
    assert_eq!(name_of(e.left.as_ref().unwrap()), Some("f".to_string()));
}

#[test]
fn zero_argument_call_has_empty_tuple() {
    let e = parse_expression(&["f", "(", ")"]);
    assert_eq!(operator_of(&e), "(");
    match &e.right.as_ref().unwrap().value.as_ref().unwrap().constant {
        Some(Constant::Tuple(t)) => assert_eq!(t.expressions.len(), 0),
        _ => panic!("expected an argument tuple"),
    }
}

#[test]
fn empty_function_literal_parses() {
    let e = parse_expression(&["function", "(", ")", "{", "}"]);
    match &e.value.as_ref().unwrap().constant {
        Some(Constant::Function(f)) => match &**f {
            interpreter::ast::Callable::Function(func) => {
                assert_eq!(func.args.len(), 0);
                assert_eq!(func.scope.statements.len(), 0);
            }
            _ => panic!("expected a user function"),
        },
        _ => panic!("expected a function constant"),
    }
}

#[test]
fn doubled_operator_is_rejected() {
    let (ops, prios) = standard_operators();
    let t = tokens(&["1", "+", "*", "2", ";"]);
    let mut it: usize = 0;
    assert_eq!(
        Expression::parse(&t, &ops, &prios, &mut it, t.len()).err(),
        Some(interpreter::ast::ParseError::OperatorInsteadOfValue)
    );
}
