use interpreter::ast::{Constant, ParseError, Scope};
use interpreter::executor::{EvalError, Runtime, VVA};
use interpreter::program::{execute_program, parse_program, standard_operators};

fn parse(source: &str) -> Result<Scope, ParseError> {
    let (ops, prios) = standard_operators();
    parse_program(&source.to_string(), &ops, &prios)
}

fn run(source: &str) -> (Runtime, Result<Option<VVA>, EvalError>) {
    let scope = parse(source).expect("program parses");
    execute_program(scope, 200)
}

fn printed(runtime: &Runtime) -> Vec<Option<i64>> {
    runtime
        .output
        .iter()
        .map(|c| match c {
            Constant::Integer(i) => Some(*i),
            _ => None,
        })
        .collect()
}

fn printed_undefined(runtime: &Runtime, index: usize) -> bool {
    matches!(runtime.output[index], Constant::Undefined)
}

#[test]
fn precedence_of_multiplication() {
    let (rt, r) = run("let a = 1 + 2 * 3; print(a);");
    assert!(r.is_ok());
    assert_eq!(printed(&rt), vec![Some(7)]);
}

#[test]
fn grouping_parentheses() {
    let (rt, r) = run("let a = (1 + 2) * 3; print(a);");
    assert!(r.is_ok());
    assert_eq!(printed(&rt), vec![Some(9)]);
}

#[test]
fn first_class_function_call() {
    let (rt, r) = run("let add = function(a, b) { return a + b; }; print(add(2, 3));");
    assert!(r.is_ok());
    assert_eq!(printed(&rt), vec![Some(5)]);
}

#[test]
fn call_mutates_enclosing_variable() {
    let (rt, r) = run("let a = 10; let inc = function() { a += 1; return a; }; inc(); inc(); print(a);");
    assert!(r.is_ok());
    assert_eq!(printed(&rt), vec![Some(12)]);
}

// A call frame's parent is the caller's scope, so the inner function does not
// see `x` of the call that made it: `x` reads as Undefined, and adding to an
// Undefined value is a type error.
#[test]
fn returned_function_sees_caller_scope() {
    let (rt, r) = run("let f = function(x) { return function(y) { return x + y; }; }; let add5 = f(5); print(add5(7));");
    assert!(matches!(r, Err(EvalError::WrongOperandType)));
    assert_eq!(rt.output.len(), 0);
}

#[test]
fn division_subtraction_multiplication() {
    let (rt, r) = run("let a = 6; let b = 2; print(a / b); print(a - b); print(a * b);");
    assert!(r.is_ok());
    assert_eq!(printed(&rt), vec![Some(3), Some(4), Some(12)]);
}

#[test]
fn statements_run_in_document_order() {
    let (rt, r) = run("let a = 1; print(a); a += 1; print(a); a *= 3; print(a);");
    assert!(r.is_ok());
    assert_eq!(printed(&rt), vec![Some(1), Some(2), Some(6)]);
}

#[test]
fn redeclaration_reuses_the_cell() {
    let (rt, r) = run("let x = 1; let x = 2; print(x);");
    assert!(r.is_ok());
    assert_eq!(printed(&rt), vec![Some(2)]);
    // `print` and one `x`
    assert_eq!(rt.scopes[0].accessible_variables.len(), 2);
}

#[test]
fn declaration_in_call_updates_outer_cell() {
    let (rt, r) = run("let x = 1; let f = function() { let x = 5; return 0; }; f(); print(x);");
    assert!(r.is_ok());
    assert_eq!(printed(&rt), vec![Some(5)]);
}

#[test]
fn arguments_evaluated_in_caller_left_to_right() {
    let (rt, r) = run("let f = function(a, b) { return a - b; }; let n = 1; print(f(n += 1, n *= 10)); print(n);");
    assert!(r.is_ok());
    assert_eq!(printed(&rt), vec![Some(-18), Some(20)]);
}

#[test]
fn parameter_shadows_outer_name() {
    let (rt, r) = run("let a = 1; let f = function(a) { return a; }; print(f(7)); print(a);");
    assert!(r.is_ok());
    assert_eq!(printed(&rt), vec![Some(7), Some(1)]);
}

#[test]
fn let_then_read() {
    let (rt, r) = run("let x = 42; print(x);");
    assert!(r.is_ok());
    assert_eq!(printed(&rt), vec![Some(42)]);
}

#[test]
fn empty_function_body_gives_undefined() {
    let (rt, r) = run("let f = function(){}; print(f());");
    assert!(r.is_ok());
    assert!(printed_undefined(&rt, 0));
}

#[test]
fn zero_arguments_bind_undefined() {
    let (rt, r) = run("let f = function(a, b) { return a; }; print(f());");
    assert!(r.is_ok());
    assert!(printed_undefined(&rt, 0));
}

#[test]
fn extra_arguments_are_ignored_and_missing_are_undefined() {
    let (rt, r) = run("let f = function(a) { return a; }; print(f(1, 2)); let g = function(a, b) { return b; }; print(g(1));");
    assert!(r.is_ok());
    assert_eq!(rt.output.len(), 2);
    assert!(matches!(rt.output[0], Constant::Integer(1)));
    assert!(printed_undefined(&rt, 1));
}

#[test]
fn top_level_return_stops_the_program() {
    let (rt, r) = run("let a = 3; return a; print(a);");
    assert!(matches!(r, Ok(Some(VVA::Variable(_)))));
    assert_eq!(rt.output.len(), 0);
}

#[test]
fn division_by_zero_is_an_error() {
    let (_, r) = run("let a = 1 / 0;");
    assert!(matches!(r, Err(EvalError::DivisionByZero)));
}

#[test]
fn overflow_is_an_error() {
    let (_, r) = run("let a = 9223372036854775807 + 1;");
    assert!(matches!(r, Err(EvalError::Overflow)));
}

#[test]
fn comparison_has_no_evaluation_rule() {
    let (_, r) = run("let a = 1 == 2;");
    assert!(matches!(r, Err(EvalError::UnknownOperator)));
}

#[test]
fn nameless_declaration_is_an_error() {
    let (_, r) = run("let 5;");
    assert!(matches!(r, Err(EvalError::NamelessVariable)));
}

#[test]
fn missing_member_is_an_error() {
    let (_, r) = run("let a = 1; print(a.b);");
    assert!(matches!(r, Err(EvalError::NoSuchMember)));
}

#[test]
fn calling_an_integer_is_an_error() {
    let (_, r) = run("let a = 1; a(2);");
    assert!(matches!(r, Err(EvalError::WrongOperandType)));
}

#[test]
fn adding_a_function_is_an_error() {
    let (_, r) = run("let f = function(){}; let a = 1 + f;");
    assert!(matches!(r, Err(EvalError::NotAnInteger)));
}

#[test]
fn endless_recursion_hits_the_depth_bound() {
    let (_, r) = run("let f = function() { return f(); }; f();");
    assert!(matches!(r, Err(EvalError::CallDepthExceeded)));
}

#[test]
fn compound_assignment_on_undefined_is_an_error() {
    let (_, r) = run("let a; a += 1;");
    assert!(matches!(r, Err(EvalError::WrongOperandType)));
}

#[test]
fn calling_undefined_is_an_error() {
    let (_, r) = run("let g; g(1);");
    assert!(matches!(r, Err(EvalError::WrongOperandType)));
}

#[test]
fn empty_expression_is_rejected() {
    assert!(matches!(parse("let ;"), Err(ParseError::EmptyExpression)));
}

#[test]
fn trailing_operator_is_rejected() {
    assert!(matches!(parse("let a = 1 +;"), Err(ParseError::EndsWithOperator)));
}

#[test]
fn leading_operator_is_rejected() {
    assert!(matches!(parse("let a = * 1;"), Err(ParseError::OperatorInsteadOfValue)));
}

#[test]
fn adjacent_values_are_rejected() {
    assert!(matches!(parse("let a = 1 2;"), Err(ParseError::MissingOperator)));
}

#[test]
fn parameter_must_be_a_name() {
    assert!(matches!(parse("let f = function(1) {};"), Err(ParseError::ExpectedVariableName)));
}

#[test]
fn parameters_need_commas() {
    assert!(matches!(parse("let f = function(a b) {};"), Err(ParseError::ExpectedComma)));
}

#[test]
fn unclosed_parenthesis_is_rejected() {
    assert!(matches!(parse("let a = (1 + 2;"), Err(ParseError::UnexpectedEnd)));
}

#[test]
fn stray_closing_brace_is_rejected() {
    assert!(matches!(parse("let a = 1; }"), Err(ParseError::UnexpectedToken)));
}

#[test]
fn non_ascii_source_is_rejected() {
    assert!(matches!(parse("let é = 1;"), Err(ParseError::UnsupportedCharacter)));
}
