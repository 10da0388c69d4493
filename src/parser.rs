use vstd::prelude::*;
use std::rc::Rc;
use crate::ast::{Callable, Constant, Expression, Function, ParseError, Scope, Statement, Tuple, Value, ValueType, expression_wf, operation, statement_wf, value_expression};
use crate::fold::{ExprObj, FoldItem, build, build_expression, fold_result, items_of, lemma_adjacent_operators, lemma_build_wf, lemma_objs_wf_append, objs_wf};
use crate::literal::{integer_token, parse_integer};
use crate::operators::{is_lexeme, is_operator, max_priority, min_priority, operator_exists, priority_from, priority_of};

verus! {

/// The tokens that end an expression: `;`, `}`, `,` and `)`.
pub open spec fn is_terminator(t: Seq<char>) -> bool {
    t == ";"@ || t == "}"@ || t == ","@ || t == ")"@
}

/// Where an expression parsed from `pos` may stop: at the end of the window or
/// on a terminator.
pub open spec fn stops_expression(tokens: Seq<String>, q: int, end: int) -> bool {
    q == end || (q < end && is_terminator(tokens[q]@))
}

/// Where a statement list parsed from `pos` may stop: at the end of the window
/// or on a closing brace.
pub open spec fn stops_scope(tokens: Seq<String>, q: int, end: int) -> bool {
    q == end || (q < end && tokens[q]@ == "}"@)
}

/// The first position from `p` on that holds a terminator, or `end`.
pub open spec fn first_stop(tokens: Seq<String>, p: int, end: int) -> int
    decreases end - p,
{
    if p >= end {
        end
    } else if is_terminator(tokens[p]@) {
        p
    } else {
        first_stop(tokens, p + 1, end)
    }
}

/// A token that opens nothing: neither `(` nor `function`.
pub open spec fn plain_token(t: Seq<char>) -> bool {
    t != "("@ && t != "function"@
}

/// Every token of `pos..q` is plain.
pub open spec fn plain_window(tokens: Seq<String>, pos: int, q: int) -> bool {
    forall|k: int| pos <= k < q ==> plain_token(#[trigger] tokens[k]@)
}

/// The element of the flat list that a plain token gives: an operator of the
/// table, else an integer literal, else a name.
pub open spec fn token_obj(t: String, ops: Seq<String>) -> ExprObj {
    if is_operator(ops, t@) {
        ExprObj::Operator(t)
    } else {
        match integer_token(t@) {
            Some(i) => ExprObj::Value(Value { value_type: ValueType::Constant, variable: None, constant: Some(Constant::Integer(i)) }),
            None => ExprObj::Value(Value { value_type: ValueType::VariableName, variable: Some(t), constant: None }),
        }
    }
}

/// The flat list of the plain tokens `pos..q`.
pub open spec fn plain_flat(tokens: Seq<String>, ops: Seq<String>, pos: int, q: int) -> Seq<ExprObj> {
    Seq::new((q - pos) as nat, |k: int| token_obj(tokens[pos + k], ops))
}

/// The expression, and where it stops, that a window of plain tokens from
/// `pos` parses to: the tokens up to the first terminator, folded by
/// precedence; an empty window is an error.
pub open spec fn plain_expression(tokens: Seq<String>, ops: Seq<String>, prios: Seq<i32>, pos: int, end: int) -> Result<(Expression, int), ParseError> {
    let q = first_stop(tokens, pos, end);
    if q == pos {
        Err(ParseError::EmptyExpression)
    } else {
        match build(plain_flat(tokens, ops, pos, q), ops, prios) {
            Ok(e) => Ok((e, q)),
            Err(x) => Err(x),
        }
    }
}

/// The expression from `pos` is made of plain tokens only.
pub open spec fn plain_from(tokens: Seq<String>, pos: int, end: int) -> bool {
    plain_window(tokens, pos, first_stop(tokens, pos, end))
}

pub open spec fn same_parse<T>(r: Result<(T, usize), ParseError>, s: Result<(T, int), ParseError>) -> bool {
    match s {
        Ok((v, q)) => r == Ok::<(T, usize), ParseError>((v, q as usize)),
        Err(x) => r == Err::<(T, usize), ParseError>(x),
    }
}

/// The statement that starts at `pos`: a declaration after `let`, a return
/// after `return`, else an expression statement, each with the expression
/// that follows.
pub open spec fn plain_statement(tokens: Seq<String>, ops: Seq<String>, prios: Seq<i32>, pos: int, end: int) -> Result<(Statement, int), ParseError> {
    if tokens[pos]@ == "let"@ {
        match plain_expression(tokens, ops, prios, pos + 1, end) {
            Ok((e, q)) => Ok((Statement::VariableDeclaration(e), q)),
            Err(x) => Err(x),
        }
    } else if tokens[pos]@ == "return"@ {
        match plain_expression(tokens, ops, prios, pos + 1, end) {
            Ok((e, q)) => Ok((Statement::ReturnStatement(e), q)),
            Err(x) => Err(x),
        }
    } else {
        match plain_expression(tokens, ops, prios, pos, end) {
            Ok((e, q)) => Ok((Statement::Expression(e), q)),
            Err(x) => Err(x),
        }
    }
}

/// Where the statement's expression starts.
pub open spec fn statement_body_start(tokens: Seq<String>, pos: int) -> int {
    if tokens[pos]@ == "let"@ || tokens[pos]@ == "return"@ { pos + 1 } else { pos }
}

proof fn lemma_first_stop_bounds(tokens: Seq<String>, p: int, end: int)
    requires
        p <= end,
    ensures
        p <= first_stop(tokens, p, end) <= end,
        first_stop(tokens, p, end) < end ==> is_terminator(tokens[first_stop(tokens, p, end)]@),
    decreases end - p,
{
    if p < end && !is_terminator(tokens[p]@) {
        lemma_first_stop_bounds(tokens, p + 1, end);
    }
}

fn terminator_at(tokens: &Vec<String>, i: usize) -> (r: bool)
    requires
        i < tokens@.len(),
    ensures
        r == is_terminator(tokens@[i as int]@),
{
    let t = &tokens[i];
    is_lexeme(t, ";") || is_lexeme(t, "}") || is_lexeme(t, ",") || is_lexeme(t, ")")
}

/// Whether the last element of a flat list is something a call can apply to.
fn ends_with_operand(objs: &Vec<ExprObj>) -> (r: bool)
    ensures
        r == (objs@.len() > 0 && !(objs@.last() is Operator)),
{
    if objs.len() == 0 {
        false
    } else {
        match &objs[objs.len() - 1] {
            ExprObj::Operator(_) => false,
            _ => true,
        }
    }
}

/// A parse outcome paired with the cursor where it left off.
pub open spec fn cursor_result<T>(r: Result<T, ParseError>, q: usize) -> Result<(T, int), ParseError> {
    match r {
        Ok(x) => Ok((x, q as int)),
        Err(e) => Err(e),
    }
}

/// A parse outcome with its cursor as an integer.
pub open spec fn at_int<T>(r: Result<(T, usize), ParseError>) -> Result<(T, int), ParseError> {
    match r {
        Ok((x, q)) => Ok((x, q as int)),
        Err(e) => Err(e),
    }
}

/// A parse outcome holding a vector, seen as a sequence.
pub open spec fn seq_at_int<T>(r: Result<(Vec<T>, usize), ParseError>) -> Result<(Seq<T>, int), ParseError> {
    match r {
        Ok((x, q)) => Ok((x@, q as int)),
        Err(e) => Err(e),
    }
}

/// Whether a token can name a parameter: not a keyword, operator, parenthesis
/// or integer literal.
fn is_parameter_name(token: &String, operators: &Vec<String>) -> (r: bool)
    ensures
        r == crate::grammar::parameter_name(*token, operators@),
{
    !is_lexeme(token, "function") && !is_lexeme(token, "(") && !operator_exists(operators, token)
        && parse_integer(token).is_none()
}

/// Parses the parameter list and body of a function literal; `pos` is on the
/// token after `function`.
fn parse_function_at(
    tokens: &Vec<String>,
    operators: &Vec<String>,
    operator_priorities: &Vec<i32>,
    pos: usize,
    end: usize,
) -> (r: Result<(Value, usize), ParseError>)
    requires
        pos <= end <= tokens@.len(),
        operators@.len() == operator_priorities@.len(),
    ensures
        r matches Ok((_, q)) ==> pos < q <= end,
        r matches Ok((v, _)) ==> crate::ast::value_wf(v),
        crate::grammar::function_rel(tokens@, operators@, operator_priorities@, pos as int, end as int, at_int(r)),
    decreases end - pos, 0nat,
{
    if pos >= end {
        return Err(ParseError::UnexpectedEnd);
    }
    if !is_lexeme(&tokens[pos], "(") {
        return Err(ParseError::UnexpectedToken);
    }
    let mut p: usize = pos + 1;
    let mut args: Vec<String> = Vec::new();
    let mut expect_name = true;
    while p < end && !is_lexeme(&tokens[p], ")")
        invariant
            pos < p <= end <= tokens@.len(),
            tokens@[pos as int]@ == "("@,
            crate::grammar::params_rel(tokens@, operators@, pos + 1, end as int, true, Seq::empty())
                == crate::grammar::params_rel(tokens@, operators@, p as int, end as int, expect_name, args@),
        decreases end - p,
    {
        if expect_name {
            if !is_parameter_name(&tokens[p], operators) {
                return Err(ParseError::ExpectedVariableName);
            }
            args.push(tokens[p].clone());
        } else if !is_lexeme(&tokens[p], ",") {
            return Err(ParseError::ExpectedComma);
        }
        expect_name = !expect_name;
        p += 1;
    }
    if p >= end {
        return Err(ParseError::UnexpectedEnd);
    }
    p += 1;
    if p >= end {
        return Err(ParseError::UnexpectedEnd);
    }
    if !is_lexeme(&tokens[p], "{") {
        return Err(ParseError::UnexpectedToken);
    }
    let sres = parse_scope_at(tokens, operators, operator_priorities, p + 1, end);
    proof {
        assert(crate::grammar::step(at_int(sres), p - 1));
    }
    let (body, q) = match sres {
        Ok(r) => r,
        Err(e) => {
            return Err(e);
        },
    };
    if q >= end {
        return Err(ParseError::UnexpectedEnd);
    }
    let ghost params = args@;
    let f = Callable::Function(Function { args, scope: body });
    let v = Value::constant(Constant::Function(Rc::new(f)));
    proof {
        assert(crate::grammar::function_value(v, params, body));
    }
    Ok((v, q + 1))
}

/// Parses the argument list of a call; `pos` is on its `(`.
fn parse_arguments_at(
    tokens: &Vec<String>,
    operators: &Vec<String>,
    operator_priorities: &Vec<i32>,
    pos: usize,
    end: usize,
) -> (r: Result<(Vec<Expression>, usize), ParseError>)
    requires
        pos < end <= tokens@.len(),
        operators@.len() == operator_priorities@.len(),
    ensures
        r matches Ok((_, q)) ==> pos < q <= end,
        crate::grammar::args_rel(tokens@, operators@, operator_priorities@, pos as int, pos + 1, end as int, true, Seq::empty(), seq_at_int(r)),
    decreases end - pos, 0nat,
{
    let mut p: usize = pos + 1;
    let mut exprs: Vec<Expression> = Vec::new();
    let mut expect_expression = true;
    while p < end && !is_lexeme(&tokens[p], ")")
        invariant
            pos < p <= end <= tokens@.len(),
            operators@.len() == operator_priorities@.len(),
            forall|rr: Result<(Seq<Expression>, int), ParseError>| #[trigger] crate::grammar::args_rel(tokens@, operators@, operator_priorities@, pos as int, p as int, end as int, expect_expression, exprs@, rr)
                ==> crate::grammar::args_rel(tokens@, operators@, operator_priorities@, pos as int, pos + 1, end as int, true, Seq::empty(), rr),
        decreases end - p,
    {
        if expect_expression {
            let eres = parse_expression_at(tokens, operators, operator_priorities, p, end);
            proof {
                assert(crate::grammar::step(at_int(eres), p as int));
            }
            match eres {
                Ok((e, q)) => {
                    proof {
                        let ghost acc = exprs@;
                        assert forall|rr: Result<(Seq<Expression>, int), ParseError>| #[trigger] crate::grammar::args_rel(tokens@, operators@, operator_priorities@, pos as int, q as int, end as int, false, acc.push(e), rr)
                            implies crate::grammar::args_rel(tokens@, operators@, operator_priorities@, pos as int, pos + 1, end as int, true, Seq::empty(), rr) by {
                            assert(crate::grammar::args_rel(tokens@, operators@, operator_priorities@, pos as int, p as int, end as int, true, acc, rr));
                        }
                    }
                    exprs.push(e);
                    p = q;
                },
                Err(e) => {
                    proof {
                        assert(crate::grammar::args_rel(tokens@, operators@, operator_priorities@, pos as int, p as int, end as int, true, exprs@, Err(e)));
                    }
                    return Err(e);
                },
            }
        } else if !is_lexeme(&tokens[p], ",") {
            proof {
                assert(crate::grammar::args_rel(tokens@, operators@, operator_priorities@, pos as int, p as int, end as int, false, exprs@, Err(ParseError::ExpectedComma)));
            }
            return Err(ParseError::ExpectedComma);
        } else {
            proof {
                assert forall|rr: Result<(Seq<Expression>, int), ParseError>| #[trigger] crate::grammar::args_rel(tokens@, operators@, operator_priorities@, pos as int, p + 1, end as int, true, exprs@, rr)
                    implies crate::grammar::args_rel(tokens@, operators@, operator_priorities@, pos as int, pos + 1, end as int, true, Seq::empty(), rr) by {
                    assert(crate::grammar::args_rel(tokens@, operators@, operator_priorities@, pos as int, p as int, end as int, false, exprs@, rr));
                }
            }
            p += 1;
        }
        expect_expression = !expect_expression;
    }
    if p >= end {
        proof {
            assert(crate::grammar::args_rel(tokens@, operators@, operator_priorities@, pos as int, p as int, end as int, expect_expression, exprs@, Err(ParseError::UnexpectedEnd)));
        }
        return Err(ParseError::UnexpectedEnd);
    }
    proof {
        assert(crate::grammar::args_rel(tokens@, operators@, operator_priorities@, pos as int, p as int, end as int, expect_expression, exprs@, Ok((exprs@, p + 1))));
    }
    Ok((exprs, p + 1))
}

/// Parses a parenthesized group into a flat list; `pos` is on its `(`.
fn parse_group_at(
    tokens: &Vec<String>,
    operators: &Vec<String>,
    operator_priorities: &Vec<i32>,
    pos: usize,
    end: usize,
) -> (r: Result<(Vec<ExprObj>, usize), ParseError>)
    requires
        pos < end <= tokens@.len(),
        operators@.len() == operator_priorities@.len(),
    ensures
        r matches Ok((_, q)) ==> pos < q <= end,
        r matches Ok((objs, _)) ==> objs_wf(objs@),
        crate::grammar::group_rel(tokens@, operators@, operator_priorities@, pos as int, pos + 1, end as int, Seq::empty(), seq_at_int(r)),
    decreases end - pos, 0nat,
{
    let mut p: usize = pos + 1;
    let mut objs: Vec<ExprObj> = Vec::new();
    while p < end && !is_lexeme(&tokens[p], ")")
        invariant
            pos < p <= end <= tokens@.len(),
            operators@.len() == operator_priorities@.len(),
            objs_wf(objs@),
            forall|rr: Result<(Seq<ExprObj>, int), ParseError>| #[trigger] crate::grammar::group_rel(tokens@, operators@, operator_priorities@, pos as int, p as int, end as int, objs@, rr)
                ==> crate::grammar::group_rel(tokens@, operators@, operator_priorities@, pos as int, pos + 1, end as int, Seq::empty(), rr),
        decreases end - p,
    {
        let operand = ends_with_operand(&objs);
        let ores = parse_exprobj_at(tokens, operators, operator_priorities, p, end, operand);
        proof {
            assert(crate::grammar::step(seq_at_int(ores), p as int));
        }
        match ores {
            Ok((mut new_objs, q)) => {
                proof {
                    lemma_objs_wf_append(objs@, new_objs@);
                    let ghost acc = objs@;
                    let ghost more = new_objs@;
                    assert forall|rr: Result<(Seq<ExprObj>, int), ParseError>| #[trigger] crate::grammar::group_rel(tokens@, operators@, operator_priorities@, pos as int, q as int, end as int, acc + more, rr)
                        implies crate::grammar::group_rel(tokens@, operators@, operator_priorities@, pos as int, pos + 1, end as int, Seq::empty(), rr) by {
                        assert(crate::grammar::group_rel(tokens@, operators@, operator_priorities@, pos as int, p as int, end as int, acc, rr));
                    }
                }
                objs.append(&mut new_objs);
                p = q;
            },
            Err(e) => {
                proof {
                    assert(crate::grammar::group_rel(tokens@, operators@, operator_priorities@, pos as int, p as int, end as int, objs@, Err(e)));
                }
                return Err(e);
            },
        }
    }
    if p >= end {
        proof {
            assert(crate::grammar::group_rel(tokens@, operators@, operator_priorities@, pos as int, p as int, end as int, objs@, Err(ParseError::UnexpectedEnd)));
        }
        return Err(ParseError::UnexpectedEnd);
    }
    proof {
        assert(crate::grammar::group_rel(tokens@, operators@, operator_priorities@, pos as int, p as int, end as int, objs@, Ok((objs@, p + 1))));
    }
    Ok((objs, p + 1))
}

/// A flat list of one element.
fn single(o: ExprObj) -> (r: Vec<ExprObj>)
    requires
        objs_wf(seq![o]),
    ensures
        r@ == seq![o],
        objs_wf(r@),
{
    let mut r: Vec<ExprObj> = Vec::new();
    r.push(o);
    proof {
        assert(r@ =~= seq![o]);
    }
    r
}

proof fn lemma_single_wf(o: ExprObj)
    requires
        match o {
            ExprObj::Parentheses(inner) => objs_wf(inner@),
            ExprObj::Value(v) => crate::ast::value_wf(v),
            ExprObj::Operator(_) => true,
        },
    ensures
        objs_wf(seq![o]),
{
    let one = seq![o];
    assert(one[0] == o);
    assert(one.subrange(1, 1) =~= Seq::<ExprObj>::empty());
    assert(objs_wf(one.subrange(1, 1)));
}

/// Reads the elements of the flat list that start at `pos`: a function
/// literal, a call's argument list (then preceded by the call operator `(`),
/// a group, an operator, an integer or a name.
fn parse_exprobj_at(
    tokens: &Vec<String>,
    operators: &Vec<String>,
    operator_priorities: &Vec<i32>,
    pos: usize,
    end: usize,
    after_operand: bool,
) -> (r: Result<(Vec<ExprObj>, usize), ParseError>)
    requires
        pos < end <= tokens@.len(),
        operators@.len() == operator_priorities@.len(),
    ensures
        r matches Ok((_, q)) ==> pos < q <= end,
        r matches Ok((objs, _)) ==> objs_wf(objs@),
        plain_token(tokens@[pos as int]@) ==> r is Ok && r->Ok_0.1 == pos + 1
            && r->Ok_0.0@ == seq![token_obj(tokens@[pos as int], operators@)],
        crate::grammar::obj_rel(tokens@, operators@, operator_priorities@, pos as int, end as int, after_operand, seq_at_int(r)),
    decreases end - pos, 1nat,
{
    let token = &tokens[pos];
    if is_lexeme(token, "function") {
        let fres = parse_function_at(tokens, operators, operator_priorities, pos + 1, end);
        proof {
            assert(crate::grammar::step(at_int(fres), pos as int));
        }
        match fres {
            Ok((v, q)) => {
                proof {
                    lemma_single_wf(ExprObj::Value(v));
                }
                Ok((single(ExprObj::Value(v)), q))
            },
            Err(e) => Err(e),
        }
    } else if is_lexeme(token, "(") && after_operand {
        let ares = parse_arguments_at(tokens, operators, operator_priorities, pos, end);
        proof {
            assert(crate::grammar::step(seq_at_int(ares), pos as int));
        }
        match ares {
            Ok((exprs, q)) => {
                let ghost es = exprs@;
                let t = Value::constant(Constant::Tuple(Rc::new(Tuple { expressions: exprs })));
                let call = "(".to_owned();
                proof {
                    lemma_single_wf(ExprObj::Operator(call));
                    lemma_single_wf(ExprObj::Value(t));
                }
                let mut objs = single(ExprObj::Operator(call));
                let mut tail = single(ExprObj::Value(t));
                proof {
                    lemma_objs_wf_append(objs@, tail@);
                }
                objs.append(&mut tail);
                proof {
                    assert(crate::grammar::tuple_value(objs@[1]->Value_0, es));
                }
                Ok((objs, q))
            },
            Err(e) => Err(e),
        }
    } else if is_lexeme(token, "(") {
        let gres = parse_group_at(tokens, operators, operator_priorities, pos, end);
        proof {
            assert(crate::grammar::step(seq_at_int(gres), pos as int));
        }
        match gres {
            Ok((objs, q)) => {
                proof {
                    lemma_single_wf(ExprObj::Parentheses(objs));
                }
                Ok((single(ExprObj::Parentheses(objs)), q))
            },
            Err(e) => Err(e),
        }
    } else if operator_exists(operators, token) {
        let op = token.clone();
        proof {
            lemma_single_wf(ExprObj::Operator(op));
        }
        Ok((single(ExprObj::Operator(op)), pos + 1))
    } else {
        let v = match parse_integer(token) {
            Some(i) => Value::constant(Constant::Integer(i)),
            None => Value::variable_name(token.clone()),
        };
        proof {
            lemma_single_wf(ExprObj::Value(v));
        }
        Ok((single(ExprObj::Value(v)), pos + 1))
    }
}

/// Parses the expression that starts at `pos`, up to the first terminator
/// outside brackets.
fn parse_expression_at(
    tokens: &Vec<String>,
    operators: &Vec<String>,
    operator_priorities: &Vec<i32>,
    pos: usize,
    end: usize,
) -> (r: Result<(Expression, usize), ParseError>)
    requires
        pos <= end <= tokens@.len(),
        operators@.len() == operator_priorities@.len(),
    ensures
        r matches Ok((_, q)) ==> pos < q <= end && stops_expression(tokens@, q as int, end as int),
        r matches Ok((e, _)) ==> expression_wf(e),
        plain_from(tokens@, pos as int, end as int)
            ==> same_parse(r, plain_expression(tokens@, operators@, operator_priorities@, pos as int, end as int)),
        crate::grammar::expr_rel(tokens@, operators@, operator_priorities@, pos as int, end as int, at_int(r)),
    decreases end - pos, 2nat,
{
    let mut p: usize = pos;
    let mut objs: Vec<ExprObj> = Vec::new();
    let ghost stop = first_stop(tokens@, pos as int, end as int);
    let ghost plain = plain_from(tokens@, pos as int, end as int);
    proof {
        lemma_first_stop_bounds(tokens@, pos as int, end as int);
        assert(objs@ =~= plain_flat(tokens@, operators@, pos as int, pos as int));
    }
    while p < end && !terminator_at(tokens, p)
        invariant
            pos <= p <= end <= tokens@.len(),
            operators@.len() == operator_priorities@.len(),
            p == pos ==> objs@.len() == 0,
            objs_wf(objs@),
            stop == first_stop(tokens@, pos as int, end as int),
            plain == plain_from(tokens@, pos as int, end as int),
            plain ==> p <= stop && first_stop(tokens@, p as int, end as int) == stop
                && objs@ == plain_flat(tokens@, operators@, pos as int, p as int),
            forall|rr: Result<(Seq<ExprObj>, int), ParseError>| #[trigger] crate::grammar::flat_rel(tokens@, operators@, operator_priorities@, pos as int, p as int, end as int, objs@, rr)
                ==> crate::grammar::flat_rel(tokens@, operators@, operator_priorities@, pos as int, pos as int, end as int, Seq::empty(), rr),
        decreases end - p,
    {
        let operand = ends_with_operand(&objs);
        proof {
            if plain {
                lemma_first_stop_bounds(tokens@, p as int + 1, end as int);
                assert(first_stop(tokens@, p as int, end as int) == first_stop(tokens@, p as int + 1, end as int));
                assert(plain_token(tokens@[p as int]@));
            }
        }
        let ores = parse_exprobj_at(tokens, operators, operator_priorities, p, end, operand);
        proof {
            assert(crate::grammar::step(seq_at_int(ores), p as int));
        }
        match ores {
            Ok((mut new_objs, q)) => {
                proof {
                    lemma_objs_wf_append(objs@, new_objs@);
                    if plain {
                        assert(objs@ + new_objs@ =~= plain_flat(tokens@, operators@, pos as int, q as int));
                    }
                    let ghost acc = objs@;
                    let ghost more = new_objs@;
                    assert forall|rr: Result<(Seq<ExprObj>, int), ParseError>| #[trigger] crate::grammar::flat_rel(tokens@, operators@, operator_priorities@, pos as int, q as int, end as int, acc + more, rr)
                        implies crate::grammar::flat_rel(tokens@, operators@, operator_priorities@, pos as int, pos as int, end as int, Seq::empty(), rr) by {
                        assert(crate::grammar::flat_rel(tokens@, operators@, operator_priorities@, pos as int, p as int, end as int, acc, rr));
                    }
                }
                objs.append(&mut new_objs);
                p = q;
            },
            Err(e) => {
                proof {
                    assert(crate::grammar::flat_rel(tokens@, operators@, operator_priorities@, pos as int, p as int, end as int, objs@, Err(e)));
                    assert(crate::grammar::step(Err::<(Seq<ExprObj>, int), ParseError>(e), pos as int));
                }
                return Err(e);
            },
        }
    }
    proof {
        assert(crate::grammar::flat_rel(tokens@, operators@, operator_priorities@, pos as int, p as int, end as int, objs@, Ok((objs@, p as int))));
        assert(crate::grammar::step(Ok::<(Seq<ExprObj>, int), ParseError>((objs@, p as int)), pos as int));
    }
    if p == pos {
        return Err(ParseError::EmptyExpression);
    }
    proof {
        lemma_build_wf(objs@, operators@, operator_priorities@);
    }
    match build_expression(objs, operators, operator_priorities) {
        Ok(e) => Ok((e, p)),
        Err(e) => Err(e),
    }
}

/// A statement that starts with `let` is a declaration, one that starts with
/// `return` a return statement, and any other an expression statement.
pub open spec fn statement_kind_fits(s: Statement, first: Seq<char>) -> bool {
    if first == "let"@ {
        s is VariableDeclaration
    } else if first == "return"@ {
        s is ReturnStatement
    } else {
        s is Expression
    }
}

/// Parses the statement that starts at `pos`.
fn parse_statement_at(
    tokens: &Vec<String>,
    operators: &Vec<String>,
    operator_priorities: &Vec<i32>,
    pos: usize,
    end: usize,
) -> (r: Result<(Statement, usize), ParseError>)
    requires
        pos < end <= tokens@.len(),
        operators@.len() == operator_priorities@.len(),
    ensures
        r matches Ok((_, q)) ==> pos < q <= end && stops_expression(tokens@, q as int, end as int),
        r matches Ok((s, _)) ==> statement_kind_fits(s, tokens@[pos as int]@) && statement_wf(s),
        plain_from(tokens@, statement_body_start(tokens@, pos as int), end as int)
            ==> same_parse(r, plain_statement(tokens@, operators@, operator_priorities@, pos as int, end as int)),
        crate::grammar::stmt_parse_rel(tokens@, operators@, operator_priorities@, pos as int, end as int, at_int(r)),
    decreases end - pos, 3nat,
{
    if is_lexeme(&tokens[pos], "let") {
        let eres = parse_expression_at(tokens, operators, operator_priorities, pos + 1, end);
        proof {
            assert(crate::grammar::step(at_int(eres), pos as int));
        }
        match eres {
            Ok((e, q)) => Ok((Statement::VariableDeclaration(e), q)),
            Err(e) => Err(e),
        }
    } else if is_lexeme(&tokens[pos], "return") {
        let eres = parse_expression_at(tokens, operators, operator_priorities, pos + 1, end);
        proof {
            assert(crate::grammar::step(at_int(eres), pos as int));
        }
        match eres {
            Ok((e, q)) => Ok((Statement::ReturnStatement(e), q)),
            Err(e) => Err(e),
        }
    } else {
        let eres = parse_expression_at(tokens, operators, operator_priorities, pos, end);
        proof {
            assert(crate::grammar::step(at_int(eres), pos as int));
        }
        match eres {
            Ok((e, q)) => Ok((Statement::Expression(e), q)),
            Err(e) => Err(e),
        }
    }
}

/// Parses statements from `pos` until a closing brace or the end of the
/// window; a `;` after a statement is consumed.
fn parse_scope_at(
    tokens: &Vec<String>,
    operators: &Vec<String>,
    operator_priorities: &Vec<i32>,
    pos: usize,
    end: usize,
) -> (r: Result<(Scope, usize), ParseError>)
    requires
        pos <= end <= tokens@.len(),
        operators@.len() == operator_priorities@.len(),
    ensures
        r matches Ok((s, q)) ==> pos <= q <= end && stops_scope(tokens@, q as int, end as int)
            && s.parent.is_none() && s.accessible_variables@.len() == 0 && s.return_value.is_none()
            && forall|i: int| 0 <= i < s.statements@.len() ==> statement_wf(#[trigger] s.statements@[i]),
        stops_scope(tokens@, pos as int, end as int) ==> r is Ok && r->Ok_0.1 == pos && r->Ok_0.0.statements@.len() == 0,
        crate::grammar::scope_parse_rel(tokens@, operators@, operator_priorities@, pos as int, end as int, at_int(r)),
    decreases end - pos, 4nat,
{
    let mut p: usize = pos;
    let mut statements: Vec<Statement> = Vec::new();
    while p < end && !is_lexeme(&tokens[p], "}")
        invariant
            pos <= p <= end <= tokens@.len(),
            operators@.len() == operator_priorities@.len(),
            forall|i: int| 0 <= i < statements@.len() ==> statement_wf(#[trigger] statements@[i]),
            stops_scope(tokens@, pos as int, end as int) ==> p == pos && statements@.len() == 0,
            forall|rr: Result<(Seq<Statement>, int), ParseError>| #[trigger] crate::grammar::stmts_parse_rel(tokens@, operators@, operator_priorities@, pos as int, p as int, end as int, statements@, rr)
                ==> crate::grammar::stmts_parse_rel(tokens@, operators@, operator_priorities@, pos as int, pos as int, end as int, Seq::empty(), rr),
        decreases end - p,
    {
        let sres = parse_statement_at(tokens, operators, operator_priorities, p, end);
        proof {
            assert(crate::grammar::step(at_int(sres), p as int));
        }
        match sres {
            Ok((s, q)) => {
                let ghost acc = statements@;
                statements.push(s);
                if q < end && is_lexeme(&tokens[q], ";") {
                    proof {
                        assert forall|rr: Result<(Seq<Statement>, int), ParseError>| #[trigger] crate::grammar::stmts_parse_rel(tokens@, operators@, operator_priorities@, pos as int, q + 1, end as int, acc.push(s), rr)
                            implies crate::grammar::stmts_parse_rel(tokens@, operators@, operator_priorities@, pos as int, pos as int, end as int, Seq::empty(), rr) by {
                            assert(crate::grammar::stmts_parse_rel(tokens@, operators@, operator_priorities@, pos as int, p as int, end as int, acc, rr));
                        }
                    }
                    p = q + 1;
                } else if q < end && !is_lexeme(&tokens[q], "}") {
                    proof {
                        assert(crate::grammar::stmts_parse_rel(tokens@, operators@, operator_priorities@, pos as int, p as int, end as int, acc, Err(ParseError::UnexpectedToken)));
                        assert(crate::grammar::step(Err::<(Seq<Statement>, int), ParseError>(ParseError::UnexpectedToken), pos as int));
                    }
                    return Err(ParseError::UnexpectedToken);
                } else {
                    proof {
                        assert forall|rr: Result<(Seq<Statement>, int), ParseError>| #[trigger] crate::grammar::stmts_parse_rel(tokens@, operators@, operator_priorities@, pos as int, q as int, end as int, acc.push(s), rr)
                            implies crate::grammar::stmts_parse_rel(tokens@, operators@, operator_priorities@, pos as int, pos as int, end as int, Seq::empty(), rr) by {
                            assert(crate::grammar::stmts_parse_rel(tokens@, operators@, operator_priorities@, pos as int, p as int, end as int, acc, rr));
                        }
                    }
                    p = q;
                }
            },
            Err(e) => {
                proof {
                    assert(crate::grammar::stmts_parse_rel(tokens@, operators@, operator_priorities@, pos as int, p as int, end as int, statements@, Err(e)));
                    assert(crate::grammar::step(Err::<(Seq<Statement>, int), ParseError>(e), pos as int));
                }
                return Err(e);
            },
        }
    }
    proof {
        assert(crate::grammar::stmts_parse_rel(tokens@, operators@, operator_priorities@, pos as int, p as int, end as int, statements@, Ok((statements@, p as int))));
        assert(crate::grammar::step(Ok::<(Seq<Statement>, int), ParseError>((statements@, p as int)), pos as int));
    }
    let scope = Scope {
        statements: Rc::new(statements),
        parent: None,
        accessible_variables: Vec::new(),
        return_value: None,
    };
    Ok((scope, p))
}

impl Expression {
    /// Parses an expression from the cursor up to the first terminator outside
    /// brackets, and leaves the cursor on that terminator.
    pub fn parse(
        tokens: &Vec<String>,
        operators: &Vec<String>,
        operator_priorities: &Vec<i32>,
        iterator: &mut usize,
        parse_end: usize,
    ) -> (r: Result<Expression, ParseError>)
        requires
            *old(iterator) <= parse_end <= tokens@.len(),
            operators@.len() == operator_priorities@.len(),
        ensures
            r is Ok ==> *old(iterator) < *final(iterator) <= parse_end
                && stops_expression(tokens@, *final(iterator) as int, parse_end as int),
            r matches Ok(e) ==> expression_wf(e),
            r is Err ==> *final(iterator) == *old(iterator),
            crate::grammar::expr_rel(tokens@, operators@, operator_priorities@, *old(iterator) as int, parse_end as int, cursor_result(r, *final(iterator))),
            plain_from(tokens@, *old(iterator) as int, parse_end as int) ==> match plain_expression(
                tokens@, operators@, operator_priorities@, *old(iterator) as int, parse_end as int) {
                Ok((e, q)) => r == Ok::<Expression, ParseError>(e) && *final(iterator) == q,
                Err(x) => r == Err::<Expression, ParseError>(x),
            },
    {
        proof {
            lemma_first_stop_bounds(tokens@, *iterator as int, parse_end as int);
        }
        match parse_expression_at(tokens, operators, operator_priorities, *iterator, parse_end) {
            Ok((e, q)) => {
                *iterator = q;
                Ok(e)
            },
            Err(e) => Err(e),
        }
    }
}

impl Statement {
    /// Parses a `let`, `return` or expression statement, and leaves the cursor
    /// on the token that ends it.
    pub fn parse(
        tokens: &Vec<String>,
        operators: &Vec<String>,
        operator_priorities: &Vec<i32>,
        iterator: &mut usize,
        parse_end: usize,
    ) -> (r: Result<Statement, ParseError>)
        requires
            *old(iterator) < parse_end <= tokens@.len(),
            operators@.len() == operator_priorities@.len(),
        ensures
            r is Ok ==> *old(iterator) < *final(iterator) <= parse_end
                && stops_expression(tokens@, *final(iterator) as int, parse_end as int),
            r matches Ok(s) ==> statement_kind_fits(s, tokens@[*old(iterator) as int]@) && statement_wf(s),
            r is Err ==> *final(iterator) == *old(iterator),
            crate::grammar::stmt_parse_rel(tokens@, operators@, operator_priorities@, *old(iterator) as int, parse_end as int, cursor_result(r, *final(iterator))),
            plain_from(tokens@, statement_body_start(tokens@, *old(iterator) as int), parse_end as int) ==> match plain_statement(
                tokens@, operators@, operator_priorities@, *old(iterator) as int, parse_end as int) {
                Ok((st, q)) => r == Ok::<Statement, ParseError>(st) && *final(iterator) == q,
                Err(x) => r == Err::<Statement, ParseError>(x),
            },
    {
        proof {
            lemma_first_stop_bounds(tokens@, *iterator as int, parse_end as int);
            lemma_first_stop_bounds(tokens@, *iterator as int + 1, parse_end as int);
        }
        match parse_statement_at(tokens, operators, operator_priorities, *iterator, parse_end) {
            Ok((s, q)) => {
                *iterator = q;
                Ok(s)
            },
            Err(e) => Err(e),
        }
    }
}

impl Scope {
    /// Parses a statement sequence up to a closing brace or the end of the
    /// window, and leaves the cursor there. The scope has no parent, no
    /// variables and no return value yet.
    pub fn parse(
        tokens: &Vec<String>,
        operators: &Vec<String>,
        operator_priorities: &Vec<i32>,
        iterator: &mut usize,
        parse_end: usize,
    ) -> (r: Result<Scope, ParseError>)
        requires
            *old(iterator) <= parse_end <= tokens@.len(),
            operators@.len() == operator_priorities@.len(),
        ensures
            r matches Ok(s) ==> *old(iterator) <= *final(iterator) <= parse_end
                && stops_scope(tokens@, *final(iterator) as int, parse_end as int)
                && s.parent.is_none() && s.accessible_variables@.len() == 0 && s.return_value.is_none()
                && forall|i: int| 0 <= i < s.statements@.len() ==> statement_wf(#[trigger] s.statements@[i]),
            r is Err ==> *final(iterator) == *old(iterator),
            stops_scope(tokens@, *old(iterator) as int, parse_end as int)
                ==> r is Ok && r->Ok_0.statements@.len() == 0 && *final(iterator) == *old(iterator),
            crate::grammar::scope_parse_rel(tokens@, operators@, operator_priorities@, *old(iterator) as int, parse_end as int, cursor_result(r, *final(iterator))),
    {
        match parse_scope_at(tokens, operators, operator_priorities, *iterator, parse_end) {
            Ok((s, q)) => {
                *iterator = q;
                Ok(s)
            },
            Err(e) => Err(e),
        }
    }
}

proof fn lemma_priorities_within(prios: Seq<i32>, j: int)
    requires
        0 <= j < prios.len(),
    ensures
        min_priority(prios) <= prios[j] <= max_priority(prios),
    decreases prios.len(),
{
    if j < prios.len() - 1 {
        lemma_priorities_within(prios.drop_last(), j);
    }
}

proof fn lemma_priority_within(ops: Seq<String>, prios: Seq<i32>, op: Seq<char>, i: int)
    requires
        ops.len() == prios.len(),
        0 <= i,
    ensures
        min_priority(prios) <= priority_from(ops, prios, op, i) <= max_priority(prios),
    decreases ops.len() - i,
{
    if i < ops.len() {
        if ops[i]@ == op {
            lemma_priorities_within(prios, i);
        } else {
            lemma_priority_within(ops, prios, op, i + 1);
        }
    } else {
        lemma_zero_within(prios);
    }
}

proof fn lemma_zero_within(prios: Seq<i32>)
    ensures
        min_priority(prios) <= 0 <= max_priority(prios),
    decreases prios.len(),
{
    if prios.len() > 0 {
        lemma_zero_within(prios.drop_last());
    }
}

/// The expression that an operand token stands for.
pub open spec fn operand_expression(t: String, ops: Seq<String>) -> Expression {
    value_expression(token_obj(t, ops)->Value_0)
}

/// A token that can stand as an operand: plain, not a terminator and not an
/// operator of the table.
pub open spec fn operand_token(t: String, ops: Seq<String>) -> bool {
    plain_token(t@) && !is_terminator(t@) && !is_operator(ops, t@)
}

/// A token that is a binary operator of the table other than the call `(`.
pub open spec fn binary_token(t: String, ops: Seq<String>) -> bool {
    plain_token(t@) && !is_terminator(t@) && is_operator(ops, t@)
}

/// Parsing `a op1 b op2 c` up to a terminator: the operator of lower
/// precedence is the root, and of two equal precedences the left one is
/// folded first; the cursor stops on the terminator.
pub proof fn lemma_parse_adjacent_operators(tokens: Seq<String>, ops: Seq<String>, prios: Seq<i32>, pos: int, end: int)
    requires
        ops.len() == prios.len(),
        0 <= pos,
        pos + 5 <= end <= tokens.len(),
        operand_token(tokens[pos], ops),
        binary_token(tokens[pos + 1], ops),
        operand_token(tokens[pos + 2], ops),
        binary_token(tokens[pos + 3], ops),
        operand_token(tokens[pos + 4], ops),
        stops_expression(tokens, pos + 5, end),
    ensures
        plain_from(tokens, pos, end),
        ({
            let a = operand_expression(tokens[pos], ops);
            let b = operand_expression(tokens[pos + 2], ops);
            let c = operand_expression(tokens[pos + 4], ops);
            let op1 = tokens[pos + 1];
            let op2 = tokens[pos + 3];
            plain_expression(tokens, ops, prios, pos, end) == Ok::<(Expression, int), ParseError>((
                if priority_of(ops, prios, op1@) >= priority_of(ops, prios, op2@) {
                    operation(operation(a, op1, b), op2, c)
                } else {
                    operation(a, op1, operation(b, op2, c))
                },
                pos + 5,
            ))
        }),
{
    assert(first_stop(tokens, pos + 5, end) == pos + 5);
    assert(first_stop(tokens, pos + 4, end) == pos + 5);
    assert(first_stop(tokens, pos + 3, end) == pos + 5);
    assert(first_stop(tokens, pos + 2, end) == pos + 5);
    assert(first_stop(tokens, pos + 1, end) == pos + 5);
    assert(first_stop(tokens, pos, end) == pos + 5);
    assert(plain_window(tokens, pos, pos + 5)) by {
        assert forall|k: int| pos <= k < pos + 5 implies plain_token(#[trigger] tokens[k]@) by {
            if k == pos { } else if k == pos + 1 { } else if k == pos + 2 { } else if k == pos + 3 { } else { }
        }
    }
    let flat = plain_flat(tokens, ops, pos, pos + 5);
    let p1 = priority_of(ops, prios, tokens[pos + 1]@);
    let p2 = priority_of(ops, prios, tokens[pos + 3]@);
    let ea = FoldItem::Expression(operand_expression(tokens[pos], ops));
    let eb = FoldItem::Expression(operand_expression(tokens[pos + 2], ops));
    let ec = FoldItem::Expression(operand_expression(tokens[pos + 4], ops));
    let o1 = FoldItem::Operator(tokens[pos + 1], p1);
    let o2 = FoldItem::Operator(tokens[pos + 3], p2);
    assert(flat[0] == token_obj(tokens[pos], ops));
    assert(flat[1] == token_obj(tokens[pos + 1], ops));
    assert(flat[2] == token_obj(tokens[pos + 2], ops));
    assert(flat[3] == token_obj(tokens[pos + 3], ops));
    assert(flat[4] == token_obj(tokens[pos + 4], ops));
    let f4 = flat.subrange(4, 5);
    let f3 = flat.subrange(3, 5);
    let f2 = flat.subrange(2, 5);
    let f1 = flat.subrange(1, 5);
    assert(flat.subrange(1, flat.len() as int) == f1);
    assert(f1.subrange(1, f1.len() as int) =~= f2);
    assert(f2.subrange(1, f2.len() as int) =~= f3);
    assert(f3.subrange(1, f3.len() as int) =~= f4);
    assert(f4.subrange(1, f4.len() as int) =~= Seq::<ExprObj>::empty());
    assert(items_of(Seq::<ExprObj>::empty(), ops, prios) == Ok::<Seq<FoldItem>, ParseError>(Seq::empty()));
    assert(items_of(f4, ops, prios) == Ok::<Seq<FoldItem>, ParseError>(seq![ec] + Seq::empty()));
    assert(items_of(f3, ops, prios) == Ok::<Seq<FoldItem>, ParseError>(seq![o2] + (seq![ec] + Seq::empty())));
    assert(items_of(f2, ops, prios) == Ok::<Seq<FoldItem>, ParseError>(seq![eb] + (seq![o2] + (seq![ec] + Seq::empty()))));
    assert(items_of(f1, ops, prios) == Ok::<Seq<FoldItem>, ParseError>(seq![o1] + (seq![eb] + (seq![o2] + (seq![ec] + Seq::empty())))));
    let items = seq![ea] + (seq![o1] + (seq![eb] + (seq![o2] + (seq![ec] + Seq::empty()))));
    assert(items_of(flat, ops, prios) == Ok::<Seq<FoldItem>, ParseError>(items));
    assert(items =~= seq![ea, o1, eb, o2, ec]);
    lemma_priority_within(ops, prios, tokens[pos + 1]@, 0);
    lemma_priority_within(ops, prios, tokens[pos + 3]@, 0);
    lemma_adjacent_operators(
        operand_expression(tokens[pos], ops), tokens[pos + 1], p1,
        operand_expression(tokens[pos + 2], ops), tokens[pos + 3], p2,
        operand_expression(tokens[pos + 4], ops), max_priority(prios), min_priority(prios),
    );
}

} // verus!
