use vstd::prelude::*;
use crate::ast::{Callable, Constant, Expression, ParseError, Scope, Statement, Value};
use crate::fold::{ExprObj, build};
use crate::literal::integer_token;
use crate::operators::is_operator;
use crate::parser::{is_terminator, token_obj};

verus! {

// What the parser makes of a token window, as relations between a starting
// position and the outcome: the result and the position where it stops.
// `t` are the tokens, `o` and `pr` the operator table, `e` the window's end.
// Intermediate outcomes are named through `step`, which holds of any pair
// and only marks the witnesses.

/// Marks an intermediate outcome.
pub open spec fn step<A, B>(a: A, b: B) -> bool {
    true
}

/// A token that can name a parameter.
pub open spec fn parameter_name(t: String, o: Seq<String>) -> bool {
    t@ != "function"@ && t@ != "("@ && !is_operator(o, t@) && integer_token(t@) is None
}

/// The parameter list from `p` on, up to its `)`: names separated by commas.
pub open spec fn params_rel(t: Seq<String>, o: Seq<String>, p: int, e: int, expect: bool, acc: Seq<String>) -> Result<(Seq<String>, int), ParseError>
    decreases e - p,
{
    if p < 0 || p >= e {
        Err(ParseError::UnexpectedEnd)
    } else if t[p]@ == ")"@ {
        Ok((acc, p))
    } else if expect {
        if parameter_name(t[p], o) { params_rel(t, o, p + 1, e, false, acc.push(t[p])) } else { Err(ParseError::ExpectedVariableName) }
    } else if t[p]@ == ","@ {
        params_rel(t, o, p + 1, e, true, acc)
    } else {
        Err(ParseError::ExpectedComma)
    }
}

/// A function value with these parameters and this body.
pub open spec fn function_value(v: Value, params: Seq<String>, body: Scope) -> bool {
    &&& v.value_type is Constant
    &&& v.variable is None
    &&& v.constant is Some
    &&& v.constant->Some_0 is Function
    &&& *v.constant->Some_0->Function_0 is Function
    &&& (*v.constant->Some_0->Function_0)->Function_0.args@ == params
    &&& (*v.constant->Some_0->Function_0)->Function_0.scope == body
}

/// An argument tuple value holding these expressions.
pub open spec fn tuple_value(v: Value, exprs: Seq<Expression>) -> bool {
    &&& v.value_type is Constant
    &&& v.variable is None
    &&& v.constant is Some
    &&& v.constant->Some_0 is Tuple
    &&& v.constant->Some_0->Tuple_0.expressions@ == exprs
}

/// A function literal after `function`, from its `(`: parameters, `)`, `{`,
/// a body, and the `}` that ends it.
pub open spec fn function_rel(t: Seq<String>, o: Seq<String>, pr: Seq<i32>, pos: int, e: int, r: Result<(Value, int), ParseError>) -> bool
    decreases e - pos, 1nat, 0nat,
{
    if pos < 0 || pos >= e {
        r == Err::<(Value, int), ParseError>(ParseError::UnexpectedEnd)
    } else if t[pos]@ != "("@ {
        r == Err::<(Value, int), ParseError>(ParseError::UnexpectedToken)
    } else {
        match params_rel(t, o, pos + 1, e, true, Seq::empty()) {
            Err(x) => r == Err::<(Value, int), ParseError>(x),
            Ok((ps, p)) => if p + 1 >= e {
                r == Err::<(Value, int), ParseError>(ParseError::UnexpectedEnd)
            } else if t[p + 1]@ != "{"@ {
                r == Err::<(Value, int), ParseError>(ParseError::UnexpectedToken)
            } else if p + 2 <= pos {
                false
            } else {
                exists|sr: Result<(Scope, int), ParseError>| #[trigger] step(sr, p) && scope_parse_rel(t, o, pr, p + 2, e, sr) && match sr {
                    Err(x) => r == Err::<(Value, int), ParseError>(x),
                    Ok((body, q)) => if q >= e {
                        r == Err::<(Value, int), ParseError>(ParseError::UnexpectedEnd)
                    } else {
                        r is Ok && r->Ok_0.1 == q + 1 && function_value(r->Ok_0.0, ps, body)
                    },
                }
            },
        }
    }
}

/// A call's arguments from `p` on (the call's `(` is at `start`): full
/// expressions separated by commas, up to `)`.
pub open spec fn args_rel(t: Seq<String>, o: Seq<String>, pr: Seq<i32>, start: int, p: int, e: int, expect: bool, acc: Seq<Expression>, r: Result<(Seq<Expression>, int), ParseError>) -> bool
    decreases e - start, 1nat, e - p,
{
    if p <= start || p > e {
        false
    } else if p == e {
        r == Err::<(Seq<Expression>, int), ParseError>(ParseError::UnexpectedEnd)
    } else if t[p]@ == ")"@ {
        r == Ok::<(Seq<Expression>, int), ParseError>((acc, p + 1))
    } else if expect {
        exists|er: Result<(Expression, int), ParseError>| #[trigger] step(er, p) && expr_rel(t, o, pr, p, e, er) && match er {
            Err(x) => r == Err::<(Seq<Expression>, int), ParseError>(x),
            Ok((x, q)) => if q > p && q <= e { args_rel(t, o, pr, start, q, e, false, acc.push(x), r) } else { false },
        }
    } else if t[p]@ == ","@ {
        args_rel(t, o, pr, start, p + 1, e, true, acc, r)
    } else {
        r == Err::<(Seq<Expression>, int), ParseError>(ParseError::ExpectedComma)
    }
}

/// Whether a call can apply to the last element of a flat list.
pub open spec fn ends_with_operand(acc: Seq<ExprObj>) -> bool {
    acc.len() > 0 && !(acc.last() is Operator)
}

/// A group's elements from `p` on (its `(` is at `start`), up to `)`.
pub open spec fn group_rel(t: Seq<String>, o: Seq<String>, pr: Seq<i32>, start: int, p: int, e: int, acc: Seq<ExprObj>, r: Result<(Seq<ExprObj>, int), ParseError>) -> bool
    decreases e - start, 1nat, e - p,
{
    if p <= start || p > e {
        false
    } else if p == e {
        r == Err::<(Seq<ExprObj>, int), ParseError>(ParseError::UnexpectedEnd)
    } else if t[p]@ == ")"@ {
        r == Ok::<(Seq<ExprObj>, int), ParseError>((acc, p + 1))
    } else {
        exists|or: Result<(Seq<ExprObj>, int), ParseError>| #[trigger] step(or, p) && obj_rel(t, o, pr, p, e, ends_with_operand(acc), or) && match or {
            Err(x) => r == Err::<(Seq<ExprObj>, int), ParseError>(x),
            Ok((objs, q)) => if q > p && q <= e { group_rel(t, o, pr, start, q, e, acc + objs, r) } else { false },
        }
    }
}

/// The flat-list elements that start at `pos`: a function literal, a call's
/// `(` with its argument tuple (after an operand), a group, or one plain token.
pub open spec fn obj_rel(t: Seq<String>, o: Seq<String>, pr: Seq<i32>, pos: int, e: int, operand: bool, r: Result<(Seq<ExprObj>, int), ParseError>) -> bool
    decreases e - pos, 2nat, 0nat,
{
    if pos < 0 || pos >= e {
        false
    } else if t[pos]@ == "function"@ {
        exists|fr: Result<(Value, int), ParseError>| #[trigger] step(fr, pos) && function_rel(t, o, pr, pos + 1, e, fr) && match fr {
            Err(x) => r == Err::<(Seq<ExprObj>, int), ParseError>(x),
            Ok((v, q)) => r == Ok::<(Seq<ExprObj>, int), ParseError>((seq![ExprObj::Value(v)], q)),
        }
    } else if t[pos]@ == "("@ && operand {
        exists|ar: Result<(Seq<Expression>, int), ParseError>| #[trigger] step(ar, pos) && args_rel(t, o, pr, pos, pos + 1, e, true, Seq::empty(), ar) && match ar {
            Err(x) => r == Err::<(Seq<ExprObj>, int), ParseError>(x),
            Ok((es, q)) => r is Ok && r->Ok_0.1 == q && r->Ok_0.0.len() == 2 && r->Ok_0.0[0] is Operator
                && r->Ok_0.0[0]->Operator_0@ == "("@ && r->Ok_0.0[1] is Value && tuple_value(r->Ok_0.0[1]->Value_0, es),
        }
    } else if t[pos]@ == "("@ {
        exists|gr: Result<(Seq<ExprObj>, int), ParseError>| #[trigger] step(gr, pos) && group_rel(t, o, pr, pos, pos + 1, e, Seq::empty(), gr) && match gr {
            Err(x) => r == Err::<(Seq<ExprObj>, int), ParseError>(x),
            Ok((inner, q)) => r is Ok && r->Ok_0.1 == q && r->Ok_0.0.len() == 1 && r->Ok_0.0[0] is Parentheses
                && r->Ok_0.0[0]->Parentheses_0@ == inner,
        }
    } else {
        r == Ok::<(Seq<ExprObj>, int), ParseError>((seq![token_obj(t[pos], o)], pos + 1))
    }
}

/// The flat list from `p` on, up to the first terminator outside brackets or
/// the window's end (the expression started at `start`).
pub open spec fn flat_rel(t: Seq<String>, o: Seq<String>, pr: Seq<i32>, start: int, p: int, e: int, acc: Seq<ExprObj>, r: Result<(Seq<ExprObj>, int), ParseError>) -> bool
    decreases e - start, 3nat, e - p,
{
    if p < start || p > e {
        false
    } else if p == e || is_terminator(t[p]@) {
        r == Ok::<(Seq<ExprObj>, int), ParseError>((acc, p))
    } else {
        exists|or: Result<(Seq<ExprObj>, int), ParseError>| #[trigger] step(or, p) && obj_rel(t, o, pr, p, e, ends_with_operand(acc), or) && match or {
            Err(x) => r == Err::<(Seq<ExprObj>, int), ParseError>(x),
            Ok((objs, q)) => if q > p && q <= e { flat_rel(t, o, pr, start, q, e, acc + objs, r) } else { false },
        }
    }
}

/// The expression from `pos`: its flat list folded by precedence; an empty
/// list is an error.
pub open spec fn expr_rel(t: Seq<String>, o: Seq<String>, pr: Seq<i32>, pos: int, e: int, r: Result<(Expression, int), ParseError>) -> bool
    decreases e - pos, 4nat, 0nat,
{
    exists|fr: Result<(Seq<ExprObj>, int), ParseError>| #[trigger] step(fr, pos) && flat_rel(t, o, pr, pos, pos, e, Seq::empty(), fr) && match fr {
        Err(x) => r == Err::<(Expression, int), ParseError>(x),
        Ok((objs, q)) => if q == pos {
            r == Err::<(Expression, int), ParseError>(ParseError::EmptyExpression)
        } else {
            r == match build(objs, o, pr) {
                Ok(x) => Ok::<(Expression, int), ParseError>((x, q)),
                Err(x) => Err(x),
            }
        },
    }
}

/// The statement from `pos`: a declaration after `let`, a return after
/// `return`, else an expression statement, each with the expression after it.
pub open spec fn stmt_parse_rel(t: Seq<String>, o: Seq<String>, pr: Seq<i32>, pos: int, e: int, r: Result<(Statement, int), ParseError>) -> bool
    decreases e - pos, 5nat, 0nat,
{
    if pos < 0 || pos >= e {
        false
    } else {
        let keyword = t[pos]@ == "let"@ || t[pos]@ == "return"@;
        let from = if keyword { pos + 1 } else { pos };
        exists|er: Result<(Expression, int), ParseError>| #[trigger] step(er, pos) && expr_rel(t, o, pr, from, e, er) && r == match er {
            Err(x) => Err::<(Statement, int), ParseError>(x),
            Ok((x, q)) => Ok((if t[pos]@ == "let"@ {
                Statement::VariableDeclaration(x)
            } else if t[pos]@ == "return"@ {
                Statement::ReturnStatement(x)
            } else {
                Statement::Expression(x)
            }, q)),
        }
    }
}

/// The statements from `p` on (the scope starts at `start`), up to `}` or the
/// window's end; a `;` after a statement is consumed, any other token but `}`
/// after it is an error.
pub open spec fn stmts_parse_rel(t: Seq<String>, o: Seq<String>, pr: Seq<i32>, start: int, p: int, e: int, acc: Seq<Statement>, r: Result<(Seq<Statement>, int), ParseError>) -> bool
    decreases e - start, 6nat, e - p,
{
    if p < start || p > e {
        false
    } else if p == e || t[p]@ == "}"@ {
        r == Ok::<(Seq<Statement>, int), ParseError>((acc, p))
    } else {
        exists|sr: Result<(Statement, int), ParseError>| #[trigger] step(sr, p) && stmt_parse_rel(t, o, pr, p, e, sr) && match sr {
            Err(x) => r == Err::<(Seq<Statement>, int), ParseError>(x),
            Ok((st, q)) => if q <= p || q > e {
                false
            } else if q < e && t[q]@ == ";"@ {
                stmts_parse_rel(t, o, pr, start, q + 1, e, acc.push(st), r)
            } else if q < e && t[q]@ != "}"@ {
                r == Err::<(Seq<Statement>, int), ParseError>(ParseError::UnexpectedToken)
            } else {
                stmts_parse_rel(t, o, pr, start, q, e, acc.push(st), r)
            },
        }
    }
}

/// The scope from `pos`: its statements, no parent, no variables and no
/// return value.
pub open spec fn scope_parse_rel(t: Seq<String>, o: Seq<String>, pr: Seq<i32>, pos: int, e: int, r: Result<(Scope, int), ParseError>) -> bool
    decreases e - pos, 7nat, 0nat,
{
    exists|lr: Result<(Seq<Statement>, int), ParseError>| #[trigger] step(lr, pos) && stmts_parse_rel(t, o, pr, pos, pos, e, Seq::empty(), lr) && match lr {
        Err(x) => r == Err::<(Scope, int), ParseError>(x),
        Ok((stmts, q)) => r is Ok && r->Ok_0.1 == q && r->Ok_0.0.statements@ == stmts && r->Ok_0.0.parent is None
            && r->Ok_0.0.accessible_variables@.len() == 0 && r->Ok_0.0.return_value is None,
    }
}

} // verus!
