use vstd::prelude::*;
use std::rc::Rc;
use crate::ast::{Callable, Constant, Expression, ExpressionType, Statement, Value, ValueType};
use crate::constructors::constructed;
use crate::executor::{
    EvalError, Runtime, VVA, Variable, cell_result, declared, expression_size, first_named,
    parameters_bound, pushed_cell, returned, unit_result, value_operator_applied,
};

verus! {

// The meaning of evaluation, as relations between the runtime before a step,
// the runtime after it and the step's outcome. Each relation follows one
// evaluation function; `d` is the number of calls that may still be nested.
// Every intermediate state is named through `passes_through`, which holds of any pair
// and only marks the witnesses of each step.

/// Marks an intermediate state and the result that goes with it.
pub open spec fn passes_through<A, B>(a: A, b: B) -> bool {
    true
}

/// A cell index as an evaluation result.
pub open spec fn vva_of(r: Result<usize, EvalError>) -> Result<VVA, EvalError> {
    match r {
        Ok(i) => Ok(VVA::Variable(i)),
        Err(e) => Err(e),
    }
}

/// The member of cell `l` that the name `v` denotes.
pub open spec fn member_result(cells: Seq<Variable>, l: usize, v: Value) -> Result<usize, EvalError> {
    match v.variable {
        Some(n) => match first_named(cells, cells[l as int].members@, n@) {
            Some(j) => Ok(cells[l as int].members@[j]),
            None => Err(EvalError::NoSuchMember),
        },
        None => Err(EvalError::MalformedExpression),
    }
}

/// Turning an evaluation result into a cell: a cell stays, a name is looked up.
pub open spec fn to_variable_rel(a: Runtime, v: VVA, s: int, b: Runtime, c: Result<usize, EvalError>) -> bool {
    match v {
        VVA::Variable(i) => b == a && c == Ok::<usize, EvalError>(i),
        VVA::Value(val) => constructed(b, a, val, s, c),
    }
}

/// A new nameless Undefined cell is the result.
pub open spec fn fresh_undefined(a: Runtime, b: Runtime, r: Result<usize, EvalError>) -> bool {
    &&& b.scopes == a.scopes
    &&& b.output == a.output
    &&& pushed_cell(b.cells@, a.cells@, None, Constant::Undefined)
    &&& r == Ok::<usize, EvalError>(a.cells@.len() as usize)
}

/// A nameless copy of cell `c` is added.
pub open spec fn snapshot_taken(b: Runtime, a: Runtime, c: usize) -> bool {
    &&& b.scopes == a.scopes
    &&& b.output == a.output
    &&& b.cells@.len() == a.cells@.len() + 1
    &&& b.cells@.take(a.cells@.len() as int) == a.cells@
    &&& b.cells@[a.cells@.len() as int].name is None
    &&& b.cells@[a.cells@.len() as int].constant == a.cells@[c as int].constant
    &&& b.cells@[a.cells@.len() as int].members@ == a.cells@[c as int].members@
}

/// A call frame is added: the function body's statements, parent `caller`,
/// the bound parameters as its variables and no return value.
pub open spec fn frame_pushed(b: Runtime, a: Runtime, statements: Rc<Vec<Statement>>, caller: usize, bound: Seq<usize>) -> bool {
    let k = a.scopes@.len() as int;
    &&& b.cells == a.cells
    &&& b.output == a.output
    &&& b.scopes@.len() == k + 1
    &&& b.scopes@.take(k) == a.scopes@
    &&& b.scopes@[k].statements == statements
    &&& b.scopes@[k].parent == Some(caller)
    &&& b.scopes@[k].accessible_variables@ == bound
    &&& b.scopes@[k].return_value is None
}

/// Evaluating an expression in scope `s`: a name stays unresolved, a
/// constant becomes a new cell, an operation evaluates its left operand to a
/// cell, then its right operand, then applies its operator (`.` with a name
/// on the right reads a member).
pub open spec fn eval_rel(a: Runtime, e: Expression, s: int, d: u64, b: Runtime, r: Result<VVA, EvalError>) -> bool
    decreases d, 1nat, expression_size(e),
{
    match e.expression_type {
        ExpressionType::Undefined => b == a
            && r == Ok::<VVA, EvalError>(VVA::Value(Value { value_type: ValueType::Undefined, variable: None, constant: None })),
        ExpressionType::Value => match e.value {
            None => b == a && r == Err::<VVA, EvalError>(EvalError::MalformedExpression),
            Some(v) => if v.value_type is VariableName {
                b == a && r == Ok::<VVA, EvalError>(VVA::Value(v))
            } else {
                !(r matches Ok(VVA::Value(_))) && constructed(b, a, v, s, cell_result(r))
            },
        },
        ExpressionType::Operation => if e.left is Some && e.right is Some && e.operator is Some {
            let left = *e.left->Some_0;
            let right = *e.right->Some_0;
            let op = e.operator->Some_0;
            exists|m1: Runtime, lv: Result<VVA, EvalError>| #[trigger] passes_through(m1, lv) && eval_rel(a, left, s, d, m1, lv) && match lv {
                Err(x) => b == m1 && r == Err::<VVA, EvalError>(x),
                Ok(lvv) => exists|m2: Runtime, lc: Result<usize, EvalError>| #[trigger] passes_through(m2, lc) && to_variable_rel(m1, lvv, s, m2, lc) && match lc {
                    Err(x) => b == m2 && r == Err::<VVA, EvalError>(x),
                    Ok(li) => exists|m3: Runtime, rv: Result<VVA, EvalError>| #[trigger] passes_through(m3, rv) && eval_rel(m2, right, s, d, m3, rv) && match rv {
                        Err(x) => b == m3 && r == Err::<VVA, EvalError>(x),
                        Ok(VVA::Variable(c)) => exists|res: Result<usize, EvalError>|
                            #[trigger] passes_through(c, res) && apply_rel(m3, li, c, op, s, d, b, res) && r == vva_of(res),
                        Ok(VVA::Value(v)) => if op@ == "."@ && v.value_type is VariableName {
                            b == m3 && r == vva_of(member_result(m3.cells@, li, v))
                        } else {
                            exists|m4: Runtime, cc: Result<usize, EvalError>| #[trigger] passes_through(m4, cc) && constructed(m4, m3, v, s, cc) && match cc {
                                Err(x) => b == m4 && r == Err::<VVA, EvalError>(x),
                                Ok(ci) => exists|res: Result<usize, EvalError>|
                                    #[trigger] passes_through(ci, res) && apply_rel(m4, li, ci, op, s, d, b, res) && r == vva_of(res),
                            }
                        },
                    },
                },
            }
        } else {
            b == a && r == Err::<VVA, EvalError>(EvalError::MalformedExpression)
        },
    }
}

/// Applying an operator to two cells: `(` calls the left cell's function with
/// the right cell's argument tuple; any other operator is a value operator.
pub open spec fn apply_rel(a: Runtime, l: usize, c: usize, op: String, s: int, d: u64, b: Runtime, r: Result<usize, EvalError>) -> bool
    decreases d, 0nat, 1nat,
{
    if op@ != "("@ {
        b.scopes == a.scopes && b.output == a.output && value_operator_applied(b.cells@, a.cells@, l as int, c as int, op@, r)
    } else {
        match a.cells@[l as int].constant {
            Constant::Function(f) => match a.cells@[c as int].constant {
                Constant::Tuple(t) => call_rel(a, *f, t.expressions@, s as usize, d, b, r),
                _ => b == a && r == Err::<usize, EvalError>(EvalError::NotATuple),
            },
            _ => b == a && r == Err::<usize, EvalError>(EvalError::WrongOperandType),
        }
    }
}

/// Calling `callee` with the argument expressions `args` from scope `caller`.
/// A user function evaluates its first arguments (as many as it has
/// parameters) in `caller`, binds its parameters, runs its body in a new frame
/// whose parent is `caller`, and yields the frame's return value or a new
/// Undefined cell. `print` records its arguments' values.
pub open spec fn call_rel(a: Runtime, callee: Callable, args: Seq<Expression>, caller: usize, d: u64, b: Runtime, r: Result<usize, EvalError>) -> bool
    decreases d, 0nat, 0nat,
{
    if d == 0 {
        b == a && r == Err::<usize, EvalError>(EvalError::CallDepthExceeded)
    } else {
        match callee {
            Callable::Print(_) => print_rel(a, args, 0, caller, (d - 1) as u64, b, r),
            Callable::Function(f) => {
                let n = if f.args@.len() < args.len() { f.args@.len() } else { args.len() };
                exists|m1: Runtime, cells: Result<Seq<usize>, EvalError>| #[trigger] passes_through(m1, cells)
                    && arguments_rel(a, args, n as int, 0, caller, (d - 1) as u64, Seq::empty(), m1, cells) && match cells {
                    Err(x) => b == m1 && r == Err::<usize, EvalError>(x),
                    Ok(cs) => exists|m2: Runtime, bound: Seq<usize>| #[trigger] passes_through(m2, bound)
                        && parameters_bound(m2.cells@, m1.cells@, f.args@, cs, bound)
                        && m2.scopes == m1.scopes && m2.output == m1.output
                        && exists|m3: Runtime, m4: Runtime| #[trigger] passes_through(m3, m4)
                        && frame_pushed(m3, m2, f.scope.statements, caller, bound)
                        && exists|sr: Result<Option<VVA>, EvalError>| #[trigger] passes_through(m4, sr)
                        && scope_rel(m3, m2.scopes@.len() as int, (d - 1) as u64, m4, sr) && match sr {
                        Err(x) => b == m4 && r == Err::<usize, EvalError>(x),
                        Ok(_) => match m4.scopes@[m2.scopes@.len() as int].return_value {
                            Some(rc) => b == m4 && r == Ok::<usize, EvalError>(rc),
                            None => fresh_undefined(m4, b, r),
                        },
                    },
                }
            },
        }
    }
}

/// `print` from argument `i` on: each argument is evaluated in `caller`, turned
/// into a cell, and its value appended to the output; then a new Undefined
/// cell is the result.
pub open spec fn print_rel(a: Runtime, args: Seq<Expression>, i: int, caller: usize, d: u64, b: Runtime, r: Result<usize, EvalError>) -> bool
    decreases d, 5nat, args.len() - i,
{
    if i < 0 || i >= args.len() {
        fresh_undefined(a, b, r)
    } else {
        exists|m1: Runtime, v: Result<VVA, EvalError>| #[trigger] passes_through(m1, v) && eval_rel(a, args[i], caller as int, d, m1, v) && match v {
            Err(x) => b == m1 && r == Err::<usize, EvalError>(x),
            Ok(vv) => exists|m2: Runtime, c: Result<usize, EvalError>| #[trigger] passes_through(m2, c) && to_variable_rel(m1, vv, caller as int, m2, c) && match c {
                Err(x) => b == m2 && r == Err::<usize, EvalError>(x),
                Ok(ci) => exists|m3: Runtime| #[trigger] passes_through(m3, ci) && print_rel(m3, args, i + 1, caller, d, b, r)
                    && m3.cells == m2.cells && m3.scopes == m2.scopes
                    && m3.output@ == m2.output@.push(m2.cells@[ci as int].constant),
            },
        }
    }
}

/// The arguments `i..n` of a user-function call, each evaluated in `caller`,
/// turned into a cell and copied; `cells` are the copies, after `acc`.
pub open spec fn arguments_rel(a: Runtime, args: Seq<Expression>, n: int, i: int, caller: usize, d: u64, acc: Seq<usize>, b: Runtime, cells: Result<Seq<usize>, EvalError>) -> bool
    decreases d, 5nat, n - i,
{
    if i < 0 || i >= n || i >= args.len() {
        b == a && cells == Ok::<Seq<usize>, EvalError>(acc)
    } else {
        exists|m1: Runtime, v: Result<VVA, EvalError>| #[trigger] passes_through(m1, v) && eval_rel(a, args[i], caller as int, d, m1, v) && match v {
            Err(x) => b == m1 && cells == Err::<Seq<usize>, EvalError>(x),
            Ok(vv) => exists|m2: Runtime, c: Result<usize, EvalError>| #[trigger] passes_through(m2, c) && to_variable_rel(m1, vv, caller as int, m2, c) && match c {
                Err(x) => b == m2 && cells == Err::<Seq<usize>, EvalError>(x),
                Ok(ci) => exists|m3: Runtime| #[trigger] passes_through(m3, ci) && snapshot_taken(m3, m2, ci)
                    && arguments_rel(m3, args, n, i + 1, caller, d, acc.push(m2.cells@.len() as usize), b, cells),
            },
        }
    }
}

/// Executing a statement in scope `s`.
pub open spec fn stmt_rel(a: Runtime, st: Statement, s: int, d: u64, b: Runtime, r: Result<Option<VVA>, EvalError>) -> bool
    decreases d, 2nat, 1nat,
{
    match st {
        Statement::Undefined => b == a && r == Ok::<Option<VVA>, EvalError>(None),
        Statement::Expression(e) => exists|v: Result<VVA, EvalError>| #[trigger] passes_through(b, v) && eval_rel(a, e, s, d, b, v) && r == match v {
            Ok(x) => Ok::<Option<VVA>, EvalError>(Some(x)),
            Err(x) => Err(x),
        },
        Statement::VariableDeclaration(e) => binding_rel(a, e, true, s, d, b, r),
        Statement::ReturnStatement(e) => binding_rel(a, e, false, s, d, b, r),
    }
}

/// `let e` (when `declare`) or `return e`: the cell that `e` evaluates to is
/// declared in scope `s`, or stored as its return value.
pub open spec fn binding_rel(a: Runtime, e: Expression, declare: bool, s: int, d: u64, b: Runtime, r: Result<Option<VVA>, EvalError>) -> bool
    decreases d, 2nat, 0nat,
{
    exists|m1: Runtime, v: Result<VVA, EvalError>| #[trigger] passes_through(m1, v) && eval_rel(a, e, s, d, m1, v) && match v {
        Err(x) => b == m1 && r == Err::<Option<VVA>, EvalError>(x),
        Ok(vv) => exists|m2: Runtime, c: Result<usize, EvalError>| #[trigger] passes_through(m2, c) && to_variable_rel(m1, vv, s, m2, c) && match c {
            Err(x) => b == m2 && r == Err::<Option<VVA>, EvalError>(x),
            Ok(ci) => if declare {
                declared(b, m2, s, ci, unit_result(r)) && (r is Ok ==> r == Ok::<Option<VVA>, EvalError>(None))
            } else {
                r == Ok::<Option<VVA>, EvalError>(None) && returned(b, m2, s, ci)
            },
        },
    }
}

/// The statements `i..` of scope `s`, in order, each on the runtime the one
/// before left; execution stops after the first that sets the return value.
pub open spec fn stmts_rel(a: Runtime, stmts: Seq<Statement>, i: int, s: int, d: u64, b: Runtime, r: Result<Option<VVA>, EvalError>) -> bool
    decreases d, 3nat, stmts.len() - i,
{
    if i < 0 || i >= stmts.len() {
        b == a && r == Ok::<Option<VVA>, EvalError>(None)
    } else {
        exists|m: Runtime, sr: Result<Option<VVA>, EvalError>| #[trigger] passes_through(m, sr) && stmt_rel(a, stmts[i], s, d, m, sr) && match sr {
            Err(x) => b == m && r == Err::<Option<VVA>, EvalError>(x),
            Ok(_) => match m.scopes@[s].return_value {
                Some(v) => b == m && r == Ok::<Option<VVA>, EvalError>(Some(VVA::Variable(v))),
                None => stmts_rel(m, stmts, i + 1, s, d, b, r),
            },
        }
    }
}

/// Executing scope `s`: its statements in order.
pub open spec fn scope_rel(a: Runtime, s: int, d: u64, b: Runtime, r: Result<Option<VVA>, EvalError>) -> bool
    decreases d, 4nat, 0nat,
{
    stmts_rel(a, a.scopes@[s].statements@, 0, s, d, b, r)
}

} // verus!
