use vstd::prelude::*;
use std::rc::Rc;
use crate::ast::{Callable, Constant, Tuple, Value, ValueType};
use crate::executor::{EvalError, Runtime, lookup, pushed_cell};

verus! {

/// `after` and `r` are what making a cell for `value` in scope `scope` of
/// `before` gives: a name denotes its nearest binding, or a new cell of that
/// name holding Undefined where it is bound nowhere; a constant or Undefined
/// gets a new nameless cell; a value missing its field is malformed. No scope
/// and no output changes.
pub open spec fn constructed(after: Runtime, before: Runtime, value: Value, scope: int, r: Result<usize, EvalError>) -> bool {
    after.scopes == before.scopes && after.output == before.output && match value.value_type {
        ValueType::Undefined => r == Ok::<usize, EvalError>(before.cells@.len() as usize)
            && pushed_cell(after.cells@, before.cells@, None, Constant::Undefined),
        ValueType::VariableName => match value.variable {
            Some(n) => match lookup(before.cells@, before.scopes@, scope, n@) {
                Some(i) => r == Ok::<usize, EvalError>(i) && after.cells == before.cells,
                None => r == Ok::<usize, EvalError>(before.cells@.len() as usize)
                    && pushed_cell(after.cells@, before.cells@, Some(n), Constant::Undefined),
            },
            None => r == Err::<usize, EvalError>(EvalError::MalformedExpression) && after == before,
        },
        ValueType::Constant => match value.constant {
            Some(c) => r == Ok::<usize, EvalError>(before.cells@.len() as usize)
                && pushed_cell(after.cells@, before.cells@, None, c),
            None => r == Err::<usize, EvalError>(EvalError::MalformedExpression) && after == before,
        },
    }
}

/// A new nameless cell holding `integer`.
pub fn construct_variable_from_integer(runtime: &mut Runtime, integer: i64) -> (r: usize)
    requires
        old(runtime).wf(),
    ensures
        r == old(runtime).cells@.len(),
        pushed_cell(final(runtime).cells@, old(runtime).cells@, None, Constant::Integer(integer)),
        final(runtime).scopes == old(runtime).scopes,
        final(runtime).output == old(runtime).output,
        final(runtime).extends(&*old(runtime)),
{
    runtime.new_cell(None, Constant::Integer(integer))
}

/// A new nameless cell holding the callable `function`.
pub fn construct_variable_from_function(runtime: &mut Runtime, function: Rc<Callable>) -> (r: usize)
    requires
        old(runtime).wf(),
    ensures
        r == old(runtime).cells@.len(),
        pushed_cell(final(runtime).cells@, old(runtime).cells@, None, Constant::Function(function)),
        final(runtime).scopes == old(runtime).scopes,
        final(runtime).output == old(runtime).output,
        final(runtime).extends(&*old(runtime)),
{
    runtime.new_cell(None, Constant::Function(function))
}

/// A new nameless cell holding the argument list `tuple`.
pub fn construct_variable_from_tuple(runtime: &mut Runtime, tuple: Rc<Tuple>) -> (r: usize)
    requires
        old(runtime).wf(),
    ensures
        r == old(runtime).cells@.len(),
        pushed_cell(final(runtime).cells@, old(runtime).cells@, None, Constant::Tuple(tuple)),
        final(runtime).scopes == old(runtime).scopes,
        final(runtime).output == old(runtime).output,
        final(runtime).extends(&*old(runtime)),
{
    runtime.new_cell(None, Constant::Tuple(tuple))
}

/// The cell that a literal value stands for in scope `scope`.
///
/// A name denotes its nearest binding; a name bound nowhere gets a new cell of
/// that name holding Undefined, which no scope holds. A constant, or
/// Undefined, gets a new nameless cell.
pub fn construct_variable(runtime: &mut Runtime, value: Value, scope: usize) -> (r: Result<usize, EvalError>)
    requires
        old(runtime).wf(),
        scope < old(runtime).scopes@.len(),
    ensures
        final(runtime).extends(&*old(runtime)),
        final(runtime).scopes == old(runtime).scopes,
        final(runtime).output == old(runtime).output,
        r matches Ok(i) ==> i < final(runtime).cells@.len(),
        constructed(*final(runtime), *old(runtime), value, scope as int, r),
{
    match value.value_type {
        ValueType::Undefined => Ok(runtime.new_cell(None, Constant::Undefined)),
        ValueType::VariableName => match value.variable {
            Some(n) => match runtime.lookup(scope, &n) {
                Some(i) => Ok(i),
                None => Ok(runtime.new_cell(Some(n), Constant::Undefined)),
            },
            None => Err(EvalError::MalformedExpression),
        },
        ValueType::Constant => match value.constant {
            Some(Constant::Integer(i)) => Ok(construct_variable_from_integer(runtime, i)),
            Some(Constant::Function(f)) => Ok(construct_variable_from_function(runtime, f)),
            Some(Constant::Tuple(t)) => Ok(construct_variable_from_tuple(runtime, t)),
            Some(Constant::Undefined) => Ok(runtime.new_cell(None, Constant::Undefined)),
            None => Err(EvalError::MalformedExpression),
        },
    }
}

} // verus!
