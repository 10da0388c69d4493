use vstd::prelude::*;
use std::rc::Rc;
use crate::ast::{Callable, Constant, Expression, ExpressionType, Function, Scope, Statement, Tuple, Value, ValueType};
use crate::constructors::{construct_variable, constructed};
use crate::operators::{is_lexeme, string_eq};
use crate::semantics::{apply_rel, arguments_rel, call_rel, eval_rel, frame_pushed, print_rel, scope_rel, snapshot_taken, stmt_rel, stmts_rel, to_variable_rel, passes_through};

verus! {

/// A storage cell: an optional name, a current value and named member cells.
/// Members are indices into `Runtime::cells`.
pub struct Variable {
    pub name: Option<String>,
    pub constant: Constant,
    pub members: Vec<usize>,
}

/// What evaluating an expression gives: a cell, or a name not yet resolved.
pub enum VVA {
    Variable(usize),
    Value(Value),
}

/// Why a program stopped.
#[derive(Clone, Copy, PartialEq, Eq, Structural, Debug)]
pub enum EvalError {
    UnknownOperator,
    WrongOperandType,
    NotAnInteger,
    NotATuple,
    DivisionByZero,
    Overflow,
    NoSuchMember,
    NamelessVariable,
    MalformedExpression,
    CallDepthExceeded,
}

/// The interpreter's memory: every cell and every scope lives in an arena and
/// is referred to by its index. `output` collects what `print` wrote.
pub struct Runtime {
    pub cells: Vec<Variable>,
    pub scopes: Vec<Scope>,
    pub output: Vec<Constant>,
}

pub open spec fn cell_wf(c: Variable, ncells: int) -> bool {
    forall|k: int| 0 <= k < c.members@.len() ==> (#[trigger] c.members@[k]) < ncells
}

pub open spec fn scope_wf(s: Scope, index: int, ncells: int) -> bool {
    &&& (s.parent matches Some(p) ==> p < index)
    &&& (forall|j: int| 0 <= j < s.accessible_variables@.len() ==> (#[trigger] s.accessible_variables@[j]) < ncells)
    &&& (s.return_value matches Some(r) ==> r < ncells)
}

/// The index of the first cell of `vars`, from position `k` on, named `name`.
pub open spec fn first_named_from(cells: Seq<Variable>, vars: Seq<usize>, name: Seq<char>, k: int) -> Option<int>
    decreases vars.len() - k,
{
    if k < 0 || k >= vars.len() {
        None
    } else if vars[k] < cells.len() && cells[vars[k] as int].name is Some && cells[vars[k] as int].name->Some_0@ == name {
        Some(k)
    } else {
        first_named_from(cells, vars, name, k + 1)
    }
}

pub open spec fn first_named(cells: Seq<Variable>, vars: Seq<usize>, name: Seq<char>) -> Option<int> {
    first_named_from(cells, vars, name, 0)
}

/// The cell that `name` denotes in scope `s`: the first of the scope's own
/// variables with that name, else what it denotes in the parent scope.
pub open spec fn lookup(cells: Seq<Variable>, scopes: Seq<Scope>, s: int, name: Seq<char>) -> Option<usize>
    decreases s,
{
    if s < 0 || s >= scopes.len() {
        None
    } else {
        let vars = scopes[s].accessible_variables@;
        match first_named(cells, vars, name) {
            Some(j) => Some(vars[j]),
            None => match scopes[s].parent {
                Some(p) => if p < s { lookup(cells, scopes, p as int, name) } else { None },
                None => None,
            },
        }
    }
}

/// `after` is cell `target` after it was assigned the value and members of `source`.
pub open spec fn assigned(after: Variable, target: Variable, source: Variable) -> bool {
    after.name == target.name && after.constant == source.constant && after.members@ == source.members@
}

/// `after` is `before` with cell `target` assigned from cell `source`.
pub open spec fn assigned_in(after: Seq<Variable>, before: Seq<Variable>, target: int, source: int) -> bool {
    &&& after.len() == before.len()
    &&& assigned(after[target], before[target], before[source])
    &&& forall|i: int| 0 <= i < after.len() && i != target ==> #[trigger] after[i] == before[i]
}

/// The result of an arithmetic operator on two integers; `+=`, `-=`, `*=` and
/// `/=` compute as `+`, `-`, `*` and `/`. Division truncates toward zero.
pub open spec fn arithmetic(op: Seq<char>, a: i64, b: i64) -> Result<i64, EvalError> {
    let r = if op == "+"@ || op == "+="@ {
        a.checked_add(b)
    } else if op == "-"@ || op == "-="@ {
        a.checked_sub(b)
    } else if op == "*"@ || op == "*="@ {
        a.checked_mul(b)
    } else {
        a.checked_div(b)
    };
    if (op == "/"@ || op == "/="@) && b == 0 {
        Err(EvalError::DivisionByZero)
    } else {
        match r {
            Some(v) => Ok(v),
            None => Err(EvalError::Overflow),
        }
    }
}

pub open spec fn is_arithmetic(op: Seq<char>) -> bool {
    op == "+"@ || op == "-"@ || op == "*"@ || op == "/"@
}

pub open spec fn is_compound(op: Seq<char>) -> bool {
    op == "+="@ || op == "-="@ || op == "*="@ || op == "/="@
}

/// A cell with the given name and value and no members.
pub open spec fn fresh_cell(v: Variable, name: Option<String>, constant: Constant) -> bool {
    v.name == name && v.constant == constant && v.members@.len() == 0
}

/// `after` is `before` with one cell added, named `name` and holding `constant`.
pub open spec fn pushed_cell(after: Seq<Variable>, before: Seq<Variable>, name: Option<String>, constant: Constant) -> bool {
    after.len() == before.len() + 1 && after.take(before.len() as int) == before
        && fresh_cell(after[before.len() as int], name, constant)
}

pub fn copy_constant(c: &Constant) -> (r: Constant)
    ensures
        r == *c,
{
    match c {
        Constant::Undefined => Constant::Undefined,
        Constant::Integer(i) => Constant::Integer(*i),
        Constant::Function(f) => Constant::Function(Rc::clone(f)),
        Constant::Tuple(t) => Constant::Tuple(Rc::clone(t)),
    }
}

fn copy_name(n: &Option<String>) -> (r: Option<String>)
    ensures
        r == *n,
{
    match n {
        Some(s) => Some(s.clone()),
        None => None,
    }
}

impl Variable {
    /// Takes the value and the members of `other`; the name stays.
    pub fn assign(&mut self, other: &Variable)
        ensures
            assigned(*final(self), *old(self), *other),
    {
        self.constant = copy_constant(&other.constant);
        self.members = other.members.clone();
        proof {
            assert(self.members@ =~= other.members@);
        }
    }
}

impl Runtime {
    pub open spec fn wf(&self) -> bool {
        &&& forall|i: int| 0 <= i < self.cells@.len() ==> cell_wf(#[trigger] self.cells@[i], self.cells@.len() as int)
        &&& forall|k: int| 0 <= k < self.scopes@.len() ==> scope_wf(#[trigger] self.scopes@[k], k, self.cells@.len() as int)
    }

    /// What every step of evaluation keeps: the arenas only grow, and a scope
    /// keeps its statements and its parent.
    pub open spec fn extends(&self, before: &Runtime) -> bool {
        &&& self.wf()
        &&& self.cells@.len() >= before.cells@.len()
        &&& self.scopes@.len() >= before.scopes@.len()
        &&& forall|k: int| 0 <= k < before.scopes@.len() ==> (#[trigger] self.scopes@[k]).statements == before.scopes@[k].statements
            && self.scopes@[k].parent == before.scopes@[k].parent
        &&& forall|i: int| 0 <= i < before.cells@.len() ==> (#[trigger] self.cells@[i]).name == before.cells@[i].name
    }

    /// A runtime whose only scope is `root`.
    pub fn new(root: Scope) -> (r: Runtime)
        requires
            root.parent.is_none(),
            root.accessible_variables@.len() == 0,
            root.return_value.is_none(),
        ensures
            r.wf(),
            r.cells@.len() == 0,
            r.scopes@ == seq![root],
            r.output@.len() == 0,
    {
        let mut scopes: Vec<Scope> = Vec::new();
        scopes.push(root);
        Runtime { cells: Vec::new(), scopes, output: Vec::new() }
    }

    /// Adds a cell and gives its index.
    pub fn new_cell(&mut self, name: Option<String>, constant: Constant) -> (r: usize)
        requires
            old(self).wf(),
        ensures
            final(self).wf(),
            r == old(self).cells@.len(),
            pushed_cell(final(self).cells@, old(self).cells@, name, constant),
            final(self).scopes == old(self).scopes,
            final(self).extends(&*old(self)),
            final(self).output == old(self).output,
    {
        let r = self.cells.len();
        self.cells.push(Variable { name, constant, members: Vec::new() });
        proof {
            assert(self.cells@.take(r as int) =~= old(self).cells@);
            assert forall|i: int| 0 <= i < self.cells@.len() implies cell_wf(#[trigger] self.cells@[i], self.cells@.len() as int) by {
                if i < r {
                    assert(cell_wf(old(self).cells@[i], r as int));
                }
            }
            assert forall|k: int| 0 <= k < self.scopes@.len() implies scope_wf(#[trigger] self.scopes@[k], k, self.cells@.len() as int) by {
                assert(scope_wf(old(self).scopes@[k], k, r as int));
            }
        }
        r
    }

    /// Seeds scope `scope` with a named cell holding `constant`, as the host
    /// does for its builtins.
    pub fn bind_host_value(&mut self, scope: usize, name: String, constant: Constant) -> (r: usize)
        requires
            old(self).wf(),
            scope < old(self).scopes@.len(),
        ensures
            final(self).wf(),
            r == old(self).cells@.len(),
            pushed_cell(final(self).cells@, old(self).cells@, Some(name), constant),
            final(self).scopes@.len() == old(self).scopes@.len(),
            final(self).scopes@[scope as int].accessible_variables@ == old(self).scopes@[scope as int].accessible_variables@.push(r),
            final(self).scopes@[scope as int].return_value == old(self).scopes@[scope as int].return_value,
            final(self).output == old(self).output,
            final(self).extends(&*old(self)),
    {
        let r = self.new_cell(Some(name), constant);
        self.push_variable(scope, r);
        r
    }

    fn push_variable(&mut self, scope: usize, cell: usize)
        requires
            old(self).wf(),
            scope < old(self).scopes@.len(),
            cell < old(self).cells@.len(),
        ensures
            final(self).wf(),
            final(self).cells == old(self).cells,
            final(self).output == old(self).output,
            final(self).scopes@.len() == old(self).scopes@.len(),
            forall|k: int| 0 <= k < final(self).scopes@.len() && k != scope ==> #[trigger] final(self).scopes@[k] == old(self).scopes@[k],
            final(self).scopes@[scope as int].accessible_variables@ == old(self).scopes@[scope as int].accessible_variables@.push(cell),
            final(self).scopes@[scope as int].statements == old(self).scopes@[scope as int].statements,
            final(self).scopes@[scope as int].parent == old(self).scopes@[scope as int].parent,
            final(self).scopes@[scope as int].return_value == old(self).scopes@[scope as int].return_value,
            final(self).extends(&*old(self)),
    {
        let mut vars = self.scopes[scope].accessible_variables.clone();
        proof {
            assert(vars@ =~= old(self).scopes@[scope as int].accessible_variables@);
        }
        vars.push(cell);
        let s = Scope {
            statements: Rc::clone(&self.scopes[scope].statements),
            parent: self.scopes[scope].parent,
            accessible_variables: vars,
            return_value: self.scopes[scope].return_value,
        };
        self.scopes.set(scope, s);
        proof {
            assert forall|k: int| 0 <= k < self.scopes@.len() implies scope_wf(#[trigger] self.scopes@[k], k, self.cells@.len() as int) by {
                if k != scope {
                    assert(scope_wf(old(self).scopes@[k], k, self.cells@.len() as int));
                } else {
                    assert(scope_wf(old(self).scopes@[k], k, self.cells@.len() as int));
                    let v = self.scopes@[k].accessible_variables@;
                    assert forall|j: int| 0 <= j < v.len() implies (#[trigger] v[j]) < self.cells@.len() by {
                        if j < v.len() - 1 {
                            assert(v[j] == old(self).scopes@[k].accessible_variables@[j]);
                        }
                    }
                }
            }
        }
    }

    /// Copies the value and members of cell `source` into cell `target`.
    pub fn assign_cell(&mut self, target: usize, source: usize)
        requires
            old(self).wf(),
            target < old(self).cells@.len(),
            source < old(self).cells@.len(),
        ensures
            final(self).wf(),
            assigned_in(final(self).cells@, old(self).cells@, target as int, source as int),
            final(self).scopes == old(self).scopes,
            final(self).output == old(self).output,
            final(self).extends(&*old(self)),
    {
        let v = Variable {
            name: copy_name(&self.cells[target].name),
            constant: copy_constant(&self.cells[source].constant),
            members: self.cells[source].members.clone(),
        };
        proof {
            assert(v.members@ =~= old(self).cells@[source as int].members@);
            assert(cell_wf(old(self).cells@[source as int], self.cells@.len() as int));
        }
        self.cells.set(target, v);
        proof {
            assert forall|i: int| 0 <= i < self.cells@.len() implies cell_wf(#[trigger] self.cells@[i], self.cells@.len() as int) by {
                if i != target {
                    assert(cell_wf(old(self).cells@[i], self.cells@.len() as int));
                } else {
                    assert(self.cells@[i].members@ == old(self).cells@[source as int].members@);
                }
            }
        }
    }

    /// The cell that `name` denotes in scope `scope`: the nearest binding up the
    /// chain of parents.
    pub fn lookup(&self, scope: usize, name: &String) -> (r: Option<usize>)
        requires
            self.wf(),
            scope < self.scopes@.len(),
        ensures
            r == lookup(self.cells@, self.scopes@, scope as int, name@),
            r matches Some(i) ==> i < self.cells@.len(),
    {
        let mut s = scope;
        loop
            invariant
                self.wf(),
                s < self.scopes@.len(),
                lookup(self.cells@, self.scopes@, scope as int, name@) == lookup(self.cells@, self.scopes@, s as int, name@),
            decreases s,
        {
            let vars = &self.scopes[s].accessible_variables;
            let mut j: usize = 0;
            while j < vars.len()
                invariant
                    self.wf(),
                    s < self.scopes@.len(),
                    vars == &self.scopes@[s as int].accessible_variables,
                    lookup(self.cells@, self.scopes@, scope as int, name@) == lookup(self.cells@, self.scopes@, s as int, name@),
                    j <= vars@.len(),
                    first_named(self.cells@, vars@, name@) == first_named_from(self.cells@, vars@, name@, j as int),
                decreases vars@.len() - j,
            {
                let c = vars[j];
                proof {
                    assert(scope_wf(self.scopes@[s as int], s as int, self.cells@.len() as int));
                    assert(vars@[j as int] == c);
                }
                let found = match &self.cells[c].name {
                    Some(n) => string_eq(n, name),
                    None => false,
                };
                if found {
                    proof {
                        assert(first_named_from(self.cells@, vars@, name@, j as int) == Some(j as int));
                        assert(lookup(self.cells@, self.scopes@, s as int, name@) == Some(c));
                    }
                    return Some(c);
                }
                j += 1;
            }
            proof {
                assert(scope_wf(self.scopes@[s as int], s as int, self.cells@.len() as int));
            }
            match self.scopes[s].parent {
                Some(p) => {
                    s = p;
                },
                None => {
                    return None;
                },
            }
        }
    }
}

/// `after` is `before` with the value of cell `target` replaced by `constant`.
pub open spec fn constant_set(after: Seq<Variable>, before: Seq<Variable>, target: int, constant: Constant) -> bool {
    &&& after.len() == before.len()
    &&& after[target].name == before[target].name
    &&& after[target].constant == constant
    &&& after[target].members@ == before[target].members@
    &&& forall|i: int| 0 <= i < after.len() && i != target ==> #[trigger] after[i] == before[i]
}

/// What an arithmetic or compound operator makes of two values: two integers
/// give the result of the arithmetic; any other left operand is a type error.
pub open spec fn arithmetic_outcome(op: Seq<char>, l: Constant, r: Constant) -> Result<Constant, EvalError> {
    match l {
        Constant::Integer(a) => match r {
            Constant::Integer(b) => match arithmetic(op, a, b) {
                Ok(v) => Ok(Constant::Integer(v)),
                Err(e) => Err(e),
            },
            _ => Err(EvalError::NotAnInteger),
        },
        _ => Err(EvalError::WrongOperandType),
    }
}

proof fn lemma_extends_trans(a: &Runtime, b: &Runtime, c: &Runtime)
    requires
        b.extends(a),
        c.extends(b),
    ensures
        c.extends(a),
{
    assert forall|k: int| 0 <= k < a.scopes@.len() implies (#[trigger] c.scopes@[k]).statements == a.scopes@[k].statements
        && c.scopes@[k].parent == a.scopes@[k].parent by {
        assert(c.scopes@[k].statements == b.scopes@[k].statements);
    }
    assert forall|i: int| 0 <= i < a.cells@.len() implies (#[trigger] c.cells@[i]).name == a.cells@[i].name by {
        assert(c.cells@[i].name == b.cells@[i].name);
    }
}

proof fn lemma_extends_refl(a: &Runtime)
    requires
        a.wf(),
    ensures
        a.extends(a),
{
}

/// `after` and `r` are what `=`, an arithmetic operator or a compound
/// assignment `op` makes of the cells `left` and `right` of `before`: `=`
/// copies the right value into the left cell and yields it; an arithmetic
/// operator yields a new cell; a compound assignment updates the left cell in
/// place and yields it. Both need integer operands. Any other operator is
/// unknown.
pub open spec fn value_operator_applied(after: Seq<Variable>, before: Seq<Variable>, left: int, right: int, op: Seq<char>, r: Result<usize, EvalError>) -> bool {
    let outcome = arithmetic_outcome(op, before[left].constant, before[right].constant);
    if op == "="@ {
        r == Ok::<usize, EvalError>(left as usize) && assigned_in(after, before, left, right)
    } else if is_arithmetic(op) {
        match outcome {
            Ok(c) => r == Ok::<usize, EvalError>(before.len() as usize) && pushed_cell(after, before, None, c),
            Err(e) => r == Err::<usize, EvalError>(e) && after == before,
        }
    } else if is_compound(op) {
        match outcome {
            Ok(c) => r == Ok::<usize, EvalError>(left as usize) && constant_set(after, before, left, c),
            Err(e) => r == Err::<usize, EvalError>(e) && after == before,
        }
    } else {
        r == Err::<usize, EvalError>(EvalError::UnknownOperator) && after == before
    }
}

/// Computes `a op b` for an arithmetic or compound operator.
pub fn compute_arithmetic(operator: &String, a: i64, b: i64) -> (r: Result<i64, EvalError>)
    ensures
        r == arithmetic(operator@, a, b),
{
    let r = if is_lexeme(operator, "+") || is_lexeme(operator, "+=") {
        a.checked_add(b)
    } else if is_lexeme(operator, "-") || is_lexeme(operator, "-=") {
        a.checked_sub(b)
    } else if is_lexeme(operator, "*") || is_lexeme(operator, "*=") {
        a.checked_mul(b)
    } else {
        a.checked_div(b)
    };
    if (is_lexeme(operator, "/") || is_lexeme(operator, "/=")) && b == 0 {
        Err(EvalError::DivisionByZero)
    } else {
        match r {
            Some(v) => Ok(v),
            None => Err(EvalError::Overflow),
        }
    }
}

impl Runtime {
    fn set_constant(&mut self, target: usize, constant: Constant)
        requires
            old(self).wf(),
            target < old(self).cells@.len(),
        ensures
            constant_set(final(self).cells@, old(self).cells@, target as int, constant),
            final(self).scopes == old(self).scopes,
            final(self).output == old(self).output,
            final(self).extends(&*old(self)),
    {
        let v = Variable {
            name: copy_name(&self.cells[target].name),
            constant,
            members: self.cells[target].members.clone(),
        };
        proof {
            assert(v.members@ =~= old(self).cells@[target as int].members@);
            assert(cell_wf(old(self).cells@[target as int], self.cells@.len() as int));
        }
        self.cells.set(target, v);
        proof {
            assert forall|i: int| 0 <= i < self.cells@.len() implies cell_wf(#[trigger] self.cells@[i], self.cells@.len() as int) by {
                assert(cell_wf(old(self).cells@[i], self.cells@.len() as int));
                if i == target {
                    assert(self.cells@[i].members@ == old(self).cells@[i].members@);
                }
            }
        }
    }

    /// The member of cell `cell` named `name`: the `.` operator.
    pub fn member(&self, cell: usize, name: &String) -> (r: Result<usize, EvalError>)
        requires
            self.wf(),
            cell < self.cells@.len(),
        ensures
            r == match first_named(self.cells@, self.cells@[cell as int].members@, name@) {
                Some(j) => Ok::<usize, EvalError>(self.cells@[cell as int].members@[j]),
                None => Err(EvalError::NoSuchMember),
            },
            r matches Ok(i) ==> i < self.cells@.len(),
    {
        let members = &self.cells[cell].members;
        proof {
            assert(cell_wf(self.cells@[cell as int], self.cells@.len() as int));
        }
        let mut j: usize = 0;
        while j < members.len()
            invariant
                self.wf(),
                cell < self.cells@.len(),
                members == &self.cells@[cell as int].members,
                cell_wf(self.cells@[cell as int], self.cells@.len() as int),
                j <= members@.len(),
                first_named(self.cells@, members@, name@) == first_named_from(self.cells@, members@, name@, j as int),
            decreases members@.len() - j,
        {
            let c = members[j];
            let found = match &self.cells[c].name {
                Some(n) => string_eq(n, name),
                None => false,
            };
            if found {
                proof {
                    assert(first_named_from(self.cells@, members@, name@, j as int) == Some(j as int));
                }
                return Ok(c);
            }
            j += 1;
        }
        Err(EvalError::NoSuchMember)
    }

    /// Applies `=`, an arithmetic operator or a compound assignment to the cells
    /// `left` and `right`.
    pub fn apply_value_operator(&mut self, left: usize, right: usize, operator: &String) -> (r: Result<usize, EvalError>)
        requires
            old(self).wf(),
            left < old(self).cells@.len(),
            right < old(self).cells@.len(),
        ensures
            final(self).extends(&*old(self)),
            final(self).scopes == old(self).scopes,
            final(self).output == old(self).output,
            r matches Ok(i) ==> i < final(self).cells@.len(),
            value_operator_applied(final(self).cells@, old(self).cells@, left as int, right as int, operator@, r),
    {
        proof {
            reveal_strlit("=");
            reveal_strlit("+");
            reveal_strlit("-");
            reveal_strlit("*");
            reveal_strlit("/");
            reveal_strlit("+=");
            reveal_strlit("-=");
            reveal_strlit("*=");
            reveal_strlit("/=");
        }
        if is_lexeme(operator, "=") {
            self.assign_cell(left, right);
            return Ok(left);
        }
        let arith = is_lexeme(operator, "+") || is_lexeme(operator, "-") || is_lexeme(operator, "*") || is_lexeme(operator, "/");
        let compound = is_lexeme(operator, "+=") || is_lexeme(operator, "-=") || is_lexeme(operator, "*=") || is_lexeme(operator, "/=");
        if !arith && !compound {
            proof {
                lemma_extends_refl(self);
            }
            return Err(EvalError::UnknownOperator);
        }
        let a = match &self.cells[left].constant {
            Constant::Integer(a) => *a,
            _ => {
                proof {
                    lemma_extends_refl(self);
                }
                return Err(EvalError::WrongOperandType);
            },
        };
        let b = match &self.cells[right].constant {
            Constant::Integer(b) => *b,
            _ => {
                proof {
                    lemma_extends_refl(self);
                }
                return Err(EvalError::NotAnInteger);
            },
        };
        match compute_arithmetic(operator, a, b) {
            Err(e) => {
                proof {
                    lemma_extends_refl(self);
                }
                Err(e)
            },
            Ok(v) => {
                if arith {
                    Ok(self.new_cell(None, Constant::Integer(v)))
                } else {
                    self.set_constant(left, Constant::Integer(v));
                    Ok(left)
                }
            },
        }
    }
}

/// `after` is `before` after `let` declared cell `cell` in scope `scope`
/// with outcome `r`.
pub open spec fn declared(after: Runtime, before: Runtime, scope: int, cell: usize, r: Result<(), EvalError>) -> bool {
    let vars = before.scopes@[scope].accessible_variables@;
    match before.cells@[cell as int].name {
        None => r == Err::<(), EvalError>(EvalError::NamelessVariable) && after == before,
        Some(n) => r is Ok && match first_named(before.cells@, vars, n@) {
            Some(j) => assigned_in(after.cells@, before.cells@, vars[j] as int, cell as int)
                && after.scopes == before.scopes,
            None => after.cells == before.cells
                && after.scopes@.len() == before.scopes@.len()
                && after.scopes@[scope].accessible_variables@ == vars.push(cell)
                && after.scopes@[scope].return_value == before.scopes@[scope].return_value
                && forall|k: int| 0 <= k < after.scopes@.len() && k != scope ==> #[trigger] after.scopes@[k] == before.scopes@[k],
        },
    }
}

proof fn lemma_first_named_same_names(a: Seq<Variable>, b: Seq<Variable>, vars: Seq<usize>, name: Seq<char>, k: int)
    requires
        a.len() == b.len(),
        forall|i: int| 0 <= i < a.len() ==> (#[trigger] a[i]).name == b[i].name,
        0 <= k,
    ensures
        first_named_from(a, vars, name, k) == first_named_from(b, vars, name, k),
    decreases vars.len() - k,
{
    if k < vars.len() {
        lemma_first_named_same_names(a, b, vars, name, k + 1);
        if vars[k] < a.len() {
            assert(a[vars[k] as int].name == b[vars[k] as int].name);
        }
    }
}

proof fn lemma_first_named_push(cells: Seq<Variable>, vars: Seq<usize>, cell: usize, name: Seq<char>, k: int)
    requires
        0 <= k <= vars.len(),
        first_named_from(cells, vars, name, k) is None,
        cell < cells.len(),
        cells[cell as int].name is Some,
        cells[cell as int].name->Some_0@ == name,
    ensures
        first_named_from(cells, vars.push(cell), name, k) == Some(vars.len() as int),
    decreases vars.len() - k,
{
    if k < vars.len() {
        assert(vars.push(cell)[k] == vars[k]);
        lemma_first_named_push(cells, vars, cell, name, k + 1);
    } else {
        assert(vars.push(cell)[k] == cell);
    }
}

/// A binding in a scope shadows every binding of the same name in the scopes
/// above it: lookup takes the scope's own first binding, and goes to the parent
/// only where the scope has none.
pub proof fn lemma_nearest_binding(rt: Runtime, s: int, name: Seq<char>)
    requires
        rt.wf(),
        0 <= s < rt.scopes@.len(),
    ensures
        ({
            let vars = rt.scopes@[s].accessible_variables@;
            match first_named(rt.cells@, vars, name) {
                Some(j) => lookup(rt.cells@, rt.scopes@, s, name) == Some(vars[j])
                    && rt.cells@[vars[j] as int].name->Some_0@ == name,
                None => lookup(rt.cells@, rt.scopes@, s, name) == match rt.scopes@[s].parent {
                    Some(p) => lookup(rt.cells@, rt.scopes@, p as int, name),
                    None => None,
                },
            }
        }),
{
    let vars = rt.scopes@[s].accessible_variables@;
    assert(scope_wf(rt.scopes@[s], s, rt.cells@.len() as int));
    match first_named(rt.cells@, vars, name) {
        Some(j) => {
            lemma_first_named_found(rt.cells@, vars, name, 0);
        },
        None => {},
    }
}

proof fn lemma_first_named_found(cells: Seq<Variable>, vars: Seq<usize>, name: Seq<char>, k: int)
    requires
        first_named_from(cells, vars, name, k) is Some,
    ensures
        ({
            let j = first_named_from(cells, vars, name, k)->Some_0;
            0 <= j < vars.len() && vars[j] < cells.len() && cells[vars[j] as int].name is Some
                && cells[vars[j] as int].name->Some_0@ == name
        }),
    decreases vars.len() - k,
{
    if 0 <= k < vars.len() && !(vars[k] < cells.len() && cells[vars[k] as int].name is Some
        && cells[vars[k] as int].name->Some_0@ == name) {
        lemma_first_named_found(cells, vars, name, k + 1);
    }
}

/// After `let` declares a named cell, reading the name in that scope yields
/// the declared value.
pub proof fn lemma_declared_then_read(after: Runtime, before: Runtime, scope: int, cell: usize)
    requires
        before.wf(),
        0 <= scope < before.scopes@.len(),
        cell < before.cells@.len(),
        before.cells@[cell as int].name is Some,
        declared(after, before, scope, cell, Ok(())),
    ensures
        ({
            let n = before.cells@[cell as int].name->Some_0;
            let found = lookup(after.cells@, after.scopes@, scope, n@);
            found is Some && after.cells@[found->Some_0 as int].constant == before.cells@[cell as int].constant
        }),
{
    let n = before.cells@[cell as int].name->Some_0;
    let vars = before.scopes@[scope].accessible_variables@;
    match first_named(before.cells@, vars, n@) {
        Some(j) => {
            lemma_first_named_found(before.cells@, vars, n@, 0);
            assert forall|i: int| 0 <= i < after.cells@.len() implies (#[trigger] after.cells@[i]).name == before.cells@[i].name by {
                if i != vars[j] as int {
                    assert(after.cells@[i] == before.cells@[i]);
                }
            }
            lemma_first_named_same_names(after.cells@, before.cells@, vars, n@, 0);
            assert(after.scopes@[scope].accessible_variables@ == vars);
            assert(first_named(after.cells@, vars, n@) == Some(j));
            assert(lookup(after.cells@, after.scopes@, scope, n@) == Some(vars[j]));
        },
        None => {
            lemma_first_named_push(before.cells@, vars, cell, n@, 0);
            assert(after.scopes@[scope].accessible_variables@[vars.len() as int] == cell);
        },
    }
}

/// Declaring a name that the scope already binds updates that binding's cell
/// in place, so every alias of the cell sees the new value; the scope gains no
/// binding and no other cell changes.
pub proof fn lemma_redeclaration_updates_cell(after: Runtime, before: Runtime, scope: int, cell: usize, j: int)
    requires
        0 <= scope < before.scopes@.len(),
        cell < before.cells@.len(),
        before.cells@[cell as int].name is Some,
        first_named(before.cells@, before.scopes@[scope].accessible_variables@, before.cells@[cell as int].name->Some_0@) == Some(j),
        declared(after, before, scope, cell, Ok(())),
    ensures
        ({
            let target = before.scopes@[scope].accessible_variables@[j] as int;
            &&& after.scopes == before.scopes
            &&& after.cells@[target].constant == before.cells@[cell as int].constant
            &&& after.cells@[target].name == before.cells@[target].name
            &&& forall|i: int| 0 <= i < after.cells@.len() && i != target ==> #[trigger] after.cells@[i] == before.cells@[i]
        }),
{
}

impl Runtime {
    /// Executes `let` for cell `cell` in scope `scope`: where the scope already
    /// holds a variable of that name, that variable takes the cell's value and
    /// members; otherwise the cell joins the scope.
    pub fn declare(&mut self, scope: usize, cell: usize) -> (r: Result<(), EvalError>)
        requires
            old(self).wf(),
            scope < old(self).scopes@.len(),
            cell < old(self).cells@.len(),
        ensures
            final(self).extends(&*old(self)),
            final(self).output == old(self).output,
            declared(*final(self), *old(self), scope as int, cell, r),
    {
        let name = match copy_name(&self.cells[cell].name) {
            Some(n) => n,
            None => {
                return Err(EvalError::NamelessVariable);
            },
        };
        let vars = &self.scopes[scope].accessible_variables;
        proof {
            assert(scope_wf(self.scopes@[scope as int], scope as int, self.cells@.len() as int));
        }
        let mut j: usize = 0;
        while j < vars.len()
            invariant
                self == old(self),
                old(self).cells@[cell as int].name == Some(name),
                self.wf(),
                scope < self.scopes@.len(),
                cell < self.cells@.len(),
                vars == &self.scopes@[scope as int].accessible_variables,
                scope_wf(self.scopes@[scope as int], scope as int, self.cells@.len() as int),
                j <= vars@.len(),
                first_named(self.cells@, vars@, name@) == first_named_from(self.cells@, vars@, name@, j as int),
            decreases vars@.len() - j,
        {
            let c = vars[j];
            let found = match &self.cells[c].name {
                Some(n) => string_eq(n, &name),
                None => false,
            };
            if found {
                proof {
                    assert(first_named_from(self.cells@, vars@, name@, j as int) == Some(j as int));
                    assert(old(self).cells@[cell as int].name == Some(name));
                    assert(first_named(old(self).cells@, old(self).scopes@[scope as int].accessible_variables@, name@) == Some(j as int));
                }
                self.assign_cell(c, cell);
                return Ok(());
            }
            j += 1;
        }
        self.push_variable(scope, cell);
        Ok(())
    }

    /// Stores cell `cell` as the return value of scope `scope`.
    fn set_return(&mut self, scope: usize, cell: usize)
        requires
            old(self).wf(),
            scope < old(self).scopes@.len(),
            cell < old(self).cells@.len(),
        ensures
            final(self).extends(&*old(self)),
            final(self).cells == old(self).cells,
            final(self).output == old(self).output,
            final(self).scopes@.len() == old(self).scopes@.len(),
            final(self).scopes@[scope as int].return_value == Some(cell),
            final(self).scopes@[scope as int].accessible_variables@ == old(self).scopes@[scope as int].accessible_variables@,
            final(self).scopes@[scope as int].statements == old(self).scopes@[scope as int].statements,
            forall|k: int| 0 <= k < final(self).scopes@.len() && k != scope ==> #[trigger] final(self).scopes@[k] == old(self).scopes@[k],
    {
        let s = Scope {
            statements: Rc::clone(&self.scopes[scope].statements),
            parent: self.scopes[scope].parent,
            accessible_variables: self.scopes[scope].accessible_variables.clone(),
            return_value: Some(cell),
        };
        proof {
            assert(s.accessible_variables@ =~= old(self).scopes@[scope as int].accessible_variables@);
        }
        self.scopes.set(scope, s);
        proof {
            assert forall|k: int| 0 <= k < self.scopes@.len() implies scope_wf(#[trigger] self.scopes@[k], k, self.cells@.len() as int) by {
                assert(scope_wf(old(self).scopes@[k], k, self.cells@.len() as int));
            }
        }
    }
}

/// `after` holds the cells that binding `params` to the argument cells `args`
/// adds to `before`, one per parameter and in order: each is named after its
/// parameter and holds its argument's value and members, or Undefined where
/// there is no argument. Arguments beyond the parameters are left out.
pub open spec fn parameters_bound(after: Seq<Variable>, before: Seq<Variable>, params: Seq<String>, args: Seq<usize>, r: Seq<usize>) -> bool {
    &&& after.len() == before.len() + params.len()
    &&& after.take(before.len() as int) == before
    &&& r.len() == params.len()
    &&& forall|i: int| 0 <= i < params.len() ==> {
        let c = #[trigger] after[before.len() + i];
        &&& r[i] == before.len() + i
        &&& c.name == Some(params[i])
        &&& if i < args.len() {
            c.constant == before[args[i] as int].constant && c.members@ == before[args[i] as int].members@
        } else {
            c.constant == Constant::Undefined && c.members@.len() == 0
        }
    }
}

/// Parameter binding: each parameter gets a new cell of its name; the first
/// parameters take the arguments' values in order, a parameter without an
/// argument holds Undefined (so without arguments every parameter is
/// Undefined), and arguments beyond the parameters bind nothing.
pub proof fn lemma_parameter_binding(after: Seq<Variable>, before: Seq<Variable>, params: Seq<String>, args: Seq<usize>, r: Seq<usize>)
    requires
        parameters_bound(after, before, params, args, r),
    ensures
        r.len() == params.len(),
        after.len() == before.len() + params.len(),
        forall|i: int| 0 <= i < params.len() ==> after[#[trigger] r[i] as int].name == Some(params[i]),
        forall|i: int| 0 <= i < params.len() && i < args.len() ==> after[#[trigger] r[i] as int].constant == before[args[i] as int].constant,
        forall|i: int| args.len() <= i < params.len() ==> after[#[trigger] r[i] as int].constant == Constant::Undefined,
{
    assert forall|i: int| 0 <= i < params.len() implies after[#[trigger] r[i] as int] == after[before.len() + i] by {
        let _ = after[before.len() + i];
    }
}

impl Runtime {
    /// Creates the cells of a call frame's parameters from the argument cells.
    pub fn bind_parameters(&mut self, params: &Vec<String>, args: &Vec<usize>) -> (r: Vec<usize>)
        requires
            old(self).wf(),
            forall|i: int| 0 <= i < args@.len() ==> (#[trigger] args@[i]) < old(self).cells@.len(),
        ensures
            final(self).extends(&*old(self)),
            final(self).scopes == old(self).scopes,
            final(self).output == old(self).output,
            parameters_bound(final(self).cells@, old(self).cells@, params@, args@, r@),
    {
        let ghost base = self.cells@;
        let n = self.cells.len();
        let mut r: Vec<usize> = Vec::new();
        let mut i: usize = 0;
        while i < params.len()
            invariant
                self.wf(),
                self.extends(&*old(self)),
                self.scopes == old(self).scopes,
                self.output == old(self).output,
                base == old(self).cells@,
                n == base.len(),
                i <= params@.len(),
                self.cells@.len() == n + i,
                self.cells@.take(n as int) == base,
                r@.len() == i,
                forall|i: int| 0 <= i < args@.len() ==> (#[trigger] args@[i]) < n,
                forall|k: int| 0 <= k < i ==> {
                    let c = #[trigger] self.cells@[n + k];
                    &&& r@[k] == n + k
                    &&& c.name == Some(params@[k])
                    &&& if k < args@.len() {
                        c.constant == base[args@[k] as int].constant && c.members@ == base[args@[k] as int].members@
                    } else {
                        c.constant == Constant::Undefined && c.members@.len() == 0
                    }
                },
            decreases params@.len() - i,
        {
            let ghost before = *self;
            let c = self.new_cell(Some(params[i].clone()), Constant::Undefined);
            if i < args.len() {
                proof {
                    assert(self.cells@[args@[i as int] as int] == before.cells@[args@[i as int] as int]);
                }
                self.assign_cell(c, args[i]);
                proof {
                    lemma_extends_trans(&before, &*self, &*self);
                }
            }
            proof {
                lemma_extends_trans(&*old(self), &before, &*self);
                assert(self.cells@.take(n as int) =~= base) by {
                    assert forall|x: int| 0 <= x < n implies self.cells@[x] == base[x] by {
                        assert(before.cells@[x] == base[x]);
                    }
                }
                assert forall|k: int| 0 <= k < i implies #[trigger] self.cells@[n + k] == before.cells@[n + k] by {}
                assert forall|k: int| 0 <= k < args@.len() implies base[#[trigger] args@[k] as int] == self.cells@[args@[k] as int] by {}
            }
            r.push(c);
            i += 1;
        }
        r
    }
}

/// The number of nodes of an expression tree.
pub open spec fn expression_size(e: Expression) -> nat
    decreases e,
{
    1 + match e.left {
        Some(l) => expression_size(*l),
        None => 0,
    } + match e.right {
        Some(r) => expression_size(*r),
        None => 0,
    }
}

/// What an evaluation may hand back: a cell of the runtime, or a name that is
/// resolved only by its use.
pub open spec fn vva_valid(v: VVA, ncells: int) -> bool {
    match v {
        VVA::Variable(i) => i < ncells,
        VVA::Value(val) => val.value_type is VariableName || val.value_type is Undefined,
    }
}

/// The cell that an evaluation result names, for a result that is a cell.
pub open spec fn cell_result(r: Result<VVA, EvalError>) -> Result<usize, EvalError> {
    match r {
        Ok(VVA::Variable(i)) => Ok(i),
        Ok(VVA::Value(_)) => Err(EvalError::MalformedExpression),
        Err(e) => Err(e),
    }
}

/// The value of an expression that is a single value node.
pub open spec fn value_node(e: Expression) -> Option<Value> {
    if e.expression_type is Value { e.value } else { None }
}

/// The outcome of a statement as the outcome of its last step.
pub open spec fn unit_result(r: Result<Option<VVA>, EvalError>) -> Result<(), EvalError> {
    match r {
        Ok(_) => Ok(()),
        Err(e) => Err(e),
    }
}

/// `after` is `before` with the return slot of scope `scope` set to `cell`.
pub open spec fn returned(after: Runtime, before: Runtime, scope: int, cell: usize) -> bool {
    &&& after.cells == before.cells
    &&& after.output == before.output
    &&& after.scopes@.len() == before.scopes@.len()
    &&& after.scopes@[scope].return_value == Some(cell)
    &&& after.scopes@[scope].accessible_variables@ == before.scopes@[scope].accessible_variables@
    &&& forall|k: int| 0 <= k < after.scopes@.len() && k != scope ==> #[trigger] after.scopes@[k] == before.scopes@[k]
}

/// What a `let` or `return` statement whose expression is the single value
/// `v` does in scope `scope`: the cell made for `v` is declared, or stored as
/// the scope's return value.
pub open spec fn value_statement_done(after: Runtime, before: Runtime, st: Statement, v: Value, scope: int, r: Result<Option<VVA>, EvalError>) -> bool {
    exists|mid: Runtime, c: Result<usize, EvalError>| #[trigger] constructed(mid, before, v, scope, c) && match c {
        Err(x) => r == Err::<Option<VVA>, EvalError>(x) && after == mid,
        Ok(ci) => if st is VariableDeclaration {
            declared(after, mid, scope, ci, unit_result(r)) && (r is Ok ==> r == Ok::<Option<VVA>, EvalError>(None))
        } else {
            r == Ok::<Option<VVA>, EvalError>(None) && returned(after, mid, scope, ci)
        },
    }
}

fn copy_value(v: &Value) -> (r: Value)
    ensures
        r == *v,
{
    Value {
        value_type: v.value_type,
        variable: copy_name(&v.variable),
        constant: match &v.constant {
            Some(c) => Some(copy_constant(c)),
            None => None,
        },
    }
}

impl VVA {
    /// The cell that an evaluation result stands for in scope `scope`.
    pub fn to_variable(self, runtime: &mut Runtime, scope: usize) -> (r: Result<usize, EvalError>)
        requires
            old(runtime).wf(),
            scope < old(runtime).scopes@.len(),
            vva_valid(self, old(runtime).cells@.len() as int),
        ensures
            final(runtime).extends(&*old(runtime)),
            final(runtime).scopes == old(runtime).scopes,
            final(runtime).output == old(runtime).output,
            r matches Ok(i) ==> i < final(runtime).cells@.len(),
            self matches VVA::Variable(i) ==> r == Ok::<usize, EvalError>(i) && *final(runtime) == *old(runtime),
            self matches VVA::Value(v) ==> constructed(*final(runtime), *old(runtime), v, scope as int, r),
            to_variable_rel(*old(runtime), self, scope as int, *final(runtime), r),
    {
        match self {
            VVA::Variable(i) => {
                proof {
                    lemma_extends_refl(runtime);
                }
                Ok(i)
            },
            VVA::Value(v) => construct_variable(runtime, v, scope),
        }
    }
}

/// Evaluates an expression in scope `scope`.
///
/// A name is handed back unresolved, so that `.` can read it as a member
/// name; a constant becomes a new cell. An operation evaluates its left
/// operand to a cell, then its right operand, then applies its operator.
/// `depth` bounds the nesting of calls.
pub fn execute_expression(runtime: &mut Runtime, expression: &Expression, scope: usize, depth: u64) -> (r: Result<VVA, EvalError>)
    requires
        old(runtime).wf(),
        scope < old(runtime).scopes@.len(),
    ensures
        final(runtime).extends(&*old(runtime)),
        r matches Ok(v) ==> vva_valid(v, final(runtime).cells@.len() as int),
        eval_rel(*old(runtime), *expression, scope as int, depth, *final(runtime), r),
        expression.expression_type is Value ==> match expression.value {
            Some(v) => if v.value_type is VariableName {
                r == Ok::<VVA, EvalError>(VVA::Value(v)) && *final(runtime) == *old(runtime)
            } else {
                !(r matches Ok(VVA::Value(_))) && constructed(*final(runtime), *old(runtime), v, scope as int, cell_result(r))
            },
            None => r == Err::<VVA, EvalError>(EvalError::MalformedExpression) && *final(runtime) == *old(runtime),
        },
    decreases depth, 1nat, expression_size(*expression),
{
    match expression.expression_type {
        ExpressionType::Undefined => {
            proof {
                lemma_extends_refl(runtime);
            }
            Ok(VVA::Value(Value { value_type: ValueType::Undefined, variable: None, constant: None }))
        },
        ExpressionType::Value => {
            let v = match &expression.value {
                Some(v) => copy_value(v),
                None => {
                    proof {
                        lemma_extends_refl(runtime);
                    }
                    return Err(EvalError::MalformedExpression);
                },
            };
            match v.value_type {
                ValueType::VariableName => {
                    proof {
                        lemma_extends_refl(runtime);
                    }
                    Ok(VVA::Value(v))
                },
                _ => match construct_variable(runtime, v, scope) {
                    Ok(i) => Ok(VVA::Variable(i)),
                    Err(e) => Err(e),
                },
            }
        },
        ExpressionType::Operation => {
            let (left, right, operator) = match (&expression.left, &expression.right, &expression.operator) {
                (Some(l), Some(r), Some(o)) => (l, r, o),
                _ => {
                    proof {
                        lemma_extends_refl(runtime);
                    }
                    return Err(EvalError::MalformedExpression);
                },
            };
            let ghost r0 = *runtime;
            let lres = execute_expression(runtime, left, scope, depth);
            let ghost r1 = *runtime;
            proof {
                assert(passes_through(r1, lres));
            }
            let lv = match lres {
                Ok(v) => v,
                Err(e) => {
                    return Err(e);
                },
            };
            let lcell = lv.to_variable(runtime, scope);
            let ghost r2 = *runtime;
            proof {
                assert(passes_through(r2, lcell));
            }
            let l = match lcell {
                Ok(i) => i,
                Err(e) => {
                    proof {
                        lemma_extends_trans(&r0, &r1, runtime);
                    }
                    return Err(e);
                },
            };
            proof {
                lemma_extends_trans(&r0, &r1, &r2);
            }
            let rres = execute_expression(runtime, right, scope, depth);
            let ghost r3 = *runtime;
            proof {
                assert(passes_through(r3, rres));
            }
            let rv = match rres {
                Ok(v) => v,
                Err(e) => {
                    proof {
                        lemma_extends_trans(&r0, &r2, runtime);
                    }
                    return Err(e);
                },
            };
            proof {
                lemma_extends_trans(&r0, &r2, &r3);
            }
            let result = match rv {
                VVA::Variable(c) => {
                    let res = apply_operator_right(runtime, l, c, operator, scope, depth);
                    proof {
                        assert(passes_through(c, res));
                    }
                    res
                },
                VVA::Value(v) => {
                    let member_access = is_lexeme(operator, ".") && v.value_type == ValueType::VariableName;
                    if member_access {
                        match &v.variable {
                            Some(name) => runtime.member(l, name),
                            None => Err(EvalError::MalformedExpression),
                        }
                    } else {
                        let cres = construct_variable(runtime, v, scope);
                        let ghost r4 = *runtime;
                        proof {
                            assert(passes_through(r4, cres));
                        }
                        match cres {
                            Ok(c) => {
                                let res = apply_operator_right(runtime, l, c, operator, scope, depth);
                                proof {
                                    lemma_extends_trans(&r3, &r4, runtime);
                                    assert(passes_through(c, res));
                                }
                                res
                            },
                            Err(e) => Err(e),
                        }
                    }
                },
            };
            proof {
                lemma_extends_trans(&r0, &r3, runtime);
            }
            match result {
                Ok(i) => Ok(VVA::Variable(i)),
                Err(e) => Err(e),
            }
        },
    }
}

/// Applies a binary operator to two cells: a call for `(`, otherwise `=`, an
/// arithmetic operator or a compound assignment.
pub fn apply_operator_right(runtime: &mut Runtime, left: usize, right: usize, operator: &String, scope: usize, depth: u64) -> (r: Result<usize, EvalError>)
    requires
        old(runtime).wf(),
        scope < old(runtime).scopes@.len(),
        left < old(runtime).cells@.len(),
        right < old(runtime).cells@.len(),
    ensures
        final(runtime).extends(&*old(runtime)),
        r matches Ok(i) ==> i < final(runtime).cells@.len(),
        operator@ != "("@ ==> final(runtime).scopes == old(runtime).scopes
            && value_operator_applied(final(runtime).cells@, old(runtime).cells@, left as int, right as int, operator@, r),
        operator@ == "("@ ==> match old(runtime).cells@[left as int].constant {
            Constant::Function(_) => !(old(runtime).cells@[right as int].constant is Tuple)
                ==> r == Err::<usize, EvalError>(EvalError::NotATuple) && *final(runtime) == *old(runtime),
            _ => r == Err::<usize, EvalError>(EvalError::WrongOperandType) && *final(runtime) == *old(runtime),
        },
        apply_rel(*old(runtime), left, right, *operator, scope as int, depth, *final(runtime), r),
    decreases depth, 0nat, 1nat,
{
    if !is_lexeme(operator, "(") {
        return runtime.apply_value_operator(left, right, operator);
    }
    let callee = match &runtime.cells[left].constant {
        Constant::Function(f) => Rc::clone(f),
        _ => {
            proof {
                lemma_extends_refl(runtime);
            }
            return Err(EvalError::WrongOperandType);
        },
    };
    let args = match &runtime.cells[right].constant {
        Constant::Tuple(t) => Rc::clone(t),
        _ => {
            proof {
                lemma_extends_refl(runtime);
            }
            return Err(EvalError::NotATuple);
        },
    };
    call(runtime, &callee, &args, scope, depth)
}

impl Runtime {
    /// Adds a scope and gives its index.
    fn push_scope(&mut self, scope: Scope) -> (r: usize)
        requires
            old(self).wf(),
            scope_wf(scope, old(self).scopes@.len() as int, old(self).cells@.len() as int),
        ensures
            final(self).extends(&*old(self)),
            r == old(self).scopes@.len(),
            final(self).scopes@ == old(self).scopes@.push(scope),
            final(self).cells == old(self).cells,
            final(self).output == old(self).output,
    {
        let r = self.scopes.len();
        self.scopes.push(scope);
        proof {
            assert forall|k: int| 0 <= k < self.scopes@.len() implies scope_wf(#[trigger] self.scopes@[k], k, self.cells@.len() as int) by {
                if k < r {
                    assert(scope_wf(old(self).scopes@[k], k, self.cells@.len() as int));
                }
            }
        }
        r
    }
}

/// Calls `callee` with the argument expressions `args` from scope `caller`.
///
/// A user-defined function gets a new scope whose parent is `caller`, not the
/// scope where the function was written: names free in its body resolve
/// through the chain of callers (dynamic scoping), so a function returned
/// from a call does not see that call's parameters. Its
/// arguments are evaluated in `caller`, left to right, and the value each has
/// right after its evaluation is kept; the parameters are bound to those
/// values in order, or to Undefined where an argument is missing. Arguments
/// beyond the parameters are not evaluated. The body runs in the new scope,
/// and the call yields its return value, or a new Undefined cell. `print`
/// evaluates each argument in `caller`, records its value in `output`, and
/// yields a new Undefined cell.
pub fn call(runtime: &mut Runtime, callee: &Rc<Callable>, args: &Rc<Tuple>, caller: usize, depth: u64) -> (r: Result<usize, EvalError>)
    requires
        old(runtime).wf(),
        caller < old(runtime).scopes@.len(),
    ensures
        final(runtime).extends(&*old(runtime)),
        r matches Ok(i) ==> i < final(runtime).cells@.len(),
        depth == 0 ==> r == Err::<usize, EvalError>(EvalError::CallDepthExceeded),
        match **callee {
            Callable::Function(f) => f.args@.len() == 0 && f.scope.statements@.len() == 0 && depth > 0
                ==> r == Ok::<usize, EvalError>(old(runtime).cells@.len() as usize)
                && pushed_cell(final(runtime).cells@, old(runtime).cells@, None, Constant::Undefined),
            Callable::Print(_) => true,
        },
        match **callee {
            Callable::Function(f) => r matches Ok(i) ==> (exists|k: int|
                old(runtime).scopes@.len() <= k < final(runtime).scopes@.len()
                    && (#[trigger] final(runtime).scopes@[k]).parent == Some(caller)
                    && final(runtime).scopes@[k].statements == f.scope.statements
                    && final(runtime).scopes@[k].return_value == Some(i))
                || (i + 1 == final(runtime).cells@.len() && fresh_cell(final(runtime).cells@[i as int], None, Constant::Undefined)),
            Callable::Print(_) => r matches Ok(i) ==> i + 1 == final(runtime).cells@.len()
                && fresh_cell(final(runtime).cells@[i as int], None, Constant::Undefined),
        },
        call_rel(*old(runtime), **callee, args.expressions@, caller, depth, *final(runtime), r),
    decreases depth, 0nat, 0nat,
{
    if depth == 0 {
        proof {
            lemma_extends_refl(runtime);
        }
        return Err(EvalError::CallDepthExceeded);
    }
    let ghost r0 = *runtime;
    let exprs = &args.expressions;
    match &**callee {
        Callable::Print(_) => {
            let mut i: usize = 0;
            while i < exprs.len()
                invariant
                    runtime.extends(&r0),
                    r0 == *old(runtime),
                    caller < r0.scopes@.len(),
                    depth > 0,
                    exprs@ == args.expressions@,
                    **callee is Print,
                    i <= exprs@.len(),
                    forall|b: Runtime, rr: Result<usize, EvalError>| #[trigger] print_rel(*runtime, exprs@, i as int, caller, (depth - 1) as u64, b, rr)
                        ==> print_rel(r0, exprs@, 0, caller, (depth - 1) as u64, b, rr),
                decreases exprs@.len() - i,
            {
                let ghost before = *runtime;
                let vres = execute_expression(runtime, &exprs[i], caller, depth - 1);
                let ghost mid = *runtime;
                proof {
                    assert(passes_through(mid, vres));
                }
                let v = match vres {
                    Ok(v) => v,
                    Err(e) => {
                        proof {
                            lemma_extends_trans(&r0, &before, runtime);
                            assert(print_rel(before, exprs@, i as int, caller, (depth - 1) as u64, *runtime, Err(e)));
                        }
                        return Err(e);
                    },
                };
                proof {
                    lemma_extends_trans(&r0, &before, &mid);
                }
                let cres = v.to_variable(runtime, caller);
                let ghost m2 = *runtime;
                proof {
                    assert(passes_through(m2, cres));
                }
                let c = match cres {
                    Ok(c) => c,
                    Err(e) => {
                        proof {
                            lemma_extends_trans(&r0, &mid, runtime);
                            assert(print_rel(before, exprs@, i as int, caller, (depth - 1) as u64, *runtime, Err(e)));
                        }
                        return Err(e);
                    },
                };
                let k = copy_constant(&runtime.cells[c].constant);
                runtime.output.push(k);
                proof {
                    lemma_extends_trans(&r0, &mid, runtime);
                    let m3 = *runtime;
                    assert(passes_through(m3, c));
                    assert(m3.output@ == m2.output@.push(m2.cells@[c as int].constant));
                    assert forall|b: Runtime, rr: Result<usize, EvalError>| #[trigger] print_rel(m3, exprs@, i + 1, caller, (depth - 1) as u64, b, rr)
                        implies print_rel(r0, exprs@, 0, caller, (depth - 1) as u64, b, rr) by {
                        assert(print_rel(before, exprs@, i as int, caller, (depth - 1) as u64, b, rr));
                    }
                }
                i += 1;
            }
            let ghost before = *runtime;
            let r = runtime.new_cell(None, Constant::Undefined);
            proof {
                lemma_extends_trans(&r0, &before, runtime);
                assert(print_rel(before, exprs@, i as int, caller, (depth - 1) as u64, *runtime, Ok(r)));
            }
            Ok(r)
        },
        Callable::Function(f) => {
            let n = if f.args.len() < exprs.len() { f.args.len() } else { exprs.len() };
            let mut arg_cells: Vec<usize> = Vec::new();
            let mut i: usize = 0;
            proof {
                lemma_extends_refl(runtime);
            }
            while i < n
                invariant
                    runtime.extends(&r0),
                    r0 == *old(runtime),
                    caller < r0.scopes@.len(),
                    depth > 0,
                    n <= exprs@.len(),
                    n == (if f.args@.len() < exprs@.len() { f.args@.len() } else { exprs@.len() }),
                    exprs@ == args.expressions@,
                    n <= f.args@.len(),
                    **callee == Callable::Function(*f),
                    i <= n,
                    n == 0 ==> *runtime == r0,
                    forall|k: int| 0 <= k < arg_cells@.len() ==> (#[trigger] arg_cells@[k]) < runtime.cells@.len(),
                    forall|b: Runtime, cs: Result<Seq<usize>, EvalError>|
                        #[trigger] arguments_rel(*runtime, exprs@, n as int, i as int, caller, (depth - 1) as u64, arg_cells@, b, cs)
                        ==> arguments_rel(r0, exprs@, n as int, 0, caller, (depth - 1) as u64, Seq::empty(), b, cs),
                decreases n - i,
            {
                let ghost before = *runtime;
                let vres = execute_expression(runtime, &exprs[i], caller, depth - 1);
                let ghost mid = *runtime;
                proof {
                    assert(passes_through(mid, vres));
                }
                let v = match vres {
                    Ok(v) => v,
                    Err(e) => {
                        proof {
                            lemma_extends_trans(&r0, &before, runtime);
                            assert(arguments_rel(before, exprs@, n as int, i as int, caller, (depth - 1) as u64, arg_cells@, *runtime, Err(e)));
                            assert(passes_through(*runtime, Err::<Seq<usize>, EvalError>(e)));
                        }
                        return Err(e);
                    },
                };
                proof {
                    lemma_extends_trans(&r0, &before, &mid);
                }
                let cres = v.to_variable(runtime, caller);
                let ghost r5 = *runtime;
                proof {
                    assert(passes_through(r5, cres));
                }
                let c = match cres {
                    Ok(c) => c,
                    Err(e) => {
                        proof {
                            lemma_extends_trans(&r0, &mid, runtime);
                            assert(arguments_rel(before, exprs@, n as int, i as int, caller, (depth - 1) as u64, arg_cells@, *runtime, Err(e)));
                            assert(passes_through(*runtime, Err::<Seq<usize>, EvalError>(e)));
                        }
                        return Err(e);
                    },
                };
                proof {
                    lemma_extends_trans(&r0, &mid, &r5);
                }
                let snapshot = runtime.new_cell(None, Constant::Undefined);
                let ghost r6 = *runtime;
                runtime.assign_cell(snapshot, c);
                proof {
                    lemma_extends_trans(&r0, &r5, &r6);
                    lemma_extends_trans(&r0, &r6, runtime);
                    let m3 = *runtime;
                    assert(r6.cells@[c as int] == r5.cells@[c as int]) by {
                        assert(r6.cells@.take(r5.cells@.len() as int)[c as int] == r5.cells@[c as int]);
                    }
                    assert(m3.cells@.take(r5.cells@.len() as int) =~= r5.cells@) by {
                        assert forall|x: int| 0 <= x < r5.cells@.len() implies m3.cells@[x] == r5.cells@[x] by {
                            assert(r6.cells@.take(r5.cells@.len() as int)[x] == r5.cells@[x]);
                        }
                    }
                    assert(snapshot_taken(m3, r5, c));
                    assert(passes_through(m3, c));
                    assert forall|b: Runtime, cs: Result<Seq<usize>, EvalError>|
                        #[trigger] arguments_rel(m3, exprs@, n as int, i + 1, caller, (depth - 1) as u64, arg_cells@.push(snapshot), b, cs)
                        implies arguments_rel(r0, exprs@, n as int, 0, caller, (depth - 1) as u64, Seq::empty(), b, cs) by {
                        assert(arguments_rel(before, exprs@, n as int, i as int, caller, (depth - 1) as u64, arg_cells@, b, cs));
                    }
                }
                arg_cells.push(snapshot);
                i += 1;
            }
            proof {
                assert(arguments_rel(*runtime, exprs@, n as int, i as int, caller, (depth - 1) as u64, arg_cells@, *runtime, Ok(arg_cells@)));
                assert(passes_through(*runtime, Ok::<Seq<usize>, EvalError>(arg_cells@)));
            }
            let ghost r1 = *runtime;
            let bound = runtime.bind_parameters(&f.args, &arg_cells);
            let ghost r2 = *runtime;
            proof {
                if f.args@.len() == 0 {
                    assert(r2.cells@ =~= r1.cells@.take(r1.cells@.len() as int));
                    assert(r2.cells@ =~= r1.cells@);
                }
                lemma_extends_trans(&r0, &r1, &r2);
                assert forall|j: int| 0 <= j < bound@.len() implies (#[trigger] bound@[j]) < runtime.cells@.len() by {
                    let _ = r2.cells@[r1.cells@.len() + j];
                    assert(bound@[j] == r1.cells@.len() + j);
                }
            }
            let frame = runtime.push_scope(Scope {
                statements: Rc::clone(&f.scope.statements),
                parent: Some(caller),
                accessible_variables: bound,
                return_value: None,
            });
            let ghost r3 = *runtime;
            proof {
                lemma_extends_trans(&r0, &r2, &r3);
                assert(r3.scopes@.take(r2.scopes@.len() as int) =~= r2.scopes@);
                assert(frame_pushed(r3, r2, f.scope.statements, caller, bound@));
                assert(passes_through(r2, bound@));
            }
            let sres = execute_scope(runtime, frame, depth - 1);
            proof {
                assert(passes_through(r3, *runtime));
                assert(passes_through(*runtime, sres));
            }
            match sres {
                Ok(_) => {},
                Err(e) => {
                    proof {
                        lemma_extends_trans(&r0, &r3, runtime);
                    }
                    return Err(e);
                },
            }
            let ghost r4 = *runtime;
            proof {
                lemma_extends_trans(&r0, &r3, &r4);
                assert(scope_wf(runtime.scopes@[frame as int], frame as int, runtime.cells@.len() as int));
            }
            match runtime.scopes[frame].return_value {
                Some(r) => {
                    proof {
                        assert(runtime.scopes@[frame as int].parent == Some(caller));
                        assert(runtime.scopes@[frame as int].statements == f.scope.statements);
                    }
                    Ok(r)
                },
                None => {
                    let r = runtime.new_cell(None, Constant::Undefined);
                    proof {
                        lemma_extends_trans(&r0, &r4, runtime);
                    }
                    Ok(r)
                },
            }
        },
    }
}

/// Executes one statement in scope `scope`. An expression statement hands
/// back what its expression evaluated to.
pub fn execute_statement(runtime: &mut Runtime, statement: &Statement, scope: usize, depth: u64) -> (r: Result<Option<VVA>, EvalError>)
    requires
        old(runtime).wf(),
        scope < old(runtime).scopes@.len(),
    ensures
        final(runtime).extends(&*old(runtime)),
        r matches Ok(Some(v)) ==> vva_valid(v, final(runtime).cells@.len() as int),
        *statement is ReturnStatement && r is Ok ==> final(runtime).scopes@[scope as int].return_value is Some,
        stmt_rel(*old(runtime), *statement, scope as int, depth, *final(runtime), r),
        *statement is VariableDeclaration && r is Ok ==> exists|mid: Runtime, c: usize|
            #[trigger] declared(*final(runtime), mid, scope as int, c, Ok(())) && mid.extends(&*old(runtime))
                && c < mid.cells@.len() && mid.cells@[c as int].name is Some,
        match *statement {
            Statement::VariableDeclaration(e) => value_node(e) matches Some(v)
                ==> value_statement_done(*final(runtime), *old(runtime), *statement, v, scope as int, r),
            Statement::ReturnStatement(e) => value_node(e) matches Some(v)
                ==> value_statement_done(*final(runtime), *old(runtime), *statement, v, scope as int, r),
            _ => true,
        },
    decreases depth, 2nat, 0nat,
{
    let ghost r0 = *runtime;
    match statement {
        Statement::Undefined => {
            proof {
                lemma_extends_refl(runtime);
            }
            Ok(None)
        },
        Statement::Expression(e) => {
            let vres = execute_expression(runtime, e, scope, depth);
            proof {
                assert(passes_through(*runtime, vres));
            }
            match vres {
                Ok(v) => Ok(Some(v)),
                Err(e) => Err(e),
            }
        },
        Statement::VariableDeclaration(e) | Statement::ReturnStatement(e) => {
            let vres = execute_expression(runtime, e, scope, depth);
            let ghost r1 = *runtime;
            proof {
                assert(passes_through(r1, vres));
            }
            let v = match vres {
                Ok(v) => v,
                Err(e) => {
                    return Err(e);
                },
            };
            let cres = v.to_variable(runtime, scope);
            proof {
                assert(passes_through(*runtime, cres));
            }
            let c = match cres {
                Ok(c) => c,
                Err(e) => {
                    proof {
                        lemma_extends_trans(&r0, &r1, runtime);
                    }
                    return Err(e);
                },
            };
            let ghost r2 = *runtime;
            proof {
                lemma_extends_trans(&r0, &r1, &r2);
            }
            let done = match statement {
                Statement::VariableDeclaration(_) => runtime.declare(scope, c),
                _ => {
                    runtime.set_return(scope, c);
                    Ok(())
                },
            };
            proof {
                lemma_extends_trans(&r0, &r2, runtime);
                if *statement is VariableDeclaration && done is Ok {
                    assert(declared(*runtime, r2, scope as int, c, Ok(())));
                    assert(r2.cells@[c as int].name is Some);
                }
            }
            match done {
                Ok(()) => Ok(None),
                Err(e) => Err(e),
            }
        },
    }
}

/// The well-formed value that the first statement returns, where the first
/// statement is `return` of a single value.
pub open spec fn first_returns_value(stmts: Seq<Statement>) -> Option<Value> {
    if stmts.len() > 0 && stmts[0] is ReturnStatement {
        match value_node(stmts[0]->ReturnStatement_0) {
            Some(v) => if crate::ast::value_wf(v) { Some(v) } else { None },
            None => None,
        }
    } else {
        None
    }
}

/// Executes the statements of scope `scope` in order, and stops after the
/// first one that sets the scope's return value, handing that value back.
pub fn execute_scope(runtime: &mut Runtime, scope: usize, depth: u64) -> (r: Result<Option<VVA>, EvalError>)
    requires
        old(runtime).wf(),
        scope < old(runtime).scopes@.len(),
    ensures
        final(runtime).extends(&*old(runtime)),
        r matches Ok(Some(v)) ==> v matches VVA::Variable(i) && i < final(runtime).cells@.len()
            && final(runtime).scopes@[scope as int].return_value == Some(i),
        old(runtime).scopes@[scope as int].statements@.len() == 0 ==> r == Ok::<Option<VVA>, EvalError>(None) && *final(runtime) == *old(runtime),
        r == Ok::<Option<VVA>, EvalError>(None) && old(runtime).scopes@[scope as int].statements@.len() > 0
            ==> final(runtime).scopes@[scope as int].return_value is None,
        scope_rel(*old(runtime), scope as int, depth, *final(runtime), r),
        first_returns_value(old(runtime).scopes@[scope as int].statements@) matches Some(v) ==> exists|mid: Runtime, c: usize|
            #[trigger] constructed(mid, *old(runtime), v, scope as int, Ok(c)) && r == Ok::<Option<VVA>, EvalError>(Some(VVA::Variable(c))),
    decreases depth, 3nat, 0nat,
{
    let statements = Rc::clone(&runtime.scopes[scope].statements);
    let ghost r0 = *runtime;
    proof {
        lemma_extends_refl(runtime);
    }
    let mut i: usize = 0;
    while i < statements.len()
        invariant
            runtime.extends(&r0),
            r0 == *old(runtime),
            scope < r0.scopes@.len(),
            statements == r0.scopes@[scope as int].statements,
            statements@.len() == 0 ==> *runtime == r0,
            i == 0 ==> *runtime == r0,
            i > 0 ==> runtime.scopes@[scope as int].return_value is None,
            i <= statements@.len(),
            first_returns_value(statements@) is Some ==> i == 0,
            forall|b: Runtime, rr: Result<Option<VVA>, EvalError>| #[trigger] stmts_rel(*runtime, statements@, i as int, scope as int, depth, b, rr)
                ==> stmts_rel(r0, statements@, 0, scope as int, depth, b, rr),
        decreases statements@.len() - i,
    {
        let ghost before = *runtime;
        let res = execute_statement(runtime, &statements[i], scope, depth);
        proof {
            assert(passes_through(*runtime, res));
            if first_returns_value(statements@) is Some {
                let v = first_returns_value(statements@)->Some_0;
                assert(value_statement_done(*runtime, r0, statements@[0], v, scope as int, res));
                let (mid, c) = choose|mid: Runtime, c: Result<usize, EvalError>| #[trigger] constructed(mid, r0, v, scope as int, c) && match c {
                    Err(x) => res == Err::<Option<VVA>, EvalError>(x) && *runtime == mid,
                    Ok(ci) => res == Ok::<Option<VVA>, EvalError>(None) && returned(*runtime, mid, scope as int, ci),
                };
                assert(c is Ok);
                assert(constructed(mid, *old(runtime), v, scope as int, Ok(c->Ok_0)));
                assert(runtime.scopes@[scope as int].return_value == Some(c->Ok_0));
            }
        }
        match res {
            Ok(_) => {},
            Err(e) => {
                proof {
                    lemma_extends_trans(&r0, &before, runtime);
                    assert(stmts_rel(before, statements@, i as int, scope as int, depth, *runtime, Err(e)));
                }
                return Err(e);
            },
        }
        proof {
            lemma_extends_trans(&r0, &before, runtime);
            assert(scope_wf(runtime.scopes@[scope as int], scope as int, runtime.cells@.len() as int));
        }
        match runtime.scopes[scope].return_value {
            Some(v) => {
                proof {
                    assert(stmts_rel(before, statements@, i as int, scope as int, depth, *runtime, Ok(Some(VVA::Variable(v)))));
                }
                return Ok(Some(VVA::Variable(v)));
            },
            None => {},
        }
        proof {
            let m = *runtime;
            assert forall|b: Runtime, rr: Result<Option<VVA>, EvalError>| #[trigger] stmts_rel(m, statements@, i + 1, scope as int, depth, b, rr)
                implies stmts_rel(r0, statements@, 0, scope as int, depth, b, rr) by {
                assert(stmts_rel(before, statements@, i as int, scope as int, depth, b, rr));
            }
        }
        i += 1;
    }
    proof {
        assert(stmts_rel(*runtime, statements@, i as int, scope as int, depth, *runtime, Ok(None)));
    }
    Ok(None)
}

} // verus!
