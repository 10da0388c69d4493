use vstd::prelude::*;
use crate::ast::{Expression, ParseError, Value, expression_wf, operation, value_expression, value_wf};
use crate::operators::{get_operator_priority, priority_bounds, priority_of, max_priority, min_priority};

verus! {

/// An element of the flat list that the first parsing pass produces.
pub enum ExprObj {
    Parentheses(Vec<ExprObj>),
    Operator(String),
    Value(Value),
}

/// An element of the list that the precedence sweeps fold: a finished
/// subexpression, or an operator with its precedence.
pub enum FoldItem {
    Expression(Expression),
    Operator(String, i32),
}

/// One left-to-right sweep at precedence `p`, from index `i` on: each operator
/// of that precedence is folded with its two neighbours into an operation.
pub open spec fn sweep(items: Seq<FoldItem>, p: i32, i: int) -> Result<Seq<FoldItem>, ParseError>
    decreases items.len() - i,
{
    if i < 0 || i >= items.len() {
        Ok(items)
    } else {
        match items[i] {
            FoldItem::Expression(_) => sweep(items, p, i + 1),
            FoldItem::Operator(op, q) => {
                if i == 0 {
                    Err(ParseError::OperatorInsteadOfValue)
                } else if i == items.len() - 1 {
                    Err(ParseError::EndsWithOperator)
                } else if q != p {
                    sweep(items, p, i + 1)
                } else {
                    match (items[i - 1], items[i + 1]) {
                        (FoldItem::Expression(l), FoldItem::Expression(r)) => sweep(
                            items.take(i - 1).push(FoldItem::Expression(operation(l, op, r)))
                                + items.skip(i + 2),
                            p,
                            i,
                        ),
                        _ => Err(ParseError::OperatorInsteadOfValue),
                    }
                }
            },
        }
    }
}

/// The sweeps from precedence `p` down to `min`.
pub open spec fn fold_levels(items: Seq<FoldItem>, p: int, min: int) -> Result<Seq<FoldItem>, ParseError>
    decreases p - min + 1,
{
    if p < min || p > i32::MAX {
        Ok(items)
    } else {
        match sweep(items, p as i32, 0) {
            Ok(next) => fold_levels(next, p - 1, min),
            Err(e) => Err(e),
        }
    }
}

/// The expression that a flat list folds to between the precedence bounds
/// `max` and `min`: what is left after every sweep must be one expression.
pub open spec fn fold_result(items: Seq<FoldItem>, max: i32, min: i32) -> Result<Expression, ParseError> {
    if items.len() == 0 {
        Err(ParseError::EmptyExpression)
    } else {
        match fold_levels(items, max as int, min as int) {
            Ok(rest) => if rest.len() == 1 && rest[0] is Expression {
                Ok(rest[0]->Expression_0)
            } else {
                Err(ParseError::MissingOperator)
            },
            Err(e) => Err(e),
        }
    }
}

pub open spec fn result_view(r: Result<Vec<FoldItem>, ParseError>) -> Result<Seq<FoldItem>, ParseError> {
    match r {
        Ok(v) => Ok(v@),
        Err(e) => Err(e),
    }
}

fn is_expression_item(item: &FoldItem) -> (r: bool)
    ensures
        r == (*item is Expression),
{
    match item {
        FoldItem::Expression(_) => true,
        FoldItem::Operator(_, _) => false,
    }
}

fn item_priority(item: &FoldItem) -> (r: Option<i32>)
    ensures
        r == match *item {
            FoldItem::Operator(_, q) => Some(q),
            FoldItem::Expression(_) => None::<i32>,
        },
{
    match item {
        FoldItem::Expression(_) => None,
        FoldItem::Operator(_, q) => Some(*q),
    }
}

/// Runs one sweep at precedence `p`.
pub fn sweep_level(input: Vec<FoldItem>, p: i32) -> (r: Result<Vec<FoldItem>, ParseError>)
    ensures
        result_view(r) == sweep(input@, p, 0),
{
    let ghost orig = input@;
    let mut items = input;
    let mut i: usize = 0;
    while i < items.len()
        invariant
            i <= items@.len(),
            orig == input@,
            sweep(orig, p, 0) == sweep(items@, p, i as int),
        decreases items@.len() - i,
    {
        let q = item_priority(&items[i]);
        let is_op = q.is_some();
        let q = match q {
            Some(q) => q,
            None => 0,
        };
        proof {
            assert(is_op == (items@[i as int] is Operator));
            assert(is_op ==> q == items@[i as int]->Operator_1);
        }
        if !is_op {
            i += 1;
        } else if i == 0 {
            return Err(ParseError::OperatorInsteadOfValue);
        } else if i == items.len() - 1 {
            proof {
                assert(sweep(items@, p, i as int) == Err::<Seq<FoldItem>, ParseError>(ParseError::EndsWithOperator));
            }
            return Err(ParseError::EndsWithOperator);
        } else if q != p {
            i += 1;
        } else if !is_expression_item(&items[i - 1]) || !is_expression_item(&items[i + 1]) {
            return Err(ParseError::OperatorInsteadOfValue);
        } else {
            let ghost before = items@;
            let right = items.remove(i + 1);
            let op_item = items.remove(i);
            let left = items.remove(i - 1);
            match (left, op_item, right) {
                (FoldItem::Expression(l), FoldItem::Operator(op, _), FoldItem::Expression(r)) => {
                    let e = Expression::new_operation(l, op, r);
                    items.insert(i - 1, FoldItem::Expression(e));
                    proof {
                        assert(items@ =~= before.take(i - 1).push(FoldItem::Expression(operation(
                            before[i - 1]->Expression_0,
                            before[i as int]->Operator_0,
                            before[i + 1]->Expression_0,
                        ))) + before.skip(i + 2));
                    }
                },
                _ => {
                    return Err(ParseError::OperatorInsteadOfValue);
                },
            }
        }
    }
    Ok(items)
}

/// Runs the sweeps from precedence `max` down to `min` and takes the one
/// expression that is left.
pub fn fold_items(input: Vec<FoldItem>, max: i32, min: i32) -> (r: Result<Expression, ParseError>)
    ensures
        r == fold_result(input@, max, min),
{
    if input.len() == 0 {
        return Err(ParseError::EmptyExpression);
    }
    let ghost orig = input@;
    let mut items = input;
    let mut p: i64 = max as i64;
    while p >= min as i64
        invariant
            orig == input@,
            p <= max,
            p == max || p >= min - 1,
            orig.len() > 0,
            fold_levels(orig, max as int, min as int) == fold_levels(items@, p as int, min as int),
        decreases p - min + 1,
    {
        match sweep_level(items, p as i32) {
            Ok(next) => {
                items = next;
            },
            Err(e) => {
                proof {
                    assert(fold_levels(items@, p as int, min as int) == Err::<Seq<FoldItem>, ParseError>(e));
                }
                return Err(e);
            },
        }
        p = p - 1;
    }
    if items.len() == 1 {
        match items.pop() {
            Some(FoldItem::Expression(e)) => Ok(e),
            _ => Err(ParseError::MissingOperator),
        }
    } else {
        Err(ParseError::MissingOperator)
    }
}

/// Values at the even positions, operators at the odd ones.
pub open spec fn alternating(items: Seq<FoldItem>) -> bool {
    items.len() % 2 == 1 && forall|k: int| 0 <= k < items.len() ==> ((#[trigger] items[k]) is Expression <==> k % 2 == 0)
}

/// No operator of the list has a precedence in `lo..=hi`.
pub open spec fn no_priority_in(items: Seq<FoldItem>, lo: int, hi: int) -> bool {
    forall|k: int| 0 <= k < items.len() && (#[trigger] items[k]) is Operator ==> !(lo <= items[k]->Operator_1 <= hi)
}

proof fn lemma_sweep_unchanged(items: Seq<FoldItem>, p: i32, i: int)
    requires
        alternating(items),
        no_priority_in(items, p as int, p as int),
        0 <= i,
    ensures
        sweep(items, p, i) == Ok::<Seq<FoldItem>, ParseError>(items),
    decreases items.len() - i,
{
    if i < items.len() {
        lemma_sweep_unchanged(items, p, i + 1);
        if items[i] is Operator {
            assert(i % 2 == 1);
        }
    }
}

proof fn lemma_levels_unchanged(items: Seq<FoldItem>, p: int, lo: int, min: int)
    requires
        alternating(items),
        no_priority_in(items, lo, p),
        lo - 1 <= p <= i32::MAX,
        lo >= i32::MIN,
    ensures
        fold_levels(items, p, min) == fold_levels(items, lo - 1, min),
    decreases p - lo + 1,
{
    if p >= lo && p >= min {
        lemma_sweep_unchanged(items, p as i32, 0);
        lemma_levels_unchanged(items, p - 1, lo, min);
    }
}

proof fn lemma_levels_done(items: Seq<FoldItem>, p: int, min: int)
    requires
        items.len() == 1,
        items[0] is Expression,
        p <= i32::MAX,
    ensures
        fold_levels(items, p, min) == Ok::<Seq<FoldItem>, ParseError>(items),
    decreases p - min + 1,
{
    if p >= min {
        assert(sweep(items, p as i32, 1) == Ok::<Seq<FoldItem>, ParseError>(items));
        assert(sweep(items, p as i32, 0) == Ok::<Seq<FoldItem>, ParseError>(items));
        lemma_levels_done(items, p - 1, min);
    }
}

/// Two adjacent binary operators `a op1 b op2 c`: the operator of lower
/// precedence is the outer node, and of two equal precedences the left one
/// is folded first.
pub proof fn lemma_adjacent_operators(
    a: Expression,
    op1: String,
    left_prec: i32,
    b: Expression,
    op2: String,
    right_prec: i32,
    c: Expression,
    max: i32,
    min: i32,
)
    requires
        min <= left_prec <= max,
        min <= right_prec <= max,
    ensures
        fold_result(
            seq![
                FoldItem::Expression(a),
                FoldItem::Operator(op1, left_prec),
                FoldItem::Expression(b),
                FoldItem::Operator(op2, right_prec),
                FoldItem::Expression(c),
            ],
            max,
            min,
        ) == Ok::<Expression, ParseError>(if left_prec >= right_prec {
            operation(operation(a, op1, b), op2, c)
        } else {
            operation(a, op1, operation(b, op2, c))
        }),
{
    let items = seq![
        FoldItem::Expression(a),
        FoldItem::Operator(op1, left_prec),
        FoldItem::Expression(b),
        FoldItem::Operator(op2, right_prec),
        FoldItem::Expression(c),
    ];
    assert(alternating(items));
    let hi: int = if left_prec >= right_prec { left_prec as int } else { right_prec as int };
    let lo: int = if left_prec >= right_prec { right_prec as int } else { left_prec as int };
    lemma_levels_unchanged(items, max as int, hi + 1, min as int);
    if left_prec > right_prec {
        let ab = FoldItem::Expression(operation(a, op1, b));
        let mid = seq![ab, FoldItem::Operator(op2, right_prec), FoldItem::Expression(c)];
        assert(items.take(0).push(ab) + items.skip(3) =~= mid);
        assert(sweep(mid, left_prec, 3) == Ok::<Seq<FoldItem>, ParseError>(mid));
        assert(sweep(mid, left_prec, 2) == Ok::<Seq<FoldItem>, ParseError>(mid));
        assert(sweep(mid, left_prec, 1) == Ok::<Seq<FoldItem>, ParseError>(mid));
        assert(sweep(items, left_prec, 1) == sweep(mid, left_prec, 1));
        assert(sweep(items, left_prec, 0) == Ok::<Seq<FoldItem>, ParseError>(mid));
        assert(alternating(mid));
        lemma_levels_unchanged(mid, left_prec - 1, right_prec + 1, min as int);
        let fin = seq![FoldItem::Expression(operation(operation(a, op1, b), op2, c))];
        assert(mid.take(0).push(fin[0]) + mid.skip(3) =~= fin);
        assert(sweep(fin, right_prec, 1) == Ok::<Seq<FoldItem>, ParseError>(fin));
        assert(sweep(mid, right_prec, 1) == sweep(fin, right_prec, 1));
        assert(sweep(mid, right_prec, 0) == Ok::<Seq<FoldItem>, ParseError>(fin));
        lemma_levels_done(fin, right_prec - 1, min as int);
        assert(fold_levels(mid, right_prec as int, min as int) == Ok::<Seq<FoldItem>, ParseError>(fin));
        assert(fold_levels(items, left_prec as int, min as int) == fold_levels(mid, left_prec - 1, min as int));
    } else if left_prec == right_prec {
        let ab = FoldItem::Expression(operation(a, op1, b));
        let mid = seq![ab, FoldItem::Operator(op2, right_prec), FoldItem::Expression(c)];
        assert(items.take(0).push(ab) + items.skip(3) =~= mid);
        let fin = seq![FoldItem::Expression(operation(operation(a, op1, b), op2, c))];
        assert(mid.take(0).push(fin[0]) + mid.skip(3) =~= fin);
        assert(sweep(fin, right_prec, 1) == Ok::<Seq<FoldItem>, ParseError>(fin));
        assert(sweep(mid, right_prec, 1) == sweep(fin, right_prec, 1));
        assert(sweep(items, left_prec, 1) == sweep(mid, left_prec, 1));
        assert(sweep(items, left_prec, 0) == Ok::<Seq<FoldItem>, ParseError>(fin));
        lemma_levels_done(fin, left_prec - 1, min as int);
        assert(fold_levels(items, left_prec as int, min as int) == Ok::<Seq<FoldItem>, ParseError>(fin));
    } else {
        let bc = FoldItem::Expression(operation(b, op2, c));
        let mid = seq![FoldItem::Expression(a), FoldItem::Operator(op1, left_prec), bc];
        assert(items.take(2).push(bc) + items.skip(5) =~= mid);
        assert(sweep(mid, right_prec, 3) == Ok::<Seq<FoldItem>, ParseError>(mid));
        assert(sweep(items, right_prec, 3) == sweep(mid, right_prec, 3));
        assert(sweep(items, right_prec, 2) == Ok::<Seq<FoldItem>, ParseError>(mid));
        assert(sweep(items, right_prec, 1) == Ok::<Seq<FoldItem>, ParseError>(mid));
        assert(sweep(items, right_prec, 0) == Ok::<Seq<FoldItem>, ParseError>(mid));
        assert(alternating(mid));
        lemma_levels_unchanged(mid, right_prec - 1, left_prec + 1, min as int);
        let fin = seq![FoldItem::Expression(operation(a, op1, operation(b, op2, c)))];
        assert(mid.take(0).push(fin[0]) + mid.skip(3) =~= fin);
        assert(sweep(fin, left_prec, 1) == Ok::<Seq<FoldItem>, ParseError>(fin));
        assert(sweep(mid, left_prec, 1) == sweep(fin, left_prec, 1));
        assert(sweep(mid, left_prec, 0) == Ok::<Seq<FoldItem>, ParseError>(fin));
        lemma_levels_done(fin, left_prec - 1, min as int);
        assert(fold_levels(mid, left_prec as int, min as int) == Ok::<Seq<FoldItem>, ParseError>(fin));
        assert(fold_levels(items, right_prec as int, min as int) == fold_levels(mid, right_prec - 1, min as int));
    }
}

/// The list of fold items that a flat list stands for, parenthesized groups
/// folded first.
pub open spec fn items_of(objs: Seq<ExprObj>, ops: Seq<String>, prios: Seq<i32>) -> Result<Seq<FoldItem>, ParseError>
    decreases objs, 0nat,
{
    if objs.len() == 0 {
        Ok(Seq::empty())
    } else {
        let first = match objs[0] {
            ExprObj::Parentheses(inner) => match build(inner@, ops, prios) {
                Ok(e) => Ok(FoldItem::Expression(e)),
                Err(e) => Err(e),
            },
            ExprObj::Operator(s) => Ok(FoldItem::Operator(s, priority_of(ops, prios, s@))),
            ExprObj::Value(v) => Ok(FoldItem::Expression(value_expression(v))),
        };
        match first {
            Err(e) => Err(e),
            Ok(it) => match items_of(objs.subrange(1, objs.len() as int), ops, prios) {
                Ok(rest) => Ok(seq![it] + rest),
                Err(e) => Err(e),
            },
        }
    }
}

/// The expression that a flat list folds to under the operator table.
pub open spec fn build(objs: Seq<ExprObj>, ops: Seq<String>, prios: Seq<i32>) -> Result<Expression, ParseError>
    decreases objs, 1nat,
{
    match items_of(objs, ops, prios) {
        Ok(items) => fold_result(items, max_priority(prios), min_priority(prios)),
        Err(e) => Err(e),
    }
}

pub open spec fn prepend(acc: Seq<FoldItem>, r: Result<Seq<FoldItem>, ParseError>) -> Result<Seq<FoldItem>, ParseError> {
    match r {
        Ok(rest) => Ok(acc + rest),
        Err(e) => Err(e),
    }
}

/// Folds a flat list into one expression: groups first, then the precedence
/// sweeps over the operator table.
pub fn build_expression(objs: Vec<ExprObj>, operators: &Vec<String>, operator_priorities: &Vec<i32>) -> (r: Result<Expression, ParseError>)
    requires
        operators@.len() == operator_priorities@.len(),
    ensures
        r == build(objs@, operators@, operator_priorities@),
    decreases objs@,
{
    let ghost orig = objs@;
    let mut rest = objs;
    let mut items: Vec<FoldItem> = Vec::new();
    let ghost mut k: int = 0;
    while rest.len() > 0
        invariant
            operators@.len() == operator_priorities@.len(),
            orig == objs@,
            0 <= k <= orig.len(),
            rest@ == orig.subrange(k, orig.len() as int),
            items_of(orig, operators@, operator_priorities@) == prepend(items@, items_of(rest@, operators@, operator_priorities@)),
        decreases rest@.len(),
    {
        let ghost before = rest@;
        let o = rest.remove(0);
        proof {
            assert(rest@ == before.subrange(1, before.len() as int));
            assert(o == orig[k]);
            assert(rest@ =~= orig.subrange(k + 1, orig.len() as int));
            k = k + 1;
        }
        let item = match o {
            ExprObj::Parentheses(inner) => {
                proof {
                    assert(decreases_to!(orig => orig[k - 1]));
                    assert(decreases_to!(orig[k - 1] => inner));
                    assert(decreases_to!(inner => inner@));
                }
                match build_expression(inner, operators, operator_priorities) {
                    Ok(e) => FoldItem::Expression(e),
                    Err(e) => {
                        return Err(e);
                    },
                }
            },
            ExprObj::Operator(s) => {
                let q = get_operator_priority(operators, operator_priorities, &s);
                FoldItem::Operator(s, q)
            },
            ExprObj::Value(v) => FoldItem::Expression(Expression::new_value(v)),
        };
        proof {
            assert(items@.push(item) =~= items@ + seq![item]);
            match items_of(rest@, operators@, operator_priorities@) {
                Ok(tail) => assert(items@.push(item) + tail =~= items@ + (seq![item] + tail)),
                Err(_) => {},
            }
        }
        items.push(item);
    }
    proof {
        assert(items@ + Seq::<FoldItem>::empty() =~= items@);
    }
    let (max, min) = priority_bounds(operator_priorities);
    fold_items(items, max, min)
}

/// Every value of a flat list, inside groups too, is well formed.
pub open spec fn objs_wf(objs: Seq<ExprObj>) -> bool
    decreases objs,
{
    if objs.len() == 0 {
        true
    } else {
        (match objs[0] {
            ExprObj::Parentheses(inner) => objs_wf(inner@),
            ExprObj::Value(v) => value_wf(v),
            ExprObj::Operator(_) => true,
        }) && objs_wf(objs.subrange(1, objs.len() as int))
    }
}

/// Every expression of a list of fold items is well formed.
pub open spec fn items_wf(items: Seq<FoldItem>) -> bool {
    forall|k: int| 0 <= k < items.len() && (#[trigger] items[k]) is Expression ==> expression_wf(items[k]->Expression_0)
}

pub proof fn lemma_objs_wf_append(a: Seq<ExprObj>, b: Seq<ExprObj>)
    requires
        objs_wf(a),
        objs_wf(b),
    ensures
        objs_wf(a + b),
    decreases a.len(),
{
    if a.len() > 0 {
        lemma_objs_wf_append(a.subrange(1, a.len() as int), b);
        assert((a + b).subrange(1, (a + b).len() as int) =~= a.subrange(1, a.len() as int) + b);
        assert((a + b)[0] == a[0]);
    } else {
        assert(a + b =~= b);
    }
}

proof fn lemma_sweep_wf(items: Seq<FoldItem>, p: i32, i: int)
    requires
        items_wf(items),
        sweep(items, p, i) is Ok,
    ensures
        items_wf(sweep(items, p, i)->Ok_0),
    decreases items.len() - i,
{
    if 0 <= i < items.len() {
        match items[i] {
            FoldItem::Expression(_) => {
                lemma_sweep_wf(items, p, i + 1);
            },
            FoldItem::Operator(op, q) => {
                if i != 0 && i != items.len() - 1 {
                    if q != p {
                        lemma_sweep_wf(items, p, i + 1);
                    } else {
                        match (items[i - 1], items[i + 1]) {
                            (FoldItem::Expression(l), FoldItem::Expression(r)) => {
                                let e = operation(l, op, r);
                                let next = items.take(i - 1).push(FoldItem::Expression(e)) + items.skip(i + 2);
                                assert(expression_wf(l));
                                assert(expression_wf(r));
                                assert(expression_wf(e));
                                assert forall|k: int| 0 <= k < next.len() && (#[trigger] next[k]) is Expression implies expression_wf(next[k]->Expression_0) by {
                                    if k < i - 1 {
                                        assert(next[k] == items[k]);
                                    } else if k > i - 1 {
                                        assert(next[k] == items[k + 2]);
                                    }
                                }
                                lemma_sweep_wf(next, p, i);
                            },
                            _ => {},
                        }
                    }
                }
            },
        }
    }
}

proof fn lemma_levels_wf(items: Seq<FoldItem>, p: int, min: int)
    requires
        items_wf(items),
        fold_levels(items, p, min) is Ok,
    ensures
        items_wf(fold_levels(items, p, min)->Ok_0),
    decreases p - min + 1,
{
    if !(p < min || p > i32::MAX) {
        lemma_sweep_wf(items, p as i32, 0);
        lemma_levels_wf(sweep(items, p as i32, 0)->Ok_0, p - 1, min);
    }
}

proof fn lemma_items_of_wf(objs: Seq<ExprObj>, ops: Seq<String>, prios: Seq<i32>)
    requires
        objs_wf(objs),
        items_of(objs, ops, prios) is Ok,
    ensures
        items_wf(items_of(objs, ops, prios)->Ok_0),
    decreases objs, 0nat,
{
    if objs.len() > 0 {
        let rest = objs.subrange(1, objs.len() as int);
        lemma_items_of_wf(rest, ops, prios);
        let tail = items_of(rest, ops, prios)->Ok_0;
        let all = items_of(objs, ops, prios)->Ok_0;
        match objs[0] {
            ExprObj::Parentheses(inner) => {
                lemma_build_wf(inner@, ops, prios);
            },
            _ => {},
        }
        assert forall|k: int| 0 <= k < all.len() && (#[trigger] all[k]) is Expression implies expression_wf(all[k]->Expression_0) by {
            if k > 0 {
                assert(all[k] == tail[k - 1]);
            }
        }
    }
}

/// A flat list whose values are well formed folds, where it folds, to a
/// well-formed expression.
pub proof fn lemma_build_wf(objs: Seq<ExprObj>, ops: Seq<String>, prios: Seq<i32>)
    requires
        objs_wf(objs),
    ensures
        build(objs, ops, prios) matches Ok(e) ==> expression_wf(e),
    decreases objs, 1nat,
{
    if items_of(objs, ops, prios) is Ok {
        let items = items_of(objs, ops, prios)->Ok_0;
        lemma_items_of_wf(objs, ops, prios);
        if items.len() > 0 && fold_levels(items, max_priority(prios) as int, min_priority(prios) as int) is Ok {
            lemma_levels_wf(items, max_priority(prios) as int, min_priority(prios) as int);
        }
    }
}

} // verus!
