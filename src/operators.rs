use vstd::prelude::*;

verus! {

/// Whether `op` is one of the lexemes of the operator table.
pub open spec fn is_operator(operators: Seq<String>, op: Seq<char>) -> bool {
    exists|i: int| 0 <= i < operators.len() && (#[trigger] operators[i])@ == op
}

/// The precedence of the first table entry at or after `i` whose lexeme is `op`;
/// 0 where there is none.
pub open spec fn priority_from(operators: Seq<String>, priorities: Seq<i32>, op: Seq<char>, i: int) -> i32
    decreases operators.len() - i,
{
    if i < 0 || i >= operators.len() {
        0
    } else if operators[i]@ == op {
        priorities[i]
    } else {
        priority_from(operators, priorities, op, i + 1)
    }
}

/// The precedence of `op` in the table: that of its first entry, 0 if it has none.
pub open spec fn priority_of(operators: Seq<String>, priorities: Seq<i32>, op: Seq<char>) -> i32 {
    priority_from(operators, priorities, op, 0)
}

/// The largest of 0 and the precedences of the table.
pub open spec fn max_priority(priorities: Seq<i32>) -> i32
    decreases priorities.len(),
{
    if priorities.len() == 0 {
        0
    } else {
        let m = max_priority(priorities.drop_last());
        if priorities.last() > m { priorities.last() } else { m }
    }
}

/// The smallest of 0 and the precedences of the table.
pub open spec fn min_priority(priorities: Seq<i32>) -> i32
    decreases priorities.len(),
{
    if priorities.len() == 0 {
        0
    } else {
        let m = min_priority(priorities.drop_last());
        if priorities.last() < m { priorities.last() } else { m }
    }
}

pub fn string_eq(a: &String, b: &String) -> (r: bool)
    ensures
        r == (a@ == b@),
{
    a.eq(b)
}

/// Whether a token is the given literal lexeme.
pub fn is_lexeme(token: &String, lexeme: &str) -> (r: bool)
    ensures
        r == (token@ == lexeme@),
{
    let l: String = lexeme.to_owned();
    token.eq(&l)
}

pub fn operator_exists(operators: &Vec<String>, operator: &String) -> (r: bool)
    ensures
        r == is_operator(operators@, operator@),
{
    let mut i: usize = 0;
    while i < operators.len()
        invariant
            i <= operators@.len(),
            forall|j: int| 0 <= j < i ==> (#[trigger] operators@[j])@ != operator@,
        decreases operators@.len() - i,
    {
        if string_eq(&operators[i], operator) {
            return true;
        }
        i += 1;
    }
    false
}

pub fn get_operator_priority(operators: &Vec<String>, operator_priorities: &Vec<i32>, operator: &String) -> (r: i32)
    requires
        operators@.len() == operator_priorities@.len(),
    ensures
        r == priority_of(operators@, operator_priorities@, operator@),
        !is_operator(operators@, operator@) ==> r == 0,
{
    let mut i: usize = 0;
    while i < operators.len()
        invariant
            i <= operators@.len(),
            operators@.len() == operator_priorities@.len(),
            priority_of(operators@, operator_priorities@, operator@)
                == priority_from(operators@, operator_priorities@, operator@, i as int),
            forall|j: int| 0 <= j < i ==> (#[trigger] operators@[j])@ != operator@,
        decreases operators@.len() - i,
    {
        if string_eq(&operators[i], operator) {
            return operator_priorities[i];
        }
        i += 1;
    }
    0
}

/// The bounds of the precedence sweeps: the largest and smallest of 0 and the
/// table's precedences.
pub fn priority_bounds(operator_priorities: &Vec<i32>) -> (r: (i32, i32))
    ensures
        r.0 == max_priority(operator_priorities@),
        r.1 == min_priority(operator_priorities@),
{
    let mut max: i32 = 0;
    let mut min: i32 = 0;
    let mut i: usize = 0;
    while i < operator_priorities.len()
        invariant
            i <= operator_priorities@.len(),
            max == max_priority(operator_priorities@.take(i as int)),
            min == min_priority(operator_priorities@.take(i as int)),
        decreases operator_priorities@.len() - i,
    {
        let p = operator_priorities[i];
        proof {
            assert(operator_priorities@.take(i + 1).drop_last() == operator_priorities@.take(i as int));
        }
        if p > max {
            max = p;
        }
        if p < min {
            min = p;
        }
        i += 1;
    }
    proof {
        assert(operator_priorities@.take(i as int) == operator_priorities@);
    }
    (max, min)
}

} // verus!
