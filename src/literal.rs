use vstd::prelude::*;

verus! {

pub open spec fn is_digit(c: char) -> bool {
    '0' <= c && c <= '9'
}

pub open spec fn all_digits(s: Seq<char>) -> bool {
    forall|i: int| 0 <= i < s.len() ==> is_digit(#[trigger] s[i])
}

/// The number that a run of decimal digits writes.
pub open spec fn digits_value(s: Seq<char>) -> nat
    decreases s.len(),
{
    if s.len() == 0 {
        0
    } else {
        digits_value(s.drop_last()) * 10 + (s.last() as nat - '0' as nat) as nat
    }
}

/// The integer that a token writes: an optional sign followed by one or more
/// decimal digits.
pub open spec fn integer_literal(s: Seq<char>) -> Option<int> {
    let negative = s.len() > 0 && s[0] == '-';
    let signed = s.len() > 0 && (s[0] == '-' || s[0] == '+');
    let body = if signed { s.drop_first() } else { s };
    if body.len() > 0 && all_digits(body) {
        Some(if negative { -(digits_value(body) as int) } else { digits_value(body) as int })
    } else {
        None
    }
}

/// The signed 64-bit integer that a token writes, if it writes one in range.
pub open spec fn integer_token(s: Seq<char>) -> Option<i64> {
    match integer_literal(s) {
        Some(v) => if i64::MIN <= v <= i64::MAX { Some(v as i64) } else { None },
        None => None,
    }
}

proof fn lemma_digits_prefix_le(s: Seq<char>, k: int)
    requires
        0 <= k <= s.len(),
    ensures
        digits_value(s.take(k)) <= digits_value(s),
    decreases s.len(),
{
    if k < s.len() {
        lemma_digits_prefix_le(s.drop_last(), k);
        assert(s.drop_last().take(k) == s.take(k));
    } else {
        assert(s.take(k) == s);
    }
}

/// Reads a token as a signed 64-bit integer literal.
pub fn parse_integer(token: &String) -> (r: Option<i64>)
    ensures
        r == integer_token(token@),
{
    let s = token.as_str();
    let n = s.unicode_len();
    if n == 0 {
        return None;
    }
    let first = s.get_char(0);
    let negative = first == '-';
    let start: usize = if first == '-' || first == '+' { 1 } else { 0 };
    if start >= n {
        return None;
    }
    let ghost body = if start == 1 { token@.drop_first() } else { token@ };
    let mut acc: i128 = 0;
    let mut i: usize = start;
    while i < n
        invariant
            n == token@.len(),
            s@ == token@,
            start <= i <= n,
            n > 0,
            negative == (token@[0] == '-'),
            (start == 1) == (token@[0] == '-' || token@[0] == '+'),
            start == 0 || start == 1,
            body == token@.subrange(start as int, n as int),
            all_digits(token@.subrange(start as int, i as int)),
            acc == digits_value(token@.subrange(start as int, i as int)),
            acc <= 9223372036854775808,
        decreases n - i,
    {
        let c = s.get_char(i);
        if !('0' <= c && c <= '9') {
            proof {
                assert(body[i - start] == c);
                assert(!all_digits(body));
                assert(integer_literal(token@).is_none());
            }
            return None;
        }
        let d = (c as u32 - '0' as u32) as i128;
        proof {
            let pre = token@.subrange(start as int, i as int);
            let next = token@.subrange(start as int, i + 1);
            assert(next.drop_last() == pre);
            assert(next.last() == c);
        }
        acc = acc * 10 + d;
        if acc > 9223372036854775808 {
            proof {
                lemma_digits_prefix_le(body, i + 1 - start);
                assert(body.take(i + 1 - start) == token@.subrange(start as int, i + 1));
                assert(digits_value(body) > 9223372036854775808);
                assert(body.len() > 0);
                if all_digits(body) {
                    let t = token@;
                    let signed = t.len() > 0 && (t[0] == '-' || t[0] == '+');
                    let b2 = if signed { t.drop_first() } else { t };
                    assert(signed == (start == 1));
                    assert(b2 == body);
                    assert(b2.len() > 0 && all_digits(b2));
                    assert(integer_literal(token@).is_some());
                }
            }
            return None;
        }
        i += 1;
    }
    proof {
        assert(token@.subrange(start as int, n as int) == body);
    }
    if negative {
        Some((0 - acc) as i64)
    } else if acc > 9223372036854775807 {
        None
    } else {
        Some(acc as i64)
    }
}

} // verus!
