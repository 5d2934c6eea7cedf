//! Decimal text of integers: the text of a number, and the number of a
//! text.

use vstd::prelude::*;
use vstd::string::StringExecFns;
use crate::syntax::chars_of;

verus! {

/// The character of one decimal digit.
pub open spec fn digit_char(d: int) -> char {
    if d == 0 {
        '0'
    } else if d == 1 {
        '1'
    } else if d == 2 {
        '2'
    } else if d == 3 {
        '3'
    } else if d == 4 {
        '4'
    } else if d == 5 {
        '5'
    } else if d == 6 {
        '6'
    } else if d == 7 {
        '7'
    } else if d == 8 {
        '8'
    } else {
        '9'
    }
}

/// The decimal digits of a natural number, most significant first, without
/// leading zeros.
pub open spec fn digits(n: nat) -> Seq<char>
    decreases n,
{
    if n < 10 {
        seq![digit_char(n as int)]
    } else {
        digits(n / 10).push(digit_char((n % 10) as int))
    }
}

/// The decimal text of an integer: a minus sign for a negative number, then
/// the digits of its magnitude.
pub open spec fn int_text(n: int) -> Seq<char> {
    if n < 0 {
        seq!['-'] + digits((-n) as nat)
    } else {
        digits(n as nat)
    }
}

fn digit_str(d: u64) -> (r: &'static str)
    requires
        d < 10,
    ensures
        r@ == seq![digit_char(d as int)],
{
    proof {
        reveal_strlit("0");
        reveal_strlit("1");
        reveal_strlit("2");
        reveal_strlit("3");
        reveal_strlit("4");
        reveal_strlit("5");
        reveal_strlit("6");
        reveal_strlit("7");
        reveal_strlit("8");
        reveal_strlit("9");
    }
    let r = if d == 0 {
        "0"
    } else if d == 1 {
        "1"
    } else if d == 2 {
        "2"
    } else if d == 3 {
        "3"
    } else if d == 4 {
        "4"
    } else if d == 5 {
        "5"
    } else if d == 6 {
        "6"
    } else if d == 7 {
        "7"
    } else if d == 8 {
        "8"
    } else {
        "9"
    };
    assert(r@ =~= seq![digit_char(d as int)]);
    r
}

fn digits_of(m: u64) -> (r: String)
    ensures
        r@ == digits(m as nat),
    decreases m,
{
    if m < 10 {
        String::from_str(digit_str(m))
    } else {
        let mut s = digits_of(m / 10);
        s.append(digit_str(m % 10));
        assert(s@ =~= digits(m as nat));
        s
    }
}

/// Writes an integer in decimal.
pub fn int_to_text(n: i64) -> (r: String)
    ensures
        r@ == int_text(n as int),
{
    if n < 0 {
        let m: u64 = (-(n + 1)) as u64 + 1;
        let mut s = String::from_str("-");
        proof {
            reveal_strlit("-");
        }
        let d = digits_of(m);
        s.append(d.as_str());
        assert(s@ =~= int_text(n as int));
        s
    } else {
        digits_of(n as u64)
    }
}

/// The value of a decimal digit.
pub open spec fn digit_of(c: char) -> int {
    if c == '1' {
        1
    } else if c == '2' {
        2
    } else if c == '3' {
        3
    } else if c == '4' {
        4
    } else if c == '5' {
        5
    } else if c == '6' {
        6
    } else if c == '7' {
        7
    } else if c == '8' {
        8
    } else if c == '9' {
        9
    } else {
        0
    }
}

/// The number that a run of decimal digits stands for.
pub open spec fn digits_value(s: Seq<char>) -> int
    decreases s.len(),
{
    if s.len() == 0 {
        0
    } else {
        digits_value(s.drop_last()) * 10 + digit_of(s.last())
    }
}

/// A number of more digits is no smaller.
pub proof fn lemma_digits_grow(s: Seq<char>, a: int, i: int, j: int)
    requires
        0 <= a <= i <= j <= s.len(),
    ensures
        0 <= digits_value(s.subrange(a, i)) <= digits_value(s.subrange(a, j)),
    decreases j - a,
{
    if a == j {
        assert(s.subrange(a, i) =~= s.subrange(a, j));
    } else if i == j {
        assert(s.subrange(a, j).drop_last() =~= s.subrange(a, j - 1));
        lemma_digits_grow(s, a, j - 1, j - 1);
    } else {
        assert(s.subrange(a, j).drop_last() =~= s.subrange(a, j - 1));
        lemma_digits_grow(s, a, i, j - 1);
    }
}

/// The value of a decimal digit.
pub fn digit_value(c: char) -> (r: u64)
    ensures
        r == digit_of(c),
        r <= 9,
{
    if c == '1' {
        1
    } else if c == '2' {
        2
    } else if c == '3' {
        3
    } else if c == '4' {
        4
    } else if c == '5' {
        5
    } else if c == '6' {
        6
    } else if c == '7' {
        7
    } else if c == '8' {
        8
    } else if c == '9' {
        9
    } else {
        0
    }
}

/// Whether every character of a text is a decimal digit.
pub open spec fn all_digits(s: Seq<char>) -> bool {
    forall|i: int| 0 <= i < s.len() ==> '0' <= #[trigger] s[i] <= '9'
}

/// The whole number that a text spells: decimal digits, at least one, with
/// a minus sign before them or without.
pub open spec fn whole(s: Seq<char>) -> Option<int> {
    if s.len() > 0 && s[0] == '-' {
        if s.len() > 1 && all_digits(s.skip(1)) {
            Some(-digits_value(s.skip(1)))
        } else {
            None
        }
    } else if s.len() > 0 && all_digits(s) {
        Some(digits_value(s))
    } else {
        None
    }
}

/// Whether a text spells a whole number that is at least `-below` and at
/// most `above`.
pub fn whole_within(text: &str, below: u128, above: u128) -> (r: bool)
    ensures
        r == (whole(text@) matches Some(n) && -below <= n <= above),
{
    let chars = chars_of(text);
    if chars.len() == 0 {
        return false;
    }
    let negative = chars[0] == '-';
    let start: usize = if negative {
        1
    } else {
        0
    };
    if chars.len() == start {
        return false;
    }
    let bound = if negative {
        below
    } else {
        above
    };
    let ghost body = chars@.skip(start as int);
    assert(chars@.skip(0) =~= chars@);
    let mut acc: u128 = 0;
    let mut i: usize = start;
    assert(body.subrange(0, 0) =~= Seq::<char>::empty());
    while i < chars.len()
        invariant
            start <= i <= chars.len(),
            start < chars.len(),
            chars@ == text@,
            negative == (chars@[0] == '-'),
            start == if negative { 1int } else { 0int },
            bound == if negative { below } else { above },
            !negative ==> body == chars@,
            body == chars@.skip(start as int),
            all_digits(body.subrange(0, i - start)),
            acc == digits_value(body.subrange(0, i - start)),
            acc <= bound,
        decreases chars.len() - i,
    {
        let c = chars[i];
        assert(body[i - start] == c);
        if !('0' <= c && c <= '9') {
            assert(!all_digits(body));
            return false;
        }
        let d = digit_value(c) as u128;
        proof {
            assert(body.subrange(0, i + 1 - start).drop_last() =~= body.subrange(0, i - start));
            assert(body.subrange(0, i + 1 - start).last() == c);
            lemma_digits_grow(body, 0, i + 1 - start, body.len() as int);
            assert(body.subrange(0, body.len() as int) =~= body);
            assert(all_digits(body.subrange(0, i + 1 - start))) by {
                assert forall|k: int| 0 <= k < i + 1 - start implies '0' <= #[trigger] body.subrange(
                    0,
                    i + 1 - start,
                )[k] <= '9' by {
                    if k < i - start {
                        assert(body.subrange(0, i - start)[k] == body[k]);
                    }
                }
            }
        }
        if d > bound || acc > (bound - d) / 10 {
            assert(digits_value(body) > bound);
            return false;
        }
        acc = acc * 10 + d;
        i = i + 1;
    }
    assert(body.subrange(0, body.len() as int) =~= body);
    assert(all_digits(body));
    assert(acc == digits_value(body));
    true
}

} // verus!
