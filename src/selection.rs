//! The answer typed at the menu prompt: quit, a record number, or neither.

use vstd::prelude::*;
use crate::text::{chars_of, eq_ignore_ascii_case, eq_ignore_case_str, trim, trim_str};

verus! {

/// What an answer at the prompt asks for.
#[derive(Debug, Clone, Copy, PartialEq, Eq, Structural)]
pub enum Selection {
    /// Leave without changing anything.
    Quit,
    /// Enable the record at this index, counted from zero.
    Choose(usize),
    /// Neither: ask again.
    Invalid,
}

/// An ASCII decimal digit.
pub open spec fn is_digit(c: char) -> bool {
    '0' <= c && c <= '9'
}

/// The value of a string of decimal digits.
pub open spec fn decimal_value(s: Seq<char>) -> int
    decreases s.len(),
{
    if s.len() == 0 {
        0
    } else {
        decimal_value(s.drop_last()) * 10 + (s.last() as int - '0' as int)
    }
}

/// The digits of a number text, without its optional leading `+`.
pub open spec fn digits_of(s: Seq<char>) -> Seq<char> {
    if s.len() > 0 && s[0] == '+' {
        s.drop_first()
    } else {
        s
    }
}

/// An unsigned number as `str::parse` reads one: an optional `+`, then one or
/// more decimal digits.
pub open spec fn is_number_text(s: Seq<char>) -> bool {
    digits_of(s).len() > 0 && forall|i: int| 0 <= i < digits_of(s).len() ==> is_digit(#[trigger] digits_of(s)[i])
}

/// What an answer asks for, with `total` records on the menu: `q` in either
/// case quits; a number from 1 to `total` chooses that record; anything else
/// is invalid. Surrounding whitespace is ignored.
pub open spec fn selection_of(input: Seq<char>, total: int) -> Selection {
    let t = trim(input);
    if eq_ignore_ascii_case(t, "q"@) {
        Selection::Quit
    } else if is_number_text(t) && 1 <= decimal_value(digits_of(t)) <= total {
        Selection::Choose((decimal_value(digits_of(t)) - 1) as usize)
    } else {
        Selection::Invalid
    }
}

proof fn lemma_decimal_grows(s: Seq<char>, c: char)
    requires
        is_digit(c),
    ensures
        decimal_value(s.push(c)) == decimal_value(s) * 10 + (c as int - '0' as int),
        decimal_value(s) >= 0 ==> decimal_value(s.push(c)) >= decimal_value(s),
{
    assert(s.push(c).drop_last() =~= s);
    let v = decimal_value(s);
    assert(v >= 0 ==> v * 10 >= v) by (nonlinear_arith);
}

/// Reads an answer typed at the prompt, with `total` records on the menu.
pub fn parse_selection(input: &str, total: usize) -> (r: Selection)
    ensures
        r == selection_of(input@, total as int),
{
    let t = trim_str(input);
    if eq_ignore_case_str(t.as_str(), "q") {
        return Selection::Quit;
    }
    let cs = chars_of(t.as_str());
    let n = cs.len();
    let mut k: usize = 0;
    if n > 0 && cs[0] == '+' {
        k = 1;
    }
    let ghost ds = digits_of(t@);
    proof {
        if n > 0 && cs@[0] == '+' {
            assert(ds =~= cs@.subrange(1, n as int));
        } else {
            assert(ds =~= cs@.subrange(0, n as int));
        }
    }
    if k == n {
        return Selection::Invalid;
    }
    let mut val: usize = 0;
    let mut over = false;
    let mut i = k;
    proof {
        assert(cs@.subrange(k as int, k as int) =~= Seq::<char>::empty());
    }
    while i < n
        invariant
            n == cs@.len(),
            cs@ == t@,
            t@ == trim(input@),
            !eq_ignore_ascii_case(t@, "q"@),
            ds == digits_of(t@),
            ds == cs@.subrange(k as int, n as int),
            k <= i <= n,
            forall|j: int| k <= j < i ==> is_digit(#[trigger] cs@[j]),
            decimal_value(cs@.subrange(k as int, i as int)) >= 0,
            over ==> decimal_value(cs@.subrange(k as int, i as int)) > total,
            !over ==> val == decimal_value(cs@.subrange(k as int, i as int)) && val <= total,
        decreases n - i,
    {
        let c = cs[i];
        if !('0' <= c && c <= '9') {
            proof {
                assert(ds[i - k] == c);
                assert(!is_digit(digits_of(t@)[i - k]));
                assert(!is_number_text(t@));
            }
            return Selection::Invalid;
        }
        let d = (c as u32 - '0' as u32) as usize;
        proof {
            assert(cs@.subrange(k as int, i + 1) =~= cs@.subrange(k as int, i as int).push(c));
            lemma_decimal_grows(cs@.subrange(k as int, i as int), c);
        }
        if !over {
            if val > (usize::MAX - d) / 10 {
                over = true;
                assert(val * 10 + d > usize::MAX) by (nonlinear_arith)
                    requires
                        val > (usize::MAX - d) / 10,
                        d <= 9,
                ;
            } else {
                assert(val * 10 + d <= usize::MAX) by (nonlinear_arith)
                    requires
                        val <= (usize::MAX - d) / 10,
                        d <= 9,
                ;
                val = val * 10 + d;
                if val > total {
                    over = true;
                }
            }
        }
        i += 1;
    }
    proof {
        assert(cs@.subrange(k as int, n as int) == ds);
        assert forall|j: int| 0 <= j < ds.len() implies is_digit(#[trigger] ds[j]) by {
            assert(ds[j] == cs@[j + k]);
        }
    }
    if over || val == 0 {
        Selection::Invalid
    } else {
        Selection::Choose(val - 1)
    }
}

} // verus!
