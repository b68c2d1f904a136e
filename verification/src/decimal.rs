//! Decimal text for numbers.
//!
//! The formula sources and parameter names that the gates emit contain
//! numbers written in decimal.  This module renders a number as text,
//! specifies the rendering exactly, and proves it injective, so that
//! parameter names built from distinct indices are provably distinct.

use vstd::prelude::*;
use vstd::string::StringExecFns;

verus! {

/// The digit character for one decimal digit.
pub open spec fn dec_digit(d: nat) -> char {
    if d == 0 {
        '0'
    } else if d == 1 {
        '1'
    } else if d == 2 {
        '2'
    } else if d == 3 {
        '3'
    } else if d == 4 {
        '4'
    } else if d == 5 {
        '5'
    } else if d == 6 {
        '6'
    } else if d == 7 {
        '7'
    } else if d == 8 {
        '8'
    } else {
        '9'
    }
}

/// The decimal text of a number, most significant digit first, without
/// leading zeros (a single zero for the number zero).
pub open spec fn dec_of(n: nat) -> Seq<char>
    decreases n,
{
    if n < 10 {
        seq![dec_digit(n)]
    } else {
        dec_of(n / 10).push(dec_digit(n % 10))
    }
}

/// Decimal text is never empty.
pub proof fn lemma_dec_of_len(n: nat)
    ensures
        dec_of(n).len() >= 1,
    decreases n,
{
    if n >= 10 {
        lemma_dec_of_len(n / 10);
    }
}

/// Distinct numbers have distinct decimal text.
pub proof fn lemma_dec_of_injective(a: nat, b: nat)
    requires
        dec_of(a) == dec_of(b),
    ensures
        a == b,
    decreases a,
{
    if a < 10 && b < 10 {
        assert(dec_of(a)[0] == dec_digit(a));
        assert(dec_of(b)[0] == dec_digit(b));
    } else if a < 10 && b >= 10 {
        lemma_dec_of_len(b / 10);
        assert(dec_of(b).len() >= 2);
    } else if a >= 10 && b < 10 {
        lemma_dec_of_len(a / 10);
        assert(dec_of(a).len() >= 2);
    } else {
        let la = dec_of(a / 10);
        let lb = dec_of(b / 10);
        assert(dec_of(a) == la.push(dec_digit(a % 10)));
        assert(dec_of(b) == lb.push(dec_digit(b % 10)));
        assert(dec_of(a).last() == dec_digit(a % 10));
        assert(dec_of(b).last() == dec_digit(b % 10));
        assert(a % 10 == b % 10);
        assert(la =~= dec_of(a).drop_last());
        assert(lb =~= dec_of(b).drop_last());
        lemma_dec_of_injective(a / 10, b / 10);
        assert(a == 10 * (a / 10) + a % 10) by (nonlinear_arith);
        assert(b == 10 * (b / 10) + b % 10) by (nonlinear_arith);
    }
}

/// Texts that differ only after a common first character come from equal
/// texts; so names built as one marker character followed by decimal text
/// are distinct for distinct numbers.
pub proof fn lemma_marked_dec_distinct(marker: char, a: nat, b: nat)
    requires
        a != b,
    ensures
        seq![marker] + dec_of(a) != seq![marker] + dec_of(b),
{
    if seq![marker] + dec_of(a) == seq![marker] + dec_of(b) {
        assert(dec_of(a) =~= (seq![marker] + dec_of(a)).drop_first());
        assert(dec_of(b) =~= (seq![marker] + dec_of(b)).drop_first());
        lemma_dec_of_injective(a, b);
    }
}

/// The text of one decimal digit.
fn digit_str(d: usize) -> (s: &'static str)
    requires
        d < 10,
    ensures
        s@ == seq![dec_digit(d as nat)],
{
    let s: &'static str = if d == 0 {
        "0"
    } else if d == 1 {
        "1"
    } else if d == 2 {
        "2"
    } else if d == 3 {
        "3"
    } else if d == 4 {
        "4"
    } else if d == 5 {
        "5"
    } else if d == 6 {
        "6"
    } else if d == 7 {
        "7"
    } else if d == 8 {
        "8"
    } else {
        "9"
    };
    proof {
        reveal_strlit("0");
        reveal_strlit("1");
        reveal_strlit("2");
        reveal_strlit("3");
        reveal_strlit("4");
        reveal_strlit("5");
        reveal_strlit("6");
        reveal_strlit("7");
        reveal_strlit("8");
        reveal_strlit("9");
        assert(s@ =~= seq![dec_digit(d as nat)]);
    }
    s
}

/// Renders a number as decimal text.
pub fn usize_to_string(n: usize) -> (s: String)
    ensures
        s@ == dec_of(n as nat),
    decreases n,
{
    if n < 10 {
        let s = String::from_str(digit_str(n));
        s
    } else {
        let mut s = usize_to_string(n / 10);
        s.append(digit_str(n % 10));
        proof {
            assert(dec_of((n / 10) as nat) + seq![dec_digit((n % 10) as nat)] =~= dec_of(
                (n / 10) as nat,
            ).push(dec_digit((n % 10) as nat)));
            assert((n / 10) as nat == (n as nat) / 10);
            assert((n % 10) as nat == (n as nat) % 10);
        }
        s
    }
}

} // verus!
