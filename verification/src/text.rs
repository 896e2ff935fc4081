//! Small operations on text that the rest of the library is stated over.

use vstd::prelude::*;
use vstd::string::*;

verus! {

/// The decimal digit that stands for `d`.
pub open spec fn digit_char(d: int) -> char {
    if d == 0 {
        '0'
    } else if d == 1 {
        '1'
    } else if d == 2 {
        '2'
    } else if d == 3 {
        '3'
    } else if d == 4 {
        '4'
    } else if d == 5 {
        '5'
    } else if d == 6 {
        '6'
    } else if d == 7 {
        '7'
    } else if d == 8 {
        '8'
    } else {
        '9'
    }
}

/// The decimal notation of `n`, without sign or leading zeros.
pub open spec fn decimal_text(n: nat) -> Seq<char>
    decreases n,
{
    if n < 10 {
        seq![digit_char(n as int)]
    } else {
        decimal_text(n / 10).push(digit_char((n % 10) as int))
    }
}

/// `needle` occurs in `haystack` as a contiguous run of characters.
pub open spec fn occurs_in(needle: Seq<char>, haystack: Seq<char>) -> bool {
    exists|i: int|
        0 <= i && i + needle.len() <= haystack.len() && #[trigger] haystack.subrange(
            i,
            i + needle.len(),
        ) == needle
}

/// Different numbers are written differently.
pub proof fn lemma_decimal_injective(a: nat, b: nat)
    requires
        decimal_text(a) == decimal_text(b),
    ensures
        a == b,
    decreases a,
{
    if a < 10 {
        if b >= 10 {
            assert(decimal_text(b).len() == decimal_text(b / 10).len() + 1);
            lemma_decimal_not_empty(b / 10);
        } else {
            assert(decimal_text(a)[0] == digit_char(a as int));
            assert(decimal_text(b)[0] == digit_char(b as int));
        }
    } else {
        if b < 10 {
            assert(decimal_text(a).len() == decimal_text(a / 10).len() + 1);
            lemma_decimal_not_empty(a / 10);
        } else {
            let front_a = decimal_text(a / 10);
            let front_b = decimal_text(b / 10);
            assert(decimal_text(a).drop_last() =~= front_a);
            assert(decimal_text(b).drop_last() =~= front_b);
            assert(decimal_text(a).last() == digit_char((a % 10) as int));
            assert(decimal_text(b).last() == digit_char((b % 10) as int));
            lemma_decimal_injective(a / 10, b / 10);
        }
    }
}

/// Every number is written with at least one digit.
pub proof fn lemma_decimal_not_empty(n: nat)
    ensures
        decimal_text(n).len() >= 1,
    decreases n,
{
    if n >= 10 {
        lemma_decimal_not_empty(n / 10);
    }
}

/// Calls `str::contains` with a string pattern. Trusted: it tells whether the
/// pattern matches a sub-slice of the text.
#[verifier::external_body]
pub(crate) fn str_contains(haystack: &str, needle: &str) -> (r: bool)
    ensures
        r == occurs_in(needle@, haystack@),
{
    haystack.contains(needle)
}

fn digit_text(d: usize) -> (r: &'static str)
    requires
        d < 10,
    ensures
        r@ == seq![digit_char(d as int)],
{
    proof {
        reveal_strlit("0");
        reveal_strlit("1");
        reveal_strlit("2");
        reveal_strlit("3");
        reveal_strlit("4");
        reveal_strlit("5");
        reveal_strlit("6");
        reveal_strlit("7");
        reveal_strlit("8");
        reveal_strlit("9");
    }
    let r = if d == 0 {
        "0"
    } else if d == 1 {
        "1"
    } else if d == 2 {
        "2"
    } else if d == 3 {
        "3"
    } else if d == 4 {
        "4"
    } else if d == 5 {
        "5"
    } else if d == 6 {
        "6"
    } else if d == 7 {
        "7"
    } else if d == 8 {
        "8"
    } else {
        "9"
    };
    assert(r@ =~= seq![digit_char(d as int)]);
    r
}

/// Writes `n` in decimal notation.
pub fn decimal(n: usize) -> (r: String)
    ensures
        r@ == decimal_text(n as nat),
{
    let mut rest: usize = n / 10;
    let mut out = String::from_str(digit_text(n % 10));
    proof {
        if n >= 10 {
            assert(decimal_text(n as nat) =~= decimal_text(rest as nat) + out@);
        }
    }
    while rest > 0
        invariant
            rest > 0 ==> decimal_text(n as nat) == decimal_text(rest as nat) + out@,
            rest == 0 ==> decimal_text(n as nat) == out@,
        decreases rest,
    {
        let d: usize = rest % 10;
        let head = String::from_str(digit_text(d));
        let ghost before = out@;
        out = head.concat(out.as_str());
        proof {
            if rest >= 10 {
                assert(decimal_text(rest as nat) + before =~= decimal_text((rest / 10) as nat)
                    + out@);
            } else {
                assert(decimal_text(rest as nat) + before =~= out@);
            }
        }
        rest = rest / 10;
    }
    out
}

/// Joins two texts.
pub fn join(first: &str, second: &str) -> (r: String)
    ensures
        r@ == first@ + second@,
{
    String::from_str(first).concat(second)
}

} // verus!
