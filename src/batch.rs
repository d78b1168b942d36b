use vstd::prelude::*;
use vstd::string::*;

use crate::date::has_date;

verus! {

/// Number of `true` entries of `s`.
pub open spec fn count_true(s: Seq<bool>) -> nat
    decreases s.len(),
{
    if s.len() == 0 {
        0
    } else {
        count_true(s.drop_last()) + if s.last() {
            1nat
        } else {
            0nat
        }
    }
}

/// For each file name, whether it holds a date prefix.
pub open spec fn dated(names: Seq<Seq<char>>) -> Seq<bool> {
    names.map_values(|n: Seq<char>| has_date(n))
}

/// For each file name, whether it holds no date prefix.
pub open spec fn undated(names: Seq<Seq<char>>) -> Seq<bool> {
    names.map_values(|n: Seq<char>| !has_date(n))
}

pub open spec fn digit_char(d: nat) -> char {
    if d == 0 {
        '0'
    } else if d == 1 {
        '1'
    } else if d == 2 {
        '2'
    } else if d == 3 {
        '3'
    } else if d == 4 {
        '4'
    } else if d == 5 {
        '5'
    } else if d == 6 {
        '6'
    } else if d == 7 {
        '7'
    } else if d == 8 {
        '8'
    } else {
        '9'
    }
}

/// Decimal digits of `n`, most significant first, without leading zeros.
pub open spec fn decimal(n: nat) -> Seq<char>
    decreases n,
{
    if n < 10 {
        seq![digit_char(n)]
    } else {
        decimal(n / 10) + seq![digit_char(n % 10)]
    }
}

/// The closing report of a batch.
pub open spec fn report_of(converted: nat, total: nat) -> Seq<char> {
    decimal(converted) + " of "@ + decimal(total) + " files successfully converted!"@
}

/// Of N file names of which K hold no date prefix, N - K are planned: the
/// files that can be converted are exactly the others.
pub proof fn lemma_batch_count(names: Seq<Seq<char>>)
    ensures
        count_true(dated(names)) == names.len() - count_true(undated(names)),
    decreases names.len(),
{
    if names.len() > 0 {
        let rest = names.drop_last();
        lemma_batch_count(rest);
        assert(dated(names).drop_last() =~= dated(rest));
        assert(undated(names).drop_last() =~= undated(rest));
    }
}

/// How many outcomes are successes.
pub fn count_converted(outcomes: &Vec<bool>) -> (r: usize)
    ensures
        r == count_true(outcomes@),
{
    let mut n: usize = 0;
    let mut i: usize = 0;
    while i < outcomes.len()
        invariant
            i <= outcomes.len(),
            n == count_true(outcomes@.take(i as int)),
            n <= i,
        decreases outcomes.len() - i,
    {
        assert(outcomes@.take(i + 1).drop_last() =~= outcomes@.take(i as int));
        if outcomes[i] {
            n = n + 1;
        }
        i = i + 1;
    }
    assert(outcomes@.take(i as int) =~= outcomes@);
    n
}

fn digit_str(d: usize) -> (r: &'static str)
    requires
        d < 10,
    ensures
        r@ == seq![digit_char(d as nat)],
{
    proof {
        reveal_strlit("0");
        reveal_strlit("1");
        reveal_strlit("2");
        reveal_strlit("3");
        reveal_strlit("4");
        reveal_strlit("5");
        reveal_strlit("6");
        reveal_strlit("7");
        reveal_strlit("8");
        reveal_strlit("9");
    }
    if d == 0 {
        "0"
    } else if d == 1 {
        "1"
    } else if d == 2 {
        "2"
    } else if d == 3 {
        "3"
    } else if d == 4 {
        "4"
    } else if d == 5 {
        "5"
    } else if d == 6 {
        "6"
    } else if d == 7 {
        "7"
    } else if d == 8 {
        "8"
    } else {
        "9"
    }
}

/// `n` in decimal.
pub fn decimal_string(n: usize) -> (r: String)
    ensures
        r@ == decimal(n as nat),
{
    let mut m: usize = n / 10;
    let mut s = digit_str(n % 10).to_string();
    assert(s@ == seq![digit_char((n % 10) as nat)]);
    while m > 0
        invariant
            m > 0 ==> decimal(n as nat) == decimal(m as nat) + s@,
            m == 0 ==> decimal(n as nat) == s@,
        decreases m,
    {
        let d = digit_str(m % 10);
        let t = d.to_string().concat(s.as_str());
        proof {
            if m / 10 > 0 {
                assert(decimal(m as nat) == decimal((m / 10) as nat) + seq![digit_char((m % 10) as nat)]);
                assert(decimal(n as nat) =~= decimal((m / 10) as nat) + t@);
            } else {
                assert(decimal(m as nat) == seq![digit_char((m % 10) as nat)]);
                assert(decimal(n as nat) =~= t@);
            }
        }
        s = t;
        m = m / 10;
    }
    s
}

/// `"{converted} of {total} files successfully converted!"`.
pub fn report(converted: usize, total: usize) -> (r: String)
    ensures
        r@ == report_of(converted as nat, total as nat),
{
    decimal_string(converted).concat(" of ").concat(decimal_string(total).as_str()).concat(
        " files successfully converted!",
    )
}

} // verus!
