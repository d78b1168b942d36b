use vstd::prelude::*;
use vstd::string::*;

use crate::text::chars_of;

verus! {

/// Number of characters in a date prefix `YYYY-MM-DD-`.
pub const DATE_PREFIX_LEN: usize = 11;

/// An ASCII decimal digit.
pub open spec fn is_digit(c: char) -> bool {
    '0' <= c && c <= '9'
}

/// A date prefix `YYYY-MM-DD-` starts at index `i` of `s`.
pub open spec fn date_at(s: Seq<char>, i: int) -> bool {
    &&& 0 <= i
    &&& i + 11 <= s.len()
    &&& is_digit(s[i])
    &&& is_digit(s[i + 1])
    &&& is_digit(s[i + 2])
    &&& is_digit(s[i + 3])
    &&& s[i + 4] == '-'
    &&& is_digit(s[i + 5])
    &&& is_digit(s[i + 6])
    &&& s[i + 7] == '-'
    &&& is_digit(s[i + 8])
    &&& is_digit(s[i + 9])
    &&& s[i + 10] == '-'
}

pub open spec fn has_date(s: Seq<char>) -> bool {
    exists|i: int| date_at(s, i)
}

/// `i` is the leftmost index at which a date prefix starts.
pub open spec fn first_date_at(s: Seq<char>, i: int) -> bool {
    &&& date_at(s, i)
    &&& forall|j: int| 0 <= j < i ==> !date_at(s, j)
}

/// Index of the leftmost date prefix of `s` (meaningful when `has_date(s)`).
pub open spec fn first_date(s: Seq<char>) -> int {
    choose|i: int| first_date_at(s, i)
}

/// `s` with its leftmost date prefix removed; unchanged when it has none.
pub open spec fn without_first_date(s: Seq<char>) -> Seq<char> {
    if has_date(s) {
        s.take(first_date(s)) + s.skip(first_date(s) + 11)
    } else {
        s
    }
}

/// The leftmost index is unique, so `first_date` names it.
pub proof fn lemma_first_date(s: Seq<char>, i: int)
    requires
        first_date_at(s, i),
    ensures
        has_date(s),
        first_date(s) == i,
{
    assert(first_date_at(s, i));
    let k = first_date(s);
    assert(first_date_at(s, k));
    if k < i {
        assert(!date_at(s, k));
    } else if i < k {
        assert(!date_at(s, i));
    }
}

/// The year, month and day digits of a date prefix, as written.
pub struct ParsedDate {
    pub year: String,
    pub month: String,
    pub day: String,
}

/// Whether a date prefix starts at index `i` of `v`.
pub fn date_starts_at(v: &Vec<char>, i: usize) -> (r: bool)
    ensures
        r == date_at(v@, i as int),
{
    if i > v.len() || v.len() - i < DATE_PREFIX_LEN {
        return false;
    }
    let d = |c: char| -> (b: bool)
        ensures
            b == is_digit(c),
        { '0' <= c && c <= '9' };
    d(v[i]) && d(v[i + 1]) && d(v[i + 2]) && d(v[i + 3]) && v[i + 4] == '-' && d(v[i + 5])
        && d(v[i + 6]) && v[i + 7] == '-' && d(v[i + 8]) && d(v[i + 9]) && v[i + 10] == '-'
}

/// Index of the leftmost date prefix of `v`, if any.
pub fn find_date(v: &Vec<char>) -> (r: Option<usize>)
    ensures
        match r {
            Some(i) => first_date_at(v@, i as int),
            None => !has_date(v@),
        },
{
    let mut i: usize = 0;
    while i < v.len()
        invariant
            i <= v.len(),
            forall|j: int| 0 <= j < i ==> !date_at(v@, j),
        decreases v.len() - i,
    {
        if date_starts_at(v, i) {
            return Some(i);
        }
        i = i + 1;
    }
    assert forall|j: int| 0 <= j implies !date_at(v@, j) by {
        if j >= v.len() {
            assert(!date_at(v@, j));
        }
    }
    None
}

/// Finds the leftmost `YYYY-MM-DD-` in `name` and returns its three numbers
/// as written (no calendar check: any two digits are a month or a day).
pub fn extract_date(name: &str) -> (r: Option<ParsedDate>)
    ensures
        r is Some <==> has_date(name@),
        r is Some ==> first_date_at(name@, first_date(name@)),
        r matches Some(d) ==> {
            let i = first_date(name@);
            &&& d.year@ == name@.subrange(i, i + 4)
            &&& d.month@ == name@.subrange(i + 5, i + 7)
            &&& d.day@ == name@.subrange(i + 8, i + 10)
        },
{
    let v = chars_of(name);
    match find_date(&v) {
        None => None,
        Some(i) => {
            proof {
                lemma_first_date(name@, i as int);
            }
            assert(i + 11 <= v.len());
            let year = name.substring_char(i, i + 4).to_string();
            let month = name.substring_char(i + 5, i + 7).to_string();
            let day = name.substring_char(i + 8, i + 10).to_string();
            Some(ParsedDate { year, month, day })
        },
    }
}

} // verus!
