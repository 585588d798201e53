//! The shape of SQL text, for grouping statements that differ only in their
//! literals: positional parameters, numbers and single-quoted strings each
//! become the placeholder `?`, and whitespace is collapsed. Digits are ASCII digits and word
//! characters ASCII letters, digits and `_`.

use vstd::prelude::*;
use crate::parsers::stderr::{in_class, is_digit, is_word, run_end, scan, CharClass};
use crate::text::{collapse_whitespace, collapse_ws, string_of, trim_chars, trimmed};

verus! {

/// `s[i..]` with each positional parameter (`$` and a run of digits) made `?`.
pub open spec fn params_from(s: Seq<char>, i: int) -> Seq<char>
    decreases s.len() - i, 1int,
{
    if i < 0 || i >= s.len() {
        Seq::empty()
    } else if s[i] == '$' && i + 1 < s.len() && is_digit(s[i + 1]) {
        proof {
            lemma_run_end_bounds(s, i + 1, CharClass::Digit);
        }
        seq!['?'] + params_from(s, run_end(s, i + 1, CharClass::Digit))
    } else {
        seq![s[i]] + params_from(s, i + 1)
    }
}

/// Where a number that starts at `i` ends: a run of digits with no word
/// character before it, then a point and more digits where no word character
/// follows them, else the digits alone where no word character follows
/// them; `i` where no number starts there.
pub open spec fn number_end(s: Seq<char>, i: int) -> int {
    let d = run_end(s, i, CharClass::Digit);
    let f = run_end(s, d + 1, CharClass::Digit);
    if !(0 <= i < s.len() && is_digit(s[i]) && (i == 0 || !is_word(s[i - 1]))) {
        i
    } else if d + 1 < s.len() && s[d] == '.' && is_digit(s[d + 1]) && (f == s.len() || !is_word(
        s[f],
    )) {
        f
    } else if d == s.len() || !is_word(s[d]) {
        d
    } else {
        i
    }
}

/// `s[i..]` with each number made `?`.
pub open spec fn numbers_from(s: Seq<char>, i: int) -> Seq<char>
    decreases s.len() - i,
{
    if i < 0 || i >= s.len() {
        Seq::empty()
    } else if number_end(s, i) > i {
        proof {
            lemma_number_end_bounds(s, i);
        }
        seq!['?'] + numbers_from(s, number_end(s, i))
    } else {
        seq![s[i]] + numbers_from(s, i + 1)
    }
}

/// `s[i..]` with each single-quoted string made `?`.
pub open spec fn strings_from(s: Seq<char>, i: int) -> Seq<char>
    decreases s.len() - i,
{
    if i < 0 || i >= s.len() {
        Seq::empty()
    } else if s[i] == '\'' && run_end(s, i + 1, CharClass::NotQuote) < s.len() {
        proof {
            lemma_run_end_bounds(s, i + 1, CharClass::NotQuote);
        }
        seq!['?'] + strings_from(s, run_end(s, i + 1, CharClass::NotQuote) + 1)
    } else {
        seq![s[i]] + strings_from(s, i + 1)
    }
}

/// The shape of SQL text: trimmed, then positional parameters, numbers and
/// single-quoted strings made `?`, in that order, and whitespace collapsed.
pub open spec fn text_shape(sql: Seq<char>) -> Seq<char> {
    let a = params_from(trimmed(sql), 0);
    let b = numbers_from(a, 0);
    collapse_ws(strings_from(b, 0))
}

pub proof fn lemma_run_end_bounds(s: Seq<char>, i: int, k: CharClass)
    requires
        0 <= i,
    ensures
        i <= run_end(s, i, k),
        i <= s.len() ==> run_end(s, i, k) <= s.len(),
        run_end(s, i, k) > i ==> run_end(s, i, k) <= s.len(),
    decreases s.len() - i,
{
    if 0 <= i < s.len() && in_class(s[i], k) {
        lemma_run_end_bounds(s, i + 1, k);
    }
}

pub proof fn lemma_number_end_bounds(s: Seq<char>, i: int)
    requires
        0 <= i < s.len(),
    ensures
        i <= number_end(s, i) <= s.len(),
{
    lemma_run_end_bounds(s, i, CharClass::Digit);
    let d = run_end(s, i, CharClass::Digit);
    if d + 1 < s.len() {
        lemma_run_end_bounds(s, d + 1, CharClass::Digit);
    }
}

fn replace_params(v: &Vec<char>) -> (r: Vec<char>)
    ensures
        r@ == params_from(v@, 0),
{
    let mut out: Vec<char> = Vec::new();
    let mut i: usize = 0;
    while i < v.len()
        invariant
            i <= v@.len(),
            params_from(v@, 0) == out@ + params_from(v@, i as int),
        decreases v@.len() - i,
    {
        if v[i] == '$' && i + 1 < v.len() && '0' <= v[i + 1] && v[i + 1] <= '9' {
            let e = scan(v, i + 1, CharClass::Digit);
            proof {
                lemma_run_end_bounds(v@, i + 1, CharClass::Digit);
            }
            assert(params_from(v@, i as int) == seq!['?'] + params_from(v@, e as int));
            out.push('?');
            assert(params_from(v@, 0) == out@ + params_from(v@, e as int));
            i = e;
        } else {
            assert(params_from(v@, i as int) == seq![v@[i as int]] + params_from(v@, i + 1));
            out.push(v[i]);
            assert(params_from(v@, 0) == out@ + params_from(v@, i + 1));
            i = i + 1;
        }
    }
    assert(out@ + params_from(v@, i as int) =~= out@);
    out
}

fn word_at(v: &Vec<char>, i: usize) -> (r: bool)
    requires
        i < v@.len(),
    ensures
        r == is_word(v@[i as int]),
{
    let c = v[i];
    ('0' <= c && c <= '9') || ('a' <= c && c <= 'z') || ('A' <= c && c <= 'Z') || c == '_'
}

/// Where a number that starts at `i` ends, or `i`.
fn number_end_at(v: &Vec<char>, i: usize) -> (r: usize)
    requires
        i < v@.len(),
    ensures
        r == number_end(v@, i as int),
        i <= r <= v@.len(),
{
    if !('0' <= v[i] && v[i] <= '9') || (i > 0 && word_at(v, i - 1)) {
        return i;
    }
    let d = scan(v, i, CharClass::Digit);
    proof {
        lemma_run_end_bounds(v@, i as int, CharClass::Digit);
    }
    if d < v.len() && v.len() - d > 1 && v[d] == '.' && '0' <= v[d + 1] && v[d + 1] <= '9' {
        let f = scan(v, d + 1, CharClass::Digit);
        if f == v.len() || !word_at(v, f) {
            return f;
        }
    }
    if d == v.len() || !word_at(v, d) {
        d
    } else {
        i
    }
}

fn replace_numbers(v: &Vec<char>) -> (r: Vec<char>)
    ensures
        r@ == numbers_from(v@, 0),
{
    let mut out: Vec<char> = Vec::new();
    let mut i: usize = 0;
    while i < v.len()
        invariant
            i <= v@.len(),
            numbers_from(v@, 0) == out@ + numbers_from(v@, i as int),
        decreases v@.len() - i,
    {
        let e = number_end_at(v, i);
        if e > i {
            assert(numbers_from(v@, i as int) == seq!['?'] + numbers_from(v@, e as int));
            out.push('?');
            assert(numbers_from(v@, 0) == out@ + numbers_from(v@, e as int));
            i = e;
        } else {
            assert(numbers_from(v@, i as int) == seq![v@[i as int]] + numbers_from(v@, i + 1));
            out.push(v[i]);
            assert(numbers_from(v@, 0) == out@ + numbers_from(v@, i + 1));
            i = i + 1;
        }
    }
    assert(out@ + numbers_from(v@, i as int) =~= out@);
    out
}

fn replace_strings(v: &Vec<char>) -> (r: Vec<char>)
    ensures
        r@ == strings_from(v@, 0),
{
    let mut out: Vec<char> = Vec::new();
    let mut i: usize = 0;
    while i < v.len()
        invariant
            i <= v@.len(),
            strings_from(v@, 0) == out@ + strings_from(v@, i as int),
        decreases v@.len() - i,
    {
        let q = if v[i] == '\'' {
            let e = scan(v, i + 1, CharClass::NotQuote);
            proof {
                lemma_run_end_bounds(v@, i + 1, CharClass::NotQuote);
            }
            e
        } else {
            v.len()
        };
        if q < v.len() {
            assert(strings_from(v@, i as int) == seq!['?'] + strings_from(v@, q + 1));
            out.push('?');
            assert(strings_from(v@, 0) == out@ + strings_from(v@, q + 1));
            i = q + 1;
        } else {
            assert(strings_from(v@, i as int) == seq![v@[i as int]] + strings_from(v@, i + 1));
            out.push(v[i]);
            assert(strings_from(v@, 0) == out@ + strings_from(v@, i + 1));
            i = i + 1;
        }
    }
    assert(out@ + strings_from(v@, i as int) =~= out@);
    out
}

/// The shape of SQL text: trimmed, positional parameters, numbers and
/// single-quoted strings made `?`, and whitespace collapsed.
pub fn shape_of(sql: &str) -> (r: String)
    ensures
        r@ == text_shape(sql@),
{
    let t = trim_chars(sql);
    let a = replace_params(&t);
    let b = replace_numbers(&a);
    let c = replace_strings(&b);
    let cs = string_of(c.as_slice());
    collapse_whitespace(cs.as_str())
}

} // verus!
