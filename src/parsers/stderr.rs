//! The PostgreSQL stderr log format, with `log_line_prefix = '%m [%p] %q%u@%d %a: '`.
//!
//! A header line reads
//! `TIMESTAMP ZONE [PID] USER@DATABASE APP: LEVEL: MESSAGE`, where TIMESTAMP is
//! `YYYY-MM-DD HH:MM:SS` with an optional fraction of a second, ZONE and LEVEL
//! are runs of word characters (ASCII letters, digits and `_`), PID is a run of
//! ASCII digits, USER holds no `@`, DATABASE no space and APP no `:`; the
//! MESSAGE follows the level's colon and any whitespace, and holds no line
//! feed. A line whose first character is not an ASCII digit continues the
//! statement of the header line before it.

use vstd::prelude::*;
use crate::analytics::queries::{has_prefix, starts_with};
use crate::sql::query::{parsed_queries, parsed_statements, queries_view, sql_accepted, StatementKind};
use crate::analytics::queries::classify;
use crate::sql::Query;
use crate::text::{chars_of, collapse_whitespace, collapse_ws, is_white, string_of, trim_chars, trimmed, white_space};
use crate::timestamp::Timestamp;
use crate::{join_normalized, join_texts, level_named, normalized_texts, push_text, LogEntry, LogLevel, PgLoggrepError};

verus! {

/// The character classes of the header grammar.
#[derive(Clone, Copy, Debug, PartialEq, Eq, Structural)]
pub enum CharClass {
    Digit,
    Word,
    NotAt,
    NotSpace,
    NotColon,
    White,
    NotNewline,
    DigitOrDot,
    NotQuote,
}

pub open spec fn is_digit(c: char) -> bool {
    '0' <= c && c <= '9'
}

pub open spec fn is_word(c: char) -> bool {
    is_digit(c) || ('a' <= c && c <= 'z') || ('A' <= c && c <= 'Z') || c == '_'
}

pub open spec fn in_class(c: char, k: CharClass) -> bool {
    match k {
        CharClass::Digit => is_digit(c),
        CharClass::Word => is_word(c),
        CharClass::NotAt => c != '@',
        CharClass::NotSpace => c != ' ',
        CharClass::NotColon => c != ':',
        CharClass::White => white_space(c),
        CharClass::NotNewline => c != '\n',
        CharClass::DigitOrDot => is_digit(c) || c == '.',
        CharClass::NotQuote => c != '\'',
    }
}

/// The end of the longest run of class `k` in `s` that starts at `i`.
pub open spec fn run_end(s: Seq<char>, i: int, k: CharClass) -> int
    decreases s.len() - i,
{
    if 0 <= i < s.len() && in_class(s[i], k) {
        run_end(s, i + 1, k)
    } else {
        i
    }
}

/// Whether every character of `s` from `lo` up to `hi` is in class `k`.
pub open spec fn run_of(s: Seq<char>, lo: int, hi: int, k: CharClass) -> bool {
    0 <= lo <= hi <= s.len() && forall|i: int| lo <= i < hi ==> in_class(#[trigger] s[i], k)
}

fn class_has(c: char, k: CharClass) -> (r: bool)
    ensures
        r == in_class(c, k),
{
    match k {
        CharClass::Digit => '0' <= c && c <= '9',
        CharClass::Word => ('0' <= c && c <= '9') || ('a' <= c && c <= 'z') || ('A' <= c && c
            <= 'Z') || c == '_',
        CharClass::NotAt => c != '@',
        CharClass::NotSpace => c != ' ',
        CharClass::NotColon => c != ':',
        CharClass::White => is_white(c),
        CharClass::NotNewline => c != '\n',
        CharClass::DigitOrDot => ('0' <= c && c <= '9') || c == '.',
        CharClass::NotQuote => c != '\'',
    }
}

/// The end of the longest run of class `k` in `v` that starts at `from`.
pub fn scan(v: &Vec<char>, from: usize, k: CharClass) -> (r: usize)
    requires
        from <= v@.len(),
    ensures
        run_of(v@, from as int, r as int, k),
        r < v@.len() ==> !in_class(v@[r as int], k),
        r == run_end(v@, from as int, k),
{
    let mut i = from;
    while i < v.len() && class_has(v[i], k)
        invariant
            run_of(v@, from as int, i as int, k),
            run_end(v@, from as int, k) == run_end(v@, i as int, k),
        decreases v@.len() - i,
    {
        i = i + 1;
    }
    i
}

/// The end of the longest run of class `k` in `v[from..to]`.
pub fn scan_within(v: &Vec<char>, from: usize, to: usize, k: CharClass) -> (r: usize)
    requires
        from <= to <= v@.len(),
    ensures
        from <= r <= to,
        run_of(v@, from as int, r as int, k),
        r < to ==> !in_class(v@[r as int], k),
{
    let mut i = from;
    while i < to && class_has(v[i], k)
        invariant
            from <= i <= to <= v@.len(),
            run_of(v@, from as int, i as int, k),
        decreases to - i,
    {
        i = i + 1;
    }
    i
}

/// A run that ends where a character outside the class stands, or at the end,
/// ends where the longest run ends.
proof fn lemma_run_end(s: Seq<char>, from: int, r: int, e: int, k: CharClass)
    requires
        run_of(s, from, r, k),
        r < s.len() ==> !in_class(s[r], k),
        run_of(s, from, e, k),
        e < s.len() ==> !in_class(s[e], k),
    ensures
        r == e,
{
    if r < e {
        assert(in_class(s[r], k));
    } else if e < r {
        assert(in_class(s[e], k));
    }
}

/// Whether `s` starts with a timestamp `YYYY-MM-DD HH:MM:SS[.F+]` that ends at `end`.
pub open spec fn timestamp_at(s: Seq<char>, end: int) -> bool {
    &&& 19 <= end <= s.len()
    &&& run_of(s, 0, 4, CharClass::Digit) && s[4] == '-'
    &&& run_of(s, 5, 7, CharClass::Digit) && s[7] == '-'
    &&& run_of(s, 8, 10, CharClass::Digit) && s[10] == ' '
    &&& run_of(s, 11, 13, CharClass::Digit) && s[13] == ':'
    &&& run_of(s, 14, 16, CharClass::Digit) && s[16] == ':'
    &&& run_of(s, 17, 19, CharClass::Digit)
    &&& end == 19 || (end >= 21 && s[19] == '.' && run_of(s, 20, end, CharClass::Digit))
}

/// Where the fields of a header line end.
pub struct HeaderBounds {
    pub ts_end: int,
    pub zone_end: int,
    pub pid_end: int,
    pub user_end: int,
    pub db_end: int,
    pub app_end: int,
    pub level_end: int,
    pub msg_start: int,
}

/// Whether `s` is a header line whose fields end where `b` says:
/// `s[..ts_end]` the timestamp, `s[ts_end+1..zone_end]` the zone,
/// `s[zone_end+2..pid_end]` the process id, `s[pid_end+2..user_end]` the user,
/// `s[user_end+1..db_end]` the database, `s[db_end+1..app_end]` the
/// application, `s[app_end+2..level_end]` the level and `s[msg_start..]` the message.
pub open spec fn header_at(s: Seq<char>, b: HeaderBounds) -> bool {
    &&& timestamp_at(s, b.ts_end)
    &&& b.ts_end + 1 < b.zone_end && run_of(s, b.ts_end + 1, b.zone_end, CharClass::Word)
    &&& s[b.ts_end] == ' '
    &&& b.zone_end + 2 < b.pid_end && run_of(s, b.zone_end + 2, b.pid_end, CharClass::Digit)
    &&& s[b.zone_end] == ' ' && s[b.zone_end + 1] == '['
    &&& b.pid_end + 2 < b.user_end && run_of(s, b.pid_end + 2, b.user_end, CharClass::NotAt)
    &&& s[b.pid_end] == ']' && s[b.pid_end + 1] == ' '
    &&& b.user_end + 1 < b.db_end && run_of(s, b.user_end + 1, b.db_end, CharClass::NotSpace)
    &&& s[b.user_end] == '@'
    &&& b.db_end + 1 < b.app_end && run_of(s, b.db_end + 1, b.app_end, CharClass::NotColon)
    &&& s[b.db_end] == ' '
    &&& b.app_end + 2 < b.level_end && run_of(s, b.app_end + 2, b.level_end, CharClass::Word)
    &&& s[b.app_end] == ':' && s[b.app_end + 1] == ' '
    &&& b.level_end < b.msg_start < s.len()
    &&& s[b.level_end] == ':'
    &&& run_of(s, b.level_end + 1, b.msg_start, CharClass::White)
    &&& !white_space(s[b.msg_start])
    &&& run_of(s, b.msg_start, s.len() as int, CharClass::NotNewline)
}

/// Whether `s` is a header line.
pub open spec fn is_header(s: Seq<char>) -> bool {
    exists|b: HeaderBounds| header_at(s, b)
}

/// Where the fields of a matched header line end, as positions in the line.
#[derive(Clone, Copy, Debug)]
pub struct HeaderSpans {
    pub ts_end: usize,
    pub zone_end: usize,
    pub pid_end: usize,
    pub user_end: usize,
    pub db_end: usize,
    pub app_end: usize,
    pub level_end: usize,
    pub msg_start: usize,
}

pub open spec fn bounds_of(h: HeaderSpans) -> HeaderBounds {
    HeaderBounds {
        ts_end: h.ts_end as int,
        zone_end: h.zone_end as int,
        pid_end: h.pid_end as int,
        user_end: h.user_end as int,
        db_end: h.db_end as int,
        app_end: h.app_end as int,
        level_end: h.level_end as int,
        msg_start: h.msg_start as int,
    }
}

fn digit_at(v: &Vec<char>, i: usize) -> (r: bool)
    requires
        i < v@.len(),
    ensures
        r == is_digit(v@[i as int]),
{
    '0' <= v[i] && v[i] <= '9'
}

/// Where the timestamp at the start of `v` ends, if `v` starts with one that a
/// space follows.
fn match_timestamp(v: &Vec<char>) -> (r: Option<usize>)
    ensures
        r is Some ==> timestamp_at(v@, r->0 as int) && r->0 < v@.len() && v@[r->0 as int] == ' ',
        r is None ==> forall|e: int|
            !(timestamp_at(v@, e) && e < v@.len() && #[trigger] v@[e] == ' '),
{
    if v.len() < 20 {
        return None;
    }
    let fixed = digit_at(v, 0) && digit_at(v, 1) && digit_at(v, 2) && digit_at(v, 3) && v[4]
        == '-' && digit_at(v, 5) && digit_at(v, 6) && v[7] == '-' && digit_at(v, 8) && digit_at(
        v,
        9,
    ) && v[10] == ' ' && digit_at(v, 11) && digit_at(v, 12) && v[13] == ':' && digit_at(v, 14)
        && digit_at(v, 15) && v[16] == ':' && digit_at(v, 17) && digit_at(v, 18);
    if !fixed {
        proof {
            assert forall|e: int| !(timestamp_at(v@, e) && e < v@.len() && #[trigger] v@[e] == ' ') by {
                if timestamp_at(v@, e) {
                    assert(is_digit(v@[0]) && is_digit(v@[1]) && is_digit(v@[2]) && is_digit(v@[3]));
                    assert(is_digit(v@[5]) && is_digit(v@[6]) && is_digit(v@[8]) && is_digit(v@[9]));
                    assert(is_digit(v@[11]) && is_digit(v@[12]) && is_digit(v@[14]) && is_digit(v@[15]));
                    assert(is_digit(v@[17]) && is_digit(v@[18]));
                }
            }
        }
        return None;
    }
    if v[19] == ' ' {
        return Some(19);
    }
    if v[19] != '.' {
        return None;
    }
    let e = scan(v, 20, CharClass::Digit);
    if e == 20 || e >= v.len() || v[e] != ' ' {
        proof {
            assert forall|x: int| !(timestamp_at(v@, x) && x < v@.len() && #[trigger] v@[x] == ' ') by {
                if timestamp_at(v@, x) && x < v@.len() && v@[x] == ' ' {
                    lemma_run_end(v@, 20, e as int, x, CharClass::Digit);
                }
            }
        }
        return None;
    }
    Some(e)
}

/// The fields of `v`, if it is a header line.
pub fn match_header(v: &Vec<char>) -> (r: Option<HeaderSpans>)
    ensures
        r is Some ==> header_at(v@, bounds_of(r->0)),
        r is Some ==> forall|b: HeaderBounds| header_at(v@, b) ==> b == bounds_of(r->0),
        r is None ==> !is_header(v@),
{
    let s = Ghost(v@);
    let t = match match_timestamp(v) {
        Some(t) => t,
        None => {
            assert forall|b: HeaderBounds| !header_at(v@, b) by {
                if header_at(v@, b) {
                    assert(v@[b.ts_end] == ' ');
                }
            }
            return None;
        },
    };
    // Every header bounds of `v` agree with what was matched so far.
    assert forall|b: HeaderBounds| header_at(v@, b) implies b.ts_end == t by {
        if b.ts_end != t {
            if b.ts_end == 19 {
                assert(v@[19] == ' ');
            } else if t == 19 {
                assert(v@[19] == '.');
            } else {
                lemma_run_end(v@, 20, t as int, b.ts_end, CharClass::Digit);
            }
        }
    }
    let n = v.len();
    assert(t < n);
    let z = scan(v, t + 1, CharClass::Word);
    assert forall|b: HeaderBounds| header_at(v@, b) implies b.zone_end == z by {
        lemma_run_end(v@, t + 1, z as int, b.zone_end, CharClass::Word);
    }
    if z == t + 1 || v.len() - z <= 2 || v[z] != ' ' || v[z + 1] != '[' {
        assert(!is_header(v@));
        return None;
    }
    let p = scan(v, z + 2, CharClass::Digit);
    assert forall|b: HeaderBounds| header_at(v@, b) implies b.pid_end == p by {
        lemma_run_end(v@, z + 2, p as int, b.pid_end, CharClass::Digit);
    }
    if p == z + 2 || v.len() - p <= 2 || v[p] != ']' || v[p + 1] != ' ' {
        assert(!is_header(v@));
        return None;
    }
    let u = scan(v, p + 2, CharClass::NotAt);
    assert forall|b: HeaderBounds| header_at(v@, b) implies b.user_end == u by {
        lemma_run_end(v@, p + 2, u as int, b.user_end, CharClass::NotAt);
    }
    if u == p + 2 || v.len() - u <= 1 {
        assert(!is_header(v@));
        return None;
    }
    let d = scan(v, u + 1, CharClass::NotSpace);
    assert forall|b: HeaderBounds| header_at(v@, b) implies b.db_end == d by {
        lemma_run_end(v@, u + 1, d as int, b.db_end, CharClass::NotSpace);
    }
    if d == u + 1 || v.len() - d <= 1 {
        assert(!is_header(v@));
        return None;
    }
    let a = scan(v, d + 1, CharClass::NotColon);
    assert forall|b: HeaderBounds| header_at(v@, b) implies b.app_end == a by {
        lemma_run_end(v@, d + 1, a as int, b.app_end, CharClass::NotColon);
    }
    if a == d + 1 || v.len() - a <= 2 || v[a + 1] != ' ' {
        assert(!is_header(v@));
        return None;
    }
    let l = scan(v, a + 2, CharClass::Word);
    assert forall|b: HeaderBounds| header_at(v@, b) implies b.level_end == l by {
        lemma_run_end(v@, a + 2, l as int, b.level_end, CharClass::Word);
    }
    if l == a + 2 || v.len() - l <= 1 || v[l] != ':' {
        assert(!is_header(v@));
        return None;
    }
    let m = scan(v, l + 1, CharClass::White);
    assert forall|b: HeaderBounds| header_at(v@, b) implies b.msg_start == m by {
        lemma_run_end(v@, l + 1, m as int, b.msg_start, CharClass::White);
    }
    if m >= v.len() {
        assert(!is_header(v@));
        return None;
    }
    let e = scan(v, m, CharClass::NotNewline);
    if e != v.len() {
        assert(!in_class(v@[e as int], CharClass::NotNewline));
        assert(!is_header(v@));
        return None;
    }
    let h = HeaderSpans {
        ts_end: t,
        zone_end: z,
        pid_end: p,
        user_end: u,
        db_end: d,
        app_end: a,
        level_end: l,
        msg_start: m,
    };
    assert(header_at(v@, bounds_of(h)));
    assert forall|b: HeaderBounds| header_at(v@, b) implies b == bounds_of(h) by {
        assert(b.ts_end == t && b.zone_end == z && b.pid_end == p && b.user_end == u);
        assert(b.db_end == d && b.app_end == a && b.level_end == l && b.msg_start == m);
    }
    Some(h)
}

} // verus!

verus! {

/// The value of a run of ASCII digits, read as a decimal number.
pub open spec fn digits_value(s: Seq<char>) -> nat
    decreases s.len(),
{
    if s.len() == 0 {
        0
    } else {
        digits_value(s.drop_last()) * 10 + (s.last() as nat - '0' as nat) as nat
    }
}

/// The microseconds of a fraction of a millisecond written with the digits
/// `f`: the first three digits count, the rest is dropped.
pub open spec fn fraction_micros(f: Seq<char>) -> nat {
    if f.len() >= 3 {
        digits_value(f.take(3))
    } else if f.len() == 2 {
        digits_value(f) * 10
    } else if f.len() == 1 {
        digits_value(f) * 100
    } else {
        0
    }
}

/// Whether `r` is a decimal number with its point at `k`.
pub open spec fn point_at(r: Seq<char>, k: int) -> bool {
    0 <= k < r.len() && r[k] == '.' && run_of(r, 0, k, CharClass::Digit) && run_of(
        r,
        k + 1,
        r.len() as int,
        CharClass::Digit,
    ) && r.len() > 1
}

/// The whole microseconds in a number of milliseconds written as `r`: digits
/// with at most one decimal point and at least one digit.
pub open spec fn decimal_micros(r: Seq<char>) -> Option<int> {
    if r.len() > 0 && run_of(r, 0, r.len() as int, CharClass::Digit) {
        Some(digits_value(r) * 1000int)
    } else if exists|k: int| point_at(r, k) {
        let k = choose|k: int| point_at(r, k);
        Some(digits_value(r.take(k)) * 1000int + fraction_micros(r.skip(k + 1)))
    } else {
        None
    }
}

/// A number that fits in `u64`, or `None`.
pub open spec fn fits_u64(o: Option<int>) -> Option<u64> {
    match o {
        Some(x) => if 0 <= x <= u64::MAX {
            Some(x as u64)
        } else {
            None
        },
        None => None,
    }
}

proof fn lemma_digits_value_prefix(s: Seq<char>, j: int)
    requires
        0 <= j <= s.len(),
    ensures
        digits_value(s.take(j)) <= digits_value(s),
    decreases s.len(),
{
    if j < s.len() {
        assert(s.drop_last().take(j) =~= s.take(j));
        lemma_digits_value_prefix(s.drop_last(), j);
    } else {
        assert(s.take(j) =~= s);
    }
}

pub open spec fn pow10(n: nat) -> nat
    decreases n,
{
    if n == 0 {
        1
    } else {
        10 * pow10((n - 1) as nat)
    }
}

proof fn lemma_digits_value_below(s: Seq<char>)
    requires
        run_of(s, 0, s.len() as int, CharClass::Digit),
    ensures
        digits_value(s) < pow10(s.len()),
    decreases s.len(),
{
    if s.len() > 0 {
        let t = s.drop_last();
        assert(in_class(s[s.len() - 1], CharClass::Digit));
        assert(run_of(t, 0, t.len() as int, CharClass::Digit)) by {
            assert forall|i: int| 0 <= i < t.len() implies in_class(#[trigger] t[i], CharClass::Digit) by {
                assert(t[i] == s[i]);
            }
        }
        lemma_digits_value_below(t);
        let a = digits_value(t);
        let p = pow10(t.len());
        let d = (s.last() as nat - '0' as nat) as nat;
        assert(d <= 9);
        assert(a * 10 + d < p * 10) by (nonlinear_arith)
            requires
                a < p,
                d <= 9,
        ;
    }
}

/// The value of the digits `v[lo..hi]`, where it fits in `u64`.
fn digits_number(v: &Vec<char>, lo: usize, hi: usize) -> (r: Option<u64>)
    requires
        run_of(v@, lo as int, hi as int, CharClass::Digit),
    ensures
        r == fits_u64(Some(digits_value(v@.subrange(lo as int, hi as int)) as int)),
{
    let mut acc: u64 = 0;
    let mut i = lo;
    assert(v@.subrange(lo as int, lo as int).len() == 0);
    while i < hi
        invariant
            run_of(v@, lo as int, hi as int, CharClass::Digit),
            lo <= i <= hi,
            acc == digits_value(v@.subrange(lo as int, i as int)),
        decreases hi - i,
    {
        let d = (v[i] as u32 - '0' as u32) as u64;
        assert(v@.subrange(lo as int, i + 1).drop_last() =~= v@.subrange(lo as int, i as int));
        let next = match acc.checked_mul(10) {
            Some(x) => x.checked_add(d),
            None => None,
        };
        match next {
            Some(x) => {
                acc = x;
            },
            None => {
                proof {
                    assert(v@.subrange(lo as int, hi as int).take(i + 1 - lo) =~= v@.subrange(
                        lo as int,
                        i + 1,
                    ));
                    lemma_digits_value_prefix(v@.subrange(lo as int, hi as int), i + 1 - lo);
                }
                return None;
            },
        }
        i = i + 1;
    }
    Some(acc)
}

/// The whole microseconds in the milliseconds written as `v[lo..hi]`, a run of
/// digits and points, where it is a decimal number whose value fits in `u64`.
pub fn decimal_number_micros(v: &Vec<char>, lo: usize, hi: usize) -> (r: Option<u64>)
    requires
        run_of(v@, lo as int, hi as int, CharClass::DigitOrDot),
    ensures
        r == fits_u64(decimal_micros(v@.subrange(lo as int, hi as int))),
{
    let ghost s = v@.subrange(lo as int, hi as int);
    let k = scan_within(v, lo, hi, CharClass::Digit);
    if k == hi {
        if k == lo {
            assert(!point_at(s, 0));
            return None;
        }
        assert(run_of(s, 0, s.len() as int, CharClass::Digit));
        return match digits_number(v, lo, hi) {
            Some(x) => x.checked_mul(1000),
            None => None,
        };
    }
    // v[k] is the first point.

    assert(in_class(v@[k as int], CharClass::DigitOrDot));
    assert(s[k - lo] == v@[k as int]);
    assert(s[k - lo] == '.');
    assert(!run_of(s, 0, s.len() as int, CharClass::Digit));
    let e = scan_within(v, k + 1, hi, CharClass::Digit);
    if e != hi || hi - lo == 1 {
        assert forall|j: int| !point_at(s, j) by {
            if point_at(s, j) {
                if j < k - lo {
                    assert(s[j] == v@[lo + j]);
                } else if j > k - lo {
                    assert(s[k - lo] == '.');
                } else if e != hi {
                    assert(s[e - lo] == v@[e as int]);
                    assert(in_class(v@[e as int], CharClass::DigitOrDot));
                }
            }
        }
        return None;
    }
    assert(point_at(s, k - lo));
    assert forall|j: int| point_at(s, j) implies j == k - lo by {
        if j < k - lo {
            assert(s[j] == v@[lo + j]);
        } else if j > k - lo {
            assert(s[k - lo] == '.');
        }
    }
    assert(s.take(k - lo) =~= v@.subrange(lo as int, k as int));
    let int_part = match digits_number(v, lo, k) {
        Some(x) => x,
        None => {
            return None;
        },
    };
    let ghost f = s.skip(k - lo + 1);
    let n = hi - (k + 1);
    let frac: u64 = if n == 0 {
        0
    } else {
        let m = if n >= 3 {
            k + 4
        } else {
            hi
        };
        assert(run_of(v@, k + 1, m as int, CharClass::Digit));
        let x = match digits_number(v, k + 1, m) {
            Some(x) => x,
            None => 0,
        };
        proof {
            if n >= 3 {
                assert(f.take(3) =~= v@.subrange(k + 1, m as int));
            } else {
                assert(f =~= v@.subrange(k + 1, m as int));
            }
            assert(digits_value(v@.subrange(k + 1, m as int)) < 1000) by {
                let t = v@.subrange(k + 1, m as int);
                assert(run_of(t, 0, t.len() as int, CharClass::Digit)) by {
                    assert forall|i: int| 0 <= i < t.len() implies in_class(
                        #[trigger] t[i],
                        CharClass::Digit,
                    ) by {
                        assert(t[i] == v@[k + 1 + i]);
                    }
                }
                lemma_digits_value_below(t);
                assert(pow10(3) == 1000) by {
                    reveal_with_fuel(pow10, 4);
                }
                assert(pow10(t.len()) <= 1000) by {
                    reveal_with_fuel(pow10, 4);
                }
            }
        }
        if n >= 3 {
            x
        } else if n == 2 {
            x * 10
        } else {
            x * 100
        }
    };
    assert(frac == fraction_micros(f));
    match int_part.checked_mul(1000) {
        Some(y) => y.checked_add(frac),
        None => None,
    }
}

/// Whether the `duration: NUMBER ms` pattern matches `s` at `i`, its number
/// being `s[i+10..e]`.
pub open spec fn duration_at(s: Seq<char>, i: int, e: int) -> bool {
    &&& 0 <= i && i + 10 <= s.len() && s.subrange(i, i + 10) == "duration: "@
    &&& i + 10 < e && run_of(s, i + 10, e, CharClass::DigitOrDot)
    &&& e + 3 <= s.len() && s.subrange(e, e + 3) == " ms"@
}

/// Whether the leftmost match of the duration pattern in `s` is at `i`.
pub open spec fn first_duration_at(s: Seq<char>, i: int, e: int) -> bool {
    duration_at(s, i, e) && forall|j: int, f: int| 0 <= j < i ==> !duration_at(s, j, f)
}

/// Whether `v[i..]` starts with the characters of `p`.
pub fn matches_at(v: &Vec<char>, i: usize, p: &Vec<char>) -> (r: bool)
    ensures
        r == (i + p@.len() <= v@.len() && v@.subrange(i as int, i + p@.len()) == p@),
{
    if i > v.len() || p.len() > v.len() - i {
        return false;
    }
    let n = v.len();
    let mut k: usize = 0;
    while k < p.len()
        invariant
            n == v@.len(),
            i + p@.len() <= v@.len(),
            k <= p@.len(),
            forall|j: int| 0 <= j < k ==> v@[i + j] == p@[j],
        decreases p@.len() - k,
    {
        if v[i + k] != p[k] {
            assert(v@.subrange(i as int, i + p@.len())[k as int] != p@[k as int]);
            return false;
        }
        k = k + 1;
    }
    assert(v@.subrange(i as int, i + p@.len()) =~= p@);
    true
}

/// The leftmost match of the duration pattern in `v`, as the start of the
/// match and the end of its number.
pub fn find_duration(v: &Vec<char>) -> (r: Option<(usize, usize)>)
    ensures
        match r {
            Some((i, e)) => first_duration_at(v@, i as int, e as int),
            None => forall|i: int, e: int| !duration_at(v@, i, e),
        },
{
    let key = chars_of("duration: ");
    let unit = chars_of(" ms");
    proof {
        reveal_strlit(" ms");
        reveal_strlit("duration: ");
    }
    let mut i: usize = 0;
    while i < v.len()
        invariant
            key@ == "duration: "@,
            unit@ == " ms"@,
            key@.len() == 10,
            unit@.len() == 3,
            unit@[0] == ' ',
            i <= v@.len(),
            forall|j: int, f: int| 0 <= j < i ==> !duration_at(v@, j, f),
        decreases v@.len() - i,
    {
        if matches_at(v, i, &key) {
            let e = scan(v, i + 10, CharClass::DigitOrDot);
            if e > i + 10 && matches_at(v, e, &unit) {
                return Some((i, e));
            }
            assert forall|f: int| !duration_at(v@, i as int, f) by {
                if duration_at(v@, i as int, f) {
                    assert(v@.subrange(f, f + 3)[0] == ' ');
                    lemma_run_end(v@, i + 10, e as int, f, CharClass::DigitOrDot);
                }
            }
        }
        i = i + 1;
    }
    None
}

} // verus!

verus! {

/// What chrono's `DateTime::parse_from_str` gives for the text and format, as
/// whole seconds since the epoch and nanoseconds in UTC.
pub uninterp spec fn zoned_parse(s: Seq<char>, fmt: Seq<char>) -> Option<(i64, u32)>;

/// What chrono's `NaiveDateTime::parse_from_str` gives for the text and
/// format, read as UTC, as whole seconds since the epoch and nanoseconds.
pub uninterp spec fn naive_parse(s: Seq<char>, fmt: Seq<char>) -> Option<(i64, u32)>;

/// Relies on `chrono::DateTime::parse_from_str` and `with_timezone(&Utc)`:
/// the instant that the text gives in the format, if it gives one. A zone
/// name (`%Z`) sets no offset, so with the two formats below that end in one
/// the result lacks an offset and is never an instant.
#[verifier::external_body]
fn parse_zoned(s: &str, fmt: &str) -> (r: Option<(i64, u32)>)
    ensures
        r == zoned_parse(s@, fmt@),
        fmt@ == "%Y-%m-%d %H:%M:%S%.f %Z"@ || fmt@ == "%Y-%m-%d %H:%M:%S %Z"@ ==> r is None,
{
    chrono::DateTime::parse_from_str(s, fmt).ok().map(
        |d| {
            let u = d.with_timezone(&chrono::Utc);
            (u.timestamp(), u.timestamp_subsec_nanos())
        },
    )
}

/// Relies on `chrono::NaiveDateTime::parse_from_str` and `and_utc`: the
/// instant that the text gives in the format, read as UTC, if it gives one.
#[verifier::external_body]
fn parse_naive(s: &str, fmt: &str) -> (r: Option<(i64, u32)>)
    ensures
        r == naive_parse(s@, fmt@),
{
    chrono::NaiveDateTime::parse_from_str(s, fmt).ok().map(
        |d| {
            let u = d.and_utc();
            (u.timestamp(), u.timestamp_subsec_nanos())
        },
    )
}

/// The instant a header's timestamp text stands for: the forms with a zone
/// name appended are tried first, with and without fractional seconds, then
/// the naive forms read as UTC; the first that parses wins.
pub open spec fn timestamp_parse(ts: Seq<char>) -> Option<(i64, u32)> {
    let zoned = ts + " UTC"@;
    if zoned_parse(zoned, "%Y-%m-%d %H:%M:%S%.f %Z"@) is Some {
        zoned_parse(zoned, "%Y-%m-%d %H:%M:%S%.f %Z"@)
    } else if zoned_parse(zoned, "%Y-%m-%d %H:%M:%S %Z"@) is Some {
        zoned_parse(zoned, "%Y-%m-%d %H:%M:%S %Z"@)
    } else if naive_parse(ts, "%Y-%m-%d %H:%M:%S%.f"@) is Some {
        naive_parse(ts, "%Y-%m-%d %H:%M:%S%.f"@)
    } else {
        naive_parse(ts, "%Y-%m-%d %H:%M:%S"@)
    }
}

/// The header bounds of a header line (there is one set of them).
pub open spec fn header_bounds(t: Seq<char>) -> HeaderBounds {
    choose|b: HeaderBounds| header_at(t, b)
}

pub open spec fn is_statement_message(m: Seq<char>) -> bool {
    starts_with(m, "statement: "@)
}

/// The SQL of a statement message: what follows `statement: `.
pub open spec fn statement_sql_of(m: Seq<char>) -> Seq<char> {
    m.skip(11)
}

pub open spec fn is_duration_message(m: Seq<char>) -> bool {
    starts_with(m, "duration: "@)
}

/// The duration, in whole microseconds, that the leftmost match of the
/// duration pattern in `m` gives; `None` where there is no match or its
/// number is not a decimal number that fits.
pub open spec fn message_duration(m: Seq<char>) -> Option<u64> {
    if exists|i: int, e: int| first_duration_at(m, i, e) {
        let (i, e) = choose|i: int, e: int| first_duration_at(m, i, e);
        fits_u64(decimal_micros(m.subrange(i + 10, e)))
    } else {
        None
    }
}

/// The `duration: NUMBER ms` pattern.
#[derive(Clone, Copy, Debug)]
pub struct DurationPattern;

/// The `$DIGITS` positional-parameter pattern.
#[derive(Clone, Copy, Debug)]
pub struct ParameterPattern;

/// The header-line pattern.
#[derive(Clone, Copy, Debug)]
pub struct LogLinePattern;

impl LogLinePattern {
    /// Whether `line` is a header line.
    pub fn is_match(&self, line: &str) -> (r: bool)
        ensures
            r == is_header(line@),
    {
        match_header(&chars_of(line)).is_some()
    }
}

impl DurationPattern {
    /// Whether the pattern matches somewhere in `s`.
    pub fn is_match(&self, s: &str) -> (r: bool)
        ensures
            r == exists|i: int, e: int| duration_at(s@, i, e),
    {
        find_duration(&chars_of(s)).is_some()
    }
}

impl ParameterPattern {
    /// Whether `s` holds a `$` followed by an ASCII digit.
    pub fn is_match(&self, s: &str) -> (r: bool)
        ensures
            r == exists|i: int| 0 <= i && i + 1 < s@.len() && s@[i] == '$'
                && is_digit(#[trigger] s@[i + 1]),
    {
        let v = chars_of(s);
        let mut i: usize = 0;
        while i < v.len()
            invariant
                v@ == s@,
                i <= v@.len(),
                forall|j: int| 0 <= j < i && j + 1 < v@.len()
                    ==> !(v@[j] == '$' && is_digit(#[trigger] v@[j + 1])),
            decreases v@.len() - i,
        {
            if i + 1 < v.len() && v[i] == '$' && digit_at(&v, i + 1) {
                return true;
            }
            i = i + 1;
        }
        false
    }
}

/// The fields of a header line.
#[derive(Clone, Debug)]
pub struct HeaderLine {
    pub timestamp: Timestamp,
    pub timezone: String,
    pub process_id: String,
    pub user: String,
    pub database: String,
    pub application_name: String,
    pub level: String,
    pub message: String,
}

/// Whether `h` holds the fields of the header line `t`.
pub open spec fn header_fields(t: Seq<char>, h: HeaderLine) -> bool {
    let b = header_bounds(t);
    &&& timestamp_parse(t.take(b.ts_end)) == Some((h.timestamp.seconds, h.timestamp.nanos))
    &&& h.timezone@ == t.subrange(b.ts_end + 1, b.zone_end)
    &&& h.process_id@ == t.subrange(b.zone_end + 2, b.pid_end)
    &&& h.user@ == t.subrange(b.pid_end + 2, b.user_end)
    &&& h.database@ == t.subrange(b.user_end + 1, b.db_end)
    &&& h.application_name@ == t.subrange(b.db_end + 1, b.app_end)
    &&& h.level@ == t.subrange(b.app_end + 2, b.level_end)
    &&& h.message@ == t.skip(b.msg_start)
}

/// What one line is, once trimmed.
#[derive(Clone, Debug)]
pub enum LineEvent {
    /// Nothing but whitespace.
    Blank,
    /// A line that does not start with a digit: the continuation of a statement.
    Continuation(String),
    /// A line that starts with a digit but is no header line.
    Unmatched,
    /// A header line whose timestamp parsed.
    Header(HeaderLine),
}

/// Whether the timestamp of the header line `t` parses.
pub open spec fn line_header_ok(t: Seq<char>) -> bool {
    timestamp_parse(t.take(header_bounds(t).ts_end)) is Some
}

/// Whether `r` is what reading `line` gives.
pub open spec fn line_read(line: Seq<char>, r: Result<LineEvent, PgLoggrepError>) -> bool {
    let t = trimmed(line);
    if t.len() == 0 {
        r matches Ok(LineEvent::Blank)
    } else if !is_digit(t[0]) {
        r matches Ok(LineEvent::Continuation(c)) && c@ == t
    } else if !is_header(t) {
        r matches Ok(LineEvent::Unmatched)
    } else if !line_header_ok(t) {
        r matches Err(PgLoggrepError::TimestampParse { timestamp_string: ts, .. }) && ts@ == t.take(
            header_bounds(t).ts_end,
        )
    } else {
        r matches Ok(LineEvent::Header(h)) && header_fields(t, h)
    }
}

/// A record of the stream in outline: its header's fields, the message with
/// any continuation lines appended, and whether it is a statement record.
pub struct Outline {
    pub statement: bool,
    pub timestamp: Timestamp,
    pub process_id: Seq<char>,
    pub user: Seq<char>,
    pub database: Seq<char>,
    pub application_name: Seq<char>,
    pub level: Seq<char>,
    pub message: Seq<char>,
}

pub open spec fn outline_of_header(t: Seq<char>) -> Outline {
    let b = header_bounds(t);
    let (secs, nanos) = timestamp_parse(t.take(b.ts_end))->0;
    Outline {
        statement: is_statement_message(t.skip(b.msg_start)),
        timestamp: Timestamp { seconds: secs, nanos: nanos },
        process_id: t.subrange(b.zone_end + 2, b.pid_end),
        user: t.subrange(b.pid_end + 2, b.user_end),
        database: t.subrange(b.user_end + 1, b.db_end),
        application_name: t.subrange(b.db_end + 1, b.app_end),
        level: t.subrange(b.app_end + 2, b.level_end),
        message: t.skip(b.msg_start),
    }
}

/// One line's effect on the records emitted so far and the open statement.
pub open spec fn outline_step(state: (Seq<Outline>, Option<Outline>), line: Seq<char>) -> (
    Seq<Outline>,
    Option<Outline>,
) {
    let t = trimmed(line);
    let (done, open) = state;
    if t.len() == 0 || (is_digit(t[0]) && (!is_header(t) || !line_header_ok(t))) {
        state
    } else if !is_digit(t[0]) {
        match open {
            Some(o) => (done, Some(Outline { message: o.message + seq![' '] + t, ..o })),
            None => state,
        }
    } else {
        let h = outline_of_header(t);
        let flushed = match open {
            Some(o) => done.push(o),
            None => done,
        };
        if h.statement {
            (flushed, Some(h))
        } else {
            (flushed.push(h), None)
        }
    }
}

pub open spec fn outline_lines(lines: Seq<Seq<char>>) -> (Seq<Outline>, Option<Outline>)
    decreases lines.len(),
{
    if lines.len() == 0 {
        (Seq::empty(), None)
    } else {
        outline_step(outline_lines(lines.drop_last()), lines.last())
    }
}

/// The records that a stream of lines gives, in outline: in the order of
/// their header lines, a statement still open at the end included.
pub open spec fn stream_outline(lines: Seq<Seq<char>>) -> Seq<Outline> {
    let (done, open) = outline_lines(lines);
    match open {
        Some(o) => done.push(o),
        None => done,
    }
}

/// Whether the record `e` is what the outline `o` describes.
pub open spec fn entry_matches(e: LogEntry, o: Outline) -> bool {
    &&& e.message@ == o.message
    &&& e.timestamp == o.timestamp
    &&& e.process_id@ == o.process_id
    &&& e.user matches Some(u) && u@ == o.user
    &&& e.database matches Some(d) && d@ == o.database
    &&& e.application_name matches Some(a) && a@ == o.application_name
    &&& e.client_host is None
    &&& (e.message_type is Statement <==> e.queries is Some)
    &&& if o.statement {
        &&& e.message_type is Statement && e.duration_us is None
        &&& e.queries matches Some(qs) && queries_view(qs@) == statement_query_views(
            statement_sql_of(o.message),
        )
    } else if is_duration_message(o.message) {
        e.message_type is Duration && e.queries is None && e.duration_us == message_duration(
            o.message,
        )
    } else {
        &&& level_named(e.message_type, o.level) && e.duration_us is None
        &&& e.queries matches Some(qs) ==> queries_view(qs@) == statement_query_views(o.message)
    }
}

pub open spec fn line_views(lines: Seq<String>) -> Seq<Seq<char>> {
    lines.map_values(|l: String| l@)
}

/// Whether `e` is the statement record of the statement message `m`.
pub open spec fn statement_record(e: LogEntry, m: Seq<char>) -> bool {
    &&& e.message@ == m
    &&& e.message_type is Statement
    &&& e.duration_us is None
    &&& e.queries matches Some(qs) && queries_view(qs@) == statement_query_views(statement_sql_of(m))
}

/// A statement whose continuation lines may still come.
#[derive(Clone, Debug)]
pub struct PendingStatement {
    timestamp: Timestamp,
    process_id: String,
    user: String,
    database: String,
    application_name: String,
    message: Vec<char>,
}

spec fn pending_matches(p: PendingStatement, o: Outline) -> bool {
    &&& o.statement
    &&& is_statement_message(p.message@)
    &&& p.message@ == o.message
    &&& p.timestamp == o.timestamp
    &&& p.process_id@ == o.process_id
    &&& p.user@ == o.user
    &&& p.database@ == o.database
    &&& p.application_name@ == o.application_name
}

/// The statements of `sql`, or where sqlparser does not accept it, the one
/// query that stands for the text.
pub fn statement_queries(sql: &str) -> (r: Vec<Query>)
    ensures
        queries_view(r@) == statement_query_views(sql@),
{
    match Query::from_sql(sql) {
        Ok(qs) => qs,
        Err(_) => {
            let mut v: Vec<Query> = Vec::new();
            v.push(Query::unparsed(sql));
            assert(queries_view(v@) =~= statement_query_views(sql@));
            v
        },
    }
}

/// The queries of a statement's SQL: one per statement where sqlparser
/// accepts it; else one query for the text with its whitespace collapsed,
/// classified by its leading keyword.
pub open spec fn statement_query_views(sql: Seq<char>) -> Seq<(crate::sql::QueryType, Seq<char>, Seq<char>)> {
    if sql_accepted(sql) {
        parsed_queries(sql)
    } else {
        seq![(classify(sql), collapse_ws(sql), collapse_ws(sql))]
    }
}

/// The rewritten SQL of each parsed statement.
pub open spec fn rewritten_texts(ps: Seq<(StatementKind, Seq<char>, Seq<char>)>) -> Seq<Seq<char>> {
    ps.map_values(|p: (StatementKind, Seq<char>, Seq<char>)| p.2)
}

/// SQL text with every literal replaced by the placeholder: the rewritten
/// statements joined with `"; "`; the text itself where it holds no
/// statement; the text with its whitespace collapsed where it does not parse.
pub open spec fn normalized_sql(q: Seq<char>) -> Seq<char> {
    match parsed_statements(q) {
        Some(ps) => if ps.len() == 0 {
            q
        } else {
            join_texts(rewritten_texts(ps), "; "@)
        },
        None => collapse_ws(q),
    }
}

/// The normalized text of SQL, given what parsing it gave: the statements'
/// normalized forms joined with `"; "`; the text itself where it holds no
/// statement; the text with its whitespace collapsed where it did not parse.
pub open spec fn normalized_text(parsed: Result<Vec<Query>, PgLoggrepError>, query: Seq<char>) -> Seq<char> {
    match parsed {
        Ok(qs) => if qs@.len() == 0 {
            query
        } else {
            join_texts(normalized_texts(qs@), "; "@)
        },
        Err(_) => collapse_ws(query),
    }
}

/// The normalized text of SQL, given what parsing it gave.
pub fn normalized_sql_text(parsed: &Result<Vec<Query>, PgLoggrepError>, query: &str) -> (r: String)
    ensures
        r@ == normalized_text(*parsed, query@),
{
    match parsed {
        Ok(qs) => {
            if qs.len() == 0 {
                String::from_str(query)
            } else {
                join_normalized(qs)
            }
        },
        Err(_) => collapse_whitespace(query),
    }
}

/// Parser for the PostgreSQL stderr log format.
pub struct StderrParser {
    pub log_line_regex: LogLinePattern,
    duration_regex: DurationPattern,
    parameter_regex: ParameterPattern,
    /// The statement opened by the last header line, for continuation lines.
    pending_statement: Option<PendingStatement>,
}

impl StderrParser {
    /// Whether a statement is open for continuation lines.
    pub closed spec fn has_pending(&self) -> bool {
        self.pending_statement is Some
    }

    /// The message of the open statement, continuation lines included.
    pub closed spec fn pending_message(&self) -> Option<Seq<char>> {
        match self.pending_statement {
            Some(p) => Some(p.message@),
            None => None,
        }
    }

    pub fn new() -> (r: StderrParser)
        ensures
            !r.has_pending(),
    {
        StderrParser {
            log_line_regex: LogLinePattern,
            duration_regex: DurationPattern,
            parameter_regex: ParameterPattern,
            pending_statement: None,
        }
    }

    pub fn duration_regex(&self) -> (r: &DurationPattern) {
        &self.duration_regex
    }

    pub fn parameter_regex(&self) -> (r: &ParameterPattern) {
        &self.parameter_regex
    }

    /// Parses a header's timestamp text. The zone text is not read: the
    /// forms tried take the time as UTC.
    pub fn parse_timestamp(&self, timestamp_str: &str, _timezone: &str) -> (r: Result<
        Timestamp,
        PgLoggrepError,
    >)
        ensures
            match timestamp_parse(timestamp_str@) {
                Some((secs, nanos)) => r == Ok::<Timestamp, PgLoggrepError>(
                    Timestamp { seconds: secs, nanos: nanos },
                ),
                None => r matches Err(PgLoggrepError::TimestampParse { timestamp_string: t, .. })
                    && t@ == timestamp_str@,
            },
    {
        let mut z: Vec<char> = Vec::new();
        push_text(&mut z, timestamp_str);
        push_text(&mut z, " UTC");
        let zoned = string_of(z.as_slice());
        let found = match parse_zoned(zoned.as_str(), "%Y-%m-%d %H:%M:%S%.f %Z") {
            Some(x) => Some(x),
            None => match parse_zoned(zoned.as_str(), "%Y-%m-%d %H:%M:%S %Z") {
                Some(x) => Some(x),
                None => match parse_naive(timestamp_str, "%Y-%m-%d %H:%M:%S%.f") {
                    Some(x) => Some(x),
                    None => parse_naive(timestamp_str, "%Y-%m-%d %H:%M:%S"),
                },
            },
        };
        match found {
            Some((secs, nanos)) => Ok(Timestamp::new(secs, nanos)),
            None => Err(crate::timestamp_error("Failed to parse timestamp", timestamp_str)),
        }
    }

    /// The duration, in whole microseconds, of a `duration: NUMBER ms` message.
    pub fn extract_duration(&self, message: &str) -> (r: Option<u64>)
        ensures
            r == message_duration(message@),
    {
        let v = chars_of(message);
        match find_duration(&v) {
            Some((i, e)) => {
                assert(first_duration_at(v@, i as int, e as int));
                assert forall|i2: int, e2: int| first_duration_at(v@, i2, e2) implies i2 == i && e2
                    == e by {
                    if i2 != i {
                        assert(!duration_at(v@, i2, e2) || !duration_at(v@, i as int, e as int));
                    }
                    reveal_strlit(" ms");
                    assert(v@.subrange(e2, e2 + 3)[0] == ' ');
                    assert(v@.subrange(e as int, e + 3)[0] == ' ');
                    lemma_run_end(v@, i + 10, e as int, e2, CharClass::DigitOrDot);
                }
                decimal_number_micros(&v, i + 10, e)
            },
            None => None,
        }
    }

    /// What `line` is, once trimmed.
    pub fn read_line(&self, line: &str) -> (r: Result<LineEvent, PgLoggrepError>)
        ensures
            line_read(line@, r),
    {
        let v = trim_chars(line);
        if v.len() == 0 {
            return Ok(LineEvent::Blank);
        }
        if !digit_at(&v, 0) {
            return Ok(LineEvent::Continuation(string_of(v.as_slice())));
        }
        let h = match match_header(&v) {
            Some(h) => h,
            None => {
                return Ok(LineEvent::Unmatched);
            },
        };
        assert(header_bounds(v@) == bounds_of(h));
        let ts = string_of(&v.as_slice()[0..h.ts_end]);
        let timestamp = match self.parse_timestamp(ts.as_str(), "") {
            Ok(t) => t,
            Err(e) => {
                assert(v@.take(h.ts_end as int) =~= v@.subrange(0, h.ts_end as int));
                return Err(e);
            },
        };
        let fields = HeaderLine {
            timestamp,
            timezone: string_of(&v.as_slice()[h.ts_end + 1..h.zone_end]),
            process_id: string_of(&v.as_slice()[h.zone_end + 2..h.pid_end]),
            user: string_of(&v.as_slice()[h.pid_end + 2..h.user_end]),
            database: string_of(&v.as_slice()[h.user_end + 1..h.db_end]),
            application_name: string_of(&v.as_slice()[h.db_end + 1..h.app_end]),
            level: string_of(&v.as_slice()[h.app_end + 2..h.level_end]),
            message: string_of(&v.as_slice()[h.msg_start..v.len()]),
        };
        assert(v@.take(h.ts_end as int) =~= v@.subrange(0, h.ts_end as int));
        assert(v@.skip(h.msg_start as int) =~= v@.subrange(h.msg_start as int, v@.len() as int));
        Ok(LineEvent::Header(fields))
    }

    /// The text with every literal replaced by the placeholder, statements
    /// joined with `"; "`; where sqlparser does not accept the text, the text
    /// with its whitespace collapsed. It never fails.
    pub fn normalize_query(&self, query: &str) -> (r: Result<String, PgLoggrepError>)
        ensures
            r is Ok,
            r->Ok_0@ == normalized_sql(query@),
    {
        let parsed = Query::from_sql(query);
        proof {
            if parsed is Ok {
                let qs = parsed->Ok_0@;
                let ps = parsed_statements(query@)->0;
                assert(queries_view(qs) == parsed_queries(query@));
                assert(normalized_texts(qs).len() == rewritten_texts(ps).len());
                assert forall|k: int| 0 <= k < qs.len() implies #[trigger] normalized_texts(qs)[k]
                    == rewritten_texts(ps)[k] by {
                    assert(queries_view(qs)[k] == parsed_queries(query@)[k]);
                }
                assert(normalized_texts(qs) =~= rewritten_texts(ps));
            }
        }
        Ok(normalized_sql_text(&parsed, query))
    }

    /// The record of a header line that opens no statement.
    fn header_entry(&self, h: &HeaderLine) -> (r: LogEntry)
        requires
            !is_statement_message(h.message@),
        ensures
            entry_matches(r, header_outline(*h)),
    {
        let m = chars_of(h.message.as_str());
        let (kind, duration) = if has_prefix(&m, "duration: ") {
            (LogLevel::Duration, self.extract_duration(h.message.as_str()))
        } else {
            (LogLevel::from_name(h.level.as_str()), None)
        };
        let queries = if matches!(kind, LogLevel::Statement) {
            Some(statement_queries(h.message.as_str()))
        } else {
            None
        };
        LogEntry {
            timestamp: h.timestamp,
            process_id: h.process_id.clone(),
            user: Some(h.user.clone()),
            database: Some(h.database.clone()),
            client_host: None,
            application_name: Some(h.application_name.clone()),
            message_type: kind,
            message: h.message.clone(),
            queries,
            duration_us: duration,
        }
    }
}

/// The outline of the record that a header line gives.
pub open spec fn header_outline(h: HeaderLine) -> Outline {
    Outline {
        statement: is_statement_message(h.message@),
        timestamp: h.timestamp,
        process_id: h.process_id@,
        user: h.user@,
        database: h.database@,
        application_name: h.application_name@,
        level: h.level@,
        message: h.message@,
    }
}

/// A statement opened by the header line `h`.
fn open_statement(h: &HeaderLine) -> (r: PendingStatement)
    requires
        is_statement_message(h.message@),
    ensures
        pending_matches(r, header_outline(*h)),
{
    PendingStatement {
        timestamp: h.timestamp,
        process_id: h.process_id.clone(),
        user: h.user.clone(),
        database: h.database.clone(),
        application_name: h.application_name.clone(),
        message: chars_of(h.message.as_str()),
    }
}

/// Appends a continuation line to an open statement.
fn continue_statement(p: &mut PendingStatement, text: &str)
    ensures
        final(p).message@ == old(p).message@ + seq![' '] + text@,
        final(p).timestamp == old(p).timestamp,
        final(p).process_id == old(p).process_id,
        final(p).user == old(p).user,
        final(p).database == old(p).database,
        final(p).application_name == old(p).application_name,
        is_statement_message(old(p).message@) ==> is_statement_message(final(p).message@),
{
    p.message.push(' ');
    push_text(&mut p.message, text);
    proof {
        let m = old(p).message@;
        let n = "statement: "@.len() as int;
        if is_statement_message(m) {
            assert(p.message@.take(n) =~= m.take(n));
        }
    }
}

/// The record of an open statement: its statements are the message after
/// `statement: `.
fn statement_entry(p: &PendingStatement) -> (r: LogEntry)
    requires
        is_statement_message(p.message@),
    ensures
        forall|o: Outline| pending_matches(*p, o) ==> entry_matches(r, o),
{
    proof {
        reveal_strlit("statement: ");
    }
    let message = string_of(p.message.as_slice());
    let query = string_of(&p.message.as_slice()[11..p.message.len()]);
    assert(query@ =~= statement_sql_of(p.message@));
    LogEntry {
        timestamp: p.timestamp,
        process_id: p.process_id.clone(),
        user: Some(p.user.clone()),
        database: Some(p.database.clone()),
        client_host: None,
        application_name: Some(p.application_name.clone()),
        message_type: LogLevel::Statement,
        message,
        queries: Some(statement_queries(query.as_str())),
        duration_us: None,
    }
}

/// Whether the stream state `(entries, open)` is the outline `state`.
spec fn state_matches(
    entries: Seq<LogEntry>,
    open: Option<PendingStatement>,
    state: (Seq<Outline>, Option<Outline>),
) -> bool {
    &&& entries.len() == state.0.len()
    &&& forall|k: int| 0 <= k < entries.len() ==> entry_matches(#[trigger] entries[k], state.0[k])
    &&& match (open, state.1) {
        (Some(p), Some(o)) => pending_matches(p, o),
        (None, None) => true,
        _ => false,
    }
}

/// Whether `failures` lists, as 1-based line numbers with the line, the lines
/// among the first `n` of `lines` whose header timestamp does not parse.
pub open spec fn failed_lines(lines: Seq<Seq<char>>, n: int) -> Seq<(usize, Seq<char>)>
    decreases n,
{
    if n <= 0 {
        Seq::empty()
    } else {
        let rest = failed_lines(lines, n - 1);
        let t = trimmed(lines[n - 1]);
        if t.len() > 0 && is_digit(t[0]) && is_header(t) && !line_header_ok(t) {
            rest.push((n as usize, lines[n - 1]))
        } else {
            rest
        }
    }
}

impl StderrParser {
    /// Reads one line. A header line gives its record at once; a statement
    /// it opens stays open for the continuation lines that follow, which give
    /// no record. Blank lines, lines that start with a digit but are no
    /// header, and continuation lines give none either.
    pub fn parse_line(&mut self, line: &str) -> (r: Result<Option<LogEntry>, PgLoggrepError>)
        ensures
            ({
                let t = trimmed(line@);
                if t.len() == 0 || (is_digit(t[0]) && !is_header(t)) {
                    &&& r == Ok::<Option<LogEntry>, PgLoggrepError>(None)
                    &&& final(self).pending_message() == old(self).pending_message()
                } else if !is_digit(t[0]) {
                    &&& r == Ok::<Option<LogEntry>, PgLoggrepError>(None)
                    &&& final(self).pending_message() == match old(self).pending_message() {
                        Some(m) => Some(m + seq![' '] + t),
                        None => None,
                    }
                } else if !line_header_ok(t) {
                    &&& r matches Err(PgLoggrepError::TimestampParse { timestamp_string: ts, .. })
                        && ts@ == t.take(header_bounds(t).ts_end)
                    &&& final(self).pending_message() == old(self).pending_message()
                } else {
                    &&& r matches Ok(Some(e)) && entry_matches(e, outline_of_header(t))
                    &&& final(self).has_pending() == outline_of_header(t).statement
                    &&& final(self).pending_message() == if outline_of_header(t).statement {
                        Some(outline_of_header(t).message)
                    } else {
                        None
                    }
                }
            }),
    {
        let ev = self.read_line(line);
        let ghost t = trimmed(line@);
        match ev {
            Err(e) => Err(e),
            Ok(LineEvent::Blank) => Ok(None),
            Ok(LineEvent::Unmatched) => Ok(None),
            Ok(LineEvent::Continuation(text)) => {
                match &mut self.pending_statement {
                    Some(p) => continue_statement(p, text.as_str()),
                    None => {},
                }
                Ok(None)
            },
            Ok(LineEvent::Header(h)) => {
                assert(header_outline(h) == outline_of_header(t));
                let m = chars_of(h.message.as_str());
                if has_prefix(&m, "statement: ") {
                    let p = open_statement(&h);
                    let e = statement_entry(&p);
                    self.pending_statement = Some(p);
                    Ok(Some(e))
                } else {
                    self.pending_statement = None;
                    Ok(Some(self.header_entry(&h)))
                }
            },
        }
    }

    /// Closes the open statement and returns its record, continuation lines
    /// included; `None` where no statement is open.
    pub fn take_pending(&mut self) -> (r: Option<LogEntry>)
        ensures
            !final(self).has_pending(),
            match old(self).pending_message() {
                Some(m) => is_statement_message(m) ==> (r matches Some(e) && statement_record(e, m)),
                None => r is None,
            },
    {
        let taken = self.pending_statement.take();
        match taken {
            Some(p) => {
                let m = p.message.clone();
                if has_prefix(&m, "statement: ") {
                    let e = statement_entry(&p);
                    let ghost o = Outline {
                        statement: true,
                        timestamp: p.timestamp,
                        process_id: p.process_id@,
                        user: p.user@,
                        database: p.database@,
                        application_name: p.application_name@,
                        level: Seq::empty(),
                        message: p.message@,
                    };
                    assert(pending_matches(p, o));
                    Some(e)
                } else {
                    None
                }
            },
            None => None,
        }
    }

    /// Reads the lines in order with one state of its own and returns the
    /// records, one per header line in the order of those lines, a statement
    /// taking its continuation lines; a statement still open at the end is
    /// returned last. Lines that fail, because a header's timestamp does not
    /// parse, are skipped: [`StderrParser::parse_lines_strict`] reports them.
    pub fn parse_lines(&self, lines: &[String]) -> (r: Result<Vec<LogEntry>, PgLoggrepError>)
        ensures
            r is Ok,
            ({
                let o = stream_outline(line_views(lines@));
                &&& r->Ok_0@.len() == o.len()
                &&& forall|k: int| 0 <= k < o.len() ==> entry_matches(#[trigger] r->Ok_0@[k], o[k])
            }),
    {
        let (entries, _) = self.run_lines(lines);
        Ok(entries)
    }

    /// As [`StderrParser::parse_lines`], but where any line fails the result
    /// is an error that lists each failed line with its 1-based number.
    pub fn parse_lines_strict(&self, lines: &[String]) -> (r: Result<Vec<LogEntry>, PgLoggrepError>)
        ensures
            ({
                let views = line_views(lines@);
                let o = stream_outline(views);
                let failed = failed_lines(views, views.len() as int);
                if failed.len() == 0 {
                    r is Ok && r->Ok_0@.len() == o.len() && forall|k: int|
                        0 <= k < o.len() ==> entry_matches(#[trigger] r->Ok_0@[k], o[k])
                } else {
                    r matches Err(PgLoggrepError::Lines { failures: f }) && f@.len() == failed.len()
                        && forall|k: int| 0 <= k < failed.len()
                            ==> (#[trigger] f@[k]).0 == failed[k].0 && f@[k].1@ == failed[k].1
                }
            }),
    {
        let (entries, failures) = self.run_lines(lines);
        if failures.len() == 0 {
            Ok(entries)
        } else {
            Err(PgLoggrepError::Lines { failures })
        }
    }

    /// The records of the lines, and the lines that failed.
    fn run_lines(&self, lines: &[String]) -> (r: (Vec<LogEntry>, Vec<(usize, String)>))
        ensures
            ({
                let views = line_views(lines@);
                let o = stream_outline(views);
                let failed = failed_lines(views, views.len() as int);
                &&& r.0@.len() == o.len()
                &&& forall|k: int| 0 <= k < o.len() ==> entry_matches(#[trigger] r.0@[k], o[k])
                &&& r.1@.len() == failed.len()
                &&& forall|k: int| 0 <= k < failed.len()
                    ==> (#[trigger] r.1@[k]).0 == failed[k].0 && r.1@[k].1@ == failed[k].1
            }),
    {
        let ghost views = line_views(lines@);
        let mut entries: Vec<LogEntry> = Vec::new();
        let mut failures: Vec<(usize, String)> = Vec::new();
        let mut open: Option<PendingStatement> = None;
        let mut i: usize = 0;
        assert(views.take(0) =~= Seq::<Seq<char>>::empty());
        while i < lines.len()
            invariant
                views == line_views(lines@),
                i <= lines@.len(),
                state_matches(entries@, open, outline_lines(views.take(i as int))),
                failures@.len() == failed_lines(views, i as int).len(),
                forall|k: int| 0 <= k < failures@.len()
                    ==> (#[trigger] failures@[k]).0 == failed_lines(views, i as int)[k].0
                    && failures@[k].1@ == failed_lines(views, i as int)[k].1,
            decreases lines@.len() - i,
        {
            let ghost before = outline_lines(views.take(i as int));
            let ghost t = trimmed(lines@[i as int]@);
            assert(views.take(i + 1).drop_last() =~= views.take(i as int));
            assert(views.take(i + 1).last() == lines@[i as int]@);
            let ghost entries_before = entries@;
            match self.read_line(lines[i].as_str()) {
                Err(_) => {
                    failures.push((i + 1, lines[i].clone()));
                },
                Ok(LineEvent::Blank) => {},
                Ok(LineEvent::Unmatched) => {},
                Ok(LineEvent::Continuation(text)) => {
                    match &mut open {
                        Some(p) => continue_statement(p, text.as_str()),
                        None => {},
                    }
                },
                Ok(LineEvent::Header(h)) => {
                    assert(header_outline(h) == outline_of_header(t));
                    match open {
                        Some(p) => {
                            entries.push(statement_entry(&p));
                        },
                        None => {},
                    }
                    proof {
                        assert forall|k: int| 0 <= k < entries_before.len() implies entries@[k]
                            == entries_before[k] by {}
                    }
                    open = None;
                    let m = chars_of(h.message.as_str());
                    if has_prefix(&m, "statement: ") {
                        open = Some(open_statement(&h));
                    } else {
                        let ghost mid = entries@;
                        entries.push(self.header_entry(&h));
                        assert forall|k: int| 0 <= k < mid.len() implies entries@[k] == mid[k] by {}
                    }
                },
            }
            i = i + 1;
        }
        assert(views.take(lines@.len() as int) =~= views);
        match open {
            Some(p) => {
                let ghost mid = entries@;
                entries.push(statement_entry(&p));
                assert forall|k: int| 0 <= k < mid.len() implies entries@[k] == mid[k] by {}
            },
            None => {},
        }
        (entries, failures)
    }
}

} // verus!

verus! {

/// Normalizing a statement that does not parse gives its text with the
/// whitespace collapsed: not empty where the text holds anything but
/// whitespace, with no leading or trailing whitespace and single spaces
/// between words.
pub proof fn unparsable_statement_normalizes_to_collapsed_text(q: Seq<char>)
    requires
        !sql_accepted(q),
        exists|i: int| 0 <= i < q.len() && !white_space(#[trigger] q[i]),
    ensures
        collapse_ws(q).len() > 0,
        crate::text::is_collapsed(collapse_ws(q)),
{
    crate::text::lemma_collapse_ws(q);
}

impl Default for StderrParser {
    fn default() -> (r: StderrParser)
        ensures
            !r.has_pending(),
    {
        StderrParser::new()
    }
}

} // verus!
