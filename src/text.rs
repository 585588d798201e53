//! Character-level helpers shared by the parser, the normalizers and the
//! classifier: trimming, whitespace collapsing and case mapping.

use vstd::prelude::*;

verus! {

/// Whether `c` has the Unicode `White_Space` property, which `char::is_whitespace`
/// and the regex class `\s` test: tab to carriage return, space, next line,
/// no-break space, ogham space mark, the spaces from en quad to hair space,
/// line and paragraph separators, narrow no-break space, medium mathematical
/// space and ideographic space.
pub open spec fn white_space(c: char) -> bool {
    ('\u{9}' <= c && c <= '\u{d}') || c == ' ' || c == '\u{85}' || c == '\u{a0}' || c
        == '\u{1680}' || ('\u{2000}' <= c && c <= '\u{200a}') || c == '\u{2028}' || c
        == '\u{2029}' || c == '\u{202f}' || c == '\u{205f}' || c == '\u{3000}'
}

/// What `str::to_uppercase` returns for the given characters.
pub uninterp spec fn upper_of(s: Seq<char>) -> Seq<char>;

/// What `str::to_lowercase` returns for the given characters.
pub uninterp spec fn lower_of(s: Seq<char>) -> Seq<char>;

/// Whether `c` has the Unicode `White_Space` property.
pub fn is_white(c: char) -> (r: bool)
    ensures
        r == white_space(c),
{
    ('\u{9}' <= c && c <= '\u{d}') || c == ' ' || c == '\u{85}' || c == '\u{a0}' || c
        == '\u{1680}' || ('\u{2000}' <= c && c <= '\u{200a}') || c == '\u{2028}' || c
        == '\u{2029}' || c == '\u{202f}' || c == '\u{205f}' || c == '\u{3000}'
}

/// Relies on `str::chars`: the characters of `s`, in order.
#[verifier::external_body]
pub fn chars_of(s: &str) -> (r: Vec<char>)
    ensures
        r@ == s@,
{
    s.chars().collect()
}

/// Relies on `FromIterator<char>` for `String`: the string of the given characters.
#[verifier::external_body]
pub fn string_of(v: &[char]) -> (r: String)
    ensures
        r@ == v@,
{
    v.iter().collect()
}

/// Relies on `str::to_uppercase`: the result depends on the characters alone.
#[verifier::external_body]
pub fn to_upper(s: &str) -> (r: String)
    ensures
        r@ == upper_of(s@),
{
    s.to_uppercase()
}

/// Relies on `str::to_lowercase`: the result depends on the characters alone.
#[verifier::external_body]
pub fn to_lower(s: &str) -> (r: String)
    ensures
        r@ == lower_of(s@),
{
    s.to_lowercase()
}

pub open spec fn is_ascii_digit(c: char) -> bool {
    '0' <= c && c <= '9'
}

/// `s` without its leading whitespace.
pub open spec fn trim_start(s: Seq<char>) -> Seq<char>
    decreases s.len(),
{
    if s.len() > 0 && white_space(s[0]) {
        trim_start(s.skip(1))
    } else {
        s
    }
}

/// `s` without its trailing whitespace.
pub open spec fn trim_end(s: Seq<char>) -> Seq<char>
    decreases s.len(),
{
    if s.len() > 0 && white_space(s.last()) {
        trim_end(s.drop_last())
    } else {
        s
    }
}

/// `s` without leading and trailing whitespace, as `str::trim` gives it.
pub open spec fn trimmed(s: Seq<char>) -> Seq<char> {
    trim_end(trim_start(s))
}

/// Whitespace collapsing, one character at a time: the text built so far and
/// whether a gap is owed before the next non-whitespace character.
pub open spec fn collapse_state(s: Seq<char>) -> (Seq<char>, bool)
    decreases s.len(),
{
    if s.len() == 0 {
        (Seq::empty(), false)
    } else {
        let (out, gap) = collapse_state(s.drop_last());
        let c = s.last();
        if white_space(c) {
            (out, out.len() > 0)
        } else if gap {
            (out.push(' ').push(c), false)
        } else {
            (out.push(c), false)
        }
    }
}

/// The words of `s` (its maximal runs of non-whitespace characters) joined by
/// single spaces: `s.split_whitespace().collect::<Vec<_>>().join(" ")`.
pub open spec fn collapse_ws(s: Seq<char>) -> Seq<char> {
    collapse_state(s).0
}

/// Whether `s` is in collapsed form: no leading or trailing whitespace, and no
/// whitespace but single spaces between words.
pub open spec fn is_collapsed(s: Seq<char>) -> bool {
    &&& forall|i: int| 0 <= i < s.len() && white_space(#[trigger] s[i]) ==> s[i] == ' '
    &&& forall|i: int|
        0 <= i < s.len() && #[trigger] s[i] == ' ' ==> 0 < i < s.len() - 1 && !white_space(s[i - 1])
            && !white_space(s[i + 1])
}

/// The index of the first character of `v` from `from` on that is not whitespace.
fn skip_white(v: &Vec<char>, from: usize) -> (r: usize)
    requires
        from <= v@.len(),
    ensures
        from <= r <= v@.len(),
        trim_start(v@.skip(from as int)) == v@.skip(r as int),
        r < v@.len() ==> !white_space(v@[r as int]),
        forall|k: int| from <= k < r ==> white_space(#[trigger] v@[k]),
{
    let mut i = from;
    while i < v.len() && is_white(v[i])
        invariant
            from <= i <= v@.len(),
            trim_start(v@.skip(from as int)) == trim_start(v@.skip(i as int)),
            forall|k: int| from <= k < i ==> white_space(#[trigger] v@[k]),
        decreases v@.len() - i,
    {
        assert(v@.skip(i as int).skip(1) =~= v@.skip(i + 1));
        i = i + 1;
    }
    if i < v.len() {
        assert(v@.skip(i as int)[0] == v@[i as int]);
    } else {
        assert(v@.skip(i as int).len() == 0);
    }
    i
}

/// The bounds `(lo, hi)` of `v` with leading and trailing whitespace left out.
pub fn trim_bounds(v: &Vec<char>) -> (r: (usize, usize))
    ensures
        r.0 <= r.1 <= v@.len(),
        v@.subrange(r.0 as int, r.1 as int) == trimmed(v@),
{
    let lo = skip_white(v, 0);
    assert(v@.skip(0) =~= v@);
    let mut hi = v.len();
    while hi > lo && is_white(v[hi - 1])
        invariant
            lo <= hi <= v@.len(),
            trim_end(v@.subrange(lo as int, v@.len() as int)) == trim_end(
                v@.subrange(lo as int, hi as int),
            ),
        decreases hi,
    {
        assert(v@.subrange(lo as int, hi as int).drop_last() =~= v@.subrange(
            lo as int,
            hi - 1,
        ));
        hi = hi - 1;
    }
    assert(v@.skip(lo as int) =~= v@.subrange(lo as int, v@.len() as int));
    (lo, hi)
}

/// The characters of `s` without leading and trailing whitespace.
pub fn trim_chars(s: &str) -> (r: Vec<char>)
    ensures
        r@ == trimmed(s@),
{
    let v = chars_of(s);
    let (lo, hi) = trim_bounds(&v);
    let mut out: Vec<char> = Vec::new();
    let mut i = lo;
    while i < hi
        invariant
            lo <= i <= hi <= v@.len(),
            out@ == v@.subrange(lo as int, i as int),
        decreases hi - i,
    {
        out.push(v[i]);
        i = i + 1;
        assert(out@ =~= v@.subrange(lo as int, i as int));
    }
    out
}

/// `s` with leading and trailing whitespace removed and each inner run of
/// whitespace replaced by a single space.
pub fn collapse_whitespace(s: &str) -> (r: String)
    ensures
        r@ == collapse_ws(s@),
{
    let v = chars_of(s);
    let mut out: Vec<char> = Vec::new();
    let mut gap = false;
    let mut i: usize = 0;
    while i < v.len()
        invariant
            i <= v@.len(),
            (out@, gap) == collapse_state(v@.take(i as int)),
        decreases v@.len() - i,
    {
        let c = v[i];
        assert(v@.take(i + 1).drop_last() =~= v@.take(i as int));
        if is_white(c) {
            gap = out.len() > 0;
        } else {
            if gap {
                out.push(' ');
            }
            out.push(c);
            gap = false;
        }
        i = i + 1;
    }
    assert(v@.take(v@.len() as int) =~= v@);
    string_of(out.as_slice())
}

/// What collapsing has built so far is in collapsed form and ends in a word
/// character, and a gap is owed only after some text.
proof fn lemma_collapse_state(s: Seq<char>)
    ensures
        is_collapsed(collapse_state(s).0),
        collapse_state(s).0.len() > 0 ==> !white_space(collapse_state(s).0.last()),
        collapse_state(s).1 ==> collapse_state(s).0.len() > 0,
        (exists|i: int| 0 <= i < s.len() && !white_space(#[trigger] s[i])) ==> collapse_state(
            s,
        ).0.len() > 0,
    decreases s.len(),
{
    if s.len() > 0 {
        let p = s.drop_last();
        lemma_collapse_state(p);
        let (out, gap) = collapse_state(p);
        let c = s.last();
        if !white_space(c) {
            let r = collapse_state(s).0;
            if gap {
                assert(r == out.push(' ').push(c));
                assert forall|i: int| 0 <= i < r.len() && white_space(#[trigger] r[i]) implies r[i]
                    == ' ' by {
                    if i < out.len() {
                        assert(r[i] == out[i]);
                    }
                }
                assert forall|i: int| 0 <= i < r.len() && #[trigger] r[i] == ' ' implies 0 < i < r.len()
                    - 1 && !white_space(r[i - 1]) && !white_space(r[i + 1]) by {
                    if i < out.len() {
                        assert(r[i] == out[i]);
                        if i + 1 < out.len() {
                            assert(r[i + 1] == out[i + 1]);
                        }
                        assert(r[i - 1] == out[i - 1]);
                    }
                }
            } else {
                assert(r == out.push(c));
                assert forall|i: int| 0 <= i < r.len() && white_space(#[trigger] r[i]) implies r[i]
                    == ' ' by {
                    if i < out.len() {
                        assert(r[i] == out[i]);
                    }
                }
                assert forall|i: int| 0 <= i < r.len() && #[trigger] r[i] == ' ' implies 0 < i < r.len()
                    - 1 && !white_space(r[i - 1]) && !white_space(r[i + 1]) by {
                    if i < out.len() {
                        assert(r[i] == out[i]);
                        if i + 1 < out.len() {
                            assert(r[i + 1] == out[i + 1]);
                        }
                        assert(r[i - 1] == out[i - 1]);
                    }
                }
            }
        } else {
            if exists|i: int| 0 <= i < s.len() && !white_space(#[trigger] s[i]) {
                let i = choose|i: int| 0 <= i < s.len() && !white_space(#[trigger] s[i]);
                assert(i < p.len());
                assert(p[i] == s[i]);
            }
        }
    }
}

/// Collapsed whitespace is in collapsed form, and is empty only where the
/// text is all whitespace.
pub proof fn lemma_collapse_ws(s: Seq<char>)
    ensures
        is_collapsed(collapse_ws(s)),
        (exists|i: int| 0 <= i < s.len() && !white_space(#[trigger] s[i])) ==> collapse_ws(s).len() > 0,
{
    lemma_collapse_state(s);
}

proof fn lemma_collapse_prefix(c: Seq<char>, k: int)
    requires
        is_collapsed(c),
        0 <= k <= c.len(),
    ensures
        collapse_state(c.take(k)) == (if k > 0 && c[k - 1] == ' ' {
            (c.take(k - 1), true)
        } else {
            (c.take(k), false)
        }),
    decreases k,
{
    if k > 0 {
        lemma_collapse_prefix(c, k - 1);
        assert(c.take(k).drop_last() =~= c.take(k - 1));
        assert(c.take(k).last() == c[k - 1]);
        let ch = c[k - 1];
        if ch == ' ' {
            assert(c[k - 2] != ' ' && !white_space(c[k - 2]));
        } else if white_space(ch) {
        } else if k > 1 && c[k - 2] == ' ' {
            assert(c.take(k - 2).push(' ').push(ch) =~= c.take(k));
        } else {
            assert(c.take(k - 1).push(ch) =~= c.take(k));
        }
    } else {
        assert(c.take(0) =~= Seq::<char>::empty());
    }
}

/// Collapsing whitespace twice gives what collapsing once gives.
pub proof fn collapse_ws_idempotent(s: Seq<char>)
    ensures
        collapse_ws(collapse_ws(s)) == collapse_ws(s),
{
    let c = collapse_ws(s);
    lemma_collapse_ws(s);
    lemma_collapse_prefix(c, c.len() as int);
    assert(c.take(c.len() as int) =~= c);
    if c.len() > 0 && c[c.len() - 1] == ' ' {
        assert(false);
    }
}

} // verus!
