//! Locating the `[package]` section and its `version = "..."` field in
//! manifest text, by the narrow pattern the tool works with: the section is
//! the text between a `[package]` header line and the next `[`, and the field
//! is the first `version = "X.Y.Z"` or `version = "X.Y.Z-W"` in it, where
//! X, Y, Z, W are runs of decimal digits.
use vstd::prelude::*;

use crate::num::is_digit;

verus! {

/// A whitespace character, as accepted around the `=` of the field.
pub open spec fn is_space(c: char) -> bool {
    c == ' ' || c == '\t' || c == '\n' || c == '\r' || c == '\u{000b}' || c == '\u{000c}'
}

/// The characters of the keyword `version`.
pub open spec fn version_kw() -> Seq<char> {
    seq!['v', 'e', 'r', 's', 'i', 'o', 'n']
}

/// The characters of a `[package]` header line.
pub open spec fn package_header() -> Seq<char> {
    seq!['[', 'p', 'a', 'c', 'k', 'a', 'g', 'e', ']', '\n']
}

/// A `[package]` section whose header starts at `i` and whose content, at
/// least one character that is no `[`, runs up to the `[` at `j`.
pub open spec fn pkg_at(t: Seq<char>, i: int, j: int) -> bool {
    &&& 0 <= i
    &&& i + 10 < j < t.len()
    &&& t.subrange(i, i + 10) == package_header()
    &&& (forall|k: int| i + 10 <= k < j ==> t[k] != '[')
    &&& t[j] == '['
}

/// A section match begins at `i`.
pub open spec fn pkg_starts_at(t: Seq<char>, i: int) -> bool {
    exists|j: int| pkg_at(t, i, j)
}

/// Some section match exists.
pub open spec fn pkg_found(t: Seq<char>) -> bool {
    exists|i: int| pkg_starts_at(t, i)
}

/// The first section match begins at `i` and its content ends at `j`.
pub open spec fn pkg_leftmost(t: Seq<char>, i: int, j: int) -> bool {
    pkg_at(t, i, j) && (forall|i2: int| 0 <= i2 < i ==> !pkg_starts_at(t, i2))
}

/// The content of the section found at `(i, j)`.
pub open spec fn content_of(t: Seq<char>, i: int, j: int) -> Seq<char> {
    t.subrange(i + 10, j)
}

/// The delimiter positions of one version field match inside section content:
/// `start` opens the keyword, then come the `=`, the opening quote, the two
/// dots, the dash when a prerelease part is present, and the closing quote.
pub struct FieldSpan {
    pub start: usize,
    pub eq_pos: usize,
    pub quote: usize,
    pub dot1: usize,
    pub dot2: usize,
    pub dash: Option<usize>,
    pub end: usize,
}

/// The positions in `m` delimit a version field match in `c`.
pub open spec fn field_span_ok(c: Seq<char>, m: FieldSpan) -> bool {
    let a = m.start as int;
    let e = m.eq_pos as int;
    let q1 = m.quote as int;
    let d1 = m.dot1 as int;
    let d2 = m.dot2 as int;
    let q2 = m.end as int;
    &&& 0 <= a
    &&& a + 7 <= e
    &&& e < q1 < d1 < d2 < q2 < c.len()
    &&& c.subrange(a, a + 7) == version_kw()
    &&& (forall|k: int| a + 7 <= k < e ==> is_space(#[trigger] c[k]))
    &&& c[e] == '='
    &&& (forall|k: int| e < k < q1 ==> is_space(#[trigger] c[k]))
    &&& c[q1] == '"'
    &&& q1 + 1 < d1
    &&& (forall|k: int| q1 < k < d1 ==> is_digit(#[trigger] c[k]))
    &&& c[d1] == '.'
    &&& d1 + 1 < d2
    &&& (forall|k: int| d1 < k < d2 ==> is_digit(#[trigger] c[k]))
    &&& c[d2] == '.'
    &&& match m.dash {
        None => {
            &&& d2 + 1 < q2
            &&& (forall|k: int| d2 < k < q2 ==> is_digit(#[trigger] c[k]))
            &&& c[q2] == '"'
        },
        Some(h) => {
            let h = h as int;
            &&& d2 + 1 < h < q2
            &&& (forall|k: int| d2 < k < h ==> is_digit(#[trigger] c[k]))
            &&& c[h] == '-'
            &&& h + 1 < q2
            &&& (forall|k: int| h < k < q2 ==> is_digit(#[trigger] c[k]))
            &&& c[q2] == '"'
        },
    }
}

/// A field match begins at `a`.
pub open spec fn field_starts_at(c: Seq<char>, a: int) -> bool {
    exists|m: FieldSpan| field_span_ok(c, m) && m.start == a
}

/// Some field match exists.
pub open spec fn has_field(c: Seq<char>) -> bool {
    exists|a: int| field_starts_at(c, a)
}

/// `m` is the first field match in `c`.
pub open spec fn field_leftmost(c: Seq<char>, m: FieldSpan) -> bool {
    field_span_ok(c, m) && (forall|a2: int| 0 <= a2 < m.start ==> !field_starts_at(c, a2))
}

/// The major component characters of the match.
pub open spec fn major_of(c: Seq<char>, m: FieldSpan) -> Seq<char> {
    c.subrange(m.quote as int + 1, m.dot1 as int)
}

/// The minor component characters of the match.
pub open spec fn minor_of(c: Seq<char>, m: FieldSpan) -> Seq<char> {
    c.subrange(m.dot1 as int + 1, m.dot2 as int)
}

/// The patch component characters of the match.
pub open spec fn patch_of(c: Seq<char>, m: FieldSpan) -> Seq<char> {
    match m.dash {
        None => c.subrange(m.dot2 as int + 1, m.end as int),
        Some(h) => c.subrange(m.dot2 as int + 1, h as int),
    }
}

/// The prerelease component characters of the match, when present.
pub open spec fn pre_of(c: Seq<char>, m: FieldSpan) -> Option<Seq<char>> {
    match m.dash {
        None => None,
        Some(h) => Some(c.subrange(h as int + 1, m.end as int)),
    }
}

/// All four extracted components, in order.
pub open spec fn comps_of(c: Seq<char>, m: FieldSpan) -> Seq<Option<Seq<char>>> {
    seq![Some(major_of(c, m)), Some(minor_of(c, m)), Some(patch_of(c, m)), pre_of(c, m)]
}

/// Whether `c` is a space character.
fn space_char(c: char) -> (b: bool)
    ensures
        b == is_space(c),
{
    c == ' ' || c == '\t' || c == '\n' || c == '\r' || c == '\u{000b}' || c == '\u{000c}'
}

/// Whether `c` is a digit character.
fn digit_char_test(c: char) -> (b: bool)
    ensures
        b == is_digit(c),
{
    c == '0' || c == '1' || c == '2' || c == '3' || c == '4' || c == '5' || c == '6' || c == '7'
        || c == '8' || c == '9'
}

/// The first position at or after `from` that holds no space character.
fn scan_spaces(s: &str, from: usize) -> (r: usize)
    requires
        from <= s@.len(),
    ensures
        from <= r <= s@.len(),
        forall|k: int| from <= k < r ==> is_space(#[trigger] s@[k]),
        r < s@.len() ==> !is_space(s@[r as int]),
{
    let n = s.unicode_len();
    let mut i = from;
    while i < n
        invariant
            from <= i <= n == s@.len(),
            forall|k: int| from <= k < i ==> is_space(#[trigger] s@[k]),
        decreases n - i,
    {
        let c = s.get_char(i);
        if !space_char(c) {
            return i;
        }
        i = i + 1;
    }
    i
}

/// The first position at or after `from` that holds no digit character.
fn scan_digits(s: &str, from: usize) -> (r: usize)
    requires
        from <= s@.len(),
    ensures
        from <= r <= s@.len(),
        forall|k: int| from <= k < r ==> is_digit(#[trigger] s@[k]),
        r < s@.len() ==> !is_digit(s@[r as int]),
{
    let n = s.unicode_len();
    let mut i = from;
    while i < n
        invariant
            from <= i <= n == s@.len(),
            forall|k: int| from <= k < i ==> is_digit(#[trigger] s@[k]),
        decreases n - i,
    {
        let c = s.get_char(i);
        if !digit_char_test(c) {
            return i;
        }
        i = i + 1;
    }
    i
}

/// The first position at or after `from` that holds a `[`.
fn scan_to_bracket(s: &str, from: usize) -> (r: usize)
    requires
        from <= s@.len(),
    ensures
        from <= r <= s@.len(),
        forall|k: int| from <= k < r ==> s@[k] != '[',
        r < s@.len() ==> s@[r as int] == '[',
{
    let n = s.unicode_len();
    let mut i = from;
    while i < n
        invariant
            from <= i <= n == s@.len(),
            forall|k: int| from <= k < i ==> s@[k] != '[',
        decreases n - i,
    {
        let c = s.get_char(i);
        if c == '[' {
            return i;
        }
        i = i + 1;
    }
    i
}

/// Whether the ten characters at `i` spell a `[package]` header line.
fn header_at(s: &str, i: usize) -> (b: bool)
    requires
        i + 10 <= s@.len(),
        s@.len() <= usize::MAX,
    ensures
        b <==> s@.subrange(i as int, i as int + 10) == package_header(),
{
    let b = s.get_char(i) == '[' && s.get_char(i + 1) == 'p' && s.get_char(i + 2) == 'a'
        && s.get_char(i + 3) == 'c' && s.get_char(i + 4) == 'k' && s.get_char(i + 5) == 'a'
        && s.get_char(i + 6) == 'g' && s.get_char(i + 7) == 'e' && s.get_char(i + 8) == ']'
        && s.get_char(i + 9) == '\n';
    proof {
        let sub = s@.subrange(i as int, i as int + 10);
        if b {
            assert(sub =~= package_header());
        }
        if sub == package_header() {
            assert(s@[i as int] == sub[0]);
            assert(s@[i + 1] == sub[1]);
            assert(s@[i + 2] == sub[2]);
            assert(s@[i + 3] == sub[3]);
            assert(s@[i + 4] == sub[4]);
            assert(s@[i + 5] == sub[5]);
            assert(s@[i + 6] == sub[6]);
            assert(s@[i + 7] == sub[7]);
            assert(s@[i + 8] == sub[8]);
            assert(s@[i + 9] == sub[9]);
            assert(b);
        }
    }
    b
}

/// Whether the seven characters at `a` spell the keyword `version`.
fn kw_at(s: &str, a: usize) -> (b: bool)
    requires
        a + 7 <= s@.len(),
        s@.len() <= usize::MAX,
    ensures
        b <==> s@.subrange(a as int, a as int + 7) == version_kw(),
{
    let b = s.get_char(a) == 'v' && s.get_char(a + 1) == 'e' && s.get_char(a + 2) == 'r'
        && s.get_char(a + 3) == 's' && s.get_char(a + 4) == 'i' && s.get_char(a + 5) == 'o'
        && s.get_char(a + 6) == 'n';
    proof {
        let sub = s@.subrange(a as int, a as int + 7);
        if b {
            assert(sub =~= version_kw());
        }
        if sub == version_kw() {
            assert(s@[a as int] == sub[0]);
            assert(s@[a + 1] == sub[1]);
            assert(s@[a + 2] == sub[2]);
            assert(s@[a + 3] == sub[3]);
            assert(s@[a + 4] == sub[4]);
            assert(s@[a + 5] == sub[5]);
            assert(s@[a + 6] == sub[6]);
            assert(b);
        }
    }
    b
}

/// Every extracted component is a non-empty digit string.
pub proof fn lemma_comps_are_num(c: Seq<char>, m: FieldSpan)
    requires
        field_span_ok(c, m),
    ensures
        crate::num::is_num(major_of(c, m)),
        crate::num::is_num(minor_of(c, m)),
        crate::num::is_num(patch_of(c, m)),
        pre_of(c, m) matches Some(p) ==> crate::num::is_num(p),
{
    assert forall|k: int| 0 <= k < major_of(c, m).len() implies is_digit(
        #[trigger] major_of(c, m)[k],
    ) by {
        assert(major_of(c, m)[k] == c[m.quote as int + 1 + k]);
    }
    assert forall|k: int| 0 <= k < minor_of(c, m).len() implies is_digit(
        #[trigger] minor_of(c, m)[k],
    ) by {
        assert(minor_of(c, m)[k] == c[m.dot1 as int + 1 + k]);
    }
    assert forall|k: int| 0 <= k < patch_of(c, m).len() implies is_digit(
        #[trigger] patch_of(c, m)[k],
    ) by {
        assert(patch_of(c, m)[k] == c[m.dot2 as int + 1 + k]);
    }
    match m.dash {
        None => {
        },
        Some(h) => {
            let p = pre_of(c, m)->0;
            assert forall|k: int| 0 <= k < p.len() implies is_digit(#[trigger] p[k]) by {
                assert(p[k] == c[h as int + 1 + k]);
            }
        },
    }
}

/// Two leftmost section matches are one and the same.
pub proof fn lemma_pkg_unique(t: Seq<char>, i1: int, j1: int, i2: int, j2: int)
    requires
        pkg_leftmost(t, i1, j1),
        pkg_leftmost(t, i2, j2),
    ensures
        i1 == i2,
        j1 == j2,
{
    if i1 < i2 {
        assert(pkg_starts_at(t, i1));
    }
    if i2 < i1 {
        assert(pkg_starts_at(t, i2));
    }
    if j1 < j2 {
        assert(t[j1] != '[');
    }
    if j2 < j1 {
        assert(t[j2] != '[');
    }
}

/// Two field matches that begin at the same place are one and the same.
pub proof fn lemma_field_unique(c: Seq<char>, m1: FieldSpan, m2: FieldSpan)
    requires
        field_span_ok(c, m1),
        field_span_ok(c, m2),
        m1.start == m2.start,
    ensures
        m1.eq_pos == m2.eq_pos,
        m1.quote == m2.quote,
        m1.dot1 == m2.dot1,
        m1.dot2 == m2.dot2,
        m1.dash == m2.dash,
        m1.end == m2.end,
{
    if m1.eq_pos < m2.eq_pos {
        assert(is_space(c[m1.eq_pos as int]));
    }
    if m2.eq_pos < m1.eq_pos {
        assert(is_space(c[m2.eq_pos as int]));
    }
    assert(m1.eq_pos == m2.eq_pos);
    if m1.quote < m2.quote {
        assert(is_space(c[m1.quote as int]));
    }
    if m2.quote < m1.quote {
        assert(is_space(c[m2.quote as int]));
    }
    assert(m1.quote == m2.quote);
    if m1.dot1 < m2.dot1 {
        assert(is_digit(c[m1.dot1 as int]));
    }
    if m2.dot1 < m1.dot1 {
        assert(is_digit(c[m2.dot1 as int]));
    }
    assert(m1.dot1 == m2.dot1);
    if m1.dot2 < m2.dot2 {
        assert(is_digit(c[m1.dot2 as int]));
    }
    if m2.dot2 < m1.dot2 {
        assert(is_digit(c[m2.dot2 as int]));
    }
    assert(m1.dot2 == m2.dot2);
    match m1.dash {
        None => {
            match m2.dash {
                None => {
                    if m1.end < m2.end {
                        assert(is_digit(c[m1.end as int]));
                    }
                    if m2.end < m1.end {
                        assert(is_digit(c[m2.end as int]));
                    }
                },
                Some(h2) => {
                    if m1.end < h2 {
                        assert(is_digit(c[m1.end as int]));
                    }
                    if h2 < m1.end {
                        assert(is_digit(c[h2 as int]));
                    }
                    assert(false);
                },
            }
        },
        Some(h1) => {
            match m2.dash {
                None => {
                    if m2.end < h1 {
                        assert(is_digit(c[m2.end as int]));
                    }
                    if h1 < m2.end {
                        assert(is_digit(c[h1 as int]));
                    }
                    assert(false);
                },
                Some(h2) => {
                    if h1 < h2 {
                        assert(is_digit(c[h1 as int]));
                    }
                    if h2 < h1 {
                        assert(is_digit(c[h2 as int]));
                    }
                    assert(h1 == h2);
                    if m1.end < m2.end {
                        assert(is_digit(c[m1.end as int]));
                    }
                    if m2.end < m1.end {
                        assert(is_digit(c[m2.end as int]));
                    }
                },
            }
        },
    }
}

/// A run of spaces ending at a known non-space marker pins the marker down.
proof fn forced_stop_space(c: Seq<char>, lo: int, stop: int, pos: int, mark: char)
    requires
        0 <= lo,
        lo <= stop <= c.len(),
        forall|k: int| lo <= k < stop ==> is_space(#[trigger] c[k]),
        stop < c.len() ==> !is_space(c[stop]),
        lo <= pos < c.len(),
        forall|k: int| lo <= k < pos ==> is_space(#[trigger] c[k]),
        c[pos] == mark,
        !is_space(mark),
    ensures
        pos == stop,
{
    if pos < stop {
        assert(is_space(c[pos]));
    }
    if pos > stop {
        assert(is_space(c[stop]));
    }
}

/// A run of digits ending at a known non-digit marker pins the marker down.
proof fn forced_stop_digit(c: Seq<char>, lo: int, stop: int, pos: int, mark: char)
    requires
        0 <= lo,
        lo <= stop <= c.len(),
        forall|k: int| lo <= k < stop ==> is_digit(#[trigger] c[k]),
        stop < c.len() ==> !is_digit(c[stop]),
        lo <= pos < c.len(),
        forall|k: int| lo <= k < pos ==> is_digit(#[trigger] c[k]),
        c[pos] == mark,
        !is_digit(mark),
    ensures
        pos == stop,
{
    if pos < stop {
        assert(is_digit(c[pos]));
    }
    if pos > stop {
        assert(is_digit(c[stop]));
    }
}

/// Try to match a version field beginning exactly at `a`.
fn try_field_at(c: &str, a: usize) -> (r: Option<FieldSpan>)
    requires
        a + 7 <= c@.len(),
        c@.len() <= usize::MAX,
    ensures
        match r {
            Some(m) => field_span_ok(c@, m) && m.start == a,
            None => !field_starts_at(c@, a as int),
        },
{
    let n = c.unicode_len();
    if !kw_at(c, a) {
        proof {
            if field_starts_at(c@, a as int) {
                let m = choose|m: FieldSpan| field_span_ok(c@, m) && m.start == a as int;
                assert(false);
            }
        }
        return None;
    }
    let e = scan_spaces(c, a + 7);
    if e == n || c.get_char(e) != '=' {
        proof {
            if field_starts_at(c@, a as int) {
                let m = choose|m: FieldSpan| field_span_ok(c@, m) && m.start == a as int;
                forced_stop_space(c@, a + 7, e as int, m.eq_pos as int, '=');
                assert(false);
            }
        }
        return None;
    }
    let q1 = scan_spaces(c, e + 1);
    if q1 == n || c.get_char(q1) != '"' {
        proof {
            if field_starts_at(c@, a as int) {
                let m = choose|m: FieldSpan| field_span_ok(c@, m) && m.start == a as int;
                forced_stop_space(c@, a + 7, e as int, m.eq_pos as int, '=');
                forced_stop_space(c@, e + 1, q1 as int, m.quote as int, '"');
                assert(false);
            }
        }
        return None;
    }
    let d1 = scan_digits(c, q1 + 1);
    if d1 == q1 + 1 || d1 == n || c.get_char(d1) != '.' {
        proof {
            if field_starts_at(c@, a as int) {
                let m = choose|m: FieldSpan| field_span_ok(c@, m) && m.start == a as int;
                forced_stop_space(c@, a + 7, e as int, m.eq_pos as int, '=');
                forced_stop_space(c@, e + 1, q1 as int, m.quote as int, '"');
                forced_stop_digit(c@, q1 + 1, d1 as int, m.dot1 as int, '.');
                assert(false);
            }
        }
        return None;
    }
    let d2 = scan_digits(c, d1 + 1);
    if d2 == d1 + 1 || d2 == n || c.get_char(d2) != '.' {
        proof {
            if field_starts_at(c@, a as int) {
                let m = choose|m: FieldSpan| field_span_ok(c@, m) && m.start == a as int;
                forced_stop_space(c@, a + 7, e as int, m.eq_pos as int, '=');
                forced_stop_space(c@, e + 1, q1 as int, m.quote as int, '"');
                forced_stop_digit(c@, q1 + 1, d1 as int, m.dot1 as int, '.');
                forced_stop_digit(c@, d1 + 1, d2 as int, m.dot2 as int, '.');
                assert(false);
            }
        }
        return None;
    }
    let t = scan_digits(c, d2 + 1);
    if t == d2 + 1 || t == n {
        proof {
            if field_starts_at(c@, a as int) {
                let m = choose|m: FieldSpan| field_span_ok(c@, m) && m.start == a as int;
                forced_stop_space(c@, a + 7, e as int, m.eq_pos as int, '=');
                forced_stop_space(c@, e + 1, q1 as int, m.quote as int, '"');
                forced_stop_digit(c@, q1 + 1, d1 as int, m.dot1 as int, '.');
                forced_stop_digit(c@, d1 + 1, d2 as int, m.dot2 as int, '.');
                match m.dash {
                    None => {
                        forced_stop_digit(c@, d2 + 1, t as int, m.end as int, '"');
                    },
                    Some(h) => {
                        forced_stop_digit(c@, d2 + 1, t as int, h as int, '-');
                    },
                }
                assert(false);
            }
        }
        return None;
    }
    let tc = c.get_char(t);
    if tc == '"' {
        let m = FieldSpan { start: a, eq_pos: e, quote: q1, dot1: d1, dot2: d2, dash: None, end: t };
        proof {
            assert(field_span_ok(c@, m));
        }
        return Some(m);
    }
    if tc == '-' {
        let q2 = scan_digits(c, t + 1);
        if q2 == t + 1 || q2 == n || c.get_char(q2) != '"' {
            proof {
                if field_starts_at(c@, a as int) {
                    let m = choose|m: FieldSpan| field_span_ok(c@, m) && m.start == a as int;
                    forced_stop_space(c@, a + 7, e as int, m.eq_pos as int, '=');
                    forced_stop_space(c@, e + 1, q1 as int, m.quote as int, '"');
                    forced_stop_digit(c@, q1 + 1, d1 as int, m.dot1 as int, '.');
                    forced_stop_digit(c@, d1 + 1, d2 as int, m.dot2 as int, '.');
                    match m.dash {
                        None => {
                            forced_stop_digit(c@, d2 + 1, t as int, m.end as int, '"');
                        },
                        Some(h) => {
                            forced_stop_digit(c@, d2 + 1, t as int, h as int, '-');
                            forced_stop_digit(c@, t + 1, q2 as int, m.end as int, '"');
                        },
                    }
                    assert(false);
                }
            }
            return None;
        }
        let m = FieldSpan {
            start: a,
            eq_pos: e,
            quote: q1,
            dot1: d1,
            dot2: d2,
            dash: Some(t),
            end: q2,
        };
        proof {
            assert(field_span_ok(c@, m));
        }
        return Some(m);
    }
    proof {
        if field_starts_at(c@, a as int) {
            let m = choose|m: FieldSpan| field_span_ok(c@, m) && m.start == a as int;
            forced_stop_space(c@, a + 7, e as int, m.eq_pos as int, '=');
            forced_stop_space(c@, e + 1, q1 as int, m.quote as int, '"');
            forced_stop_digit(c@, q1 + 1, d1 as int, m.dot1 as int, '.');
            forced_stop_digit(c@, d1 + 1, d2 as int, m.dot2 as int, '.');
            match m.dash {
                None => {
                    forced_stop_digit(c@, d2 + 1, t as int, m.end as int, '"');
                },
                Some(h) => {
                    forced_stop_digit(c@, d2 + 1, t as int, h as int, '-');
                },
            }
            assert(false);
        }
    }
    None
}

/// Locate the first version field match in section content.
pub fn find_field(c: &str) -> (r: Option<FieldSpan>)
    ensures
        match r {
            Some(m) => field_leftmost(c@, m),
            None => !has_field(c@),
        },
{
    let n = c.unicode_len();
    if n < 7 {
        proof {
            if has_field(c@) {
                let a2 = choose|a2: int| field_starts_at(c@, a2);
                let m = choose|m: FieldSpan| field_span_ok(c@, m) && m.start == a2;
                assert(false);
            }
        }
        return None;
    }
    let mut a: usize = 0;
    while a <= n - 7
        invariant
            7 <= n == c@.len(),
            a <= n,
            forall|a2: int| 0 <= a2 < a ==> !field_starts_at(c@, a2),
        decreases n - a,
    {
        match try_field_at(c, a) {
            Some(m) => {
                return Some(m);
            },
            None => {
                a = a + 1;
            },
        }
    }
    proof {
        if has_field(c@) {
            let a2 = choose|a2: int| field_starts_at(c@, a2);
            let m = choose|m: FieldSpan| field_span_ok(c@, m) && m.start == a2;
            assert(a2 + 7 <= m.eq_pos as int && (m.eq_pos as int) < c@.len());
            assert(a2 < a);
            assert(false);
        }
    }
    None
}

/// Locate the first `[package]` section: the position where its content
/// starts and the position of the `[` that ends it.
pub fn find_package(s: &str) -> (r: Option<(usize, usize)>)
    ensures
        match r {
            Some((cs, j)) => {
                &&& cs >= 10
                &&& pkg_leftmost(s@, cs - 10, j as int)
            },
            None => !pkg_found(s@),
        },
{
    let n = s.unicode_len();
    if n < 10 {
        proof {
            if pkg_found(s@) {
                let i2 = choose|i2: int| pkg_starts_at(s@, i2);
                let j2 = choose|j2: int| pkg_at(s@, i2, j2);
                assert(i2 + 10 < j2 < s@.len());
                assert(false);
            }
        }
        return None;
    }
    let mut i: usize = 0;
    while i <= n - 10
        invariant
            10 <= n == s@.len(),
            i <= n,
            forall|i2: int| 0 <= i2 < i ==> !pkg_starts_at(s@, i2),
        decreases n - i,
    {
        if header_at(s, i) {
            let j = scan_to_bracket(s, i + 10);
            if j < n && j > i + 10 {
                return Some((i + 10, j));
            }
            proof {
                if pkg_starts_at(s@, i as int) {
                    let j2 = choose|j2: int| pkg_at(s@, i as int, j2);
                    assert(s@[j2] == '[');
                    if j2 < j {
                        assert(s@[j2] != '[');
                    } else {
                        assert(j < s@.len() ==> s@[j as int] == '[');
                        assert(j2 >= j);
                        if j == n {
                            assert(j2 < s@.len());
                            assert(false);
                        } else {
                            assert(j as int == i + 10);
                            assert(i + 10 <= j as int && (j as int) < j2);
                            assert(s@[j as int] != '[');
                        }
                    }
                    assert(false);
                }
            }
        } else {
            proof {
                if pkg_starts_at(s@, i as int) {
                    let j2 = choose|j2: int| pkg_at(s@, i as int, j2);
                    assert(s@.subrange(i as int, i + 10) == package_header());
                    assert(false);
                }
            }
        }
        i = i + 1;
    }
    proof {
        if pkg_found(s@) {
            let i2 = choose|i2: int| pkg_starts_at(s@, i2);
            let j2 = choose|j2: int| pkg_at(s@, i2, j2);
            assert(i2 + 10 < j2 < s@.len());
            assert(i2 < i);
            assert(!pkg_starts_at(s@, i2));
            assert(false);
        }
    }
    None
}

} // verus!
