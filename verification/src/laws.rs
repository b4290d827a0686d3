//! The library's general guarantees, stated over the same specification
//! functions that the executable contracts use, and proved once for all
//! inputs.
use vstd::prelude::*;

use crate::flag::{
    bumped_version, comp_bumped, comp_inc_ok, field_text, join_pre, kind_index, kind_is_pre,
    plus_out, substitution_ok, BumpKind,
};
use crate::manifest::FieldSpan;
use crate::num::{
    is_digit, is_num, lemma_nat_to_str_is_num, lemma_nat_to_str_value, nat_to_str, str_to_nat,
};

verus! {

/// A release bump drops the prerelease slot: its output has three slots and
/// never depends on what the prerelease component held.
pub proof fn lemma_release_drops_prerelease(
    v1: Seq<Option<Seq<char>>>,
    v2: Seq<Option<Seq<char>>>,
    index: int,
)
    requires
        v1.len() == 4,
        v2.len() == 4,
        0 <= index < 3,
        v1[0] == v2[0],
        v1[1] == v2[1],
        v1[2] == v2[2],
    ensures
        plus_out(v1, index, false) == plus_out(v2, index, false),
        plus_out(v1, index, false).len() == 3,
{
    assert(plus_out(v1, index, false) =~= plus_out(v2, index, false));
}

/// A pre-kind bump always yields four slots, and its prerelease slot is
/// always a defined, non-empty digit string, never absent.
pub proof fn lemma_pre_has_prerelease(v: Seq<Option<Seq<char>>>, index: int)
    requires
        v.len() == 4,
        0 <= index < 4,
        v[3] matches Some(p) ==> is_num(p),
    ensures
        plus_out(v, index, true).len() == 4,
        is_num(plus_out(v, index, true)[3]),
{
    assert(seq!['0'][0] == '0');
    assert(is_digit('0'));
    assert(is_num(seq!['0']));
    if index == 3 {
        match v[3] {
            Some(p) => {
                lemma_nat_to_str_is_num(str_to_nat(p) + 1);
            },
            None => {
            },
        }
    }
}

/// The whole version string of a release kind is the same whatever the
/// prerelease component held: Major, Minor and Patch drop it.
pub proof fn lemma_release_kind_ignores_prerelease(
    v1: Seq<Option<Seq<char>>>,
    v2: Seq<Option<Seq<char>>>,
    k: BumpKind,
)
    requires
        !kind_is_pre(k),
        v1.len() == 4,
        v2.len() == 4,
        v1[0] == v2[0],
        v1[1] == v2[1],
        v1[2] == v2[2],
    ensures
        bumped_version(v1, k) == bumped_version(v2, k),
{
    lemma_release_drops_prerelease(v1, v2, kind_index(k));
}

/// The whole version string of a pre-kind always carries a prerelease part:
/// four components, the last a defined, non-empty digit string.
pub proof fn lemma_pre_kind_has_prerelease(v: Seq<Option<Seq<char>>>, k: BumpKind)
    requires
        kind_is_pre(k),
        v.len() == 4,
        v[3] matches Some(p) ==> is_num(p),
    ensures
        bumped_version(v, k) == join_pre(plus_out(v, kind_index(k), true)),
        plus_out(v, kind_index(k), true).len() == 4,
        is_num(plus_out(v, kind_index(k), true)[3]),
{
    lemma_pre_has_prerelease(v, kind_index(k));
}

/// Advancing an already advanced component moves it again: the second bump's
/// result differs from the first's, and the first is always advanceable.
pub proof fn lemma_second_bump_differs(c: Option<Seq<char>>)
    requires
        comp_inc_ok(c),
        c matches Some(s) ==> str_to_nat(s) + 1 < usize::MAX as nat,
    ensures
        comp_inc_ok(Some(comp_bumped(c))),
        comp_bumped(Some(comp_bumped(c))) != comp_bumped(c),
{
    match c {
        Some(s) => {
            let n = str_to_nat(s);
            lemma_nat_to_str_is_num(n + 1);
            lemma_nat_to_str_value(n + 1);
            lemma_nat_to_str_value(n + 2);
            assert(str_to_nat(comp_bumped(c)) == n + 1);
            if comp_bumped(Some(comp_bumped(c))) == comp_bumped(c) {
                assert(nat_to_str(n + 2) == nat_to_str(n + 1));
                assert(false);
            }
        },
        None => {
            assert(comp_bumped(c) == seq!['0']);
            assert(seq!['0'].drop_last() =~= Seq::<char>::empty());
            assert(seq!['0'].last() == '0');
            assert(str_to_nat(Seq::<char>::empty()) == 0);
            assert(str_to_nat(seq!['0']) == str_to_nat(seq!['0'].drop_last()) * 10 + crate::num::digit_val(
                seq!['0'].last(),
            ));
            assert(str_to_nat(seq!['0']) == 0);
            assert(comp_bumped(Some(seq!['0'])) == nat_to_str(1));
            assert(nat_to_str(1) == seq!['1']);
            assert(seq!['1'][0] != seq!['0'][0]);
        },
    }
}

/// Running the same bump kind twice never settles: feeding the first run's
/// components back in, the targeted slot comes out different again.
pub proof fn lemma_bump_twice_advances(v: Seq<Option<Seq<char>>>, index: int, is_pre: bool)
    requires
        v.len() == 4,
        0 <= index < 4,
        is_pre || index < 3,
        comp_inc_ok(v[index]),
        v[index] matches Some(s) ==> str_to_nat(s) + 1 < usize::MAX as nat,
    ensures
        ({
            let out1 = plus_out(v, index, is_pre);
            let v2 = if is_pre {
                seq![Some(out1[0]), Some(out1[1]), Some(out1[2]), Some(out1[3])]
            } else {
                seq![Some(out1[0]), Some(out1[1]), Some(out1[2]), None]
            };
            plus_out(v2, index, is_pre)[index] != out1[index]
        }),
{
    let out1 = plus_out(v, index, is_pre);
    let v2 = if is_pre {
        seq![Some(out1[0]), Some(out1[1]), Some(out1[2]), Some(out1[3])]
    } else {
        seq![Some(out1[0]), Some(out1[1]), Some(out1[2]), None]
    };
    assert(out1[index] == comp_bumped(v[index]));
    assert(v2[index] == Some(out1[index]));
    lemma_second_bump_differs(v[index]);
    assert(plus_out(v2, index, is_pre)[index] == comp_bumped(Some(out1[index])));
}

/// Substitution touches nothing outside the matched field: the text before
/// it and the text after it reappear in the output unchanged, around the new
/// field text.
pub proof fn lemma_substitution_preserves_rest(
    t: Seq<char>,
    i: int,
    j: int,
    m: FieldSpan,
    ver: Seq<char>,
    out: Seq<char>,
)
    requires
        substitution_ok(t, i, j, m, ver, out),
    ensures
        ({
            let p = i + 10 + m.start;
            let fend = i + 10 + m.end + 1;
            &&& 0 <= p <= fend <= t.len()
            &&& out.len() == p + field_text(ver).len() + (t.len() - fend)
            &&& out.subrange(0, p) == t.subrange(0, p)
            &&& out.subrange(p, p + field_text(ver).len()) == field_text(ver)
            &&& out.subrange(p + field_text(ver).len(), out.len() as int) == t.subrange(
                fend,
                t.len() as int,
            )
        }),
{
    let p = i + 10 + m.start;
    let fend = i + 10 + m.end + 1;
    let c = t.subrange(i + 10, j);
    let ft = field_text(ver);
    assert(out == t.subrange(0, i + 10) + c.subrange(0, m.start as int) + ft + c.subrange(
        m.end as int + 1,
        c.len() as int,
    ) + t.subrange(j, t.len() as int));
    assert(out.subrange(0, p) =~= t.subrange(0, p));
    assert(out.subrange(p, p + ft.len()) =~= ft);
    assert(out.subrange(p + ft.len(), out.len() as int) =~= t.subrange(fend, t.len() as int));
}

} // verus!
