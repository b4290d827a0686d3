//! The tool's working parts: extracting the version components of a manifest,
//! advancing one of them, and writing the rewritten field back into the text.
use vstd::prelude::*;

use crate::manifest::{
    comps_of, content_of, field_leftmost, find_field, find_package, has_field, lemma_comps_are_num,
    lemma_field_unique, lemma_pkg_unique, pkg_found, pkg_leftmost, version_kw, FieldSpan,
};
use crate::num::{digit_str, is_num, nat_to_str, parse_usize, str_to_nat, usize_to_string};

verus! {

/// The ways one bump request can fail.
#[derive(Debug, Clone, Copy, PartialEq, Eq, Structural)]
pub enum VerError {
    /// The manifest has no `[package]` section.
    SectionNotFound,
    /// The section has no version field of the expected shape.
    FieldNotFound,
    /// The targeted component cannot be read as a machine-sized number.
    ParseFailure,
}

/// The parsed command selecting which bump to perform.
pub struct Flag {
    pub command: Option<String>,
}

/// A well-shaped component vector: four slots, the first three present.
pub open spec fn valid_ver(v: Seq<Option<String>>) -> bool {
    &&& v.len() == 4
    &&& v[0] is Some
    &&& v[1] is Some
    &&& v[2] is Some
}

/// The characters of one optional component.
pub open spec fn comp_view(c: Option<String>) -> Option<Seq<char>> {
    match c {
        Some(s) => Some(s@),
        None => None,
    }
}

/// The characters of each component.
pub open spec fn comps_view(v: Seq<Option<String>>) -> Seq<Option<Seq<char>>> {
    Seq::new(v.len(), |k: int| comp_view(v[k]))
}

/// The characters of each produced component.
pub open spec fn strs_view(v: Seq<String>) -> Seq<Seq<char>> {
    Seq::new(v.len(), |k: int| v[k]@)
}

/// A component read as zero when absent.
pub open spec fn comp_or_zero(c: Option<Seq<char>>) -> Seq<char> {
    match c {
        Some(s) => s,
        None => seq!['0'],
    }
}

/// Whether a targeted component can be read and advanced within machine bounds.
pub open spec fn comp_inc_ok(c: Option<Seq<char>>) -> bool {
    match c {
        Some(s) => is_num(s) && str_to_nat(s) < usize::MAX as nat,
        None => true,
    }
}

/// The advanced form of a targeted component: its value plus one in canonical
/// decimal form, or the sequence start when the component was absent.
pub open spec fn comp_bumped(c: Option<Seq<char>>) -> Seq<char> {
    match c {
        Some(s) => nat_to_str(str_to_nat(s) + 1),
        None => seq!['0'],
    }
}

/// The component list a bump produces: four slots for a pre-kind, three for a
/// release kind, the targeted slot advanced and the rest passed through.
pub open spec fn plus_out(v: Seq<Option<Seq<char>>>, index: int, is_pre: bool) -> Seq<Seq<char>> {
    if is_pre {
        Seq::new(4, |k: int| if k == index { comp_bumped(v[k]) } else { comp_or_zero(v[k]) })
    } else {
        Seq::new(3, |k: int| if k == index { comp_bumped(v[k]) } else { comp_or_zero(v[k]) })
    }
}

/// Whether the bump fails: only when a slot is really targeted and its
/// content cannot be read as a number that can still grow.
pub open spec fn plus_fails(v: Seq<Option<Seq<char>>>, index: int, is_pre: bool) -> bool {
    (is_pre || index < 3) && !comp_inc_ok(v[index])
}

/// Advance the characters of one present component.
fn bump_str(s: &String) -> (r: Result<String, VerError>)
    ensures
        match r {
            Ok(t) => comp_inc_ok(Some(s@)) && t@ == comp_bumped(Some(s@)),
            Err(e) => e == VerError::ParseFailure && !comp_inc_ok(Some(s@)),
        },
{
    match parse_usize(s.as_str()) {
        None => Err(VerError::ParseFailure),
        Some(v) => {
            if v == usize::MAX {
                Err(VerError::ParseFailure)
            } else {
                Ok(usize_to_string(v + 1))
            }
        },
    }
}

/// One produced slot: the component itself, or its advanced form when targeted.
fn step_comp(s: String, target: bool) -> (r: Result<String, VerError>)
    ensures
        match r {
            Ok(t) => {
                &&& target ==> comp_inc_ok(Some(s@)) && t@ == comp_bumped(Some(s@))
                &&& !target ==> t == s
            },
            Err(e) => target && e == VerError::ParseFailure && !comp_inc_ok(Some(s@)),
        },
{
    if target {
        bump_str(&s)
    } else {
        Ok(s)
    }
}

/// The string `0`, the start of a prerelease sequence.
fn zero_string() -> (r: String)
    ensures
        r@ == seq!['0'],
{
    let r = digit_str(0).to_owned();
    proof {
        assert(seq![crate::num::digit_char(0)] =~= seq!['0']);
    }
    r
}

/// Advance the component at `index`. A pre-kind keeps all four slots, filling
/// an absent prerelease with `0`; a release kind keeps only the first three,
/// dropping the prerelease. The targeted slot is read as a number, advanced by
/// one and written back in canonical form; every other slot passes through
/// with its characters unchanged.
pub fn version_plus(index: usize, ver: Vec<Option<String>>, is_pre: bool) -> (r: Result<
    Vec<String>,
    VerError,
>)
    requires
        valid_ver(ver@),
        index < 4,
    ensures
        match r {
            Ok(out) => !plus_fails(comps_view(ver@), index as int, is_pre) && strs_view(out@)
                == plus_out(comps_view(ver@), index as int, is_pre),
            Err(e) => e == VerError::ParseFailure && plus_fails(
                comps_view(ver@),
                index as int,
                is_pre,
            ),
        },
{
    let ghost cv = comps_view(ver@);
    let mut v = ver;
    let pre = match v.pop() {
        Some(x) => x,
        None => {
            proof {
                assert(false);
            }
            return Err(VerError::ParseFailure);
        },
    };
    let pat = match v.pop() {
        Some(x) => x,
        None => {
            proof {
                assert(false);
            }
            return Err(VerError::ParseFailure);
        },
    };
    let min_c = match v.pop() {
        Some(x) => x,
        None => {
            proof {
                assert(false);
            }
            return Err(VerError::ParseFailure);
        },
    };
    let maj = match v.pop() {
        Some(x) => x,
        None => {
            proof {
                assert(false);
            }
            return Err(VerError::ParseFailure);
        },
    };
    let maj_s = match maj {
        Some(s) => s,
        None => {
            proof {
                assert(false);
            }
            return Err(VerError::ParseFailure);
        },
    };
    let min_s = match min_c {
        Some(s) => s,
        None => {
            proof {
                assert(false);
            }
            return Err(VerError::ParseFailure);
        },
    };
    let pat_s = match pat {
        Some(s) => s,
        None => {
            proof {
                assert(false);
            }
            return Err(VerError::ParseFailure);
        },
    };
    let r0 = match step_comp(maj_s, index == 0) {
        Ok(t) => t,
        Err(e) => {
            return Err(e);
        },
    };
    let r1 = match step_comp(min_s, index == 1) {
        Ok(t) => t,
        Err(e) => {
            return Err(e);
        },
    };
    let r2 = match step_comp(pat_s, index == 2) {
        Ok(t) => t,
        Err(e) => {
            return Err(e);
        },
    };
    let mut out: Vec<String> = Vec::new();
    out.push(r0);
    out.push(r1);
    out.push(r2);
    if is_pre {
        match pre {
            None => {
                out.push(zero_string());
            },
            Some(p) => {
                if index == 3 {
                    match bump_str(&p) {
                        Ok(t) => {
                            out.push(t);
                        },
                        Err(e) => {
                            return Err(e);
                        },
                    }
                } else {
                    out.push(p);
                }
            },
        }
    }
    proof {
        assert(strs_view(out@) =~= plus_out(cv, index as int, is_pre));
    }
    Ok(out)
}

/// The four components `v` are those of the first version field of the first
/// `[package]` section of `t`, whose content spans `(i, j)` and whose field
/// match is `m`.
pub open spec fn extraction_ok(
    t: Seq<char>,
    i: int,
    j: int,
    m: FieldSpan,
    v: Seq<Option<Seq<char>>>,
) -> bool {
    &&& pkg_leftmost(t, i, j)
    &&& field_leftmost(content_of(t, i, j), m)
    &&& v == comps_of(content_of(t, i, j), m)
}

/// The characters written in place of the matched field.
pub open spec fn field_text(ver: Seq<char>) -> Seq<char> {
    version_kw() + seq![' ', '=', ' ', '"'] + ver + seq!['"']
}

/// The whole rewritten manifest: the text up to the matched field, the new
/// field, the rest of the section content, and the rest of the text.
pub open spec fn substituted(t: Seq<char>, i: int, j: int, m: FieldSpan, ver: Seq<char>) -> Seq<
    char,
> {
    let c = content_of(t, i, j);
    t.subrange(0, i + 10) + c.subrange(0, m.start as int) + field_text(ver) + c.subrange(
        m.end as int + 1,
        c.len() as int,
    ) + t.subrange(j, t.len() as int)
}

/// `out` is `t` with the first version field of the first `[package]`
/// section replaced by `ver`, and nothing else changed.
pub open spec fn substitution_ok(
    t: Seq<char>,
    i: int,
    j: int,
    m: FieldSpan,
    ver: Seq<char>,
    out: Seq<char>,
) -> bool {
    &&& pkg_leftmost(t, i, j)
    &&& field_leftmost(content_of(t, i, j), m)
    &&& out == substituted(t, i, j, m, ver)
}

/// Components `v` come from some (necessarily the first) section and field
/// match of `t`.
pub open spec fn extraction_exists(t: Seq<char>, v: Seq<Option<Seq<char>>>) -> bool {
    exists|i: int, j: int, m: FieldSpan| extraction_ok(t, i, j, m, v)
}

/// `out` rewrites some (necessarily the first) section and field match of `t`
/// around the version string `ver`.
pub open spec fn substitution_exists(t: Seq<char>, ver: Seq<char>, out: Seq<char>) -> bool {
    exists|i: int, j: int, m: FieldSpan| substitution_ok(t, i, j, m, ver, out)
}

/// The manifest has a `[package]` section, but its content holds no version
/// field of the expected shape.
pub open spec fn field_missing(t: Seq<char>) -> bool {
    exists|i: int, j: int| #[trigger] pkg_leftmost(t, i, j) && !has_field(content_of(t, i, j))
}

impl Flag {
    /// Locate the `[package]` section of the manifest text: the bounds of its
    /// content inside the text, and the content itself.
    pub fn parse_package_content(&self, resource: &str) -> (r: Result<
        (usize, usize, String),
        VerError,
    >)
        ensures
            match r {
                Ok((s, e, c)) => {
                    &&& s >= 10
                    &&& pkg_leftmost(resource@, s - 10, e as int)
                    &&& c@ == content_of(resource@, s - 10, e as int)
                },
                Err(er) => er == VerError::SectionNotFound && !pkg_found(resource@),
            },
    {
        match find_package(resource) {
            None => Err(VerError::SectionNotFound),
            Some((cs, j)) => {
                let c = resource.substring_char(cs, j).to_owned();
                Ok((cs, j, c))
            },
        }
    }

    /// Extract the four version components, as written, from the first
    /// version field of the `[package]` section: major, minor and patch are
    /// always present, the prerelease part only when the field carries one.
    pub fn parse_version(&self, resource: &str) -> (r: Result<Vec<Option<String>>, VerError>)
        ensures
            match r {
                Ok(v) => {
                    &&& valid_ver(v@)
                    &&& extraction_exists(resource@, comps_view(v@))
                    &&& is_num(comps_view(v@)[0]->0)
                    &&& is_num(comps_view(v@)[1]->0)
                    &&& is_num(comps_view(v@)[2]->0)
                    &&& (comps_view(v@)[3] matches Some(p) ==> is_num(p))
                },
                Err(e) => {
                    &&& (e == VerError::SectionNotFound || e == VerError::FieldNotFound)
                    &&& (e == VerError::SectionNotFound ==> !pkg_found(resource@))
                    &&& (e == VerError::FieldNotFound ==> field_missing(resource@))
                },
            },
    {
        let (cs, j, content) = match self.parse_package_content(resource) {
            Ok(x) => x,
            Err(e) => {
                return Err(e);
            },
        };
        let cstr = content.as_str();
        match find_field(cstr) {
            None => Err(VerError::FieldNotFound),
            Some(m) => {
                let pat_end = match m.dash {
                    None => m.end,
                    Some(h) => h,
                };
                let maj = cstr.substring_char(m.quote + 1, m.dot1).to_owned();
                let min_s = cstr.substring_char(m.dot1 + 1, m.dot2).to_owned();
                let pat = cstr.substring_char(m.dot2 + 1, pat_end).to_owned();
                let pre = match m.dash {
                    None => None,
                    Some(h) => Some(cstr.substring_char(h + 1, m.end).to_owned()),
                };
                let mut v: Vec<Option<String>> = Vec::new();
                v.push(Some(maj));
                v.push(Some(min_s));
                v.push(Some(pat));
                v.push(pre);
                proof {
                    lemma_comps_are_num(content@, m);
                    assert(comps_view(v@) =~= comps_of(content@, m));
                    assert(extraction_ok(resource@, cs - 10, j as int, m, comps_view(v@)));
                    assert(extraction_exists(resource@, comps_view(v@)));
                }
                Ok(v)
            },
        }
    }

    /// Rewrite the manifest text, replacing the matched version field of the
    /// `[package]` section with `version = "..."` around the given string,
    /// and nothing else.
    pub fn change_resource(&self, resource: &str, version: String) -> (r: Result<String, VerError>)
        ensures
            match r {
                Ok(out) => substitution_exists(resource@, version@, out@),
                Err(e) => {
                    &&& (e == VerError::SectionNotFound || e == VerError::FieldNotFound)
                    &&& (e == VerError::SectionNotFound ==> !pkg_found(resource@))
                    &&& (e == VerError::FieldNotFound ==> field_missing(resource@))
                },
            },
    {
        let (cs, j, content) = match self.parse_package_content(resource) {
            Ok(x) => x,
            Err(e) => {
                return Err(e);
            },
        };
        let cstr = content.as_str();
        match find_field(cstr) {
            None => Err(VerError::FieldNotFound),
            Some(m) => {
                let n = resource.unicode_len();
                let clen = cstr.unicode_len();
                let mut out = resource.substring_char(0, cs).to_owned();
                out.append(cstr.substring_char(0, m.start));
                out.append("version = \"");
                out.append(version.as_str());
                out.append("\"");
                out.append(cstr.substring_char(m.end + 1, clen));
                out.append(resource.substring_char(j, n));
                proof {
                    reveal_strlit("version = \"");
                    reveal_strlit("\"");
                    assert(("version = \"")@ =~= version_kw() + seq![' ', '=', ' ', '"']);
                    assert(("\"")@ =~= seq!['"']);
                    assert(out@ =~= substituted(resource@, cs - 10, j as int, m, version@));
                    assert(substitution_ok(resource@, cs - 10, j as int, m, version@, out@));
                    assert(substitution_exists(resource@, version@, out@));
                }
                Ok(out)
            },
        }
    }
}

/// Make the dispatch value for a chosen command word.
pub fn build(command: Option<String>) -> (r: Flag)
    ensures
        r.command == command,
{
    Flag { command }
}

/// A dispatch value as the tests construct it.
pub fn _test(name: &str) -> (r: Flag)
    ensures
        r.command matches Some(s) && s@ == name@,
{
    Flag { command: Some(name.to_owned()) }
}

/// The characters of a four-part version string, `major.minor.patch-pre`.
pub open spec fn join_pre(v: Seq<Seq<char>>) -> Seq<char> {
    v[0] + seq!['.'] + v[1] + seq!['.'] + v[2] + seq!['-'] + v[3]
}

/// The characters of a three-part version string, `major.minor.patch`.
pub open spec fn join_release(v: Seq<Seq<char>>) -> Seq<char> {
    v[0] + seq!['.'] + v[1] + seq!['.'] + v[2]
}

/// Join four produced components with dots and a dash.
fn join_with_pre(v: Vec<String>) -> (r: String)
    requires
        v@.len() == 4,
    ensures
        r@ == join_pre(strs_view(v@)),
{
    let mut v = v;
    let p3 = match v.pop() {
        Some(x) => x,
        None => {
            proof {
                assert(false);
            }
            return String::new();
        },
    };
    let p2 = match v.pop() {
        Some(x) => x,
        None => {
            proof {
                assert(false);
            }
            return String::new();
        },
    };
    let p1 = match v.pop() {
        Some(x) => x,
        None => {
            proof {
                assert(false);
            }
            return String::new();
        },
    };
    let mut r = match v.pop() {
        Some(x) => x,
        None => {
            proof {
                assert(false);
            }
            return String::new();
        },
    };
    proof {
        reveal_strlit(".");
        reveal_strlit("-");
        assert("."@ =~= seq!['.']);
        assert("-"@ =~= seq!['-']);
    }
    r.append(".");
    r.append(p1.as_str());
    r.append(".");
    r.append(p2.as_str());
    r.append("-");
    r.append(p3.as_str());
    r
}

/// Join three produced components with dots.
fn join_with_dots(v: Vec<String>) -> (r: String)
    requires
        v@.len() == 3,
    ensures
        r@ == join_release(strs_view(v@)),
{
    let mut v = v;
    let p2 = match v.pop() {
        Some(x) => x,
        None => {
            proof {
                assert(false);
            }
            return String::new();
        },
    };
    let p1 = match v.pop() {
        Some(x) => x,
        None => {
            proof {
                assert(false);
            }
            return String::new();
        },
    };
    let mut r = match v.pop() {
        Some(x) => x,
        None => {
            proof {
                assert(false);
            }
            return String::new();
        },
    };
    proof {
        reveal_strlit(".");
        assert("."@ =~= seq!['.']);
    }
    r.append(".");
    r.append(p1.as_str());
    r.append(".");
    r.append(p2.as_str());
    r
}

impl Flag {
    /// `0.0.1 -> 0.0.1-0` or `0.0.1-0 -> 0.0.1-1`
    pub fn prerelease(&self, ver: Vec<Option<String>>) -> (r: Result<String, VerError>)
        requires
            valid_ver(ver@),
        ensures
            match r {
                Ok(s) => !plus_fails(comps_view(ver@), 3, true) && s@ == join_pre(
                    plus_out(comps_view(ver@), 3, true),
                ),
                Err(e) => e == VerError::ParseFailure && plus_fails(comps_view(ver@), 3, true),
            },
    {
        match version_plus(3, ver, true) {
            Err(e) => Err(e),
            Ok(v) => {
                proof {
                    assert(strs_view(v@).len() == v@.len());
                }
                Ok(join_with_pre(v))
            },
        }
    }

    /// `0.0.1 -> 0.0.2-0` or `0.0.1-0 -> 0.0.2-0`
    pub fn prepatch(&self, ver: Vec<Option<String>>) -> (r: Result<String, VerError>)
        requires
            valid_ver(ver@),
        ensures
            match r {
                Ok(s) => !plus_fails(comps_view(ver@), 2, true) && s@ == join_pre(
                    plus_out(comps_view(ver@), 2, true),
                ),
                Err(e) => e == VerError::ParseFailure && plus_fails(comps_view(ver@), 2, true),
            },
    {
        match version_plus(2, ver, true) {
            Err(e) => Err(e),
            Ok(v) => {
                proof {
                    assert(strs_view(v@).len() == v@.len());
                }
                Ok(join_with_pre(v))
            },
        }
    }

    /// `0.0.1 -> 0.1.1-0` or `0.1.1-0 -> 0.2.1-0`
    pub fn preminor(&self, ver: Vec<Option<String>>) -> (r: Result<String, VerError>)
        requires
            valid_ver(ver@),
        ensures
            match r {
                Ok(s) => !plus_fails(comps_view(ver@), 1, true) && s@ == join_pre(
                    plus_out(comps_view(ver@), 1, true),
                ),
                Err(e) => e == VerError::ParseFailure && plus_fails(comps_view(ver@), 1, true),
            },
    {
        match version_plus(1, ver, true) {
            Err(e) => Err(e),
            Ok(v) => {
                proof {
                    assert(strs_view(v@).len() == v@.len());
                }
                Ok(join_with_pre(v))
            },
        }
    }

    /// `0.0.1 -> 1.0.1-0` or `0.0.1-0 -> 1.0.1-0`
    pub fn premajor(&self, ver: Vec<Option<String>>) -> (r: Result<String, VerError>)
        requires
            valid_ver(ver@),
        ensures
            match r {
                Ok(s) => !plus_fails(comps_view(ver@), 0, true) && s@ == join_pre(
                    plus_out(comps_view(ver@), 0, true),
                ),
                Err(e) => e == VerError::ParseFailure && plus_fails(comps_view(ver@), 0, true),
            },
    {
        match version_plus(0, ver, true) {
            Err(e) => Err(e),
            Ok(v) => {
                proof {
                    assert(strs_view(v@).len() == v@.len());
                }
                Ok(join_with_pre(v))
            },
        }
    }

    /// `0.0.1 -> 0.0.2` or `0.0.1-0 -> 0.0.2`
    pub fn patch(&self, ver: Vec<Option<String>>) -> (r: Result<String, VerError>)
        requires
            valid_ver(ver@),
        ensures
            match r {
                Ok(s) => !plus_fails(comps_view(ver@), 2, false) && s@ == join_release(
                    plus_out(comps_view(ver@), 2, false),
                ),
                Err(e) => e == VerError::ParseFailure && plus_fails(comps_view(ver@), 2, false),
            },
    {
        match version_plus(2, ver, false) {
            Err(e) => Err(e),
            Ok(v) => {
                proof {
                    assert(strs_view(v@).len() == v@.len());
                }
                Ok(join_with_dots(v))
            },
        }
    }

    /// `0.0.1 -> 0.1.1` or `0.0.1-0 -> 0.1.1`
    pub fn minor(&self, ver: Vec<Option<String>>) -> (r: Result<String, VerError>)
        requires
            valid_ver(ver@),
        ensures
            match r {
                Ok(s) => !plus_fails(comps_view(ver@), 1, false) && s@ == join_release(
                    plus_out(comps_view(ver@), 1, false),
                ),
                Err(e) => e == VerError::ParseFailure && plus_fails(comps_view(ver@), 1, false),
            },
    {
        match version_plus(1, ver, false) {
            Err(e) => Err(e),
            Ok(v) => {
                proof {
                    assert(strs_view(v@).len() == v@.len());
                }
                Ok(join_with_dots(v))
            },
        }
    }

    /// `0.0.1 -> 1.0.1` or `0.0.1-0 -> 1.0.1`
    pub fn major(&self, ver: Vec<Option<String>>) -> (r: Result<String, VerError>)
        requires
            valid_ver(ver@),
        ensures
            match r {
                Ok(s) => !plus_fails(comps_view(ver@), 0, false) && s@ == join_release(
                    plus_out(comps_view(ver@), 0, false),
                ),
                Err(e) => e == VerError::ParseFailure && plus_fails(comps_view(ver@), 0, false),
            },
    {
        match version_plus(0, ver, false) {
            Err(e) => Err(e),
            Ok(v) => {
                proof {
                    assert(strs_view(v@).len() == v@.len());
                }
                Ok(join_with_dots(v))
            },
        }
    }
}

/// The seven kinds of version bump.
#[derive(Debug, Clone, Copy, PartialEq, Eq, Structural)]
pub enum BumpKind {
    Major,
    Minor,
    Patch,
    Premajor,
    Preminor,
    Prepatch,
    Prerelease,
}

/// The component slot a kind advances.
pub open spec fn kind_index(k: BumpKind) -> int {
    match k {
        BumpKind::Major => 0,
        BumpKind::Minor => 1,
        BumpKind::Patch => 2,
        BumpKind::Premajor => 0,
        BumpKind::Preminor => 1,
        BumpKind::Prepatch => 2,
        BumpKind::Prerelease => 3,
    }
}

/// Whether a kind keeps the prerelease slot.
pub open spec fn kind_is_pre(k: BumpKind) -> bool {
    match k {
        BumpKind::Major => false,
        BumpKind::Minor => false,
        BumpKind::Patch => false,
        BumpKind::Premajor => true,
        BumpKind::Preminor => true,
        BumpKind::Prepatch => true,
        BumpKind::Prerelease => true,
    }
}

/// The version string a kind produces from extracted components.
pub open spec fn bumped_version(v: Seq<Option<Seq<char>>>, k: BumpKind) -> Seq<char> {
    if kind_is_pre(k) {
        join_pre(plus_out(v, kind_index(k), true))
    } else {
        join_release(plus_out(v, kind_index(k), false))
    }
}

/// The whole operation succeeded on `t`: the version string `vs` is the bump
/// of the extracted components, and `out` is `t` with only the matched field
/// rewritten around `vs`.
pub open spec fn bump_ok(t: Seq<char>, kind: BumpKind, vs: Seq<char>, out: Seq<char>) -> bool {
    exists|i: int, j: int, m: FieldSpan|
        #![trigger pkg_leftmost(t, i, j), field_leftmost(content_of(t, i, j), m)]
        {
            let comps = comps_of(content_of(t, i, j), m);
            &&& pkg_leftmost(t, i, j)
            &&& field_leftmost(content_of(t, i, j), m)
            &&& !plus_fails(comps, kind_index(kind), kind_is_pre(kind))
            &&& vs == bumped_version(comps, kind)
            &&& out == substituted(t, i, j, m, vs)
        }
}

/// The manifest was matched, but the targeted component cannot be advanced.
pub open spec fn parse_failed(t: Seq<char>, kind: BumpKind) -> bool {
    exists|i: int, j: int, m: FieldSpan|
        #![trigger pkg_leftmost(t, i, j), field_leftmost(content_of(t, i, j), m)]
        {
            &&& pkg_leftmost(t, i, j)
            &&& field_leftmost(content_of(t, i, j), m)
            &&& plus_fails(
                comps_of(content_of(t, i, j), m),
                kind_index(kind),
                kind_is_pre(kind),
            )
        }
}

/// Apply one bump kind to manifest text: extract the components of the
/// version field, advance the targeted one, and rewrite only that field.
/// Returns the new version string and the rewritten text.
pub fn bump_manifest(resource: &str, kind: BumpKind) -> (r: Result<(String, String), VerError>)
    ensures
        match r {
            Ok(p) => bump_ok(resource@, kind, p.0@, p.1@),
            Err(e) => {
                &&& (e == VerError::SectionNotFound ==> !pkg_found(resource@))
                &&& (e == VerError::FieldNotFound ==> field_missing(resource@))
                &&& (e == VerError::ParseFailure ==> parse_failed(resource@, kind))
            },
        },
{
    let f = Flag { command: None };
    let ver = match f.parse_version(resource) {
        Ok(v) => v,
        Err(e) => {
            return Err(e);
        },
    };
    let ghost cv = comps_view(ver@);
    let bumped = match kind {
        BumpKind::Major => f.major(ver),
        BumpKind::Minor => f.minor(ver),
        BumpKind::Patch => f.patch(ver),
        BumpKind::Premajor => f.premajor(ver),
        BumpKind::Preminor => f.preminor(ver),
        BumpKind::Prepatch => f.prepatch(ver),
        BumpKind::Prerelease => f.prerelease(ver),
    };
    let vs = match bumped {
        Ok(s) => s,
        Err(e) => {
            proof {
                let (i1, j1, m1) = choose|i1: int, j1: int, m1: FieldSpan|
                    extraction_ok(resource@, i1, j1, m1, cv);
                assert(pkg_leftmost(resource@, i1, j1));
                assert(field_leftmost(content_of(resource@, i1, j1), m1));
                assert(parse_failed(resource@, kind));
            }
            return Err(e);
        },
    };
    let out = match f.change_resource(resource, vs.clone()) {
        Ok(o) => o,
        Err(e) => {
            proof {
                let (i1, j1, m1) = choose|i1: int, j1: int, m1: FieldSpan|
                    extraction_ok(resource@, i1, j1, m1, cv);
                assert(crate::manifest::pkg_starts_at(resource@, i1));
                assert(pkg_found(resource@));
                if e == VerError::FieldNotFound {
                    let (i2, j2) = choose|i2: int, j2: int|
                        #[trigger] pkg_leftmost(resource@, i2, j2) && !has_field(
                            content_of(resource@, i2, j2),
                        );
                    lemma_pkg_unique(resource@, i1, j1, i2, j2);
                    assert(crate::manifest::field_starts_at(
                        content_of(resource@, i1, j1),
                        m1.start as int,
                    ));
                    assert(has_field(content_of(resource@, i1, j1)));
                }
                assert(false);
            }
            return Err(e);
        },
    };
    proof {
        let (i1, j1, m1) = choose|i1: int, j1: int, m1: FieldSpan|
            extraction_ok(resource@, i1, j1, m1, cv);
        let (i2, j2, m2) = choose|i2: int, j2: int, m2: FieldSpan|
            substitution_ok(resource@, i2, j2, m2, vs@, out@);
        lemma_pkg_unique(resource@, i1, j1, i2, j2);
        assert(crate::manifest::field_starts_at(content_of(resource@, i1, j1), m1.start as int));
        assert(crate::manifest::field_starts_at(content_of(resource@, i1, j1), m2.start as int));
        assert(m1.start == m2.start);
        lemma_field_unique(content_of(resource@, i1, j1), m1, m2);
        assert(m1 == m2);
        assert(vs@ == bumped_version(cv, kind));
        assert(out@ == substituted(resource@, i1, j1, m1, vs@));
        assert(bump_ok(resource@, kind, vs@, out@));
    }
    Ok((vs, out))
}

} // verus!
