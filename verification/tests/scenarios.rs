use ver::flag::{build, BumpKind, VerError};

fn comps(maj: &str, min: &str, pat: &str, pre: Option<&str>) -> Vec<Option<String>> {
    vec![
        Some(maj.to_string()),
        Some(min.to_string()),
        Some(pat.to_string()),
        pre.map(|p| p.to_string()),
    ]
}

#[test]
fn scenario_prerelease_from_release() {
    let f = build(None);
    assert_eq!("0.0.1-0", f.prerelease(comps("0", "0", "1", None)).unwrap());
}

#[test]
fn scenario_prerelease_from_prerelease() {
    let f = build(None);
    assert_eq!("0.0.1-1", f.prerelease(comps("0", "0", "1", Some("0"))).unwrap());
}

#[test]
fn scenario_prepatch() {
    let f = build(None);
    assert_eq!("0.0.2-0", f.prepatch(comps("0", "0", "1", None)).unwrap());
}

#[test]
fn scenario_preminor() {
    let f = build(None);
    assert_eq!("0.1.1-0", f.preminor(comps("0", "0", "1", Some("0"))).unwrap());
}

#[test]
fn scenario_premajor() {
    let f = build(None);
    assert_eq!("1.0.1-0", f.premajor(comps("0", "0", "1", Some("0"))).unwrap());
}

#[test]
fn scenario_patch_drops_prerelease() {
    let f = build(None);
    assert_eq!("0.0.2", f.patch(comps("0", "0", "1", Some("0"))).unwrap());
}

#[test]
fn scenario_minor_drops_prerelease() {
    let f = build(None);
    assert_eq!("0.1.1", f.minor(comps("0", "0", "1", Some("0"))).unwrap());
}

#[test]
fn scenario_major_drops_prerelease() {
    let f = build(None);
    assert_eq!("1.0.1", f.major(comps("0", "0", "1", Some("0"))).unwrap());
}

#[test]
fn second_run_advances_again() {
    let input = "[package]\nversion = \"0.0.1\"\n[dependencies]";
    let (v1, out1) = ver::flag::bump_manifest(input, BumpKind::Prerelease).unwrap();
    assert_eq!("0.0.1-0", v1);
    let (v2, _) = ver::flag::bump_manifest(&out1, BumpKind::Prerelease).unwrap();
    assert_ne!(v1, v2);
    assert_eq!("0.0.1-1", v2);
}

#[test]
fn version_plus_advances_only_target() {
    let out = ver::flag::version_plus(3, comps("1", "2", "3", Some("4")), true).unwrap();
    assert_eq!(vec!["1", "2", "3", "5"], out);
    let out = ver::flag::version_plus(0, comps("1", "2", "3", Some("4")), false).unwrap();
    assert_eq!(vec!["2", "2", "3"], out);
}

#[test]
fn untouched_text_is_preserved() {
    let input = "[package]\nname = \"x\"\nversion = \"1.2.3\"\nrest = 7\n[dependencies]\nversion = \"9.9.9\"\n";
    let f = build(None);
    let out = f.change_resource(input, "2.2.3".to_string()).unwrap();
    assert_eq!(
        "[package]\nname = \"x\"\nversion = \"2.2.3\"\nrest = 7\n[dependencies]\nversion = \"9.9.9\"\n",
        out
    );
    let p = input.find("version").unwrap();
    assert_eq!(input[..p], out[..p]);
    assert_eq!(
        input[p + "version = \"1.2.3\"".len()..],
        out[p + "version = \"2.2.3\"".len()..]
    );
}

#[test]
fn dependencies_version_alone_is_not_matched() {
    let input = "[dependencies]\nversion = \"1.2.3\"\n";
    let f = build(None);
    assert_eq!(VerError::SectionNotFound, f.parse_version(input).unwrap_err());
}

#[test]
fn missing_package_section() {
    let input = "[workspace]\nmembers = []\n[dependencies]";
    let f = build(None);
    assert_eq!(VerError::SectionNotFound, f.parse_version(input).unwrap_err());
    assert_eq!(
        VerError::SectionNotFound,
        f.change_resource(input, "1.0.0".to_string()).unwrap_err()
    );
}

#[test]
fn package_section_must_precede_another_section() {
    let input = "[package]\nversion = \"1.2.3\"\n";
    let f = build(None);
    assert_eq!(VerError::SectionNotFound, f.parse_version(input).unwrap_err());
}

#[test]
fn section_without_version_field() {
    let input = "[package]\nname = \"x\"\n[dependencies]";
    let f = build(None);
    assert_eq!(VerError::FieldNotFound, f.parse_version(input).unwrap_err());
}

#[test]
fn package_content_bounds() {
    let input = "[package]\nab\n[dependencies]";
    let f = build(None);
    let (s, e, c) = f.parse_package_content(input).unwrap();
    assert_eq!(10, s);
    assert_eq!(13, e);
    assert_eq!("ab\n", c);
}

#[test]
fn non_numeric_version_is_rejected() {
    let input = "[package]\nversion = \"a.b.c\"\n[dependencies]";
    let f = build(None);
    assert_eq!(VerError::FieldNotFound, f.parse_version(input).unwrap_err());
}

#[test]
fn dangling_dash_is_rejected() {
    let input = "[package]\nversion = \"1.2.3-\"\n[dependencies]";
    let f = build(None);
    assert_eq!(VerError::FieldNotFound, f.parse_version(input).unwrap_err());
}

#[test]
fn oversized_component_fails_to_parse() {
    let input = "[package]\nversion = \"99999999999999999999999999.0.1\"\n[dependencies]";
    let err = ver::flag::bump_manifest(input, BumpKind::Major).unwrap_err();
    assert_eq!(VerError::ParseFailure, err);
}

#[test]
fn whitespace_around_equals_is_accepted() {
    let input = "[package]\nversion  =\t \"1.2.3\"\n[dependencies]";
    let (v, out) = ver::flag::bump_manifest(input, BumpKind::Patch).unwrap();
    assert_eq!("1.2.4", v);
    assert_eq!("[package]\nversion = \"1.2.4\"\n[dependencies]", out);
}

#[test]
fn leading_zeros_pass_through_untouched_components() {
    let f = build(None);
    assert_eq!("2.007.2", f.major(comps("1", "007", "2", None)).unwrap());
}

#[test]
fn leading_zeros_normalize_in_the_target() {
    let f = build(None);
    assert_eq!("1.8.2", f.minor(comps("1", "007", "2", None)).unwrap());
}

#[test]
fn multi_digit_components() {
    let input = "[package]\nversion = \"10.20.30\"\n[dependencies]";
    let (v, _) = ver::flag::bump_manifest(input, BumpKind::Minor).unwrap();
    assert_eq!("10.21.30", v);
}

#[test]
fn prerelease_of_prerelease_manifest() {
    let input = "[package]\nname = \"ver\"\nversion = \"0.0.1-0\"\nedition = \"2021\"\n[dependencies]";
    let (v, out) = ver::flag::bump_manifest(input, BumpKind::Prerelease).unwrap();
    assert_eq!("0.0.1-1", v);
    assert_eq!(
        "[package]\nname = \"ver\"\nversion = \"0.0.1-1\"\nedition = \"2021\"\n[dependencies]",
        out
    );
}

#[test]
fn parse_version_keeps_component_text() {
    let f = build(None);
    let v = f
        .parse_version("[package]\nversion = \"01.2.30-04\"\n[dependencies]")
        .unwrap();
    assert_eq!(
        vec![
            Some("01".to_string()),
            Some("2".to_string()),
            Some("30".to_string()),
            Some("04".to_string()),
        ],
        v
    );
}

#[test]
fn number_parsing_and_printing() {
    assert_eq!(Some(42), ver::num::parse_usize("0042"));
    assert_eq!(Some(0), ver::num::parse_usize("0"));
    assert_eq!(None, ver::num::parse_usize(""));
    assert_eq!(None, ver::num::parse_usize("12a"));
    assert_eq!(None, ver::num::parse_usize("99999999999999999999999999"));
    assert_eq!("120", ver::num::usize_to_string(120));
    assert_eq!("0", ver::num::usize_to_string(0));
}
