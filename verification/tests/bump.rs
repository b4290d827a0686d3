use ver::flag::_test;

#[test]
fn test_prerelease() {
    let input = "[package]\nname = \"ver\"\nversion = \"0.0.1\"\nedition = \"2021\"\n[dependencies]";
    let pre_release =
        "[package]\nname = \"ver\"\nversion = \"0.0.1-0\"\nedition = \"2021\"\n[dependencies]";
    let cmd = _test("prerelease");
    let ver = cmd.parse_version(input).unwrap();
    let version = cmd.prerelease(ver).unwrap();
    let data = cmd.change_resource(input, version).unwrap();
    assert_eq!(pre_release, data);
}

#[test]
fn test_prepatch() {
    let input = "[package]\nname = \"ver\"\nversion = \"0.0.1\"\nedition = \"2021\"\n[dependencies]";
    let pre_release =
        "[package]\nname = \"ver\"\nversion = \"0.0.2-0\"\nedition = \"2021\"\n[dependencies]";
    let cmd = _test("prepatch");
    let ver = cmd.parse_version(input).unwrap();
    let version = cmd.prepatch(ver).unwrap();
    let data = cmd.change_resource(input, version).unwrap();
    assert_eq!(pre_release, data);
}

#[test]
fn test_preminor() {
    let input = "[package]\nname = \"ver\"\nversion = \"0.0.1\"\nedition = \"2021\"\n[dependencies]";
    let pre_release =
        "[package]\nname = \"ver\"\nversion = \"0.1.1-0\"\nedition = \"2021\"\n[dependencies]";
    let cmd = _test("preminor");
    let ver = cmd.parse_version(input).unwrap();
    let version = cmd.preminor(ver).unwrap();
    let data = cmd.change_resource(input, version).unwrap();
    assert_eq!(pre_release, data);
}

#[test]
fn test_premajor() {
    let input = "[package]\nname = \"ver\"\nversion = \"0.0.1\"\nedition = \"2021\"\n[dependencies]";
    let pre_release =
        "[package]\nname = \"ver\"\nversion = \"1.0.1-0\"\nedition = \"2021\"\n[dependencies]";
    let cmd = _test("premajor");
    let ver = cmd.parse_version(input).unwrap();
    let version = cmd.premajor(ver).unwrap();
    let data = cmd.change_resource(input, version).unwrap();
    assert_eq!(pre_release, data);
}

#[test]
fn test_patch() {
    let input = "[package]\nname = \"ver\"\nversion = \"0.0.1\"\nedition = \"2021\"\n[dependencies]";
    let pre_release =
        "[package]\nname = \"ver\"\nversion = \"0.0.2\"\nedition = \"2021\"\n[dependencies]";
    let cmd = _test("patch");
    let ver = cmd.parse_version(input).unwrap();
    let version = cmd.patch(ver).unwrap();
    let data = cmd.change_resource(input, version).unwrap();
    assert_eq!(pre_release, data);
}

#[test]
fn test_minor() {
    let input = "[package]\nname = \"ver\"\nversion = \"0.0.1\"\nedition = \"2021\"\n[dependencies]";
    let pre_release =
        "[package]\nname = \"ver\"\nversion = \"0.1.1\"\nedition = \"2021\"\n[dependencies]";
    let cmd = _test("minor");
    let ver = cmd.parse_version(input).unwrap();
    let version = cmd.minor(ver).unwrap();
    let data = cmd.change_resource(input, version).unwrap();
    assert_eq!(pre_release, data);
}

#[test]
fn test_major() {
    let input = "[package]\nname = \"ver\"\nversion = \"0.0.1\"\nedition = \"2021\"\n[dependencies]";
    let pre_release =
        "[package]\nname = \"ver\"\nversion = \"1.0.1\"\nedition = \"2021\"\n[dependencies]";
    let cmd = _test("major");
    let ver = cmd.parse_version(input).unwrap();
    let version = cmd.major(ver).unwrap();
    let data = cmd.change_resource(input, version).unwrap();
    assert_eq!(pre_release, data);
}
