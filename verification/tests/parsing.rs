use verify_node_modules::errors::ErrorCode;
use verify_node_modules::errors::VerifyNodeModulesError;
use verify_node_modules::manifest::ParseError;
use verify_node_modules::manifest::parse_declared_tree;
use verify_node_modules::manifest::parse_installed_descriptor;

#[test]
fn descriptor_version_is_read() {
    let parsed = parse_installed_descriptor("{\"version\":\"1.2.3\"}").unwrap();
    assert!(parsed.version == "1.2.3");
}

#[test]
fn descriptor_unknown_fields_are_ignored() {
    let parsed =
        parse_installed_descriptor("{\"name\":\"x\",\"version\":\"0.1.0\",\"private\":true}")
            .unwrap();
    assert!(parsed.version == "0.1.0");
}

#[test]
fn descriptor_missing_version_is_structure_error() {
    let err = parse_installed_descriptor("{\"name\":\"x\"}").unwrap_err();
    assert!(matches!(err, ParseError::Structure));
}

#[test]
fn descriptor_non_string_version_is_structure_error() {
    let err = parse_installed_descriptor("{\"version\":7}").unwrap_err();
    assert!(matches!(err, ParseError::Structure));
}

#[test]
fn descriptor_bad_json_is_syntax_error() {
    let err = parse_installed_descriptor("{oops").unwrap_err();
    match err {
        ParseError::Syntax(msg) => assert!(!msg.is_empty()),
        ParseError::Structure => panic!("expected a syntax error"),
    }
}

#[test]
fn lockfile_nested_tree_is_read() {
    let text = "{\"dependencies\":{\
        \"a\":{\"version\":\"1.0.0\",\"dependencies\":{\"b\":{\"version\":\"2.0.0\"}}},\
        \"c\":{\"version\":\"3.0.0\"}}}";
    let root = parse_declared_tree(text).unwrap();
    assert_eq!(root.dependencies.len(), 2);
    assert!(root.dependencies[0].0 == "a");
    assert!(root.dependencies[0].1.version == "1.0.0");
    let nested = root.dependencies[0].1.dependencies.as_ref().unwrap();
    assert_eq!(nested.len(), 1);
    assert!(nested[0].0 == "b");
    assert!(nested[0].1.version == "2.0.0");
    assert!(nested[0].1.dependencies.is_none());
    assert!(root.dependencies[1].0 == "c");
    assert!(root.dependencies[1].1.version == "3.0.0");
}

#[test]
fn lockfile_empty_dependencies_is_empty_tree() {
    let root = parse_declared_tree("{\"dependencies\":{}}").unwrap();
    assert_eq!(root.dependencies.len(), 0);
}

#[test]
fn unparseable_lockfile_aborts_parsing() {
    let err = parse_declared_tree("definitely not json").unwrap_err();
    match err {
        ParseError::Syntax(msg) => assert!(!msg.is_empty()),
        ParseError::Structure => panic!("expected a syntax error"),
    }
}

#[test]
fn lockfile_without_dependencies_is_structure_error() {
    let err = parse_declared_tree("{\"name\":\"project\"}").unwrap_err();
    assert!(matches!(err, ParseError::Structure));
}

#[test]
fn lockfile_with_non_object_dependency_is_structure_error() {
    let err = parse_declared_tree("{\"dependencies\":{\"a\":\"1.0.0\"}}").unwrap_err();
    assert!(matches!(err, ParseError::Structure));
}

#[test]
fn startup_error_codes_are_distinct() {
    assert_eq!(VerifyNodeModulesError::CouldNotGetCwd(String::new()).error_code(), -1);
    assert_eq!(VerifyNodeModulesError::CouldNotOpenPackageLock(String::new()).error_code(), -2);
    assert_eq!(VerifyNodeModulesError::CouldNotOpenPackageJson(String::new()).error_code(), -3);
    assert_eq!(VerifyNodeModulesError::CouldNotParsePackageLock(String::new()).error_code(), -4);
    assert_eq!(VerifyNodeModulesError::CouldNotParsePackageJson(String::new()).error_code(), -5);
}

#[test]
fn startup_error_messages_carry_their_diagnostic() {
    let e = VerifyNodeModulesError::CouldNotParsePackageLock("bad byte".to_string());
    assert!(e.message() == "Could not parse package-lock.json: bad byte");
    let e = VerifyNodeModulesError::CouldNotGetCwd("gone".to_string());
    assert!(e.message() == "Could not get current working directory: gone");
}

#[test]
fn lockfile_extra_fields_are_ignored() {
    let text = "{\"name\":\"proj\",\"lockfileVersion\":1,\"dependencies\":{\
        \"a\":{\"version\":\"1.0.0\",\"resolved\":\"https://example.invalid/a.tgz\",\
        \"integrity\":\"sha512-xyz\"}}}";
    let root = parse_declared_tree(text).unwrap();
    assert_eq!(root.dependencies.len(), 1);
    assert!(root.dependencies[0].0 == "a");
    assert!(root.dependencies[0].1.version == "1.0.0");
    assert!(root.dependencies[0].1.dependencies.is_none());
}
