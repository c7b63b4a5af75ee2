use verify_node_modules::npm_types::PackageLockDependency;
use verify_node_modules::npm_types::PackageLockJSONRoot;
use verify_node_modules::tree::ObservedNode;
use verify_node_modules::tree::ProbeOutcome;
use verify_node_modules::tree::VerificationResult;
use verify_node_modules::tree::exit_code_for;
use verify_node_modules::tree::verify_tree_checked;

fn dep(version: &str) -> PackageLockDependency {
    PackageLockDependency { version: version.to_string(), dependencies: None }
}

fn dep_with(version: &str, children: Vec<(String, PackageLockDependency)>) -> PackageLockDependency {
    PackageLockDependency { version: version.to_string(), dependencies: Some(children) }
}

fn leaf(probe: ProbeOutcome) -> ObservedNode {
    ObservedNode { probe, children: Vec::new() }
}

fn installed(version: &str) -> ProbeOutcome {
    ProbeOutcome::Content(format!("{{\"version\":\"{}\"}}", version))
}

fn run(root: &PackageLockJSONRoot, observed: &Vec<ObservedNode>) -> VerificationResult {
    verify_tree_checked(root, observed).expect("observations cover the declared tree")
}

#[test]
fn missing_left_pad() {
    let root = PackageLockJSONRoot { dependencies: vec![("left-pad".to_string(), dep("1.0.0"))] };
    let observed = vec![leaf(ProbeOutcome::Missing)];
    let result = run(&root, &observed);
    assert_eq!(result.discrepancies.len(), 1);
    assert!(result.discrepancies[0].package_name == "left-pad");
    assert!(result.discrepancies[0].expected_version == "1.0.0");
    assert!(result.discrepancies[0].actual_version == "None");
    assert_eq!(result.visited, 1);
    assert_eq!(exit_code_for(result.discrepancies.len()), 1);
}

#[test]
fn all_missing_flat_tree() {
    let root = PackageLockJSONRoot {
        dependencies: vec![
            ("a".to_string(), dep("1.0.0")),
            ("b".to_string(), dep("2.0.0")),
            ("c".to_string(), dep("3.0.0")),
        ],
    };
    let observed = vec![
        leaf(ProbeOutcome::Missing),
        leaf(ProbeOutcome::Missing),
        leaf(ProbeOutcome::Missing),
    ];
    let result = run(&root, &observed);
    assert_eq!(result.discrepancies.len(), 3);
    for d in &result.discrepancies {
        assert!(d.actual_version == "None");
    }
    assert_eq!(result.visited, 3);
}

#[test]
fn missing_parent_is_terminal_for_its_branch() {
    let root = PackageLockJSONRoot {
        dependencies: vec![(
            "a".to_string(),
            dep_with("1.0.0", vec![("b".to_string(), dep("2.0.0"))]),
        )],
    };
    let observed = vec![leaf(ProbeOutcome::Missing)];
    let result = run(&root, &observed);
    assert_eq!(result.discrepancies.len(), 1);
    assert!(result.discrepancies[0].package_name == "a");
    assert_eq!(result.visited, 1);
}

#[test]
fn matching_tree_reports_nothing() {
    let root = PackageLockJSONRoot {
        dependencies: vec![(
            "a".to_string(),
            dep_with("1.0.0", vec![("b".to_string(), dep("2.0.0"))]),
        )],
    };
    let observed = vec![ObservedNode {
        probe: installed("1.0.0"),
        children: vec![leaf(installed("2.0.0"))],
    }];
    let result = run(&root, &observed);
    assert_eq!(result.discrepancies.len(), 0);
    assert_eq!(result.visited, 2);
    assert_eq!(exit_code_for(result.discrepancies.len()), 0);
}

#[test]
fn mismatch_still_checks_children() {
    let root = PackageLockJSONRoot {
        dependencies: vec![(
            "a".to_string(),
            dep_with("1.0.0", vec![("b".to_string(), dep("2.0.0"))]),
        )],
    };
    let observed = vec![ObservedNode {
        probe: installed("1.1.0"),
        children: vec![leaf(installed("2.1.0"))],
    }];
    let result = run(&root, &observed);
    assert_eq!(result.discrepancies.len(), 2);
    assert!(result.discrepancies[0].package_name == "a");
    assert!(result.discrepancies[0].expected_version == "1.0.0");
    assert!(result.discrepancies[0].actual_version == "1.1.0");
    assert!(result.discrepancies[1].package_name == "b");
    assert!(result.discrepancies[1].expected_version == "2.0.0");
    assert!(result.discrepancies[1].actual_version == "2.1.0");
    assert_eq!(result.visited, 2);
    assert_eq!(exit_code_for(result.discrepancies.len()), 2);
}

#[test]
fn two_runs_agree() {
    let root = PackageLockJSONRoot {
        dependencies: vec![
            ("a".to_string(), dep_with("1.0.0", vec![("b".to_string(), dep("2.0.0"))])),
            ("c".to_string(), dep("3.0.0")),
        ],
    };
    let observed = vec![
        ObservedNode { probe: installed("1.5.0"), children: vec![leaf(ProbeOutcome::Missing)] },
        leaf(installed("3.0.0")),
    ];
    let first = run(&root, &observed);
    let second = run(&root, &observed);
    assert_eq!(first.discrepancies.len(), second.discrepancies.len());
    for (x, y) in first.discrepancies.iter().zip(second.discrepancies.iter()) {
        assert!(x.package_name == y.package_name);
        assert!(x.expected_version == y.expected_version);
        assert!(x.actual_version == y.actual_version);
    }
    assert_eq!(first.visited, second.visited);
}

#[test]
fn malformed_descriptor_reports_once() {
    let root = PackageLockJSONRoot {
        dependencies: vec![
            ("bad".to_string(), dep("1.0.0")),
            ("good".to_string(), dep("2.0.0")),
        ],
    };
    let observed = vec![
        leaf(ProbeOutcome::Content("{not json".to_string())),
        leaf(installed("2.0.0")),
    ];
    let result = run(&root, &observed);
    assert_eq!(result.discrepancies.len(), 1);
    assert!(result.discrepancies[0].package_name == "bad");
    assert!(result.discrepancies[0].actual_version.starts_with("Unknown ("));
    assert!(result.discrepancies[0].actual_version.len() > "Unknown ()".len());
    assert_eq!(result.visited, 2);
}

#[test]
fn unreadable_descriptor_embeds_diagnostic() {
    let root = PackageLockJSONRoot { dependencies: vec![("a".to_string(), dep("1.0.0"))] };
    let observed = vec![leaf(ProbeOutcome::OpenFailed("permission denied".to_string()))];
    let result = run(&root, &observed);
    assert_eq!(result.discrepancies.len(), 1);
    assert!(
        result.discrepancies[0].actual_version
            == "Unknown (Could not open package.json: permission denied)"
    );
    assert_eq!(result.visited, 1);
}

#[test]
fn descriptor_without_version_field() {
    let root = PackageLockJSONRoot { dependencies: vec![("a".to_string(), dep("1.0.0"))] };
    let observed = vec![leaf(ProbeOutcome::Content("{\"name\":\"a\"}".to_string()))];
    let result = run(&root, &observed);
    assert_eq!(result.discrepancies.len(), 1);
    assert!(
        result.discrepancies[0].actual_version
            == "Unknown (Could not parse package.json: invalid manifest structure)"
    );
}

#[test]
fn short_observations_are_refused() {
    let root = PackageLockJSONRoot {
        dependencies: vec![("a".to_string(), dep("1.0.0")), ("b".to_string(), dep("2.0.0"))],
    };
    let observed = vec![leaf(ProbeOutcome::Missing)];
    assert!(verify_tree_checked(&root, &observed).is_none());
}

#[test]
fn exit_code_matches_discrepancy_count() {
    assert_eq!(exit_code_for(0), 0);
    assert_eq!(exit_code_for(7), 7);
    assert_eq!(exit_code_for(usize::MAX), i32::MAX);
}

#[test]
fn three_levels_of_nesting() {
    let root = PackageLockJSONRoot {
        dependencies: vec![(
            "a".to_string(),
            dep_with(
                "1.0.0",
                vec![(
                    "b".to_string(),
                    dep_with("2.0.0", vec![("c".to_string(), dep("3.0.0"))]),
                )],
            ),
        )],
    };
    let observed = vec![ObservedNode {
        probe: installed("1.0.0"),
        children: vec![ObservedNode {
            probe: installed("2.0.0"),
            children: vec![leaf(ProbeOutcome::Missing)],
        }],
    }];
    let result = run(&root, &observed);
    assert_eq!(result.discrepancies.len(), 1);
    assert!(result.discrepancies[0].package_name == "c");
    assert!(result.discrepancies[0].expected_version == "3.0.0");
    assert!(result.discrepancies[0].actual_version == "None");
    assert_eq!(result.visited, 3);
}
