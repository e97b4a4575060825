use sizetrail::model::{
    finding_id, normalize_findings, normalized_report_path, Finding, FindingIdError,
    FindingSubject, Measurement, ObservationKind, ObservationRelation, ObservationScope, SignalId,
    SignalObservation,
};

fn fixture_finding(id: &str, observations: Vec<SignalObservation>) -> Finding {
    Finding {
        id: id.to_owned(),
        adapter_id: "xcode".to_owned(),
        rule_id: "xcode.derived_data_build".to_owned(),
        title: "Fixture".to_owned(),
        summary: String::new(),
        subject: FindingSubject::FilesystemPath {
            normalized_path: "~/Library/Developer/Xcode/DerivedData/App/Build".to_owned(),
        },
        mechanism: "generated".to_owned(),
        recoverability: "rebuild_time_cost".to_owned(),
        sensitivity: "low".to_owned(),
        evidence: "fixture evidence".to_owned(),
        unexplained_private_gap: true,
        measurements: Vec::<Measurement>::new(),
        observations,
        advice: Vec::new(),
    }
}

#[test]
fn finding_ids_are_order_independent_and_home_relative() {
    let first_home = "/Users/first";
    let second_home = "/Users/second";
    let first_path = format!("{first_home}/Library/Developer/Xcode/DerivedData/App/Build");
    let second_path = format!("{second_home}/Library/Developer/Xcode/DerivedData/App/Build");
    let first = normalized_report_path(first_home, &first_path).expect("path must normalize");
    let second = normalized_report_path(second_home, &second_path).expect("path must normalize");

    assert_eq!(first, "~/Library/Developer/Xcode/DerivedData/App/Build");
    assert_eq!(first, second);
    assert_eq!(
        finding_id("xcode", "xcode.derived_data_build", &first),
        finding_id("xcode", "xcode.derived_data_build", &second)
    );
    assert!(
        finding_id("xcode", "xcode.derived_data_build", &first)
            .expect("id inputs are valid")
            .starts_with("f1:xcode:")
    );
}

#[test]
fn finding_id_set_does_not_depend_on_discovery_order() {
    let paths = [
        "~/Library/Developer/Xcode/Archives/A",
        "~/Library/Developer/Xcode/Archives/B",
    ];
    let mut forward = paths
        .iter()
        .map(|path| finding_id("xcode", "xcode.archives", path).expect("valid id"))
        .collect::<Vec<_>>();
    let mut reverse = paths
        .iter()
        .rev()
        .map(|path| finding_id("xcode", "xcode.archives", path).expect("valid id"))
        .collect::<Vec<_>>();
    forward.sort();
    reverse.sort();

    assert_eq!(forward, reverse);
}

#[test]
fn structured_signals_have_a_deterministic_lossy_summary_order() {
    let compressed = SignalObservation {
        observation: ObservationKind::Direct,
        signal: SignalId::FilesystemCompressed,
        relation: ObservationRelation::TestedWidthCorrelate,
        scope: ObservationScope::Object,
    };
    let sharing = SignalObservation {
        observation: ObservationKind::Direct,
        signal: SignalId::MayShareBlocks,
        relation: ObservationRelation::PossibleWidthExplanation,
        scope: ObservationScope::Inode,
    };
    let mut findings = vec![fixture_finding("f1:xcode:bbbbbbbbbbbbbbbb", vec![sharing, compressed])];

    normalize_findings(&mut findings);

    assert_eq!(
        findings[0].observations[0].signal,
        SignalId::FilesystemCompressed
    );
    assert_eq!(
        findings[0].summary,
        "compressed storage makes the private floor uninformative"
    );
    assert_eq!(findings[0].observations.len(), 2);
}

#[test]
fn repeated_observations_collapse_and_signal_free_findings_come_last() {
    let sharing = SignalObservation {
        observation: ObservationKind::Direct,
        signal: SignalId::MayShareBlocks,
        relation: ObservationRelation::PossibleWidthExplanation,
        scope: ObservationScope::Inode,
    };
    let mut findings = vec![
        fixture_finding("f1:xcode:0000000000000001", Vec::new()),
        fixture_finding("f1:xcode:0000000000000002", vec![sharing, sharing]),
    ];
    normalize_findings(&mut findings);
    assert_eq!(findings[0].id, "f1:xcode:0000000000000002");
    assert_eq!(findings[0].observations.len(), 1);
    assert_eq!(
        findings[0].summary,
        "clone sharing may contribute to allocation uncertainty"
    );
    assert_eq!(findings[1].id, "f1:xcode:0000000000000001");
    assert_eq!(findings[1].summary, "no allocation signal observed");
}

#[test]
fn filesystem_and_toolchain_subjects_have_disjoint_canonical_keys() {
    let path = FindingSubject::FilesystemPath {
        normalized_path: "~/Library/Containers/com.docker.docker".to_owned(),
    };
    let object_set = FindingSubject::ToolchainObjectSet {
        object_set_id: "docker.images".to_owned(),
    };

    assert_eq!(
        path.canonical_key().expect("path subject must be valid"),
        "~/Library/Containers/com.docker.docker"
    );
    assert_eq!(
        object_set
            .canonical_key()
            .expect("object-set subject must be valid"),
        "object_set:docker.images"
    );
    assert_eq!(
        path.filesystem_path(),
        Some("~/Library/Containers/com.docker.docker")
    );
    assert_eq!(object_set.filesystem_path(), None);
    assert_ne!(
        finding_id(
            "docker",
            "docker.images",
            &path.canonical_key().expect("path key")
        ),
        finding_id(
            "docker",
            "docker.images",
            &object_set.canonical_key().expect("object-set key")
        )
    );
}

#[test]
fn finding_id_inputs_reject_ambiguous_components() {
    assert_eq!(
        finding_id("xcode:other", "rule", "~/path"),
        Err(FindingIdError::InvalidAdapterId)
    );
    assert_eq!(
        finding_id("xcode", "rule", "../path"),
        Err(FindingIdError::InvalidNormalizedPath)
    );
}

#[test]
fn report_paths_outside_home_stay_absolute_and_relative_paths_are_refused() {
    assert_eq!(
        normalized_report_path("/Users/first", "/opt/homebrew/Cellar").as_deref(),
        Ok("/opt/homebrew/Cellar")
    );
    assert_eq!(
        normalized_report_path("/Users/first", "/Users/first").as_deref(),
        Ok("~")
    );
    assert_eq!(
        normalized_report_path("/Users/first", "Library"),
        Err(FindingIdError::InvalidNormalizedPath)
    );
    assert_eq!(
        normalized_report_path("/Users/first", "/Users/first/../other"),
        Err(FindingIdError::InvalidNormalizedPath)
    );
}

fn observation(
    kind: ObservationKind,
    signal: SignalId,
    relation: ObservationRelation,
    scope: ObservationScope,
) -> SignalObservation {
    SignalObservation { observation: kind, signal, relation, scope }
}

#[test]
fn findings_are_ordered_by_relation_then_signal_then_scope_then_id() {
    let hardlinks = observation(
        ObservationKind::Direct,
        SignalId::MultipleHardlinks,
        ObservationRelation::DeletionScope,
        ObservationScope::Inode,
    );
    let compressed = observation(
        ObservationKind::Derived,
        SignalId::FilesystemCompressed,
        ObservationRelation::TestedWidthCorrelate,
        ObservationScope::Object,
    );
    let sparse = observation(
        ObservationKind::Direct,
        SignalId::Sparse,
        ObservationRelation::TestedWidthCorrelate,
        ObservationScope::Object,
    );
    let mut findings = vec![
        fixture_finding("f1:xcode:a", vec![hardlinks]),
        fixture_finding("f1:xcode:d", vec![sparse]),
        fixture_finding("f1:xcode:c", vec![compressed]),
        fixture_finding("f1:xcode:b", vec![compressed]),
    ];
    normalize_findings(&mut findings);
    let ids = findings.iter().map(|f| f.id.as_str()).collect::<Vec<_>>();
    assert_eq!(ids, ["f1:xcode:b", "f1:xcode:c", "f1:xcode:d", "f1:xcode:a"]);
}

#[test]
fn normalized_observations_keep_equal_priority_observations_in_arrival_order() {
    let direct = observation(
        ObservationKind::Direct,
        SignalId::MayShareBlocks,
        ObservationRelation::PossibleWidthExplanation,
        ObservationScope::Inode,
    );
    let derived = SignalObservation { observation: ObservationKind::Derived, ..direct };
    let mut findings = vec![fixture_finding("f1:xcode:a", vec![direct, derived, direct])];
    normalize_findings(&mut findings);
    assert_eq!(findings[0].observations, vec![direct, derived, direct]);
}

#[test]
fn normalized_observations_drop_an_adjacent_repeat() {
    let direct = observation(
        ObservationKind::Direct,
        SignalId::MayShareBlocks,
        ObservationRelation::PossibleWidthExplanation,
        ObservationScope::Inode,
    );
    let derived = SignalObservation { observation: ObservationKind::Derived, ..direct };
    let mut findings = vec![fixture_finding("f1:xcode:a", vec![direct, direct, derived])];
    normalize_findings(&mut findings);
    assert_eq!(findings[0].observations, vec![direct, derived]);
}

#[test]
fn report_paths_are_accepted_as_finding_subjects() {
    let home = "/Users/fixture";
    for (path, expected) in [
        ("/Users/fixture", "~"),
        ("/Users/fixture/Library/Caches/go-build", "~/Library/Caches/go-build"),
        ("/opt/homebrew/Cellar", "/opt/homebrew/Cellar"),
    ] {
        let spelled = normalized_report_path(home, path).expect("normalized absolute path");
        assert_eq!(spelled, expected);
        assert!(finding_id("go", "go.build_cache", &spelled).is_ok());
    }
}
