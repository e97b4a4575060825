use sizetrail::rules::{
    builtin_rules, compiled_adapter_ids, default_selected, invalid, validate_rules, Mechanism,
    Preconditions, Recoverability, Rule, RuleError, RuleSubjectPattern, Sensitivity,
};

fn rule(id: &str, recoverability: Recoverability, sensitivity: Sensitivity) -> Rule {
    Rule {
        id: id.to_owned(),
        adapter: "xcode".to_owned(),
        title: "Fixture".to_owned(),
        description: "A fixture rule.".to_owned(),
        subjects: vec![RuleSubjectPattern::FilesystemPath {
            pattern: "~/Library/Developer/Xcode/DerivedData/*/Build".to_owned(),
        }],
        os: ">=13.0".to_owned(),
        mechanism: Mechanism::Generated,
        recoverability,
        sensitivity,
        evidence: "The next build recreates it.".to_owned(),
        fixture_id: "xcode-derived-data-build".to_owned(),
        preconditions: Preconditions { process_not_running: vec!["Xcode".to_owned()] },
        selection_override: None,
        override_reason: None,
    }
}

#[test]
fn selection_is_derived_from_orthogonal_fields() {
    let derived = rule("xcode.derived_data_build", Recoverability::RebuildTimeCost, Sensitivity::Low);
    let archives = rule("xcode.archives", Recoverability::Unrecoverable, Sensitivity::High);

    assert!(default_selected(&derived, true));
    assert!(!default_selected(&derived, false));
    assert!(!default_selected(&archives, true));

    let bandwidth = rule("xcode.fixture", Recoverability::RedownloadBandwidth, Sensitivity::Low);
    assert!(default_selected(&bandwidth, true));
    let medium = rule("xcode.fixture", Recoverability::RedownloadBandwidth, Sensitivity::Medium);
    assert!(!default_selected(&medium, true));
}

#[test]
fn an_override_with_its_reason_decides_selection() {
    let mut archives = rule("xcode.archives", Recoverability::Unrecoverable, Sensitivity::High);
    archives.selection_override = Some(true);
    archives.override_reason = Some("Archives are reviewed one by one.".to_owned());
    assert!(default_selected(&archives, false));
    assert!(!invalid(&archives));

    let mut derived = rule("xcode.derived_data_build", Recoverability::RebuildTimeCost, Sensitivity::Low);
    derived.selection_override = Some(false);
    derived.override_reason = Some("Kept for a fixture.".to_owned());
    assert!(!default_selected(&derived, true));
}

#[test]
fn arbitrary_commands_are_not_part_of_the_rule_schema() {
    assert_eq!(
        validate_rules(Err("unknown field `command`, expected one of `id`, `adapter`".to_owned())),
        Err(RuleError::UnknownField)
    );
    assert_eq!(
        validate_rules(Err("invalid type: integer, expected a string".to_owned())),
        Err(RuleError::Invalid)
    );
}

#[test]
fn toolchain_object_set_rules_are_typed_and_never_accept_commands() {
    let mut objects = rule("xcode.fixture_objects", Recoverability::RedownloadBandwidth, Sensitivity::Medium);
    objects.subjects = vec![RuleSubjectPattern::ToolchainObjectSet {
        object_set_id: "xcode.fixture_objects".to_owned(),
    }];
    let rules = validate_rules(Ok(vec![objects])).expect("typed object-set rule must validate");
    assert_eq!(
        rules[0].subjects,
        [RuleSubjectPattern::ToolchainObjectSet {
            object_set_id: "xcode.fixture_objects".to_owned()
        }]
    );
    assert!(rules[0].filesystem_patterns().is_empty());
}

#[test]
fn each_schema_constraint_rejects_the_rule() {
    let valid = rule("xcode.derived_data_build", Recoverability::RebuildTimeCost, Sensitivity::Low);
    assert!(!invalid(&valid));

    let mut blank_id = valid.clone();
    blank_id.id = "  ".to_owned();
    let mut no_subjects = valid.clone();
    no_subjects.subjects.clear();
    let mut blank_pattern = valid.clone();
    blank_pattern.subjects = vec![RuleSubjectPattern::FilesystemPath { pattern: "\t".to_owned() }];
    let mut newer_os = valid.clone();
    newer_os.os = ">=14.0".to_owned();
    let mut no_evidence = valid.clone();
    no_evidence.evidence = String::new();
    let mut unknown_adapter = valid.clone();
    unknown_adapter.adapter = "cargo".to_owned();
    let mut override_without_reason = valid.clone();
    override_without_reason.selection_override = Some(true);
    let mut blank_reason = valid.clone();
    blank_reason.selection_override = Some(true);
    blank_reason.override_reason = Some(" ".to_owned());

    for broken in [
        blank_id,
        no_subjects,
        blank_pattern,
        newer_os,
        no_evidence,
        unknown_adapter,
        override_without_reason,
        blank_reason,
    ] {
        assert!(invalid(&broken));
        assert_eq!(validate_rules(Ok(vec![valid.clone(), broken])), Err(RuleError::Invalid));
    }
    assert_eq!(validate_rules(Ok(Vec::new())), Err(RuleError::Invalid));
}

#[test]
fn the_compiled_rule_set_joins_the_files_in_order() {
    let homebrew = rule("homebrew.logs", Recoverability::Unrecoverable, Sensitivity::High);
    let mut homebrew = homebrew;
    homebrew.adapter = "homebrew".to_owned();
    let xcode = rule("xcode.derived_data_build", Recoverability::RebuildTimeCost, Sensitivity::Low);
    let mut docker = rule("docker.images", Recoverability::RedownloadBandwidth, Sensitivity::Medium);
    docker.adapter = "docker".to_owned();
    let rules = builtin_rules(Ok(vec![homebrew.clone()]), Ok(vec![xcode.clone()]), Ok(vec![docker.clone()]))
        .expect("all files validate");
    assert_eq!(rules, vec![homebrew.clone(), xcode.clone(), docker.clone()]);

    assert_eq!(
        builtin_rules(Ok(vec![homebrew.clone()]), Err("unknown field `command`".to_owned()), Ok(vec![docker.clone()])),
        Err(RuleError::UnknownField)
    );
    assert_eq!(
        builtin_rules(Ok(Vec::new()), Err("unknown field `command`".to_owned()), Ok(vec![docker])),
        Err(RuleError::Invalid)
    );
    assert_eq!(
        builtin_rules(Ok(vec![homebrew]), Ok(vec![xcode]), Ok(Vec::new())),
        Err(RuleError::Invalid)
    );
}

#[test]
fn compiled_adapters_and_field_names() {
    assert_eq!(compiled_adapter_ids(), ["docker", "homebrew", "xcode"]);
    assert_eq!(Mechanism::UserAdjacent.as_str(), "user_adjacent");
    assert_eq!(Recoverability::RequiresExternalDevice.as_str(), "requires_external_device");
    assert_eq!(Sensitivity::Medium.as_str(), "medium");
    let valid = rule("xcode.derived_data_build", Recoverability::RebuildTimeCost, Sensitivity::Low);
    assert_eq!(
        valid.filesystem_patterns(),
        vec!["~/Library/Developer/Xcode/DerivedData/*/Build".to_owned()]
    );
}
