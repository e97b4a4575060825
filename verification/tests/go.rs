use sizetrail::adapters::go::{
    cache_item, goenv_gap, inventory_gap, observed_version, parse_goenv, parse_verified_version,
    resolved_caches, GoAdapter,
};
use sizetrail::adapters::{AdapterDegradedReason, AdapterState, Inventory, InventoryGapReason};
use sizetrail::model::{normalized_report_path, Advice, AdviceImpact};
use sizetrail::rules::{Mechanism, Preconditions, Recoverability, Rule, RuleSubjectPattern, Sensitivity};

#[test]
fn version_line_accepts_only_the_verified_token() {
    assert_eq!(
        parse_verified_version(b"go version go1.26.6 darwin/arm64\n"),
        Some("go1.26.6".to_owned())
    );
    assert_eq!(
        parse_verified_version(b"go version go1.25.0 darwin/arm64\n"),
        None
    );
    assert_eq!(
        observed_version(b"go version go1.25.0 darwin/amd64\n").as_deref(),
        Some("go1.25.0")
    );
}

#[test]
fn goenv_overrides_only_absolute_cache_keys() {
    let parsed = parse_goenv(
        b"GOROOT=/opt/homebrew/opt/go/libexec\nGOCACHE=/tmp/gocache\nGOMODCACHE=/tmp/gomod\n",
    )
    .expect("valid goenv");
    assert_eq!(parsed.0, Some("/tmp/gocache".to_owned()));
    assert_eq!(parsed.1, Some("/tmp/gomod".to_owned()));
    assert!(parse_goenv(b"GOCACHE=relative\n").is_none());
}

#[test]
fn goenv_skips_comments_and_rejects_dot_components() {
    let parsed = parse_goenv(b"# comment\n\n  GOCACHE=/a/b  \n").expect("valid goenv");
    assert_eq!(parsed, (Some("/a/b".to_owned()), None));
    assert!(parse_goenv(b"GOMODCACHE=/a/../b\n").is_none());
    assert_eq!(
        parse_goenv(b"GOMODCACHE=/a/./b\n"),
        Some((None, Some("/a/./b".to_owned())))
    );
    assert!(parse_goenv(b"GOCACHE\n").is_none());
    assert!(parse_goenv(&[0xff]).is_none());
    assert_eq!(parse_goenv(b""), Some((None, None)));
}

fn go_rule(id: &str, pattern: &str) -> Rule {
    Rule {
        id: id.to_owned(),
        adapter: "go".to_owned(),
        title: id.to_owned(),
        description: "Go cache.".to_owned(),
        subjects: vec![RuleSubjectPattern::FilesystemPath { pattern: pattern.to_owned() }],
        os: ">=13.0".to_owned(),
        mechanism: Mechanism::VendorManaged,
        recoverability: Recoverability::RebuildTimeCost,
        sensitivity: Sensitivity::Low,
        evidence: "The go command manages this cache.".to_owned(),
        fixture_id: id.replace('.', "-"),
        preconditions: Preconditions::default(),
        selection_override: None,
        override_reason: None,
    }
}

fn cache_inventory() -> Inventory {
    let mut inventory = Inventory::default();
    for (rule_id, path) in resolved_caches("/Users/fixture", &None) {
        let scope = normalized_report_path("/Users/fixture", &path).expect("cache is below home");
        inventory.items.push(cache_item(rule_id, &scope, &path, Vec::new(), Vec::new()));
    }
    inventory
}

#[test]
fn default_caches_sit_below_home_unless_goenv_overrides_them() {
    let defaults = resolved_caches("/Users/fixture", &None);
    assert_eq!(
        defaults,
        vec![
            ("go.build_cache", "/Users/fixture/Library/Caches/go-build".to_owned()),
            ("go.module_cache", "/Users/fixture/go/pkg/mod".to_owned()),
        ]
    );
    let overridden = resolved_caches("/Users/fixture", &Some((None, Some("/Volumes/cache/mod".to_owned()))));
    assert_eq!(overridden[0].1, "/Users/fixture/Library/Caches/go-build");
    assert_eq!(overridden[1].1, "/Volumes/cache/mod");
    let item = cache_item("go.build_cache", "~/Library/Caches/go-build", &defaults[0].1, Vec::new(), Vec::new());
    assert_eq!(item.subject.filesystem_path(), Some("~/Library/Caches/go-build"));
    assert_eq!(item.path.as_deref(), Some("/Users/fixture/Library/Caches/go-build"));
}

#[test]
fn only_a_disabled_or_failed_probe_opens_the_inventory_with_a_gap() {
    let failed = AdapterState::Degraded { observed_version: None, reason: AdapterDegradedReason::ProbeFailed };
    let gap = inventory_gap(&failed).expect("a failed probe is recorded");
    assert_eq!(gap.region, "go");
    assert_eq!(gap.reason, InventoryGapReason::ProbeFailed);
    let disabled = AdapterState::Degraded { observed_version: None, reason: AdapterDegradedReason::Disabled };
    assert_eq!(inventory_gap(&disabled).map(|gap| gap.reason), Some(InventoryGapReason::Disabled));
    let unknown = AdapterState::Degraded {
        observed_version: Some("go1.25.0".to_owned()),
        reason: AdapterDegradedReason::UnknownVersion,
    };
    assert!(inventory_gap(&unknown).is_none());
    assert!(inventory_gap(&AdapterState::NotPresent).is_none());
    assert!(inventory_gap(&AdapterState::Ready { version: "go1.26.6".to_owned() }).is_none());
}

#[test]
fn go_findings_advise_only_the_vendor_clean_commands() {
    let adapter = GoAdapter::new(vec![
        go_rule("go.build_cache", "~/Library/Caches/go-build"),
        go_rule("go.module_cache", "~/go/pkg/mod"),
    ]);
    let findings = adapter.go_classify(&cache_inventory()).expect("both caches classify");
    assert_eq!(findings.len(), 2);
    let mut commands = Vec::new();
    for finding in &findings {
        assert_eq!(finding.adapter_id, "go");
        assert_eq!(finding.advice.len(), 1);
        match &finding.advice[0] {
            Advice::Command(command) => {
                assert!(matches!(command.impact, AdviceImpact::Destructive));
                assert!(!command.reliable_preview_available);
                commands.push(command.display_command.clone());
            }
            other => panic!("Go advice must be a vendor command, got {other:?}"),
        }
    }
    commands.sort();
    assert_eq!(commands, ["go clean -cache", "go clean -modcache"]);
}

#[test]
fn a_cache_without_its_rule_fails_classification() {
    let adapter = GoAdapter::new(vec![go_rule("go.build_cache", "~/Library/Caches/go-build")]);
    assert_eq!(
        adapter.go_classify(&cache_inventory()).map(|findings| findings.len()),
        Err(InventoryGapReason::RuleSetInvalid)
    );
}

#[test]
fn malformed_goenv_is_a_typed_gap_and_does_not_guess() {
    assert!(parse_goenv(b"GOCACHE=relative\n").is_none());
    let gap = goenv_gap("/Users/fixture/Library/Application Support/go/env");
    assert_eq!(gap.reason, InventoryGapReason::InvalidToolOutput);
    assert_eq!(gap.region, "go");
    assert_eq!(gap.path.as_deref(), Some("/Users/fixture/Library/Application Support/go/env"));
}
