use sizetrail::adapters::homebrew::{
    describe_version, head_target, is_keg_rule, keg_identity, layout_for, loose_reference,
    packed_reference, pattern_base, prefix_for_report, probe_version, reference_ok,
    store_identity, under_sandbox, valid_sha, version_start, HeadTarget, PatternBase, VersionStage,
    VersionStep,
};
use sizetrail::adapters::{AdapterDegradedReason, AdapterState, InventoryIdentity};

const SHA: &str = "0123456789abcdef0123456789abcdef01234567";

/// Reads the Homebrew version from a repository whose `.git` directory holds `HEAD`,
/// the loose file of `refs/heads/stable` when given, `packed-refs` when given, and
/// the describe-cache entry of the commit when given.
fn version_of(head: &str, loose: Option<&str>, packed: Option<&str>, describe: Option<&str>) -> AdapterState {
    let describe_entry = format!("describe-cache/{SHA}");
    let mut step = version_start();
    let mut reads = Vec::new();
    loop {
        match step {
            VersionStep::Read { next, file } => {
                let contents = match file.as_str() {
                    "HEAD" => Some(head),
                    "refs/heads/stable" => loose,
                    "packed-refs" => packed,
                    entry if entry == describe_entry => describe,
                    _ => None,
                };
                reads.push(file);
                step = next.resume(contents.map(str::to_owned));
            }
            VersionStep::Done(state) => {
                assert!(reads.len() <= 4);
                return state;
            }
        }
    }
}

#[test]
fn homebrew_version_reads_a_loose_ref_without_invoking_any_registered_command() {
    assert_eq!(
        version_of("ref: refs/heads/stable\n", Some(SHA), None, Some("6.0.19\n")),
        AdapterState::Ready { version: "6.0.19".to_owned() }
    );
}

#[test]
fn homebrew_version_accepts_a_detached_head() {
    assert_eq!(
        version_of(SHA, None, None, Some("6.0.19\n")),
        AdapterState::Ready { version: "6.0.19".to_owned() }
    );
}

#[test]
fn homebrew_version_falls_back_to_packed_refs() {
    let packed = format!("# pack-refs with: peeled fully-peeled sorted\n{SHA} refs/heads/stable\n");
    assert_eq!(
        version_of("ref: refs/heads/stable\n", None, Some(&packed), Some("6.0.19\n")),
        AdapterState::Ready { version: "6.0.19".to_owned() }
    );
}

#[test]
fn missing_homebrew_version_metadata_is_an_explicit_degraded_state() {
    assert_eq!(
        version_of("ref: refs/heads/stable\n", None, None, None),
        AdapterState::Degraded {
            observed_version: None,
            reason: AdapterDegradedReason::UnknownVersion,
        }
    );
}

#[test]
fn references_and_hashes_are_checked_before_they_are_followed() {
    assert!(valid_sha(SHA));
    assert!(!valid_sha("0123"));
    assert!(valid_sha(&SHA.to_uppercase()));
    assert!(valid_sha(&"ab".repeat(32)));
    assert!(!valid_sha(&"g".repeat(40)));
    assert!(reference_ok("refs/heads/stable"));
    assert!(!reference_ok("refs/../../etc/passwd"));
    assert!(!reference_ok("heads/stable"));
    assert_eq!(loose_reference("not a sha\n"), None);
    assert_eq!(packed_reference(&format!("{SHA} refs/heads/other\n"), "refs/heads/stable"), None);
    assert_eq!(describe_version("6.0.19 extra\n"), None);
    assert!(head_target("garbage").is_none());
}

#[test]
fn sandboxed_prefixes_live_below_the_root_but_report_their_real_location() {
    assert_eq!(under_sandbox(Some("/tmp/fixture"), "/opt/homebrew"), "/tmp/fixture/opt/homebrew");
    assert_eq!(under_sandbox(None, "/opt/homebrew"), "/opt/homebrew");
    assert_eq!(prefix_for_report("/tmp/fixture/opt/homebrew", Some("/tmp/fixture")), "/opt/homebrew");
    assert_eq!(prefix_for_report("/tmp/fixture/usr/local", Some("/tmp/fixture")), "/usr/local");
    assert_eq!(prefix_for_report("/opt/homebrew", None), "/opt/homebrew");
}

#[test]
fn a_prefix_needs_brew_and_a_cellar_or_caskroom() {
    assert!(layout_for("/opt/homebrew", "/opt/homebrew", None, true, false, false, false).is_none());
    assert!(layout_for("/opt/homebrew", "/opt/homebrew", None, false, true, true, false).is_none());
    let layout = layout_for("/usr/local", "/usr/local/Homebrew", None, true, true, false, false)
        .expect("prefix with a Cellar");
    assert_eq!(layout.prefix, "/usr/local");
    assert_eq!(layout.repository, "/usr/local/Homebrew");
    assert_eq!(layout.cellar.as_deref(), Some("/usr/local/Cellar"));
}

#[test]
fn kegs_are_named_by_their_rack_and_version() {
    let identity = keg_identity(
        "/opt/homebrew/Cellar/wget/1.24.5",
        Some(br#"{"installed_on_request":true,"time":1}"#.as_slice()),
    );
    assert_eq!(
        identity,
        InventoryIdentity::HomebrewKeg {
            formula: "wget".to_owned(),
            version: "1.24.5".to_owned(),
            installed_on_request: Some(true),
        }
    );
    assert!(matches!(
        keg_identity("/opt/homebrew/Cellar/wget/1.24.5", Some(b"{".as_slice())),
        InventoryIdentity::HomebrewKeg { installed_on_request: None, .. }
    ));
}

#[test]
fn patterns_are_anchored_at_home_prefix_or_cellar() {
    assert!(matches!(pattern_base("~/Library/Logs/Homebrew"), Some(PatternBase::Home(rest)) if rest == "Library/Logs/Homebrew"));
    assert!(matches!(pattern_base("$PREFIX/Caskroom/*"), Some(PatternBase::Prefix(rest)) if rest == "Caskroom/*"));
    assert!(matches!(pattern_base("$CELLAR/*/*"), Some(PatternBase::Cellar(rest)) if rest == "*/*"));
    assert!(pattern_base("/opt/homebrew").is_none());
}

#[test]
fn only_cellar_stores_carry_a_keg_identity() {
    assert!(is_keg_rule("homebrew.cellar"));
    assert!(!is_keg_rule("homebrew.caskroom"));
    assert_eq!(
        store_identity("homebrew.logs", "/opt/homebrew/Cellar/wget/1.25.0", None),
        InventoryIdentity::Path
    );
    assert_eq!(
        store_identity(
            "homebrew.cellar",
            "/opt/homebrew/Cellar/wget/1.25.0",
            Some(br#"{"installed_on_request":true}"#),
        ),
        InventoryIdentity::HomebrewKeg {
            formula: "wget".to_owned(),
            version: "1.25.0".to_owned(),
            installed_on_request: Some(true),
        }
    );
}

#[test]
fn a_present_but_invalid_loose_ref_is_not_replaced_by_packed_refs() {
    let packed = format!("{SHA} refs/heads/stable\n");
    assert_eq!(
        version_of("ref: refs/heads/stable\n", Some("not a sha\n"), Some(&packed), Some("6.0.19\n")),
        AdapterState::Degraded { observed_version: None, reason: AdapterDegradedReason::UnknownVersion }
    );
    assert!(matches!(
        VersionStage::Head.resume(Some("ref: refs/../../etc/passwd\n".to_owned())),
        VersionStep::Done(AdapterState::Degraded { .. })
    ));
    match VersionStage::Head.resume(Some(format!("{SHA}\n"))) {
        VersionStep::Read { next: VersionStage::Describe, file } => {
            assert_eq!(file, format!("describe-cache/{SHA}"))
        }
        other => panic!("a detached head goes to its describe-cache entry, got {other:?}"),
    }
}
