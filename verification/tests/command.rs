use sizetrail::command::{
    doctor_ready, exclude_gate, explain_source, live_lookup, resolve_exclude, scan_exit_status, settle_excludes,
    ExcludeError, ExcludeGate, ExplainError, ExplainSource, LiveLookup, USAGE_EXIT_STATUS,
};
use sizetrail::capacity::CapacityReport;
use sizetrail::model::{EnvironmentEnvelope, Finding, FindingSubject, RegionStatus};
use sizetrail::scan::{excluded_adapter_report, scan, unmeasurable_adapter_report};

const ROOT: &str = "/private/var/home/fixture";
const REQUESTED: &str = "/Users/fixture";

#[test]
fn exclusions_resolve_under_the_physical_root() {
    assert_eq!(
        resolve_exclude(ROOT, REQUESTED, "/Users/fixture/Library/Developer/Xcode/Archives").as_deref(),
        Ok("/private/var/home/fixture/Library/Developer/Xcode/Archives")
    );
    assert_eq!(
        resolve_exclude(ROOT, REQUESTED, "Library/Developer/CoreSimulator/Devices").as_deref(),
        Ok("/private/var/home/fixture/Library/Developer/CoreSimulator/Devices")
    );
    assert_eq!(
        resolve_exclude(ROOT, REQUESTED, "/private/var/home/fixture/Library/Developer").as_deref(),
        Ok("/private/var/home/fixture/Library/Developer")
    );
}

#[test]
fn exclusions_refuse_globs_escapes_and_unrelated_paths() {
    assert_eq!(
        resolve_exclude(ROOT, REQUESTED, "Library/Developer/Xcode/*"),
        Err(ExcludeError::GlobSyntax)
    );
    assert_eq!(
        resolve_exclude(ROOT, REQUESTED, "Library/Developer/Xcode/[ab]"),
        Err(ExcludeError::GlobSyntax)
    );
    assert_eq!(
        resolve_exclude(ROOT, REQUESTED, "../other/Library/Developer/Xcode"),
        Err(ExcludeError::NotUnderRoot)
    );
    assert_eq!(
        resolve_exclude(ROOT, REQUESTED, "/Volumes/External/Xcode"),
        Err(ExcludeError::NotUnderRoot)
    );
    assert_eq!(
        resolve_exclude(ROOT, REQUESTED, "Documents"),
        Err(ExcludeError::NoScanRoot)
    );
}

#[test]
fn exclusion_sets_are_ordered_and_hold_each_path_once() {
    let settled = settle_excludes(vec![
        "/r/Library/Developer/Xcode/b".to_owned(),
        "/r/Library/Developer/Xcode/a".to_owned(),
        "/r/Library/Developer/Xcode/b/".to_owned(),
        "/r/Library/Developer/CoreSimulator".to_owned(),
    ]);
    assert_eq!(
        settled,
        [
            "/r/Library/Developer/CoreSimulator",
            "/r/Library/Developer/Xcode/a",
            "/r/Library/Developer/Xcode/b",
        ]
    );
}

#[test]
fn exit_status_is_three_only_when_a_region_is_unmeasurable() {
    let environment = || {
        EnvironmentEnvelope::from_observed(1, None, Some("/Users/fixture".to_owned()), None)
    };
    let complete = scan(
        environment(),
        CapacityReport { status: RegionStatus::Complete, values: Vec::new() },
        vec![excluded_adapter_report("xcode")],
    );
    assert_eq!(scan_exit_status(&complete), 0);
    let unmeasurable = scan(
        environment(),
        CapacityReport { status: RegionStatus::Complete, values: Vec::new() },
        vec![unmeasurable_adapter_report("xcode")],
    );
    assert_eq!(scan_exit_status(&unmeasurable), 3);
    assert_eq!(unmeasurable.environment.hostname, "unknown");
}

#[test]
fn doctor_is_ready_only_for_a_readable_root_and_a_settled_region() {
    assert!(doctor_ready(true, RegionStatus::Complete));
    assert!(doctor_ready(true, RegionStatus::NotPresent));
    assert!(doctor_ready(true, RegionStatus::ExcludedByUser));
    assert!(!doctor_ready(true, RegionStatus::Unmeasurable));
    assert!(!doctor_ready(false, RegionStatus::Complete));
}

fn finding(id: &str) -> Finding {
    Finding {
        id: id.to_owned(),
        adapter_id: "xcode".to_owned(),
        rule_id: "xcode.archives".to_owned(),
        title: "Archives".to_owned(),
        summary: String::new(),
        subject: FindingSubject::FilesystemPath {
            normalized_path: "~/Library/Developer/Xcode/Archives".to_owned(),
        },
        mechanism: "user_artifact".to_owned(),
        recoverability: "user_data".to_owned(),
        sensitivity: "high".to_owned(),
        evidence: "Xcode keeps archives here.".to_owned(),
        unexplained_private_gap: true,
        measurements: Vec::new(),
        observations: Vec::new(),
        advice: Vec::new(),
    }
}

#[test]
fn explanations_need_a_known_id_version_and_a_compiled_adapter() {
    assert_eq!(explain_source("f2:xcode:abc", true), Err(ExplainError::UnknownAlgorithm));
    assert_eq!(explain_source("xcode:abc", false), Err(ExplainError::UnknownAlgorithm));
    assert_eq!(explain_source("f1:homebrew:abc", true), Ok(ExplainSource::Snapshot));
    assert_eq!(explain_source("f1:xcode:abc", true), Ok(ExplainSource::Snapshot));
    assert_eq!(explain_source("f1:xcode:abc", false), Ok(ExplainSource::LiveXcode));
    assert_eq!(explain_source("f1:homebrew:abc", false), Err(ExplainError::AdapterNotCompiled));
}

#[test]
fn a_live_rescan_finds_the_first_match_or_says_why_it_cannot() {
    let findings = vec![finding("f1:xcode:a"), finding("f1:xcode:b"), finding("f1:xcode:b")];
    assert_eq!(live_lookup(&findings, "f1:xcode:b", RegionStatus::Complete), LiveLookup::Found(1));
    assert_eq!(
        live_lookup(&findings, "f1:xcode:c", RegionStatus::Complete),
        LiveLookup::NotFoundAfterRescan
    );
    assert_eq!(
        live_lookup(&findings, "f1:xcode:c", RegionStatus::Unmeasurable),
        LiveLookup::RescanUnmeasurable
    );
    assert_eq!(live_lookup(&Vec::new(), "f1:xcode:a", RegionStatus::NotPresent), LiveLookup::RescanUnmeasurable);
}

#[test]
fn exclusions_are_refused_before_the_scan_when_nothing_can_check_them() {
    assert_eq!(exclude_gate(1, false, true), ExcludeGate::NoEnabledRoot);
    assert_eq!(exclude_gate(0, false, false), ExcludeGate::Skip);
    assert_eq!(exclude_gate(2, true, true), ExcludeGate::Resolve);
    assert_eq!(exclude_gate(0, true, true), ExcludeGate::Resolve);
    assert_eq!(exclude_gate(1, true, false), ExcludeGate::RootUnavailable);
    assert_eq!(exclude_gate(0, true, false), ExcludeGate::Skip);
    assert_eq!(USAGE_EXIT_STATUS, 2);
}
