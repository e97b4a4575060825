use sizetrail::adapters::{AdapterDegradedReason, AdapterState, InventoryGap, InventoryGapReason, InventoryStage};
use sizetrail::capacity::CapacityReport;
use sizetrail::model::{
    CoverageGap, CoverageGapReason, EnvironmentEnvelope, MeasurementPlane, RegionStatus,
    SCHEMA_VERSION, TOOL_VERSION,
};
use sizetrail::scan::{
    adapter_report, excluded_adapter_report, scan, unmeasurable_adapter_report, AdapterReport,
};

fn environment() -> EnvironmentEnvelope {
    EnvironmentEnvelope::from_observed(
        1_800_000_000,
        Some("fixture-host".to_owned()),
        Some("/Users/fixture".to_owned()),
        None,
    )
}

fn report(id: &str) -> AdapterReport {
    AdapterReport {
        id: id.to_owned(),
        status: RegionStatus::NotPresent,
        tool_version: None,
        warnings: Vec::new(),
        findings: Vec::new(),
        coverage_gaps: Vec::new(),
    }
}

fn complete_capacity() -> CapacityReport {
    CapacityReport { status: RegionStatus::Complete, values: Vec::new() }
}

fn region_ids(document: &sizetrail::model::ScanDocument) -> Vec<String> {
    document.payload.regions.iter().map(|region| region.id.clone()).collect()
}

#[test]
fn adapter_arrival_order_does_not_change_the_payload() {
    let first = scan(environment(), complete_capacity(), vec![report("z-last"), report("a-first")]);
    let second = scan(environment(), complete_capacity(), vec![report("a-first"), report("z-last")]);

    assert_eq!(region_ids(&first), ["capacity", "a-first", "z-last"]);
    assert_eq!(region_ids(&first), region_ids(&second));
    assert_eq!(first.payload.coverage_gaps.len(), 0);
    assert_eq!(second.payload.coverage_gaps.len(), 0);
    assert_eq!(first.schema_version, SCHEMA_VERSION);
    assert_eq!(first.tool_version, TOOL_VERSION);
    assert_eq!(first.environment.hostname, "fixture-host");
    assert_eq!(first.environment.home, "/Users/fixture");
}

#[test]
fn adapter_failure_and_user_exclusion_remain_distinct_document_states() {
    let failed = AdapterReport {
        id: "xcode".to_owned(),
        status: RegionStatus::Unmeasurable,
        tool_version: Some("Fixture".to_owned()),
        warnings: vec!["fixture warning".to_owned()],
        findings: Vec::new(),
        coverage_gaps: vec![CoverageGap {
            id: "xcode.simctl.timeout".to_owned(),
            plane: MeasurementPlane::ToolchainAttribution,
            region: "xcode".to_owned(),
            path: None,
            status: RegionStatus::Unmeasurable,
            reason: CoverageGapReason::TimedOut,
            stage: Some("simctl_devices".to_owned()),
            errno: None,
        }],
    };
    let excluded = excluded_adapter_report("homebrew");
    let document = scan(environment(), complete_capacity(), vec![excluded, failed]);

    assert_eq!(document.payload.regions[1].id, "homebrew");
    assert_eq!(document.payload.regions[1].status, RegionStatus::ExcludedByUser);
    assert_eq!(document.payload.regions[2].id, "xcode");
    assert_eq!(document.payload.regions[2].status, RegionStatus::Unmeasurable);
    assert_eq!(document.payload.regions[2].warnings, vec!["fixture warning".to_owned()]);
    assert_eq!(document.payload.coverage_gaps[0].reason, CoverageGapReason::TimedOut);
}

#[test]
fn a_scan_without_adapters_and_an_unmeasurable_capacity_says_both() {
    let capacity = CapacityReport { status: RegionStatus::Unmeasurable, values: Vec::new() };
    let document = scan(environment(), capacity, Vec::new());
    assert_eq!(region_ids(&document), ["capacity"]);
    assert_eq!(document.payload.regions[0].status, RegionStatus::Unmeasurable);
    let ids = document
        .payload
        .coverage_gaps
        .iter()
        .map(|gap| gap.id.as_str())
        .collect::<Vec<_>>();
    assert_eq!(ids, ["p1.toolchain_adapters", "p2.capacity"]);
    assert_eq!(document.payload.coverage_gaps[0].reason, CoverageGapReason::NoAdaptersCompiled);
    assert_eq!(document.payload.coverage_gaps[1].reason, CoverageGapReason::RootUnmeasurable);
    assert_eq!(document.payload.coverage_gaps[1].stage.as_deref(), Some("capacity_measurement"));
}

#[test]
fn an_adapter_whose_root_failed_has_one_typed_gap() {
    let report = unmeasurable_adapter_report("xcode");
    assert_eq!(report.status, RegionStatus::Unmeasurable);
    assert_eq!(report.coverage_gaps.len(), 1);
    assert_eq!(report.coverage_gaps[0].id, "xcode.root_unmeasurable");
    assert_eq!(report.coverage_gaps[0].reason, CoverageGapReason::RootUnmeasurable);
    let excluded = excluded_adapter_report("xcode");
    assert_eq!(excluded.status, RegionStatus::ExcludedByUser);
    assert!(excluded.coverage_gaps.is_empty());
}

#[test]
fn adapter_gaps_are_ordered_numbered_and_followed_by_exclusions() {
    let gaps = vec![
        InventoryGap {
            region: "xcode.simulator",
            path: Some("/Users/fixture/Library/Developer/CoreSimulator/Devices".to_owned()),
            reason: InventoryGapReason::AccessDenied,
            stage: Some(InventoryStage::ListDirectory),
            errno: Some(13),
        },
        InventoryGap {
            region: "xcode.derived_data",
            path: None,
            reason: InventoryGapReason::TimedOut,
            stage: None,
            errno: None,
        },
    ];
    let excludes = vec!["/Users/fixture/Library/Developer/Xcode/Archives".to_owned()];
    let report = adapter_report(
        "xcode",
        "/Users/fixture",
        AdapterState::Ready { version: "16.4 (16F6)".to_owned() },
        gaps,
        Vec::new(),
        Vec::new(),
        &excludes,
    );
    assert_eq!(report.status, RegionStatus::Unmeasurable);
    assert_eq!(report.tool_version.as_deref(), Some("16.4 (16F6)"));
    let ids = report.coverage_gaps.iter().map(|gap| gap.id.as_str()).collect::<Vec<_>>();
    assert_eq!(
        ids,
        ["xcode.timed_out.0", "xcode.access_denied.1", "xcode.excluded_by_user.0"]
    );
    assert_eq!(report.coverage_gaps[0].region, "xcode.derived_data");
    assert_eq!(
        report.coverage_gaps[1].path.as_deref(),
        Some("~/Library/Developer/CoreSimulator/Devices")
    );
    assert_eq!(report.coverage_gaps[1].stage.as_deref(), Some("list_directory"));
    assert_eq!(report.coverage_gaps[1].errno, Some(13));
    assert_eq!(report.coverage_gaps[2].status, RegionStatus::ExcludedByUser);
    assert_eq!(
        report.coverage_gaps[2].path.as_deref(),
        Some("~/Library/Developer/Xcode/Archives")
    );
}

#[test]
fn adapter_states_decide_the_region_status() {
    let complete = adapter_report(
        "xcode",
        "/Users/fixture",
        AdapterState::Ready { version: "16.4 (16F6)".to_owned() },
        Vec::new(),
        Vec::new(),
        Vec::new(),
        &["/Users/fixture/Library/Developer/Xcode/Archives".to_owned()],
    );
    assert_eq!(complete.status, RegionStatus::Complete);
    let absent = adapter_report("xcode", "/Users/fixture", AdapterState::NotPresent, Vec::new(), Vec::new(), Vec::new(), &[]);
    assert_eq!(absent.status, RegionStatus::NotPresent);
    assert_eq!(absent.tool_version, None);
    let degraded = adapter_report(
        "xcode",
        "/Users/fixture",
        AdapterState::Degraded {
            observed_version: Some("999.0 (Fixture)".to_owned()),
            reason: AdapterDegradedReason::UnknownVersion,
        },
        Vec::new(),
        Vec::new(),
        Vec::new(),
        &[],
    );
    assert_eq!(degraded.status, RegionStatus::Unmeasurable);
    assert_eq!(degraded.tool_version.as_deref(), Some("999.0 (Fixture)"));
}
