use sizetrail::adapters::store::store_measurements;
use sizetrail::adapters::xcode::{
    after_static, core_simulator_check, core_simulator_expected, devices_outcome,
    devices_root_excluded, inventory_gate, runtimes_outcome, simctl_warning, snapshot_gap,
    static_devices_gap,
    valid_runtime_identifier, valid_udid, xcode_inventory_start, XcodeStep,
};
use sizetrail::adapters::{
    AdapterDegradedReason, AdapterState, InventoryGapReason, InventoryIdentity, InventoryStage,
};
use sizetrail::fsx::ObjectMeasurements;
use sizetrail::model::{FileIdentity, FindingSubject, SignalId};
use sizetrail::policy::{
    xcode_core_simulator_version, xcode_simctl_devices, xcode_simctl_runtimes, CommandOutput,
    PolicyError,
};

const DEVICES_JSON: &str = r#"{"devices":{"com.apple.CoreSimulator.SimRuntime.iOS-17-4":[{"dataPath":"/Users/test/Library/Developer/CoreSimulator/Devices/11111111-1111-1111-1111-111111111111/data","udid":"11111111-1111-1111-1111-111111111111","isAvailable":true,"deviceTypeIdentifier":"com.apple.CoreSimulator.SimDeviceType.iPhone-15","state":"Shutdown","name":"iPhone 15","futureKey":{"ignore":true}}]}}"#;
const RUNTIMES_JSON: &str = r#"{"runtimes":[{"bundlePath":"/Library/Developer/CoreSimulator/Volumes/iOS_21E213/Library/Developer/CoreSimulator/Profiles/Runtimes/iOS 17.4.simruntime","buildversion":"21E213","identifier":"com.apple.CoreSimulator.SimRuntime.iOS-17-4","version":"17.4","isAvailable":true,"name":"iOS 17.4"}]}"#;

fn printed(stdout: &str, stderr: &str) -> Result<CommandOutput, PolicyError> {
    Ok(CommandOutput {
        success: true,
        stdout: stdout.as_bytes().to_vec(),
        stderr: stderr.as_bytes().to_vec(),
    })
}

#[test]
fn xcode_inventory_joins_static_stores_and_simctl_identity() {
    let outcome = devices_outcome(printed(DEVICES_JSON, ""));
    assert!(outcome.gaps.is_empty());
    assert!(outcome.warnings.is_empty());
    assert_eq!(outcome.entries.len(), 1);
    assert_eq!(
        outcome.entries[0].runtime_identifier,
        "com.apple.CoreSimulator.SimRuntime.iOS-17-4"
    );
    assert_eq!(
        outcome.entries[0].device,
        Some((
            "11111111-1111-1111-1111-111111111111".to_owned(),
            "iPhone 15".to_owned(),
            true
        ))
    );
}

#[test]
fn devices_whose_data_path_disagrees_with_their_udid_are_refused() {
    let moved = DEVICES_JSON.replacen(
        "Devices/11111111-1111-1111-1111-111111111111/data",
        "Devices/22222222-2222-2222-2222-222222222222/data",
        1,
    );
    let outcome = devices_outcome(printed(&moved, "simctl: note\n"));
    assert_eq!(outcome.entries.len(), 1);
    assert_eq!(outcome.entries[0].device, None);
    assert_eq!(outcome.warnings, vec!["simctl_stderr_nonempty".to_owned()]);
    let malformed = devices_outcome(printed("{\"devices\":[]}", ""));
    assert_eq!(malformed.gaps.len(), 1);
    assert_eq!(malformed.gaps[0].reason, InventoryGapReason::InvalidToolOutput);
    let refused = devices_outcome(Err(PolicyError::TimedOut(xcode_simctl_devices())));
    assert_eq!(refused.gaps[0].reason, InventoryGapReason::TimedOut);
}

#[test]
fn runtimes_are_typed_and_their_size_is_declared_unmeasurable() {
    let inventory = runtimes_outcome(printed(RUNTIMES_JSON, ""), "/Users/test");
    assert_eq!(inventory.items.len(), 1);
    let item = &inventory.items[0];
    assert_eq!(item.rule_id, "xcode.simulator_runtime");
    assert!(matches!(
        item.subject,
        FindingSubject::FilesystemPath { ref normalized_path }
        if normalized_path.ends_with("iOS 17.4.simruntime") && normalized_path.starts_with('/')
    ));
    assert_eq!(
        item.identity,
        InventoryIdentity::SimulatorRuntime {
            identifier: "com.apple.CoreSimulator.SimRuntime.iOS-17-4".to_owned(),
            name: "iOS 17.4".to_owned(),
            version: "17.4".to_owned(),
            build: "21E213".to_owned(),
            available: true,
        }
    );
    assert_eq!(inventory.gaps.len(), 1);
    assert_eq!(inventory.gaps[0].reason, InventoryGapReason::RuntimeSizeUnavailable);
}

#[test]
fn a_coresimulator_version_mismatch_keeps_static_inventory_but_never_calls_simctl() {
    let ready = AdapterState::Ready { version: "16.4 (16F6)".to_owned() };
    assert_eq!(core_simulator_expected(&ready), Ok("1010.15"));
    assert_eq!(core_simulator_check("1010.15", printed("1010.15\n", "")), Ok(()));
    assert_eq!(
        core_simulator_check("1010.15", printed("1051.17.8\n", "")),
        Err(InventoryGapReason::CoreSimulatorVersionMismatch)
    );
    let unknown = AdapterState::Ready { version: "15.0 (15A1)".to_owned() };
    assert_eq!(core_simulator_expected(&unknown), Err(InventoryGapReason::UnknownVersion));

    assert!(matches!(xcode_inventory_start(&ready, true), XcodeStep::WalkStatic));
    let XcodeStep::Run { next, probe } = after_static(&ready, false) else {
        panic!("a verified build asks for CoreSimulator's version");
    };
    assert_eq!(probe, xcode_core_simulator_version());
    match next.resume(printed("1051.17.8\n", ""), "/Users/test") {
        XcodeStep::WalkStaticDevices(gap) => {
            assert_eq!(gap.region, "xcode.simulator_inventory");
            assert_eq!(gap.reason, InventoryGapReason::CoreSimulatorVersionMismatch);
        }
        other => panic!("a mismatch measures devices by path and stops, got {other:?}"),
    }
    match after_static(&unknown, false) {
        XcodeStep::WalkStaticDevices(gap) => assert_eq!(gap.reason, InventoryGapReason::UnknownVersion),
        other => panic!("an unverified build never asks CoreSimulator, got {other:?}"),
    }
    assert_eq!(static_devices_gap(true).map(|gap| gap.reason), Some(InventoryGapReason::SimulatorIdentityUnavailable));
    assert!(static_devices_gap(false).is_none());
}

#[test]
fn a_matching_coresimulator_lists_devices_then_runtimes() {
    let ready = AdapterState::Ready { version: "16.4 (16F6)".to_owned() };
    let XcodeStep::Run { next, .. } = after_static(&ready, false) else {
        panic!("a verified build asks for CoreSimulator's version");
    };
    let XcodeStep::Run { next, probe } = next.resume(printed("1010.15\n", ""), "/Users/test") else {
        panic!("a match lists the devices");
    };
    assert_eq!(probe, xcode_simctl_devices());
    let XcodeStep::WalkDevices { listing, next, probe } = next.resume(printed(DEVICES_JSON, ""), "/Users/test") else {
        panic!("the listing is walked next");
    };
    assert_eq!(listing.entries.len(), 1);
    assert_eq!(probe, xcode_simctl_runtimes());
    match next.resume(printed(RUNTIMES_JSON, ""), "/Users/test") {
        XcodeStep::Finish(stage) => assert_eq!(stage.items.len(), 1),
        other => panic!("the runtimes end the inventory, got {other:?}"),
    }
}

#[test]
fn excluding_simulator_devices_prevents_the_devices_probe() {
    let excludes = vec!["/Users/test/Library/Developer/CoreSimulator/Devices".to_owned()];
    assert!(devices_root_excluded("/Users/test", &excludes));
    assert!(devices_root_excluded("/Users/test", &["/Users/test/Library/Developer".to_owned()]));
    assert!(!devices_root_excluded("/Users/test", &["/Users/test/Library/Developer/Xcode".to_owned()]));
    let ready = AdapterState::Ready { version: "16.4 (16F6)".to_owned() };
    let XcodeStep::Run { next, .. } = after_static(&ready, true) else {
        panic!("a verified build asks for CoreSimulator's version");
    };
    match next.resume(printed("1010.15\n", ""), "/Users/test") {
        XcodeStep::Run { probe, .. } => assert_eq!(probe, xcode_simctl_runtimes()),
        other => panic!("excluded devices go straight to the runtimes, got {other:?}"),
    }
}

#[test]
fn volume_snapshot_state_is_a_typed_signal_or_an_explicit_gap() {
    let gap = snapshot_gap(Some(1));
    assert_eq!(gap.reason, InventoryGapReason::VolumeSnapshotStateUnavailable);
    assert_eq!(gap.stage, Some(InventoryStage::VolumeSnapshots));
    assert_eq!(gap.errno, Some(1));
    let object = ObjectMeasurements {
        identity: FileIdentity { fsid: [1, 2], fileid: 3 },
        link_count: 1,
        logical_bytes: 10,
        allocated_bytes: Some(4096),
        data_allocated_bytes: Some(4096),
        private_bytes: Some(4096),
        resource_fork_allocated_bytes: None,
        extended_flags: None,
        bsd_flags: 0,
        dataless: false,
    };
    let (_, observations) =
        store_measurements(&vec![(object, 1)], true, "~/Library/Developer/Xcode/Archives").expect("fits");
    assert!(observations.iter().any(|signal| signal.signal == SignalId::VolumeHasSnapshots));
}

#[test]
fn degraded_xcode_never_starts_coresimulator_inventory() {
    assert!(matches!(inventory_gate(&AdapterState::NotPresent), Err(None)));
    let degraded = AdapterState::Degraded {
        observed_version: Some("16.4 (16F6)".to_owned()),
        reason: AdapterDegradedReason::NotReady,
    };
    match inventory_gate(&degraded) {
        Err(Some(gap)) => assert_eq!(gap.reason, InventoryGapReason::NotReady),
        _ => panic!("a degraded adapter reports one gap"),
    }
    assert!(inventory_gate(&AdapterState::Ready { version: "16.4 (16F6)".to_owned() }).is_ok());
    assert!(matches!(xcode_inventory_start(&AdapterState::NotPresent, true), XcodeStep::Stop(None)));
    match xcode_inventory_start(&degraded, true) {
        XcodeStep::Stop(Some(gap)) => assert_eq!(gap.reason, InventoryGapReason::NotReady),
        other => panic!("a degraded Xcode stops with its gap, got {other:?}"),
    }
    let ready = AdapterState::Ready { version: "16.4 (16F6)".to_owned() };
    match xcode_inventory_start(&ready, false) {
        XcodeStep::Stop(Some(gap)) => assert_eq!(gap.reason, InventoryGapReason::RuleSetInvalid),
        other => panic!("a missing rule set stops with a diagnostic, got {other:?}"),
    }
}

#[test]
fn simulator_identifiers_are_checked_before_use() {
    assert!(valid_udid("11111111-1111-1111-1111-111111111111"));
    assert!(!valid_udid("11111111-1111-1111-1111-11111111111"));
    assert!(!valid_udid("../../../../../../../../../../../../.."));
    assert!(valid_runtime_identifier("com.apple.CoreSimulator.SimRuntime.iOS-17-4"));
    assert!(!valid_runtime_identifier("iOS 17.4"));
}

#[test]
fn simulator_tool_diagnostics_are_read_lossily() {
    assert!(simctl_warning(&[0xff, 0xfe]));
    assert!(simctl_warning(b"note: CoreSimulator booted\n"));
    assert!(!simctl_warning(b" \n\t"));
    assert!(!simctl_warning(b""));
}
