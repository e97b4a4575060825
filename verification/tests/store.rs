use sizetrail::adapters::store::{
    excluded, group_inodes, match_component, object_observations, pattern_components,
    store_measurements,
};
use sizetrail::fsx::{ObjectMeasurements, RootEntry, RootEntryKind};
use sizetrail::model::{
    FileIdentity, MeasurementCoverageStatus, MeasurementValue, SignalId,
};

fn entry(path: &str, kind: RootEntryKind) -> RootEntry {
    RootEntry { path: path.to_owned(), kind }
}

fn measured(fileid: u64, logical: u64, allocated: Option<u64>, private: Option<u64>) -> ObjectMeasurements {
    ObjectMeasurements {
        identity: FileIdentity { fsid: [1, 2], fileid },
        logical_bytes: logical,
        link_count: 1,
        allocated_bytes: allocated,
        data_allocated_bytes: allocated,
        resource_fork_allocated_bytes: Some(0),
        private_bytes: private,
        extended_flags: Some(0),
        bsd_flags: 0,
        dataless: false,
    }
}

#[test]
fn patterns_name_components_below_home_only() {
    assert_eq!(
        pattern_components("~/Library/Developer/Xcode/DerivedData/*"),
        Some(vec![
            "Library".to_owned(),
            "Developer".to_owned(),
            "Xcode".to_owned(),
            "DerivedData".to_owned(),
            "*".to_owned(),
        ])
    );
    assert_eq!(pattern_components("/opt/homebrew/Cellar"), None);
    assert_eq!(pattern_components("~"), None);
}

#[test]
fn a_wildcard_keeps_directories_and_passes_over_files() {
    let children = vec![
        entry("/h/Library/Developer/CoreSimulator/Devices/A", RootEntryKind::Directory),
        entry("/h/Library/Developer/CoreSimulator/Devices/device_set.plist", RootEntryKind::File),
        entry("/h/Library/Developer/CoreSimulator/Devices/B", RootEntryKind::Directory),
    ];
    assert_eq!(
        match_component("*", &children, &[]),
        Ok(vec![
            "/h/Library/Developer/CoreSimulator/Devices/A".to_owned(),
            "/h/Library/Developer/CoreSimulator/Devices/B".to_owned(),
        ])
    );
    assert_eq!(
        match_component("*", &children, &["/h/Library/Developer/CoreSimulator/Devices/A".to_owned()]),
        Ok(vec!["/h/Library/Developer/CoreSimulator/Devices/B".to_owned()])
    );
}

#[test]
fn a_literal_component_that_names_a_file_is_an_error() {
    let children = vec![
        entry("/h/Library/Caches", RootEntryKind::Directory),
        entry("/h/Library/Logs", RootEntryKind::Symlink),
    ];
    assert_eq!(
        match_component("Caches", &children, &[]),
        Ok(vec!["/h/Library/Caches".to_owned()])
    );
    assert_eq!(
        match_component("Logs", &children, &[]),
        Err("/h/Library/Logs".to_owned())
    );
    assert_eq!(match_component("Missing", &children, &[]), Ok(Vec::new()));
    assert_eq!(
        match_component("Logs", &children, &["/h/Library/Logs".to_owned()]),
        Ok(Vec::new())
    );
}

#[test]
fn exclusions_cover_whole_components_only() {
    let excludes = vec!["/h/Library/Developer/Xcode".to_owned()];
    assert!(excluded("/h/Library/Developer/Xcode", &excludes));
    assert!(excluded("/h/Library/Developer/Xcode/Archives", &excludes));
    assert!(!excluded("/h/Library/Developer/XcodeOther", &excludes));
}

#[test]
fn hardlinks_of_one_inode_are_grouped_in_identity_order() {
    let a = measured(9, 100, Some(4096), Some(4096));
    let b = measured(3, 50, Some(4096), Some(0));
    let grouped = group_inodes(&[a, b, a]);
    assert_eq!(grouped, vec![(b, 1), (a, 2)]);
}

#[test]
fn a_store_reports_logical_allocated_and_interval_measurements() {
    let objects = vec![
        (measured(3, 50, Some(4096), Some(1024)), 1),
        (measured(9, 100, Some(8192), Some(2048)), 1),
    ];
    let (measurements, observations) =
        store_measurements(&objects, true, "~/Library/Developer/Xcode/Archives").expect("fits");
    assert_eq!(measurements.len(), 3);
    assert!(matches!(measurements[0].value, MeasurementValue::ExactBytes { bytes: 150 }));
    assert!(matches!(measurements[1].value, MeasurementValue::ExactBytes { bytes: 12288 }));
    assert!(matches!(
        measurements[2].value,
        MeasurementValue::IntervalBytes { floor_bytes: 0, ceiling_bytes: Some(12288), .. }
    ));
    assert_eq!(measurements[2].coverage.status, MeasurementCoverageStatus::Complete);
    assert_eq!(measurements[0].scope.id, "~/Library/Developer/Xcode/Archives");
    assert_eq!(observations.len(), 1);
    assert_eq!(observations[0].signal, SignalId::VolumeHasSnapshots);

    let missing = vec![(measured(3, 50, None, Some(1024)), 1)];
    let (measurements, _) = store_measurements(&missing, false, "~/x").expect("fits");
    assert!(matches!(measurements[1].value, MeasurementValue::Unmeasurable));
    assert_eq!(measurements[1].coverage.status, MeasurementCoverageStatus::Unmeasurable);
    assert_eq!(measurements[2].coverage.status, MeasurementCoverageStatus::Partial);
}

#[test]
fn object_flags_become_typed_observations() {
    let mut object = measured(1, 10, Some(4096), Some(4096));
    object.link_count = 2;
    object.bsd_flags = 0x20;
    let observations = object_observations(&object);
    let signals = observations.iter().map(|o| o.signal).collect::<Vec<_>>();
    assert!(signals.contains(&SignalId::FilesystemCompressed));
    assert!(signals.contains(&SignalId::MultipleHardlinks));
    assert!(!signals.contains(&SignalId::Sparse));
}
