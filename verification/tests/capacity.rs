use sizetrail::capacity::{measure, measure_root, unknown_report};
use sizetrail::fsx::{
    capacity_values, cloud_root, object_in_root, parse_identity, root_precheck, parse_object, parse_volume, reply_bytes,
    AttributeSet, CapacityBasis, CapacityKind, CapacityValue, RootError, StatFsRaw, VolumeRaw,
};
use sizetrail::model::RegionStatus;

fn volume(returned: u32) -> VolumeRaw {
    let set = AttributeSet { common: 0, volume: returned, directory: 0, file: 0, fork: 0 };
    VolumeRaw {
        returned: set,
        size: 1_000_000,
        free: 400_000,
        available: 300_000,
        used: 600_000,
        capabilities: [0; 4],
        valid_capabilities: [0; 4],
        valid_attributes: set,
    }
}

fn statfs() -> StatFsRaw {
    StatFsRaw { block_size: 4096, blocks: 100, blocks_free: 40, blocks_available: 30 }
}

#[test]
fn every_measured_capacity_number_carries_its_basis() {
    let values = capacity_values(&volume(0x0080_001C | 0x4), &statfs());
    assert_eq!(values.len(), 7);
    assert_eq!(
        values[1],
        CapacityValue::Measured { kind: CapacityKind::VolumeSize, bytes: 1_000_000, basis: CapacityBasis::AttrVolSize }
    );
    assert_eq!(
        values[2],
        CapacityValue::Measured { kind: CapacityKind::VolumeUsed, bytes: 600_000, basis: CapacityBasis::AttrVolSpaceUsed }
    );
    assert!(matches!(values[0], CapacityValue::Unmeasurable { kind: CapacityKind::ContainerAllocated, .. }));
    assert!(matches!(values[6], CapacityValue::Unmeasurable { kind: CapacityKind::AvailableOpportunistic, .. }));
}

#[test]
fn capacity_falls_back_to_filesystem_blocks() {
    let values = capacity_values(&volume(0), &statfs());
    assert_eq!(
        values[1],
        CapacityValue::Measured { kind: CapacityKind::VolumeSize, bytes: 409_600, basis: CapacityBasis::StatfsBlocks }
    );
    assert_eq!(
        values[2],
        CapacityValue::Measured { kind: CapacityKind::VolumeUsed, bytes: 245_760, basis: CapacityBasis::StatfsBlocksMinusFree }
    );
    assert_eq!(
        values[4],
        CapacityValue::Measured { kind: CapacityKind::AvailableNormal, bytes: 122_880, basis: CapacityBasis::StatfsAvailableBlocks }
    );
    let report = measure_root(Ok(values));
    assert_eq!(report.status, RegionStatus::Unmeasurable);
}

#[test]
fn every_root_failure_serializes_to_a_distinct_reason() {
    let failures = [
        RootError::NotNormalizedAbsolute,
        RootError::CloudRootExcluded,
        RootError::ReadPolicyVerificationFailed,
        RootError::PathUnresolvable,
        RootError::PathNotEncodable,
        RootError::IdentityUnavailable,
        RootError::SymlinkTraversalRejected,
    ];
    let mut reasons = failures.iter().map(|failure| failure.reason()).collect::<Vec<_>>();
    reasons.sort_unstable();
    reasons.dedup();
    assert_eq!(reasons.len(), failures.len());
    let report = measure(Some(RootError::PathUnresolvable), Ok(Vec::new()));
    assert_eq!(report.status, RegionStatus::Unmeasurable);
    assert_eq!(report.values.len(), 7);
    assert!(report.values.iter().all(|value| matches!(
        value,
        CapacityValue::Unmeasurable { reason: "root_path_unresolvable", .. }
    )));
}

#[test]
fn a_failed_capacity_query_is_unmeasurable_for_every_kind() {
    let report = measure_root(Err(()));
    assert_eq!(report.status, RegionStatus::Unmeasurable);
    assert!(report.values.iter().all(|value| matches!(
        value,
        CapacityValue::Unmeasurable { reason: "volume_capacity_query_failed", .. }
    )));
    assert_eq!(unknown_report("x").values.len(), 7);
}

#[test]
fn cloud_roots_are_refused_only_below_home() {
    assert!(cloud_root(Some("/Users/a"), "/Users/a/Library/Mobile Documents/com~apple~CloudDocs"));
    assert!(cloud_root(Some("/Users/a"), "/Users/a/Library/CloudStorage/Drive"));
    assert!(!cloud_root(Some("/Users/a"), "/Users/a/Library/Developer"));
    assert!(!cloud_root(None, "/Users/a/Library/CloudStorage"));
}

fn le32(out: &mut Vec<u8>, value: u32) {
    out.extend_from_slice(&value.to_le_bytes());
}

fn le64(out: &mut Vec<u8>, value: u64) {
    out.extend_from_slice(&value.to_le_bytes());
}

#[test]
fn attribute_replies_decode_at_their_documented_offsets() {
    let mut object = Vec::new();
    le32(&mut object, 88);
    for word in [0x8200_0004_u32, 0, 0, 0x2404, 0x288] {
        le32(&mut object, word);
    }
    le32(&mut object, 7);
    le32(&mut object, 11);
    le64(&mut object, 42);
    le64(&mut object, 4096);
    le64(&mut object, 4096);
    le64(&mut object, 0);
    le64(&mut object, 1024);
    le32(&mut object, 7);
    le32(&mut object, 11);
    le64(&mut object, 0x10);
    let mut buffer = object.clone();
    buffer.extend_from_slice(&[0; 40]);
    let reply = reply_bytes(&buffer).expect("length prefix is in range");
    assert_eq!(reply, object);
    let raw = parse_object(&reply).expect("a full reply");
    assert_eq!(raw.fileid, 42);
    assert_eq!(raw.allocated, 4096);
    assert_eq!(raw.private, 1024);
    assert_eq!(raw.real_fsid, [7, 11]);
    assert_eq!(raw.extended_flags, 0x10);
    assert!(parse_object(&reply[..80]).is_err());
    assert!(parse_identity(&reply[..40]).is_err());
    assert!(parse_volume(&reply).is_err());
    assert!(reply_bytes(&[1, 0]).is_err());
}

#[test]
fn a_shared_space_volume_reports_its_container_allocation_apart_from_volume_used() {
    let mut shared = volume(0x0080_001C | 0x4 | 0x0002_0000);
    shared.capabilities[0] = 0x0080_0000;
    shared.valid_capabilities[0] = 0x0080_0000;
    let values = capacity_values(&shared, &statfs());
    assert_eq!(
        values[0],
        CapacityValue::Measured {
            kind: CapacityKind::ContainerAllocated,
            bytes: 245_760,
            basis: CapacityBasis::StatfsBlocksMinusFree,
        }
    );
    assert_eq!(
        values[2],
        CapacityValue::Measured { kind: CapacityKind::VolumeUsed, bytes: 600_000, basis: CapacityBasis::AttrVolSpaceUsed }
    );

    let mut unset_valid = shared;
    unset_valid.valid_capabilities[0] = 0;
    assert!(matches!(
        capacity_values(&unset_valid, &statfs())[0],
        CapacityValue::Unmeasurable { kind: CapacityKind::ContainerAllocated, .. }
    ));
    let mut not_returned = shared;
    not_returned.returned.volume &= !0x0002_0000;
    assert!(matches!(
        capacity_values(&not_returned, &statfs())[0],
        CapacityValue::Unmeasurable { kind: CapacityKind::ContainerAllocated, .. }
    ));
}

#[test]
fn a_relative_root_is_rejected_before_any_filesystem_call() {
    assert_eq!(root_precheck(Some("/Users/fixture"), "relative/root"), Err(RootError::NotNormalizedAbsolute));
    assert_eq!(root_precheck(None, "/Users/fixture/../other"), Err(RootError::NotNormalizedAbsolute));
    assert_eq!(
        root_precheck(Some("/Users/fixture"), "/Users/fixture/Library/CloudStorage/Drive"),
        Err(RootError::CloudRootExcluded)
    );
    assert_eq!(root_precheck(Some("/Users/fixture"), "/Users/fixture"), Ok(()));
}

#[test]
fn parent_components_cannot_escape_the_root_lexically() {
    assert!(!object_in_root("/private/tmp/root", "/private/tmp/root/../outside.bin"));
    assert!(!object_in_root("/private/tmp/root", "/private/tmp/rootless/a.bin"));
    assert!(!object_in_root("/private/tmp/root", "/private/tmp/other.bin"));
    assert!(object_in_root("/private/tmp/root", "/private/tmp/root/a/b.bin"));
    assert!(object_in_root("/private/tmp/root", "/private/tmp/root"));
}
