use sizetrail::model::{
    rounded_bytes, Measurement, MeasurementBasis, MeasurementCoverage, MeasurementCoverageStatus,
    MeasurementPlane, MeasurementQuantity, MeasurementScope, MeasurementScopeKind, MeasurementValue,
};

#[test]
fn vendor_human_sizes_are_typed_as_rounded_ranges_not_exact_bytes() {
    let measurement = Measurement {
        plane: MeasurementPlane::ToolchainAttribution,
        quantity: MeasurementQuantity::DaemonReclaimable,
        basis: MeasurementBasis::DockerSystemDf,
        scope: MeasurementScope {
            kind: MeasurementScopeKind::ToolchainStore,
            id: "docker.images".to_owned(),
        },
        coverage: MeasurementCoverage {
            status: MeasurementCoverageStatus::Complete,
            gap_ids: Vec::new(),
        },
        value: rounded_bytes("2.498GB (94%)").expect("verified Docker formatter output must parse"),
    };

    assert_eq!(measurement.quantity, MeasurementQuantity::DaemonReclaimable);
    assert_eq!(measurement.basis, MeasurementBasis::DockerSystemDf);
    match &measurement.value {
        MeasurementValue::RoundedBytes { reported, lower_bound_bytes, upper_bound_bytes } => {
            assert_eq!(reported, "2.498GB (94%)");
            assert!(*lower_bound_bytes < 2_498_000_000);
            assert!(*upper_bound_bytes > 2_498_000_000);
        }
        other => panic!("a vendor size must be a rounded range, got {other:?}"),
    }

    assert!(matches!(
        rounded_bytes("158B").expect("byte value"),
        MeasurementValue::RoundedBytes { lower_bound_bytes: 158, .. }
    ));
    for invalid in ["", "-1GB", "1.2.3GB", "1XB", "2GB garbage", "2GB (%)"] {
        assert!(
            rounded_bytes(invalid).is_err(),
            "accepted invalid vendor size {invalid:?}"
        );
    }
}

fn bounds(reported: &str) -> (u64, u64) {
    match rounded_bytes(reported).expect("vendor size must parse") {
        MeasurementValue::RoundedBytes { lower_bound_bytes, upper_bound_bytes, .. } => {
            (lower_bound_bytes, upper_bound_bytes)
        }
        other => panic!("a vendor size must be a rounded range, got {other:?}"),
    }
}

#[test]
fn rounded_sizes_are_exact_only_for_whole_bytes() {
    assert_eq!(bounds("158B"), (158, 158));
    assert_eq!(bounds("1.B"), (1, 1));
    let (lower, upper) = bounds("158kB");
    assert!(lower < upper);
    let (lower, upper) = bounds("1.5B");
    assert!(lower < upper);
}
