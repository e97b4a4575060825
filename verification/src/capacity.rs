//! The capacity region of a scan: the volume's values with their bases, or all of
//! them unmeasurable with the reason the volume could not be read.

use vstd::prelude::*;

use crate::fsx::{CapacityKind, CapacityValue};
use crate::model::RegionStatus;

verus! {

#[derive(Debug)]
pub struct CapacityReport {
    pub status: RegionStatus,
    pub values: Vec<CapacityValue>,
}

/// The capacity kinds, in the order a report lists them.
pub open spec fn kind_at(i: int) -> CapacityKind {
    if i == 0 {
        CapacityKind::ContainerAllocated
    } else if i == 1 {
        CapacityKind::VolumeSize
    } else if i == 2 {
        CapacityKind::VolumeUsed
    } else if i == 3 {
        CapacityKind::VolumeFree
    } else if i == 4 {
        CapacityKind::AvailableNormal
    } else if i == 5 {
        CapacityKind::AvailableImportant
    } else {
        CapacityKind::AvailableOpportunistic
    }
}

fn kind_of(i: usize) -> (r: CapacityKind)
    ensures
        r == kind_at(i as int),
{
    if i == 0 {
        CapacityKind::ContainerAllocated
    } else if i == 1 {
        CapacityKind::VolumeSize
    } else if i == 2 {
        CapacityKind::VolumeUsed
    } else if i == 3 {
        CapacityKind::VolumeFree
    } else if i == 4 {
        CapacityKind::AvailableNormal
    } else if i == 5 {
        CapacityKind::AvailableImportant
    } else {
        CapacityKind::AvailableOpportunistic
    }
}

/// A report in which every kind is unmeasurable for the one reason given.
pub fn unknown_report(reason: &'static str) -> (r: CapacityReport)
    ensures
        r.status == RegionStatus::Unmeasurable,
        r.values@.len() == 7,
        forall|i: int|
            0 <= i < 7 ==> #[trigger] r.values@[i] == (CapacityValue::Unmeasurable {
                kind: kind_at(i),
                reason,
            }),
{
    let mut values: Vec<CapacityValue> = Vec::new();
    let mut i: usize = 0;
    while i < 7
        invariant
            i <= 7,
            values@.len() == i,
            forall|j: int|
                0 <= j < i ==> #[trigger] values@[j] == (CapacityValue::Unmeasurable {
                    kind: kind_at(j),
                    reason,
                }),
        decreases 7 - i,
    {
        values.push(CapacityValue::Unmeasurable { kind: kind_of(i), reason });
        i = i + 1;
    }
    CapacityReport { status: RegionStatus::Unmeasurable, values }
}

/// The region status of capacity values: unmeasurable as soon as one value is.
pub open spec fn values_status(values: Seq<CapacityValue>) -> RegionStatus {
    if exists|i: int| 0 <= i < values.len() && (#[trigger] values[i]) is Unmeasurable {
        RegionStatus::Unmeasurable
    } else {
        RegionStatus::Complete
    }
}

/// The report of a volume whose capacity was read, or of one whose capacity query
/// failed.
pub fn measure_root(values: Result<Vec<CapacityValue>, ()>) -> (r: CapacityReport)
    ensures
        match values {
            Ok(v) => r.values@ == v@ && r.status == values_status(v@),
            Err(_) => r.status == RegionStatus::Unmeasurable && r.values@.len() == 7 && forall|i: int|
                0 <= i < 7 ==> #[trigger] r.values@[i] == (CapacityValue::Unmeasurable {
                    kind: kind_at(i),
                    reason: "volume_capacity_query_failed",
                }),
        },
{
    match values {
        Ok(values) => {
            let mut any = false;
            let mut i: usize = 0;
            while i < values.len()
                invariant
                    i <= values@.len(),
                    any == exists|j: int| 0 <= j < i && (#[trigger] values@[j]) is Unmeasurable,
                decreases values.len() - i,
            {
                if matches!(values[i], CapacityValue::Unmeasurable { .. }) {
                    any = true;
                }
                i = i + 1;
            }
            let status = if any {
                RegionStatus::Unmeasurable
            } else {
                RegionStatus::Complete
            };
            CapacityReport { status, values }
        },
        Err(_) => unknown_report("volume_capacity_query_failed"),
    }
}

/// The capacity report of a scan root: every kind unmeasurable for the reason the
/// root could not be opened; otherwise that of its volume, as `measure_root` gives it.
pub fn measure(root_error: Option<crate::fsx::RootError>, values: Result<Vec<CapacityValue>, ()>) -> (r: CapacityReport)
    ensures
        match root_error {
            Some(e) => r.status == RegionStatus::Unmeasurable && r.values@.len() == 7 && forall|i: int|
                0 <= i < 7 ==> (#[trigger] r.values@[i] matches CapacityValue::Unmeasurable {
                    kind,
                    reason,
                } && kind == kind_at(i) && reason@ == crate::fsx::root_error_name(e)),
            None => match values {
                Ok(v) => r.values@ == v@ && r.status == values_status(v@),
                Err(_) => r.status == RegionStatus::Unmeasurable && r.values@.len() == 7 && forall|i: int|
                    0 <= i < 7 ==> #[trigger] r.values@[i] == (CapacityValue::Unmeasurable {
                        kind: kind_at(i),
                        reason: "volume_capacity_query_failed",
                    }),
            },
        },
{
    match root_error {
        Some(e) => unknown_report(e.reason()),
        None => measure_root(values),
    }
}

} // verus!
