//! Volume capacity values and object measurements, and the parsing of the
//! attribute buffers that the filesystem returns.

use vstd::prelude::*;

use crate::model::FileIdentity;
use crate::paths::{
    has_parent_component, has_parent_dir, is_normalized_absolute, join, join_paths,
    normalized_absolute, path_starts_with, starts_with,
};
use crate::text::chars_of;

verus! {

#[derive(Clone, Copy, Debug, Eq, PartialEq, Structural)]
pub enum CapacityKind {
    ContainerAllocated,
    VolumeSize,
    VolumeUsed,
    VolumeFree,
    AvailableNormal,
    AvailableImportant,
    AvailableOpportunistic,
}

#[derive(Clone, Copy, Debug, Eq, PartialEq, Structural)]
pub enum CapacityBasis {
    AttrVolSize,
    AttrVolSpaceUsed,
    AttrVolSpaceFree,
    AttrVolSpaceAvailable,
    StatfsBlocks,
    StatfsBlocksMinusFree,
    StatfsFreeBlocks,
    StatfsAvailableBlocks,
}

#[derive(Clone, Debug, Eq, PartialEq)]
pub enum CapacityValue {
    Measured { kind: CapacityKind, bytes: u64, basis: CapacityBasis },
    Unmeasurable { kind: CapacityKind, reason: &'static str },
}

/// The kind of a directory entry, as the root's listing reports it.
#[derive(Clone, Copy, Debug, Eq, PartialEq, Structural)]
pub enum RootEntryKind {
    Directory,
    File,
    Symlink,
    Other,
}

/// One entry of a directory listing: its full path and its kind.
#[derive(Clone, Debug, Eq, PartialEq)]
pub struct RootEntry {
    pub path: String,
    pub kind: RootEntryKind,
}

/// What one filesystem object measured as: its physical identity, logical length,
/// link count, the allocation sizes that the filesystem returned (absent where it
/// did not), its BSD flags and whether it is a dataless placeholder.
#[derive(Clone, Copy, Debug, Eq, PartialEq)]
pub struct ObjectMeasurements {
    pub identity: FileIdentity,
    pub logical_bytes: u64,
    pub link_count: u64,
    pub allocated_bytes: Option<u64>,
    pub data_allocated_bytes: Option<u64>,
    pub resource_fork_allocated_bytes: Option<u64>,
    pub private_bytes: Option<u64>,
    pub extended_flags: Option<u64>,
    pub bsd_flags: u32,
    pub dataless: bool,
}

/// Why a root could not be opened.
#[derive(Clone, Copy, Debug, Eq, PartialEq, Structural)]
pub enum RootError {
    NotNormalizedAbsolute,
    CloudRootExcluded,
    ReadPolicyVerificationFailed,
    PathUnresolvable,
    PathNotEncodable,
    IdentityUnavailable,
    SymlinkTraversalRejected,
}

pub open spec fn root_error_name(e: RootError) -> Seq<char> {
    match e {
        RootError::NotNormalizedAbsolute => "not_normalized_absolute"@,
        RootError::CloudRootExcluded => "cloud_root_excluded"@,
        RootError::ReadPolicyVerificationFailed => "read_policy_verification_failed"@,
        RootError::PathUnresolvable => "root_path_unresolvable"@,
        RootError::PathNotEncodable => "root_path_not_encodable"@,
        RootError::IdentityUnavailable => "root_identity_unavailable"@,
        RootError::SymlinkTraversalRejected => "symlink_traversal_rejected"@,
    }
}

impl RootError {
    /// The stable name under which the failure is reported.
    pub fn reason(self) -> (r: &'static str)
        ensures
            r@ == root_error_name(self),
    {
        match self {
            RootError::NotNormalizedAbsolute => "not_normalized_absolute",
            RootError::CloudRootExcluded => "cloud_root_excluded",
            RootError::ReadPolicyVerificationFailed => "read_policy_verification_failed",
            RootError::PathUnresolvable => "root_path_unresolvable",
            RootError::PathNotEncodable => "root_path_not_encodable",
            RootError::IdentityUnavailable => "root_identity_unavailable",
            RootError::SymlinkTraversalRejected => "symlink_traversal_rejected",
        }
    }
}

/// A root inside iCloud Drive or a File Provider location of the home directory:
/// such roots are never opened. Without a home directory nothing is refused.
pub open spec fn spec_cloud_root(home: Option<Seq<char>>, path: Seq<char>) -> bool {
    match home {
        None => false,
        Some(h) => starts_with(path, join(h, "Library/Mobile Documents"@)) || starts_with(
            path,
            join(h, "Library/CloudStorage"@),
        ),
    }
}

pub fn cloud_root(home: Option<&str>, path: &str) -> (r: bool)
    ensures
        r == spec_cloud_root(
            match home {
                None => None,
                Some(h) => Some(h@),
            },
            path@,
        ),
{
    match home {
        None => false,
        Some(h) => {
            let hc = chars_of(h);
            let pc = chars_of(path);
            let mobile = join_paths(hc.as_slice(), chars_of("Library/Mobile Documents").as_slice());
            let cloud = join_paths(hc.as_slice(), chars_of("Library/CloudStorage").as_slice());
            path_starts_with(pc.as_slice(), mobile.as_slice()) || path_starts_with(
                pc.as_slice(),
                cloud.as_slice(),
            )
        },
    }
}

/// The checks that a root's spelling must pass before the filesystem is touched,
/// and again on its physical path: it must be absolute and free of `..`, and not a
/// cloud location of the home directory.
pub open spec fn spec_root_precheck(home: Option<Seq<char>>, path: Seq<char>) -> Result<(), RootError> {
    if !is_normalized_absolute(path) {
        Err(RootError::NotNormalizedAbsolute)
    } else if spec_cloud_root(home, path) {
        Err(RootError::CloudRootExcluded)
    } else {
        Ok(())
    }
}

pub fn root_precheck(home: Option<&str>, path: &str) -> (r: Result<(), RootError>)
    ensures
        r == spec_root_precheck(
            match home {
                None => None,
                Some(h) => Some(h@),
            },
            path@,
        ),
{
    let spelled = chars_of(path);
    if !normalized_absolute(spelled.as_slice()) {
        return Err(RootError::NotNormalizedAbsolute);
    }
    if cloud_root(home, path) {
        return Err(RootError::CloudRootExcluded);
    }
    Ok(())
}

/// An object may be measured below a root only when its path lies below the root's
/// physical path component by component and has no `..` component that could lead
/// back out.
pub open spec fn spec_object_in_root(root: Seq<char>, path: Seq<char>) -> bool {
    starts_with(path, root) && !has_parent_component(path)
}

pub fn object_in_root(root: &str, path: &str) -> (r: bool)
    ensures
        r == spec_object_in_root(root@, path@),
{
    let r = chars_of(root);
    let p = chars_of(path);
    path_starts_with(p.as_slice(), r.as_slice()) && !has_parent_dir(p.as_slice())
}

/// The attribute groups of a `getattrlist` reply: which common, volume, directory,
/// file and fork attributes it returned or supports.
#[derive(Clone, Copy, Debug, Default, Eq, PartialEq, Structural)]
pub struct AttributeSet {
    pub common: u32,
    pub volume: u32,
    pub directory: u32,
    pub file: u32,
    pub fork: u32,
}

/// The volume attributes that capacity reads.
#[derive(Clone, Copy, Debug, Eq, PartialEq)]
pub struct VolumeRaw {
    pub returned: AttributeSet,
    pub size: u64,
    pub free: u64,
    pub available: u64,
    pub used: u64,
    pub capabilities: [u32; 4],
    pub valid_capabilities: [u32; 4],
    pub valid_attributes: AttributeSet,
}

/// The object attributes that a measurement reads.
#[derive(Clone, Copy, Debug, Eq, PartialEq)]
pub struct ObjectRaw {
    pub returned: AttributeSet,
    pub fileid: u64,
    pub allocated: u64,
    pub data_allocated: u64,
    pub resource_allocated: u64,
    pub private: u64,
    pub real_fsid: [i32; 2],
    pub extended_flags: u64,
}

/// The identity attributes of a root.
#[derive(Clone, Copy, Debug, Eq, PartialEq)]
pub struct IdentityRaw {
    pub returned: AttributeSet,
    pub fileid: u64,
    pub real_fsid: [i32; 2],
}

/// The block counts of `statfs`, the fallback for volume capacity.
#[derive(Clone, Copy, Debug, Eq, PartialEq, Structural)]
pub struct StatFsRaw {
    pub block_size: u64,
    pub blocks: u64,
    pub blocks_free: u64,
    pub blocks_available: u64,
}

pub const COMMON_FSID: u32 = 0x0000_0004;

pub const COMMON_FILEID: u32 = 0x0200_0000;

pub const VOLUME_SIZE: u32 = 0x0000_0004;

pub const VOLUME_FREE: u32 = 0x0000_0008;

pub const VOLUME_AVAILABLE: u32 = 0x0000_0010;

pub const VOLUME_USED: u32 = 0x0080_0000;

pub const VOLUME_CAPABILITIES: u32 = 0x0002_0000;

/// `VOL_CAP_FMT_SHARED_SPACE`, in the format word of the volume capabilities: the
/// volume shares its space with the other volumes of an APFS container.
pub const FORMAT_SHARED_SPACE: u32 = 0x0080_0000;

pub const FILE_ALLOCATED: u32 = 0x0000_0004;

pub const FILE_DATA_ALLOCATED: u32 = 0x0000_0400;

pub const FILE_RESOURCE_ALLOCATED: u32 = 0x0000_2000;

pub const FORK_PRIVATE: u32 = 0x0000_0008;

pub const FORK_REAL_FSID: u32 = 0x0000_0080;

pub const FORK_EXTENDED_FLAGS: u32 = 0x0000_0200;

/// An attribute counts only when the reply returned it and the volume supports it.
pub open spec fn spec_present(returned: u32, valid: u32, bit: u32) -> bool {
    returned & bit != 0 && valid & bit != 0
}

pub fn present(returned: u32, valid: u32, bit: u32) -> (r: bool)
    ensures
        r == spec_present(returned, valid, bit),
{
    returned & bit != 0 && valid & bit != 0
}

/// A measured value, its basis stated.
pub open spec fn is_measured(v: CapacityValue, kind: CapacityKind, bytes: int, basis: CapacityBasis) -> bool {
    v == CapacityValue::Measured { kind, bytes: bytes as u64, basis } && 0 <= bytes <= u64::MAX
}

/// One capacity value: the attribute when it is present; otherwise the `statfs`
/// fallback, when its arithmetic fits; otherwise unmeasurable.
pub open spec fn capacity_choice(
    v: CapacityValue,
    kind: CapacityKind,
    present: bool,
    primary: u64,
    primary_basis: CapacityBasis,
    fallback: Option<int>,
    fallback_basis: CapacityBasis,
) -> bool {
    if present {
        v == CapacityValue::Measured { kind, bytes: primary, basis: primary_basis }
    } else {
        match fallback {
            Some(b) => is_measured(v, kind, b, fallback_basis),
            None => v matches CapacityValue::Unmeasurable { kind: k, reason } && k == kind
                && reason@ == "capacity arithmetic overflowed"@,
        }
    }
}

pub open spec fn times(block_size: u64, blocks: int) -> Option<int> {
    if 0 <= blocks && block_size * blocks <= u64::MAX {
        Some(block_size * blocks)
    } else {
        None
    }
}

fn measured_or(
    kind: CapacityKind,
    present: bool,
    primary: u64,
    primary_basis: CapacityBasis,
    fallback: Option<u64>,
    fallback_basis: CapacityBasis,
) -> (r: CapacityValue)
    ensures
        capacity_choice(
            r,
            kind,
            present,
            primary,
            primary_basis,
            match fallback {
                Some(b) => Some(b as int),
                None => None,
            },
            fallback_basis,
        ),
{
    if present {
        CapacityValue::Measured { kind, bytes: primary, basis: primary_basis }
    } else {
        match fallback {
            Some(bytes) => CapacityValue::Measured { kind, bytes, basis: fallback_basis },
            None => CapacityValue::Unmeasurable { kind, reason: "capacity arithmetic overflowed" },
        }
    }
}

/// The volume returned its capabilities, and both the capability and its valid bit
/// say that it shares space with the other volumes of an APFS container.
pub open spec fn spec_shared_space(volume: VolumeRaw) -> bool {
    &&& volume.returned.volume & VOLUME_CAPABILITIES != 0
    &&& volume.capabilities[0] & FORMAT_SHARED_SPACE != 0
    &&& volume.valid_capabilities[0] & FORMAT_SHARED_SPACE != 0
}

/// The container allocation: on a volume that shares space, the `statfs` blocks in
/// use times the block size (when that fits); otherwise unmeasurable.
pub open spec fn container_choice(v: CapacityValue, volume: VolumeRaw, fallback: StatFsRaw) -> bool {
    if spec_shared_space(volume) {
        match times(fallback.block_size, fallback.blocks - fallback.blocks_free) {
            Some(b) => is_measured(v, CapacityKind::ContainerAllocated, b, CapacityBasis::StatfsBlocksMinusFree),
            None => v matches CapacityValue::Unmeasurable { kind: k, reason } && k
                == CapacityKind::ContainerAllocated && reason@ == "capacity arithmetic overflowed"@,
        }
    } else {
        v matches CapacityValue::Unmeasurable { kind: k, reason } && k
            == CapacityKind::ContainerAllocated && reason@
            == "the volume does not report a shared-space container"@
    }
}

/// The capacity of a volume, in this order: the container allocation (from `statfs`
/// blocks, only on a volume that shares its container's space), size, used, free and
/// available space (each from its attribute when the volume returned and supports
/// it, else from `statfs` blocks), and the important and opportunistic availability
/// (which need a separately gated source).
pub fn capacity_values(volume: &VolumeRaw, fallback: &StatFsRaw) -> (r: Vec<CapacityValue>)
    ensures
        r@.len() == 7,
        container_choice(r@[0], *volume, *fallback),
        capacity_choice(
            r@[1],
            CapacityKind::VolumeSize,
            spec_present(volume.returned.volume, volume.valid_attributes.volume, VOLUME_SIZE),
            volume.size,
            CapacityBasis::AttrVolSize,
            times(fallback.block_size, fallback.blocks as int),
            CapacityBasis::StatfsBlocks,
        ),
        capacity_choice(
            r@[2],
            CapacityKind::VolumeUsed,
            spec_present(volume.returned.volume, volume.valid_attributes.volume, VOLUME_USED),
            volume.used,
            CapacityBasis::AttrVolSpaceUsed,
            times(fallback.block_size, fallback.blocks - fallback.blocks_free),
            CapacityBasis::StatfsBlocksMinusFree,
        ),
        capacity_choice(
            r@[3],
            CapacityKind::VolumeFree,
            spec_present(volume.returned.volume, volume.valid_attributes.volume, VOLUME_FREE),
            volume.free,
            CapacityBasis::AttrVolSpaceFree,
            times(fallback.block_size, fallback.blocks_free as int),
            CapacityBasis::StatfsFreeBlocks,
        ),
        capacity_choice(
            r@[4],
            CapacityKind::AvailableNormal,
            spec_present(volume.returned.volume, volume.valid_attributes.volume, VOLUME_AVAILABLE),
            volume.available,
            CapacityBasis::AttrVolSpaceAvailable,
            times(fallback.block_size, fallback.blocks_available as int),
            CapacityBasis::StatfsAvailableBlocks,
        ),
        r@[5] matches CapacityValue::Unmeasurable { kind, reason } && kind
            == CapacityKind::AvailableImportant && reason@
            == "requires a separately gated Foundation capacity source"@,
        r@[6] matches CapacityValue::Unmeasurable { kind, reason } && kind
            == CapacityKind::AvailableOpportunistic && reason@
            == "requires a separately gated Foundation capacity source"@,
{
    let returned = volume.returned.volume;
    let valid = volume.valid_attributes.volume;
    let bs = fallback.block_size;
    let size_blocks = bs.checked_mul(fallback.blocks);
    let used_blocks = match fallback.blocks.checked_sub(fallback.blocks_free) {
        Some(b) => bs.checked_mul(b),
        None => None,
    };
    let free_blocks = bs.checked_mul(fallback.blocks_free);
    let available_blocks = bs.checked_mul(fallback.blocks_available);
    let shared = volume.returned.volume & VOLUME_CAPABILITIES != 0 && volume.capabilities[0]
        & FORMAT_SHARED_SPACE != 0 && volume.valid_capabilities[0] & FORMAT_SHARED_SPACE != 0;
    let mut out: Vec<CapacityValue> = Vec::new();
    if shared {
        out.push(
            measured_or(
                CapacityKind::ContainerAllocated,
                false,
                0,
                CapacityBasis::StatfsBlocksMinusFree,
                used_blocks,
                CapacityBasis::StatfsBlocksMinusFree,
            ),
        );
    } else {
        out.push(
            CapacityValue::Unmeasurable {
                kind: CapacityKind::ContainerAllocated,
                reason: "the volume does not report a shared-space container",
            },
        );
    }
    out.push(
        measured_or(
            CapacityKind::VolumeSize,
            present(returned, valid, VOLUME_SIZE),
            volume.size,
            CapacityBasis::AttrVolSize,
            size_blocks,
            CapacityBasis::StatfsBlocks,
        ),
    );
    out.push(
        measured_or(
            CapacityKind::VolumeUsed,
            present(returned, valid, VOLUME_USED),
            volume.used,
            CapacityBasis::AttrVolSpaceUsed,
            used_blocks,
            CapacityBasis::StatfsBlocksMinusFree,
        ),
    );
    out.push(
        measured_or(
            CapacityKind::VolumeFree,
            present(returned, valid, VOLUME_FREE),
            volume.free,
            CapacityBasis::AttrVolSpaceFree,
            free_blocks,
            CapacityBasis::StatfsFreeBlocks,
        ),
    );
    out.push(
        measured_or(
            CapacityKind::AvailableNormal,
            present(returned, valid, VOLUME_AVAILABLE),
            volume.available,
            CapacityBasis::AttrVolSpaceAvailable,
            available_blocks,
            CapacityBasis::StatfsAvailableBlocks,
        ),
    );
    out.push(
        CapacityValue::Unmeasurable {
            kind: CapacityKind::AvailableImportant,
            reason: "requires a separately gated Foundation capacity source",
        },
    );
    out.push(
        CapacityValue::Unmeasurable {
            kind: CapacityKind::AvailableOpportunistic,
            reason: "requires a separately gated Foundation capacity source",
        },
    );
    out
}

/// The physical identity a reply carries, when it returned both the filesystem ID
/// and the file ID, and the real (not firmlinked) filesystem ID.
pub open spec fn spec_identity_of(returned: AttributeSet, fileid: u64, real_fsid: [i32; 2]) -> Option<FileIdentity> {
    if returned.common & (COMMON_FSID | COMMON_FILEID) != (COMMON_FSID | COMMON_FILEID)
        || returned.fork & FORK_REAL_FSID == 0 {
        None
    } else {
        Some(FileIdentity { fsid: real_fsid, fileid })
    }
}

pub fn identity(raw: &IdentityRaw) -> (r: Option<FileIdentity>)
    ensures
        r == spec_identity_of(raw.returned, raw.fileid, raw.real_fsid),
{
    if raw.returned.common & (COMMON_FSID | COMMON_FILEID) != (COMMON_FSID | COMMON_FILEID)
        || raw.returned.fork & FORK_REAL_FSID == 0 {
        None
    } else {
        Some(FileIdentity { fsid: raw.real_fsid, fileid: raw.fileid })
    }
}

pub fn object_identity(raw: &ObjectRaw) -> (r: Option<FileIdentity>)
    ensures
        r == spec_identity_of(raw.returned, raw.fileid, raw.real_fsid),
{
    if raw.returned.common & (COMMON_FSID | COMMON_FILEID) != (COMMON_FSID | COMMON_FILEID)
        || raw.returned.fork & FORK_REAL_FSID == 0 {
        None
    } else {
        Some(FileIdentity { fsid: raw.real_fsid, fileid: raw.fileid })
    }
}

/// Why an object below a root could not be measured from its attributes.
#[derive(Clone, Copy, Debug, Eq, PartialEq, Structural)]
pub enum ObjectError {
    IdentityUnavailable,
    CrossesDevices,
}

pub open spec fn opt_if(c: bool, v: u64) -> Option<u64> {
    if c {
        Some(v)
    } else {
        None
    }
}

/// The measurements of an object from its attributes: refused without a physical
/// identity, or when it lies on another filesystem than the root (a mount or
/// firmlink crossing); each size is kept only when present.
pub fn object_measurements(
    raw: &ObjectRaw,
    valid: &AttributeSet,
    root_identity: &FileIdentity,
    logical_bytes: u64,
    link_count: u64,
    bsd_flags: u32,
    dataless: bool,
) -> (r: Result<ObjectMeasurements, ObjectError>)
    ensures
        match spec_identity_of(raw.returned, raw.fileid, raw.real_fsid) {
            None => r == Err::<ObjectMeasurements, ObjectError>(ObjectError::IdentityUnavailable),
            Some(id) => if id.fsid[0] != root_identity.fsid[0] || id.fsid[1] != root_identity.fsid[1] {
                r == Err::<ObjectMeasurements, ObjectError>(ObjectError::CrossesDevices)
            } else {
                r == Ok::<ObjectMeasurements, ObjectError>(
                    ObjectMeasurements {
                        identity: id,
                        logical_bytes,
                        link_count,
                        allocated_bytes: opt_if(
                            spec_present(raw.returned.file, valid.file, FILE_ALLOCATED),
                            raw.allocated,
                        ),
                        data_allocated_bytes: opt_if(
                            spec_present(raw.returned.file, valid.file, FILE_DATA_ALLOCATED),
                            raw.data_allocated,
                        ),
                        resource_fork_allocated_bytes: opt_if(
                            spec_present(raw.returned.file, valid.file, FILE_RESOURCE_ALLOCATED),
                            raw.resource_allocated,
                        ),
                        private_bytes: opt_if(
                            spec_present(raw.returned.fork, valid.fork, FORK_PRIVATE),
                            raw.private,
                        ),
                        extended_flags: opt_if(
                            spec_present(raw.returned.fork, valid.fork, FORK_EXTENDED_FLAGS),
                            raw.extended_flags,
                        ),
                        bsd_flags,
                        dataless,
                    },
                )
            },
        },
{
    let id = match object_identity(raw) {
        Some(id) => id,
        None => {
            return Err(ObjectError::IdentityUnavailable);
        },
    };
    if id.fsid[0] != root_identity.fsid[0] || id.fsid[1] != root_identity.fsid[1] {
        return Err(ObjectError::CrossesDevices);
    }
    let returned = raw.returned;
    let pick = |c: bool, v: u64| -> (o: Option<u64>)
        ensures
            o == opt_if(c, v),
        {
            if c {
                Some(v)
            } else {
                None
            }
        };
    Ok(
        ObjectMeasurements {
            identity: id,
            logical_bytes,
            link_count,
            allocated_bytes: pick(present(returned.file, valid.file, FILE_ALLOCATED), raw.allocated),
            data_allocated_bytes: pick(
                present(returned.file, valid.file, FILE_DATA_ALLOCATED),
                raw.data_allocated,
            ),
            resource_fork_allocated_bytes: pick(
                present(returned.file, valid.file, FILE_RESOURCE_ALLOCATED),
                raw.resource_allocated,
            ),
            private_bytes: pick(present(returned.fork, valid.fork, FORK_PRIVATE), raw.private),
            extended_flags: pick(
                present(returned.fork, valid.fork, FORK_EXTENDED_FLAGS),
                raw.extended_flags,
            ),
            bsd_flags,
            dataless,
        },
    )
}

/// An attribute reply that ends before the attributes it should hold.
#[derive(Clone, Copy, Debug, Eq, PartialEq, Structural)]
pub struct AttributeError;

/// The little-endian value of the four bytes at `at`. Replies come from the running
/// machine, and every Mac this runs on is little-endian.
pub open spec fn le_u32(b: Seq<u8>, at: int) -> int {
    b[at] + b[at + 1] * 256 + b[at + 2] * 65536 + b[at + 3] * 16777216
}

pub open spec fn le_u64(b: Seq<u8>, at: int) -> int {
    le_u32(b, at) + le_u32(b, at + 4) * 4294967296
}

pub open spec fn spec_u32(b: Seq<u8>, at: int) -> u32 {
    le_u32(b, at) as u32
}

pub open spec fn spec_u64(b: Seq<u8>, at: int) -> u64 {
    le_u64(b, at) as u64
}

pub open spec fn spec_set(b: Seq<u8>, at: int) -> AttributeSet {
    AttributeSet {
        common: spec_u32(b, at),
        volume: spec_u32(b, at + 4),
        directory: spec_u32(b, at + 8),
        file: spec_u32(b, at + 12),
        fork: spec_u32(b, at + 16),
    }
}

/// Reads an attribute reply front to back.
pub struct Cursor<'a> {
    pub bytes: &'a [u8],
    pub offset: usize,
}

impl<'a> Cursor<'a> {
    /// A cursor after the reply's length word; a reply shorter than that word is
    /// truncated.
    pub fn new(bytes: &'a [u8]) -> (r: Result<Self, AttributeError>)
        ensures
            bytes@.len() < 4 ==> r is Err,
            bytes@.len() >= 4 ==> (r matches Ok(c) && c.bytes@ == bytes@ && c.offset == 4),
    {
        if bytes.len() < 4 {
            return Err(AttributeError);
        }
        Ok(Cursor { bytes, offset: 4 })
    }

    /// The next `n` bytes, or truncation when fewer remain.
    pub fn take(&mut self, n: usize) -> (r: Result<Vec<u8>, AttributeError>)
        ensures
            final(self).bytes@ == old(self).bytes@,
            old(self).offset + n > old(self).bytes@.len() ==> r is Err && final(self).offset
                == old(self).offset,
            old(self).offset + n <= old(self).bytes@.len() ==> (r matches Ok(v) && v@ == old(
                self,
            ).bytes@.subrange(old(self).offset as int, old(self).offset + n)
                && final(self).offset == old(self).offset + n),
    {
        if self.offset > self.bytes.len() || n > self.bytes.len() - self.offset {
            return Err(AttributeError);
        }
        let end = self.offset + n;
        let v = crate::fsx::copy_bytes(self.bytes, self.offset, end);
        self.offset = end;
        Ok(v)
    }

    pub fn u32(&mut self) -> (r: Result<u32, AttributeError>)
        ensures
            final(self).bytes@ == old(self).bytes@,
            old(self).offset + 4 > old(self).bytes@.len() ==> r is Err && final(self).offset
                == old(self).offset,
            old(self).offset + 4 <= old(self).bytes@.len() ==> (r == Ok::<u32, AttributeError>(
                spec_u32(old(self).bytes@, old(self).offset as int),
            ) && final(self).offset == old(self).offset + 4),
    {
        let b = self.take(4)?;
        let v = b[0] as u32 + (b[1] as u32) * 256 + (b[2] as u32) * 65536 + (b[3] as u32)
            * 16777216;
        Ok(v)
    }

    pub fn u64(&mut self) -> (r: Result<u64, AttributeError>)
        ensures
            final(self).bytes@ == old(self).bytes@,
            old(self).offset + 8 > old(self).bytes@.len() ==> r is Err && final(self).offset
                == old(self).offset,
            old(self).offset + 8 <= old(self).bytes@.len() ==> (r == Ok::<u64, AttributeError>(
                spec_u64(old(self).bytes@, old(self).offset as int),
            ) && final(self).offset == old(self).offset + 8),
    {
        let b = self.take(8)?;
        let lo = b[0] as u64 + (b[1] as u64) * 256 + (b[2] as u64) * 65536 + (b[3] as u64)
            * 16777216;
        let hi = b[4] as u64 + (b[5] as u64) * 256 + (b[6] as u64) * 65536 + (b[7] as u64)
            * 16777216;
        Ok(lo + hi * 4294967296)
    }

    pub fn i32_pair(&mut self) -> (r: Result<[i32; 2], AttributeError>)
        ensures
            final(self).bytes@ == old(self).bytes@,
            old(self).offset + 8 > old(self).bytes@.len() ==> r is Err && final(self).offset
                == old(self).offset,
            old(self).offset + 8 <= old(self).bytes@.len() ==> (r matches Ok(p) && p[0] == spec_u32(
                old(self).bytes@,
                old(self).offset as int,
            ) as i32 && p[1] == spec_u32(old(self).bytes@, old(self).offset + 4) as i32
                && final(self).offset == old(self).offset + 8),
    {
        if self.offset > self.bytes.len() || 8 > self.bytes.len() - self.offset {
            return Err(AttributeError);
        }
        let a = self.u32()?;
        let b = self.u32()?;
        Ok([a as i32, b as i32])
    }

    pub fn u32_array(&mut self) -> (r: Result<[u32; 4], AttributeError>)
        ensures
            final(self).bytes@ == old(self).bytes@,
            old(self).offset + 16 > old(self).bytes@.len() ==> r is Err && final(self).offset
                == old(self).offset,
            old(self).offset + 16 <= old(self).bytes@.len() ==> (r matches Ok(a) && a[0]
                == spec_u32(old(self).bytes@, old(self).offset as int) && a[1] == spec_u32(
                old(self).bytes@,
                old(self).offset + 4,
            ) && a[2] == spec_u32(old(self).bytes@, old(self).offset + 8) && a[3] == spec_u32(
                old(self).bytes@,
                old(self).offset + 12,
            ) && final(self).offset == old(self).offset + 16),
    {
        if self.offset > self.bytes.len() || 16 > self.bytes.len() - self.offset {
            return Err(AttributeError);
        }
        let a = self.u32()?;
        let b = self.u32()?;
        let c = self.u32()?;
        let d = self.u32()?;
        Ok([a, b, c, d])
    }

    pub fn attribute_set(&mut self) -> (r: Result<AttributeSet, AttributeError>)
        ensures
            final(self).bytes@ == old(self).bytes@,
            old(self).offset + 20 > old(self).bytes@.len() ==> r is Err && final(self).offset
                == old(self).offset,
            old(self).offset + 20 <= old(self).bytes@.len() ==> (r == Ok::<AttributeSet, AttributeError>(
                spec_set(old(self).bytes@, old(self).offset as int),
            ) && final(self).offset == old(self).offset + 20),
    {
        if self.offset > self.bytes.len() || 20 > self.bytes.len() - self.offset {
            return Err(AttributeError);
        }
        let common = self.u32()?;
        let volume = self.u32()?;
        let directory = self.u32()?;
        let file = self.u32()?;
        let fork = self.u32()?;
        Ok(AttributeSet { common, volume, directory, file, fork })
    }
}

pub fn copy_bytes(bytes: &[u8], from: usize, to: usize) -> (r: Vec<u8>)
    requires
        from <= to <= bytes@.len(),
    ensures
        r@ == bytes@.subrange(from as int, to as int),
{
    let mut out: Vec<u8> = Vec::new();
    let mut i = from;
    while i < to
        invariant
            from <= i <= to <= bytes@.len(),
            out@ == bytes@.subrange(from as int, i as int),
        decreases to - i,
    {
        out.push(bytes[i]);
        i = i + 1;
        assert(out@ =~= bytes@.subrange(from as int, i as int));
    }
    out
}

/// The reply that `getattrlist` wrote into `buffer`: its first word is the reply's
/// length, which must cover that word and fit the buffer.
pub fn reply_bytes(buffer: &[u8]) -> (r: Result<Vec<u8>, AttributeError>)
    ensures
        match r {
            Ok(v) => buffer@.len() >= 4 && 4 <= le_u32(buffer@, 0) <= buffer@.len() && v@
                == buffer@.subrange(0, le_u32(buffer@, 0)),
            Err(_) => buffer@.len() < 4 || !(4 <= le_u32(buffer@, 0) <= buffer@.len()),
        },
{
    if buffer.len() < 4 {
        return Err(AttributeError);
    }
    let length = buffer[0] as u64 + (buffer[1] as u64) * 256 + (buffer[2] as u64) * 65536 + (
    buffer[3] as u64) * 16777216;
    if length < 4 || length > buffer.len() as u64 {
        return Err(AttributeError);
    }
    Ok(copy_bytes(buffer, 0, length as usize))
}

/// The volume attributes of a reply: returned set, size, free, available and used
/// space, the capabilities and their validity, the valid and native attribute sets.
pub fn parse_volume(bytes: &[u8]) -> (r: Result<VolumeRaw, AttributeError>)
    ensures
        bytes@.len() < 128 ==> r is Err,
        bytes@.len() >= 128 ==> (r matches Ok(v) && {
            &&& v.returned == spec_set(bytes@, 4)
            &&& v.size == spec_u64(bytes@, 24)
            &&& v.free == spec_u64(bytes@, 32)
            &&& v.available == spec_u64(bytes@, 40)
            &&& v.used == spec_u64(bytes@, 48)
            &&& v.capabilities[0] == spec_u32(bytes@, 56)
            &&& v.valid_capabilities[0] == spec_u32(bytes@, 72)
            &&& v.valid_attributes == spec_set(bytes@, 88)
        }),
{
    if bytes.len() < 128 {
        return Err(AttributeError);
    }
    let mut cursor = Cursor::new(bytes)?;
    let returned = cursor.attribute_set()?;
    let size = cursor.u64()?;
    let free = cursor.u64()?;
    let available = cursor.u64()?;
    let used = cursor.u64()?;
    let capabilities = cursor.u32_array()?;
    let valid_capabilities = cursor.u32_array()?;
    let valid_attributes = cursor.attribute_set()?;
    let _native = cursor.attribute_set()?;
    Ok(VolumeRaw { returned, size, free, available, used, capabilities, valid_capabilities, valid_attributes })
}

/// The identity attributes of a reply: returned set, logical filesystem ID (skipped),
/// file ID, real filesystem ID.
pub fn parse_identity(bytes: &[u8]) -> (r: Result<IdentityRaw, AttributeError>)
    ensures
        bytes@.len() < 48 ==> r is Err,
        bytes@.len() >= 48 ==> (r matches Ok(v) && v.returned == spec_set(bytes@, 4) && v.fileid
            == spec_u64(bytes@, 32) && v.real_fsid[0] == spec_u32(bytes@, 40) as i32
            && v.real_fsid[1] == spec_u32(bytes@, 44) as i32),
{
    if bytes.len() < 48 {
        return Err(AttributeError);
    }
    let mut cursor = Cursor::new(bytes)?;
    let returned = cursor.attribute_set()?;
    let _logical = cursor.i32_pair()?;
    let fileid = cursor.u64()?;
    let real_fsid = cursor.i32_pair()?;
    Ok(IdentityRaw { returned, fileid, real_fsid })
}

/// The object attributes of a reply: returned set, logical filesystem ID (skipped),
/// file ID, allocated, data-allocated, resource-allocated and private sizes, real
/// filesystem ID and extended flags.
pub fn parse_object(bytes: &[u8]) -> (r: Result<ObjectRaw, AttributeError>)
    ensures
        bytes@.len() < 88 ==> r is Err,
        bytes@.len() >= 88 ==> (r matches Ok(v) && v.returned == spec_set(bytes@, 4) && v.fileid
            == spec_u64(bytes@, 32) && v.allocated == spec_u64(bytes@, 40) && v.data_allocated
            == spec_u64(bytes@, 48) && v.resource_allocated == spec_u64(bytes@, 56) && v.private
            == spec_u64(bytes@, 64) && v.real_fsid[0] == spec_u32(bytes@, 72) as i32
            && v.real_fsid[1] == spec_u32(bytes@, 76) as i32 && v.extended_flags == spec_u64(
            bytes@,
            80,
        )),
{
    if bytes.len() < 88 {
        return Err(AttributeError);
    }
    let mut cursor = Cursor::new(bytes)?;
    let returned = cursor.attribute_set()?;
    let _logical = cursor.i32_pair()?;
    let fileid = cursor.u64()?;
    let allocated = cursor.u64()?;
    let data_allocated = cursor.u64()?;
    let resource_allocated = cursor.u64()?;
    let private = cursor.u64()?;
    let real_fsid = cursor.i32_pair()?;
    let extended_flags = cursor.u64()?;
    Ok(ObjectRaw { returned, fileid, allocated, data_allocated, resource_allocated, private, real_fsid, extended_flags })
}

} // verus!
