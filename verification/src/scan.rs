//! Assembling a scan: each adapter's findings and typed gaps into its report, and the
//! reports, capacity and gaps into one document whose order does not depend on the
//! order in which the adapters arrived.

use vstd::prelude::*;

use crate::adapters::{AdapterState, InventoryGap, InventoryGapReason, stage_name};
use crate::capacity::CapacityReport;
use crate::model::{
    CoverageGap, CoverageGapReason, EnvironmentEnvelope, Finding, MeasurementPlane, RegionReport,
    RegionStatus, SCHEMA_VERSION, ScanDocument, ScanPayload, TOOL_VERSION,
    findings_normalized_from, normalize_findings, normalized_report_path,
    spec_normalized_report_path,
};
use crate::order::{compare_chars, lemma_insert_at, lex_order, sort_stable};
use crate::paths::{components, path_components};
use crate::text::{chars_of, decimal_digits, decimal_string, extend_chars, string_of};

verus! {

#[derive(Debug)]
pub struct AdapterReport {
    pub id: String,
    pub status: RegionStatus,
    pub tool_version: Option<String>,
    pub warnings: Vec<String>,
    pub findings: Vec<Finding>,
    pub coverage_gaps: Vec<CoverageGap>,
}

/// The report of an adapter that the user excluded: nothing measured, nothing missing.
pub fn excluded_adapter_report(id: &str) -> (r: AdapterReport)
    ensures
        r.id@ == id@,
        r.status == RegionStatus::ExcludedByUser,
        r.tool_version is None,
        r.warnings@.len() == 0,
        r.findings@.len() == 0,
        r.coverage_gaps@.len() == 0,
{
    AdapterReport {
        id: id.to_owned(),
        status: RegionStatus::ExcludedByUser,
        tool_version: None,
        warnings: Vec::new(),
        findings: Vec::new(),
        coverage_gaps: Vec::new(),
    }
}

/// The report of an adapter whose root could not be opened: one gap that says so.
pub fn unmeasurable_adapter_report(id: &str) -> (r: AdapterReport)
    ensures
        r.id@ == id@,
        r.status == RegionStatus::Unmeasurable,
        r.tool_version is None,
        r.warnings@.len() == 0,
        r.findings@.len() == 0,
        r.coverage_gaps@.len() == 1,
        r.coverage_gaps@[0].id@ == id@ + ".root_unmeasurable"@,
        r.coverage_gaps@[0].plane == MeasurementPlane::ToolchainAttribution,
        r.coverage_gaps@[0].region@ == id@,
        r.coverage_gaps@[0].path is None,
        r.coverage_gaps@[0].status == RegionStatus::Unmeasurable,
        r.coverage_gaps@[0].reason == CoverageGapReason::RootUnmeasurable,
        r.coverage_gaps@[0].stage matches Some(s) && s@ == "root_initialization"@,
        r.coverage_gaps@[0].errno is None,
{
    let mut gap_id = chars_of(id);
    let suffix = chars_of(".root_unmeasurable");
    extend_chars(&mut gap_id, suffix.as_slice());
    let mut coverage_gaps: Vec<CoverageGap> = Vec::new();
    coverage_gaps.push(
        CoverageGap {
            id: string_of(gap_id.as_slice()),
            plane: MeasurementPlane::ToolchainAttribution,
            region: id.to_owned(),
            path: None,
            status: RegionStatus::Unmeasurable,
            reason: CoverageGapReason::RootUnmeasurable,
            stage: Some("root_initialization".to_owned()),
            errno: None,
        },
    );
    AdapterReport {
        id: id.to_owned(),
        status: RegionStatus::Unmeasurable,
        tool_version: None,
        warnings: Vec::new(),
        findings: Vec::new(),
        coverage_gaps,
    }
}

pub open spec fn spec_coverage_reason(reason: InventoryGapReason) -> CoverageGapReason {
    match reason {
        InventoryGapReason::AbsentOrChanged => CoverageGapReason::AbsentOrChanged,
        InventoryGapReason::AccessDenied => CoverageGapReason::AccessDenied,
        InventoryGapReason::PolicyDeniedUnknown => CoverageGapReason::PolicyDeniedUnknown,
        InventoryGapReason::UnknownVersion => CoverageGapReason::UnknownVersion,
        InventoryGapReason::NotReady => CoverageGapReason::NotReady,
        InventoryGapReason::Disabled => CoverageGapReason::Disabled,
        InventoryGapReason::ProbeFailed => CoverageGapReason::ProbeFailed,
        InventoryGapReason::TraversalFailed => CoverageGapReason::TraversalFailed,
        InventoryGapReason::InvalidToolOutput => CoverageGapReason::InvalidToolOutput,
        InventoryGapReason::CoreSimulatorVersionMismatch => CoverageGapReason::CoreSimulatorVersionMismatch,
        InventoryGapReason::SimulatorIdentityUnavailable => CoverageGapReason::SimulatorIdentityUnavailable,
        InventoryGapReason::RuntimeSizeUnavailable => CoverageGapReason::RuntimeSizeUnavailable,
        InventoryGapReason::TimedOut => CoverageGapReason::TimedOut,
        InventoryGapReason::RuleSetInvalid => CoverageGapReason::RuleSetInvalid,
        InventoryGapReason::VolumeSnapshotStateUnavailable => CoverageGapReason::VolumeSnapshotStateUnavailable,
        InventoryGapReason::CaskArtifactOutsidePrefix => CoverageGapReason::CaskArtifactOutsidePrefix,
        InventoryGapReason::UnsupportedPathOverride => CoverageGapReason::UnsupportedPathOverride,
        InventoryGapReason::AmbiguousDiskImage => CoverageGapReason::AmbiguousDiskImage,
        InventoryGapReason::DaemonInventoryExcludesInactiveStore => CoverageGapReason::DaemonInventoryExcludesInactiveStore,
    }
}

/// The coverage reason that an inventory gap reason is reported as: the same reason.
pub fn coverage_reason(reason: InventoryGapReason) -> (r: CoverageGapReason)
    ensures
        r == spec_coverage_reason(reason),
{
    match reason {
        InventoryGapReason::AbsentOrChanged => CoverageGapReason::AbsentOrChanged,
        InventoryGapReason::AccessDenied => CoverageGapReason::AccessDenied,
        InventoryGapReason::PolicyDeniedUnknown => CoverageGapReason::PolicyDeniedUnknown,
        InventoryGapReason::UnknownVersion => CoverageGapReason::UnknownVersion,
        InventoryGapReason::NotReady => CoverageGapReason::NotReady,
        InventoryGapReason::Disabled => CoverageGapReason::Disabled,
        InventoryGapReason::ProbeFailed => CoverageGapReason::ProbeFailed,
        InventoryGapReason::TraversalFailed => CoverageGapReason::TraversalFailed,
        InventoryGapReason::InvalidToolOutput => CoverageGapReason::InvalidToolOutput,
        InventoryGapReason::CoreSimulatorVersionMismatch => CoverageGapReason::CoreSimulatorVersionMismatch,
        InventoryGapReason::SimulatorIdentityUnavailable => CoverageGapReason::SimulatorIdentityUnavailable,
        InventoryGapReason::RuntimeSizeUnavailable => CoverageGapReason::RuntimeSizeUnavailable,
        InventoryGapReason::TimedOut => CoverageGapReason::TimedOut,
        InventoryGapReason::RuleSetInvalid => CoverageGapReason::RuleSetInvalid,
        InventoryGapReason::VolumeSnapshotStateUnavailable => CoverageGapReason::VolumeSnapshotStateUnavailable,
        InventoryGapReason::CaskArtifactOutsidePrefix => CoverageGapReason::CaskArtifactOutsidePrefix,
        InventoryGapReason::UnsupportedPathOverride => CoverageGapReason::UnsupportedPathOverride,
        InventoryGapReason::AmbiguousDiskImage => CoverageGapReason::AmbiguousDiskImage,
        InventoryGapReason::DaemonInventoryExcludesInactiveStore => CoverageGapReason::DaemonInventoryExcludesInactiveStore,
    }
}

pub open spec fn spec_gap_reason_id(reason: InventoryGapReason) -> Seq<char> {
    match reason {
        InventoryGapReason::AbsentOrChanged => "absent_or_changed"@,
        InventoryGapReason::AccessDenied => "access_denied"@,
        InventoryGapReason::PolicyDeniedUnknown => "policy_denied_unknown"@,
        InventoryGapReason::UnknownVersion => "unknown_version"@,
        InventoryGapReason::NotReady => "not_ready"@,
        InventoryGapReason::Disabled => "disabled"@,
        InventoryGapReason::ProbeFailed => "probe_failed"@,
        InventoryGapReason::TraversalFailed => "traversal_failed"@,
        InventoryGapReason::InvalidToolOutput => "invalid_tool_output"@,
        InventoryGapReason::CoreSimulatorVersionMismatch => "core_simulator_version_mismatch"@,
        InventoryGapReason::SimulatorIdentityUnavailable => "simulator_identity_unavailable"@,
        InventoryGapReason::RuntimeSizeUnavailable => "runtime_size_unavailable"@,
        InventoryGapReason::TimedOut => "timed_out"@,
        InventoryGapReason::RuleSetInvalid => "rule_set_invalid"@,
        InventoryGapReason::VolumeSnapshotStateUnavailable => "volume_snapshot_state_unavailable"@,
        InventoryGapReason::CaskArtifactOutsidePrefix => "cask_artifact_outside_prefix"@,
        InventoryGapReason::UnsupportedPathOverride => "unsupported_path_override"@,
        InventoryGapReason::AmbiguousDiskImage => "ambiguous_disk_image"@,
        InventoryGapReason::DaemonInventoryExcludesInactiveStore => "daemon_inventory_excludes_inactive_store"@,
    }
}

/// The stable name of a gap reason, as gap IDs spell it.
pub fn gap_reason_id(reason: InventoryGapReason) -> (r: &'static str)
    ensures
        r@ == spec_gap_reason_id(reason),
{
    match reason {
        InventoryGapReason::AbsentOrChanged => "absent_or_changed",
        InventoryGapReason::AccessDenied => "access_denied",
        InventoryGapReason::PolicyDeniedUnknown => "policy_denied_unknown",
        InventoryGapReason::UnknownVersion => "unknown_version",
        InventoryGapReason::NotReady => "not_ready",
        InventoryGapReason::Disabled => "disabled",
        InventoryGapReason::ProbeFailed => "probe_failed",
        InventoryGapReason::TraversalFailed => "traversal_failed",
        InventoryGapReason::InvalidToolOutput => "invalid_tool_output",
        InventoryGapReason::CoreSimulatorVersionMismatch => "core_simulator_version_mismatch",
        InventoryGapReason::SimulatorIdentityUnavailable => "simulator_identity_unavailable",
        InventoryGapReason::RuntimeSizeUnavailable => "runtime_size_unavailable",
        InventoryGapReason::TimedOut => "timed_out",
        InventoryGapReason::RuleSetInvalid => "rule_set_invalid",
        InventoryGapReason::VolumeSnapshotStateUnavailable => "volume_snapshot_state_unavailable",
        InventoryGapReason::CaskArtifactOutsidePrefix => "cask_artifact_outside_prefix",
        InventoryGapReason::UnsupportedPathOverride => "unsupported_path_override",
        InventoryGapReason::AmbiguousDiskImage => "ambiguous_disk_image",
        InventoryGapReason::DaemonInventoryExcludesInactiveStore => "daemon_inventory_excludes_inactive_store",
    }
}

pub open spec fn reason_rank(reason: InventoryGapReason) -> int {
    match reason {
        InventoryGapReason::AbsentOrChanged => 0,
        InventoryGapReason::AccessDenied => 1,
        InventoryGapReason::PolicyDeniedUnknown => 2,
        InventoryGapReason::UnknownVersion => 3,
        InventoryGapReason::NotReady => 4,
        InventoryGapReason::Disabled => 5,
        InventoryGapReason::ProbeFailed => 6,
        InventoryGapReason::TraversalFailed => 7,
        InventoryGapReason::InvalidToolOutput => 8,
        InventoryGapReason::CoreSimulatorVersionMismatch => 9,
        InventoryGapReason::SimulatorIdentityUnavailable => 10,
        InventoryGapReason::RuntimeSizeUnavailable => 11,
        InventoryGapReason::TimedOut => 12,
        InventoryGapReason::RuleSetInvalid => 13,
        InventoryGapReason::VolumeSnapshotStateUnavailable => 14,
        InventoryGapReason::CaskArtifactOutsidePrefix => 15,
        InventoryGapReason::UnsupportedPathOverride => 16,
        InventoryGapReason::AmbiguousDiskImage => 17,
        InventoryGapReason::DaemonInventoryExcludesInactiveStore => 18,
    }
}

fn reason_index(reason: InventoryGapReason) -> (r: u8)
    ensures
        r as int == reason_rank(reason),
{
    match reason {
        InventoryGapReason::AbsentOrChanged => 0,
        InventoryGapReason::AccessDenied => 1,
        InventoryGapReason::PolicyDeniedUnknown => 2,
        InventoryGapReason::UnknownVersion => 3,
        InventoryGapReason::NotReady => 4,
        InventoryGapReason::Disabled => 5,
        InventoryGapReason::ProbeFailed => 6,
        InventoryGapReason::TraversalFailed => 7,
        InventoryGapReason::InvalidToolOutput => 8,
        InventoryGapReason::CoreSimulatorVersionMismatch => 9,
        InventoryGapReason::SimulatorIdentityUnavailable => 10,
        InventoryGapReason::RuntimeSizeUnavailable => 11,
        InventoryGapReason::TimedOut => 12,
        InventoryGapReason::RuleSetInvalid => 13,
        InventoryGapReason::VolumeSnapshotStateUnavailable => 14,
        InventoryGapReason::CaskArtifactOutsidePrefix => 15,
        InventoryGapReason::UnsupportedPathOverride => 16,
        InventoryGapReason::AmbiguousDiskImage => 17,
        InventoryGapReason::DaemonInventoryExcludesInactiveStore => 18,
    }
}

/// The kind of a path component, in the order `std::path::Component` derives: the
/// root, `.`, `..`, then named components.
pub open spec fn component_rank(c: Seq<char>) -> int {
    if c == seq!['/'] {
        1
    } else if c == seq!['.'] {
        2
    } else if c == seq!['.', '.'] {
        3
    } else {
        4
    }
}

pub open spec fn component_order(a: Seq<char>, b: Seq<char>) -> int {
    if component_rank(a) < component_rank(b) {
        -1
    } else if component_rank(a) > component_rank(b) {
        1
    } else if component_rank(a) == 4 {
        lex_order(a, b)
    } else {
        0
    }
}

/// The order of paths: their components compared one by one, as `Path` orders.
pub open spec fn components_order(a: Seq<Seq<char>>, b: Seq<Seq<char>>) -> int
    decreases a.len(),
{
    if a.len() == 0 && b.len() == 0 {
        0
    } else if a.len() == 0 {
        -1
    } else if b.len() == 0 {
        1
    } else if component_order(a[0], b[0]) != 0 {
        component_order(a[0], b[0])
    } else {
        components_order(a.drop_first(), b.drop_first())
    }
}

pub open spec fn path_order(a: Option<String>, b: Option<String>) -> int {
    match (a, b) {
        (None, None) => 0,
        (None, Some(_)) => -1,
        (Some(_), None) => 1,
        (Some(x), Some(y)) => components_order(components(x@), components(y@)),
    }
}

/// The order of inventory gaps: by region, then path, then reason.
pub open spec fn gap_le() -> spec_fn(InventoryGap, InventoryGap) -> bool {
    |a: InventoryGap, b: InventoryGap|
        {
            let r = lex_order(a.region@, b.region@);
            if r != 0 {
                r < 0
            } else {
                let p = path_order(a.path, b.path);
                if p != 0 {
                    p < 0
                } else {
                    reason_rank(a.reason) <= reason_rank(b.reason)
                }
            }
        }
}

fn component_rank_exec(c: &Vec<char>) -> (r: u8)
    ensures
        r as int == component_rank(c@),
{
    if c.len() == 1 && c[0] == '/' {
        assert(c@ =~= seq!['/']);
        1
    } else if c.len() == 1 && c[0] == '.' {
        assert(c@ =~= seq!['.']);
        2
    } else if c.len() == 2 && c[0] == '.' && c[1] == '.' {
        assert(c@ =~= seq!['.', '.']);
        3
    } else {
        proof {
            if c@ == seq!['/'] || c@ == seq!['.'] {
                assert(c@.len() == 1);
            }
            if c@ == seq!['.', '.'] {
                assert(c@.len() == 2);
            }
        }
        4
    }
}

pub(crate) fn components_order_exec(a: &Vec<Vec<char>>, b: &Vec<Vec<char>>) -> (r: i8)
    ensures
        r as int == components_order(a.deep_view(), b.deep_view()),
{
    let mut i: usize = 0;
    assert(a.deep_view().subrange(0, a.deep_view().len() as int) =~= a.deep_view());
    assert(b.deep_view().subrange(0, b.deep_view().len() as int) =~= b.deep_view());
    while i < a.len() && i < b.len()
        invariant
            i <= a@.len(),
            i <= b@.len(),
            a.deep_view().len() == a@.len(),
            b.deep_view().len() == b@.len(),
            components_order(a.deep_view(), b.deep_view()) == components_order(
                a.deep_view().subrange(i as int, a@.len() as int),
                b.deep_view().subrange(i as int, b@.len() as int),
            ),
        decreases a.len() - i,
    {
        let ghost sa = a.deep_view().subrange(i as int, a@.len() as int);
        let ghost sb = b.deep_view().subrange(i as int, b@.len() as int);
        proof {
            crate::paths::lemma_dv_index(a, i as int);
            crate::paths::lemma_dv_index(b, i as int);
        }
        assert(sa[0] == a@[i as int]@ && sb[0] == b@[i as int]@);
        let ra = component_rank_exec(&a[i]);
        let rb = component_rank_exec(&b[i]);
        if ra < rb {
            return -1;
        }
        if ra > rb {
            return 1;
        }
        if ra == 4 {
            let c = compare_chars(a[i].as_slice(), b[i].as_slice());
            if c != 0 {
                return c;
            }
        }
        assert(sa.drop_first() =~= a.deep_view().subrange(i + 1, a@.len() as int));
        assert(sb.drop_first() =~= b.deep_view().subrange(i + 1, b@.len() as int));
        i = i + 1;
    }
    if i < b.len() {
        return -1;
    }
    if i < a.len() {
        return 1;
    }
    0
}

fn path_order_exec(a: &Option<String>, b: &Option<String>) -> (r: i8)
    ensures
        r as int == path_order(*a, *b),
{
    match (a, b) {
        (None, None) => 0,
        (None, Some(_)) => -1,
        (Some(_), None) => 1,
        (Some(x), Some(y)) => {
            let xc = chars_of(x.as_str());
            let yc = chars_of(y.as_str());
            let xs = path_components(xc.as_slice());
            let ys = path_components(yc.as_slice());
            components_order_exec(&xs, &ys)
        },
    }
}

fn gap_le_exec(a: &InventoryGap, b: &InventoryGap) -> (r: bool)
    ensures
        r == (gap_le())(*a, *b),
{
    let ar = chars_of(a.region);
    let br = chars_of(b.region);
    let r = compare_chars(ar.as_slice(), br.as_slice());
    if r != 0 {
        return r < 0;
    }
    let p = path_order_exec(&a.path, &b.path);
    if p != 0 {
        return p < 0;
    }
    reason_index(a.reason) <= reason_index(b.reason)
}

/// Orders inventory gaps stably by region, path and reason.
pub fn sort_gaps(gaps: Vec<InventoryGap>) -> (r: Vec<InventoryGap>)
    ensures
        r@ == sort_stable(gaps@, gap_le()),
{
    let mut sorted: Vec<InventoryGap> = Vec::new();
    let mut pending = gaps;
    let ghost input = pending@;
    let ghost mut done: Seq<InventoryGap> = Seq::empty();
    while pending.len() > 0
        invariant
            done + pending@ == input,
            sorted@ == sort_stable(done, gap_le()),
        decreases pending.len(),
    {
        let g = pending.remove(0);
        let mut j: usize = sorted.len();
        while j > 0 && !gap_le_exec(&sorted[j - 1], &g)
            invariant
                j <= sorted.len(),
                forall|k: int| j <= k < sorted@.len() ==> !(gap_le())(#[trigger] sorted@[k], g),
            decreases j,
        {
            j = j - 1;
        }
        proof {
            lemma_insert_at(sorted@, g, gap_le(), j as int);
            let next = done.push(g);
            assert(next.drop_last() =~= done);
            assert(next + pending@ =~= input);
            done = next;
        }
        sorted.insert(j, g);
    }
    assert(done =~= input);
    sorted
}

pub open spec fn text_is(o: Option<String>, e: Option<Seq<char>>) -> bool {
    match e {
        None => o is None,
        Some(t) => o matches Some(x) && x@ == t,
    }
}

/// The report spelling of a gap's path, when it has one that normalizes.
pub open spec fn report_path_of(p: Option<String>, home: Seq<char>) -> Option<Seq<char>> {
    match p {
        None => None,
        Some(x) => match spec_normalized_report_path(home, x@) {
            Ok(n) => Some(n),
            Err(_) => None,
        },
    }
}

/// The coverage gap that inventory gap `g`, at position `i` in gap order, becomes.
pub open spec fn gap_entry(c: CoverageGap, adapter: Seq<char>, home: Seq<char>, g: InventoryGap, i: nat) -> bool {
    &&& c.id@ == adapter + "."@ + spec_gap_reason_id(g.reason) + "."@ + decimal_string(i)
    &&& c.plane == MeasurementPlane::ToolchainAttribution
    &&& c.region@ == g.region@
    &&& text_is(c.path, report_path_of(g.path, home))
    &&& c.status == RegionStatus::Unmeasurable
    &&& c.reason == spec_coverage_reason(g.reason)
    &&& text_is(
        c.stage,
        match g.stage {
            Some(st) => Some(stage_name(st)),
            None => None,
        },
    )
    &&& c.errno == g.errno
}

/// The coverage gap that the `i`th user exclusion becomes.
pub open spec fn exclusion_entry(c: CoverageGap, adapter: Seq<char>, home: Seq<char>, e: Seq<char>, i: nat) -> bool {
    &&& c.id@ == adapter + ".excluded_by_user."@ + decimal_string(i)
    &&& c.plane == MeasurementPlane::ToolchainAttribution
    &&& c.region@ == adapter
    &&& text_is(
        c.path,
        match spec_normalized_report_path(home, e) {
            Ok(n) => Some(n),
            Err(_) => None,
        },
    )
    &&& c.status == RegionStatus::ExcludedByUser
    &&& c.reason == CoverageGapReason::ExcludedByUser
    &&& c.stage is None
    &&& c.errno is None
}

fn index_text(i: usize) -> (r: Vec<char>)
    ensures
        r@ == decimal_string(i as nat),
{
    decimal_digits(i as u64)
}

fn report_path(p: &Option<String>, home: &str) -> (r: Option<String>)
    ensures
        text_is(r, report_path_of(*p, home@)),
{
    match p {
        None => None,
        Some(x) => match normalized_report_path(home, x.as_str()) {
            Ok(n) => Some(n),
            Err(_) => None,
        },
    }
}

fn coverage_of_gap(adapter: &str, home: &str, g: &InventoryGap, i: usize) -> (r: CoverageGap)
    ensures
        gap_entry(r, adapter@, home@, *g, i as nat),
{
    let mut id = chars_of(adapter);
    let dot = chars_of(".");
    extend_chars(&mut id, dot.as_slice());
    let reason = chars_of(gap_reason_id(g.reason));
    extend_chars(&mut id, reason.as_slice());
    extend_chars(&mut id, dot.as_slice());
    let n = index_text(i);
    extend_chars(&mut id, n.as_slice());
    let stage = match g.stage {
        Some(st) => Some(st.as_str().to_owned()),
        None => None,
    };
    CoverageGap {
        id: string_of(id.as_slice()),
        plane: MeasurementPlane::ToolchainAttribution,
        region: g.region.to_owned(),
        path: report_path(&g.path, home),
        status: RegionStatus::Unmeasurable,
        reason: coverage_reason(g.reason),
        stage,
        errno: g.errno,
    }
}

fn coverage_of_exclusion(adapter: &str, home: &str, e: &str, i: usize) -> (r: CoverageGap)
    ensures
        exclusion_entry(r, adapter@, home@, e@, i as nat),
{
    let mut id = chars_of(adapter);
    let suffix = chars_of(".excluded_by_user.");
    extend_chars(&mut id, suffix.as_slice());
    let n = index_text(i);
    extend_chars(&mut id, n.as_slice());
    let path = match normalized_report_path(home, e) {
        Ok(n) => Some(n),
        Err(_) => None,
    };
    CoverageGap {
        id: string_of(id.as_slice()),
        plane: MeasurementPlane::ToolchainAttribution,
        region: adapter.to_owned(),
        path,
        status: RegionStatus::ExcludedByUser,
        reason: CoverageGapReason::ExcludedByUser,
        stage: None,
        errno: None,
    }
}

/// The report of an adapter: its findings normalized; its inventory gaps ordered by
/// region, path and reason and numbered in that order; a gap per user exclusion; and
/// its status: complete only when ready with no gap, not present, or unmeasurable
/// (keeping the version that was seen).
pub fn adapter_report(
    id: &str,
    home: &str,
    state: AdapterState,
    gaps: Vec<InventoryGap>,
    warnings: Vec<String>,
    findings: Vec<Finding>,
    excludes: &[String],
) -> (r: AdapterReport)
    ensures
        r.id@ == id@,
        r.warnings@ == warnings@,
        findings_normalized_from(findings@, r.findings@),
        ({
            let sorted = sort_stable(gaps@, gap_le());
            &&& r.coverage_gaps@.len() == sorted.len() + excludes@.len()
            &&& forall|i: int|
                0 <= i < sorted.len() ==> gap_entry(
                    #[trigger] r.coverage_gaps@[i],
                    id@,
                    home@,
                    sorted[i],
                    i as nat,
                )
            &&& forall|j: int|
                0 <= j < excludes@.len() ==> exclusion_entry(
                    #[trigger] r.coverage_gaps@[sorted.len() + j],
                    id@,
                    home@,
                    excludes@[j]@,
                    j as nat,
                )
        }),
        match state {
            AdapterState::Ready { version } => r.tool_version == Some(version) && r.status == if gaps@.len()
                == 0 {
                RegionStatus::Complete
            } else {
                RegionStatus::Unmeasurable
            },
            AdapterState::NotPresent => r.tool_version is None && r.status == RegionStatus::NotPresent,
            AdapterState::Degraded { observed_version, .. } => r.tool_version == observed_version
                && r.status == RegionStatus::Unmeasurable,
        },
{
    let gap_count = gaps.len();
    let sorted = sort_gaps(gaps);
    proof {
        crate::order::lemma_sort_len(gaps@, gap_le());
    }
    let mut findings = findings;
    let ghost before = findings@;
    normalize_findings(&mut findings);
    let mut coverage_gaps: Vec<CoverageGap> = Vec::new();
    let mut i: usize = 0;
    while i < sorted.len()
        invariant
            i <= sorted@.len(),
            coverage_gaps@.len() == i,
            forall|k: int|
                0 <= k < i ==> gap_entry(#[trigger] coverage_gaps@[k], id@, home@, sorted@[k], k as nat),
        decreases sorted.len() - i,
    {
        coverage_gaps.push(coverage_of_gap(id, home, &sorted[i], i));
        i = i + 1;
    }
    let mut j: usize = 0;
    while j < excludes.len()
        invariant
            j <= excludes@.len(),
            coverage_gaps@.len() == sorted@.len() + j,
            forall|k: int|
                0 <= k < sorted@.len() ==> gap_entry(#[trigger] coverage_gaps@[k], id@, home@, sorted@[k], k as nat),
            forall|k: int|
                0 <= k < j ==> exclusion_entry(
                    #[trigger] coverage_gaps@[sorted@.len() + k],
                    id@,
                    home@,
                    excludes@[k]@,
                    k as nat,
                ),
        decreases excludes.len() - j,
    {
        coverage_gaps.push(coverage_of_exclusion(id, home, excludes[j].as_str(), j));
        j = j + 1;
    }
    let (status, tool_version) = match state {
        AdapterState::Ready { version } => (
            if gap_count == 0 {
                RegionStatus::Complete
            } else {
                RegionStatus::Unmeasurable
            },
            Some(version),
        ),
        AdapterState::NotPresent => (RegionStatus::NotPresent, None),
        AdapterState::Degraded { observed_version, .. } => (RegionStatus::Unmeasurable, observed_version),
    };
    AdapterReport { id: id.to_owned(), status, tool_version, warnings, findings, coverage_gaps }
}

/// Reports are ordered by adapter ID.
pub open spec fn report_le() -> spec_fn(AdapterReport, AdapterReport) -> bool {
    |a: AdapterReport, b: AdapterReport| lex_order(a.id@, b.id@) <= 0
}

/// Coverage gaps are ordered by ID.
pub open spec fn coverage_le() -> spec_fn(CoverageGap, CoverageGap) -> bool {
    |a: CoverageGap, b: CoverageGap| lex_order(a.id@, b.id@) <= 0
}

pub open spec fn all_findings(reports: Seq<AdapterReport>) -> Seq<Finding>
    decreases reports.len(),
{
    if reports.len() == 0 {
        Seq::empty()
    } else {
        all_findings(reports.drop_last()) + reports.last().findings@
    }
}

pub open spec fn all_gaps(reports: Seq<AdapterReport>) -> Seq<CoverageGap>
    decreases reports.len(),
{
    if reports.len() == 0 {
        Seq::empty()
    } else {
        all_gaps(reports.drop_last()) + reports.last().coverage_gaps@
    }
}

/// The gap of a scan that compiled no adapter.
pub open spec fn is_no_adapter_gap(c: CoverageGap) -> bool {
    &&& c.id@ == "p1.toolchain_adapters"@
    &&& c.plane == MeasurementPlane::ToolchainAttribution
    &&& c.region@ == "toolchain_adapters"@
    &&& c.path is None
    &&& c.status == RegionStatus::Unmeasurable
    &&& c.reason == CoverageGapReason::NoAdaptersCompiled
    &&& c.stage is None
    &&& c.errno is None
}

/// The gap of a scan whose capacity could not be measured.
pub open spec fn is_capacity_gap(c: CoverageGap) -> bool {
    &&& c.id@ == "p2.capacity"@
    &&& c.plane == MeasurementPlane::Capacity
    &&& c.region@ == "capacity"@
    &&& c.path is None
    &&& c.status == RegionStatus::Unmeasurable
    &&& c.reason == CoverageGapReason::RootUnmeasurable
    &&& c.stage matches Some(st) && st@ == "capacity_measurement"@
    &&& c.errno is None
}

/// The gaps of a scan before ordering: the scan's own gaps, then each report's.
pub open spec fn scan_gaps(pre: Seq<CoverageGap>, reports: Seq<AdapterReport>, capacity: RegionStatus) -> bool {
    let capacity_unmeasurable = capacity == RegionStatus::Unmeasurable;
    let own = (if reports.len() == 0 {
        1int
    } else {
        0int
    }) + (if capacity_unmeasurable {
        1int
    } else {
        0int
    });
    &&& pre.len() == own + all_gaps(reports).len()
    &&& reports.len() == 0 ==> is_no_adapter_gap(pre[0])
    &&& capacity_unmeasurable ==> is_capacity_gap(pre[own - 1])
    &&& pre.subrange(own, pre.len() as int) == all_gaps(reports)
}

fn report_le_exec(a: &AdapterReport, b: &AdapterReport) -> (r: bool)
    ensures
        r == (report_le())(*a, *b),
{
    let ac = chars_of(a.id.as_str());
    let bc = chars_of(b.id.as_str());
    compare_chars(ac.as_slice(), bc.as_slice()) <= 0
}

fn coverage_le_exec(a: &CoverageGap, b: &CoverageGap) -> (r: bool)
    ensures
        r == (coverage_le())(*a, *b),
{
    let ac = chars_of(a.id.as_str());
    let bc = chars_of(b.id.as_str());
    compare_chars(ac.as_slice(), bc.as_slice()) <= 0
}

fn sort_reports(reports: Vec<AdapterReport>) -> (r: Vec<AdapterReport>)
    ensures
        r@ == sort_stable(reports@, report_le()),
{
    let mut sorted: Vec<AdapterReport> = Vec::new();
    let mut pending = reports;
    let ghost input = pending@;
    let ghost mut done: Seq<AdapterReport> = Seq::empty();
    while pending.len() > 0
        invariant
            done + pending@ == input,
            sorted@ == sort_stable(done, report_le()),
        decreases pending.len(),
    {
        let a = pending.remove(0);
        let mut j: usize = sorted.len();
        while j > 0 && !report_le_exec(&sorted[j - 1], &a)
            invariant
                j <= sorted.len(),
                forall|k: int| j <= k < sorted@.len() ==> !(report_le())(#[trigger] sorted@[k], a),
            decreases j,
        {
            j = j - 1;
        }
        proof {
            lemma_insert_at(sorted@, a, report_le(), j as int);
            let next = done.push(a);
            assert(next.drop_last() =~= done);
            assert(next + pending@ =~= input);
            done = next;
        }
        sorted.insert(j, a);
    }
    assert(done =~= input);
    sorted
}

fn sort_coverage(gaps: Vec<CoverageGap>) -> (r: Vec<CoverageGap>)
    ensures
        r@ == sort_stable(gaps@, coverage_le()),
{
    let mut sorted: Vec<CoverageGap> = Vec::new();
    let mut pending = gaps;
    let ghost input = pending@;
    let ghost mut done: Seq<CoverageGap> = Seq::empty();
    while pending.len() > 0
        invariant
            done + pending@ == input,
            sorted@ == sort_stable(done, coverage_le()),
        decreases pending.len(),
    {
        let g = pending.remove(0);
        let mut j: usize = sorted.len();
        while j > 0 && !coverage_le_exec(&sorted[j - 1], &g)
            invariant
                j <= sorted.len(),
                forall|k: int| j <= k < sorted@.len() ==> !(coverage_le())(#[trigger] sorted@[k], g),
            decreases j,
        {
            j = j - 1;
        }
        proof {
            lemma_insert_at(sorted@, g, coverage_le(), j as int);
            let next = done.push(g);
            assert(next.drop_last() =~= done);
            assert(next + pending@ =~= input);
            done = next;
        }
        sorted.insert(j, g);
    }
    assert(done =~= input);
    sorted
}

/// Adapter reports with distinct IDs come out in one order, whatever order they
/// arrived in: the regions of a scan do not depend on adapter arrival order.
pub proof fn lemma_regions_ignore_arrival_order(a: Seq<AdapterReport>, b: Seq<AdapterReport>)
    requires
        a.to_multiset() == b.to_multiset(),
        forall|i: int, j: int| 0 <= i < a.len() && 0 <= j < a.len() && i != j ==> a[i].id@ != a[j].id@,
    ensures
        sort_stable(a, report_le()) == sort_stable(b, report_le()),
{
    let le = report_le();
    assert forall|x: AdapterReport, y: AdapterReport| #[trigger] le(x, y) || le(y, x) by {
        crate::order::lemma_lex_antisymmetric(x.id@, y.id@);
    }
    assert forall|x: AdapterReport, y: AdapterReport, z: AdapterReport|
        #[trigger] le(x, y) && #[trigger] le(y, z) implies le(x, z) by {
        crate::order::lemma_lex_transitive(x.id@, y.id@, z.id@);
    }
    assert forall|i: int, j: int|
        0 <= i < a.len() && 0 <= j < a.len() && le(#[trigger] a[i], #[trigger] a[j]) && le(a[j], a[i])
            implies a[i] == a[j] by {
        crate::order::lemma_lex_antisymmetric(a[i].id@, a[j].id@);
    }
    crate::order::lemma_sort_ignores_arrival_order(a, b, le);
}

/// The payload of a scan depends on its adapter reports only through their order by
/// ID: two arrival orders of reports with distinct IDs give the same ordered
/// reports, hence the same regions, the same findings to normalize and order, and
/// the same coverage gaps to order.
pub proof fn lemma_payload_ignores_arrival_order(
    a: Seq<AdapterReport>,
    b: Seq<AdapterReport>,
    capacity: RegionStatus,
)
    requires
        a.to_multiset() == b.to_multiset(),
        forall|i: int, j: int| 0 <= i < a.len() && 0 <= j < a.len() && i != j ==> a[i].id@ != a[j].id@,
    ensures
        sort_stable(a, report_le()) == sort_stable(b, report_le()),
        all_findings(sort_stable(a, report_le())) == all_findings(sort_stable(b, report_le())),
        forall|pre: Seq<CoverageGap>|
            #[trigger] scan_gaps(pre, sort_stable(a, report_le()), capacity) == scan_gaps(
                pre,
                sort_stable(b, report_le()),
                capacity,
            ),
{
    lemma_regions_ignore_arrival_order(a, b);
}

/// The scan document: capacity first among the regions, then each adapter's region
/// in adapter-ID order; every finding normalized and ordered; every gap (the scan's
/// own for no adapter and for unmeasurable capacity, then the adapters') ordered by ID.
pub fn scan(
    environment: EnvironmentEnvelope,
    capacity: CapacityReport,
    adapters: Vec<AdapterReport>,
) -> (r: ScanDocument)
    ensures
        r.schema_version@ == SCHEMA_VERSION@,
        r.tool_version@ == TOOL_VERSION@,
        r.environment == environment,
        r.payload.capacity@ == capacity.values@,
        ({
            let sorted = sort_stable(adapters@, report_le());
            &&& r.payload.regions@.len() == sorted.len() + 1
            &&& r.payload.regions@[0].id@ == "capacity"@
            &&& r.payload.regions@[0].status == capacity.status
            &&& r.payload.regions@[0].warnings@.len() == 0
            &&& forall|k: int|
                0 <= k < sorted.len() ==> (#[trigger] r.payload.regions@[k + 1]).id == sorted[k].id
                    && r.payload.regions@[k + 1].status == sorted[k].status
                    && r.payload.regions@[k + 1].warnings == sorted[k].warnings
            &&& findings_normalized_from(all_findings(sorted), r.payload.findings@)
            &&& exists|pre: Seq<CoverageGap>|
                #[trigger] scan_gaps(pre, sorted, capacity.status)
                    && r.payload.coverage_gaps@ == sort_stable(pre, coverage_le())
        }),
{
    let sorted = sort_reports(adapters);
    let ghost sorted_view = sorted@;
    let mut coverage_gaps: Vec<CoverageGap> = Vec::new();
    if sorted.len() == 0 {
        coverage_gaps.push(
            CoverageGap {
                id: "p1.toolchain_adapters".to_owned(),
                plane: MeasurementPlane::ToolchainAttribution,
                region: "toolchain_adapters".to_owned(),
                path: None,
                status: RegionStatus::Unmeasurable,
                reason: CoverageGapReason::NoAdaptersCompiled,
                stage: None,
                errno: None,
            },
        );
    }
    let capacity_unmeasurable = matches!(capacity.status, RegionStatus::Unmeasurable);
    if capacity_unmeasurable {
        coverage_gaps.push(
            CoverageGap {
                id: "p2.capacity".to_owned(),
                plane: MeasurementPlane::Capacity,
                region: "capacity".to_owned(),
                path: None,
                status: RegionStatus::Unmeasurable,
                reason: CoverageGapReason::RootUnmeasurable,
                stage: Some("capacity_measurement".to_owned()),
                errno: None,
            },
        );
    }
    let ghost own = coverage_gaps@;
    let mut regions: Vec<RegionReport> = Vec::new();
    regions.push(RegionReport { id: "capacity".to_owned(), status: capacity.status, warnings: Vec::new() });
    let mut findings: Vec<Finding> = Vec::new();
    let mut pending = sorted;
    let ghost mut done: Seq<AdapterReport> = Seq::empty();
    while pending.len() > 0
        invariant
            done + pending@ == sorted_view,
            regions@.len() == done.len() + 1,
            regions@[0].id@ == "capacity"@,
            regions@[0].status == capacity.status,
            regions@[0].warnings@.len() == 0,
            forall|k: int|
                0 <= k < done.len() ==> (#[trigger] regions@[k + 1]).id == done[k].id
                    && regions@[k + 1].status == done[k].status && regions@[k + 1].warnings
                    == done[k].warnings,
            findings@ == all_findings(done),
            coverage_gaps@ == own + all_gaps(done),
        decreases pending.len(),
    {
        let a = pending.remove(0);
        let ghost next = done.push(a);
        assert(next.drop_last() =~= done);
        let AdapterReport { id, status, tool_version: _, warnings, findings: mut report_findings, coverage_gaps: mut report_gaps } = a;
        let ghost af = report_findings@;
        let ghost ag = report_gaps@;
        regions.push(RegionReport { id, status, warnings });
        findings.append(&mut report_findings);
        coverage_gaps.append(&mut report_gaps);
        proof {
            assert(findings@ =~= all_findings(next));
            assert(coverage_gaps@ =~= own + all_gaps(next));
            assert(next + pending@ =~= sorted_view);
            done = next;
        }
    }
    proof {
        assert(done =~= sorted_view);
        let own_count = (if sorted_view.len() == 0 {
            1int
        } else {
            0int
        }) + (if capacity_unmeasurable {
            1int
        } else {
            0int
        });
        assert(own.len() == own_count);
        assert(coverage_gaps@.subrange(own_count, coverage_gaps@.len() as int) =~= all_gaps(sorted_view));
        reveal_strlit("p1.toolchain_adapters");
        reveal_strlit("p2.capacity");
        assert(scan_gaps(coverage_gaps@, sorted_view, capacity.status));
    }
    let ghost pre = coverage_gaps@;
    let ghost before = findings@;
    normalize_findings(&mut findings);
    let coverage_gaps = sort_coverage(coverage_gaps);
    ScanDocument {
        schema_version: SCHEMA_VERSION,
        tool_version: TOOL_VERSION,
        environment,
        payload: ScanPayload { capacity: capacity.values, regions, findings, coverage_gaps },
    }
}

} // verus!
