//! Xcode and CoreSimulator: the selected developer directory and the exact Xcode
//! build are verified before any simulator inventory, and the simulator tool runs
//! only when CoreSimulator's own version matches that build.

use vstd::prelude::*;
use vstd::utf8::{decode_utf8, encode_utf8, valid_utf8};

use crate::adapters::store::{excluded, measurement_is, spec_excluded};
use crate::adapters::{
    AdapterDegradedReason, AdapterId, AdapterState, Inventory, InventoryGap, InventoryGapReason,
    InventoryIdentity, InventoryItem, InventoryStage, ProbeStep, ToolchainAdapter, classifiable,
    errno_reason, finding_for, finding_of, reason_for_errno,
};
use crate::json::{
    JsonValue, get_member, is_object, json_document, member, opt_bool_field, opt_text_field,
    parse_json, read_opt_bool, read_opt_text,
};
use crate::lexical::{
    contains_chars, contains_run, lines, lossy_text, lossy_utf8, split_lines, trim, trim_chars,
    utf8_text,
};
use crate::model::{
    Advice, AdviceImpact, Finding, FindingSubject, Measurement, MeasurementBasis,
    MeasurementCoverage, MeasurementCoverageStatus, MeasurementPlane, MeasurementQuantity,
    MeasurementScope, MeasurementScopeKind, MeasurementValue, advice_views, command_advice,
    command_view, findings_normalized_from, normalize_findings, normalized_report_path,
    reveal_advice, reveal_view, spec_normalized_report_path,
};
use crate::paths::{ends_with, is_absolute, join, join_paths, path_ends_with};
use crate::policy::{
    CommandOutput, PolicyError, ProbeId, xcode_core_simulator_version, xcode_first_launch_status,
    xcode_select_developer_dir, xcode_simctl_devices, xcode_simctl_runtimes,
    xcode_xcodebuild_version,
};
use crate::rules::Rule;
use crate::text::{chars_of, extend_chars, str_eq, string_of};

verus! {

pub fn select_developer_dir() -> (r: ProbeId)
    ensures
        r@ == "xcode.select_developer_dir"@,
{
    xcode_select_developer_dir()
}

pub fn xcodebuild_version() -> (r: ProbeId)
    ensures
        r@ == "xcode.xcodebuild_version"@,
{
    xcode_xcodebuild_version()
}

pub fn first_launch_status() -> (r: ProbeId)
    ensures
        r@ == "xcode.first_launch_status"@,
{
    xcode_first_launch_status()
}

pub fn core_simulator_version() -> (r: ProbeId)
    ensures
        r@ == "xcode.core_simulator_version"@,
{
    xcode_core_simulator_version()
}

pub fn simctl_devices() -> (r: ProbeId)
    ensures
        r@ == "xcode.simctl_devices"@,
{
    xcode_simctl_devices()
}

pub fn simctl_runtimes() -> (r: ProbeId)
    ensures
        r@ == "xcode.simctl_runtimes"@,
{
    xcode_simctl_runtimes()
}

/// The Xcode version, build and CoreSimulator version of each verified Xcode.
pub open spec fn verified_xcode(k: int) -> (Seq<char>, Seq<char>, Seq<char>) {
    if k == 0 {
        ("16.4"@, "16F6"@, "1010.15"@)
    } else if k == 1 {
        ("26.6"@, "17F113"@, "1051.55"@)
    } else {
        ("27.0"@, "27A5228h"@, "1169.1"@)
    }
}

fn verified_xcode_entry(k: usize) -> (r: (&'static str, &'static str, &'static str))
    requires
        k < 3,
    ensures
        (r.0@, r.1@, r.2@) == verified_xcode(k as int),
{
    if k == 0 {
        ("16.4", "16F6", "1010.15")
    } else if k == 1 {
        ("26.6", "17F113", "1051.55")
    } else {
        ("27.0", "27A5228h", "1169.1")
    }
}

pub open spec fn is_verified_build(version: Seq<char>, build: Seq<char>) -> bool {
    exists|k: int| 0 <= k < 3 && (#[trigger] verified_xcode(k)).0 == version && verified_xcode(k).1 == build
}

/// `s` ends with `suffix`, character for character.
pub open spec fn ends_with_text(s: Seq<char>, suffix: Seq<char>) -> bool {
    s.len() >= suffix.len() && s.subrange(s.len() - suffix.len(), s.len() as int) == suffix
}

/// `s` begins with `prefix`, character for character.
pub open spec fn starts_with_text(s: Seq<char>, prefix: Seq<char>) -> bool {
    s.len() >= prefix.len() && s.subrange(0, prefix.len() as int) == prefix
}

fn ends_with_chars(s: &[char], suffix: &str) -> (r: bool)
    ensures
        r == ends_with_text(s@, suffix@),
{
    let t = chars_of(suffix);
    if t.len() > s.len() {
        return false;
    }
    let start = s.len() - t.len();
    let mut k: usize = start;
    while k < s.len()
        invariant
            start + t@.len() == s@.len(),
            t@ == suffix@,
            start <= k <= s@.len(),
            forall|j: int| 0 <= j < k - start ==> s@[start + j] == t@[j],
        decreases s.len() - k,
    {
        if s[k] != t[k - start] {
            assert(s@.subrange(start as int, s@.len() as int)[k - start] != t@[k - start]);
            return false;
        }
        k = k + 1;
    }
    assert(s@.subrange(start as int, s@.len() as int) =~= t@);
    true
}

fn strip_prefix_chars(s: &[char], prefix: &str) -> (r: Option<Vec<char>>)
    ensures
        match r {
            Some(rest) => starts_with_text(s@, prefix@) && rest@ == s@.subrange(
                prefix@.len() as int,
                s@.len() as int,
            ),
            None => !starts_with_text(s@, prefix@),
        },
{
    let p = chars_of(prefix);
    if p.len() > s.len() {
        return None;
    }
    let mut i: usize = 0;
    while i < p.len()
        invariant
            p@ == prefix@,
            p@.len() <= s@.len(),
            i <= p@.len(),
            forall|j: int| 0 <= j < i ==> s@[j] == p@[j],
        decreases p.len() - i,
    {
        if s[i] != p[i] {
            assert(s@.subrange(0, p@.len() as int)[i as int] != p@[i as int]);
            return None;
        }
        i = i + 1;
    }
    assert(s@.subrange(0, p@.len() as int) =~= p@);
    Some(crate::lexical::slice_chars(s, p.len(), s.len()))
}

/// What the developer-directory outcome decides: not present when the command could
/// not start, failed, or selects the command-line tools; an invalid selection unless
/// it names an app bundle's `Contents/Developer`; otherwise on to the version probe.
pub open spec fn spec_after_select(outcome: Result<CommandOutput, PolicyError>) -> Option<
    AdapterState,
> {
    match outcome {
        Err(PolicyError::InvocationFailed(_)) => Some(AdapterState::NotPresent),
        Err(e) => Some(spec_degraded_from_policy(e)),
        Ok(output) => if !output.success {
            Some(AdapterState::NotPresent)
        } else {
            spec_selection_verdict(lossy_utf8(output.stdout@))
        },
    }
}

/// What the selected developer directory decides: the Command Line Tools alone are
/// no Xcode; a directory that is not an app's `Contents/Developer` is an invalid
/// selection; an app's goes on to the version probe (`None`).
pub open spec fn spec_selection_verdict(text: Seq<char>) -> Option<AdapterState> {
    let dir = trim(text);
    if ends_with_text(dir, "/Library/Developer/CommandLineTools"@) {
        Some(AdapterState::NotPresent)
    } else if !ends_with_text(dir, "/Contents/Developer"@) || !contains_run(dir, ".app/"@) {
        Some(
            AdapterState::Degraded {
                observed_version: None,
                reason: AdapterDegradedReason::InvalidSelection,
            },
        )
    } else {
        None
    }
}

pub fn selection_verdict(text: &str) -> (r: Option<AdapterState>)
    ensures
        r == spec_selection_verdict(text@),
{
    let chars = chars_of(text);
    let dir = trim_chars(chars.as_slice());
    if ends_with_chars(dir.as_slice(), "/Library/Developer/CommandLineTools") {
        return Some(AdapterState::NotPresent);
    }
    let app = chars_of(".app/");
    if !ends_with_chars(dir.as_slice(), "/Contents/Developer") || !contains_chars(
        dir.as_slice(),
        app.as_slice(),
    ) {
        return Some(
            AdapterState::Degraded {
                observed_version: None,
                reason: AdapterDegradedReason::InvalidSelection,
            },
        );
    }
    None
}

pub open spec fn spec_degraded_from_policy(error: PolicyError) -> AdapterState {
    AdapterState::Degraded {
        observed_version: None,
        reason: match error {
            PolicyError::Disabled(_) => AdapterDegradedReason::Disabled,
            _ => AdapterDegradedReason::ProbeFailed,
        },
    }
}

pub fn degraded_from_policy(error: PolicyError) -> (r: AdapterState)
    ensures
        r == spec_degraded_from_policy(error),
{
    let reason = match error {
        PolicyError::Disabled(_) => AdapterDegradedReason::Disabled,
        _ => AdapterDegradedReason::ProbeFailed,
    };
    AdapterState::Degraded { observed_version: None, reason }
}

/// The line of `xcodebuild -version` output at `index`, with `prefix` removed, when
/// that line has the prefix.
pub open spec fn version_line(text: Seq<char>, index: int, prefix: Seq<char>) -> Option<Seq<char>> {
    let ls = lines(text);
    if index < ls.len() && starts_with_text(ls[index], prefix) {
        Some(ls[index].subrange(prefix.len() as int, ls[index].len() as int))
    } else {
        None
    }
}

/// The version that `xcodebuild -version` output reports: `version (build)` when both
/// lines are there, the version alone when only it is.
pub open spec fn spec_xcode_observed(text: Seq<char>) -> Option<Seq<char>> {
    match (version_line(text, 0, "Xcode "@), version_line(text, 1, "Build version "@)) {
        (Some(v), Some(b)) => Some(v + " ("@ + b + ")"@),
        (Some(v), None) => Some(v),
        _ => None,
    }
}

pub open spec fn spec_xcode_verified(text: Seq<char>) -> bool {
    match (version_line(text, 0, "Xcode "@), version_line(text, 1, "Build version "@)) {
        (Some(v), Some(b)) => is_verified_build(v, b),
        _ => false,
    }
}

pub open spec fn observed_is(v: Option<String>, expected: Option<Seq<char>>) -> bool {
    match expected {
        None => v is None,
        Some(e) => v matches Some(t) && t@ == e,
    }
}

/// Where the Xcode probe stands.
#[derive(Debug)]
pub enum XcodeProbe {
    Select,
    Version,
    FirstLaunch { version: String },
}

/// The probe starts with the selected developer directory.
pub fn probe() -> (r: ProbeStep<XcodeProbe>)
    ensures
        r matches ProbeStep::Run { next: XcodeProbe::Select, probe } && probe@
            == "xcode.select_developer_dir"@,
{
    ProbeStep::Run { next: XcodeProbe::Select, probe: select_developer_dir() }
}

fn is_verified(version: &str, build: &str) -> (r: bool)
    ensures
        r == is_verified_build(version@, build@),
{
    let mut k: usize = 0;
    while k < 3
        invariant
            k <= 3,
            forall|j: int| 0 <= j < k ==> !((#[trigger] verified_xcode(j)).0 == version@
                && verified_xcode(j).1 == build@),
        decreases 3 - k,
    {
        let (v, b, _) = verified_xcode_entry(k);
        if str_eq(version, v) && str_eq(build, b) {
            return true;
        }
        k = k + 1;
    }
    false
}

fn line_after(text: &[char], index: usize, prefix: &str) -> (r: Option<Vec<char>>)
    ensures
        match version_line(text@, index as int, prefix@) {
            None => r is None,
            Some(v) => r matches Some(t) && t@ == v,
        },
{
    let ls = split_lines(text);
    if index >= ls.len() {
        return None;
    }
    strip_prefix_chars(ls[index].as_slice(), prefix)
}

fn concat_version(v: &[char], b: &[char]) -> (r: String)
    ensures
        r@ == v@ + " ("@ + b@ + ")"@,
{
    let mut out: Vec<char> = Vec::new();
    extend_chars(&mut out, v);
    let open = chars_of(" (");
    extend_chars(&mut out, open.as_slice());
    extend_chars(&mut out, b);
    let close = chars_of(")");
    extend_chars(&mut out, close.as_slice());
    string_of(out.as_slice())
}

/// What `xcodebuild -version` output decides: the observed version when it is a
/// verified build (`Ok`), else what was observed of it (`Err`).
pub fn version_verdict(text: &str) -> (r: Result<String, Option<String>>)
    ensures
        spec_xcode_verified(text@) ==> (r matches Ok(v) && v@ == spec_xcode_observed(text@)->0),
        !spec_xcode_verified(text@) ==> (r matches Err(o) && observed_is(o, spec_xcode_observed(text@))),
{
    let chars = chars_of(text);
    let version_number = line_after(chars.as_slice(), 0, "Xcode ");
    let build = line_after(chars.as_slice(), 1, "Build version ");
    match (version_number, build) {
        (Some(v), Some(b)) => {
            let vs = string_of(v.as_slice());
            let bs = string_of(b.as_slice());
            let observed = concat_version(v.as_slice(), b.as_slice());
            if is_verified(vs.as_str(), bs.as_str()) {
                Ok(observed)
            } else {
                Err(Some(observed))
            }
        },
        (Some(v), None) => Err(Some(string_of(v.as_slice()))),
        _ => Err(None),
    }
}

impl XcodeProbe {
    /// Resumes the probe with the outcome of the probe it asked to run.
    pub fn resume(self, outcome: Result<CommandOutput, PolicyError>) -> (r: ProbeStep<XcodeProbe>)
        ensures
            match self {
                XcodeProbe::Select => match spec_after_select(outcome) {
                    None => r matches ProbeStep::Run { next: XcodeProbe::Version, probe } && probe@
                        == "xcode.xcodebuild_version"@,
                    Some(state) => r == ProbeStep::<XcodeProbe>::Finished(state),
                },
                XcodeProbe::Version => match outcome {
                    Err(e) => r == ProbeStep::<XcodeProbe>::Finished(spec_degraded_from_policy(e)),
                    Ok(output) => if !output.success {
                        r == ProbeStep::<XcodeProbe>::Finished(
                            AdapterState::Degraded {
                                observed_version: None,
                                reason: AdapterDegradedReason::ProbeFailed,
                            },
                        )
                    } else if spec_xcode_verified(lossy_utf8(output.stdout@)) {
                        r matches ProbeStep::Run { next: XcodeProbe::FirstLaunch { version }, probe }
                            && probe@ == "xcode.first_launch_status"@ && version@
                            == spec_xcode_observed(lossy_utf8(output.stdout@))->0
                    } else {
                        r matches ProbeStep::Finished(
                            AdapterState::Degraded {
                                observed_version,
                                reason: AdapterDegradedReason::UnknownVersion,
                            },
                        ) && observed_is(
                            observed_version,
                            spec_xcode_observed(lossy_utf8(output.stdout@)),
                        )
                    },
                },
                XcodeProbe::FirstLaunch { version } => match outcome {
                    Err(e) => r == ProbeStep::<XcodeProbe>::Finished(spec_degraded_from_policy(e)),
                    Ok(output) => if output.success {
                        r == ProbeStep::<XcodeProbe>::Finished(AdapterState::Ready { version })
                    } else {
                        r == ProbeStep::<XcodeProbe>::Finished(
                            AdapterState::Degraded {
                                observed_version: Some(version),
                                reason: AdapterDegradedReason::NotReady,
                            },
                        )
                    },
                },
            },
    {
        match self {
            XcodeProbe::Select => match outcome {
                Err(PolicyError::InvocationFailed(_)) => ProbeStep::Finished(AdapterState::NotPresent),
                Err(e) => ProbeStep::Finished(degraded_from_policy(e)),
                Ok(output) => {
                    if !output.success {
                        return ProbeStep::Finished(AdapterState::NotPresent);
                    }
                    let text = lossy_text(output.stdout.as_slice());
                    match selection_verdict(text.as_str()) {
                        Some(state) => ProbeStep::Finished(state),
                        None => ProbeStep::Run { next: XcodeProbe::Version, probe: xcodebuild_version() },
                    }
                },
            },
            XcodeProbe::Version => match outcome {
                Err(e) => ProbeStep::Finished(degraded_from_policy(e)),
                Ok(output) => {
                    if !output.success {
                        return ProbeStep::Finished(
                            AdapterState::Degraded {
                                observed_version: None,
                                reason: AdapterDegradedReason::ProbeFailed,
                            },
                        );
                    }
                    let text = lossy_text(output.stdout.as_slice());
                    match version_verdict(text.as_str()) {
                        Ok(observed) => ProbeStep::Run {
                            next: XcodeProbe::FirstLaunch { version: observed },
                            probe: first_launch_status(),
                        },
                        Err(observed_version) => ProbeStep::Finished(
                            AdapterState::Degraded {
                                observed_version,
                                reason: AdapterDegradedReason::UnknownVersion,
                            },
                        ),
                    }
                },
            },
            XcodeProbe::FirstLaunch { version } => match outcome {
                Err(e) => ProbeStep::Finished(degraded_from_policy(e)),
                Ok(output) => {
                    if output.success {
                        ProbeStep::Finished(AdapterState::Ready { version })
                    } else {
                        ProbeStep::Finished(
                            AdapterState::Degraded {
                                observed_version: Some(version),
                                reason: AdapterDegradedReason::NotReady,
                            },
                        )
                    }
                },
            },
        }
    }
}

pub open spec fn is_hex_digit(c: char) -> bool {
    ('0' <= c && c <= '9') || ('a' <= c && c <= 'f') || ('A' <= c && c <= 'F')
}

/// A simulator UDID: 36 characters, hyphens at 8, 13, 18 and 23, hexadecimal digits
/// everywhere else.
pub open spec fn spec_valid_udid(v: Seq<char>) -> bool {
    v.len() == 36 && forall|i: int|
        0 <= i < 36 ==> if i == 8 || i == 13 || i == 18 || i == 23 {
            #[trigger] v[i] == '-'
        } else {
            is_hex_digit(v[i])
        }
}

pub fn valid_udid(value: &str) -> (r: bool)
    ensures
        r == spec_valid_udid(value@),
{
    let v = chars_of(value);
    if v.len() != 36 {
        return false;
    }
    let mut i: usize = 0;
    while i < 36
        invariant
            v@ == value@,
            v@.len() == 36,
            i <= 36,
            forall|j: int|
                0 <= j < i ==> if j == 8 || j == 13 || j == 18 || j == 23 {
                    #[trigger] v@[j] == '-'
                } else {
                    is_hex_digit(v@[j])
                },
        decreases 36 - i,
    {
        let c = v[i];
        let ok = if i == 8 || i == 13 || i == 18 || i == 23 {
            c == '-'
        } else {
            ('0' <= c && c <= '9') || ('a' <= c && c <= 'f') || ('A' <= c && c <= 'F')
        };
        if !ok {
            return false;
        }
        i = i + 1;
    }
    true
}

pub open spec fn is_identifier_char(c: char) -> bool {
    ('0' <= c && c <= '9') || ('a' <= c && c <= 'z') || ('A' <= c && c <= 'Z') || c == '.' || c
        == '-' || c == '_'
}

/// A runtime identifier: the CoreSimulator runtime prefix, then only ASCII letters,
/// digits, dots, hyphens and underscores.
pub open spec fn spec_valid_runtime_identifier(v: Seq<char>) -> bool {
    starts_with_text(v, "com.apple.CoreSimulator.SimRuntime."@) && forall|i: int|
        0 <= i < v.len() ==> is_identifier_char(#[trigger] v[i])
}

pub fn valid_runtime_identifier(value: &str) -> (r: bool)
    ensures
        r == spec_valid_runtime_identifier(value@),
{
    let v = chars_of(value);
    if strip_prefix_chars(v.as_slice(), "com.apple.CoreSimulator.SimRuntime.").is_none() {
        return false;
    }
    let mut i: usize = 0;
    while i < v.len()
        invariant
            v@ == value@,
            i <= v@.len(),
            forall|j: int| 0 <= j < i ==> is_identifier_char(#[trigger] v@[j]),
        decreases v.len() - i,
    {
        let c = v[i];
        if !(('0' <= c && c <= '9') || ('a' <= c && c <= 'z') || ('A' <= c && c <= 'Z') || c == '.'
            || c == '-' || c == '_') {
            return false;
        }
        i = i + 1;
    }
    true
}

pub open spec fn spec_degraded_gap(reason: AdapterDegradedReason) -> InventoryGapReason {
    match reason {
        AdapterDegradedReason::UnknownVersion => InventoryGapReason::UnknownVersion,
        AdapterDegradedReason::NotReady => InventoryGapReason::NotReady,
        AdapterDegradedReason::Disabled => InventoryGapReason::Disabled,
        AdapterDegradedReason::ProbeFailed => InventoryGapReason::ProbeFailed,
        AdapterDegradedReason::InvalidSelection => InventoryGapReason::ProbeFailed,
    }
}

pub fn degraded_gap(reason: AdapterDegradedReason) -> (r: InventoryGapReason)
    ensures
        r == spec_degraded_gap(reason),
{
    match reason {
        AdapterDegradedReason::UnknownVersion => InventoryGapReason::UnknownVersion,
        AdapterDegradedReason::NotReady => InventoryGapReason::NotReady,
        AdapterDegradedReason::Disabled => InventoryGapReason::Disabled,
        AdapterDegradedReason::ProbeFailed => InventoryGapReason::ProbeFailed,
        AdapterDegradedReason::InvalidSelection => InventoryGapReason::ProbeFailed,
    }
}

pub open spec fn spec_policy_gap(error: PolicyError) -> InventoryGapReason {
    match error {
        PolicyError::TimedOut(_) => InventoryGapReason::TimedOut,
        PolicyError::Disabled(_) => InventoryGapReason::Disabled,
        _ => InventoryGapReason::ProbeFailed,
    }
}

pub fn policy_gap(error: PolicyError) -> (r: InventoryGapReason)
    ensures
        r == spec_policy_gap(error),
{
    match error {
        PolicyError::TimedOut(_) => InventoryGapReason::TimedOut,
        PolicyError::Disabled(_) => InventoryGapReason::Disabled,
        _ => InventoryGapReason::ProbeFailed,
    }
}

pub open spec fn is_probe_gap(gap: InventoryGap, reason: InventoryGapReason) -> bool {
    gap.region@ == "xcode.simctl"@ && gap.path is None && gap.reason == reason && gap.stage is None
        && gap.errno is None
}

/// A gap of the simulator tool's output.
pub fn probe_gap(reason: InventoryGapReason) -> (r: InventoryGap)
    ensures
        is_probe_gap(r, reason),
{
    InventoryGap::diagnostic("xcode.simctl", reason)
}

/// A path that could not be listed or measured: missing or changed, denied, denied
/// by a policy of unknown cause, or a traversal failure, by its errno; the stage and
/// errno are kept and nothing is said of Full Disk Access.
pub fn io_gap(region: &'static str, path: &str, stage: InventoryStage, errno: Option<i32>) -> (r:
    InventoryGap)
    ensures
        r.region == region,
        r.path matches Some(p) && p@ == path@,
        r.reason == errno_reason(errno),
        r.stage == Some(stage),
        r.errno == errno,
{
    InventoryGap {
        region,
        path: Some(path.to_owned()),
        reason: reason_for_errno(errno),
        stage: Some(stage),
        errno,
    }
}

/// The gap of a volume whose snapshot state could not be read.
pub fn snapshot_gap(errno: Option<i32>) -> (r: InventoryGap)
    ensures
        r.region@ == "xcode"@,
        r.path is None,
        r.reason == InventoryGapReason::VolumeSnapshotStateUnavailable,
        r.stage == Some(InventoryStage::VolumeSnapshots),
        r.errno == errno,
{
    InventoryGap {
        region: "xcode",
        path: None,
        reason: InventoryGapReason::VolumeSnapshotStateUnavailable,
        stage: Some(InventoryStage::VolumeSnapshots),
        errno,
    }
}

/// Whether inventory may start: nothing at all for an absent Xcode, only the gap of
/// its reason for a degraded one, the inventory for a ready one.
pub fn inventory_gate(state: &AdapterState) -> (r: Result<(), Option<InventoryGap>>)
    ensures
        match *state {
            AdapterState::NotPresent => r == Err::<(), Option<InventoryGap>>(None),
            AdapterState::Degraded { reason, .. } => r matches Err(Some(gap)) && gap.region@
                == "xcode"@ && gap.path is None && gap.reason == spec_degraded_gap(reason)
                && gap.stage is None && gap.errno is None,
            AdapterState::Ready { .. } => r is Ok,
        },
{
    match state {
        AdapterState::NotPresent => Err(None),
        AdapterState::Degraded { reason, .. } => Err(
            Some(InventoryGap::diagnostic("xcode", degraded_gap(*reason))),
        ),
        AdapterState::Ready { .. } => Ok(()),
    }
}

/// The CoreSimulator version that a ready, verified Xcode must come with.
pub open spec fn spec_core_simulator_expected(state: AdapterState) -> Result<Seq<char>, InventoryGapReason> {
    match state {
        AdapterState::Ready { version } => if exists|k: int|
            0 <= k < 3 && version@ == (#[trigger] verified_xcode(k)).0 + " ("@ + verified_xcode(k).1
                + ")"@ {
            let k = choose|k: int|
                0 <= k < 3 && version@ == (#[trigger] verified_xcode(k)).0 + " ("@
                    + verified_xcode(k).1 + ")"@;
            Ok(verified_xcode(k).2)
        } else {
            Err(InventoryGapReason::UnknownVersion)
        },
        _ => Err(InventoryGapReason::UnknownVersion),
    }
}

proof fn lemma_versions_distinct()
    ensures
        forall|a: int, b: int|
            0 <= a < 3 && 0 <= b < 3 && #[trigger] verified_xcode(a) != #[trigger] verified_xcode(b)
                ==> verified_xcode(a).0 + " ("@ + verified_xcode(a).1 + ")"@ != verified_xcode(b).0
                + " ("@ + verified_xcode(b).1 + ")"@,
{
    reveal_strlit("16.4");
    reveal_strlit("16F6");
    reveal_strlit("26.6");
    reveal_strlit("17F113");
    reveal_strlit("27.0");
    reveal_strlit("27A5228h");
    reveal_strlit(" (");
    reveal_strlit(")");
    reveal_strlit("1010.15");
    reveal_strlit("1051.55");
    reveal_strlit("1169.1");
    assert forall|a: int, b: int|
        0 <= a < 3 && 0 <= b < 3 && #[trigger] verified_xcode(a) != #[trigger] verified_xcode(b)
            implies verified_xcode(a).0 + " ("@ + verified_xcode(a).1 + ")"@ != verified_xcode(b).0
            + " ("@ + verified_xcode(b).1 + ")"@ by {
        let x = verified_xcode(a).0 + " ("@ + verified_xcode(a).1 + ")"@;
        let y = verified_xcode(b).0 + " ("@ + verified_xcode(b).1 + ")"@;
        if a != b {
            assert(x[1] != y[1] || x[0] != y[0] || x[3] != y[3]);
        }
    }
}

pub fn core_simulator_expected(state: &AdapterState) -> (r: Result<&'static str, InventoryGapReason>)
    ensures
        match spec_core_simulator_expected(*state) {
            Ok(v) => r matches Ok(t) && t@ == v,
            Err(e) => r == Err::<&'static str, InventoryGapReason>(e),
        },
{
    let version = match state {
        AdapterState::Ready { version } => version,
        _ => {
            return Err(InventoryGapReason::UnknownVersion);
        },
    };
    let mut k: usize = 0;
    while k < 3
        invariant
            *state == (AdapterState::Ready { version: *version }),
            k <= 3,
            forall|j: int|
                0 <= j < k ==> version@ != (#[trigger] verified_xcode(j)).0 + " ("@
                    + verified_xcode(j).1 + ")"@,
        decreases 3 - k,
    {
        let (x, b, core) = verified_xcode_entry(k);
        let vx = chars_of(x);
        let vb = chars_of(b);
        let expected = concat_version(vx.as_slice(), vb.as_slice());
        if str_eq(version.as_str(), expected.as_str()) {
            proof {
                lemma_versions_distinct();
                let c = choose|c: int|
                    0 <= c < 3 && version@ == (#[trigger] verified_xcode(c)).0 + " ("@
                        + verified_xcode(c).1 + ")"@;
                assert(verified_xcode(c) == verified_xcode(k as int));
            }
            return Ok(core);
        }
        k = k + 1;
    }
    Err(InventoryGapReason::UnknownVersion)
}

/// What the CoreSimulator version outcome decides: the policy's refusal or the
/// command's failure as a gap; output that is not UTF-8 is invalid; a version other
/// than the expected one is a mismatch.
pub open spec fn spec_core_simulator_check(
    expected: Seq<char>,
    outcome: Result<CommandOutput, PolicyError>,
) -> Result<(), InventoryGapReason> {
    match outcome {
        Err(e) => Err(spec_policy_gap(e)),
        Ok(output) => if !output.success {
            Err(InventoryGapReason::ProbeFailed)
        } else if !valid_utf8(output.stdout@) {
            Err(InventoryGapReason::InvalidToolOutput)
        } else if trim(decode_utf8(output.stdout@)) != expected {
            Err(InventoryGapReason::CoreSimulatorVersionMismatch)
        } else {
            Ok(())
        },
    }
}

pub fn core_simulator_check(expected: &str, outcome: Result<CommandOutput, PolicyError>) -> (r:
    Result<(), InventoryGapReason>)
    ensures
        r == spec_core_simulator_check(expected@, outcome),
{
    match outcome {
        Err(e) => Err(policy_gap(e)),
        Ok(output) => {
            if !output.success {
                return Err(InventoryGapReason::ProbeFailed);
            }
            let text = match utf8_text(output.stdout.as_slice()) {
                Some(t) => t,
                None => {
                    return Err(InventoryGapReason::InvalidToolOutput);
                },
            };
            let chars = chars_of(text.as_str());
            let observed = trim_chars(chars.as_slice());
            let e = chars_of(expected);
            if !crate::paths::seq_eq(observed.as_slice(), e.as_slice()) {
                return Err(InventoryGapReason::CoreSimulatorVersionMismatch);
            }
            Ok(())
        },
    }
}

/// The simulator tool wrote something other than whitespace to its error stream.
pub open spec fn spec_simctl_warning(stderr: Seq<u8>) -> bool {
    trim(lossy_utf8(stderr)).len() > 0
}

pub fn simctl_warning(stderr: &[u8]) -> (r: bool)
    ensures
        r == spec_simctl_warning(stderr@),
{
    let text = lossy_text(stderr);
    warning_text(text.as_str())
}

/// Whether decoded error output says anything beyond white space.
pub fn warning_text(text: &str) -> (r: bool)
    ensures
        r == (trim(text@).len() > 0),
{
    let chars = chars_of(text);
    trim_chars(chars.as_slice()).len() > 0
}

/// One device record of a parsed listing: its UDID, name,
/// availability and data path, each optional; `None` when a field has another type.
pub open spec fn device_record(v: JsonValue) -> Option<
    (Option<Seq<char>>, Option<Seq<char>>, Option<bool>, Option<Seq<char>>),
> {
    if !is_object(v) {
        None
    } else {
        match (
            opt_text_field(v, "udid"@),
            opt_text_field(v, "name"@),
            opt_bool_field(v, "isAvailable"@),
            opt_text_field(v, "dataPath"@),
        ) {
            (Ok(a), Ok(b), Ok(c), Ok(d)) => Some((a, b, c, d)),
            _ => None,
        }
    }
}

/// A device that names itself properly: all four fields, a valid UDID, and an
/// absolute data path that ends in the device set's directory for that UDID.
pub open spec fn device_verdict(v: JsonValue) -> Option<(Seq<char>, Seq<char>, bool)> {
    match device_record(v) {
        Some((Some(udid), Some(name), Some(available), Some(data_path))) => if spec_valid_udid(udid)
            && is_absolute(data_path) && ends_with(
            data_path,
            "Library/Developer/CoreSimulator/Devices/"@ + udid + "/data"@,
        ) {
            Some((udid, name, available))
        } else {
            None
        },
        _ => None,
    }
}

/// The runtime/device pairs of a devices document, runtime by runtime.
pub open spec fn device_pairs(members: Seq<(String, JsonValue)>) -> Seq<(Seq<char>, JsonValue)>
    decreases members.len(),
{
    if members.len() == 0 {
        Seq::empty()
    } else {
        device_pairs(members.drop_last()) + match members.last().1 {
            JsonValue::Array(devices) => devices@.map_values(
                |d: JsonValue| (members.last().0@, d),
            ),
            _ => Seq::empty(),
        }
    }
}

/// The devices document has the shape the simulator tool prints: an object whose
/// `devices` member maps each runtime to an array of device records.
pub open spec fn devices_shape(doc: JsonValue) -> Option<Seq<(String, JsonValue)>> {
    if !is_object(doc) {
        None
    } else {
        match member(doc, "devices"@) {
            Some(JsonValue::Object(members)) => if forall|i: int|
                0 <= i < members@.len() ==> (#[trigger] members@[i]).1 is Array && forall|j: int|
                    0 <= j < members@[i].1->Array_0@.len() ==> device_record(
                        #[trigger] members@[i].1->Array_0@[j],
                    ) is Some {
                Some(members@)
            } else {
                None
            },
            _ => None,
        }
    }
}

/// A device of the listing: its runtime, and its UDID, name and availability when it
/// names itself properly.
#[derive(Debug)]
pub struct DeviceEntry {
    pub runtime_identifier: String,
    pub device: Option<(String, String, bool)>,
}

pub open spec fn entry_is(e: DeviceEntry, pair: (Seq<char>, JsonValue)) -> bool {
    &&& e.runtime_identifier@ == pair.0
    &&& match device_verdict(pair.1) {
        None => e.device is None,
        Some((udid, name, available)) => e.device matches Some((u, n, a)) && u@ == udid && n@
            == name && a == available,
    }
}

fn read_device(v: &JsonValue) -> (r: Option<
    (Option<String>, Option<String>, Option<bool>, Option<String>),
>)
    ensures
        match device_record(*v) {
            None => r is None,
            Some((a, b, c, d)) => r matches Some((x, y, z, w)) && observed_is(x, a) && observed_is(
                y,
                b,
            ) && z == c && observed_is(w, d),
        },
{
    match v {
        JsonValue::Object(_) => {},
        _ => {
            return None;
        },
    }
    match (
        read_opt_text(v, "udid"),
        read_opt_text(v, "name"),
        read_opt_bool(v, "isAvailable"),
        read_opt_text(v, "dataPath"),
    ) {
        (Ok(a), Ok(b), Ok(c), Ok(d)) => Some((a, b, c, d)),
        _ => None,
    }
}

fn device_of(v: &JsonValue) -> (r: Option<(String, String, bool)>)
    requires
        device_record(*v) is Some,
    ensures
        match device_verdict(*v) {
            None => r is None,
            Some((udid, name, available)) => r matches Some((u, n, a)) && u@ == udid && n@ == name
                && a == available,
        },
{
    let record = read_device(v);
    match record {
        Some((Some(udid), Some(name), Some(available), Some(data_path))) => {
            let dp = chars_of(data_path.as_str());
            let mut suffix = chars_of("Library/Developer/CoreSimulator/Devices/");
            let uc = chars_of(udid.as_str());
            extend_chars(&mut suffix, uc.as_slice());
            let tail = chars_of("/data");
            extend_chars(&mut suffix, tail.as_slice());
            if valid_udid(udid.as_str()) && dp.len() > 0 && dp[0] == '/' && path_ends_with(
                dp.as_slice(),
                suffix.as_slice(),
            ) {
                Some((udid, name, available))
            } else {
                None
            }
        },
        _ => None,
    }
}

/// The devices that a `simctl list --json devices` output lists, runtime by runtime;
/// `None` when the output is not a devices document.
pub fn device_listing(stdout: &[u8]) -> (r: Option<Vec<DeviceEntry>>)
    ensures
        match json_document(stdout@) {
            Some(doc) => match devices_shape(doc) {
                Some(members) => r matches Some(entries) && entries@.len() == device_pairs(
                    members,
                ).len() && forall|k: int|
                    0 <= k < entries@.len() ==> entry_is(
                        #[trigger] entries@[k],
                        device_pairs(members)[k],
                    ),
                None => r is None,
            },
            None => r is None,
        },
{
    let document = parse_json(stdout);
    match &document {
        Some(doc) => device_entries(doc),
        None => None,
    }
}

pub fn device_entries(doc: &JsonValue) -> (r: Option<Vec<DeviceEntry>>)
    ensures
        match devices_shape(*doc) {
            Some(members) => r matches Some(entries) && entries@.len() == device_pairs(members).len()
                && forall|k: int|
                0 <= k < entries@.len() ==> entry_is(#[trigger] entries@[k], device_pairs(members)[k]),
            None => r is None,
        },
{
    match doc {
        JsonValue::Object(_) => {},
        _ => {
            return None;
        },
    }
    let members = match get_member(doc, "devices") {
        Some(JsonValue::Object(members)) => members,
        _ => {
            return None;
        },
    };
    let ghost ms = members@;
    let ghost d = *doc;
    let mut entries: Vec<DeviceEntry> = Vec::new();
    let mut i: usize = 0;
    while i < members.len()
        invariant
            *doc == d,
            is_object(d),
            member(d, "devices"@) == Some(JsonValue::Object(*members)),
            ms == members@,
            i <= ms.len(),
            forall|a: int|
                0 <= a < i ==> (#[trigger] ms[a]).1 is Array && forall|j: int|
                    0 <= j < ms[a].1->Array_0@.len() ==> device_record(
                        #[trigger] ms[a].1->Array_0@[j],
                    ) is Some,
            entries@.len() == device_pairs(ms.subrange(0, i as int)).len(),
            forall|k: int|
                0 <= k < entries@.len() ==> entry_is(
                    #[trigger] entries@[k],
                    device_pairs(ms.subrange(0, i as int))[k],
                ),
        decreases members.len() - i,
    {
        let (runtime, value) = (&members[i].0, &members[i].1);
        let ghost before = entries@;
        let ghost prefix = ms.subrange(0, i as int);
        let ghost next = ms.subrange(0, i + 1);
        assert(next.drop_last() =~= prefix);
        assert(next.last() == ms[i as int]);
        let devices = match value {
            JsonValue::Array(devices) => devices,
            _ => {
                proof {
                    assert(!(ms[i as int].1 is Array));
                    assert(devices_shape(d) is None);
                }
                return None;
            },
        };
        let mut j: usize = 0;
        while j < devices.len()
            invariant
                *doc == d,
                is_object(d),
                member(d, "devices"@) == Some(JsonValue::Object(*members)),
                ms == members@,
                i < ms.len(),
                ms[i as int].1 == JsonValue::Array(*devices),
                *runtime == ms[i as int].0,
                j <= devices@.len(),
                forall|b: int| 0 <= b < j ==> device_record(#[trigger] devices@[b]) is Some,
                entries@.len() == before.len() + j,
                forall|k: int| 0 <= k < before.len() ==> entries@[k] == before[k],
                forall|b: int|
                    0 <= b < j ==> entry_is(
                        #[trigger] entries@[before.len() + b],
                        (runtime@, devices@[b]),
                    ),
            decreases devices.len() - j,
        {
            let record = read_device(&devices[j]);
            if record.is_none() {
                proof {
                    assert(ms[i as int].1->Array_0@[j as int] == devices@[j as int]);
                    assert(device_record(ms[i as int].1->Array_0@[j as int]) is None);
                    assert(devices_shape(d) is None);
                }
                return None;
            }
            let device = device_of(&devices[j]);
            entries.push(DeviceEntry { runtime_identifier: runtime.clone(), device });
            proof {
                assert(entry_is(entries@[before.len() + j], (runtime@, devices@[j as int])));
            }
            j = j + 1;
        }
        proof {
            let added = devices@.map_values(|x: JsonValue| (ms[i as int].0@, x));
            assert(next.last().1 == JsonValue::Array(*devices));
            assert(device_pairs(next) == device_pairs(prefix) + added);
            assert(device_pairs(prefix).len() == before.len());
            assert forall|k: int| 0 <= k < entries@.len() implies entry_is(
                #[trigger] entries@[k],
                device_pairs(next)[k],
            ) by {
                if k < before.len() {
                    assert(entries@[k] == before[k]);
                    assert(device_pairs(next)[k] == device_pairs(prefix)[k]);
                } else {
                    let b = k - before.len();
                    assert(0 <= b < j);
                    assert(entry_is(entries@[before.len() + b], (runtime@, devices@[b])));
                    assert(added[b] == (ms[i as int].0@, devices@[b]));
                    assert(device_pairs(next)[k] == added[b]);
                }
            }
        }
        i = i + 1;
    }
    assert(ms.subrange(0, ms.len() as int) =~= ms);
    Some(entries)
}

/// What the devices probe yields before any device is measured: its gaps, its
/// warnings and the listed devices.
#[derive(Debug)]
pub struct DevicesOutcome {
    pub gaps: Vec<InventoryGap>,
    pub warnings: Vec<String>,
    pub entries: Vec<DeviceEntry>,
}

/// What the devices probe's outcome yields: the policy's refusal or the command's
/// failure as one gap; otherwise a warning when the tool wrote to its error stream,
/// and the listed devices, or one gap when the output is not a devices document.
pub open spec fn devices_outcome_is(
    r: DevicesOutcome,
    outcome: Result<CommandOutput, PolicyError>,
) -> bool {
    match outcome {
        Err(e) => r.gaps@.len() == 1 && is_probe_gap(r.gaps@[0], spec_policy_gap(e))
            && r.warnings@.len() == 0 && r.entries@.len() == 0,
        Ok(output) => if !output.success {
            r.gaps@.len() == 1 && is_probe_gap(r.gaps@[0], InventoryGapReason::ProbeFailed)
                && r.warnings@.len() == 0 && r.entries@.len() == 0
        } else {
            &&& (if spec_simctl_warning(output.stderr@) {
                r.warnings@.len() == 1 && r.warnings@[0]@ == "simctl_stderr_nonempty"@
            } else {
                r.warnings@.len() == 0
            })
            &&& match json_document(output.stdout@) {
                Some(doc) => match devices_shape(doc) {
                    Some(members) => r.gaps@.len() == 0 && r.entries@.len() == device_pairs(
                        members,
                    ).len() && forall|k: int|
                        0 <= k < r.entries@.len() ==> entry_is(
                            #[trigger] r.entries@[k],
                            device_pairs(members)[k],
                        ),
                    None => r.gaps@.len() == 1 && is_probe_gap(
                        r.gaps@[0],
                        InventoryGapReason::InvalidToolOutput,
                    ) && r.entries@.len() == 0,
                },
                None => r.gaps@.len() == 1 && is_probe_gap(
                    r.gaps@[0],
                    InventoryGapReason::InvalidToolOutput,
                ) && r.entries@.len() == 0,
            }
        },
    }
}

/// The gaps, warnings and listed devices of the devices probe's outcome.
pub fn devices_outcome(outcome: Result<CommandOutput, PolicyError>) -> (r: DevicesOutcome)
    ensures
        devices_outcome_is(r, outcome),
{
    let mut gaps: Vec<InventoryGap> = Vec::new();
    let mut warnings: Vec<String> = Vec::new();
    match outcome {
        Err(e) => {
            gaps.push(probe_gap(policy_gap(e)));
            DevicesOutcome { gaps, warnings, entries: Vec::new() }
        },
        Ok(output) => {
            if !output.success {
                gaps.push(probe_gap(InventoryGapReason::ProbeFailed));
                return DevicesOutcome { gaps, warnings, entries: Vec::new() };
            }
            if simctl_warning(output.stderr.as_slice()) {
                warnings.push("simctl_stderr_nonempty".to_owned());
            }
            match device_listing(output.stdout.as_slice()) {
                Some(entries) => DevicesOutcome { gaps, warnings, entries },
                None => {
                    gaps.push(probe_gap(InventoryGapReason::InvalidToolOutput));
                    DevicesOutcome { gaps, warnings, entries: Vec::new() }
                },
            }
        },
    }
}

pub open spec fn device_path(udid: Seq<char>) -> Seq<char> {
    "~/Library/Developer/CoreSimulator/Devices/"@ + udid
}

/// The inventory item of a measured simulator device.
pub fn device_item(
    runtime_identifier: &str,
    udid: &str,
    name: &str,
    available: bool,
    path: &str,
    measurements: Vec<Measurement>,
    observations: Vec<crate::model::SignalObservation>,
) -> (r: InventoryItem)
    ensures
        r.rule_id@ == "xcode.simulator_device"@,
        r.subject matches FindingSubject::FilesystemPath { normalized_path } && normalized_path@
            == device_path(udid@),
        r.path matches Some(p) && p@ == path@,
        r.measurements@ == measurements@,
        r.observations@ == observations@,
        r.identity matches InventoryIdentity::SimulatorDevice {
            udid: u,
            name: n,
            runtime_identifier: rt,
            available: a,
        } && u@ == udid@ && n@ == name@ && rt@ == runtime_identifier@ && a == available,
{
    let mut np = chars_of("~/Library/Developer/CoreSimulator/Devices/");
    let uc = chars_of(udid);
    extend_chars(&mut np, uc.as_slice());
    InventoryItem {
        rule_id: "xcode.simulator_device".to_owned(),
        subject: FindingSubject::FilesystemPath { normalized_path: string_of(np.as_slice()) },
        path: Some(path.to_owned()),
        measurements,
        observations,
        identity: InventoryIdentity::SimulatorDevice {
            udid: udid.to_owned(),
            name: name.to_owned(),
            runtime_identifier: runtime_identifier.to_owned(),
            available,
        },
    }
}

/// One runtime record of a parsed listing: identifier, name, version,
/// build, availability and bundle path, each optional.
pub open spec fn runtime_record(v: JsonValue) -> Option<
    (
        Option<Seq<char>>,
        Option<Seq<char>>,
        Option<Seq<char>>,
        Option<Seq<char>>,
        Option<bool>,
        Option<Seq<char>>,
    ),
> {
    if !is_object(v) {
        None
    } else {
        match (
            opt_text_field(v, "identifier"@),
            opt_text_field(v, "name"@),
            opt_text_field(v, "version"@),
            opt_text_field(v, "buildversion"@),
            opt_bool_field(v, "isAvailable"@),
            opt_text_field(v, "bundlePath"@),
        ) {
            (Ok(a), Ok(b), Ok(c), Ok(d), Ok(e), Ok(f)) => Some((a, b, c, d, e, f)),
            _ => None,
        }
    }
}

/// The runtimes of a runtimes document, when it has that shape.
pub open spec fn runtimes_shape(doc: JsonValue) -> Option<Seq<JsonValue>> {
    if !is_object(doc) {
        None
    } else {
        match member(doc, "runtimes"@) {
            Some(JsonValue::Array(items)) => if forall|i: int|
                0 <= i < items@.len() ==> runtime_record(#[trigger] items@[i]) is Some {
                Some(items@)
            } else {
                None
            },
            _ => None,
        }
    }
}

/// A runtime record with all of identifier, name, version, build and availability.
pub open spec fn runtime_complete(v: JsonValue) -> bool {
    runtime_record(v) matches Some((Some(_), Some(_), Some(_), Some(_), Some(_), _))
}

/// A complete runtime record with a valid identifier.
pub open spec fn runtime_good(v: JsonValue) -> bool {
    runtime_record(v) matches Some((Some(id), Some(_), Some(_), Some(_), Some(_), _))
        && spec_valid_runtime_identifier(id)
}

pub open spec fn good_runtimes(items: Seq<JsonValue>) -> Seq<JsonValue>
    decreases items.len(),
{
    if items.len() == 0 {
        Seq::empty()
    } else if runtime_good(items.last()) {
        good_runtimes(items.drop_last()).push(items.last())
    } else {
        good_runtimes(items.drop_last())
    }
}

pub open spec fn bad_runtimes(items: Seq<JsonValue>) -> nat
    decreases items.len(),
{
    if items.len() == 0 {
        0
    } else {
        bad_runtimes(items.drop_last()) + if runtime_good(items.last()) {
            0nat
        } else {
            1nat
        }
    }
}

/// Where a runtime is reported: its bundle path normalized under `home` when that
/// works, otherwise a path in the simulator tool's namespace.
pub open spec fn runtime_path(bundle: Option<Seq<char>>, id: Seq<char>, home: Seq<char>) -> Seq<char> {
    match bundle {
        Some(p) => match spec_normalized_report_path(home, p) {
            Ok(n) => n,
            Err(_) => "/@simctl/runtimes/"@ + id,
        },
        None => "/@simctl/runtimes/"@ + id,
    }
}

/// The inventory item of a good runtime record: reported by path and identity, its
/// size unmeasurable because the vendor reports none.
pub open spec fn runtime_item_is(item: InventoryItem, v: JsonValue, home: Seq<char>) -> bool {
    match runtime_record(v) {
        Some((Some(id), Some(name), Some(version), Some(build), Some(available), bundle)) => {
            &&& item.rule_id@ == "xcode.simulator_runtime"@
            &&& item.subject matches FindingSubject::FilesystemPath { normalized_path }
                && normalized_path@ == runtime_path(bundle, id, home)
            &&& item.path is None
            &&& item.measurements@.len() == 1
            &&& measurement_is(
                item.measurements@[0],
                MeasurementPlane::ToolchainAttribution,
                MeasurementQuantity::VendorReportedSize,
                MeasurementBasis::VendorReported,
                MeasurementScopeKind::ToolchainStore,
                id,
                MeasurementCoverageStatus::Unmeasurable,
                seq!["xcode.simulator_runtime.size"@],
                MeasurementValue::Unmeasurable,
            )
            &&& item.observations@.len() == 0
            &&& item.identity matches InventoryIdentity::SimulatorRuntime {
                identifier: i,
                name: n,
                version: ver,
                build: b,
                available: a,
            } && i@ == id && n@ == name && ver@ == version && b@ == build && a == available
        },
        _ => false,
    }
}

pub open spec fn is_runtime_size_gap(gap: InventoryGap) -> bool {
    gap.region@ == "xcode.simulator_runtimes"@ && gap.path is None && gap.reason
        == InventoryGapReason::RuntimeSizeUnavailable && gap.stage == Some(
        InventoryStage::SimctlRuntimes,
    ) && gap.errno is None
}

/// The runtimes inventory that a runtimes document yields: an item per good record,
/// a gap per other record, and, when any record is complete, a gap that says runtime
/// sizes are not reported.
pub open spec fn runtimes_inventory_is(inv: Inventory, items: Seq<JsonValue>, home: Seq<char>) -> bool {
    let any = exists|i: int| 0 <= i < items.len() && runtime_complete(#[trigger] items[i]);
    let bad = bad_runtimes(items);
    &&& inv.items@.len() == good_runtimes(items).len()
    &&& forall|k: int|
        0 <= k < inv.items@.len() ==> runtime_item_is(
            #[trigger] inv.items@[k],
            good_runtimes(items)[k],
            home,
        )
    &&& inv.gaps@.len() == bad + if any {
        1nat
    } else {
        0nat
    }
    &&& forall|k: int|
        0 <= k < bad ==> is_probe_gap(#[trigger] inv.gaps@[k], InventoryGapReason::InvalidToolOutput)
    &&& any ==> is_runtime_size_gap(inv.gaps@[bad as int])
}

fn read_runtime(v: &JsonValue) -> (r: Option<
    (
        Option<String>,
        Option<String>,
        Option<String>,
        Option<String>,
        Option<bool>,
        Option<String>,
    ),
>)
    ensures
        match runtime_record(*v) {
            None => r is None,
            Some((a, b, c, d, e, f)) => r matches Some((x1, x2, x3, x4, x5, x6)) && observed_is(
                x1,
                a,
            ) && observed_is(x2, b) && observed_is(x3, c) && observed_is(x4, d) && x5 == e
                && observed_is(x6, f),
        },
{
    match v {
        JsonValue::Object(_) => {},
        _ => {
            return None;
        },
    }
    match (
        read_opt_text(v, "identifier"),
        read_opt_text(v, "name"),
        read_opt_text(v, "version"),
        read_opt_text(v, "buildversion"),
        read_opt_bool(v, "isAvailable"),
        read_opt_text(v, "bundlePath"),
    ) {
        (Ok(a), Ok(b), Ok(c), Ok(d), Ok(e), Ok(f)) => Some((a, b, c, d, e, f)),
        _ => None,
    }
}

fn runtime_report_path(bundle: &Option<String>, id: &str, home: &str) -> (r: String)
    ensures
        r@ == runtime_path(
            match bundle {
                Some(b) => Some(b@),
                None => None,
            },
            id@,
            home@,
        ),
{
    let fallback = {
        let mut out = chars_of("/@simctl/runtimes/");
        let ic = chars_of(id);
        extend_chars(&mut out, ic.as_slice());
        string_of(out.as_slice())
    };
    match bundle {
        Some(p) => match normalized_report_path(home, p.as_str()) {
            Ok(n) => n,
            Err(_) => fallback,
        },
        None => fallback,
    }
}

fn runtime_item(
    id: String,
    name: String,
    version: String,
    build: String,
    available: bool,
    bundle: &Option<String>,
    home: &str,
) -> (r: InventoryItem)
    ensures
        r.rule_id@ == "xcode.simulator_runtime"@,
        r.subject matches FindingSubject::FilesystemPath { normalized_path } && normalized_path@
            == runtime_path(
            match bundle {
                Some(b) => Some(b@),
                None => None,
            },
            id@,
            home@,
        ),
        r.path is None,
        r.measurements@.len() == 1,
        measurement_is(
            r.measurements@[0],
            MeasurementPlane::ToolchainAttribution,
            MeasurementQuantity::VendorReportedSize,
            MeasurementBasis::VendorReported,
            MeasurementScopeKind::ToolchainStore,
            id@,
            MeasurementCoverageStatus::Unmeasurable,
            seq!["xcode.simulator_runtime.size"@],
            MeasurementValue::Unmeasurable,
        ),
        r.observations@.len() == 0,
        r.identity matches InventoryIdentity::SimulatorRuntime {
            identifier: i,
            name: n,
            version: ver,
            build: b,
            available: a,
        } && i@ == id@ && n@ == name@ && ver@ == version@ && b@ == build@ && a == available,
{
    let normalized = runtime_report_path(bundle, id.as_str(), home);
    let mut gap_ids: Vec<String> = Vec::new();
    gap_ids.push("xcode.simulator_runtime.size".to_owned());
    let coverage = MeasurementCoverage { status: MeasurementCoverageStatus::Unmeasurable, gap_ids };
    assert(coverage.gap_view() =~= seq!["xcode.simulator_runtime.size"@]);
    let mut measurements: Vec<Measurement> = Vec::new();
    measurements.push(
        Measurement {
            plane: MeasurementPlane::ToolchainAttribution,
            quantity: MeasurementQuantity::VendorReportedSize,
            basis: MeasurementBasis::VendorReported,
            scope: MeasurementScope { kind: MeasurementScopeKind::ToolchainStore, id: id.clone() },
            coverage,
            value: MeasurementValue::Unmeasurable,
        },
    );
    InventoryItem {
        rule_id: "xcode.simulator_runtime".to_owned(),
        subject: FindingSubject::FilesystemPath { normalized_path: normalized },
        path: None,
        measurements,
        observations: Vec::new(),
        identity: InventoryIdentity::SimulatorRuntime {
            identifier: id,
            name,
            version,
            build,
            available,
        },
    }
}

proof fn lemma_good_push(items: Seq<JsonValue>, v: JsonValue)
    ensures
        good_runtimes(items.push(v)) == if runtime_good(v) {
            good_runtimes(items).push(v)
        } else {
            good_runtimes(items)
        },
        bad_runtimes(items.push(v)) == bad_runtimes(items) + if runtime_good(v) {
            0nat
        } else {
            1nat
        },
{
    assert(items.push(v).drop_last() =~= items);
}

/// The runtimes inventory of a `simctl list --json runtimes` output, when it is a
/// runtimes document.
pub fn runtimes_listing(stdout: &[u8], home: &str) -> (r: Option<Inventory>)
    ensures
        match json_document(stdout@) {
            Some(doc) => match runtimes_shape(doc) {
                Some(items) => r matches Some(inv) && runtimes_inventory_is(inv, items, home@)
                    && inv.warnings@.len() == 0,
                None => r is None,
            },
            None => r is None,
        },
{
    let document = parse_json(stdout);
    match &document {
        Some(doc) => runtime_entries(doc, home),
        None => None,
    }
}

pub fn runtime_entries(doc: &JsonValue, home: &str) -> (r: Option<Inventory>)
    ensures
        match runtimes_shape(*doc) {
            Some(items) => r matches Some(inv) && runtimes_inventory_is(inv, items, home@)
                && inv.warnings@.len() == 0,
            None => r is None,
        },
{
    match doc {
        JsonValue::Object(_) => {},
        _ => {
            return None;
        },
    }
    let items = match get_member(doc, "runtimes") {
        Some(JsonValue::Array(items)) => items,
        _ => {
            return None;
        },
    };
    let ghost d = *doc;
    let mut inventory = Inventory { items: Vec::new(), gaps: Vec::new(), warnings: Vec::new() };
    let mut any_runtime = false;
    let mut i: usize = 0;
    assert(good_runtimes(items@.subrange(0, 0)) =~= Seq::<JsonValue>::empty());
    while i < items.len()
        invariant
            *doc == d,
            is_object(d),
            member(d, "runtimes"@) == Some(JsonValue::Array(*items)),
            i <= items@.len(),
            forall|a: int| 0 <= a < i ==> runtime_record(#[trigger] items@[a]) is Some,
            any_runtime == exists|a: int| 0 <= a < i && runtime_complete(#[trigger] items@[a]),
            inventory.items@.len() == good_runtimes(items@.subrange(0, i as int)).len(),
            forall|k: int|
                0 <= k < inventory.items@.len() ==> runtime_item_is(
                    #[trigger] inventory.items@[k],
                    good_runtimes(items@.subrange(0, i as int))[k],
                    home@,
                ),
            inventory.gaps@.len() == bad_runtimes(items@.subrange(0, i as int)),
            forall|k: int|
                0 <= k < inventory.gaps@.len() ==> is_probe_gap(
                    #[trigger] inventory.gaps@[k],
                    InventoryGapReason::InvalidToolOutput,
                ),
            inventory.warnings@.len() == 0,
        decreases items.len() - i,
    {
        let ghost prefix = items@.subrange(0, i as int);
        let ghost next = items@.subrange(0, i + 1);
        assert(next =~= prefix.push(items@[i as int]));
        proof {
            lemma_good_push(prefix, items@[i as int]);
        }
        let record = read_runtime(&items[i]);
        match record {
            None => {
                proof {
                    assert(runtime_record(items@[i as int]) is None);
                    assert(runtimes_shape(d) is None);
                }
                return None;
            },
            Some((Some(id), Some(name), Some(version), Some(build), Some(available), bundle)) => {
                any_runtime = true;
                if valid_runtime_identifier(id.as_str()) {
                    let ghost before = inventory.items@;
                    let item = runtime_item(id, name, version, build, available, &bundle, home);
                    inventory.items.push(item);
                    proof {
                        assert forall|k: int| 0 <= k < inventory.items@.len() implies runtime_item_is(
                            #[trigger] inventory.items@[k],
                            good_runtimes(next)[k],
                            home@,
                        ) by {
                            if k < before.len() {
                                assert(inventory.items@[k] == before[k]);
                            }
                        }
                    }
                } else {
                    inventory.gaps.push(probe_gap(InventoryGapReason::InvalidToolOutput));
                }
            },
            Some(_) => {
                inventory.gaps.push(probe_gap(InventoryGapReason::InvalidToolOutput));
            },
        }
        i = i + 1;
    }
    assert(items@.subrange(0, items@.len() as int) =~= items@);
    if any_runtime {
        inventory.gaps.push(
            InventoryGap {
                region: "xcode.simulator_runtimes",
                path: None,
                reason: InventoryGapReason::RuntimeSizeUnavailable,
                stage: Some(InventoryStage::SimctlRuntimes),
                errno: None,
            },
        );
    }
    Some(inventory)
}

/// What the runtimes probe's outcome yields: the policy's refusal or the command's
/// failure as one gap; otherwise a warning when the tool wrote to its error stream,
/// and the runtimes inventory, or one gap when the output is not a runtimes document.
pub open spec fn runtimes_outcome_is(
    r: Inventory,
    outcome: Result<CommandOutput, PolicyError>,
    home: Seq<char>,
) -> bool {
    &&& (r.items@.len() == 0 || (outcome matches Ok(output) && output.success))
    &&& match outcome {
        Err(e) => r.gaps@.len() == 1 && is_probe_gap(r.gaps@[0], spec_policy_gap(e))
            && r.warnings@.len() == 0,
        Ok(output) => if !output.success {
            r.gaps@.len() == 1 && is_probe_gap(r.gaps@[0], InventoryGapReason::ProbeFailed)
                && r.warnings@.len() == 0
        } else {
            &&& (if spec_simctl_warning(output.stderr@) {
                r.warnings@.len() == 1 && r.warnings@[0]@ == "simctl_stderr_nonempty"@
            } else {
                r.warnings@.len() == 0
            })
            &&& match json_document(output.stdout@) {
                Some(doc) => match runtimes_shape(doc) {
                    Some(items) => runtimes_inventory_is(r, items, home),
                    None => r.items@.len() == 0 && r.gaps@.len() == 1 && is_probe_gap(
                        r.gaps@[0],
                        InventoryGapReason::InvalidToolOutput,
                    ),
                },
                None => r.items@.len() == 0 && r.gaps@.len() == 1 && is_probe_gap(
                    r.gaps@[0],
                    InventoryGapReason::InvalidToolOutput,
                ),
            }
        },
    }
}

/// The runtimes inventory of the runtimes probe's outcome.
pub fn runtimes_outcome(outcome: Result<CommandOutput, PolicyError>, home: &str) -> (r: Inventory)
    ensures
        runtimes_outcome_is(r, outcome, home@),
{
    let mut gaps: Vec<InventoryGap> = Vec::new();
    let mut warnings: Vec<String> = Vec::new();
    match outcome {
        Err(e) => {
            gaps.push(probe_gap(policy_gap(e)));
            Inventory { items: Vec::new(), gaps, warnings }
        },
        Ok(output) => {
            if !output.success {
                gaps.push(probe_gap(InventoryGapReason::ProbeFailed));
                return Inventory { items: Vec::new(), gaps, warnings };
            }
            if simctl_warning(output.stderr.as_slice()) {
                warnings.push("simctl_stderr_nonempty".to_owned());
            }
            match runtimes_listing(output.stdout.as_slice(), home) {
                Some(inventory) => Inventory { items: inventory.items, gaps: inventory.gaps, warnings },
                None => {
                    gaps.push(probe_gap(InventoryGapReason::InvalidToolOutput));
                    Inventory { items: Vec::new(), gaps, warnings }
                },
            }
        },
    }
}

pub const DEVICES_RELATIVE: &'static str = "Library/Developer/CoreSimulator/Devices";

/// Whether the user's exclusions cover the simulator device directory below `home`;
/// the device listing is then never asked for.
pub fn devices_root_excluded(home: &str, excludes: &[String]) -> (r: bool)
    ensures
        r == spec_excluded(join(home@, DEVICES_RELATIVE@), excludes@),
{
    let h = chars_of(home);
    let d = chars_of(DEVICES_RELATIVE);
    let root = string_of(join_paths(h.as_slice(), d.as_slice()).as_slice());
    excluded(root.as_str(), excludes)
}

pub open spec fn is_simulator_inventory_gap(gap: InventoryGap, reason: InventoryGapReason) -> bool {
    &&& gap.region@ == "xcode.simulator_inventory"@
    &&& gap.path is None
    &&& gap.reason == reason
    &&& gap.stage == Some(InventoryStage::ToolchainProbe)
    &&& gap.errno is None
}

/// The gap that opens a simulator stage measured without the simulator tool.
pub fn simulator_inventory_gap(reason: InventoryGapReason) -> (r: InventoryGap)
    ensures
        is_simulator_inventory_gap(r, reason),
{
    InventoryGap {
        region: "xcode.simulator_inventory",
        path: None,
        reason,
        stage: Some(InventoryStage::ToolchainProbe),
        errno: None,
    }
}

/// The gap that a simulator stage measured by path alone ends with: device
/// directories were measured, but the tool that names them was not run.
pub fn static_devices_gap(measured_any: bool) -> (r: Option<InventoryGap>)
    ensures
        measured_any <==> r is Some,
        r matches Some(gap) ==> gap.region@ == "xcode.simulator_devices"@ && gap.path is None
            && gap.reason == InventoryGapReason::SimulatorIdentityUnavailable && gap.stage == Some(
            InventoryStage::ToolchainProbe,
        ) && gap.errno is None,
{
    if measured_any {
        Some(
            InventoryGap {
                region: "xcode.simulator_devices",
                path: None,
                reason: InventoryGapReason::SimulatorIdentityUnavailable,
                stage: Some(InventoryStage::ToolchainProbe),
                errno: None,
            },
        )
    } else {
        None
    }
}

/// Where the simulator inventory stands while it waits for a probe.
#[derive(Debug)]
pub enum XcodeStage {
    /// CoreSimulator's version is to match `expected`.
    CoreSimulator { expected: &'static str, devices_excluded: bool },
    /// The simulator tool lists the devices.
    Devices,
    /// The simulator tool lists the runtimes.
    Runtimes,
}

/// What the Xcode inventory asks of its runner next.
#[derive(Debug)]
pub enum XcodeStep {
    /// Nothing more is inventoried; a stage holding this gap, when there is one, is
    /// visited first.
    Stop(Option<InventoryGap>),
    /// Walk and visit the static stores, then ask `after_static`.
    WalkStatic,
    /// Run the probe and resume the stage with its outcome.
    Run { next: XcodeStage, probe: ProbeId },
    /// Walk the simulator device directories by path alone, in a stage that opens with
    /// this gap, visit it, and stop.
    WalkStaticDevices(InventoryGap),
    /// Walk the devices of the listing and visit them, then run the probe and resume
    /// the stage with its outcome.
    WalkDevices { listing: DevicesOutcome, next: XcodeStage, probe: ProbeId },
    /// Visit this stage and stop.
    Finish(Inventory),
}

/// How the Xcode inventory begins: an absent Xcode has none; a degraded one only the
/// gap of its reason; a missing rule set one diagnostic; a ready one walks its
/// static stores first. No probe runs before the static stores are walked.
pub fn xcode_inventory_start(state: &AdapterState, rules_present: bool) -> (r: XcodeStep)
    ensures
        match *state {
            AdapterState::NotPresent => r == XcodeStep::Stop(None),
            AdapterState::Degraded { reason, .. } => r matches XcodeStep::Stop(Some(gap))
                && gap.region@ == "xcode"@ && gap.path is None && gap.reason == spec_degraded_gap(
                reason,
            ) && gap.stage is None && gap.errno is None,
            AdapterState::Ready { .. } => if rules_present {
                r == XcodeStep::WalkStatic
            } else {
                r matches XcodeStep::Stop(Some(gap)) && gap.region@ == "xcode"@ && gap.path is None
                    && gap.reason == InventoryGapReason::RuleSetInvalid && gap.stage is None
                    && gap.errno is None
            },
        },
{
    match inventory_gate(state) {
        Err(gap) => XcodeStep::Stop(gap),
        Ok(()) => if rules_present {
            XcodeStep::WalkStatic
        } else {
            XcodeStep::Stop(Some(InventoryGap::diagnostic("xcode", InventoryGapReason::RuleSetInvalid)))
        },
    }
}

/// What follows the static stores: an Xcode build without a verified CoreSimulator
/// version has its devices measured by path alone; otherwise CoreSimulator's version
/// is asked for.
pub fn after_static(state: &AdapterState, devices_excluded: bool) -> (r: XcodeStep)
    ensures
        match spec_core_simulator_expected(*state) {
            Err(reason) => r matches XcodeStep::WalkStaticDevices(gap) && is_simulator_inventory_gap(
                gap,
                reason,
            ),
            Ok(v) => r matches XcodeStep::Run {
                next: XcodeStage::CoreSimulator { expected, devices_excluded: d },
                probe,
            } && expected@ == v && d == devices_excluded && probe@ == "xcode.core_simulator_version"@,
        },
{
    match core_simulator_expected(state) {
        Err(reason) => XcodeStep::WalkStaticDevices(simulator_inventory_gap(reason)),
        Ok(expected) => XcodeStep::Run {
            next: XcodeStage::CoreSimulator { expected, devices_excluded },
            probe: core_simulator_version(),
        },
    }
}

impl XcodeStage {
    /// Resumes the stage with the outcome of its probe. A CoreSimulator version that
    /// does not match, or could not be read, leaves the devices to be measured by
    /// path and never runs the simulator tool; a match lists the devices, unless
    /// their directory is excluded, and then the runtimes.
    pub fn resume(self, outcome: Result<CommandOutput, PolicyError>, home: &str) -> (r: XcodeStep)
        ensures
            match self {
                XcodeStage::CoreSimulator { expected, devices_excluded } => match spec_core_simulator_check(
                    expected@,
                    outcome,
                ) {
                    Err(reason) => r matches XcodeStep::WalkStaticDevices(gap)
                        && is_simulator_inventory_gap(gap, reason),
                    Ok(()) => if devices_excluded {
                        r matches XcodeStep::Run { next: XcodeStage::Runtimes, probe } && probe@
                            == "xcode.simctl_runtimes"@
                    } else {
                        r matches XcodeStep::Run { next: XcodeStage::Devices, probe } && probe@
                            == "xcode.simctl_devices"@
                    },
                },
                XcodeStage::Devices => r matches XcodeStep::WalkDevices {
                    listing,
                    next: XcodeStage::Runtimes,
                    probe,
                } && probe@ == "xcode.simctl_runtimes"@ && devices_outcome_is(listing, outcome),
                XcodeStage::Runtimes => r matches XcodeStep::Finish(inventory) && runtimes_outcome_is(inventory, outcome, home@),
            },
    {
        match self {
            XcodeStage::CoreSimulator { expected, devices_excluded } => {
                match core_simulator_check(expected, outcome) {
                    Err(reason) => XcodeStep::WalkStaticDevices(simulator_inventory_gap(reason)),
                    Ok(()) => if devices_excluded {
                        XcodeStep::Run { next: XcodeStage::Runtimes, probe: simctl_runtimes() }
                    } else {
                        XcodeStep::Run { next: XcodeStage::Devices, probe: simctl_devices() }
                    },
                }
            },
            XcodeStage::Devices => XcodeStep::WalkDevices {
                listing: devices_outcome(outcome),
                next: XcodeStage::Runtimes,
                probe: simctl_runtimes(),
            },
            XcodeStage::Runtimes => XcodeStep::Finish(runtimes_outcome(outcome, home)),
        }
    }
}

pub const DEVICE_DELETE_NOTE: &'static str = "Apple simctl removes this device and all of its application and test state; no reliable preview is available.";

pub const RUNTIME_LIST: &'static str = "xcrun simctl runtime list";

pub const RUNTIME_LIST_NOTE: &'static str = "Inspect Apple's runtime image manager, then use Xcode Settings > Components for removal; do not delete runtime mount paths directly.";

/// What follows the last `/` of `p` (all of `p` when it has none).
pub open spec fn last_segment(p: Seq<char>) -> Seq<char>
    decreases p.len(),
{
    if p.len() == 0 {
        p
    } else if p.last() == '/' {
        Seq::empty()
    } else {
        last_segment(p.drop_last()).push(p.last())
    }
}

fn last_segment_of(p: &[char]) -> (r: Vec<char>)
    ensures
        r@ == last_segment(p@),
{
    let mut k: usize = p.len();
    assert(p@.subrange(0, p@.len() as int) =~= p@);
    assert(last_segment(p@) + p@.subrange(p@.len() as int, p@.len() as int) =~= last_segment(p@));
    while k > 0 && p[k - 1] != '/'
        invariant
            k <= p@.len(),
            last_segment(p@) == last_segment(p@.subrange(0, k as int)) + p@.subrange(
                k as int,
                p@.len() as int,
            ),
        decreases k,
    {
        let ghost pre = p@.subrange(0, k as int);
        assert(pre.drop_last() =~= p@.subrange(0, k - 1));
        assert(pre.last() == p@[k - 1]);
        assert(last_segment(pre) == last_segment(p@.subrange(0, k - 1)).push(p@[k - 1]));
        assert(last_segment(p@.subrange(0, k - 1)).push(p@[k - 1]) + p@.subrange(k as int, p@.len() as int)
            =~= last_segment(p@.subrange(0, k - 1)) + p@.subrange(k - 1, p@.len() as int));
        k = k - 1;
    }
    proof {
        let pre = p@.subrange(0, k as int);
        if k > 0 {
            assert(pre.last() == p@[k - 1]);
        }
        assert(last_segment(pre) =~= Seq::<char>::empty());
        assert(Seq::<char>::empty() + p@.subrange(k as int, p@.len() as int) =~= p@.subrange(
            k as int,
            p@.len() as int,
        ));
    }
    crate::lexical::slice_chars(p, k, p.len())
}

pub open spec fn subject_text(s: FindingSubject) -> Seq<char> {
    match s {
        FindingSubject::FilesystemPath { normalized_path } => normalized_path@,
        FindingSubject::ToolchainObjectSet { object_set_id } => object_set_id@,
    }
}

/// The advice for an Xcode finding: the vendor delete command for a simulator device
/// whose path ends in a valid UDID, the runtime list for a runtime, and otherwise the
/// path with the rule's recovery semantics.
pub open spec fn xcode_advice(f: Finding) -> Seq<(bool, Seq<char>, AdviceImpact, Seq<char>, bool)> {
    if f.rule_id@ == "xcode.simulator_device"@ {
        let udid = last_segment(subject_text(f.subject));
        if spec_valid_udid(udid) {
            seq![
                command_view(
                    "xcrun simctl delete "@ + udid,
                    AdviceImpact::Destructive,
                    DEVICE_DELETE_NOTE@,
                    false,
                ),
            ]
        } else {
            Seq::empty()
        }
    } else if f.rule_id@ == "xcode.simulator_runtime"@ {
        seq![command_view(RUNTIME_LIST@, AdviceImpact::Inspect, RUNTIME_LIST_NOTE@, true)]
    } else {
        seq![reveal_view(subject_text(f.subject), f.evidence@)]
    }
}

fn single(a: Advice) -> (r: Vec<Advice>)
    ensures
        advice_views(r@) == seq![a@],
{
    let mut v: Vec<Advice> = Vec::new();
    v.push(a);
    assert(advice_views(v@) =~= seq![a@]);
    v
}

/// `built` holds, item by item, the advised finding that the Xcode rules make.
pub open spec fn xcode_findings(built: Seq<Finding>, rules: Seq<Rule>, items: Seq<InventoryItem>) -> bool {
    &&& built.len() == items.len()
    &&& forall|i: int|
        0 <= i < built.len() ==> finding_of(#[trigger] built[i], "xcode"@, None, rules, items[i])
            && advice_views(built[i].advice@) == xcode_advice(built[i])
}

/// The Xcode adapter over the rule set it classifies with.
pub struct XcodeAdapter {
    pub rules: Vec<Rule>,
}

impl XcodeAdapter {
    pub fn new(rules: Vec<Rule>) -> (r: Self)
        ensures
            r.rules@ == rules@,
    {
        XcodeAdapter { rules }
    }

    pub fn xcode_advise(&self, finding: &Finding) -> (r: Vec<Advice>)
        ensures
            advice_views(r@) == xcode_advice(*finding),
    {
        let rule = finding.rule_id.as_str();
        let text = finding.subject.display_value();
        if str_eq(rule, "xcode.simulator_device") {
            let chars = chars_of(text);
            let udid = last_segment_of(chars.as_slice());
            let udid_text = string_of(udid.as_slice());
            if valid_udid(udid_text.as_str()) {
                let mut command = chars_of("xcrun simctl delete ");
                extend_chars(&mut command, udid.as_slice());
                let command_text = string_of(command.as_slice());
                single(
                    command_advice(
                        command_text.as_str(),
                        AdviceImpact::Destructive,
                        DEVICE_DELETE_NOTE,
                        false,
                    ),
                )
            } else {
                let v: Vec<Advice> = Vec::new();
                assert(advice_views(v@) =~= Seq::empty());
                v
            }
        } else if str_eq(rule, "xcode.simulator_runtime") {
            single(command_advice(RUNTIME_LIST, AdviceImpact::Inspect, RUNTIME_LIST_NOTE, true))
        } else {
            single(reveal_advice(text, finding.evidence.as_str()))
        }
    }

    /// The findings that the Xcode rules make of an inventory, advised and normalized;
    /// the rule set is invalid as soon as one item has no rule, no canonical key or no
    /// valid finding ID.
    pub fn xcode_classify(&self, inventory: &Inventory) -> (r: Result<Vec<Finding>, InventoryGapReason>)
        ensures
            r is Err <==> exists|i: int|
                0 <= i < inventory.items@.len() && !classifiable(
                    "xcode"@,
                    None,
                    self.rules@,
                    #[trigger] inventory.items@[i],
                ),
            r matches Err(e) ==> e == InventoryGapReason::RuleSetInvalid,
            r matches Ok(fs) ==> exists|built: Seq<Finding>|
                #[trigger] xcode_findings(built, self.rules@, inventory.items@)
                    && findings_normalized_from(built, fs@),
    {
        let mut built: Vec<Finding> = Vec::new();
        let mut i: usize = 0;
        while i < inventory.items.len()
            invariant
                i <= inventory.items@.len(),
                built@.len() == i,
                forall|k: int|
                    0 <= k < i ==> finding_of(
                        #[trigger] built@[k],
                        "xcode"@,
                        None,
                        self.rules@,
                        inventory.items@[k],
                    ) && advice_views(built@[k].advice@) == xcode_advice(built@[k]),
                forall|k: int|
                    0 <= k < i ==> classifiable(
                        "xcode"@,
                        None,
                        self.rules@,
                        #[trigger] inventory.items@[k],
                    ),
            decreases inventory.items.len() - i,
        {
            let mut f = match finding_for("xcode", None, self.rules.as_slice(), &inventory.items[i]) {
                Ok(f) => f,
                Err(e) => {
                    return Err(e);
                },
            };
            let advice = self.xcode_advise(&f);
            f.advice = advice;
            built.push(f);
            i = i + 1;
        }
        let ghost before = built@;
        assert(xcode_findings(before, self.rules@, inventory.items@));
        normalize_findings(&mut built);
        assert(findings_normalized_from(before, built@));
        Ok(built)
    }
}

impl ToolchainAdapter for XcodeAdapter {
    fn id(&self) -> (r: AdapterId)
        ensures
            r@ == "xcode"@,
    {
        AdapterId::new("xcode")
    }

    fn classify(&self, inventory: &Inventory) -> (r: Result<Vec<Finding>, InventoryGapReason>)
        ensures
            r is Err <==> exists|i: int|
                0 <= i < inventory.items@.len() && !classifiable(
                    "xcode"@,
                    None,
                    self.rules@,
                    #[trigger] inventory.items@[i],
                ),
            r matches Err(e) ==> e == InventoryGapReason::RuleSetInvalid,
            r matches Ok(fs) ==> exists|built: Seq<Finding>|
                #[trigger] xcode_findings(built, self.rules@, inventory.items@)
                    && findings_normalized_from(built, fs@),
    {
        self.xcode_classify(inventory)
    }

    fn advise(&self, finding: &Finding) -> (r: Vec<Advice>)
        ensures
            advice_views(r@) == xcode_advice(*finding),
    {
        self.xcode_advise(finding)
    }
}

} // verus!
