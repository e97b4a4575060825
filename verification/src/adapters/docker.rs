//! Docker Desktop: the local context and the exact CLI/engine versions are verified
//! before the daemon is asked for its object-set summary; the host VM disk is
//! measured as a file and never offered as a deletion target.

use vstd::prelude::*;
use vstd::utf8::{decode_utf8, encode_utf8, valid_utf8};

use crate::adapters::store::{measurement_is, object_observations, spec_object_observations};
use crate::adapters::{ToolchainAdapter, classifiable, finding_for, finding_of, opt_view, Inventory};
use crate::model::{Advice, AdviceImpact, Finding, advice_views, command_advice, command_view, normalize_findings, reveal_advice, reveal_view, normalized_report_path, findings_normalized_from};
use crate::rules::Rule;
use crate::adapters::{
    AdapterDegradedReason, AdapterId, AdapterState, InventoryGap, InventoryGapReason,
    InventoryIdentity, InventoryItem, InventoryStage, ProbeStep, errno_reason, reason_for_errno,
};
use crate::fsx::{ObjectMeasurements, RootError};
use crate::json::{
    JsonValue, bool_field, get_member, is_object, json_document, member, parse_json, read_bool,
    read_text, text_field,
};
use crate::lexical::{lines, split_lines, utf8_text};
use crate::model::{
    FindingSubject, Measurement, MeasurementBasis, MeasurementCoverage,
    MeasurementCoverageStatus, MeasurementPlane, MeasurementQuantity, MeasurementScope,
    MeasurementScopeKind, MeasurementValue, rounded_bytes,
    spec_normalized_report_path, spec_rounded_bounds,
};
use crate::paths::{is_normalized_absolute, join, join_paths, normalized_absolute};
use crate::policy::{
    CommandOutput, PolicyError, ProbeId, docker_context_inspect, docker_system_df, docker_version,
};
use crate::text::{chars_of, extend_chars, parse_u64, spec_parse_u64, str_eq, string_of};

verus! {

pub fn context_inspect() -> (r: ProbeId)
    ensures
        r@ == "docker.context_inspect"@,
{
    docker_context_inspect()
}

pub fn version() -> (r: ProbeId)
    ensures
        r@ == "docker.version"@,
{
    docker_version()
}

pub fn system_df_probe() -> (r: ProbeId)
    ensures
        r@ == "docker.system_df"@,
{
    docker_system_df()
}

/// The one CLI, API, engine, API and Desktop combination whose output this adapter
/// has been checked against.
pub open spec fn verified_combination(
    client: Seq<char>,
    client_api: Seq<char>,
    server: Seq<char>,
    server_api: Seq<char>,
    platform: Seq<char>,
) -> bool {
    client == "29.7.2"@ && client_api == "1.55"@ && server == "29.7.2"@ && server_api == "1.55"@
        && platform == "Docker Desktop 4.88.1 (237512)"@
}

#[derive(Clone, Debug, Eq, PartialEq)]
pub struct DockerUsageRow {
    pub object_set_id: &'static str,
    pub total_count: u64,
    pub active_count: u64,
    pub size: String,
    pub reclaimable: String,
}

/// The degraded state that a refused or failed probe leaves: disabled when its
/// variable turned it off, probe failure for anything else.
pub open spec fn spec_degraded_from_policy(
    error: PolicyError,
    observed_version: Option<String>,
) -> AdapterState {
    AdapterState::Degraded {
        observed_version,
        reason: match error {
            PolicyError::Disabled(_) => AdapterDegradedReason::Disabled,
            _ => AdapterDegradedReason::ProbeFailed,
        },
    }
}

pub fn degraded_from_policy(error: PolicyError, observed_version: Option<String>) -> (r:
    AdapterState)
    ensures
        r == spec_degraded_from_policy(error, observed_version),
{
    let reason = match error {
        PolicyError::Disabled(_) => AdapterDegradedReason::Disabled,
        _ => AdapterDegradedReason::ProbeFailed,
    };
    AdapterState::Degraded { observed_version, reason }
}

pub open spec fn spec_gap_from_degraded(reason: AdapterDegradedReason) -> InventoryGapReason {
    match reason {
        AdapterDegradedReason::UnknownVersion => InventoryGapReason::UnknownVersion,
        AdapterDegradedReason::Disabled => InventoryGapReason::Disabled,
        AdapterDegradedReason::InvalidSelection => InventoryGapReason::InvalidToolOutput,
        AdapterDegradedReason::ProbeFailed => InventoryGapReason::ProbeFailed,
        AdapterDegradedReason::NotReady => InventoryGapReason::ProbeFailed,
    }
}

pub fn gap_from_degraded(reason: AdapterDegradedReason) -> (r: InventoryGapReason)
    ensures
        r == spec_gap_from_degraded(reason),
{
    match reason {
        AdapterDegradedReason::UnknownVersion => InventoryGapReason::UnknownVersion,
        AdapterDegradedReason::Disabled => InventoryGapReason::Disabled,
        AdapterDegradedReason::InvalidSelection => InventoryGapReason::InvalidToolOutput,
        AdapterDegradedReason::ProbeFailed => InventoryGapReason::ProbeFailed,
        AdapterDegradedReason::NotReady => InventoryGapReason::ProbeFailed,
    }
}

pub open spec fn spec_gap_from_policy(error: PolicyError) -> InventoryGapReason {
    match error {
        PolicyError::Disabled(_) => InventoryGapReason::Disabled,
        PolicyError::TimedOut(_) => InventoryGapReason::TimedOut,
        _ => InventoryGapReason::ProbeFailed,
    }
}

pub fn gap_from_policy(error: PolicyError) -> (r: InventoryGapReason)
    ensures
        r == spec_gap_from_policy(error),
{
    match error {
        PolicyError::Disabled(_) => InventoryGapReason::Disabled,
        PolicyError::TimedOut(_) => InventoryGapReason::TimedOut,
        _ => InventoryGapReason::ProbeFailed,
    }
}

/// The docker endpoint of a context record: its host and whether TLS verification is
/// skipped, when the record has the shape that the CLI prints.
pub open spec fn context_record(v: JsonValue) -> Option<(Seq<char>, Seq<char>, bool)> {
    match (text_field(v, "Name"@), member(v, "Endpoints"@)) {
        (Some(name), Some(endpoints)) => match member(endpoints, "docker"@) {
            Some(docker) => match (text_field(docker, "Host"@), bool_field(docker, "SkipTLSVerify"@)) {
                (Some(host), Some(skip)) => Some((name, host, skip)),
                _ => None,
            },
            None => None,
        },
        _ => None,
    }
}

/// The socket that Docker Desktop serves for `home`.
pub open spec fn desktop_socket(home: Seq<char>) -> Seq<char> {
    "unix://"@ + join(home, ".docker/run/docker.sock"@)
}

/// The context output names exactly one context: `desktop-linux`, verifying TLS,
/// served on the Desktop socket under `home`.
pub open spec fn spec_verified_context(output: Seq<u8>, home: Seq<char>) -> bool {
    context_verified(json_document(output), home)
}

/// The parsed context output names exactly one context: `desktop-linux`, verifying
/// TLS, served on the Desktop socket under `home`.
pub open spec fn context_verified(document: Option<JsonValue>, home: Seq<char>) -> bool {
    match document {
        Some(JsonValue::Array(items)) => items@.len() == 1 && match context_record(items@[0]) {
            Some((name, host, skip)) => name == "desktop-linux"@ && !skip && host == desktop_socket(
                home,
            ),
            None => false,
        },
        _ => false,
    }
}

fn read_context(v: &JsonValue) -> (r: Option<(String, String, bool)>)
    ensures
        match context_record(*v) {
            None => r is None,
            Some((name, host, skip)) => r matches Some((n, h, s)) && n@ == name && h@ == host && s
                == skip,
        },
{
    let name = read_text(v, "Name");
    let endpoints = get_member(v, "Endpoints");
    match (name, endpoints) {
        (Some(name), Some(endpoints)) => match get_member(endpoints, "docker") {
            Some(docker) => match (read_text(docker, "Host"), read_bool(docker, "SkipTLSVerify")) {
                (Some(host), Some(skip)) => Some((name, host, skip)),
                _ => None,
            },
            None => None,
        },
        _ => None,
    }
}

pub fn verified_context(output: &[u8], home: &str) -> (r: bool)
    ensures
        r == spec_verified_context(output@, home@),
{
    let document = parse_json(output);
    context_document_verified(&document, home)
}

pub fn context_document_verified(document: &Option<JsonValue>, home: &str) -> (r: bool)
    ensures
        r == context_verified(*document, home@),
{
    match document {
        Some(JsonValue::Array(items)) => {
            if items.len() != 1 {
                return false;
            }
            match read_context(&items[0]) {
                Some((name, host, skip)) => {
                    let mut expected = chars_of("unix://");
                    let home_chars = chars_of(home);
                    let rel = chars_of(".docker/run/docker.sock");
                    let socket = join_paths(home_chars.as_slice(), rel.as_slice());
                    extend_chars(&mut expected, socket.as_slice());
                    let host_chars = chars_of(host.as_str());
                    str_eq(name.as_str(), "desktop-linux") && !skip && crate::paths::seq_eq(
                        host_chars.as_slice(),
                        expected.as_slice(),
                    )
                },
                None => false,
            }
        },
        _ => false,
    }
}

/// One side of the version document: version, API version and platform name (the
/// platform is optional, and when present must have a name).
pub open spec fn version_peer(v: JsonValue) -> Option<(Seq<char>, Seq<char>, Option<Seq<char>>)> {
    if !is_object(v) {
        None
    } else {
        match (text_field(v, "Version"@), text_field(v, "ApiVersion"@)) {
            (Some(ver), Some(api)) => match member(v, "Platform"@) {
                None => Some((ver, api, None)),
                Some(JsonValue::Null) => Some((ver, api, None)),
                Some(p) => match text_field(p, "Name"@) {
                    Some(name) => Some((ver, api, Some(name))),
                    None => None,
                },
            },
            _ => None,
        }
    }
}

/// The client and server sides of a parsed version document.
pub open spec fn version_sides(document: Option<JsonValue>) -> Option<
    (
        (Seq<char>, Seq<char>, Option<Seq<char>>),
        (Seq<char>, Seq<char>, Option<Seq<char>>),
    ),
> {
    match document {
        Some(v) => if is_object(v) {
            match (member(v, "Client"@), member(v, "Server"@)) {
                (Some(c), Some(s)) => match (version_peer(c), version_peer(s)) {
                    (Some(cp), Some(sp)) => Some((cp, sp)),
                    _ => None,
                },
                _ => None,
            }
        } else {
            None
        },
        None => None,
    }
}

pub open spec fn version_text(
    client: Seq<char>,
    client_api: Seq<char>,
    server: Seq<char>,
    server_api: Seq<char>,
    platform: Seq<char>,
) -> Seq<char> {
    "client "@ + client + " api "@ + client_api + "; server "@ + server + " api "@ + server_api
        + "; "@ + platform
}

/// The version that was seen, when the document parses and names the server's
/// platform.
pub open spec fn spec_observed_version(output: Seq<u8>) -> Option<Seq<char>> {
    observed_in(json_document(output))
}

/// The version that a parsed version document shows, when it names the server's
/// platform.
pub open spec fn observed_in(document: Option<JsonValue>) -> Option<Seq<char>> {
    match version_sides(document) {
        Some(((cv, ca, _), (sv, sa, Some(platform)))) => Some(
            version_text(cv, ca, sv, sa, platform),
        ),
        _ => None,
    }
}

/// The version, when it is the verified combination.
pub open spec fn spec_parse_verified_version(output: Seq<u8>) -> Option<Seq<char>> {
    verified_in(json_document(output))
}

/// The version that a parsed version document shows, when it is the verified
/// combination.
pub open spec fn verified_in(document: Option<JsonValue>) -> Option<Seq<char>> {
    match version_sides(document) {
        Some(((cv, ca, _), (sv, sa, Some(platform)))) => if verified_combination(
            cv,
            ca,
            sv,
            sa,
            platform,
        ) {
            Some(version_text(cv, ca, sv, sa, platform))
        } else {
            None
        },
        _ => None,
    }
}

fn read_peer(v: &JsonValue) -> (r: Option<(String, String, Option<String>)>)
    ensures
        match version_peer(*v) {
            None => r is None,
            Some((ver, api, platform)) => r matches Some((a, b, c)) && a@ == ver && b@ == api
                && match platform {
                None => c is None,
                Some(p) => c matches Some(t) && t@ == p,
            },
        },
{
    match v {
        JsonValue::Object(_) => {},
        _ => {
            return None;
        },
    }
    match (read_text(v, "Version"), read_text(v, "ApiVersion")) {
        (Some(ver), Some(api)) => match get_member(v, "Platform") {
            None => Some((ver, api, None)),
            Some(JsonValue::Null) => Some((ver, api, None)),
            Some(p) => match read_text(p, "Name") {
                Some(name) => Some((ver, api, Some(name))),
                None => None,
            },
        },
        _ => None,
    }
}

fn read_version_document(document: &Option<JsonValue>) -> (r: Option<
    ((String, String, Option<String>), (String, String, Option<String>)),
>)
    ensures
        match version_sides(*document) {
            None => r is None,
            Some(((cv, ca, cp), (sv, sa, sp))) => r matches Some(((a, b, c), (d, e, f))) && a@
                == cv && b@ == ca && d@ == sv && e@ == sa && match sp {
                None => f is None,
                Some(p) => f matches Some(t) && t@ == p,
            },
        },
{
    match document {
        Some(v) => {
            match v {
                JsonValue::Object(_) => {},
                _ => {
                    return None;
                },
            }
            match (get_member(v, "Client"), get_member(v, "Server")) {
                (Some(c), Some(s)) => match (read_peer(c), read_peer(s)) {
                    (Some(cp), Some(sp)) => Some((cp, sp)),
                    _ => None,
                },
                _ => None,
            }
        },
        None => None,
    }
}

fn append_text(out: &mut Vec<char>, s: &str)
    ensures
        final(out)@ == old(out)@ + s@,
{
    let chars = chars_of(s);
    extend_chars(out, chars.as_slice());
}

fn format_version(cv: &str, ca: &str, sv: &str, sa: &str, platform: &str) -> (r: String)
    ensures
        r@ == version_text(cv@, ca@, sv@, sa@, platform@),
{
    let mut out: Vec<char> = Vec::new();
    append_text(&mut out, "client ");
    append_text(&mut out, cv);
    append_text(&mut out, " api ");
    append_text(&mut out, ca);
    append_text(&mut out, "; server ");
    append_text(&mut out, sv);
    append_text(&mut out, " api ");
    append_text(&mut out, sa);
    append_text(&mut out, "; ");
    append_text(&mut out, platform);
    assert(out@ =~= version_text(cv@, ca@, sv@, sa@, platform@));
    string_of(out.as_slice())
}

pub fn observed_version(output: &[u8]) -> (r: Option<String>)
    ensures
        match spec_observed_version(output@) {
            None => r is None,
            Some(v) => r matches Some(t) && t@ == v,
        },
{
    observed_version_of(&parse_json(output))
}

pub fn observed_version_of(document: &Option<JsonValue>) -> (r: Option<String>)
    ensures
        match observed_in(*document) {
            None => r is None,
            Some(v) => r matches Some(t) && t@ == v,
        },
{
    match read_version_document(document) {
        Some(((cv, ca, _), (sv, sa, Some(platform)))) => Some(
            format_version(cv.as_str(), ca.as_str(), sv.as_str(), sa.as_str(), platform.as_str()),
        ),
        _ => None,
    }
}

pub fn parse_verified_version(output: &[u8]) -> (r: Option<String>)
    ensures
        match spec_parse_verified_version(output@) {
            None => r is None,
            Some(v) => r matches Some(t) && t@ == v,
        },
{
    verified_version_of(&parse_json(output))
}

pub fn verified_version_of(document: &Option<JsonValue>) -> (r: Option<String>)
    ensures
        match verified_in(*document) {
            None => r is None,
            Some(v) => r matches Some(t) && t@ == v,
        },
{
    match read_version_document(document) {
        Some(((cv, ca, _), (sv, sa, Some(platform)))) => {
            if str_eq(cv.as_str(), "29.7.2") && str_eq(ca.as_str(), "1.55") && str_eq(
                sv.as_str(),
                "29.7.2",
            ) && str_eq(sa.as_str(), "1.55") && str_eq(
                platform.as_str(),
                "Docker Desktop 4.88.1 (237512)",
            ) {
                Some(
                    format_version(
                        cv.as_str(),
                        ca.as_str(),
                        sv.as_str(),
                        sa.as_str(),
                        platform.as_str(),
                    ),
                )
            } else {
                None
            }
        },
        _ => None,
    }
}

/// Where the Docker probe stands: waiting for the context, then for the version.
#[derive(Debug)]
pub enum DockerProbe {
    Context { home: String },
    Version,
}

/// The probe starts by inspecting the `desktop-linux` context.
pub fn probe(home: &str) -> (r: ProbeStep<DockerProbe>)
    ensures
        r matches ProbeStep::Run { next: DockerProbe::Context { home: h }, probe } && h@ == home@
            && probe@ == "docker.context_inspect"@,
{
    ProbeStep::Run { next: DockerProbe::Context { home: home.to_owned() }, probe: context_inspect() }
}

/// What the context outcome decides: a command that could not start means Docker is
/// absent; a refusal degrades; a failed command or any context but the verified local
/// one is an invalid selection; the verified context goes on to the version probe.
pub open spec fn spec_after_context(
    outcome: Result<CommandOutput, PolicyError>,
    home: Seq<char>,
) -> Option<AdapterState> {
    match outcome {
        Ok(output) => if output.success && spec_verified_context(output.stdout@, home) {
            None
        } else {
            Some(
                AdapterState::Degraded {
                    observed_version: None,
                    reason: AdapterDegradedReason::InvalidSelection,
                },
            )
        },
        Err(PolicyError::InvocationFailed(_)) => Some(AdapterState::NotPresent),
        Err(e) => Some(spec_degraded_from_policy(e, None)),
    }
}

/// What the version outcome decides: ready at the verified combination; otherwise
/// degraded, keeping what version was seen.
pub open spec fn spec_after_version(output_state: AdapterState, outcome: Result<
    CommandOutput,
    PolicyError,
>) -> bool {
    match outcome {
        Ok(output) => if output.success {
            match spec_parse_verified_version(output.stdout@) {
                Some(v) => output_state matches AdapterState::Ready { version } && version@ == v,
                None => output_state matches AdapterState::Degraded {
                    observed_version,
                    reason: AdapterDegradedReason::UnknownVersion,
                } && observed_version_is(observed_version, spec_observed_version(output.stdout@)),
            }
        } else {
            output_state matches AdapterState::Degraded {
                observed_version,
                reason: AdapterDegradedReason::ProbeFailed,
            } && observed_version_is(observed_version, spec_observed_version(output.stdout@))
        },
        Err(e) => output_state == spec_degraded_from_policy(e, None),
    }
}

pub open spec fn observed_version_is(v: Option<String>, expected: Option<Seq<char>>) -> bool {
    match expected {
        None => v is None,
        Some(e) => v matches Some(t) && t@ == e,
    }
}

impl DockerProbe {
    /// Resumes the probe with the outcome of the probe it asked to run.
    pub fn resume(self, outcome: Result<CommandOutput, PolicyError>) -> (r: ProbeStep<DockerProbe>)
        ensures
            match self {
                DockerProbe::Context { home } => match spec_after_context(outcome, home@) {
                    None => r matches ProbeStep::Run { next: DockerProbe::Version, probe } && probe@
                        == "docker.version"@,
                    Some(state) => r == ProbeStep::<DockerProbe>::Finished(state),
                },
                DockerProbe::Version => r matches ProbeStep::Finished(state) && spec_after_version(
                    state,
                    outcome,
                ),
            },
    {
        match self {
            DockerProbe::Context { home } => match outcome {
                Ok(output) => {
                    if output.success && verified_context(output.stdout.as_slice(), home.as_str()) {
                        ProbeStep::Run { next: DockerProbe::Version, probe: version() }
                    } else {
                        ProbeStep::Finished(
                            AdapterState::Degraded {
                                observed_version: None,
                                reason: AdapterDegradedReason::InvalidSelection,
                            },
                        )
                    }
                },
                Err(PolicyError::InvocationFailed(_)) => ProbeStep::Finished(AdapterState::NotPresent),
                Err(e) => ProbeStep::Finished(degraded_from_policy(e, None)),
            },
            DockerProbe::Version => match outcome {
                Ok(output) => {
                    if output.success {
                        match parse_verified_version(output.stdout.as_slice()) {
                            Some(version) => ProbeStep::Finished(AdapterState::Ready { version }),
                            None => ProbeStep::Finished(
                                AdapterState::Degraded {
                                    observed_version: observed_version(output.stdout.as_slice()),
                                    reason: AdapterDegradedReason::UnknownVersion,
                                },
                            ),
                        }
                    } else {
                        ProbeStep::Finished(
                            AdapterState::Degraded {
                                observed_version: observed_version(output.stdout.as_slice()),
                                reason: AdapterDegradedReason::ProbeFailed,
                            },
                        )
                    }
                },
                Err(e) => ProbeStep::Finished(degraded_from_policy(e, None)),
            },
        }
    }
}

/// The daemon summary is asked for only in a ready state; an absent or degraded
/// adapter gives the gap that its state stands for.
pub open spec fn spec_system_df(state: AdapterState) -> Result<(), InventoryGapReason> {
    match state {
        AdapterState::Ready { .. } => Ok(()),
        AdapterState::NotPresent => Err(InventoryGapReason::AbsentOrChanged),
        AdapterState::Degraded { reason, .. } => Err(spec_gap_from_degraded(reason)),
    }
}

/// The daemon is reached only through the verified local context and a verified
/// version: the probe goes on past the context only when the context command
/// succeeded and named the local Docker Desktop socket of this home; it ends ready
/// only when the version command succeeded and named a verified combination; and the
/// daemon summary is asked for in a ready state and no other.
pub proof fn lemma_daemon_reached_only_when_verified(
    context: Result<CommandOutput, PolicyError>,
    version: Result<CommandOutput, PolicyError>,
    home: Seq<char>,
    state: AdapterState,
)
    ensures
        spec_after_context(context, home) is None ==> (context matches Ok(o) && o.success
            && spec_verified_context(o.stdout@, home)),
        spec_after_version(state, version) && state is Ready ==> (version matches Ok(o)
            && o.success && spec_parse_verified_version(o.stdout@) is Some),
        spec_system_df(state) is Ok <==> state is Ready,
{
}

/// The probe to run for the daemon summary, or the gap that the state stands for.
pub fn system_df(state: &AdapterState) -> (r: Result<ProbeId, InventoryGapReason>)
    ensures
        match spec_system_df(*state) {
            Ok(()) => r matches Ok(id) && id@ == "docker.system_df"@,
            Err(e) => r == Err::<ProbeId, InventoryGapReason>(e),
        },
{
    match state {
        AdapterState::Ready { .. } => Ok(system_df_probe()),
        AdapterState::NotPresent => Err(InventoryGapReason::AbsentOrChanged),
        AdapterState::Degraded { reason, .. } => Err(gap_from_degraded(*reason)),
    }
}

/// The object set that a summary row type names.
pub open spec fn usage_object_set(t: Seq<char>) -> Option<int> {
    if t == "Images"@ {
        Some(0)
    } else if t == "Containers"@ {
        Some(1)
    } else if t == "Local Volumes"@ {
        Some(2)
    } else if t == "Build Cache"@ {
        Some(3)
    } else {
        None
    }
}

/// The object-set IDs, in the order the summary reports them.
pub open spec fn usage_id(k: int) -> Seq<char> {
    if k == 0 {
        "docker.images"@
    } else if k == 1 {
        "docker.containers"@
    } else if k == 2 {
        "docker.volumes"@
    } else {
        "docker.build_cache"@
    }
}

/// One summary line: its object set, total and active counts, and its two vendor
/// sizes, when the line is a JSON object with the five string fields, the counts are
/// `u64` decimals, the sizes are rounded vendor sizes and the type is known.
pub open spec fn usage_line(line: Seq<char>) -> Option<(int, u64, u64, Seq<char>, Seq<char>)> {
    usage_in(json_document(encode_utf8(line)))
}

/// The summary row that one parsed line holds.
pub open spec fn usage_in(document: Option<JsonValue>) -> Option<(int, u64, u64, Seq<char>, Seq<char>)> {
    match document {
        Some(v) => if !is_object(v) {
            None
        } else {
            match (
                text_field(v, "Type"@),
                text_field(v, "TotalCount"@),
                text_field(v, "Active"@),
                text_field(v, "Size"@),
                text_field(v, "Reclaimable"@),
            ) {
                (Some(t), Some(tc), Some(a), Some(sz), Some(rc)) => match (
                    spec_parse_u64(tc),
                    spec_parse_u64(a),
                    usage_object_set(t),
                ) {
                    (Some(n), Some(m), Some(k)) => if spec_rounded_bounds(sz) is Some
                        && spec_rounded_bounds(rc) is Some {
                        Some((k, n, m, sz, rc))
                    } else {
                        None
                    },
                    _ => None,
                },
                _ => None,
            }
        },
        None => None,
    }
}

/// A summary row reads each count and size from its own field: the total count from
/// `TotalCount`, the active count from `Active`, the used size from `Size` and the
/// reclaimable size from `Reclaimable`.
pub proof fn lemma_summary_row_reads_its_fields(v: JsonValue)
    ensures
        usage_in(Some(v)) matches Some((k, total, active, size, reclaimable)) ==> {
            &&& text_field(v, "TotalCount"@) matches Some(t) && spec_parse_u64(t) == Some(total)
            &&& text_field(v, "Active"@) matches Some(a) && spec_parse_u64(a) == Some(active)
            &&& text_field(v, "Size"@) == Some(size)
            &&& text_field(v, "Reclaimable"@) == Some(reclaimable)
        },
{
}

/// The object set of a summary line, or -1 when the line is not a valid row.
pub open spec fn line_kind(line: Seq<char>) -> int {
    match usage_line(line) {
        Some((k, _, _, _, _)) => k,
        None => -1,
    }
}

/// The summary holds exactly the four object sets, one valid line each.
pub open spec fn summary_complete(ls: Seq<Seq<char>>) -> bool {
    &&& forall|i: int| 0 <= i < ls.len() ==> (#[trigger] usage_line(ls[i])) is Some
    &&& forall|i: int, j: int|
        0 <= i < j < ls.len() ==> #[trigger] line_kind(ls[i]) != #[trigger] line_kind(ls[j])
    &&& forall|k: int| 0 <= k < 4 ==> #[trigger] has_kind(ls, ls.len() as int, k)
}

/// One of the first `n` lines is a row of object set `k`.
pub open spec fn has_kind(ls: Seq<Seq<char>>, n: int, k: int) -> bool {
    exists|i: int| 0 <= i < n && #[trigger] line_kind(ls[i]) == k
}

/// `row` is the summary row of the line of object set `k`.
pub open spec fn row_at(row: DockerUsageRow, ls: Seq<Seq<char>>, k: int) -> bool {
    exists|i: int| 0 <= i < ls.len() && #[trigger] line_kind(ls[i]) == k && row_of(row, ls[i])
}

/// `row` is the summary row of line `line`.
pub open spec fn row_of(row: DockerUsageRow, line: Seq<char>) -> bool {
    match usage_line(line) {
        Some((k, n, m, sz, rc)) => row.object_set_id@ == usage_id(k) && row.total_count == n
            && row.active_count == m && row.size@ == sz && row.reclaimable@ == rc,
        None => false,
    }
}

fn usage_kind(t: &str) -> (r: Option<usize>)
    ensures
        match usage_object_set(t@) {
            None => r is None,
            Some(k) => r == Some(k as usize),
        },
{
    if str_eq(t, "Images") {
        Some(0)
    } else if str_eq(t, "Containers") {
        Some(1)
    } else if str_eq(t, "Local Volumes") {
        Some(2)
    } else if str_eq(t, "Build Cache") {
        Some(3)
    } else {
        None
    }
}

fn usage_id_of(k: usize) -> (r: &'static str)
    requires
        k < 4,
    ensures
        r@ == usage_id(k as int),
{
    if k == 0 {
        "docker.images"
    } else if k == 1 {
        "docker.containers"
    } else if k == 2 {
        "docker.volumes"
    } else {
        "docker.build_cache"
    }
}

fn usage_row(line: &[char]) -> (r: Option<(usize, DockerUsageRow)>)
    ensures
        match usage_line(line@) {
            None => r is None,
            Some((k, n, m, sz, rc)) => r matches Some((slot, row)) && slot == k && row_of(
                row,
                line@,
            ),
        },
{
    let text = string_of(line);
    let document = parse_json(text.as_str().as_bytes());
    usage_row_of(&document)
}

/// The summary row that one parsed line holds, and its object-set slot.
pub fn usage_row_of(document: &Option<JsonValue>) -> (r: Option<(usize, DockerUsageRow)>)
    ensures
        match usage_in(*document) {
            None => r is None,
            Some((k, n, m, sz, rc)) => r matches Some((slot, row)) && slot == k
                && row.object_set_id@ == usage_id(k) && row.total_count == n && row.active_count == m
                && row.size@ == sz && row.reclaimable@ == rc,
        },
{
    let v = match document {
        Some(v) => v,
        None => {
            return None;
        },
    };
    match v {
        JsonValue::Object(_) => {},
        _ => {
            return None;
        },
    }
    let t = read_text(v, "Type");
    let tc = read_text(v, "TotalCount");
    let a = read_text(v, "Active");
    let sz = read_text(v, "Size");
    let rc = read_text(v, "Reclaimable");
    match (t, tc, a, sz, rc) {
        (Some(t), Some(tc), Some(a), Some(sz), Some(rc)) => {
            let tcc = chars_of(tc.as_str());
            let ac = chars_of(a.as_str());
            match (parse_u64(tcc.as_slice()), parse_u64(ac.as_slice()), usage_kind(t.as_str())) {
                (Some(n), Some(m), Some(k)) => {
                    let size_ok = rounded_bytes(sz.as_str()).is_ok();
                    let reclaimable_ok = rounded_bytes(rc.as_str()).is_ok();
                    if size_ok && reclaimable_ok {
                        let row = DockerUsageRow {
                            object_set_id: usage_id_of(k),
                            total_count: n,
                            active_count: m,
                            size: sz,
                            reclaimable: rc,
                        };
                        Some((k, row))
                    } else {
                        None
                    }
                },
                _ => None,
            }
        },
        _ => None,
    }
}

/// Parses `docker system df --format json` output: UTF-8 text whose lines are the
/// four object-set rows, in any order and each once; the rows come back ordered
/// images, containers, volumes, build cache. Anything else is invalid tool output.
pub fn parse_system_df(output: &[u8]) -> (r: Result<Vec<DockerUsageRow>, InventoryGapReason>)
    ensures
        match r {
            Err(e) => e == InventoryGapReason::InvalidToolOutput && !(valid_utf8(output@)
                && summary_complete(lines(decode_utf8(output@)))),
            Ok(rows) => valid_utf8(output@) && summary_complete(lines(decode_utf8(output@)))
                && rows@.len() == 4 && forall|k: int|
                0 <= k < 4 ==> (#[trigger] rows@[k]).object_set_id@ == usage_id(k) && row_at(
                    rows@[k],
                    lines(decode_utf8(output@)),
                    k,
                ),
        },
{
    let text = match utf8_text(output) {
        Some(t) => t,
        None => {
            return Err(InventoryGapReason::InvalidToolOutput);
        },
    };
    let chars = chars_of(text.as_str());
    let ls = split_lines(chars.as_slice());
    let ghost spec_lines = lines(decode_utf8(output@));
    assert(ls@.len() == spec_lines.len());
    let mut slots: Vec<Option<DockerUsageRow>> = Vec::new();
    slots.push(None);
    slots.push(None);
    slots.push(None);
    slots.push(None);
    let mut i: usize = 0;
    while i < ls.len()
        invariant
            spec_lines == lines(decode_utf8(output@)),
            ls@.len() == spec_lines.len(),
            forall|j: int| 0 <= j < ls@.len() ==> (#[trigger] ls@[j])@ == spec_lines[j],
            i <= ls@.len(),
            slots@.len() == 4,
            forall|j: int| 0 <= j < i ==> (#[trigger] usage_line(spec_lines[j])) is Some,
            forall|j1: int, j2: int|
                0 <= j1 < j2 < i ==> #[trigger] line_kind(spec_lines[j1])
                    != #[trigger] line_kind(spec_lines[j2]),
            forall|k: int|
                0 <= k < 4 ==> (#[trigger] slots@[k] is Some <==> has_kind(spec_lines, i as int, k)),
            forall|k: int|
                0 <= k < 4 ==> (#[trigger] slots@[k] matches Some(row) ==> exists|j: int|
                    0 <= j < i && #[trigger] line_kind(spec_lines[j]) == k && row_of(row, spec_lines[j])),
        decreases ls.len() - i,
    {
        let (slot, row) = match usage_row(ls[i].as_slice()) {
            Some(found) => found,
            None => {
                assert(!summary_complete(spec_lines)) by {
                    assert(usage_line(spec_lines[i as int]) is None);
                }
                return Err(InventoryGapReason::InvalidToolOutput);
            },
        };
        if slots[slot].is_some() {
            assert(!summary_complete(spec_lines)) by {
                let j = choose|j: int|
                    0 <= j < i && #[trigger] line_kind(spec_lines[j]) == slot as int;
                assert(line_kind(spec_lines[i as int]) == slot as int);
            }
            return Err(InventoryGapReason::InvalidToolOutput);
        }
        let ghost before = slots@;
        slots.set(slot, Some(row));
        proof {
            assert(usage_line(spec_lines[i as int]) is Some);
            assert forall|k: int| 0 <= k < 4 implies (#[trigger] slots@[k] is Some <==> has_kind(
                spec_lines,
                i + 1,
                k,
            )) by {
                if k == slot {
                    assert(line_kind(spec_lines[i as int]) == k);
                } else {
                    assert(slots@[k] == before[k]);
                    if slots@[k] is Some {
                        let j = choose|j: int|
                            0 <= j < i && #[trigger] line_kind(spec_lines[j]) == k;
                    }
                }
            }
            assert forall|k: int| 0 <= k < 4 implies (#[trigger] slots@[k] matches Some(row) ==> exists|j: int|
                0 <= j < i + 1 && #[trigger] line_kind(spec_lines[j]) == k && row_of(row, spec_lines[j])) by {
                if k == slot {
                    assert(row_of(row, spec_lines[i as int]));
                    assert(line_kind(spec_lines[i as int]) == k);
                } else {
                    assert(slots@[k] == before[k]);
                }
            }
        }
        i = i + 1;
    }
    let mut rows: Vec<DockerUsageRow> = Vec::new();
    let mut k: usize = 0;
    while k < 4
        invariant
            spec_lines == lines(decode_utf8(output@)),
            slots@.len() == 4,
            i == spec_lines.len(),
            k <= 4,
            rows@.len() == k,
            forall|m: int|
                0 <= m < 4 ==> (#[trigger] slots@[m] is Some <==> has_kind(spec_lines, i as int, m)),
            forall|m: int|
                0 <= m < 4 ==> (#[trigger] slots@[m] matches Some(row) ==> exists|j: int|
                    0 <= j < i && #[trigger] line_kind(spec_lines[j]) == m && row_of(row, spec_lines[j])),
            forall|m: int| 0 <= m < k ==> #[trigger] slots@[m] == Some(rows@[m]),
            forall|m: int| 0 <= m < k ==> (#[trigger] slots@[m]) is Some,
        decreases 4 - k,
    {
        match &slots[k] {
            Some(row) => {
                let copied = DockerUsageRow {
                    object_set_id: row.object_set_id,
                    total_count: row.total_count,
                    active_count: row.active_count,
                    size: row.size.clone(),
                    reclaimable: row.reclaimable.clone(),
                };
                rows.push(copied);
            },
            None => {
                assert(!summary_complete(spec_lines)) by {
                    if summary_complete(spec_lines) {
                        let j = choose|j: int|
                            0 <= j < spec_lines.len() && #[trigger] line_kind(spec_lines[j])
                                == k as int;
                    }
                }
                return Err(InventoryGapReason::InvalidToolOutput);
            },
        }
        k = k + 1;
    }
    proof {
        assert forall|m: int| 0 <= m < 4 implies #[trigger] has_kind(
            spec_lines,
            spec_lines.len() as int,
            m,
        ) by {
            assert(slots@[m] is Some);
        }
        assert(summary_complete(spec_lines));
        assert forall|m: int| 0 <= m < 4 implies (#[trigger] rows@[m]).object_set_id@ == usage_id(m)
            && row_at(rows@[m], lines(decode_utf8(output@)), m) by {
            assert(slots@[m] == Some(rows@[m]));
            let j = choose|j: int|
                0 <= j < i && #[trigger] line_kind(spec_lines[j]) == m && row_of(rows@[m], spec_lines[j]);
            assert(row_of(rows@[m], spec_lines[j]));
            assert(line_kind(spec_lines[j]) == m);
        }
    }
    Ok(rows)
}

/// A rounded vendor size as a measurement value: the text with the byte range it
/// stands for.
pub open spec fn rounded_value_of(text: Seq<char>, v: MeasurementValue) -> bool {
    match (spec_rounded_bounds(text), v) {
        (
            Some((lo, hi)),
            MeasurementValue::RoundedBytes { reported, lower_bound_bytes, upper_bound_bytes },
        ) => reported@ == text && lower_bound_bytes == lo && upper_bound_bytes == hi,
        _ => false,
    }
}

fn complete_coverage() -> (r: MeasurementCoverage)
    ensures
        r.status == MeasurementCoverageStatus::Complete,
        r.gap_view() == Seq::<Seq<char>>::empty(),
{
    let r = MeasurementCoverage { status: MeasurementCoverageStatus::Complete, gap_ids: Vec::new() };
    assert(r.gap_view() =~= Seq::<Seq<char>>::empty());
    r
}

fn daemon_measurement(quantity: MeasurementQuantity, value: MeasurementValue, id: &str) -> (r:
    Measurement)
    ensures
        measurement_is(
            r,
            MeasurementPlane::ToolchainAttribution,
            quantity,
            MeasurementBasis::DockerSystemDf,
            MeasurementScopeKind::ObjectSet,
            id@,
            MeasurementCoverageStatus::Complete,
            Seq::empty(),
            value,
        ),
{
    Measurement {
        plane: MeasurementPlane::ToolchainAttribution,
        quantity,
        basis: MeasurementBasis::DockerSystemDf,
        scope: MeasurementScope { kind: MeasurementScopeKind::ObjectSet, id: id.to_owned() },
        coverage: complete_coverage(),
        value,
    }
}

/// The measurements of one daemon object set: its total and active counts, and the
/// rounded sizes it uses and could reclaim, all on the daemon's own basis.
pub open spec fn daemon_item_is(item: InventoryItem, row: DockerUsageRow) -> bool {
    let id = row.object_set_id@;
    &&& item.rule_id@ == id
    &&& item.subject matches FindingSubject::ToolchainObjectSet { object_set_id }
        && object_set_id@ == id
    &&& item.path is None
    &&& item.measurements@.len() == 4
    &&& measurement_is(
        item.measurements@[0],
        MeasurementPlane::ToolchainAttribution,
        MeasurementQuantity::ObjectCount,
        MeasurementBasis::DockerSystemDf,
        MeasurementScopeKind::ObjectSet,
        id,
        MeasurementCoverageStatus::Complete,
        Seq::empty(),
        MeasurementValue::ExactCount { count: row.total_count },
    )
    &&& measurement_is(
        item.measurements@[1],
        MeasurementPlane::ToolchainAttribution,
        MeasurementQuantity::ActiveObjectCount,
        MeasurementBasis::DockerSystemDf,
        MeasurementScopeKind::ObjectSet,
        id,
        MeasurementCoverageStatus::Complete,
        Seq::empty(),
        MeasurementValue::ExactCount { count: row.active_count },
    )
    &&& item.measurements@[2].quantity == MeasurementQuantity::DaemonUsed
    &&& item.measurements@[2].plane == MeasurementPlane::ToolchainAttribution
    &&& item.measurements@[2].basis == MeasurementBasis::DockerSystemDf
    &&& item.measurements@[2].scope.kind == MeasurementScopeKind::ObjectSet
    &&& item.measurements@[2].scope.id@ == id
    &&& item.measurements@[2].coverage.status == MeasurementCoverageStatus::Complete
    &&& item.measurements@[2].coverage.gap_view() == Seq::<Seq<char>>::empty()
    &&& rounded_value_of(row.size@, item.measurements@[2].value)
    &&& item.measurements@[3].quantity == MeasurementQuantity::DaemonReclaimable
    &&& item.measurements@[3].plane == MeasurementPlane::ToolchainAttribution
    &&& item.measurements@[3].basis == MeasurementBasis::DockerSystemDf
    &&& item.measurements@[3].scope.kind == MeasurementScopeKind::ObjectSet
    &&& item.measurements@[3].scope.id@ == id
    &&& item.measurements@[3].coverage.status == MeasurementCoverageStatus::Complete
    &&& item.measurements@[3].coverage.gap_view() == Seq::<Seq<char>>::empty()
    &&& rounded_value_of(row.reclaimable@, item.measurements@[3].value)
    &&& item.observations@.len() == 0
    &&& item.identity == InventoryIdentity::Path
}

/// `v` is a rounded size reported as `text`.
pub open spec fn reports_text(v: MeasurementValue, text: Seq<char>) -> bool {
    v matches MeasurementValue::RoundedBytes { reported, .. } && reported@ == text
}

/// The counts of a daemon object set keep their meaning: every active-count
/// measurement holds the row's active count and every object-count measurement its
/// total count, each present; the used and reclaimable sizes report the row's own
/// texts.
pub proof fn lemma_daemon_counts_keep_their_fields(item: InventoryItem, row: DockerUsageRow)
    requires
        daemon_item_is(item, row),
    ensures
        forall|k: int|
            0 <= k < item.measurements@.len() && (#[trigger] item.measurements@[k]).quantity
                == MeasurementQuantity::ActiveObjectCount ==> item.measurements@[k].value
                == (MeasurementValue::ExactCount { count: row.active_count }),
        forall|k: int|
            0 <= k < item.measurements@.len() && (#[trigger] item.measurements@[k]).quantity
                == MeasurementQuantity::ObjectCount ==> item.measurements@[k].value
                == (MeasurementValue::ExactCount { count: row.total_count }),
        exists|k: int|
            0 <= k < item.measurements@.len() && (#[trigger] item.measurements@[k]).quantity
                == MeasurementQuantity::ActiveObjectCount,
        exists|k: int|
            0 <= k < item.measurements@.len() && (#[trigger] item.measurements@[k]).quantity
                == MeasurementQuantity::ObjectCount,
        forall|k: int|
            0 <= k < item.measurements@.len() && (#[trigger] item.measurements@[k]).quantity
                == MeasurementQuantity::DaemonUsed ==> reports_text(item.measurements@[k].value, row.size@),
        forall|k: int|
            0 <= k < item.measurements@.len() && (#[trigger] item.measurements@[k]).quantity
                == MeasurementQuantity::DaemonReclaimable ==> reports_text(item.measurements@[k].value, row.reclaimable@),
{
    let m = item.measurements@;
    assert(m[1].quantity == MeasurementQuantity::ActiveObjectCount);
    assert(m[0].quantity == MeasurementQuantity::ObjectCount);
}

/// The inventory item of one daemon object set; its sizes must be rounded vendor
/// sizes.
pub fn daemon_item(row: &DockerUsageRow) -> (r: Result<InventoryItem, InventoryGapReason>)
    ensures
        match r {
            Err(e) => e == InventoryGapReason::InvalidToolOutput && (spec_rounded_bounds(row.size@)
                is None || spec_rounded_bounds(row.reclaimable@) is None),
            Ok(item) => daemon_item_is(item, *row),
        },
{
    let used = match rounded_bytes(row.size.as_str()) {
        Ok(v) => v,
        Err(_) => {
            return Err(InventoryGapReason::InvalidToolOutput);
        },
    };
    let reclaimable = match rounded_bytes(row.reclaimable.as_str()) {
        Ok(v) => v,
        Err(_) => {
            return Err(InventoryGapReason::InvalidToolOutput);
        },
    };
    let id = row.object_set_id;
    let mut measurements: Vec<Measurement> = Vec::new();
    measurements.push(
        daemon_measurement(
            MeasurementQuantity::ObjectCount,
            MeasurementValue::ExactCount { count: row.total_count },
            id,
        ),
    );
    measurements.push(
        daemon_measurement(
            MeasurementQuantity::ActiveObjectCount,
            MeasurementValue::ExactCount { count: row.active_count },
            id,
        ),
    );
    measurements.push(daemon_measurement(MeasurementQuantity::DaemonUsed, used, id));
    measurements.push(daemon_measurement(MeasurementQuantity::DaemonReclaimable, reclaimable, id));
    Ok(
        InventoryItem {
            rule_id: id.to_owned(),
            subject: FindingSubject::ToolchainObjectSet { object_set_id: id.to_owned() },
            path: None,
            measurements,
            observations: Vec::new(),
            identity: InventoryIdentity::Path,
        },
    )
}

/// A gap of the daemon inventory.
pub open spec fn daemon_gap_is(gap: InventoryGap, reason: InventoryGapReason) -> bool {
    &&& gap.region@ == "docker.daemon_inventory"@
    &&& gap.path is None
    &&& gap.reason == reason
    &&& gap.stage == Some(InventoryStage::DockerSystemDf)
    &&& gap.errno is None
}

fn daemon_gap(reason: InventoryGapReason) -> (r: InventoryGap)
    ensures
        daemon_gap_is(r, reason),
{
    InventoryGap {
        region: "docker.daemon_inventory",
        path: None,
        reason,
        stage: Some(InventoryStage::DockerSystemDf),
        errno: None,
    }
}

/// What the daemon summary adds to the inventory: every object set with a gap that
/// says the summary leaves the inactive store out; nothing but the gap when the
/// summary failed or one of its sizes is not a rounded vendor size.
pub fn daemon_inventory(rows: Result<Vec<DockerUsageRow>, InventoryGapReason>) -> (r: (
    Vec<InventoryItem>,
    Vec<InventoryGap>,
))
    ensures
        r.1@.len() == 1,
        match rows {
            Err(reason) => r.0@.len() == 0 && daemon_gap_is(r.1@[0], reason),
            Ok(rows) => if exists|k: int|
                0 <= k < rows@.len() && (spec_rounded_bounds((#[trigger] rows@[k]).size@) is None
                    || spec_rounded_bounds(rows@[k].reclaimable@) is None) {
                r.0@.len() == 0 && daemon_gap_is(r.1@[0], InventoryGapReason::InvalidToolOutput)
            } else {
                &&& r.0@.len() == rows@.len()
                &&& forall|k: int| 0 <= k < rows@.len() ==> daemon_item_is(#[trigger] r.0@[k], rows@[k])
                &&& daemon_gap_is(
                    r.1@[0],
                    InventoryGapReason::DaemonInventoryExcludesInactiveStore,
                )
            },
        },
{
    let mut gaps: Vec<InventoryGap> = Vec::new();
    match rows {
        Err(reason) => {
            gaps.push(daemon_gap(reason));
            (Vec::new(), gaps)
        },
        Ok(list) => {
            let mut items: Vec<InventoryItem> = Vec::new();
            let mut k: usize = 0;
            while k < list.len()
                invariant
                    rows == Ok::<Vec<DockerUsageRow>, InventoryGapReason>(list),
                    gaps@.len() == 0,
                    k <= list@.len(),
                    items@.len() == k,
                    forall|m: int| 0 <= m < k ==> daemon_item_is(#[trigger] items@[m], list@[m]),
                    forall|m: int|
                        0 <= m < k ==> !(spec_rounded_bounds((#[trigger] list@[m]).size@) is None
                            || spec_rounded_bounds(list@[m].reclaimable@) is None),
                decreases list.len() - k,
            {
                match daemon_item(&list[k]) {
                    Ok(item) => {
                        items.push(item);
                    },
                    Err(reason) => {
                        gaps.push(daemon_gap(reason));
                        assert(spec_rounded_bounds(list@[k as int].size@) is None
                            || spec_rounded_bounds(list@[k as int].reclaimable@) is None);
                        return (Vec::new(), gaps);
                    },
                }
                k = k + 1;
            }
            gaps.push(daemon_gap(InventoryGapReason::DaemonInventoryExcludesInactiveStore));
            (items, gaps)
        },
    }
}

/// What the summary probe's outcome yields: the policy's refusal or the command's
/// failure as a typed gap, otherwise the parsed rows.
pub fn system_df_rows(outcome: Result<CommandOutput, PolicyError>) -> (r: Result<
    Vec<DockerUsageRow>,
    InventoryGapReason,
>)
    ensures
        match outcome {
            Err(e) => r == Err::<Vec<DockerUsageRow>, InventoryGapReason>(spec_gap_from_policy(e)),
            Ok(output) => if !output.success {
                r == Err::<Vec<DockerUsageRow>, InventoryGapReason>(InventoryGapReason::ProbeFailed)
            } else {
                match r {
                    Err(e) => e == InventoryGapReason::InvalidToolOutput && !(valid_utf8(
                        output.stdout@,
                    ) && summary_complete(lines(decode_utf8(output.stdout@)))),
                    Ok(rows) => valid_utf8(output.stdout@) && summary_complete(
                        lines(decode_utf8(output.stdout@)),
                    ) && rows@.len() == 4 && forall|k: int|
                        0 <= k < 4 ==> (#[trigger] rows@[k]).object_set_id@ == usage_id(k) && row_at(
                            rows@[k],
                            lines(decode_utf8(output.stdout@)),
                            k,
                        ),
                }
            },
        },
{
    match outcome {
        Err(e) => Err(gap_from_policy(e)),
        Ok(output) => {
            if !output.success {
                Err(InventoryGapReason::ProbeFailed)
            } else {
                parse_system_df(output.stdout.as_slice())
            }
        },
    }
}

/// A gap of the host VM disk.
pub open spec fn disk_gap_is(
    gap: InventoryGap,
    path: Option<Seq<char>>,
    reason: InventoryGapReason,
    stage: InventoryStage,
    errno: Option<i32>,
) -> bool {
    &&& gap.region@ == "docker.virtual_disk"@
    &&& match path {
        None => gap.path is None,
        Some(p) => gap.path matches Some(q) && q@ == p,
    }
    &&& gap.reason == reason
    &&& gap.stage == Some(stage)
    &&& gap.errno == errno
}

pub fn virtual_disk_gap(
    path: Option<&str>,
    reason: InventoryGapReason,
    stage: InventoryStage,
    errno: Option<i32>,
) -> (r: InventoryGap)
    ensures
        disk_gap_is(r, opt_view(path), reason, stage, errno),
{
    let path = match path {
        Some(p) => Some(p.to_owned()),
        None => None,
    };
    InventoryGap { region: "docker.virtual_disk", path, reason, stage: Some(stage), errno }
}

/// An I/O failure on a disk-image or settings path, by its errno.
pub fn io_gap(path: &str, stage: InventoryStage, errno: Option<i32>) -> (r: InventoryGap)
    ensures
        disk_gap_is(r, Some(path@), errno_reason(errno), stage, errno),
{
    virtual_disk_gap(Some(path), reason_for_errno(errno), stage, errno)
}

pub open spec fn root_error_reason(error: RootError) -> InventoryGapReason {
    match error {
        RootError::CloudRootExcluded => InventoryGapReason::PolicyDeniedUnknown,
        RootError::ReadPolicyVerificationFailed => InventoryGapReason::PolicyDeniedUnknown,
        RootError::PathUnresolvable => InventoryGapReason::AbsentOrChanged,
        _ => InventoryGapReason::TraversalFailed,
    }
}

/// A custom data folder that could not be opened as a root.
pub fn root_gap(path: &str, error: RootError) -> (r: InventoryGap)
    ensures
        disk_gap_is(r, Some(path@), root_error_reason(error), InventoryStage::RootInitialization, None),
{
    let reason = match error {
        RootError::CloudRootExcluded => InventoryGapReason::PolicyDeniedUnknown,
        RootError::ReadPolicyVerificationFailed => InventoryGapReason::PolicyDeniedUnknown,
        RootError::PathUnresolvable => InventoryGapReason::AbsentOrChanged,
        _ => InventoryGapReason::TraversalFailed,
    };
    virtual_disk_gap(Some(path), reason, InventoryStage::RootInitialization, None)
}

/// The data folder a settings file names under `key`: an absolute path with no `..`
/// component, when the file is a JSON value that has it as a string.
pub open spec fn spec_parse_data_folder(contents: Seq<u8>, key: Seq<char>) -> Option<Seq<char>> {
    data_folder_in(json_document(contents), key)
}

/// The data folder that a parsed settings document names under `key`.
pub open spec fn data_folder_in(document: Option<JsonValue>, key: Seq<char>) -> Option<Seq<char>> {
    match document {
        Some(v) => match member(v, key) {
            Some(JsonValue::Text(s)) => if is_normalized_absolute(s@) {
                Some(s@)
            } else {
                None
            },
            _ => None,
        },
        None => None,
    }
}

pub fn parse_data_folder(contents: &[u8], key: &str) -> (r: Option<String>)
    ensures
        match spec_parse_data_folder(contents@, key@) {
            None => r is None,
            Some(p) => r matches Some(s) && s@ == p,
        },
{
    data_folder_of(&parse_json(contents), key)
}

pub fn data_folder_of(document: &Option<JsonValue>, key: &str) -> (r: Option<String>)
    ensures
        match data_folder_in(*document, key@) {
            None => r is None,
            Some(p) => r matches Some(s) && s@ == p,
        },
{
    match document {
        Some(v) => match get_member(v, key) {
            Some(JsonValue::Text(s)) => {
                let chars = chars_of(s.as_str());
                if normalized_absolute(chars.as_slice()) {
                    Some(s.clone())
                } else {
                    None
                }
            },
            _ => None,
        },
        None => None,
    }
}

/// The data folder that a settings file configures, or the gap of a settings file
/// that does not name a usable one.
pub fn setting_data_folder(contents: &[u8], key: &str, settings_path: &str) -> (r: Result<
    String,
    InventoryGap,
>)
    ensures
        match spec_parse_data_folder(contents@, key@) {
            Some(p) => r matches Ok(s) && s@ == p,
            None => r matches Err(gap) && disk_gap_is(
                gap,
                Some(settings_path@),
                InventoryGapReason::InvalidToolOutput,
                InventoryStage::DockerSettings,
                None,
            ),
        },
{
    match parse_data_folder(contents, key) {
        Some(p) => Ok(p),
        None => Err(
            virtual_disk_gap(
                Some(settings_path),
                InventoryGapReason::InvalidToolOutput,
                InventoryStage::DockerSettings,
                None,
            ),
        ),
    }
}

/// Which of the existing disk images to measure: none when there is none, the only
/// one when there is one; of two, the raw image only at a verified version, since
/// an unverified version cannot say which is live.
pub open spec fn spec_choose_disk_image(candidates: nat, ready: bool) -> Result<Option<nat>, ()> {
    if candidates == 0 {
        Ok(None)
    } else if candidates == 1 {
        Ok(Some(0))
    } else if candidates == 2 && ready {
        Ok(Some(0))
    } else {
        Err(())
    }
}

pub fn choose_disk_image(candidates: usize, ready: bool) -> (r: Result<Option<usize>, ()>)
    ensures
        match spec_choose_disk_image(candidates as nat, ready) {
            Ok(None) => r == Ok::<Option<usize>, ()>(None),
            Ok(Some(i)) => r == Ok::<Option<usize>, ()>(Some(i as usize)),
            Err(()) => r is Err,
        },
{
    if candidates == 0 {
        Ok(None)
    } else if candidates == 1 {
        Ok(Some(0))
    } else if candidates == 2 && ready {
        Ok(Some(0))
    } else {
        Err(())
    }
}

/// The inventory item of a measured disk image: refused when it is a dataless
/// placeholder or not a regular file; a traversal failure when its path does not
/// normalize under `home`; otherwise its logical limit and host allocation.
pub fn disk_item(measured: &ObjectMeasurements, is_file: bool, home: &str, path: &str) -> (r: Result<
    InventoryItem,
    InventoryGap,
>)
    ensures
        measured.dataless || !is_file ==> (r matches Err(gap) && disk_gap_is(
            gap,
            Some(path@),
            InventoryGapReason::PolicyDeniedUnknown,
            InventoryStage::DockerDiskImage,
            None,
        )),
        !(measured.dataless || !is_file) ==> match spec_normalized_report_path(home@, path@) {
            Err(_) => r matches Err(gap) && disk_gap_is(
                gap,
                Some(path@),
                InventoryGapReason::TraversalFailed,
                InventoryStage::DockerDiskImage,
                None,
            ),
            Ok(normalized) => r matches Ok(item) && {
                &&& item.rule_id@ == "docker.virtual_disk"@
                &&& item.subject matches FindingSubject::FilesystemPath { normalized_path }
                    && normalized_path@ == normalized
                &&& item.path matches Some(p) && p@ == path@
                &&& item.measurements@.len() == 2
                &&& measurement_is(
                    item.measurements@[0],
                    MeasurementPlane::ToolchainAttribution,
                    MeasurementQuantity::DiskImageLogicalLimit,
                    MeasurementBasis::LogicalSize,
                    MeasurementScopeKind::ToolchainStore,
                    normalized,
                    MeasurementCoverageStatus::Complete,
                    Seq::empty(),
                    MeasurementValue::ExactBytes { bytes: measured.logical_bytes },
                )
                &&& measurement_is(
                    item.measurements@[1],
                    MeasurementPlane::ToolchainAttribution,
                    MeasurementQuantity::HostAllocatedFootprint,
                    MeasurementBasis::AllocatedFootprint,
                    MeasurementScopeKind::ToolchainStore,
                    normalized,
                    if measured.allocated_bytes is Some {
                        MeasurementCoverageStatus::Complete
                    } else {
                        MeasurementCoverageStatus::Unmeasurable
                    },
                    if measured.allocated_bytes is Some {
                        Seq::empty()
                    } else {
                        seq!["allocated_size_unmeasurable"@]
                    },
                    match measured.allocated_bytes {
                        Some(b) => MeasurementValue::ExactBytes { bytes: b },
                        None => MeasurementValue::Unmeasurable,
                    },
                )
                &&& item.observations@ == spec_object_observations(*measured)
                &&& item.identity == InventoryIdentity::Path
            },
        },
{
    if measured.dataless || !is_file {
        return Err(
            virtual_disk_gap(
                Some(path),
                InventoryGapReason::PolicyDeniedUnknown,
                InventoryStage::DockerDiskImage,
                None,
            ),
        );
    }
    let normalized = match normalized_report_path(home, path) {
        Ok(n) => n,
        Err(_) => {
            return Err(
                virtual_disk_gap(
                    Some(path),
                    InventoryGapReason::TraversalFailed,
                    InventoryStage::DockerDiskImage,
                    None,
                ),
            );
        },
    };
    let logical = Measurement {
        plane: MeasurementPlane::ToolchainAttribution,
        quantity: MeasurementQuantity::DiskImageLogicalLimit,
        basis: MeasurementBasis::LogicalSize,
        scope: MeasurementScope {
            kind: MeasurementScopeKind::ToolchainStore,
            id: normalized.clone(),
        },
        coverage: complete_coverage(),
        value: MeasurementValue::ExactBytes { bytes: measured.logical_bytes },
    };
    let mut gap_ids: Vec<String> = Vec::new();
    let (status, value) = match measured.allocated_bytes {
        Some(bytes) => (MeasurementCoverageStatus::Complete, MeasurementValue::ExactBytes { bytes }),
        None => {
            gap_ids.push("allocated_size_unmeasurable".to_owned());
            (MeasurementCoverageStatus::Unmeasurable, MeasurementValue::Unmeasurable)
        },
    };
    let allocated = Measurement {
        plane: MeasurementPlane::ToolchainAttribution,
        quantity: MeasurementQuantity::HostAllocatedFootprint,
        basis: MeasurementBasis::AllocatedFootprint,
        scope: MeasurementScope {
            kind: MeasurementScopeKind::ToolchainStore,
            id: normalized.clone(),
        },
        coverage: MeasurementCoverage { status, gap_ids },
        value,
    };
    proof {
        reveal_strlit("allocated_size_unmeasurable");
        assert(allocated.coverage.gap_view() =~= if measured.allocated_bytes is Some {
            Seq::<Seq<char>>::empty()
        } else {
            seq!["allocated_size_unmeasurable"@]
        });
    }
    let mut measurements: Vec<Measurement> = Vec::new();
    measurements.push(logical);
    measurements.push(allocated);
    Ok(
        InventoryItem {
            rule_id: "docker.virtual_disk".to_owned(),
            subject: FindingSubject::FilesystemPath { normalized_path: normalized },
            path: Some(path.to_owned()),
            measurements,
            observations: object_observations(measured),
            identity: InventoryIdentity::Path,
        },
    )
}

pub const IMAGE_PRUNE: &'static str = "docker --context desktop-linux image prune";

pub const IMAGE_PRUNE_NOTE: &'static str = "This vendor command removes dangling unused images. The vendor does not provide a reliable preview.";

pub const BUILDER_PRUNE: &'static str = "docker --context desktop-linux builder prune";

pub const BUILDER_PRUNE_NOTE: &'static str = "This vendor command removes unused BuildKit cache that a later build can reconstruct. The vendor does not provide a reliable preview.";

pub const CONTAINER_LIST: &'static str = "docker --context desktop-linux ps -a";

pub const CONTAINER_LIST_NOTE: &'static str = "Inspect the daemon container list. SizeTrail does not suggest a prune or file-delete command because containers hold writable user state.";

pub const SYSTEM_PRUNE: &'static str = "docker --context desktop-linux system prune --volumes";

pub const SYSTEM_PRUNE_NOTE: &'static str = "This vendor command deletes stopped containers, unused networks, unused images, unused build cache, and unused anonymous volumes. It is not a recommended one-click next step. The vendor does not provide a reliable preview.";

pub const HOST_DISK_NOTE: &'static str = "This host VM disk is not a safe deletion target. Deleting it destroys images, containers, and volumes together. SizeTrail only reveals the path.";

/// The advice for a Docker finding: the vendor command for each object set (only
/// the container list is an inspection), and for the host VM disk only its path.
pub open spec fn docker_advice(f: Finding) -> Seq<(bool, Seq<char>, AdviceImpact, Seq<char>, bool)> {
    if f.rule_id@ == "docker.images"@ {
        seq![command_view(IMAGE_PRUNE@, AdviceImpact::Destructive, IMAGE_PRUNE_NOTE@, false)]
    } else if f.rule_id@ == "docker.build_cache"@ {
        seq![command_view(BUILDER_PRUNE@, AdviceImpact::Destructive, BUILDER_PRUNE_NOTE@, false)]
    } else if f.rule_id@ == "docker.containers"@ {
        seq![command_view(CONTAINER_LIST@, AdviceImpact::Inspect, CONTAINER_LIST_NOTE@, true)]
    } else if f.rule_id@ == "docker.volumes"@ {
        seq![command_view(SYSTEM_PRUNE@, AdviceImpact::Destructive, SYSTEM_PRUNE_NOTE@, false)]
    } else {
        match f.subject {
            FindingSubject::FilesystemPath { normalized_path } => seq![
                reveal_view(normalized_path@, HOST_DISK_NOTE@),
            ],
            FindingSubject::ToolchainObjectSet { .. } => Seq::empty(),
        }
    }
}

/// Each Docker object-set rule is answered with exactly one command and never with a
/// reveal: the container list only inspects and previews reliably, while the image,
/// build-cache and volume prunes are destructive and preview nothing; the virtual disk,
/// named by its path, is only revealed at that path.
pub proof fn lemma_docker_advice_shape(f: Finding)
    ensures
        ({
            let id = f.rule_id@;
            (id == "docker.images"@ || id == "docker.build_cache"@ || id == "docker.volumes"@)
                ==> docker_advice(f).len() == 1 && docker_advice(f)[0].0
                && docker_advice(f)[0].2 == AdviceImpact::Destructive && !docker_advice(f)[0].4
        }),
        f.rule_id@ == "docker.containers"@ ==> docker_advice(f).len() == 1 && docker_advice(f)[0].0
            && docker_advice(f)[0].2 == AdviceImpact::Inspect && docker_advice(f)[0].4,
        f.rule_id@ == "docker.virtual_disk"@ ==> match f.subject {
            FindingSubject::FilesystemPath { normalized_path } => docker_advice(f).len() == 1
                && !docker_advice(f)[0].0 && docker_advice(f)[0].1 == normalized_path@,
            FindingSubject::ToolchainObjectSet { .. } => docker_advice(f).len() == 0,
        },
{
    reveal_strlit("docker.images");
    reveal_strlit("docker.build_cache");
    reveal_strlit("docker.containers");
    reveal_strlit("docker.volumes");
    reveal_strlit("docker.virtual_disk");
    assert("docker.images"@.len() == 13);
    assert("docker.build_cache"@.len() == 18);
    assert("docker.containers"@.len() == 17);
    assert("docker.volumes"@.len() == 14);
    assert("docker.virtual_disk"@.len() == 19);
}

fn one(a: Advice) -> (r: Vec<Advice>)
    ensures
        advice_views(r@) == seq![a@],
{
    let mut v: Vec<Advice> = Vec::new();
    v.push(a);
    assert(advice_views(v@) =~= seq![a@]);
    v
}

/// `built` holds, item by item, the advised finding that the Docker rules make.
pub open spec fn docker_findings(
    built: Seq<Finding>,
    rules: Seq<Rule>,
    items: Seq<InventoryItem>,
) -> bool {
    &&& built.len() == items.len()
    &&& forall|i: int|
        0 <= i < built.len() ==> finding_of(
            #[trigger] built[i],
            "docker"@,
            Some("docker"@),
            rules,
            items[i],
        ) && advice_views(built[i].advice@) == docker_advice(built[i])
}

/// The Docker adapter over the rule set it classifies with.
pub struct DockerAdapter {
    pub rules: Vec<Rule>,
}

impl DockerAdapter {
    pub fn new(rules: Vec<Rule>) -> (r: Self)
        ensures
            r.rules@ == rules@,
    {
        DockerAdapter { rules }
    }

    pub fn docker_advise(&self, finding: &Finding) -> (r: Vec<Advice>)
        ensures
            advice_views(r@) == docker_advice(*finding),
    {
        let rule = finding.rule_id.as_str();
        if str_eq(rule, "docker.images") {
            one(command_advice(IMAGE_PRUNE, AdviceImpact::Destructive, IMAGE_PRUNE_NOTE, false))
        } else if str_eq(rule, "docker.build_cache") {
            one(command_advice(BUILDER_PRUNE, AdviceImpact::Destructive, BUILDER_PRUNE_NOTE, false))
        } else if str_eq(rule, "docker.containers") {
            one(command_advice(CONTAINER_LIST, AdviceImpact::Inspect, CONTAINER_LIST_NOTE, true))
        } else if str_eq(rule, "docker.volumes") {
            one(command_advice(SYSTEM_PRUNE, AdviceImpact::Destructive, SYSTEM_PRUNE_NOTE, false))
        } else {
            match finding.subject.filesystem_path() {
                Some(path) => one(reveal_advice(path, HOST_DISK_NOTE)),
                None => {
                    let v: Vec<Advice> = Vec::new();
                    assert(advice_views(v@) =~= Seq::empty());
                    v
                },
            }
        }
    }

    /// The findings that the Docker rules make of an inventory, advised and normalized;
    /// the rule set is invalid as soon as one item has no rule, no canonical key or no
    /// valid finding ID.
    pub fn docker_classify(&self, inventory: &Inventory) -> (r: Result<Vec<Finding>, InventoryGapReason>)
        ensures
            r is Err <==> exists|i: int|
                0 <= i < inventory.items@.len() && !classifiable(
                    "docker"@,
                    Some("docker"@),
                    self.rules@,
                    #[trigger] inventory.items@[i],
                ),
            r matches Err(e) ==> e == InventoryGapReason::RuleSetInvalid,
            r matches Ok(fs) ==> exists|built: Seq<Finding>|
                #[trigger] docker_findings(built, self.rules@, inventory.items@)
                    && findings_normalized_from(built, fs@),
    {
        let mut built: Vec<Finding> = Vec::new();
        let mut i: usize = 0;
        while i < inventory.items.len()
            invariant
                i <= inventory.items@.len(),
                built@.len() == i,
                forall|k: int|
                    0 <= k < i ==> finding_of(
                        #[trigger] built@[k],
                        "docker"@,
                        Some("docker"@),
                        self.rules@,
                        inventory.items@[k],
                    ) && advice_views(built@[k].advice@) == docker_advice(built@[k]),
                forall|k: int|
                    0 <= k < i ==> classifiable(
                        "docker"@,
                        Some("docker"@),
                        self.rules@,
                        #[trigger] inventory.items@[k],
                    ),
            decreases inventory.items.len() - i,
        {
            let mut f = match finding_for("docker", Some("docker"), self.rules.as_slice(), &inventory.items[i]) {
                Ok(f) => f,
                Err(e) => {
                    return Err(e);
                },
            };
            let advice = self.docker_advise(&f);
            f.advice = advice;
            built.push(f);
            i = i + 1;
        }
        let ghost before = built@;
        assert(docker_findings(before, self.rules@, inventory.items@));
        normalize_findings(&mut built);
        assert(findings_normalized_from(before, built@));
        Ok(built)
    }
}

impl ToolchainAdapter for DockerAdapter {
    fn id(&self) -> (r: AdapterId)
        ensures
            r@ == "docker"@,
    {
        AdapterId::new("docker")
    }

    fn classify(&self, inventory: &Inventory) -> (r: Result<Vec<Finding>, InventoryGapReason>)
        ensures
            r is Err <==> exists|i: int|
                0 <= i < inventory.items@.len() && !classifiable(
                    "docker"@,
                    Some("docker"@),
                    self.rules@,
                    #[trigger] inventory.items@[i],
                ),
            r matches Err(e) ==> e == InventoryGapReason::RuleSetInvalid,
            r matches Ok(fs) ==> exists|built: Seq<Finding>|
                #[trigger] docker_findings(built, self.rules@, inventory.items@)
                    && findings_normalized_from(built, fs@),
    {
        self.docker_classify(inventory)
    }

    fn advise(&self, finding: &Finding) -> (r: Vec<Advice>)
        ensures
            advice_views(r@) == docker_advice(*finding),
    {
        self.docker_advise(finding)
    }
}

} // verus!
