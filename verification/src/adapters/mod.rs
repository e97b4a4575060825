//! The adapter contract: the states a toolchain probe can end in, the inventory an
//! adapter collects, and the typed gaps it reports where it could not look.

use vstd::prelude::*;

use crate::model::{
    Advice, Finding, FindingIdError, FindingSubject, Measurement, SignalObservation,
    copy_measurements, copy_observations, copy_subject, finding_id, same_measurements,
    spec_canonical_key, spec_finding_id, text_result,
};
use crate::rules::{Rule, mechanism_name, recoverability_name, sensitivity_name};
use crate::policy::ProbeId;
use crate::text::str_eq;

pub mod docker;
pub mod go;
pub mod homebrew;
pub mod store;
pub mod xcode;

verus! {

/// The name of an adapter.
#[derive(Clone, Copy, Debug, Eq, Ord, PartialEq, PartialOrd)]
pub struct AdapterId(&'static str);

impl View for AdapterId {
    type V = Seq<char>;

    closed spec fn view(&self) -> Seq<char> {
        self.0@
    }
}

impl AdapterId {
    pub fn new(id: &'static str) -> (r: Self)
        ensures
            r@ == id@,
    {
        AdapterId(id)
    }

    pub fn as_str(self) -> (r: &'static str)
        ensures
            r@ == self@,
    {
        self.0
    }
}

/// Where a probe left an adapter: ready at a verified version, absent, or present
/// but not usable, with what version was seen when one was.
#[derive(Clone, Debug, Eq, PartialEq)]
pub enum AdapterState {
    Ready { version: String },
    NotPresent,
    Degraded { observed_version: Option<String>, reason: AdapterDegradedReason },
}

#[derive(Clone, Copy, Debug, Eq, PartialEq, Structural)]
pub enum AdapterDegradedReason {
    UnknownVersion,
    ProbeFailed,
    Disabled,
    InvalidSelection,
    NotReady,
}

#[derive(Clone, Debug, Default)]
pub struct Inventory {
    pub items: Vec<InventoryItem>,
    pub gaps: Vec<InventoryGap>,
    pub warnings: Vec<String>,
}

#[derive(Clone, Debug)]
pub struct InventoryItem {
    pub rule_id: String,
    pub subject: FindingSubject,
    pub path: Option<String>,
    pub measurements: Vec<Measurement>,
    pub observations: Vec<SignalObservation>,
    pub identity: InventoryIdentity,
}

#[derive(Clone, Debug, Eq, PartialEq)]
pub enum InventoryIdentity {
    Path,
    SimulatorDevice { udid: String, name: String, runtime_identifier: String, available: bool },
    SimulatorRuntime {
        identifier: String,
        name: String,
        version: String,
        build: String,
        available: bool,
    },
    HomebrewKeg { formula: String, version: String, installed_on_request: Option<bool> },
}

#[derive(Clone, Debug, Eq, PartialEq)]
pub struct InventoryGap {
    pub region: &'static str,
    pub path: Option<String>,
    pub reason: InventoryGapReason,
    pub stage: Option<InventoryStage>,
    pub errno: Option<i32>,
}

#[derive(Clone, Copy, Debug, Eq, Ord, PartialEq, PartialOrd, Structural)]
pub enum InventoryGapReason {
    AbsentOrChanged,
    AccessDenied,
    PolicyDeniedUnknown,
    UnknownVersion,
    NotReady,
    Disabled,
    ProbeFailed,
    TraversalFailed,
    InvalidToolOutput,
    CoreSimulatorVersionMismatch,
    SimulatorIdentityUnavailable,
    RuntimeSizeUnavailable,
    TimedOut,
    RuleSetInvalid,
    VolumeSnapshotStateUnavailable,
    CaskArtifactOutsidePrefix,
    UnsupportedPathOverride,
    AmbiguousDiskImage,
    DaemonInventoryExcludesInactiveStore,
}

#[derive(Clone, Copy, Debug, Eq, Ord, PartialEq, PartialOrd, Structural)]
pub enum InventoryStage {
    ListDirectory,
    MeasureObject,
    NormalizePath,
    SimctlDevices,
    SimctlRuntimes,
    RuleEvaluation,
    ToolchainProbe,
    VolumeSnapshots,
    RootInitialization,
    DockerSettings,
    DockerDiskImage,
    DockerSystemDf,
}

pub open spec fn stage_name(stage: InventoryStage) -> Seq<char> {
    match stage {
        InventoryStage::ListDirectory => "list_directory"@,
        InventoryStage::MeasureObject => "measure_object"@,
        InventoryStage::NormalizePath => "normalize_path"@,
        InventoryStage::SimctlDevices => "simctl_devices"@,
        InventoryStage::SimctlRuntimes => "simctl_runtimes"@,
        InventoryStage::RuleEvaluation => "rule_evaluation"@,
        InventoryStage::ToolchainProbe => "toolchain_probe"@,
        InventoryStage::VolumeSnapshots => "volume_snapshots"@,
        InventoryStage::RootInitialization => "root_initialization"@,
        InventoryStage::DockerSettings => "docker_settings"@,
        InventoryStage::DockerDiskImage => "docker_disk_image"@,
        InventoryStage::DockerSystemDf => "docker_system_df"@,
    }
}

impl InventoryStage {
    pub fn as_str(self) -> (r: &'static str)
        ensures
            r@ == stage_name(self),
    {
        match self {
            InventoryStage::ListDirectory => "list_directory",
            InventoryStage::MeasureObject => "measure_object",
            InventoryStage::NormalizePath => "normalize_path",
            InventoryStage::SimctlDevices => "simctl_devices",
            InventoryStage::SimctlRuntimes => "simctl_runtimes",
            InventoryStage::RuleEvaluation => "rule_evaluation",
            InventoryStage::ToolchainProbe => "toolchain_probe",
            InventoryStage::VolumeSnapshots => "volume_snapshots",
            InventoryStage::RootInitialization => "root_initialization",
            InventoryStage::DockerSettings => "docker_settings",
            InventoryStage::DockerDiskImage => "docker_disk_image",
            InventoryStage::DockerSystemDf => "docker_system_df",
        }
    }
}

impl InventoryGap {
    /// A gap of a whole region, with no path, stage or errno.
    pub fn diagnostic(region: &'static str, reason: InventoryGapReason) -> (r: Self)
        ensures
            r.region == region,
            r.path is None,
            r.reason == reason,
            r.stage is None,
            r.errno is None,
    {
        InventoryGap { region, path: None, reason, stage: None, errno: None }
    }
}

/// The gap reason that an errno stands for: missing or changed (`ENOENT`), denied
/// (`EACCES`), denied by a policy whose cause is unknown (`EPERM`), or a traversal
/// failure.
pub open spec fn errno_reason(errno: Option<i32>) -> InventoryGapReason {
    match errno {
        Some(2) => InventoryGapReason::AbsentOrChanged,
        Some(13) => InventoryGapReason::AccessDenied,
        Some(1) => InventoryGapReason::PolicyDeniedUnknown,
        _ => InventoryGapReason::TraversalFailed,
    }
}

pub fn reason_for_errno(errno: Option<i32>) -> (r: InventoryGapReason)
    ensures
        r == errno_reason(errno),
{
    match errno {
        Some(2) => InventoryGapReason::AbsentOrChanged,
        Some(13) => InventoryGapReason::AccessDenied,
        Some(1) => InventoryGapReason::PolicyDeniedUnknown,
        _ => InventoryGapReason::TraversalFailed,
    }
}

/// What each adapter offers once its inventory is collected: its name, the findings
/// its rules make of the inventory, and the advice it renders for a finding.
pub trait ToolchainAdapter {
    fn id(&self) -> AdapterId;

    fn classify(&self, inventory: &Inventory) -> Result<Vec<Finding>, InventoryGapReason>;

    fn advise(&self, finding: &Finding) -> Vec<Advice>;
}

pub open spec fn opt_view(o: Option<&str>) -> Option<Seq<char>> {
    match o {
        Some(a) => Some(a@),
        None => None,
    }
}

/// The rule that an ID names in a rule list turned into a map by ID: the last rule
/// with that ID, among those of `adapter` when one is given.
pub open spec fn rule_named(rules: Seq<Rule>, adapter: Option<Seq<char>>, id: Seq<char>) -> Option<
    Rule,
>
    decreases rules.len(),
{
    if rules.len() == 0 {
        None
    } else if rules.last().id@ == id && (match adapter {
        Some(a) => rules.last().adapter@ == a,
        None => true,
    }) {
        Some(rules.last())
    } else {
        rule_named(rules.drop_last(), adapter, id)
    }
}

pub fn find_rule<'a>(rules: &'a [Rule], adapter: Option<&str>, id: &str) -> (r: Option<&'a Rule>)
    ensures
        match rule_named(rules@, opt_view(adapter), id@) {
            None => r is None,
            Some(rule) => r matches Some(x) && *x == rule,
        },
{
    let mut i: usize = rules.len();
    let ghost filter = opt_view(adapter);
    assert(rules@.subrange(0, rules@.len() as int) =~= rules@);
    while i > 0
        invariant
            i <= rules@.len(),
            filter == opt_view(adapter),
            rule_named(rules@, filter, id@) == rule_named(rules@.subrange(0, i as int), filter, id@),
        decreases i,
    {
        let ghost prefix = rules@.subrange(0, i as int);
        assert(prefix.last() == rules@[i - 1]);
        let rule = &rules[i - 1];
        let matches_adapter = match adapter {
            Some(a) => str_eq(rule.adapter.as_str(), a),
            None => true,
        };
        if str_eq(rule.id.as_str(), id) && matches_adapter {
            return Some(rule);
        }
        assert(prefix.drop_last() =~= rules@.subrange(0, i - 1));
        i = i - 1;
    }
    None
}

/// The canonical key of an item's subject, when it has one.
pub open spec fn item_key(item: InventoryItem) -> Result<Seq<char>, FindingIdError> {
    spec_canonical_key(item.subject)
}

/// An item that the rules can turn into a finding: its rule exists, its subject has a
/// canonical key, and the finding ID can be formed.
pub open spec fn classifiable(
    adapter: Seq<char>,
    filter: Option<Seq<char>>,
    rules: Seq<Rule>,
    item: InventoryItem,
) -> bool {
    &&& rule_named(rules, filter, item.rule_id@) is Some
    &&& item_key(item) is Ok
    &&& spec_finding_id(adapter, item.rule_id@, item_key(item)->Ok_0) is Ok
}

/// The finding that `adapter` makes of `item` under its rule, before advice.
pub open spec fn finding_of(
    f: Finding,
    adapter: Seq<char>,
    filter: Option<Seq<char>>,
    rules: Seq<Rule>,
    item: InventoryItem,
) -> bool {
    let rule = rule_named(rules, filter, item.rule_id@)->0;
    &&& f.id@ == spec_finding_id(adapter, item.rule_id@, item_key(item)->Ok_0)->Ok_0
    &&& f.adapter_id@ == adapter
    &&& f.rule_id@ == item.rule_id@
    &&& f.title@ == rule.title@
    &&& f.summary@ == Seq::<char>::empty()
    &&& f.subject == item.subject
    &&& f.mechanism@ == mechanism_name(rule.mechanism)
    &&& f.recoverability@ == recoverability_name(rule.recoverability)
    &&& f.sensitivity@ == sensitivity_name(rule.sensitivity)
    &&& f.evidence@ == rule.evidence@
    &&& f.unexplained_private_gap
    &&& same_measurements(f.measurements@, item.measurements@)
    &&& f.observations@ == item.observations@
}

/// The finding for one inventory item, with no advice yet.
pub fn finding_for(
    adapter: &str,
    filter: Option<&str>,
    rules: &[Rule],
    item: &InventoryItem,
) -> (r: Result<Finding, InventoryGapReason>)
    ensures
        r is Ok <==> classifiable(adapter@, opt_view(filter), rules@, *item),
        r matches Err(e) ==> e == InventoryGapReason::RuleSetInvalid,
        r matches Ok(f) ==> finding_of(f, adapter@, opt_view(filter), rules@, *item)
            && f.advice@.len() == 0,
{
    let rule = match find_rule(rules, filter, item.rule_id.as_str()) {
        Some(rule) => rule,
        None => {
            return Err(InventoryGapReason::RuleSetInvalid);
        },
    };
    let key = match item.subject.canonical_key() {
        Ok(key) => key,
        Err(_) => {
            return Err(InventoryGapReason::RuleSetInvalid);
        },
    };
    let id = match finding_id(adapter, item.rule_id.as_str(), key.as_str()) {
        Ok(id) => id,
        Err(_) => {
            return Err(InventoryGapReason::RuleSetInvalid);
        },
    };
    Ok(
        Finding {
            id,
            adapter_id: adapter.to_owned(),
            rule_id: item.rule_id.clone(),
            title: rule.title.clone(),
            summary: String::new(),
            subject: copy_subject(&item.subject),
            mechanism: rule.mechanism.as_str().to_owned(),
            recoverability: rule.recoverability.as_str().to_owned(),
            sensitivity: rule.sensitivity.as_str().to_owned(),
            evidence: rule.evidence.clone(),
            unexplained_private_gap: true,
            measurements: copy_measurements(&item.measurements),
            observations: copy_observations(&item.observations),
            advice: Vec::new(),
        },
    )
}

/// One step of a probe: run another declared probe and resume with its outcome, or
/// the state the probe ended in.
#[derive(Debug)]
pub enum ProbeStep<S> {
    Run { next: S, probe: ProbeId },
    Finished(AdapterState),
}

/// A command that a user may be shown: it asks for no forced run and no automatic
/// confirmation, pipes into nothing and raises no privileges.
pub open spec fn no_unsafe_flags(command: Seq<char>) -> bool {
    &&& !crate::lexical::contains_run(command, "--force"@)
    &&& !crate::lexical::contains_run(command, "--yes"@)
    &&& !crate::lexical::contains_run(command, "|"@)
    &&& !crate::lexical::contains_run(command, "sudo "@)
}

proof fn lemma_absent_char_no_run(s: Seq<char>, pattern: Seq<char>, c: char, k: int)
    requires
        forall|i: int| 0 <= i < s.len() ==> s[i] != c,
        0 <= k < pattern.len(),
        pattern[k] == c,
    ensures
        !crate::lexical::contains_run(s, pattern),
{
    if crate::lexical::contains_run(s, pattern) {
        let i = choose|i: int|
            0 <= i && i + pattern.len() <= s.len() && #[trigger] s.subrange(i, i + pattern.len()) == pattern;
        assert(s.subrange(i, i + pattern.len())[k] == s[i + k]);
    }
}

/// No position of `s` holds `a` directly followed by `b`.
spec fn lacks_pair(s: Seq<char>, a: char, b: char) -> bool {
    forall|i: int| 0 <= i && i + 1 < s.len() ==> !(#[trigger] s[i] == a && s[i + 1] == b)
}

proof fn lemma_absent_pair_no_run(s: Seq<char>, pattern: Seq<char>, a: char, b: char, k: int)
    requires
        lacks_pair(s, a, b),
        0 <= k && k + 1 < pattern.len(),
        pattern[k] == a,
        pattern[k + 1] == b,
    ensures
        !crate::lexical::contains_run(s, pattern),
{
    if crate::lexical::contains_run(s, pattern) {
        let i = choose|i: int|
            0 <= i && i + pattern.len() <= s.len() && #[trigger] s.subrange(i, i + pattern.len()) == pattern;
        assert(s.subrange(i, i + pattern.len())[k] == s[i + k]);
        assert(s.subrange(i, i + pattern.len())[k + 1] == s[i + k + 1]);
    }
}

proof fn lemma_safe_without(command: Seq<char>, c: char)
    requires
        c == 'f' || c == 'o',
        forall|i: int| 0 <= i < command.len() ==> command[i] != c && command[i] != '|',
        lacks_pair(command, '-', 'y'),
        lacks_pair(command, 'u', 'd'),
    ensures
        no_unsafe_flags(command),
{
    reveal_strlit("--force");
    reveal_strlit("--yes");
    reveal_strlit("|");
    reveal_strlit("sudo ");
    if c == 'f' {
        lemma_absent_char_no_run(command, "--force"@, 'f', 2);
    } else {
        lemma_absent_char_no_run(command, "--force"@, 'o', 3);
    }
    lemma_absent_pair_no_run(command, "--yes"@, '-', 'y', 1);
    lemma_absent_char_no_run(command, "|"@, '|', 0);
    lemma_absent_pair_no_run(command, "sudo "@, 'u', 'd', 1);
}

/// Advice never asks for a forced run, an automatic confirmation, a pipe or raised
/// privileges: every command that the Docker, Go and Xcode adapters advise is free of
/// `--force`, `--yes`, `|` and `sudo `.
pub proof fn lemma_advice_has_no_unsafe_flags(f: Finding)
    ensures
        forall|k: int|
            0 <= k < docker::docker_advice(f).len() && (#[trigger] docker::docker_advice(f)[k]).0
                ==> no_unsafe_flags(docker::docker_advice(f)[k].1),
        forall|k: int|
            0 <= k < go::go_advice(f).len() && (#[trigger] go::go_advice(f)[k]).0
                ==> no_unsafe_flags(go::go_advice(f)[k].1),
        forall|k: int|
            0 <= k < xcode::xcode_advice(f).len() && (#[trigger] xcode::xcode_advice(f)[k]).0
                ==> no_unsafe_flags(xcode::xcode_advice(f)[k].1),
{
    reveal_strlit("docker --context desktop-linux image prune");
    reveal_strlit("docker --context desktop-linux builder prune");
    reveal_strlit("docker --context desktop-linux ps -a");
    reveal_strlit("docker --context desktop-linux system prune --volumes");
    reveal_strlit("go clean -cache");
    reveal_strlit("go clean -modcache");
    reveal_strlit("xcrun simctl delete ");
    reveal_strlit("xcrun simctl runtime list");
    lemma_safe_without("docker --context desktop-linux image prune"@, 'f');
    lemma_safe_without("docker --context desktop-linux builder prune"@, 'f');
    lemma_safe_without("docker --context desktop-linux ps -a"@, 'f');
    lemma_safe_without("docker --context desktop-linux system prune --volumes"@, 'f');
    lemma_safe_without("go clean -cache"@, 'f');
    lemma_safe_without("go clean -modcache"@, 'f');
    lemma_safe_without("xcrun simctl runtime list"@, 'o');
    if f.rule_id@ == "xcode.simulator_device"@ {
        let udid = xcode::last_segment(xcode::subject_text(f.subject));
        if xcode::spec_valid_udid(udid) {
            let command = "xcrun simctl delete "@ + udid;
            assert forall|i: int| 0 <= i < command.len() implies command[i] != 'o' && command[i] != '|'
                && (i >= 20 ==> command[i] != 'u' && command[i] != 'y') by {
                if i >= 20 {
                    assert(command[i] == udid[i - 20]);
                    assert(udid[i - 20] == '-' || xcode::is_hex_digit(udid[i - 20]));
                }
            }
            assert(lacks_pair(command, '-', 'y')) by {
                assert forall|i: int| 0 <= i && i + 1 < command.len() implies !(#[trigger] command[i] == '-'
                    && command[i + 1] == 'y') by {
                    if i + 1 < 20 {
                        assert(command[i] == "xcrun simctl delete "@[i]);
                        assert(command[i + 1] == "xcrun simctl delete "@[i + 1]);
                    }
                }
            }
            assert(lacks_pair(command, 'u', 'd')) by {
                assert forall|i: int| 0 <= i && i + 1 < command.len() implies !(#[trigger] command[i] == 'u'
                    && command[i + 1] == 'd') by {
                    if i + 1 < 20 {
                        assert(command[i] == "xcrun simctl delete "@[i]);
                        assert(command[i + 1] == "xcrun simctl delete "@[i + 1]);
                    } else if i == 19 {
                        assert(command[i] == "xcrun simctl delete "@[i]);
                    }
                }
            }
            lemma_safe_without(command, 'o');
        }
    }
}

} // verus!
