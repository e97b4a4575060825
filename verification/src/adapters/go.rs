//! Go: the toolchain's exact version gates nothing but the label; the build and
//! module caches are measured where the user's `go env` file puts them, and only
//! absolute, normalized overrides are followed.

use vstd::prelude::*;
use vstd::utf8::{decode_utf8, valid_utf8};

use crate::adapters::docker::{gap_from_degraded, spec_gap_from_degraded};
use crate::adapters::{
    AdapterDegradedReason, AdapterId, AdapterState, Inventory, InventoryGap, InventoryGapReason,
    InventoryIdentity, InventoryItem, InventoryStage, ProbeStep, ToolchainAdapter, classifiable,
    errno_reason, finding_for, finding_of, reason_for_errno,
};
use crate::lexical::{
    first_word, first_word_of, index_of, lines, split_lines, trim, trim_chars, utf8_text,
};
use crate::model::{
    Advice, AdviceImpact, Finding, FindingSubject, Measurement, SignalObservation, advice_views,
    command_advice, command_view, findings_normalized_from, normalize_findings,
};
use crate::paths::{is_normalized_absolute, join, join_paths, normalized_absolute};
use crate::policy::{CommandOutput, PolicyError, ProbeId, go_homebrew_version, go_pkg_version};
use crate::rules::Rule;
use crate::text::{chars_of, str_eq, string_of};

verus! {

pub fn homebrew_version() -> (r: ProbeId)
    ensures
        r@ == "go.homebrew_version"@,
{
    go_homebrew_version()
}

pub fn pkg_version() -> (r: ProbeId)
    ensures
        r@ == "go.pkg_version"@,
{
    go_pkg_version()
}

pub const HOMEBREW_GO: &'static str = "/opt/homebrew/bin/go";

pub const PKG_GO: &'static str = "/usr/local/go/bin/go";

pub const BUILD_CACHE_RELATIVE: &'static str = "Library/Caches/go-build";

pub const MODULE_CACHE_RELATIVE: &'static str = "go/pkg/mod";

pub const GOENV_RELATIVE: &'static str = "Library/Application Support/go/env";

/// The version that `go version` output reports: the word after `go version `.
pub open spec fn spec_observed_version(output: Seq<u8>) -> Option<Seq<char>> {
    if !valid_utf8(output) {
        None
    } else {
        let text = trim(decode_utf8(output));
        let prefix = "go version "@;
        if text.len() >= prefix.len() && text.subrange(0, prefix.len() as int) == prefix {
            first_word(text.subrange(prefix.len() as int, text.len() as int))
        } else {
            None
        }
    }
}

/// The version, when it is the verified one.
pub open spec fn spec_parse_verified_version(output: Seq<u8>) -> Option<Seq<char>> {
    match spec_observed_version(output) {
        Some(v) => if v == "go1.26.6"@ {
            Some(v)
        } else {
            None
        },
        None => None,
    }
}

fn strip_prefix(s: &[char], prefix: &str) -> (r: Option<Vec<char>>)
    ensures
        match r {
            Some(rest) => s@.len() >= prefix@.len() && s@.subrange(0, prefix@.len() as int)
                == prefix@ && rest@ == s@.subrange(prefix@.len() as int, s@.len() as int),
            None => !(s@.len() >= prefix@.len() && s@.subrange(0, prefix@.len() as int)
                == prefix@),
        },
{
    let p = chars_of(prefix);
    if p.len() > s.len() {
        return None;
    }
    let head = crate::lexical::slice_chars(s, 0, p.len());
    if !crate::paths::seq_eq(head.as_slice(), p.as_slice()) {
        return None;
    }
    Some(crate::lexical::slice_chars(s, p.len(), s.len()))
}

pub fn observed_version(output: &[u8]) -> (r: Option<String>)
    ensures
        match spec_observed_version(output@) {
            None => r is None,
            Some(v) => r matches Some(t) && t@ == v,
        },
{
    let text = match utf8_text(output) {
        Some(t) => t,
        None => {
            return None;
        },
    };
    let chars = chars_of(text.as_str());
    let trimmed = trim_chars(chars.as_slice());
    let rest = match strip_prefix(trimmed.as_slice(), "go version ") {
        Some(rest) => rest,
        None => {
            return None;
        },
    };
    match first_word_of(rest.as_slice()) {
        Some(w) => Some(string_of(w.as_slice())),
        None => None,
    }
}

pub fn parse_verified_version(output: &[u8]) -> (r: Option<String>)
    ensures
        match spec_parse_verified_version(output@) {
            None => r is None,
            Some(v) => r matches Some(t) && t@ == v,
        },
{
    match observed_version(output) {
        Some(v) => {
            if str_eq(v.as_str(), "go1.26.6") {
                Some(v)
            } else {
                None
            }
        },
        None => None,
    }
}

/// The Go probe, waiting for the version of the toolchain it found.
#[derive(Debug)]
pub struct GoProbe;

/// The probe asks the Homebrew toolchain when there is one, else the package
/// installer's; with neither, Go is not present.
pub fn probe(homebrew_go_exists: bool, pkg_go_exists: bool) -> (r: ProbeStep<GoProbe>)
    ensures
        homebrew_go_exists ==> (r matches ProbeStep::Run { probe, .. } && probe@
            == "go.homebrew_version"@),
        !homebrew_go_exists && pkg_go_exists ==> (r matches ProbeStep::Run { probe, .. } && probe@
            == "go.pkg_version"@),
        !homebrew_go_exists && !pkg_go_exists ==> r == ProbeStep::<GoProbe>::Finished(
            AdapterState::NotPresent,
        ),
{
    if homebrew_go_exists {
        ProbeStep::Run { next: GoProbe, probe: homebrew_version() }
    } else if pkg_go_exists {
        ProbeStep::Run { next: GoProbe, probe: pkg_version() }
    } else {
        ProbeStep::Finished(AdapterState::NotPresent)
    }
}

pub open spec fn observed_is(v: Option<String>, expected: Option<Seq<char>>) -> bool {
    match expected {
        None => v is None,
        Some(e) => v matches Some(t) && t@ == e,
    }
}

/// What the version outcome decides: ready at the verified version, otherwise
/// degraded with what was seen; a command that could not start means Go is absent.
pub open spec fn spec_go_state(state: AdapterState, outcome: Result<CommandOutput, PolicyError>) -> bool {
    match outcome {
        Ok(output) => if output.success {
            match spec_parse_verified_version(output.stdout@) {
                Some(v) => state matches AdapterState::Ready { version } && version@ == v,
                None => state matches AdapterState::Degraded {
                    observed_version,
                    reason: AdapterDegradedReason::UnknownVersion,
                } && observed_is(observed_version, spec_observed_version(output.stdout@)),
            }
        } else {
            state matches AdapterState::Degraded {
                observed_version,
                reason: AdapterDegradedReason::ProbeFailed,
            } && observed_is(observed_version, spec_observed_version(output.stdout@))
        },
        Err(PolicyError::InvocationFailed(_)) => state == AdapterState::NotPresent,
        Err(PolicyError::Disabled(_)) => state == (AdapterState::Degraded {
            observed_version: None,
            reason: AdapterDegradedReason::Disabled,
        }),
        Err(_) => state == (AdapterState::Degraded {
            observed_version: None,
            reason: AdapterDegradedReason::ProbeFailed,
        }),
    }
}

impl GoProbe {
    pub fn resume(self, outcome: Result<CommandOutput, PolicyError>) -> (r: ProbeStep<GoProbe>)
        ensures
            r matches ProbeStep::Finished(state) && spec_go_state(state, outcome),
    {
        let state = match outcome {
            Ok(output) => {
                if output.success {
                    match parse_verified_version(output.stdout.as_slice()) {
                        Some(version) => AdapterState::Ready { version },
                        None => AdapterState::Degraded {
                            observed_version: observed_version(output.stdout.as_slice()),
                            reason: AdapterDegradedReason::UnknownVersion,
                        },
                    }
                } else {
                    AdapterState::Degraded {
                        observed_version: observed_version(output.stdout.as_slice()),
                        reason: AdapterDegradedReason::ProbeFailed,
                    }
                }
            },
            Err(PolicyError::InvocationFailed(_)) => AdapterState::NotPresent,
            Err(PolicyError::Disabled(_)) => AdapterState::Degraded {
                observed_version: None,
                reason: AdapterDegradedReason::Disabled,
            },
            Err(_) => AdapterState::Degraded {
                observed_version: None,
                reason: AdapterDegradedReason::ProbeFailed,
            },
        };
        ProbeStep::Finished(state)
    }
}

/// The effect of one line of the `go env` file on the overrides found so far:
/// blank lines and comments change nothing; a line without `=` spoils the file; a
/// `GOCACHE` or `GOMODCACHE` line must hold an absolute, normalized path and
/// replaces the earlier value; other keys are ignored.
pub open spec fn goenv_step(
    acc: Option<(Option<Seq<char>>, Option<Seq<char>>)>,
    raw: Seq<char>,
) -> Option<(Option<Seq<char>>, Option<Seq<char>>)> {
    match acc {
        None => None,
        Some((build, module)) => {
            let line = trim(raw);
            if line.len() == 0 || line[0] == '#' {
                acc
            } else {
                let eq = index_of(line, '=');
                if eq >= line.len() {
                    None
                } else {
                    let key = line.subrange(0, eq);
                    let value = line.subrange(eq + 1, line.len() as int);
                    if key != "GOCACHE"@ && key != "GOMODCACHE"@ {
                        acc
                    } else if !is_normalized_absolute(value) {
                        None
                    } else if key == "GOCACHE"@ {
                        Some((Some(value), module))
                    } else {
                        Some((build, Some(value)))
                    }
                }
            }
        },
    }
}

pub open spec fn goenv_fold(ls: Seq<Seq<char>>, n: int) -> Option<(Option<Seq<char>>, Option<Seq<char>>)>
    decreases n,
{
    if n <= 0 {
        Some((None, None))
    } else {
        goenv_step(goenv_fold(ls, n - 1), ls[n - 1])
    }
}

/// `raw` sets a key other than `GOCACHE` and `GOMODCACHE`: trimmed, it is that key,
/// `=` and any value.
pub open spec fn sets_other_key(raw: Seq<char>, key: Seq<char>, value: Seq<char>) -> bool {
    &&& trim(raw) == key + seq!['='] + value
    &&& forall|i: int| 0 <= i < key.len() ==> key[i] != '='
    &&& key != "GOCACHE"@
    &&& key != "GOMODCACHE"@
}

proof fn lemma_goenv_prefix(a: Seq<Seq<char>>, b: Seq<Seq<char>>, n: int)
    requires
        0 <= n <= a.len(),
        n <= b.len(),
        forall|i: int| 0 <= i < n ==> a[i] == b[i],
    ensures
        goenv_fold(a, n) == goenv_fold(b, n),
    decreases n,
{
    if n > 0 {
        lemma_goenv_prefix(a, b, n - 1);
    }
}

proof fn lemma_goenv_inserted(ls: Seq<Seq<char>>, at: int, raw: Seq<char>, n: int)
    requires
        0 <= at <= ls.len(),
        at < n <= ls.len() + 1,
        goenv_step(goenv_fold(ls, at), raw) == goenv_fold(ls, at),
    ensures
        goenv_fold(ls.insert(at, raw), n) == goenv_fold(ls, n - 1),
    decreases n,
{
    let ins = ls.insert(at, raw);
    if n == at + 1 {
        lemma_goenv_prefix(ins, ls, at);
        assert(ins[at] == raw);
    } else {
        lemma_goenv_inserted(ls, at, raw, n - 1);
        assert(ins[n - 1] == ls[n - 2]);
    }
}

/// Lines that set other keys are ignored, whatever their value: putting one anywhere
/// in a `go env` file leaves the overrides it gives (or its refusal) as they were.
pub proof fn lemma_goenv_ignores_other_keys(
    ls: Seq<Seq<char>>,
    at: int,
    raw: Seq<char>,
    key: Seq<char>,
    value: Seq<char>,
)
    requires
        0 <= at <= ls.len(),
        sets_other_key(raw, key, value),
    ensures
        goenv_fold(ls.insert(at, raw), ls.len() as int + 1) == goenv_fold(ls, ls.len() as int),
{
    let line = trim(raw);
    assert(line[key.len() as int] == '=');
    assert forall|j: int| 0 <= j < key.len() implies line[j] != '=' by {
        assert(line[j] == key[j]);
    }
    crate::lexical::lemma_index_of(line, '=', key.len() as int);
    assert(line.subrange(0, key.len() as int) =~= key);
    assert(goenv_step(goenv_fold(ls, at), raw) == goenv_fold(ls, at));
    lemma_goenv_inserted(ls, at, raw, ls.len() as int + 1);
}

/// A cache line at the end of a `go env` file decides its key: `GOCACHE=` or
/// `GOMODCACHE=` with an absolute, normalized path replaces that override and keeps
/// the other; with any other value the whole file is refused.
pub proof fn lemma_goenv_last_cache_line_wins(ls: Seq<Seq<char>>, raw: Seq<char>, value: Seq<char>, module: bool)
    requires
        trim(raw) == (if module {
            "GOMODCACHE"@
        } else {
            "GOCACHE"@
        }) + seq!['='] + value,
    ensures
        goenv_fold(ls.push(raw), ls.len() as int + 1) == (match goenv_fold(ls, ls.len() as int) {
            None => None,
            Some((build, modules)) => if !is_normalized_absolute(value) {
                None
            } else if module {
                Some((build, Some(value)))
            } else {
                Some((Some(value), modules))
            },
        }),
{
    reveal_strlit("GOCACHE");
    reveal_strlit("GOMODCACHE");
    let key = if module {
        "GOMODCACHE"@
    } else {
        "GOCACHE"@
    };
    let line = trim(raw);
    assert(line[key.len() as int] == '=');
    assert forall|j: int| 0 <= j < key.len() implies line[j] != '=' by {
        assert(line[j] == key[j]);
    }
    crate::lexical::lemma_index_of(line, '=', key.len() as int);
    assert(line.subrange(0, key.len() as int) =~= key);
    assert(line.subrange(key.len() as int + 1, line.len() as int) =~= value);
    assert(ls.push(raw)[ls.len() as int] == raw);
    lemma_goenv_prefix(ls.push(raw), ls, ls.len() as int);
}

/// The cache overrides that a `go env` file holds, when it is UTF-8 and every line
/// is well formed.
pub open spec fn spec_parse_goenv(contents: Seq<u8>) -> Option<(Option<Seq<char>>, Option<Seq<char>>)> {
    if !valid_utf8(contents) {
        None
    } else {
        let ls = lines(decode_utf8(contents));
        goenv_fold(ls, ls.len() as int)
    }
}

pub open spec fn overrides_are(
    r: Option<(Option<String>, Option<String>)>,
    expected: Option<(Option<Seq<char>>, Option<Seq<char>>)>,
) -> bool {
    match expected {
        None => r is None,
        Some((b, m)) => r matches Some((x, y)) && observed_is(x, b) && observed_is(y, m),
    }
}

fn split_key(line: &[char]) -> (r: Option<(Vec<char>, Vec<char>)>)
    ensures
        index_of(line@, '=') >= line@.len() ==> r is None,
        index_of(line@, '=') < line@.len() ==> (r matches Some((k, v)) && k@ == line@.subrange(
            0,
            index_of(line@, '='),
        ) && v@ == line@.subrange(index_of(line@, '=') + 1, line@.len() as int)),
{
    let mut i: usize = 0;
    while i < line.len() && line[i] != '='
        invariant
            i <= line@.len(),
            forall|j: int| 0 <= j < i ==> line@[j] != '=',
        decreases line.len() - i,
    {
        i = i + 1;
    }
    proof {
        crate::lexical::lemma_index_of(line@, '=', i as int);
    }
    if i >= line.len() {
        return None;
    }
    Some((crate::lexical::slice_chars(line, 0, i), crate::lexical::slice_chars(line, i + 1, line.len())))
}

/// Reads the cache overrides of a `go env` file.
pub fn parse_goenv(contents: &[u8]) -> (r: Option<(Option<String>, Option<String>)>)
    ensures
        overrides_are(r, spec_parse_goenv(contents@)),
{
    let text = match utf8_text(contents) {
        Some(t) => t,
        None => {
            return None;
        },
    };
    let chars = chars_of(text.as_str());
    let ls = split_lines(chars.as_slice());
    let ghost sl = lines(decode_utf8(contents@));
    let mut build: Option<String> = None;
    let mut module: Option<String> = None;
    let mut i: usize = 0;
    while i < ls.len()
        invariant
            sl == lines(decode_utf8(contents@)),
            ls@.len() == sl.len(),
            forall|j: int| 0 <= j < ls@.len() ==> (#[trigger] ls@[j])@ == sl[j],
            i <= ls@.len(),
            overrides_are(Some((build, module)), goenv_fold(sl, i as int)),
        decreases ls.len() - i,
    {
        let line = trim_chars(ls[i].as_slice());
        if line.len() == 0 || line[0] == '#' {
            i = i + 1;
            continue;
        }
        let (key, value) = match split_key(line.as_slice()) {
            Some(kv) => kv,
            None => {
                assert(goenv_fold(sl, i + 1) is None);
                proof {
                    lemma_goenv_stays_none(sl, i + 1, sl.len() as int);
                }
                return None;
            },
        };
        let key_text = string_of(key.as_slice());
        let is_cache = str_eq(key_text.as_str(), "GOCACHE");
        let is_module = str_eq(key_text.as_str(), "GOMODCACHE");
        if !is_cache && !is_module {
            i = i + 1;
            continue;
        }
        if !normalized_absolute(value.as_slice()) {
            assert(goenv_fold(sl, i + 1) is None);
            proof {
                lemma_goenv_stays_none(sl, i + 1, sl.len() as int);
            }
            return None;
        }
        if is_cache {
            build = Some(string_of(value.as_slice()));
        } else {
            module = Some(string_of(value.as_slice()));
        }
        i = i + 1;
    }
    Some((build, module))
}

proof fn lemma_goenv_stays_none(ls: Seq<Seq<char>>, a: int, b: int)
    requires
        0 <= a <= b,
        goenv_fold(ls, a) is None,
    ensures
        goenv_fold(ls, b) is None,
    decreases b - a,
{
    if a < b {
        lemma_goenv_stays_none(ls, a, b - 1);
    }
}

pub fn goenv_gap(path: &str) -> (r: InventoryGap)
    ensures
        r.region@ == "go"@,
        r.path matches Some(p) && p@ == path@,
        r.reason == InventoryGapReason::InvalidToolOutput,
        r.stage == Some(InventoryStage::ToolchainProbe),
        r.errno is None,
{
    InventoryGap {
        region: "go",
        path: Some(path.to_owned()),
        reason: InventoryGapReason::InvalidToolOutput,
        stage: Some(InventoryStage::ToolchainProbe),
        errno: None,
    }
}

/// A cache path that could not be measured, by its errno.
pub fn io_gap(path: &str, errno: Option<i32>) -> (r: InventoryGap)
    ensures
        r.region@ == "go"@,
        r.path matches Some(p) && p@ == path@,
        r.reason == errno_reason(errno),
        r.stage == Some(InventoryStage::MeasureObject),
        r.errno == errno,
{
    InventoryGap {
        region: "go",
        path: Some(path.to_owned()),
        reason: reason_for_errno(errno),
        stage: Some(InventoryStage::MeasureObject),
        errno,
    }
}

/// The gap that opens a Go inventory: a disabled or failed probe is recorded; an
/// absent, unknown or ready toolchain still has its default caches measured.
pub fn inventory_gap(state: &AdapterState) -> (r: Option<InventoryGap>)
    ensures
        match *state {
            AdapterState::Degraded { reason, .. } => if reason == AdapterDegradedReason::Disabled
                || reason == AdapterDegradedReason::ProbeFailed {
                r matches Some(gap) && gap.region@ == "go"@ && gap.path is None && gap.reason
                    == spec_gap_from_degraded(reason) && gap.stage is None && gap.errno is None
            } else {
                r is None
            },
            _ => r is None,
        },
{
    match state {
        AdapterState::Degraded { reason, .. } => match reason {
            AdapterDegradedReason::Disabled | AdapterDegradedReason::ProbeFailed => Some(
                InventoryGap::diagnostic("go", gap_from_degraded(*reason)),
            ),
            _ => None,
        },
        _ => None,
    }
}

/// The two caches and where they are: the build cache and the module cache under
/// `home`, each replaced by its override when the `go env` file gives one.
pub fn resolved_caches(home: &str, overrides: &Option<(Option<String>, Option<String>)>) -> (r: Vec<
    (&'static str, String),
>)
    ensures
        r@.len() == 2,
        r@[0].0@ == "go.build_cache"@,
        r@[1].0@ == "go.module_cache"@,
        r@[0].1@ == match overrides {
            Some((Some(b), _)) => b@,
            _ => join(home@, BUILD_CACHE_RELATIVE@),
        },
        r@[1].1@ == match overrides {
            Some((_, Some(m))) => m@,
            _ => join(home@, MODULE_CACHE_RELATIVE@),
        },
{
    let h = chars_of(home);
    let b = chars_of(BUILD_CACHE_RELATIVE);
    let m = chars_of(MODULE_CACHE_RELATIVE);
    let mut build = string_of(join_paths(h.as_slice(), b.as_slice()).as_slice());
    let mut module = string_of(join_paths(h.as_slice(), m.as_slice()).as_slice());
    match overrides {
        Some((custom_build, custom_module)) => {
            match custom_build {
                Some(p) => {
                    build = p.clone();
                },
                None => {},
            }
            match custom_module {
                Some(p) => {
                    module = p.clone();
                },
                None => {},
            }
        },
        None => {},
    }
    let mut out: Vec<(&'static str, String)> = Vec::new();
    out.push(("go.build_cache", build));
    out.push(("go.module_cache", module));
    out
}

/// The inventory item of a measured cache.
pub fn cache_item(
    rule_id: &str,
    scope: &str,
    path: &str,
    measurements: Vec<Measurement>,
    observations: Vec<SignalObservation>,
) -> (r: InventoryItem)
    ensures
        r.rule_id@ == rule_id@,
        r.subject matches FindingSubject::FilesystemPath { normalized_path } && normalized_path@
            == scope@,
        r.path matches Some(p) && p@ == path@,
        r.measurements@ == measurements@,
        r.observations@ == observations@,
        r.identity == InventoryIdentity::Path,
{
    InventoryItem {
        rule_id: rule_id.to_owned(),
        subject: FindingSubject::FilesystemPath { normalized_path: scope.to_owned() },
        path: Some(path.to_owned()),
        measurements,
        observations,
        identity: InventoryIdentity::Path,
    }
}

pub const CLEAN_CACHE_NOTE: &'static str = "This vendor command deletes the Go build cache. SizeTrail does not run it, and the vendor does not provide a reliable preview.";

pub const CLEAN_MODCACHE_NOTE: &'static str = "This vendor command deletes downloaded modules from the module cache. SizeTrail does not run it, and the vendor does not provide a reliable preview.";

/// The advice for a Go finding: the vendor clean command of its cache, nothing else.
pub open spec fn go_advice(f: Finding) -> Seq<(bool, Seq<char>, AdviceImpact, Seq<char>, bool)> {
    if f.rule_id@ == "go.build_cache"@ {
        seq![command_view("go clean -cache"@, AdviceImpact::Destructive, CLEAN_CACHE_NOTE@, false)]
    } else if f.rule_id@ == "go.module_cache"@ {
        seq![
            command_view("go clean -modcache"@, AdviceImpact::Destructive, CLEAN_MODCACHE_NOTE@, false),
        ]
    } else {
        Seq::empty()
    }
}

fn single(a: Advice) -> (r: Vec<Advice>)
    ensures
        advice_views(r@) == seq![a@],
{
    let mut v: Vec<Advice> = Vec::new();
    v.push(a);
    assert(advice_views(v@) =~= seq![a@]);
    v
}

/// `built` holds, item by item, the advised finding that the Go rules make.
pub open spec fn go_findings(built: Seq<Finding>, rules: Seq<Rule>, items: Seq<InventoryItem>) -> bool {
    &&& built.len() == items.len()
    &&& forall|i: int|
        0 <= i < built.len() ==> finding_of(#[trigger] built[i], "go"@, Some("go"@), rules, items[i])
            && advice_views(built[i].advice@) == go_advice(built[i])
}

/// The Go adapter over the rule set it classifies with.
pub struct GoAdapter {
    pub rules: Vec<Rule>,
}

impl GoAdapter {
    pub fn new(rules: Vec<Rule>) -> (r: Self)
        ensures
            r.rules@ == rules@,
    {
        GoAdapter { rules }
    }

    pub fn go_advise(&self, finding: &Finding) -> (r: Vec<Advice>)
        ensures
            advice_views(r@) == go_advice(*finding),
    {
        let rule = finding.rule_id.as_str();
        if str_eq(rule, "go.build_cache") {
            single(command_advice("go clean -cache", AdviceImpact::Destructive, CLEAN_CACHE_NOTE, false))
        } else if str_eq(rule, "go.module_cache") {
            single(
                command_advice(
                    "go clean -modcache",
                    AdviceImpact::Destructive,
                    CLEAN_MODCACHE_NOTE,
                    false,
                ),
            )
        } else {
            let v: Vec<Advice> = Vec::new();
            assert(advice_views(v@) =~= Seq::empty());
            v
        }
    }

    /// The findings that the Go rules make of an inventory, advised and normalized.
    pub fn go_classify(&self, inventory: &Inventory) -> (r: Result<Vec<Finding>, InventoryGapReason>)
        ensures
            r is Err <==> exists|i: int|
                0 <= i < inventory.items@.len() && !classifiable(
                    "go"@,
                    Some("go"@),
                    self.rules@,
                    #[trigger] inventory.items@[i],
                ),
            r matches Err(e) ==> e == InventoryGapReason::RuleSetInvalid,
            r matches Ok(fs) ==> exists|built: Seq<Finding>|
                #[trigger] go_findings(built, self.rules@, inventory.items@)
                    && findings_normalized_from(built, fs@),
    {
        let mut built: Vec<Finding> = Vec::new();
        let mut i: usize = 0;
        while i < inventory.items.len()
            invariant
                i <= inventory.items@.len(),
                built@.len() == i,
                forall|k: int|
                    0 <= k < i ==> finding_of(
                        #[trigger] built@[k],
                        "go"@,
                        Some("go"@),
                        self.rules@,
                        inventory.items@[k],
                    ) && advice_views(built@[k].advice@) == go_advice(built@[k]),
                forall|k: int|
                    0 <= k < i ==> classifiable(
                        "go"@,
                        Some("go"@),
                        self.rules@,
                        #[trigger] inventory.items@[k],
                    ),
            decreases inventory.items.len() - i,
        {
            let mut f = match finding_for("go", Some("go"), self.rules.as_slice(), &inventory.items[i]) {
                Ok(f) => f,
                Err(e) => {
                    return Err(e);
                },
            };
            let advice = self.go_advise(&f);
            f.advice = advice;
            built.push(f);
            i = i + 1;
        }
        let ghost before = built@;
        assert(go_findings(before, self.rules@, inventory.items@));
        normalize_findings(&mut built);
        assert(findings_normalized_from(before, built@));
        Ok(built)
    }
}

impl ToolchainAdapter for GoAdapter {
    fn id(&self) -> (r: AdapterId)
        ensures
            r@ == "go"@,
    {
        AdapterId::new("go")
    }

    fn classify(&self, inventory: &Inventory) -> (r: Result<Vec<Finding>, InventoryGapReason>)
        ensures
            r is Err <==> exists|i: int|
                0 <= i < inventory.items@.len() && !classifiable(
                    "go"@,
                    Some("go"@),
                    self.rules@,
                    #[trigger] inventory.items@[i],
                ),
            r matches Err(e) ==> e == InventoryGapReason::RuleSetInvalid,
            r matches Ok(fs) ==> exists|built: Seq<Finding>|
                #[trigger] go_findings(built, self.rules@, inventory.items@)
                    && findings_normalized_from(built, fs@),
    {
        self.go_classify(inventory)
    }

    fn advise(&self, finding: &Finding) -> (r: Vec<Advice>)
        ensures
            advice_views(r@) == go_advice(*finding),
    {
        self.go_advise(finding)
    }
}

} // verus!
