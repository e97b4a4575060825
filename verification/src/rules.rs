//! Declarative cleanup rules: what a store is, how it comes back, and how
//! sensitive it is, checked before any adapter uses them.

use vstd::prelude::*;

use crate::lexical::{contains_chars, contains_run, trim, trim_chars};
use crate::text::{chars_of, str_eq};

verus! {

/// The adapters that this build carries; a rule for any other is refused.
pub fn compiled_adapter_ids() -> (r: Vec<&'static str>)
    ensures
        r@.len() == 3,
        r@[0]@ == "docker"@,
        r@[1]@ == "homebrew"@,
        r@[2]@ == "xcode"@,
{
    let mut ids: Vec<&'static str> = Vec::new();
    ids.push("docker");
    ids.push("homebrew");
    ids.push("xcode");
    ids
}

pub open spec fn is_compiled_adapter(id: Seq<char>) -> bool {
    id == "docker"@ || id == "homebrew"@ || id == "xcode"@
}

#[derive(Clone, Debug, Eq, PartialEq)]
pub struct Rule {
    pub id: String,
    pub adapter: String,
    pub title: String,
    pub description: String,
    pub subjects: Vec<RuleSubjectPattern>,
    pub os: String,
    pub mechanism: Mechanism,
    pub recoverability: Recoverability,
    pub sensitivity: Sensitivity,
    pub evidence: String,
    pub fixture_id: String,
    pub preconditions: Preconditions,
    pub selection_override: Option<bool>,
    pub override_reason: Option<String>,
}

#[derive(Clone, Debug, Eq, PartialEq)]
pub enum RuleSubjectPattern {
    FilesystemPath { pattern: String },
    ToolchainObjectSet { object_set_id: String },
}

#[derive(Clone, Copy, Debug, Eq, PartialEq, Structural)]
pub enum Mechanism {
    Generated,
    UserAdjacent,
    UserOwned,
    VendorManaged,
}

#[derive(Clone, Copy, Debug, Eq, PartialEq, Structural)]
pub enum Recoverability {
    TrashRestore,
    RebuildTimeCost,
    RedownloadBandwidth,
    RequiresExternalDevice,
    Unrecoverable,
}

#[derive(Clone, Copy, Debug, Eq, PartialEq, Structural)]
pub enum Sensitivity {
    Low,
    Medium,
    High,
}

#[derive(Clone, Debug, Default, Eq, PartialEq)]
pub struct Preconditions {
    pub process_not_running: Vec<String>,
}

#[derive(Clone, Copy, Debug, Eq, PartialEq, Structural)]
pub enum RuleError {
    UnknownField,
    Invalid,
}

/// The filesystem patterns among a rule's subjects, in order.
pub open spec fn spec_filesystem_patterns(subjects: Seq<RuleSubjectPattern>) -> Seq<Seq<char>>
    decreases subjects.len(),
{
    if subjects.len() == 0 {
        Seq::empty()
    } else {
        let rest = spec_filesystem_patterns(subjects.drop_last());
        match subjects.last() {
            RuleSubjectPattern::FilesystemPath { pattern } => rest.push(pattern@),
            RuleSubjectPattern::ToolchainObjectSet { .. } => rest,
        }
    }
}

impl Rule {
    pub fn filesystem_patterns(&self) -> (r: Vec<String>)
        ensures
            r@.map_values(|s: String| s@) == spec_filesystem_patterns(self.subjects@),
    {
        let mut out: Vec<String> = Vec::new();
        let mut i: usize = 0;
        while i < self.subjects.len()
            invariant
                i <= self.subjects@.len(),
                out@.map_values(|s: String| s@) == spec_filesystem_patterns(
                    self.subjects@.subrange(0, i as int),
                ),
            decreases self.subjects.len() - i,
        {
            let ghost before = out@;
            assert(self.subjects@.subrange(0, i + 1).drop_last() =~= self.subjects@.subrange(
                0,
                i as int,
            ));
            match &self.subjects[i] {
                RuleSubjectPattern::FilesystemPath { pattern } => {
                    out.push(pattern.clone());
                    assert(out@.map_values(|s: String| s@) =~= before.map_values(|s: String| s@).push(
                        pattern@,
                    ));
                },
                RuleSubjectPattern::ToolchainObjectSet { .. } => {},
            }
            i = i + 1;
        }
        assert(self.subjects@.subrange(0, self.subjects@.len() as int) =~= self.subjects@);
        out
    }
}

pub open spec fn mechanism_name(m: Mechanism) -> Seq<char> {
    match m {
        Mechanism::Generated => "generated"@,
        Mechanism::UserAdjacent => "user_adjacent"@,
        Mechanism::UserOwned => "user_owned"@,
        Mechanism::VendorManaged => "vendor_managed"@,
    }
}

pub open spec fn recoverability_name(r: Recoverability) -> Seq<char> {
    match r {
        Recoverability::TrashRestore => "trash_restore"@,
        Recoverability::RebuildTimeCost => "rebuild_time_cost"@,
        Recoverability::RedownloadBandwidth => "redownload_bandwidth"@,
        Recoverability::RequiresExternalDevice => "requires_external_device"@,
        Recoverability::Unrecoverable => "unrecoverable"@,
    }
}

pub open spec fn sensitivity_name(s: Sensitivity) -> Seq<char> {
    match s {
        Sensitivity::Low => "low"@,
        Sensitivity::Medium => "medium"@,
        Sensitivity::High => "high"@,
    }
}

impl Mechanism {
    pub fn as_str(self) -> (r: &'static str)
        ensures
            r@ == mechanism_name(self),
    {
        match self {
            Mechanism::Generated => "generated",
            Mechanism::UserAdjacent => "user_adjacent",
            Mechanism::UserOwned => "user_owned",
            Mechanism::VendorManaged => "vendor_managed",
        }
    }
}

impl Recoverability {
    pub fn as_str(self) -> (r: &'static str)
        ensures
            r@ == recoverability_name(self),
    {
        match self {
            Recoverability::TrashRestore => "trash_restore",
            Recoverability::RebuildTimeCost => "rebuild_time_cost",
            Recoverability::RedownloadBandwidth => "redownload_bandwidth",
            Recoverability::RequiresExternalDevice => "requires_external_device",
            Recoverability::Unrecoverable => "unrecoverable",
        }
    }
}

impl Sensitivity {
    pub fn as_str(self) -> (r: &'static str)
        ensures
            r@ == sensitivity_name(self),
    {
        match self {
            Sensitivity::Low => "low",
            Sensitivity::Medium => "medium",
            Sensitivity::High => "high",
        }
    }
}

/// Whether a rule's store is selected by default: its explicit override when it has
/// one, otherwise only a low-sensitivity store that comes back by rebuilding or
/// downloading again, and only when its preconditions are met.
pub open spec fn spec_default_selected(rule: Rule, preconditions_met: bool) -> bool {
    match rule.selection_override {
        Some(selected) => selected,
        None => preconditions_met && rule.sensitivity == Sensitivity::Low && (rule.recoverability
            == Recoverability::RebuildTimeCost || rule.recoverability
            == Recoverability::RedownloadBandwidth),
    }
}

pub fn default_selected(rule: &Rule, preconditions_met: bool) -> (r: bool)
    ensures
        r == spec_default_selected(*rule, preconditions_met),
{
    match rule.selection_override {
        Some(selected) => selected,
        None => preconditions_met && matches!(rule.sensitivity, Sensitivity::Low) && (matches!(
            rule.recoverability,
            Recoverability::RebuildTimeCost
        ) || matches!(rule.recoverability, Recoverability::RedownloadBandwidth)),
    }
}

/// Nothing but whitespace.
pub open spec fn blank(s: Seq<char>) -> bool {
    trim(s).len() == 0
}

pub open spec fn subject_blank(subject: RuleSubjectPattern) -> bool {
    match subject {
        RuleSubjectPattern::FilesystemPath { pattern } => blank(pattern@),
        RuleSubjectPattern::ToolchainObjectSet { object_set_id } => blank(object_set_id@),
    }
}

/// A rule that the rule set must not carry.
pub open spec fn spec_invalid(rule: Rule) -> bool {
    ||| blank(rule.id@)
    ||| blank(rule.adapter@)
    ||| blank(rule.title@)
    ||| blank(rule.description@)
    ||| rule.subjects@.len() == 0
    ||| (exists|i: int| 0 <= i < rule.subjects@.len() && subject_blank(#[trigger] rule.subjects@[i]))
    ||| rule.os@ != ">=13.0"@
    ||| blank(rule.evidence@)
    ||| blank(rule.fixture_id@)
    ||| !is_compiled_adapter(rule.adapter@)
    ||| rule.selection_override.is_some() != rule.override_reason.is_some()
    ||| (rule.override_reason matches Some(reason) && blank(reason@))
}

fn is_blank(s: &str) -> (r: bool)
    ensures
        r == blank(s@),
{
    let chars = chars_of(s);
    trim_chars(chars.as_slice()).len() == 0
}

fn subject_is_blank(subject: &RuleSubjectPattern) -> (r: bool)
    ensures
        r == subject_blank(*subject),
{
    match subject {
        RuleSubjectPattern::FilesystemPath { pattern } => is_blank(pattern.as_str()),
        RuleSubjectPattern::ToolchainObjectSet { object_set_id } => is_blank(object_set_id.as_str()),
    }
}

fn any_subject_blank(subjects: &Vec<RuleSubjectPattern>) -> (r: bool)
    ensures
        r == exists|i: int| 0 <= i < subjects@.len() && subject_blank(#[trigger] subjects@[i]),
{
    let mut i: usize = 0;
    while i < subjects.len()
        invariant
            i <= subjects@.len(),
            forall|j: int| 0 <= j < i ==> !subject_blank(#[trigger] subjects@[j]),
        decreases subjects.len() - i,
    {
        if subject_is_blank(&subjects[i]) {
            return true;
        }
        i = i + 1;
    }
    false
}

fn is_compiled(adapter: &str) -> (r: bool)
    ensures
        r == is_compiled_adapter(adapter@),
{
    let ids = compiled_adapter_ids();
    str_eq(adapter, ids[0]) || str_eq(adapter, ids[1]) || str_eq(adapter, ids[2])
}

pub fn invalid(rule: &Rule) -> (r: bool)
    ensures
        r == spec_invalid(*rule),
{
    let os_ok = str_eq(rule.os.as_str(), ">=13.0");
    let override_reason_blank = match &rule.override_reason {
        Some(reason) => is_blank(reason.as_str()),
        None => false,
    };
    is_blank(rule.id.as_str()) || is_blank(rule.adapter.as_str()) || is_blank(rule.title.as_str())
        || is_blank(rule.description.as_str()) || rule.subjects.len() == 0 || any_subject_blank(
        &rule.subjects,
    ) || !os_ok || is_blank(rule.evidence.as_str()) || is_blank(rule.fixture_id.as_str())
        || !is_compiled(rule.adapter.as_str()) || rule.selection_override.is_some()
        != rule.override_reason.is_some() || override_reason_blank
}

/// What a parsed rule table yields: a parse failure that names an unknown field is
/// `UnknownField`, any other failure `Invalid`; a table with no rule, or with one
/// invalid rule, is `Invalid`; otherwise its rules.
pub open spec fn spec_validate_rules(parsed: Result<Seq<Rule>, Seq<char>>) -> Result<Seq<Rule>, RuleError> {
    match parsed {
        Err(message) => if contains_run(message, "unknown field"@) {
            Err(RuleError::UnknownField)
        } else {
            Err(RuleError::Invalid)
        },
        Ok(rules) => if rules.len() == 0 || exists|i: int|
            0 <= i < rules.len() && spec_invalid(#[trigger] rules[i]) {
            Err(RuleError::Invalid)
        } else {
            Ok(rules)
        },
    }
}

pub open spec fn parsed_view(parsed: Result<Vec<Rule>, String>) -> Result<Seq<Rule>, Seq<char>> {
    match parsed {
        Ok(rules) => Ok(rules@),
        Err(message) => Err(message@),
    }
}

/// Checks a rule table that the TOML reader produced, or classifies the reader's
/// error message.
pub fn validate_rules(parsed: Result<Vec<Rule>, String>) -> (r: Result<Vec<Rule>, RuleError>)
    ensures
        match spec_validate_rules(parsed_view(parsed)) {
            Err(e) => r == Err::<Vec<Rule>, RuleError>(e),
            Ok(rules) => r matches Ok(v) && v@ == rules,
        },
{
    match parsed {
        Err(message) => {
            let text = chars_of(message.as_str());
            let pattern = chars_of("unknown field");
            if contains_chars(text.as_slice(), pattern.as_slice()) {
                Err(RuleError::UnknownField)
            } else {
                Err(RuleError::Invalid)
            }
        },
        Ok(rules) => {
            if rules.len() == 0 {
                return Err(RuleError::Invalid);
            }
            let mut i: usize = 0;
            while i < rules.len()
                invariant
                    parsed_view(parsed) == Ok::<Seq<Rule>, Seq<char>>(rules@),
                    i <= rules@.len(),
                    forall|j: int| 0 <= j < i ==> !spec_invalid(#[trigger] rules@[j]),
                decreases rules.len() - i,
            {
                if invalid(&rules[i]) {
                    assert(spec_invalid(rules@[i as int]));
                    return Err(RuleError::Invalid);
                }
                i = i + 1;
            }
            Ok(rules)
        },
    }
}


/// The compiled rule set: the Homebrew rule file, then the Xcode rule file, then the
/// Docker rule file, each as its TOML parse came out and each validated; the first
/// file that fails decides the error.
pub open spec fn spec_builtin_rules(
    homebrew: Result<Seq<Rule>, Seq<char>>,
    xcode: Result<Seq<Rule>, Seq<char>>,
    docker: Result<Seq<Rule>, Seq<char>>,
) -> Result<Seq<Rule>, RuleError> {
    match spec_validate_rules(homebrew) {
        Err(e) => Err(e),
        Ok(first) => match spec_validate_rules(xcode) {
            Err(e) => Err(e),
            Ok(second) => match spec_validate_rules(docker) {
                Err(e) => Err(e),
                Ok(third) => Ok(first + second + third),
            },
        },
    }
}

pub fn builtin_rules(
    homebrew: Result<Vec<Rule>, String>,
    xcode: Result<Vec<Rule>, String>,
    docker: Result<Vec<Rule>, String>,
) -> (r: Result<Vec<Rule>, RuleError>)
    ensures
        match spec_builtin_rules(parsed_view(homebrew), parsed_view(xcode), parsed_view(docker)) {
            Err(e) => r == Err::<Vec<Rule>, RuleError>(e),
            Ok(rules) => r matches Ok(v) && v@ == rules,
        },
{
    let mut rules = match validate_rules(homebrew) {
        Err(e) => return Err(e),
        Ok(rules) => rules,
    };
    let mut second = match validate_rules(xcode) {
        Err(e) => return Err(e),
        Ok(rules) => rules,
    };
    let mut third = match validate_rules(docker) {
        Err(e) => return Err(e),
        Ok(rules) => rules,
    };
    rules.append(&mut second);
    rules.append(&mut third);
    Ok(rules)
}

} // verus!
