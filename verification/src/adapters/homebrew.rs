//! Homebrew: the version comes from the repository's own metadata, never from
//! running `brew`; stores are found by rule patterns under the home directory, the
//! prefix and the Cellar, and reported under the prefix they stand for.

use vstd::prelude::*;

use crate::adapters::{
    AdapterDegradedReason, AdapterId, AdapterState, Inventory, InventoryGap, InventoryGapReason,
    InventoryIdentity, InventoryItem, InventoryStage, ToolchainAdapter, classifiable, finding_for,
    finding_of,
};
use crate::json::{JsonValue, get_member, json_document, member, parse_json};
use crate::lexical::{index_of, is_space, is_space_char, lines, split_lines, trim, trim_chars};
use crate::model::{Advice, Finding, FindingSubject, Measurement, SignalObservation, advice_views, findings_normalized_from, normalize_findings};
use crate::paths::{
    ends_with, has_parent_component, has_parent_dir, home_relative, join, join_paths, normals,
    path_ends_with, path_starts_with, relative_spelling, split_slash, split_segments,
    normal_segments, starts_with,
};
use crate::rules::Rule;
use crate::text::{chars_of, str_eq, string_of};

verus! {

pub open spec fn is_hex(c: char) -> bool {
    ('0' <= c && c <= '9') || ('a' <= c && c <= 'f') || ('A' <= c && c <= 'F')
}

/// A git object name: 40 or 64 hexadecimal digits.
pub open spec fn spec_valid_sha(v: Seq<char>) -> bool {
    (v.len() == 40 || v.len() == 64) && forall|i: int| 0 <= i < v.len() ==> is_hex(#[trigger] v[i])
}

pub fn valid_sha(value: &str) -> (r: bool)
    ensures
        r == spec_valid_sha(value@),
{
    let v = chars_of(value);
    if v.len() != 40 && v.len() != 64 {
        return false;
    }
    let mut i: usize = 0;
    while i < v.len()
        invariant
            v@ == value@,
            i <= v@.len(),
            forall|j: int| 0 <= j < i ==> is_hex(#[trigger] v@[j]),
        decreases v.len() - i,
    {
        let c = v[i];
        if !(('0' <= c && c <= '9') || ('a' <= c && c <= 'f') || ('A' <= c && c <= 'F')) {
            return false;
        }
        i = i + 1;
    }
    true
}

/// An absolute path placed under a sandbox root, when one is given.
pub open spec fn spec_under_sandbox(sandbox_root: Option<Seq<char>>, absolute: Seq<char>) -> Seq<char> {
    match sandbox_root {
        None => absolute,
        Some(root) => join(
            root,
            if absolute.len() > 0 && absolute[0] == '/' {
                absolute.drop_first()
            } else {
                absolute
            },
        ),
    }
}

pub open spec fn opt_text(o: Option<&str>) -> Option<Seq<char>> {
    match o {
        Some(s) => Some(s@),
        None => None,
    }
}

pub fn under_sandbox(sandbox_root: Option<&str>, absolute: &str) -> (r: String)
    ensures
        r@ == spec_under_sandbox(opt_text(sandbox_root), absolute@),
{
    match sandbox_root {
        None => absolute.to_owned(),
        Some(root) => {
            let a = chars_of(absolute);
            let rel = if a.len() > 0 && a[0] == '/' {
                crate::lexical::slice_chars(a.as_slice(), 1, a.len())
            } else {
                a
            };
            assert(rel@ == (if absolute@.len() > 0 && absolute@[0] == '/' {
                absolute@.drop_first()
            } else {
                absolute@
            }));
            let r = chars_of(root);
            string_of(join_paths(r.as_slice(), rel.as_slice()).as_slice())
        },
    }
}

/// The prefix that a report names: the physical prefix outside a sandbox; inside
/// one, the standard prefix that the sandboxed one stands for.
pub open spec fn spec_prefix_for_report(physical_prefix: Seq<char>, sandboxed: bool) -> Seq<char> {
    if !sandboxed {
        physical_prefix
    } else if ends_with(physical_prefix, "opt/homebrew"@) {
        "/opt/homebrew"@
    } else {
        "/usr/local"@
    }
}

pub fn prefix_for_report(physical_prefix: &str, sandbox_root: Option<&str>) -> (r: String)
    ensures
        r@ == spec_prefix_for_report(physical_prefix@, sandbox_root is Some),
{
    if sandbox_root.is_none() {
        return physical_prefix.to_owned();
    }
    let p = chars_of(physical_prefix);
    let tail = chars_of("opt/homebrew");
    if path_ends_with(p.as_slice(), tail.as_slice()) {
        "/opt/homebrew".to_owned()
    } else {
        "/usr/local".to_owned()
    }
}

/// Where a Homebrew installation lives.
#[derive(Clone, Debug, Eq, PartialEq)]
pub struct Layout {
    pub prefix: String,
    pub repository: String,
    pub cellar: Option<String>,
    pub reported_prefix: String,
}

/// The path below a prefix root, spelled as it lies below the prefix's reported
/// location; none when the path is not below the root.
pub open spec fn spec_prefix_relative(path: Seq<char>, root: Seq<char>) -> Option<Seq<char>> {
    if starts_with(path, root) {
        let spelled = home_relative(path, normals(split_slash(root)).len() as int);
        Some(
            if spelled.len() >= 2 {
                spelled.subrange(2, spelled.len() as int)
            } else {
                Seq::empty()
            },
        )
    } else {
        None
    }
}

impl Layout {
    pub fn normalized_prefix_path(&self, prefix_root: &str, path: &str) -> (r: Option<String>)
        ensures
            match spec_prefix_relative(path@, prefix_root@) {
                None => r is None,
                Some(rel) => r matches Some(s) && s@ == join(self.reported_prefix@, rel),
            },
    {
        let pc = chars_of(path);
        let rc = chars_of(prefix_root);
        if !path_starts_with(pc.as_slice(), rc.as_slice()) {
            return None;
        }
        let rs = split_segments(rc.as_slice());
        let (rn, _) = normal_segments(&rs);
        let spelled = relative_spelling(pc.as_slice(), rn.len());
        let rel = if spelled.len() >= 2 {
            crate::lexical::slice_chars(spelled.as_slice(), 2, spelled.len())
        } else {
            Vec::new()
        };
        let base = chars_of(self.reported_prefix.as_str());
        Some(string_of(join_paths(base.as_slice(), rel.as_slice()).as_slice()))
    }
}

/// The layout of a candidate prefix: present when `bin/brew` exists and a Cellar or a
/// Caskroom does; its Cellar is the prefix's, else the repository's, else none.
pub fn layout_for(
    prefix: &str,
    repository: &str,
    sandbox_root: Option<&str>,
    brew_exists: bool,
    cellar_exists: bool,
    caskroom_exists: bool,
    repository_cellar_exists: bool,
) -> (r: Option<Layout>)
    ensures
        !(brew_exists && (cellar_exists || caskroom_exists)) ==> r is None,
        brew_exists && (cellar_exists || caskroom_exists) ==> (r matches Some(layout) && {
            &&& layout.prefix@ == spec_under_sandbox(opt_text(sandbox_root), prefix@)
            &&& layout.repository@ == spec_under_sandbox(opt_text(sandbox_root), repository@)
            &&& layout.reported_prefix@ == spec_prefix_for_report(layout.prefix@, sandbox_root is Some)
            &&& if cellar_exists {
                layout.cellar matches Some(c) && c@ == join(layout.prefix@, "Cellar"@)
            } else if repository_cellar_exists {
                layout.cellar matches Some(c) && c@ == join(layout.repository@, "Cellar"@)
            } else {
                layout.cellar is None
            }
        }),
{
    if !(brew_exists && (cellar_exists || caskroom_exists)) {
        return None;
    }
    let physical = under_sandbox(sandbox_root, prefix);
    let reported = prefix_for_report(physical.as_str(), sandbox_root);
    let repo = under_sandbox(sandbox_root, repository);
    let cellar_name = chars_of("Cellar");
    let cellar = if cellar_exists {
        let p = chars_of(physical.as_str());
        Some(string_of(join_paths(p.as_slice(), cellar_name.as_slice()).as_slice()))
    } else if repository_cellar_exists {
        let p = chars_of(repo.as_str());
        Some(string_of(join_paths(p.as_slice(), cellar_name.as_slice()).as_slice()))
    } else {
        None
    };
    Some(Layout { prefix: physical, repository: repo, cellar, reported_prefix: reported })
}

/// What a `HEAD` file names: a reference to follow or a detached object name.
#[derive(Debug, Eq, PartialEq)]
pub enum HeadTarget {
    Reference(String),
    Detached(String),
}

/// A `HEAD` file, trimmed: `ref: ` and a reference, or a valid object name.
pub fn head_target(contents: &str) -> (r: Option<HeadTarget>)
    ensures
        ({
            let head = trim(contents@);
            if head.len() >= 5 && head.subrange(0, 5) == "ref: "@ {
                r matches Some(HeadTarget::Reference(reference)) && reference@ == head.subrange(
                    5,
                    head.len() as int,
                )
            } else if spec_valid_sha(head) {
                r matches Some(HeadTarget::Detached(sha)) && sha@ == head
            } else {
                r is None
            }
        }),
{
    let c = chars_of(contents);
    let head = trim_chars(c.as_slice());
    let prefix = chars_of("ref: ");
    proof {
        reveal_strlit("ref: ");
    }
    if head.len() >= 5 {
        let start = crate::lexical::slice_chars(head.as_slice(), 0, 5);
        if crate::paths::seq_eq(start.as_slice(), prefix.as_slice()) {
            let rest = crate::lexical::slice_chars(head.as_slice(), 5, head.len());
            return Some(HeadTarget::Reference(string_of(rest.as_slice())));
        }
    }
    let text = string_of(head.as_slice());
    if valid_sha(text.as_str()) {
        Some(HeadTarget::Detached(text))
    } else {
        None
    }
}

/// A reference that may be followed: under `refs/`, with no `..` component.
pub open spec fn spec_reference_ok(reference: Seq<char>) -> bool {
    reference.len() >= 5 && reference.subrange(0, 5) == "refs/"@ && !has_parent_component(reference)
}

pub fn reference_ok(reference: &str) -> (r: bool)
    ensures
        r == spec_reference_ok(reference@),
{
    let c = chars_of(reference);
    let p = chars_of("refs/");
    proof {
        reveal_strlit("refs/");
    }
    if c.len() < 5 {
        return false;
    }
    let start = crate::lexical::slice_chars(c.as_slice(), 0, 5);
    crate::paths::seq_eq(start.as_slice(), p.as_slice()) && !has_parent_dir(c.as_slice())
}

/// The object name a loose reference file holds, trimmed, when it is valid.
pub fn loose_reference(contents: &str) -> (r: Option<String>)
    ensures
        spec_valid_sha(trim(contents@)) ==> (r matches Some(s) && s@ == trim(contents@)),
        !spec_valid_sha(trim(contents@)) ==> r is None,
{
    let c = chars_of(contents);
    let t = string_of(trim_chars(c.as_slice()).as_slice());
    if valid_sha(t.as_str()) {
        Some(t)
    } else {
        None
    }
}

/// The object name of `reference` in a `packed-refs` file: the first line that is an
/// object name, a space and exactly that reference.
pub open spec fn packed_line(line: Seq<char>, reference: Seq<char>) -> Option<Seq<char>> {
    let sp = index_of(line, ' ');
    if sp < line.len() && line.subrange(sp + 1, line.len() as int) == reference
        && spec_valid_sha(line.subrange(0, sp)) {
        Some(line.subrange(0, sp))
    } else {
        None
    }
}

pub open spec fn first_packed(ls: Seq<Seq<char>>, reference: Seq<char>) -> Option<Seq<char>>
    decreases ls.len(),
{
    if ls.len() == 0 {
        None
    } else {
        match packed_line(ls[0], reference) {
            Some(sha) => Some(sha),
            None => first_packed(ls.drop_first(), reference),
        }
    }
}

pub fn packed_reference(packed: &str, reference: &str) -> (r: Option<String>)
    ensures
        match first_packed(lines(packed@), reference@) {
            None => r is None,
            Some(sha) => r matches Some(s) && s@ == sha,
        },
{
    let c = chars_of(packed);
    let ls = split_lines(c.as_slice());
    let rc = chars_of(reference);
    let ghost sl = lines(packed@);
    let mut i: usize = 0;
    assert(sl.subrange(0, sl.len() as int) =~= sl);
    while i < ls.len()
        invariant
            sl == lines(packed@),
            ls@.len() == sl.len(),
            forall|j: int| 0 <= j < ls@.len() ==> (#[trigger] ls@[j])@ == sl[j],
            rc@ == reference@,
            i <= ls@.len(),
            first_packed(sl, reference@) == first_packed(sl.subrange(i as int, sl.len() as int), reference@),
        decreases ls.len() - i,
    {
        let ghost rest = sl.subrange(i as int, sl.len() as int);
        assert(rest[0] == sl[i as int]);
        assert(rest.drop_first() =~= sl.subrange(i + 1, sl.len() as int));
        let line = &ls[i];
        let mut sp: usize = 0;
        while sp < line.len() && line[sp] != ' '
            invariant
                sp <= line@.len(),
                forall|j: int| 0 <= j < sp ==> line@[j] != ' ',
            decreases line.len() - sp,
        {
            sp = sp + 1;
        }
        proof {
            crate::lexical::lemma_index_of(line@, ' ', sp as int);
        }
        if sp < line.len() {
            let candidate = crate::lexical::slice_chars(line.as_slice(), sp + 1, line.len());
            let sha = string_of(crate::lexical::slice_chars(line.as_slice(), 0, sp).as_slice());
            if crate::paths::seq_eq(candidate.as_slice(), rc.as_slice()) && valid_sha(sha.as_str()) {
                return Some(sha);
            }
        }
        i = i + 1;
    }
    None
}

/// `line` records `reference` at object `sha`: a valid object name, one space and
/// exactly the reference.
pub open spec fn names_reference(line: Seq<char>, reference: Seq<char>, sha: Seq<char>) -> bool {
    spec_valid_sha(sha) && line == sha + seq![' '] + reference
}

proof fn lemma_packed_line_reads_record(line: Seq<char>, reference: Seq<char>)
    ensures
        forall|sha: Seq<char>| names_reference(line, reference, sha) ==> packed_line(line, reference)
            == Some(sha),
        packed_line(line, reference) matches Some(sha) ==> names_reference(line, reference, sha),
{
    assert forall|sha: Seq<char>| names_reference(line, reference, sha) implies packed_line(
        line,
        reference,
    ) == Some(sha) by {
        assert forall|j: int| 0 <= j < sha.len() implies line[j] != ' ' by {
            assert(line[j] == sha[j]);
            assert(is_hex(sha[j]));
        }
        assert(line[sha.len() as int] == ' ');
        crate::lexical::lemma_index_of(line, ' ', sha.len() as int);
        assert(line.subrange(0, sha.len() as int) =~= sha);
        assert(line.subrange(sha.len() as int + 1, line.len() as int) =~= reference);
    }
    if let Some(sha) = packed_line(line, reference) {
        let sp = index_of(line, ' ');
        crate::lexical::lemma_index_bound(line, ' ');
        assert(line =~= line.subrange(0, sp) + seq![' '] + line.subrange(sp + 1, line.len() as int));
    }
}

proof fn lemma_first_record(ls: Seq<Seq<char>>, reference: Seq<char>, j: int, sha: Seq<char>)
    requires
        0 <= j < ls.len(),
        names_reference(ls[j], reference, sha),
        forall|i: int, other: Seq<char>| 0 <= i < j ==> !#[trigger] names_reference(ls[i], reference, other),
    ensures
        first_packed(ls, reference) == Some(sha),
    decreases j,
{
    lemma_packed_line_reads_record(ls[0], reference);
    if j > 0 {
        assert(packed_line(ls[0], reference) is None) by {
            if let Some(x) = packed_line(ls[0], reference) {
                assert(names_reference(ls[0], reference, x));
            }
        }
        let rest = ls.drop_first();
        assert forall|i: int, other: Seq<char>| 0 <= i < j - 1 implies !#[trigger] names_reference(
            rest[i],
            reference,
            other,
        ) by {
            assert(rest[i] == ls[i + 1]);
        }
        assert(rest[j - 1] == ls[j]);
        lemma_first_record(rest, reference, j - 1, sha);
    }
}

proof fn lemma_no_record(ls: Seq<Seq<char>>, reference: Seq<char>)
    requires
        forall|i: int, other: Seq<char>| 0 <= i < ls.len() ==> !#[trigger] names_reference(ls[i], reference, other),
    ensures
        first_packed(ls, reference) is None,
    decreases ls.len(),
{
    if ls.len() > 0 {
        lemma_packed_line_reads_record(ls[0], reference);
        assert(packed_line(ls[0], reference) is None) by {
            if let Some(x) = packed_line(ls[0], reference) {
                assert(names_reference(ls[0], reference, x));
            }
        }
        let rest = ls.drop_first();
        assert forall|i: int, other: Seq<char>| 0 <= i < rest.len() implies !#[trigger] names_reference(
            rest[i],
            reference,
            other,
        ) by {
            assert(rest[i] == ls[i + 1]);
        }
        lemma_no_record(rest, reference);
    }
}

/// `packed-refs` is searched line by line, whatever comes before: when some line
/// records the reference (a valid object name, a space and exactly the reference),
/// the object name of the first such line is found, and nothing is found only when no
/// line records it.
pub proof fn lemma_packed_refs_find_the_first_record(packed: Seq<char>, reference: Seq<char>)
    ensures
        forall|j: int, sha: Seq<char>|
            0 <= j < lines(packed).len() && #[trigger] names_reference(lines(packed)[j], reference, sha)
                && (forall|i: int, other: Seq<char>|
                0 <= i < j ==> !#[trigger] names_reference(lines(packed)[i], reference, other))
                ==> first_packed(lines(packed), reference) == Some(sha),
        (forall|i: int, other: Seq<char>|
            0 <= i < lines(packed).len() ==> !#[trigger] names_reference(lines(packed)[i], reference, other))
            ==> first_packed(lines(packed), reference) is None,
        first_packed(lines(packed), reference) matches Some(sha) ==> exists|j: int|
            0 <= j < lines(packed).len() && #[trigger] names_reference(lines(packed)[j], reference, sha),
{
    let ls = lines(packed);
    assert forall|j: int, sha: Seq<char>|
        0 <= j < ls.len() && #[trigger] names_reference(ls[j], reference, sha) && (forall|i: int, other: Seq<char>|
            0 <= i < j ==> !#[trigger] names_reference(ls[i], reference, other))
            implies first_packed(ls, reference) == Some(sha) by {
        lemma_first_record(ls, reference, j, sha);
    }
    if forall|i: int, other: Seq<char>| 0 <= i < ls.len() ==> !#[trigger] names_reference(ls[i], reference, other) {
        lemma_no_record(ls, reference);
    }
    lemma_found_record_is_named(ls, reference);
}

proof fn lemma_found_record_is_named(ls: Seq<Seq<char>>, reference: Seq<char>)
    ensures
        first_packed(ls, reference) matches Some(sha) ==> exists|j: int|
            0 <= j < ls.len() && #[trigger] names_reference(ls[j], reference, sha),
    decreases ls.len(),
{
    if ls.len() > 0 {
        lemma_packed_line_reads_record(ls[0], reference);
        let rest = ls.drop_first();
        lemma_found_record_is_named(rest, reference);
        if let Some(sha) = first_packed(ls, reference) {
            if packed_line(ls[0], reference) is Some {
                assert(names_reference(ls[0], reference, sha));
            } else {
                let j = choose|j: int| 0 <= j < rest.len() && #[trigger] names_reference(rest[j], reference, sha);
                assert(ls[j + 1] == rest[j]);
            }
        }
    }
}

/// The version a `describe-cache` entry holds: its trimmed text, when that is one
/// non-empty word.
pub fn describe_version(contents: &str) -> (r: Option<String>)
    ensures
        ({
            let v = trim(contents@);
            if v.len() > 0 && forall|i: int| 0 <= i < v.len() ==> !is_space(#[trigger] v[i]) {
                r matches Some(s) && s@ == v
            } else {
                r is None
            }
        }),
{
    let c = chars_of(contents);
    let v = trim_chars(c.as_slice());
    if v.len() == 0 {
        return None;
    }
    let mut i: usize = 0;
    while i < v.len()
        invariant
            v@ == trim(contents@),
            i <= v@.len(),
            forall|j: int| 0 <= j < i ==> !is_space(#[trigger] v@[j]),
        decreases v.len() - i,
    {
        if is_space_char(v[i]) {
            assert(is_space(v@[i as int]));
            return None;
        }
        i = i + 1;
    }
    Some(string_of(v.as_slice()))
}

/// The state that the repository metadata gives: ready at the version it records,
/// degraded with an unknown version when it records none.
pub fn probe_version(version: Option<String>) -> (r: AdapterState)
    ensures
        match version {
            Some(v) => r == AdapterState::Ready { version: v },
            None => r == (AdapterState::Degraded {
                observed_version: None,
                reason: AdapterDegradedReason::UnknownVersion,
            }),
        },
{
    match version {
        Some(v) => AdapterState::Ready { version: v },
        None => AdapterState::Degraded {
            observed_version: None,
            reason: AdapterDegradedReason::UnknownVersion,
        },
    }
}

proof fn lemma_packed_names_valid(ls: Seq<Seq<char>>, reference: Seq<char>)
    ensures
        first_packed(ls, reference) matches Some(sha) ==> spec_valid_sha(sha),
    decreases ls.len(),
{
    if ls.len() > 0 {
        lemma_packed_names_valid(ls.drop_first(), reference);
    }
}

/// The version a `describe-cache` entry holds: its trimmed text, when that is one
/// non-empty word.
pub open spec fn describe_version_of(contents: Seq<char>) -> Option<Seq<char>> {
    let v = trim(contents);
    if v.len() > 0 && forall|i: int| 0 <= i < v.len() ==> !is_space(#[trigger] v[i]) {
        Some(v)
    } else {
        None
    }
}

pub open spec fn unknown_version() -> AdapterState {
    AdapterState::Degraded { observed_version: None, reason: AdapterDegradedReason::UnknownVersion }
}

/// The `describe-cache` entry of an object name, relative to the `.git` directory.
pub open spec fn describe_entry(sha: Seq<char>) -> Seq<char> {
    "describe-cache/"@ + sha
}

/// Where the reading of the Homebrew version stands while it waits for a file of the
/// repository's `.git` directory.
#[derive(Debug)]
pub enum VersionStage {
    /// `HEAD`.
    Head,
    /// The loose file of a checked reference.
    Loose { reference: String },
    /// `packed-refs`, searched for a checked reference.
    Packed { reference: String },
    /// The `describe-cache` entry of a valid object name.
    Describe,
}

/// What the version reading asks for next: the contents of a file below `.git`, or
/// the state it ended in. No command is ever run.
#[derive(Debug)]
pub enum VersionStep {
    Read { next: VersionStage, file: String },
    Done(AdapterState),
}

/// The version reading begins with `HEAD`.
pub fn version_start() -> (r: VersionStep)
    ensures
        r matches VersionStep::Read { next: VersionStage::Head, file } && file@ == "HEAD"@,
{
    VersionStep::Read { next: VersionStage::Head, file: "HEAD".to_owned() }
}

fn describe_step(sha: &str) -> (r: VersionStep)
    ensures
        r matches VersionStep::Read { next: VersionStage::Describe, file } && file@ == describe_entry(
            sha@,
        ),
{
    let mut f = chars_of("describe-cache/");
    let c = chars_of(sha);
    crate::text::extend_chars(&mut f, c.as_slice());
    VersionStep::Read { next: VersionStage::Describe, file: string_of(f.as_slice()) }
}

/// `r` reads the `describe-cache` entry of `sha`.
pub open spec fn reads_describe(r: VersionStep, sha: Seq<char>) -> bool {
    r matches VersionStep::Read { next: VersionStage::Describe, file } && file@ == describe_entry(sha)
}

/// The step after `HEAD` holds `contents`: a checked reference is looked up in its
/// loose file, a valid object name goes to its describe-cache entry, anything else
/// ends with an unknown version.
pub open spec fn head_step(r: VersionStep, contents: Seq<char>) -> bool {
    let head = trim(contents);
    if head.len() >= 5 && head.subrange(0, 5) == "ref: "@ {
        let reference = head.subrange(5, head.len() as int);
        if spec_reference_ok(reference) {
            r matches VersionStep::Read { next: VersionStage::Loose { reference: rf }, file } && rf@
                == reference && file@ == reference
        } else {
            r == VersionStep::Done(unknown_version())
        }
    } else if spec_valid_sha(head) {
        reads_describe(r, head)
    } else {
        r == VersionStep::Done(unknown_version())
    }
}

/// The step that `stage` takes when the file it asked for holds `contents` (`None`
/// when it could not be read).
pub open spec fn version_step_is(r: VersionStep, stage: VersionStage, contents: Option<String>) -> bool {
    match contents {
        None => match stage {
            VersionStage::Loose { reference } => r matches VersionStep::Read {
                next: VersionStage::Packed { reference: p },
                file,
            } && p@ == reference@ && file@ == "packed-refs"@,
            _ => r == VersionStep::Done(unknown_version()),
        },
        Some(c) => match stage {
            VersionStage::Head => head_step(r, c@),
            VersionStage::Loose { .. } => if spec_valid_sha(trim(c@)) {
                reads_describe(r, trim(c@))
            } else {
                r == VersionStep::Done(unknown_version())
            },
            VersionStage::Packed { reference } => match first_packed(lines(c@), reference@) {
                Some(sha) => reads_describe(r, sha),
                None => r == VersionStep::Done(unknown_version()),
            },
            VersionStage::Describe => match describe_version_of(c@) {
                Some(v) => r matches VersionStep::Done(AdapterState::Ready { version }) && version@ == v,
                None => r == VersionStep::Done(unknown_version()),
            },
        },
    }
}

impl VersionStage {
    /// Resumes the reading with the file it asked for (`None` when it could not be
    /// read). `HEAD` names a checked reference or a valid object name; a reference
    /// is looked up in its loose file, and only when that file is absent in
    /// `packed-refs`; the version is the one word of the `describe-cache` entry of
    /// the object name so found. Anything else ends with an unknown version.
    pub fn resume(self, contents: Option<String>) -> (r: VersionStep)
        ensures
            version_step_is(r, self, contents),
            r matches VersionStep::Read { next: VersionStage::Describe, file } ==> exists|sha: Seq<char>|
                spec_valid_sha(sha) && file@ == #[trigger] describe_entry(sha),
            r matches VersionStep::Read { next: VersionStage::Loose { reference }, file } ==> (
            spec_reference_ok(reference@) && file@ == reference@),
            r matches VersionStep::Read { next: VersionStage::Packed { .. }, file } ==> file@
                == "packed-refs"@,
            r is Read ==> !(r matches VersionStep::Read { next: VersionStage::Head, .. }),
            r matches VersionStep::Done(AdapterState::Ready { version }) ==> (self is Describe && (
            contents matches Some(c) && describe_version_of(c@) == Some(version@))),
            r matches VersionStep::Done(state) ==> (state is Ready || state == unknown_version()),
            contents is None && !(self is Loose) ==> r == VersionStep::Done(unknown_version()),
            self matches VersionStage::Loose { reference } ==> (contents is None ==> (
            r matches VersionStep::Read { next: VersionStage::Packed { reference: p }, file }
                && p@ == reference@)),
    {
        match self {
            VersionStage::Head => match contents {
                None => VersionStep::Done(probe_version(None)),
                Some(c) => match head_target(c.as_str()) {
                    Some(HeadTarget::Reference(reference)) => {
                        if reference_ok(reference.as_str()) {
                            let file = reference.clone();
                            VersionStep::Read { next: VersionStage::Loose { reference }, file }
                        } else {
                            VersionStep::Done(probe_version(None))
                        }
                    },
                    Some(HeadTarget::Detached(sha)) => describe_step(sha.as_str()),
                    None => VersionStep::Done(probe_version(None)),
                },
            },
            VersionStage::Loose { reference } => match contents {
                Some(c) => match loose_reference(c.as_str()) {
                    Some(sha) => describe_step(sha.as_str()),
                    None => VersionStep::Done(probe_version(None)),
                },
                None => VersionStep::Read {
                    next: VersionStage::Packed { reference },
                    file: "packed-refs".to_owned(),
                },
            },
            VersionStage::Packed { reference } => match contents {
                Some(c) => {
                    proof {
                        lemma_packed_names_valid(lines(c@), reference@);
                    }
                    match packed_reference(c.as_str(), reference.as_str()) {
                        Some(sha) => describe_step(sha.as_str()),
                        None => VersionStep::Done(probe_version(None)),
                    }
                },
                None => VersionStep::Done(probe_version(None)),
            },
            VersionStage::Describe => match contents {
                Some(c) => VersionStep::Done(probe_version(describe_version(c.as_str()))),
                None => VersionStep::Done(probe_version(None)),
            },
        }
    }
}

/// `got` is what reading `name` below `.git` gives when the directory holds `files`:
/// the file's text when it is there, nothing when it is not.
pub open spec fn read_from(files: Map<Seq<char>, Seq<char>>, name: Seq<char>, got: Option<String>) -> bool {
    match got {
        Some(c) => files.contains_key(name) && c@ == files[name],
        None => !files.contains_key(name),
    }
}

/// A whole reading of the version over `files`: it starts by asking for `HEAD`, each
/// step answers the file that the previous one asked for, as read from `files`, and
/// the last step ends the reading.
pub open spec fn version_trace(
    files: Map<Seq<char>, Seq<char>>,
    steps: Seq<VersionStep>,
    reads: Seq<Option<String>>,
) -> bool {
    &&& steps.len() >= 1
    &&& reads.len() == steps.len() - 1
    &&& steps[0] matches VersionStep::Read { next: VersionStage::Head, file } && file@ == "HEAD"@
    &&& forall|i: int|
        0 <= i < reads.len() ==> (steps[i] matches VersionStep::Read { next, file } && read_from(
            files,
            file@,
            #[trigger] reads[i],
        ) && version_step_is(steps[i + 1], next, reads[i]))
    &&& steps.last() is Done
}

/// The object name that `HEAD` resolves to in `files`: the loose file of the
/// reference it names, or, only when that file is absent, the reference's line in
/// `packed-refs`; or the object name it holds itself.
pub open spec fn resolved_object(files: Map<Seq<char>, Seq<char>>) -> Option<Seq<char>> {
    if !files.contains_key("HEAD"@) {
        None
    } else {
        let head = trim(files["HEAD"@]);
        if head.len() >= 5 && head.subrange(0, 5) == "ref: "@ {
            let reference = head.subrange(5, head.len() as int);
            if !spec_reference_ok(reference) {
                None
            } else if files.contains_key(reference) {
                if spec_valid_sha(trim(files[reference])) {
                    Some(trim(files[reference]))
                } else {
                    None
                }
            } else if files.contains_key("packed-refs"@) {
                first_packed(lines(files["packed-refs"@]), reference)
            } else {
                None
            }
        } else if spec_valid_sha(head) {
            Some(head)
        } else {
            None
        }
    }
}

/// The version that `files` hold: the one word of the `describe-cache` entry of the
/// object that `HEAD` resolves to.
pub open spec fn resolved_version(files: Map<Seq<char>, Seq<char>>) -> Option<Seq<char>> {
    match resolved_object(files) {
        Some(sha) => if files.contains_key(describe_entry(sha)) {
            describe_version_of(files[describe_entry(sha)])
        } else {
            None
        },
        None => None,
    }
}

/// The step that ends a reading answers `reads[k - 1]`: a step before it that ends the
/// reading would leave nothing to answer after it.
proof fn lemma_trace_ends_at(
    files: Map<Seq<char>, Seq<char>>,
    steps: Seq<VersionStep>,
    reads: Seq<Option<String>>,
    k: int,
)
    requires
        version_trace(files, steps, reads),
        1 <= k < steps.len(),
        steps[k] is Done,
    ensures
        steps.len() == k + 1,
{
    if steps.len() > k + 1 {
        let _ = reads[k];
    }
}

/// The Homebrew version is read from the repository alone, in at most five steps:
/// it is `Ready` with the one word of the `describe-cache` entry of the object that
/// `HEAD` resolves to, and the version is unknown whenever `HEAD` does not resolve or
/// that entry holds no single word.
pub proof fn lemma_version_reading_follows_head(
    files: Map<Seq<char>, Seq<char>>,
    steps: Seq<VersionStep>,
    reads: Seq<Option<String>>,
)
    requires
        version_trace(files, steps, reads),
    ensures
        steps.len() <= 5,
        match resolved_version(files) {
            Some(v) => steps.last() matches VersionStep::Done(AdapterState::Ready { version })
                && version@ == v,
            None => steps.last() == VersionStep::Done(unknown_version()),
        },
{
    reveal_strlit("HEAD");
    assert(steps.len() >= 2);
    let _ = reads[0];
    if steps[1] is Done {
        lemma_trace_ends_at(files, steps, reads, 1);
    } else {
        let _ = reads[1];
        if steps[2] is Done {
            lemma_trace_ends_at(files, steps, reads, 2);
        } else {
            let _ = reads[2];
            if steps[3] is Done {
                lemma_trace_ends_at(files, steps, reads, 3);
            } else {
                let _ = reads[3];
                assert(steps[4] is Done);
                lemma_trace_ends_at(files, steps, reads, 4);
            }
        }
    }
}

/// A store path that could not be listed or measured.
pub fn io_gap(path: &str, stage: InventoryStage, errno: Option<i32>) -> (r: InventoryGap)
    ensures
        r.region@ == "homebrew"@,
        r.path matches Some(p) && p@ == path@,
        r.reason == InventoryGapReason::TraversalFailed,
        r.stage == Some(stage),
        r.errno == errno,
{
    InventoryGap {
        region: "homebrew",
        path: Some(path.to_owned()),
        reason: InventoryGapReason::TraversalFailed,
        stage: Some(stage),
        errno,
    }
}

/// The last component of a path and the one before it, as `Path::file_name` gives
/// them (empty when there is none).
pub open spec fn last_name(p: Seq<char>, back: int) -> Seq<char> {
    let n = normals(split_slash(p));
    if n.len() > back && n[n.len() - 1 - back] != ".."@ {
        n[n.len() - 1 - back]
    } else {
        Seq::empty()
    }
}

/// Whether a keg's receipt says it was installed on request: its
/// `installed_on_request` member when it is a boolean.
pub open spec fn receipt_flag(receipt: Option<Seq<u8>>) -> Option<bool> {
    match receipt {
        Some(bytes) => flag_in(json_document(bytes)),
        None => None,
    }
}

/// The on-request flag of a parsed install receipt, when it holds a boolean one.
pub open spec fn flag_in(document: Option<JsonValue>) -> Option<bool> {
    match document {
        Some(v) => match member(v, "installed_on_request"@) {
            Some(JsonValue::Bool(b)) => Some(b),
            _ => None,
        },
        None => None,
    }
}

pub fn receipt_flag_of(document: &Option<JsonValue>) -> (r: Option<bool>)
    ensures
        r == flag_in(*document),
{
    match document {
        Some(v) => match get_member(v, "installed_on_request") {
            Some(JsonValue::Bool(b)) => Some(*b),
            _ => None,
        },
        None => None,
    }
}

/// The identity of a Cellar keg: the formula and version its path names, and the
/// receipt's on-request flag when the receipt could be read.
pub fn keg_identity(path: &str, receipt: Option<&[u8]>) -> (r: InventoryIdentity)
    ensures
        r matches InventoryIdentity::HomebrewKeg { formula, version, installed_on_request }
            && formula@ == last_name(path@, 1) && version@ == last_name(path@, 0)
            && installed_on_request == receipt_flag(
            match receipt {
                Some(b) => Some(b@),
                None => None,
            },
        ),
{
    let pc = chars_of(path);
    let segs = split_segments(pc.as_slice());
    let (names, _) = normal_segments(&segs);
    let dotdot = chars_of("..");
    proof {
        reveal_strlit("..");
        assert(names.deep_view() == normals(split_slash(path@)));
        assert(names@.len() == names.deep_view().len());
    }
    let version = if names.len() > 0 && !crate::paths::seq_eq(names[names.len() - 1].as_slice(), dotdot.as_slice()) {
        proof {
            crate::paths::lemma_dv_index(&names, names.len() - 1);
        }
        string_of(names[names.len() - 1].as_slice())
    } else {
        String::new()
    };
    let formula = if names.len() > 1 && !crate::paths::seq_eq(names[names.len() - 2].as_slice(), dotdot.as_slice()) {
        proof {
            crate::paths::lemma_dv_index(&names, names.len() - 2);
        }
        string_of(names[names.len() - 2].as_slice())
    } else {
        String::new()
    };
    proof {
        let n = normals(split_slash(path@));
        if names@.len() > 0 {
            crate::paths::lemma_dv_index(&names, names@.len() - 1);
        }
        if names@.len() > 1 {
            crate::paths::lemma_dv_index(&names, names@.len() - 2);
        }
        assert(n.len() == names@.len());
        assert(version@ == last_name(path@, 0));
        assert(formula@ == last_name(path@, 1));
    }
    let installed_on_request = match receipt {
        Some(bytes) => receipt_flag_of(&parse_json(bytes)),
        None => None,
    };
    InventoryIdentity::HomebrewKeg { formula, version, installed_on_request }
}

/// Whether a store of this rule is a Cellar keg, whose identity needs its install
/// receipt.
pub fn is_keg_rule(rule_id: &str) -> (r: bool)
    ensures
        r == (rule_id@ == "homebrew.cellar"@),
{
    str_eq(rule_id, "homebrew.cellar")
}

/// The identity of a measured store: a Cellar keg is named by its rack and version and
/// carries its receipt's on-request flag; every other store is known by its path.
pub fn store_identity(rule_id: &str, path: &str, receipt: Option<&[u8]>) -> (r: InventoryIdentity)
    ensures
        rule_id@ != "homebrew.cellar"@ ==> r == InventoryIdentity::Path,
        rule_id@ == "homebrew.cellar"@ ==> (r matches InventoryIdentity::HomebrewKeg {
            formula,
            version,
            installed_on_request,
        } && formula@ == last_name(path@, 1) && version@ == last_name(path@, 0)
            && installed_on_request == receipt_flag(
            match receipt {
                Some(b) => Some(b@),
                None => None,
            },
        )),
{
    if is_keg_rule(rule_id) {
        keg_identity(path, receipt)
    } else {
        InventoryIdentity::Path
    }
}

/// The inventory item of a measured store.
pub fn store_item(
    rule_id: &str,
    normalized_path: &str,
    path: &str,
    measurements: Vec<Measurement>,
    observations: Vec<SignalObservation>,
    identity: InventoryIdentity,
) -> (r: InventoryItem)
    ensures
        r.rule_id@ == rule_id@,
        r.subject matches FindingSubject::FilesystemPath { normalized_path: n } && n@
            == normalized_path@,
        r.path matches Some(p) && p@ == path@,
        r.measurements@ == measurements@,
        r.observations@ == observations@,
        r.identity == identity,
{
    InventoryItem {
        rule_id: rule_id.to_owned(),
        subject: FindingSubject::FilesystemPath { normalized_path: normalized_path.to_owned() },
        path: Some(path.to_owned()),
        measurements,
        observations,
        identity,
    }
}

/// Where a store pattern starts: the home directory (`~/`), the prefix (`$PREFIX/`)
/// or the Cellar (`$CELLAR/`), with the rest of the pattern.
#[derive(Debug, Eq, PartialEq)]
pub enum PatternBase {
    Home(String),
    Prefix(String),
    Cellar(String),
}

pub open spec fn after_prefix(p: Seq<char>, prefix: Seq<char>) -> Option<Seq<char>> {
    if p.len() >= prefix.len() && p.subrange(0, prefix.len() as int) == prefix {
        Some(p.subrange(prefix.len() as int, p.len() as int))
    } else {
        None
    }
}

fn strip(p: &[char], prefix: &str) -> (r: Option<String>)
    ensures
        match after_prefix(p@, prefix@) {
            None => r is None,
            Some(rest) => r matches Some(s) && s@ == rest,
        },
{
    let q = chars_of(prefix);
    if q.len() > p.len() {
        return None;
    }
    let head = crate::lexical::slice_chars(p, 0, q.len());
    if !crate::paths::seq_eq(head.as_slice(), q.as_slice()) {
        return None;
    }
    Some(string_of(crate::lexical::slice_chars(p, q.len(), p.len()).as_slice()))
}

pub fn pattern_base(pattern: &str) -> (r: Option<PatternBase>)
    ensures
        match after_prefix(pattern@, "~/"@) {
            Some(rest) => r matches Some(PatternBase::Home(s)) && s@ == rest,
            None => match after_prefix(pattern@, "$PREFIX/"@) {
                Some(rest) => r matches Some(PatternBase::Prefix(s)) && s@ == rest,
                None => match after_prefix(pattern@, "$CELLAR/"@) {
                    Some(rest) => r matches Some(PatternBase::Cellar(s)) && s@ == rest,
                    None => r is None,
                },
            },
        },
{
    let p = chars_of(pattern);
    match strip(p.as_slice(), "~/") {
        Some(rest) => Some(PatternBase::Home(rest)),
        None => match strip(p.as_slice(), "$PREFIX/") {
            Some(rest) => Some(PatternBase::Prefix(rest)),
            None => match strip(p.as_slice(), "$CELLAR/") {
                Some(rest) => Some(PatternBase::Cellar(rest)),
                None => None,
            },
        },
    }
}

/// `built` holds, item by item, the finding that the Homebrew rules make.
pub open spec fn homebrew_findings(built: Seq<Finding>, rules: Seq<Rule>, items: Seq<InventoryItem>) -> bool {
    &&& built.len() == items.len()
    &&& forall|i: int|
        0 <= i < built.len() ==> finding_of(
            #[trigger] built[i],
            "homebrew"@,
            Some("homebrew"@),
            rules,
            items[i],
        ) && built[i].advice@.len() == 0
}

/// The Homebrew adapter over the rule set it classifies with. It advises nothing.
pub struct HomebrewAdapter {
    pub rules: Vec<Rule>,
}

impl HomebrewAdapter {
    pub fn new(rules: Vec<Rule>) -> (r: Self)
        ensures
            r.rules@ == rules@,
    {
        HomebrewAdapter { rules }
    }

    pub fn homebrew_classify(&self, inventory: &Inventory) -> (r: Result<Vec<Finding>, InventoryGapReason>)
        ensures
            r is Err <==> exists|i: int|
                0 <= i < inventory.items@.len() && !classifiable(
                    "homebrew"@,
                    Some("homebrew"@),
                    self.rules@,
                    #[trigger] inventory.items@[i],
                ),
            r matches Err(e) ==> e == InventoryGapReason::RuleSetInvalid,
            r matches Ok(fs) ==> exists|built: Seq<Finding>|
                #[trigger] homebrew_findings(built, self.rules@, inventory.items@)
                    && findings_normalized_from(built, fs@),
    {
        let mut built: Vec<Finding> = Vec::new();
        let mut i: usize = 0;
        while i < inventory.items.len()
            invariant
                i <= inventory.items@.len(),
                built@.len() == i,
                forall|k: int|
                    0 <= k < i ==> finding_of(
                        #[trigger] built@[k],
                        "homebrew"@,
                        Some("homebrew"@),
                        self.rules@,
                        inventory.items@[k],
                    ) && built@[k].advice@.len() == 0,
                forall|k: int|
                    0 <= k < i ==> classifiable(
                        "homebrew"@,
                        Some("homebrew"@),
                        self.rules@,
                        #[trigger] inventory.items@[k],
                    ),
            decreases inventory.items.len() - i,
        {
            let f = match finding_for("homebrew", Some("homebrew"), self.rules.as_slice(), &inventory.items[i]) {
                Ok(f) => f,
                Err(e) => {
                    return Err(e);
                },
            };
            built.push(f);
            i = i + 1;
        }
        let ghost before = built@;
        assert(homebrew_findings(before, self.rules@, inventory.items@));
        normalize_findings(&mut built);
        assert(findings_normalized_from(before, built@));
        Ok(built)
    }
}

impl ToolchainAdapter for HomebrewAdapter {
    fn id(&self) -> (r: AdapterId)
        ensures
            r@ == "homebrew"@,
    {
        AdapterId::new("homebrew")
    }

    fn classify(&self, inventory: &Inventory) -> (r: Result<Vec<Finding>, InventoryGapReason>)
        ensures
            r is Err <==> exists|i: int|
                0 <= i < inventory.items@.len() && !classifiable(
                    "homebrew"@,
                    Some("homebrew"@),
                    self.rules@,
                    #[trigger] inventory.items@[i],
                ),
            r matches Err(e) ==> e == InventoryGapReason::RuleSetInvalid,
            r matches Ok(fs) ==> exists|built: Seq<Finding>|
                #[trigger] homebrew_findings(built, self.rules@, inventory.items@)
                    && findings_normalized_from(built, fs@),
    {
        self.homebrew_classify(inventory)
    }

    fn advise(&self, finding: &Finding) -> (r: Vec<Advice>)
        ensures
            r@.len() == 0,
    {
        Vec::new()
    }
}

} // verus!
