//! The decisions of the command line: how each requested exclusion resolves
//! against the scan root, the exclusion set that results, the exit status and
//! readiness that a report implies, and where an explanation comes from.

use vstd::prelude::*;

use crate::model::{Finding, RegionStatus, ScanDocument, has_prefix, starts_with_chars};
use crate::order::sort_stable;
use crate::paths::{components, is_absolute, join, join_paths, join_slash, path_components, path_starts_with, starts_with};
use crate::scan::{components_order, components_order_exec};
use crate::text::{chars_of, str_eq, string_of};

verus! {

/// Why a requested exclusion was refused before its existence was checked.
#[derive(Clone, Copy, Debug, Eq, PartialEq, Structural)]
pub enum ExcludeError {
    /// The request holds `*`, `?`, `[` or `]`.
    GlobSyntax,
    /// The resolved path has a `.` or `..` component or lies outside the scan root.
    NotUnderRoot,
    /// The resolved path neither contains nor lies inside an Xcode scan root.
    NoScanRoot,
}

pub open spec fn is_glob_char(c: char) -> bool {
    c == '*' || c == '?' || c == '[' || c == ']'
}

pub open spec fn has_glob(s: Seq<char>) -> bool {
    exists|i: int| 0 <= i < s.len() && is_glob_char(#[trigger] s[i])
}

/// The components of `p` after those of `base`, joined with `/`.
pub open spec fn remainder(p: Seq<char>, base: Seq<char>) -> Seq<char> {
    join_slash(components(p).subrange(components(base).len() as int, components(p).len() as int))
}

/// Where a request points inside the scan root: an absolute request under the
/// requested root is moved under the physical root, another absolute request is
/// taken as written, and a relative request is joined to the physical root.
pub open spec fn exclude_candidate(root: Seq<char>, requested_root: Seq<char>, input: Seq<char>) -> Seq<char> {
    if is_absolute(input) {
        if starts_with(input, requested_root) {
            join(root, remainder(input, requested_root))
        } else {
            input
        }
    } else {
        join(root, input)
    }
}

pub open spec fn overlaps(a: Seq<char>, b: Seq<char>) -> bool {
    starts_with(a, b) || starts_with(b, a)
}

pub open spec fn has_dot_component(p: Seq<char>) -> bool {
    components(p).contains(seq!['.']) || components(p).contains(seq!['.', '.'])
}

pub open spec fn xcode_scan_root(root: Seq<char>) -> Seq<char> {
    join(root, "Library/Developer/Xcode"@)
}

pub open spec fn simulator_scan_root(root: Seq<char>) -> Seq<char> {
    join(root, "Library/Developer/CoreSimulator"@)
}

/// The resolution of one requested exclusion, before its existence is checked.
pub open spec fn spec_resolve_exclude(root: Seq<char>, requested_root: Seq<char>, input: Seq<char>) -> Result<
    Seq<char>,
    ExcludeError,
> {
    let c = exclude_candidate(root, requested_root, input);
    if has_glob(input) {
        Err(ExcludeError::GlobSyntax)
    } else if has_dot_component(c) || !starts_with(c, root) {
        Err(ExcludeError::NotUnderRoot)
    } else if !overlaps(c, xcode_scan_root(root)) && !overlaps(c, simulator_scan_root(root)) {
        Err(ExcludeError::NoScanRoot)
    } else {
        Ok(c)
    }
}

fn glob_free(s: &[char]) -> (r: bool)
    ensures
        r == !has_glob(s@),
{
    let mut i: usize = 0;
    while i < s.len()
        invariant
            i <= s.len(),
            forall|j: int| 0 <= j < i ==> !is_glob_char(#[trigger] s@[j]),
        decreases s.len() - i,
    {
        let c = s[i];
        if c == '*' || c == '?' || c == '[' || c == ']' {
            assert(is_glob_char(s@[i as int]));
            return false;
        }
        i = i + 1;
    }
    true
}

fn join_components(cs: &Vec<Vec<char>>, start: usize) -> (r: Vec<char>)
    requires
        start <= cs.len(),
    ensures
        r@ == join_slash(cs.deep_view().subrange(start as int, cs.len() as int)),
{
    let mut out: Vec<char> = Vec::new();
    let mut i: usize = start;
    assert(cs.deep_view().subrange(start as int, start as int) =~= Seq::<Seq<char>>::empty());
    while i < cs.len()
        invariant
            start <= i <= cs.len(),
            out@ == join_slash(cs.deep_view().subrange(start as int, i as int)),
        decreases cs.len() - i,
    {
        let ghost prior = cs.deep_view().subrange(start as int, i as int);
        let ghost next = cs.deep_view().subrange(start as int, i + 1);
        proof {
            crate::paths::lemma_dv_index(cs, i as int);
            assert(next.drop_last() =~= prior);
        }
        if i > start {
            out.push('/');
        }
        let mut k: usize = 0;
        let ghost head = out@;
        while k < cs[i].len()
            invariant
                k <= cs@[i as int]@.len(),
                i < cs.len(),
                out@ =~= head + cs@[i as int]@.subrange(0, k as int),
            decreases cs[i as int]@.len() - k,
        {
            out.push(cs[i][k]);
            k = k + 1;
        }
        assert(cs@[i as int]@.subrange(0, k as int) =~= cs@[i as int]@);
        assert(next.last() == cs@[i as int]@);
        i = i + 1;
    }
    out
}

fn dot_free(cs: &Vec<Vec<char>>) -> (r: bool)
    ensures
        r == !(cs.deep_view().contains(seq!['.']) || cs.deep_view().contains(seq!['.', '.'])),
{
    let mut i: usize = 0;
    while i < cs.len()
        invariant
            i <= cs.len(),
            forall|j: int|
                0 <= j < i ==> #[trigger] cs.deep_view()[j] != seq!['.'] && cs.deep_view()[j] != seq![
                    '.',
                    '.',
                ],
        decreases cs.len() - i,
    {
        proof {
            crate::paths::lemma_dv_index(cs, i as int);
        }
        let c = &cs[i];
        if c.len() == 1 && c[0] == '.' {
            assert(cs.deep_view()[i as int] =~= seq!['.']);
            return false;
        }
        if c.len() == 2 && c[0] == '.' && c[1] == '.' {
            assert(cs.deep_view()[i as int] =~= seq!['.', '.']);
            return false;
        }
        assert(cs.deep_view()[i as int] != seq!['.'] && cs.deep_view()[i as int] != seq!['.', '.']) by {
            assert(seq!['.'].len() == 1 && seq!['.'][0] == '.');
            assert(seq!['.', '.'].len() == 2 && seq!['.', '.'][0] == '.' && seq!['.', '.'][1] == '.');
        }
        i = i + 1;
    }
    assert forall|j: int| 0 <= j < cs.deep_view().len() implies cs.deep_view()[j] != seq!['.'] by {}
    true
}

/// Resolves one requested exclusion against the scan root (`root`, its physical
/// path) and the root as the user named it (`requested_root`).
pub fn resolve_exclude(root: &str, requested_root: &str, input: &str) -> (r: Result<String, ExcludeError>)
    ensures
        match spec_resolve_exclude(root@, requested_root@, input@) {
            Err(e) => r == Err::<String, ExcludeError>(e),
            Ok(c) => r matches Ok(s) && s@ == c,
        },
{
    let rc = chars_of(root);
    let qc = chars_of(requested_root);
    let ic = chars_of(input);
    if !glob_free(ic.as_slice()) {
        return Err(ExcludeError::GlobSyntax);
    }
    let candidate = if ic.len() > 0 && ic[0] == '/' {
        if path_starts_with(ic.as_slice(), qc.as_slice()) {
            let ics = path_components(ic.as_slice());
            let qcs = path_components(qc.as_slice());
            proof {
                assert(components(requested_root@).is_prefix_of(components(input@)));
            }
            let rest = join_components(&ics, qcs.len());
            join_paths(rc.as_slice(), rest.as_slice())
        } else {
            crate::paths::copy_chars(ic.as_slice())
        }
    } else {
        join_paths(rc.as_slice(), ic.as_slice())
    };
    assert(candidate@ == exclude_candidate(root@, requested_root@, input@));
    let cs = path_components(candidate.as_slice());
    if !dot_free(&cs) || !path_starts_with(candidate.as_slice(), rc.as_slice()) {
        return Err(ExcludeError::NotUnderRoot);
    }
    let xcode = join_paths(rc.as_slice(), chars_of("Library/Developer/Xcode").as_slice());
    let simulator = join_paths(rc.as_slice(), chars_of("Library/Developer/CoreSimulator").as_slice());
    let near_xcode = path_starts_with(candidate.as_slice(), xcode.as_slice()) || path_starts_with(
        xcode.as_slice(),
        candidate.as_slice(),
    );
    let near_simulator = path_starts_with(candidate.as_slice(), simulator.as_slice())
        || path_starts_with(simulator.as_slice(), candidate.as_slice());
    if !near_xcode && !near_simulator {
        return Err(ExcludeError::NoScanRoot);
    }
    Ok(string_of(candidate.as_slice()))
}

/// Exclusions are ordered as paths are: component by component.
pub open spec fn exclude_le() -> spec_fn(String, String) -> bool {
    |a: String, b: String| components_order(components(a@), components(b@)) <= 0
}

/// `s` without each entry whose path equals, component by component, the one before it.
pub open spec fn dedup_paths(s: Seq<String>) -> Seq<String>
    decreases s.len(),
{
    if s.len() <= 1 {
        s
    } else if components_order(components(s.last()@), components(s[s.len() - 2]@)) == 0 {
        dedup_paths(s.drop_last())
    } else {
        dedup_paths(s.drop_last()).push(s.last())
    }
}

fn path_order_of(a: &String, b: &String) -> (r: i8)
    ensures
        r as int == components_order(components(a@), components(b@)),
{
    let ac = chars_of(a.as_str());
    let bc = chars_of(b.as_str());
    let acs = path_components(ac.as_slice());
    let bcs = path_components(bc.as_slice());
    components_order_exec(&acs, &bcs)
}

/// The exclusion set of a scan: the resolved paths in path order, each path once.
pub fn settle_excludes(excludes: Vec<String>) -> (r: Vec<String>)
    ensures
        r@ == dedup_paths(sort_stable(excludes@, exclude_le())),
{
    let mut sorted: Vec<String> = Vec::new();
    let mut pending = excludes;
    let ghost input = pending@;
    let ghost mut done: Seq<String> = Seq::empty();
    while pending.len() > 0
        invariant
            done + pending@ == input,
            sorted@ == sort_stable(done, exclude_le()),
        decreases pending.len(),
    {
        let a = pending.remove(0);
        let mut j: usize = sorted.len();
        while j > 0 && path_order_of(&sorted[j - 1], &a) > 0
            invariant
                j <= sorted.len(),
                forall|k: int| j <= k < sorted@.len() ==> !(exclude_le())(#[trigger] sorted@[k], a),
            decreases j,
        {
            j = j - 1;
        }
        proof {
            crate::order::lemma_insert_at(sorted@, a, exclude_le(), j as int);
            let next = done.push(a);
            assert(next.drop_last() =~= done);
            assert(next + pending@ =~= input);
            done = next;
        }
        sorted.insert(j, a);
    }
    assert(done =~= input);
    let ghost all = sorted@;
    let mut out: Vec<String> = Vec::new();
    let mut i: usize = 0;
    while i < sorted.len()
        invariant
            i <= sorted.len(),
            all == sorted@,
            out@ == dedup_paths(all.subrange(0, i as int)),
        decreases sorted.len() - i,
    {
        let ghost prior = all.subrange(0, i as int);
        let ghost next = all.subrange(0, i + 1);
        assert(next.drop_last() =~= prior);
        if i == 0 || path_order_of(&sorted[i], &sorted[i - 1]) != 0 {
            out.push(sorted[i].clone());
        }
        i = i + 1;
    }
    assert(all.subrange(0, all.len() as int) =~= all);
    out
}

/// The exit status of a scan: 3 when some region could not be measured, 0 otherwise.
pub fn scan_exit_status(document: &ScanDocument) -> (r: u8)
    ensures
        r == (if exists|k: int|
            0 <= k < document.payload.regions@.len()
                && (#[trigger] document.payload.regions@[k]).status == RegionStatus::Unmeasurable {
            3u8
        } else {
            0u8
        }),
{
    let regions = &document.payload.regions;
    let mut i: usize = 0;
    while i < regions.len()
        invariant
            i <= regions@.len(),
            regions == &document.payload.regions,
            forall|k: int| 0 <= k < i ==> (#[trigger] regions@[k]).status != RegionStatus::Unmeasurable,
        decreases regions.len() - i,
    {
        if matches!(regions[i].status, RegionStatus::Unmeasurable) {
            return 3;
        }
        i = i + 1;
    }
    0
}

/// `doctor` reports ready when the root opened and the Xcode region is complete,
/// absent or excluded by the user.
pub fn doctor_ready(root_ready: bool, xcode: RegionStatus) -> (r: bool)
    ensures
        r == (root_ready && (xcode == RegionStatus::Complete || xcode == RegionStatus::NotPresent
            || xcode == RegionStatus::ExcludedByUser)),
{
    root_ready && matches!(
        xcode,
        RegionStatus::Complete | RegionStatus::NotPresent | RegionStatus::ExcludedByUser
    )
}

/// Why a finding cannot be explained before anything is read or measured.
#[derive(Clone, Copy, Debug, Eq, PartialEq, Structural)]
pub enum ExplainError {
    /// The ID was not made by the version of the finding-ID algorithm this build knows.
    UnknownAlgorithm,
    /// A live explanation was asked of a finding of an adapter this build does not run.
    AdapterNotCompiled,
}

/// Where an explanation comes from: the report the user supplied, or a new scan.
#[derive(Clone, Copy, Debug, Eq, PartialEq, Structural)]
pub enum ExplainSource {
    Snapshot,
    LiveXcode,
}

/// Where the explanation of `id` comes from: every ID must be of the first algorithm
/// version; a supplied report answers for any adapter; a live rescan only for Xcode.
pub fn explain_source(id: &str, from_snapshot: bool) -> (r: Result<ExplainSource, ExplainError>)
    ensures
        !has_prefix(id@, "f1:"@) ==> r == Err::<ExplainSource, ExplainError>(
            ExplainError::UnknownAlgorithm,
        ),
        has_prefix(id@, "f1:"@) && from_snapshot ==> r == Ok::<ExplainSource, ExplainError>(
            ExplainSource::Snapshot,
        ),
        has_prefix(id@, "f1:"@) && !from_snapshot ==> r == (if has_prefix(id@, "f1:xcode:"@) {
            Ok::<ExplainSource, ExplainError>(ExplainSource::LiveXcode)
        } else {
            Err::<ExplainSource, ExplainError>(ExplainError::AdapterNotCompiled)
        }),
{
    let text = chars_of(id);
    let version = chars_of("f1:");
    if !starts_with_chars(text.as_slice(), version.as_slice()) {
        return Err(ExplainError::UnknownAlgorithm);
    }
    if from_snapshot {
        return Ok(ExplainSource::Snapshot);
    }
    let xcode = chars_of("f1:xcode:");
    if starts_with_chars(text.as_slice(), xcode.as_slice()) {
        Ok(ExplainSource::LiveXcode)
    } else {
        Err(ExplainError::AdapterNotCompiled)
    }
}

/// What a live rescan says of a finding: found at an index, absent after a complete
/// rescan, or of unknown existence because the rescan was incomplete.
#[derive(Clone, Copy, Debug, Eq, PartialEq, Structural)]
pub enum LiveLookup {
    Found(usize),
    NotFoundAfterRescan,
    RescanUnmeasurable,
}

/// Looks `id` up among the findings of a live rescan whose adapter ended in `status`:
/// the first finding with that ID; when there is none, the answer depends on whether
/// the rescan was complete.
pub fn live_lookup(findings: &Vec<Finding>, id: &str, status: RegionStatus) -> (r: LiveLookup)
    ensures
        r matches LiveLookup::Found(i) ==> i < findings@.len() && findings@[i as int].id@ == id@
            && forall|j: int| 0 <= j < i ==> (#[trigger] findings@[j]).id@ != id@,
        !(r is Found) ==> forall|j: int| 0 <= j < findings@.len() ==> (#[trigger] findings@[j]).id@ != id@,
        r is NotFoundAfterRescan ==> status == RegionStatus::Complete,
        r is RescanUnmeasurable ==> status != RegionStatus::Complete,
{
    let mut i: usize = 0;
    while i < findings.len()
        invariant
            i <= findings@.len(),
            forall|j: int| 0 <= j < i ==> (#[trigger] findings@[j]).id@ != id@,
        decreases findings.len() - i,
    {
        if str_eq(findings[i].id.as_str(), id) {
            return LiveLookup::Found(i);
        }
        i = i + 1;
    }
    if matches!(status, RegionStatus::Complete) {
        LiveLookup::NotFoundAfterRescan
    } else {
        LiveLookup::RescanUnmeasurable
    }
}

/// What becomes of the requested exclusions before any of them is resolved.
#[derive(Clone, Copy, Debug, Eq, PartialEq, Structural)]
pub enum ExcludeGate {
    /// Nothing to resolve.
    Skip,
    /// Each request is resolved against the opened root.
    Resolve,
    /// Exclusions were requested but no scan root that they could name is enabled.
    NoEnabledRoot,
    /// Exclusions were requested but the root could not be opened to check them.
    RootUnavailable,
}

/// The exit status of a command line that cannot be carried out as given.
pub const USAGE_EXIT_STATUS: u8 = 2;

/// Whether the requested exclusions are resolved, skipped, or refused before the
/// scan: with Xcode disabled any request names no enabled root; with the root not
/// opened a request cannot be checked. A refusal ends the command with
/// `USAGE_EXIT_STATUS`.
pub fn exclude_gate(requested: usize, xcode_enabled: bool, root_opened: bool) -> (r: ExcludeGate)
    ensures
        !xcode_enabled ==> r == (if requested > 0 {
            ExcludeGate::NoEnabledRoot
        } else {
            ExcludeGate::Skip
        }),
        xcode_enabled && root_opened ==> r == ExcludeGate::Resolve,
        xcode_enabled && !root_opened ==> r == (if requested > 0 {
            ExcludeGate::RootUnavailable
        } else {
            ExcludeGate::Skip
        }),
{
    if !xcode_enabled {
        if requested > 0 {
            ExcludeGate::NoEnabledRoot
        } else {
            ExcludeGate::Skip
        }
    } else if root_opened {
        ExcludeGate::Resolve
    } else if requested > 0 {
        ExcludeGate::RootUnavailable
    } else {
        ExcludeGate::Skip
    }
}

} // verus!
