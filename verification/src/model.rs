//! The attribution model: finding identities, subjects, signals, measurements,
//! vendor size ranges and the disposition interval.

use std::collections::BTreeMap;

use vstd::prelude::*;

use crate::fsx::CapacityValue;
use crate::paths::{
    components, home_relative, join_slash, is_normalized_absolute, normalized_absolute, normals, path_starts_with,
    relative_spelling, split_segments, split_slash, normal_segments, starts_with,
};
use crate::order::{
    compare_chars, dedup_consecutive, lemma_dedup_head, lemma_dedup_keeps_every_element,
    lemma_dedup_keeps_order, lemma_insert_at, lemma_sort_multiset, lemma_sort_sorted, lex_order,
    sort_stable, sorted_by, total_preorder,
};
use crate::paths::lemma_dv_index;
use crate::text::{spec_parse_u64, all_digits, decimal_value, is_digit, parse_u64, chars_of, extend_chars, hex_digits, hex_fixed, string_of};

verus! {

pub const SCHEMA_VERSION: &'static str = "0.1.0-unstable";

pub const TOOL_VERSION: &'static str = "0.1.1";

pub const FINDING_ID_VERSION: &'static str = "f1";

#[derive(Clone, Copy, Debug, Eq, PartialEq, Structural)]
pub enum FindingIdError {
    InvalidAdapterId,
    InvalidRuleId,
    InvalidNormalizedPath,
}

/// The characters of a string result, or its error.
pub open spec fn text_result<E>(r: Result<String, E>) -> Result<Seq<char>, E> {
    match r {
        Ok(s) => Ok(s@),
        Err(e) => Err(e),
    }
}

/// The report spelling of `path`: `~`-relative when it lies under `home`, itself otherwise.
pub open spec fn spec_normalized_report_path(home: Seq<char>, path: Seq<char>) -> Result<
    Seq<char>,
    FindingIdError,
> {
    if !is_normalized_absolute(home) || !is_normalized_absolute(path) {
        Err(FindingIdError::InvalidNormalizedPath)
    } else if starts_with(path, home) {
        Ok(home_relative(path, normals(split_slash(home)).len() as int))
    } else {
        Ok(path)
    }
}

/// Report paths are home-relative: one place below two different homes is reported
/// with the same spelling, so finding IDs do not depend on where the home lies.
pub proof fn lemma_report_paths_are_home_relative(
    first_home: Seq<char>,
    second_home: Seq<char>,
    relative: Seq<char>,
)
    requires
        is_normalized_absolute(first_home),
        is_normalized_absolute(second_home),
        !crate::paths::is_absolute(relative),
        !crate::paths::has_parent_component(relative),
    ensures
        spec_normalized_report_path(first_home, crate::paths::join(first_home, relative)) is Ok,
        spec_normalized_report_path(first_home, crate::paths::join(first_home, relative))
            == spec_normalized_report_path(second_home, crate::paths::join(second_home, relative)),
{
    crate::paths::lemma_join_below_home(first_home, relative);
    crate::paths::lemma_join_below_home(second_home, relative);
}

/// The three forms of a report path: an error exactly when the home or the path is
/// not absolute or holds `..`; `~` for the home itself; `~/` and the rest for a path
/// strictly below the home, component by component; and the path as written for a
/// path outside the home.
pub proof fn lemma_report_path_forms(home: Seq<char>, path: Seq<char>)
    ensures
        spec_normalized_report_path(home, path) is Err <==> (!is_normalized_absolute(home)
            || !is_normalized_absolute(path)),
        is_normalized_absolute(home) && is_normalized_absolute(path) && starts_with(path, home)
            && components(path).len() == components(home).len() ==> spec_normalized_report_path(
            home,
            path,
        ) == Ok::<Seq<char>, FindingIdError>(seq!['~']),
        is_normalized_absolute(home) && is_normalized_absolute(path) && starts_with(path, home)
            && components(path).len() > components(home).len() ==> (spec_normalized_report_path(
            home,
            path,
        ) matches Ok(s) && s.len() >= 2 && s[0] == '~' && s[1] == '/'),
        is_normalized_absolute(home) && is_normalized_absolute(path) && !starts_with(path, home)
            ==> spec_normalized_report_path(home, path) == Ok::<Seq<char>, FindingIdError>(path),
{
    crate::paths::lemma_normal_positions(split_slash(path));
    crate::paths::lemma_normal_positions(split_slash(home));
}

/// A report path is a valid finding subject whenever the path it comes from spells no
/// `.` piece: normalization then gives `~`, `~/` and pieces, or `/` and pieces, none
/// of them `.` or `..`.
pub proof fn lemma_report_path_is_valid_subject(home: Seq<char>, path: Seq<char>)
    requires
        !split_slash(path).contains(seq!['.']),
    ensures
        spec_normalized_report_path(home, path) matches Ok(s) ==> spec_valid_normalized_subject(s)
            && spec_valid_canonical_subject_key(s),
{
    let segs = split_slash(path);
    if let Ok(s) = spec_normalized_report_path(home, path) {
        assert(is_normalized_absolute(path));
        assert(!segs.contains(seq!['.', '.'])) by {
            if segs.contains(seq!['.', '.']) {
                let i = choose|i: int| 0 <= i < segs.len() && segs[i] == seq!['.', '.'];
                assert(seq!['.', '.'] != seq!['.']) by {
                    assert(seq!['.', '.'].len() != seq!['.'].len());
                }
                crate::paths::lemma_normal_piece_kept(segs, i);
            }
        }
        if !starts_with(path, home) {
            assert(s == path);
            assert(path.subrange(0, 1) =~= seq!['/']);
        } else {
            let k = normals(split_slash(home)).len() as int;
            let pos = crate::paths::normal_positions(segs);
            assert(s == home_relative(path, k));
            if pos.len() <= k {
                assert(s == seq!['~']);
                assert(split_slash(seq!['~']) =~= seq![seq!['~']]) by {
                    reveal_with_fuel(split_slash, 2);
                    assert(seq!['~'].drop_last() =~= Seq::<char>::empty());
                    assert(Seq::<char>::empty().push('~') =~= seq!['~']);
                }
                assert(seq!['~'] != seq!['.']);
                assert(seq!['~'] != seq!['.', '.']);
            } else {
                crate::paths::lemma_normal_positions(segs);
                let lo = pos[k];
                let hi = pos[pos.len() - 1] + 1;
                assert(lo < hi) by {
                    if k < pos.len() - 1 {
                        assert(pos[k] < pos[pos.len() - 1]);
                    }
                }
                let pieces = segs.subrange(lo, hi);
                crate::paths::lemma_split_pieces_lack_slash(path);
                assert forall|i: int, j: int| 0 <= i < pieces.len() && 0 <= j < pieces[i].len() implies #[trigger] pieces[i][j]
                    != '/' by {
                    assert(pieces[i] == segs[lo + i]);
                    assert(segs[lo + i][j] != '/');
                }
                crate::paths::lemma_split_of_join(pieces);
                let lead = seq!['~', '/'];
                assert(split_slash(lead) =~= seq![seq!['~'], Seq::<char>::empty()]) by {
                    assert(lead.drop_last() =~= seq!['~']);
                    assert(seq!['~'].drop_last() =~= Seq::<char>::empty());
                    assert(Seq::<char>::empty().push('~') =~= seq!['~']);
                    assert(split_slash(seq!['~']) =~= seq![seq!['~']]) by {
                        reveal_with_fuel(split_slash, 2);
                    }
                }
                crate::paths::lemma_split_after_slash(lead, join_slash(pieces));
                let split = split_slash(s);
                assert(split =~= seq![seq!['~']] + pieces);
                assert(s.subrange(0, 2) =~= lead);
                assert(!split.contains(seq!['.'])) by {
                    if split.contains(seq!['.']) {
                        let i = choose|i: int| 0 <= i < split.len() && split[i] == seq!['.'];
                        if i == 0 {
                            assert(seq!['~'][0] != seq!['.'][0]);
                        } else {
                            assert(split[i] == segs[lo + i - 1]);
                        }
                    }
                }
                assert(!split.contains(seq!['.', '.'])) by {
                    if split.contains(seq!['.', '.']) {
                        let i = choose|i: int| 0 <= i < split.len() && split[i] == seq!['.', '.'];
                        if i == 0 {
                            assert(seq!['~'].len() != seq!['.', '.'].len());
                        } else {
                            assert(split[i] == segs[lo + i - 1]);
                        }
                    }
                }
            }
        }
    }
}

pub fn normalized_report_path(home: &str, path: &str) -> (r: Result<String, FindingIdError>)
    ensures
        text_result(r) == spec_normalized_report_path(home@, path@),
{
    let hc = chars_of(home);
    let pc = chars_of(path);
    if !normalized_absolute(hc.as_slice()) || !normalized_absolute(pc.as_slice()) {
        return Err(FindingIdError::InvalidNormalizedPath);
    }
    if path_starts_with(pc.as_slice(), hc.as_slice()) {
        let hs = split_segments(hc.as_slice());
        let (hn, _) = normal_segments(&hs);
        let rel = relative_spelling(pc.as_slice(), hn.len());
        return Ok(string_of(rel.as_slice()));
    }
    Ok(string_of(pc.as_slice()))
}

pub open spec fn is_id_char(c: char) -> bool {
    ('a' <= c <= 'z') || ('0' <= c <= '9') || c == '.' || c == '_' || c == '-'
}

/// Non-empty and made only of lowercase ASCII letters, digits, `.`, `_` and `-`.
pub open spec fn spec_valid_id(v: Seq<char>) -> bool {
    v.len() > 0 && forall|i: int| 0 <= i < v.len() ==> is_id_char(#[trigger] v[i])
}

pub open spec fn has_prefix(v: Seq<char>, prefix: Seq<char>) -> bool {
    prefix.len() <= v.len() && v.subrange(0, prefix.len() as int) == prefix
}

/// `~`, or a spelling starting with `~/` or `/`, with no `.` or `..` piece between slashes.
pub open spec fn spec_valid_normalized_subject(v: Seq<char>) -> bool {
    (v == seq!['~'] || has_prefix(v, seq!['~', '/']) || has_prefix(v, seq!['/']))
        && !split_slash(v).contains(seq!['.']) && !split_slash(v).contains(seq!['.', '.'])
}

pub open spec fn object_set_prefix() -> Seq<char> {
    seq!['o', 'b', 'j', 'e', 'c', 't', '_', 's', 'e', 't', ':']
}

pub open spec fn spec_valid_canonical_subject_key(v: Seq<char>) -> bool {
    spec_valid_normalized_subject(v) || (has_prefix(v, object_set_prefix()) && spec_valid_id(
        v.subrange(object_set_prefix().len() as int, v.len() as int),
    ))
}

pub fn valid_id(value: &[char]) -> (r: bool)
    ensures
        r == spec_valid_id(value@),
{
    if value.len() == 0 {
        return false;
    }
    let mut i: usize = 0;
    while i < value.len()
        invariant
            i <= value.len(),
            forall|j: int| 0 <= j < i ==> is_id_char(#[trigger] value@[j]),
        decreases value.len() - i,
    {
        let c = value[i];
        if !(('a' <= c && c <= 'z') || ('0' <= c && c <= '9') || c == '.' || c == '_' || c
            == '-') {
            return false;
        }
        i = i + 1;
    }
    true
}

pub fn starts_with_chars(v: &[char], prefix: &[char]) -> (r: bool)
    ensures
        r == has_prefix(v@, prefix@),
{
    if prefix.len() > v.len() {
        return false;
    }
    let mut i: usize = 0;
    while i < prefix.len()
        invariant
            prefix.len() <= v.len(),
            i <= prefix.len(),
            forall|j: int| 0 <= j < i ==> v@[j] == prefix@[j],
        decreases prefix.len() - i,
    {
        if v[i] != prefix[i] {
            assert(v@.subrange(0, prefix@.len() as int)[i as int] != prefix@[i as int]);
            return false;
        }
        i = i + 1;
    }
    assert(v@.subrange(0, prefix@.len() as int) =~= prefix@);
    true
}

fn valid_normalized_subject(value: &[char]) -> (r: bool)
    ensures
        r == spec_valid_normalized_subject(value@),
{
    let mut tilde: Vec<char> = Vec::new();
    tilde.push('~');
    let mut tilde_slash: Vec<char> = Vec::new();
    tilde_slash.push('~');
    tilde_slash.push('/');
    let mut slash: Vec<char> = Vec::new();
    slash.push('/');
    assert(tilde@ =~= seq!['~']);
    assert(tilde_slash@ =~= seq!['~', '/']);
    assert(slash@ =~= seq!['/']);
    let is_tilde = value.len() == 1 && value[0] == '~';
    assert(is_tilde == (value@ == seq!['~'])) by {
        if value@ == seq!['~'] {
            assert(value@[0] == seq!['~'][0]);
        }
        if is_tilde {
            assert(value@ =~= seq!['~']);
        }
    }
    if !(is_tilde || starts_with_chars(value, tilde_slash.as_slice()) || starts_with_chars(
        value,
        slash.as_slice(),
    )) {
        return false;
    }
    let segs = split_segments(value);
    let mut i: usize = 0;
    while i < segs.len()
        invariant
            segs.deep_view() == split_slash(value@),
            i <= segs.len(),
            forall|j: int|
                0 <= j < i ==> segs.deep_view()[j] != seq!['.'] && segs.deep_view()[j] != seq![
                    '.',
                    '.',
                ],
        decreases segs.len() - i,
    {
        assert(segs.deep_view()[i as int] == segs@[i as int]@) by {
            assert(segs@[i as int].deep_view() =~= segs@[i as int]@);
        }
        let seg = &segs[i];
        if seg.len() == 1 && seg[0] == '.' {
            assert(segs.deep_view()[i as int] =~= seq!['.']);
            return false;
        }
        if seg.len() == 2 && seg[0] == '.' && seg[1] == '.' {
            assert(segs.deep_view()[i as int] =~= seq!['.', '.']);
            return false;
        }
        assert(segs.deep_view()[i as int] != seq!['.']) by {
            if seg@.len() == 1 {
                assert(seq!['.'][0] == '.');
            }
        }
        assert(segs.deep_view()[i as int] != seq!['.', '.']) by {
            if seg@.len() == 2 {
                assert(seq!['.', '.'][0] == '.' && seq!['.', '.'][1] == '.');
            }
        }
        i = i + 1;
    }
    true
}

fn valid_canonical_subject_key(value: &[char]) -> (r: bool)
    ensures
        r == spec_valid_canonical_subject_key(value@),
{
    if valid_normalized_subject(value) {
        return true;
    }
    let prefix = chars_of("object_set:");
    proof {
        reveal_strlit("object_set:");
        assert(prefix@ =~= object_set_prefix());
    }
    if !starts_with_chars(value, prefix.as_slice()) {
        return false;
    }
    let mut rest: Vec<char> = Vec::new();
    let mut i: usize = prefix.len();
    while i < value.len()
        invariant
            prefix.len() <= i <= value.len(),
            rest@ =~= value@.subrange(prefix@.len() as int, i as int),
        decreases value.len() - i,
    {
        rest.push(value[i]);
        i = i + 1;
    }
    valid_id(rest.as_slice())
}

pub open spec fn fnv_offset() -> u64 {
    0xcbf2_9ce4_8422_2325u64
}

pub open spec fn fnv_prime() -> u64 {
    0x0000_0100_0000_01b3u64
}

/// The 64-bit FNV-1a digest of a byte stream.
pub open spec fn fnv1a(bytes: Seq<u8>) -> u64
    decreases bytes.len(),
{
    if bytes.len() == 0 {
        fnv_offset()
    } else {
        (fnv1a(bytes.drop_last()) ^ (bytes.last() as u64)).wrapping_mul(fnv_prime())
    }
}

/// The bytes hashed for a finding ID: each component's UTF-8 encoding followed by a zero byte.
pub open spec fn id_stream(adapter_id: Seq<char>, rule_id: Seq<char>, key: Seq<char>) -> Seq<u8> {
    vstd::utf8::encode_utf8(adapter_id).push(0u8) + vstd::utf8::encode_utf8(rule_id).push(0u8)
        + vstd::utf8::encode_utf8(key).push(0u8)
}

pub open spec fn spec_finding_id(adapter_id: Seq<char>, rule_id: Seq<char>, key: Seq<char>) -> Result<
    Seq<char>,
    FindingIdError,
> {
    if !spec_valid_id(adapter_id) || adapter_id.contains(':') {
        Err(FindingIdError::InvalidAdapterId)
    } else if !spec_valid_id(rule_id) {
        Err(FindingIdError::InvalidRuleId)
    } else if !spec_valid_canonical_subject_key(key) {
        Err(FindingIdError::InvalidNormalizedPath)
    } else {
        Ok(seq!['f', '1', ':'] + adapter_id + seq![':'] + hex_fixed(
            fnv1a(id_stream(adapter_id, rule_id, key)) as nat,
            16,
        ))
    }
}

fn fnv_extend(digest: u64, bytes: &[u8]) -> (r: u64)
    ensures
        forall|prefix: Seq<u8>|
            fnv1a(prefix) == digest ==> #[trigger] fnv1a(prefix + bytes@) == r,
{
    let mut d = digest;
    let mut i: usize = 0;
    while i < bytes.len()
        invariant
            i <= bytes.len(),
            forall|prefix: Seq<u8>|
                fnv1a(prefix) == digest ==> #[trigger] fnv1a(prefix + bytes@.subrange(0, i as int))
                    == d,
        decreases bytes.len() - i,
    {
        let b = bytes[i];
        let next = (d ^ (b as u64)).wrapping_mul(0x0000_0100_0000_01b3u64);
        assert forall|prefix: Seq<u8>| fnv1a(prefix) == digest implies #[trigger] fnv1a(
            prefix + bytes@.subrange(0, i + 1),
        ) == next by {
            let longer = prefix + bytes@.subrange(0, i + 1);
            assert(longer.drop_last() =~= prefix + bytes@.subrange(0, i as int));
            assert(fnv1a(prefix + bytes@.subrange(0, i as int)) == d);
            assert(longer.last() == b);
            assert(longer.len() > 0);
        }
        d = next;
        i = i + 1;
    }
    assert(bytes@.subrange(0, bytes@.len() as int) =~= bytes@);
    d
}

pub fn finding_id(adapter_id: &str, rule_id: &str, canonical_subject_key: &str) -> (r: Result<
    String,
    FindingIdError,
>)
    ensures
        text_result(r) == spec_finding_id(adapter_id@, rule_id@, canonical_subject_key@),
{
    let ac = chars_of(adapter_id);
    let rc = chars_of(rule_id);
    let kc = chars_of(canonical_subject_key);
    if !valid_id(ac.as_slice()) {
        return Err(FindingIdError::InvalidAdapterId);
    }
    assert(!ac@.contains(':')) by {
        if ac@.contains(':') {
            let k = choose|k: int| 0 <= k < ac@.len() && ac@[k] == ':';
            assert(is_id_char(ac@[k]));
        }
    }
    if !valid_id(rc.as_slice()) {
        return Err(FindingIdError::InvalidRuleId);
    }
    if !valid_canonical_subject_key(kc.as_slice()) {
        return Err(FindingIdError::InvalidNormalizedPath);
    }
    let zero: [u8; 1] = [0u8];
    let ghost empty = Seq::<u8>::empty();
    assert(fnv1a(empty) == 0xcbf2_9ce4_8422_2325u64);
    let ghost zs = zero@;
    assert(zs =~= seq![0u8]);
    let d1 = fnv_extend(0xcbf2_9ce4_8422_2325u64, adapter_id.as_bytes());
    let ghost s1 = empty + vstd::utf8::encode_utf8(adapter_id@);
    assert(fnv1a(s1) == d1);
    let d2 = fnv_extend(d1, zero.as_slice());
    let ghost s2 = s1 + zs;
    assert(fnv1a(s2) == d2);
    let d3 = fnv_extend(d2, rule_id.as_bytes());
    let ghost s3 = s2 + vstd::utf8::encode_utf8(rule_id@);
    assert(fnv1a(s3) == d3);
    let d4 = fnv_extend(d3, zero.as_slice());
    let ghost s4 = s3 + zs;
    assert(fnv1a(s4) == d4);
    let d5 = fnv_extend(d4, canonical_subject_key.as_bytes());
    let ghost s5 = s4 + vstd::utf8::encode_utf8(canonical_subject_key@);
    assert(fnv1a(s5) == d5);
    let d6 = fnv_extend(d5, zero.as_slice());
    let ghost s6 = s5 + zs;
    assert(fnv1a(s6) == d6);
    assert(s6 =~= id_stream(adapter_id@, rule_id@, canonical_subject_key@));
    let mut out: Vec<char> = Vec::new();
    out.push('f');
    out.push('1');
    out.push(':');
    extend_chars(&mut out, ac.as_slice());
    out.push(':');
    let hex = hex_digits(d6, 16);
    extend_chars(&mut out, hex.as_slice());
    assert(out@ =~= seq!['f', '1', ':'] + adapter_id@ + seq![':'] + hex_fixed(d6 as nat, 16));
    Ok(string_of(out.as_slice()))
}


#[derive(Debug)]
pub struct ScanDocument {
    pub schema_version: &'static str,
    /// Peer of `schema_version` rather than part of `environment`: the build does not
    /// depend on the host, and the two versions advance on different schedules.
    pub tool_version: &'static str,
    pub environment: EnvironmentEnvelope,
    pub payload: ScanPayload,
}

#[derive(Debug)]
pub struct EnvironmentEnvelope {
    pub generated_at_unix_seconds: u64,
    pub hostname: String,
    pub home: String,
    pub tool_versions: BTreeMap<String, String>,
}

impl EnvironmentEnvelope {
    /// The envelope for a scan: the host name when one was observed, otherwise
    /// `unknown`; the scan root as home when one was given, else the observed home,
    /// else `unknown`.
    pub fn from_observed(
        generated_at_unix_seconds: u64,
        hostname: Option<String>,
        root: Option<String>,
        home: Option<String>,
    ) -> (r: Self)
        ensures
            r.generated_at_unix_seconds == generated_at_unix_seconds,
            r.hostname@ == (match hostname {
                Some(h) => h@,
                None => "unknown"@,
            }),
            r.home@ == (match root {
                Some(path) => path@,
                None => match home {
                    Some(h) => h@,
                    None => "unknown"@,
                },
            }),
            r.tool_versions@ == Map::<String, String>::empty(),
    {
        let hostname = match hostname {
            Some(h) => h,
            None => "unknown".to_owned(),
        };
        let home = match root {
            Some(path) => path,
            None => match home {
                Some(h) => h,
                None => "unknown".to_owned(),
            },
        };
        EnvironmentEnvelope {
            generated_at_unix_seconds,
            hostname,
            home,
            tool_versions: BTreeMap::new(),
        }
    }
}

#[derive(Debug)]
pub struct ScanPayload {
    pub capacity: Vec<CapacityValue>,
    pub regions: Vec<RegionReport>,
    pub findings: Vec<Finding>,
    pub coverage_gaps: Vec<CoverageGap>,
}

#[derive(Debug)]
pub struct RegionReport {
    pub id: String,
    pub status: RegionStatus,
    pub warnings: Vec<String>,
}

#[derive(Clone, Copy, Debug, Eq, PartialEq, Structural)]
pub enum RegionStatus {
    Complete,
    NotPresent,
    ExcludedByUser,
    /// A gap that documents a permanent product-scope boundary. It does not mark
    /// the owning region unmeasurable.
    DeclaredScopeBoundary,
    Unmeasurable,
}

impl RegionStatus {
    /// The name this status carries in reports.
    pub fn as_str(self) -> (r: &'static str)
        ensures
            r@ == spec_region_status_name(self),
    {
        match self {
            RegionStatus::Complete => "complete",
            RegionStatus::NotPresent => "not_present",
            RegionStatus::ExcludedByUser => "excluded_by_user",
            RegionStatus::DeclaredScopeBoundary => "declared_scope_boundary",
            RegionStatus::Unmeasurable => "unmeasurable",
        }
    }
}

pub open spec fn spec_region_status_name(s: RegionStatus) -> Seq<char> {
    match s {
        RegionStatus::Complete => "complete"@,
        RegionStatus::NotPresent => "not_present"@,
        RegionStatus::ExcludedByUser => "excluded_by_user"@,
        RegionStatus::DeclaredScopeBoundary => "declared_scope_boundary"@,
        RegionStatus::Unmeasurable => "unmeasurable"@,
    }
}

#[derive(Clone, Debug, Eq, Ord, PartialEq, PartialOrd)]
pub enum FindingSubject {
    FilesystemPath { normalized_path: String },
    ToolchainObjectSet { object_set_id: String },
}

/// The canonical key of a subject: a filesystem path keys as itself, an object set as
/// `object_set:` followed by its ID.
pub open spec fn spec_canonical_key(subject: FindingSubject) -> Result<Seq<char>, FindingIdError> {
    match subject {
        FindingSubject::FilesystemPath { normalized_path } => {
            if spec_valid_normalized_subject(normalized_path@) {
                Ok(normalized_path@)
            } else {
                Err(FindingIdError::InvalidNormalizedPath)
            }
        },
        FindingSubject::ToolchainObjectSet { object_set_id } => {
            if spec_valid_id(object_set_id@) {
                Ok(object_set_prefix() + object_set_id@)
            } else {
                Err(FindingIdError::InvalidNormalizedPath)
            }
        },
    }
}

impl FindingSubject {
    pub fn canonical_key(&self) -> (r: Result<String, FindingIdError>)
        ensures
            text_result(r) == spec_canonical_key(*self),
    {
        match self {
            FindingSubject::FilesystemPath { normalized_path } => {
                let chars = chars_of(normalized_path.as_str());
                if valid_normalized_subject(chars.as_slice()) {
                    Ok(string_of(chars.as_slice()))
                } else {
                    Err(FindingIdError::InvalidNormalizedPath)
                }
            },
            FindingSubject::ToolchainObjectSet { object_set_id } => {
                let chars = chars_of(object_set_id.as_str());
                if valid_id(chars.as_slice()) {
                    let mut out = chars_of("object_set:");
                    proof {
                        reveal_strlit("object_set:");
                        assert(out@ =~= object_set_prefix());
                    }
                    extend_chars(&mut out, chars.as_slice());
                    Ok(string_of(out.as_slice()))
                } else {
                    Err(FindingIdError::InvalidNormalizedPath)
                }
            },
        }
    }

    pub fn filesystem_path(&self) -> (r: Option<&str>)
        ensures
            match *self {
                FindingSubject::FilesystemPath { normalized_path } => r matches Some(p) && p@
                    == normalized_path@,
                FindingSubject::ToolchainObjectSet { .. } => r is None,
            },
    {
        match self {
            FindingSubject::FilesystemPath { normalized_path } => Some(normalized_path.as_str()),
            FindingSubject::ToolchainObjectSet { .. } => None,
        }
    }

    pub fn display_value(&self) -> (r: &str)
        ensures
            r@ == match *self {
                FindingSubject::FilesystemPath { normalized_path } => normalized_path@,
                FindingSubject::ToolchainObjectSet { object_set_id } => object_set_id@,
            },
    {
        match self {
            FindingSubject::FilesystemPath { normalized_path } => normalized_path.as_str(),
            FindingSubject::ToolchainObjectSet { object_set_id } => object_set_id.as_str(),
        }
    }
}

#[derive(Debug)]
pub struct Finding {
    pub id: String,
    pub adapter_id: String,
    pub rule_id: String,
    pub title: String,
    pub summary: String,
    pub subject: FindingSubject,
    pub mechanism: String,
    pub recoverability: String,
    pub sensitivity: String,
    pub evidence: String,
    pub unexplained_private_gap: bool,
    pub measurements: Vec<Measurement>,
    pub observations: Vec<SignalObservation>,
    pub advice: Vec<Advice>,
}

#[derive(Clone, Copy, Debug, Eq, Ord, PartialEq, PartialOrd, Structural)]
pub enum ObservationKind {
    Direct,
    Derived,
}

#[derive(Clone, Copy, Debug, Eq, Ord, PartialEq, PartialOrd, Structural)]
pub enum ObservationRelation {
    TestedWidthCorrelate,
    PossibleWidthExplanation,
    LogicalAllocationGap,
    ReclaimPolicy,
    DeletionScope,
}

#[derive(Clone, Copy, Debug, Eq, Ord, PartialEq, PartialOrd, Structural)]
pub enum SignalId {
    FilesystemCompressed,
    ResourceForkAllocated,
    MayShareBlocks,
    VolumeHasSnapshots,
    Sparse,
    Purgeable,
    MultipleHardlinks,
}

#[derive(Clone, Copy, Debug, Eq, Ord, PartialEq, PartialOrd, Structural)]
pub enum ObservationScope {
    Object,
    Inode,
    Volume,
}

#[derive(Clone, Copy, Debug, Eq, Ord, PartialEq, PartialOrd, Structural)]
pub struct SignalObservation {
    pub observation: ObservationKind,
    pub signal: SignalId,
    pub relation: ObservationRelation,
    pub scope: ObservationScope,
}

#[derive(Debug)]
pub enum Advice {
    Command(CommandAdvice),
    Reveal(RevealAdvice),
}

#[derive(Debug)]
pub struct CommandAdvice {
    pub display_command: String,
    pub impact: AdviceImpact,
    pub explanation: String,
    pub reliable_preview_available: bool,
}

#[derive(Debug)]
pub struct RevealAdvice {
    pub normalized_path: String,
    pub recovery_semantics: String,
}

#[derive(Clone, Copy, Debug, Eq, PartialEq, Structural)]
pub enum AdviceImpact {
    Inspect,
    Reversible,
    Destructive,
}

#[derive(Clone, Debug)]
pub struct Measurement {
    pub plane: MeasurementPlane,
    pub quantity: MeasurementQuantity,
    pub basis: MeasurementBasis,
    pub scope: MeasurementScope,
    pub coverage: MeasurementCoverage,
    pub value: MeasurementValue,
}

#[derive(Clone, Copy, Debug, Eq, PartialEq, Structural)]
pub enum MeasurementQuantity {
    LogicalSize,
    AllocatedFootprint,
    DispositionEstimate,
    VendorReportedSize,
    DiskImageLogicalLimit,
    HostAllocatedFootprint,
    DaemonUsed,
    DaemonReclaimable,
    ObjectCount,
    ActiveObjectCount,
}

#[derive(Clone, Copy, Debug, Eq, PartialEq, Structural)]
pub enum MeasurementPlane {
    Capacity,
    ToolchainAttribution,
    DispositionEstimate,
}

#[derive(Clone, Copy, Debug, Eq, PartialEq, Structural)]
pub enum MeasurementBasis {
    LogicalSize,
    AllocatedFootprint,
    PrivateSize,
    VolumeSpaceUsed,
    VendorReported,
    DockerSystemDf,
    PrivateFloorAllocatedCeiling,
}

#[derive(Clone, Debug)]
pub struct MeasurementScope {
    pub kind: MeasurementScopeKind,
    pub id: String,
}

#[derive(Clone, Copy, Debug, Eq, PartialEq, Structural)]
pub enum MeasurementScopeKind {
    Container,
    Volume,
    ToolchainStore,
    ObjectSet,
}

#[derive(Clone, Debug)]
pub struct MeasurementCoverage {
    pub status: MeasurementCoverageStatus,
    pub gap_ids: Vec<String>,
}

impl MeasurementCoverage {
    /// The gap IDs as text.
    pub open spec fn gap_view(&self) -> Seq<Seq<char>> {
        self.gap_ids@.map_values(|g: String| g@)
    }
}

#[derive(Clone, Copy, Debug, Eq, PartialEq, Structural)]
pub enum MeasurementCoverageStatus {
    Complete,
    Partial,
    Unmeasurable,
}

#[derive(Clone, Debug)]
pub enum MeasurementValue {
    ExactBytes { bytes: u64 },
    IntervalBytes {
        floor_bytes: u64,
        ceiling_bytes: Option<u64>,
        applicable_action: DispositionAction,
    },
    RoundedBytes { reported: String, lower_bound_bytes: u64, upper_bound_bytes: u64 },
    ExactCount { count: u64 },
    Unmeasurable,
}

#[derive(Clone, Copy, Debug, Eq, PartialEq, Structural)]
pub struct RoundedBytesError;

#[derive(Clone, Copy, Debug, Eq, PartialEq, Structural)]
pub enum DispositionAction {
    PermanentUnlinkAfterReferencesClose,
}

#[derive(Debug)]
pub struct CoverageGap {
    pub id: String,
    pub plane: MeasurementPlane,
    pub region: String,
    pub path: Option<String>,
    pub status: RegionStatus,
    pub reason: CoverageGapReason,
    pub stage: Option<String>,
    pub errno: Option<i32>,
}

#[derive(Clone, Copy, Debug, Eq, PartialEq, Structural)]
pub enum CoverageGapReason {
    NoAdaptersCompiled,
    RootUnmeasurable,
    AbsentOrChanged,
    AccessDenied,
    PolicyDeniedUnknown,
    UnknownVersion,
    NotReady,
    Disabled,
    ProbeFailed,
    TraversalFailed,
    InvalidToolOutput,
    CoreSimulatorVersionMismatch,
    SimulatorIdentityUnavailable,
    RuntimeSizeUnavailable,
    TimedOut,
    RuleSetInvalid,
    VolumeSnapshotStateUnavailable,
    CaskArtifactOutsidePrefix,
    UnsupportedPathOverride,
    AmbiguousDiskImage,
    DaemonInventoryExcludesInactiveStore,
    ExcludedByUser,
}

#[derive(Clone, Copy, Debug, Eq, Ord, PartialEq, PartialOrd)]
pub struct FileIdentity {
    pub fsid: [i32; 2],
    pub fileid: u64,
}

#[derive(Clone, Copy, Debug, Eq, PartialEq, Structural)]
pub enum ExtentKind {
    FileForks,
    Directory,
    Other,
}

#[derive(Clone, Copy, Debug, Eq, PartialEq, Structural)]
pub enum StorageSignal {
    MayShareBlocks(bool),
    VolumeHasSnapshots(bool),
    ResourceForkAllocated,
    FilesystemCompressed,
    Sparse,
    Purgeable,
}

#[derive(Clone, Debug, Eq, PartialEq)]
pub struct ExtentObservation {
    pub identity: FileIdentity,
    pub kind: ExtentKind,
    pub link_count: u64,
    pub covered_link_count: u64,
    pub allocated_bytes: Option<u64>,
    pub private_bytes: Option<u64>,
    pub signals: Vec<StorageSignal>,
}

#[derive(Clone, Copy, Debug, Eq, PartialEq, Structural)]
pub struct DispositionEstimate {
    pub floor_bytes: u64,
    pub ceiling_bytes: Option<u64>,
    pub has_unmeasurable_objects: bool,
    pub unexplained_private_gap: bool,
}

#[derive(Clone, Copy, Debug, Eq, PartialEq, Structural)]
pub struct MeasurementOverflow;


pub open spec fn relation_rank(r: ObservationRelation) -> int {
    match r {
        ObservationRelation::TestedWidthCorrelate => 0,
        ObservationRelation::PossibleWidthExplanation => 1,
        ObservationRelation::LogicalAllocationGap => 2,
        ObservationRelation::ReclaimPolicy => 3,
        ObservationRelation::DeletionScope => 4,
    }
}

pub open spec fn signal_rank(s: SignalId) -> int {
    match s {
        SignalId::FilesystemCompressed => 0,
        SignalId::ResourceForkAllocated => 1,
        SignalId::MayShareBlocks => 2,
        SignalId::VolumeHasSnapshots => 3,
        SignalId::Sparse => 4,
        SignalId::Purgeable => 5,
        SignalId::MultipleHardlinks => 6,
    }
}

pub open spec fn scope_rank(s: ObservationScope) -> int {
    match s {
        ObservationScope::Object => 0,
        ObservationScope::Inode => 1,
        ObservationScope::Volume => 2,
    }
}

pub open spec fn kind_rank(k: ObservationKind) -> int {
    match k {
        ObservationKind::Direct => 0,
        ObservationKind::Derived => 1,
    }
}

/// The priority of an observation among a finding's: by relation, then signal, then
/// scope.
pub open spec fn observation_priority(o: SignalObservation) -> int {
    relation_rank(o.relation) * 21 + signal_rank(o.signal) * 3 + scope_rank(o.scope)
}

/// The full order of observations: kind, signal, relation, scope.
pub open spec fn observation_rank(o: SignalObservation) -> int {
    kind_rank(o.observation) * 105 + signal_rank(o.signal) * 15 + relation_rank(o.relation) * 3
        + scope_rank(o.scope)
}

pub open spec fn observation_le() -> spec_fn(SignalObservation, SignalObservation) -> bool {
    |a: SignalObservation, b: SignalObservation|
        observation_priority(a) <= observation_priority(b)
}

/// A finding's observations after normalization: stably ordered by relation, signal
/// and scope, with repeated neighbours removed.
pub open spec fn normalized_observations(obs: Seq<SignalObservation>) -> Seq<SignalObservation> {
    dedup_consecutive(sort_stable(obs, observation_le()))
}

/// The relations in the order they are declared.
pub open spec fn declared_relations() -> Seq<ObservationRelation> {
    seq![
        ObservationRelation::TestedWidthCorrelate,
        ObservationRelation::PossibleWidthExplanation,
        ObservationRelation::LogicalAllocationGap,
        ObservationRelation::ReclaimPolicy,
        ObservationRelation::DeletionScope,
    ]
}

/// The signals in the order they are declared.
pub open spec fn declared_signals() -> Seq<SignalId> {
    seq![
        SignalId::FilesystemCompressed,
        SignalId::ResourceForkAllocated,
        SignalId::MayShareBlocks,
        SignalId::VolumeHasSnapshots,
        SignalId::Sparse,
        SignalId::Purgeable,
        SignalId::MultipleHardlinks,
    ]
}

/// The scopes in the order they are declared.
pub open spec fn declared_scopes() -> Seq<ObservationScope> {
    seq![ObservationScope::Object, ObservationScope::Inode, ObservationScope::Volume]
}

/// `a` is declared strictly before `b` in `order`.
pub open spec fn declared_before<T>(order: Seq<T>, a: T, b: T) -> bool {
    exists|p: int, q: int| 0 <= p < q < order.len() && #[trigger] order[p] == a && #[trigger] order[q] == b
}

proof fn lemma_ranks_follow_declaration()
    ensures
        forall|p: int| 0 <= p < 5 ==> relation_rank(#[trigger] declared_relations()[p]) == p,
        forall|p: int| 0 <= p < 7 ==> signal_rank(#[trigger] declared_signals()[p]) == p,
        forall|p: int| 0 <= p < 3 ==> scope_rank(#[trigger] declared_scopes()[p]) == p,
        declared_relations().len() == 5,
        declared_signals().len() == 7,
        declared_scopes().len() == 3,
{
}

/// Normalized observations come in the order of the declarations: no observation is
/// followed by one whose relation is declared earlier; among equal relations none is
/// followed by one whose signal is declared earlier; and among equal relations and
/// signals none by one whose scope is declared earlier. A possible width explanation
/// therefore comes before a deletion scope.
pub proof fn lemma_normalized_observations_follow_declaration_order(obs: Seq<SignalObservation>)
    ensures
        forall|i: int, j: int|
            0 <= i < j < normalized_observations(obs).len() ==> {
                let a = #[trigger] normalized_observations(obs)[i];
                let b = #[trigger] normalized_observations(obs)[j];
                &&& !declared_before(declared_relations(), b.relation, a.relation)
                &&& a.relation == b.relation ==> !declared_before(declared_signals(), b.signal, a.signal)
                &&& a.relation == b.relation && a.signal == b.signal ==> !declared_before(
                    declared_scopes(),
                    b.scope,
                    a.scope,
                )
            },
{
    lemma_normalized_observations_lossless(obs);
    lemma_ranks_follow_declaration();
    let res = normalized_observations(obs);
    assert forall|i: int, j: int| 0 <= i < j < res.len() implies {
        let a = #[trigger] res[i];
        let b = #[trigger] res[j];
        &&& !declared_before(declared_relations(), b.relation, a.relation)
        &&& a.relation == b.relation ==> !declared_before(declared_signals(), b.signal, a.signal)
        &&& a.relation == b.relation && a.signal == b.signal ==> !declared_before(
            declared_scopes(),
            b.scope,
            a.scope,
        )
    } by {
        let a = res[i];
        let b = res[j];
        assert((observation_le())(a, b));
        assert(0 <= signal_rank(a.signal) < 7 && 0 <= signal_rank(b.signal) < 7);
        assert(0 <= scope_rank(a.scope) < 3 && 0 <= scope_rank(b.scope) < 3);
        if declared_before(declared_relations(), b.relation, a.relation) {
            let (p, q) = choose|p: int, q: int| 0 <= p < q < declared_relations().len()
                && #[trigger] declared_relations()[p] == b.relation && #[trigger] declared_relations()[q] == a.relation;
            assert(relation_rank(b.relation) == p && relation_rank(a.relation) == q);
        }
        if a.relation == b.relation && declared_before(declared_signals(), b.signal, a.signal) {
            let (p, q) = choose|p: int, q: int| 0 <= p < q < declared_signals().len()
                && #[trigger] declared_signals()[p] == b.signal && #[trigger] declared_signals()[q] == a.signal;
            assert(signal_rank(b.signal) == p && signal_rank(a.signal) == q);
        }
        if a.relation == b.relation && a.signal == b.signal && declared_before(declared_scopes(), b.scope, a.scope) {
            let (p, q) = choose|p: int, q: int| 0 <= p < q < declared_scopes().len()
                && #[trigger] declared_scopes()[p] == b.scope && #[trigger] declared_scopes()[q] == a.scope;
            assert(scope_rank(b.scope) == p && scope_rank(a.scope) == q);
        }
    }
}

/// Normalization is lossless: a finding's normalized observations hold every
/// observation it was given and nothing else, ordered by relation, signal and scope.
/// Only a repeat that sits next to its equal after that ordering is dropped.
pub proof fn lemma_normalized_observations_lossless(obs: Seq<SignalObservation>)
    ensures
        forall|o: SignalObservation| normalized_observations(obs).contains(o) <==> obs.contains(o),
        sorted_by(normalized_observations(obs), observation_le()),
{
    broadcast use vstd::seq_lib::group_to_multiset_ensures;

    let le = observation_le();
    assert(total_preorder(le));
    let sorted = sort_stable(obs, le);
    lemma_sort_sorted(obs, le);
    lemma_sort_multiset(obs, le);
    lemma_dedup_keeps_every_element(sorted);
    assert forall|o: SignalObservation| sorted.contains(o) <==> obs.contains(o) by {
        assert(sorted.to_multiset().count(o) == obs.to_multiset().count(o));
    }
    lemma_dedup_keeps_order(sorted, le);
}

pub open spec fn spec_signal_summary(s: SignalId) -> Seq<char> {
    match s {
        SignalId::FilesystemCompressed => "compressed storage makes the private floor uninformative"@,
        SignalId::ResourceForkAllocated => "resource-fork allocation is correlated with private-floor uncertainty"@,
        SignalId::MayShareBlocks => "clone sharing may contribute to allocation uncertainty"@,
        SignalId::VolumeHasSnapshots => "volume snapshots may contribute to allocation uncertainty"@,
        SignalId::Sparse => "sparse allocation explains part of the logical-size gap"@,
        SignalId::Purgeable => "the filesystem marks some content as purgeable"@,
        SignalId::MultipleHardlinks => "multiple hardlinks widen the deletion scope"@,
    }
}

/// The summary of a finding: that of its first observation, or a fixed sentence
/// when it has none.
pub open spec fn summary_text(obs: Seq<SignalObservation>) -> Seq<char> {
    if obs.len() == 0 {
        "no allocation signal observed"@
    } else {
        spec_signal_summary(obs[0].signal)
    }
}

/// The order of findings: those with observations first, then by the relation,
/// signal and scope of their first observation, then by ID.
pub open spec fn finding_le() -> spec_fn(Finding, Finding) -> bool {
    |a: Finding, b: Finding|
        {
            let ea = a.observations@.len() == 0;
            let eb = b.observations@.len() == 0;
            if ea != eb {
                !ea
            } else if !ea && observation_priority(a.observations@[0]) != observation_priority(
                b.observations@[0],
            ) {
                observation_priority(a.observations@[0]) < observation_priority(b.observations@[0])
            } else {
                lex_order(a.id@, b.id@) <= 0
            }
        }
}

/// The order of findings is a total preorder.
pub proof fn lemma_finding_order_total()
    ensures
        total_preorder(finding_le()),
{
    let le = finding_le();
    assert forall|x: Finding, y: Finding| #[trigger] le(x, y) || le(y, x) by {
        crate::order::lemma_lex_antisymmetric(x.id@, y.id@);
    }
    assert forall|x: Finding, y: Finding, z: Finding|
        #[trigger] le(x, y) && #[trigger] le(y, z) implies le(x, z) by {
        if lex_order(x.id@, y.id@) <= 0 && lex_order(y.id@, z.id@) <= 0 {
            crate::order::lemma_lex_transitive(x.id@, y.id@, z.id@);
        }
    }
}

/// Normalized findings with distinct IDs come out in one order, whatever order they
/// were discovered in.
pub proof fn lemma_findings_ignore_discovery_order(a: Seq<Finding>, b: Seq<Finding>)
    requires
        a.to_multiset() == b.to_multiset(),
        forall|i: int, j: int| 0 <= i < a.len() && 0 <= j < a.len() && i != j ==> a[i].id@ != a[j].id@,
    ensures
        sort_stable(a, finding_le()) == sort_stable(b, finding_le()),
{
    let le = finding_le();
    assert forall|x: Finding, y: Finding| #[trigger] le(x, y) || le(y, x) by {
        crate::order::lemma_lex_antisymmetric(x.id@, y.id@);
    }
    assert forall|x: Finding, y: Finding, z: Finding|
        #[trigger] le(x, y) && #[trigger] le(y, z) implies le(x, z) by {
        if lex_order(x.id@, y.id@) <= 0 && lex_order(y.id@, z.id@) <= 0 {
            crate::order::lemma_lex_transitive(x.id@, y.id@, z.id@);
        }
    }
    assert forall|i: int, j: int|
        0 <= i < a.len() && 0 <= j < a.len() && le(#[trigger] a[i], #[trigger] a[j]) && le(a[j], a[i])
            implies a[i] == a[j] by {
        crate::order::lemma_lex_antisymmetric(a[i].id@, a[j].id@);
    }
    crate::order::lemma_sort_ignores_arrival_order(a, b, le);
}

/// `f` is one of `before`, normalized.
pub open spec fn normalized_from_one_of(before: Seq<Finding>, f: Finding) -> bool {
    exists|i: int| 0 <= i < before.len() && #[trigger] finding_normalized(before[i], f)
}

/// Normalization only reorders findings: what `normalize_findings` leaves holds the
/// normalized findings, each once, as many as it was given; every finding that comes
/// out is one that went in with its observations normalized and its summary
/// restated, every other field kept.
pub proof fn lemma_normalize_only_reorders(before: Seq<Finding>, norm: Seq<Finding>)
    requires
        norm.len() == before.len(),
        forall|i: int| 0 <= i < norm.len() ==> finding_normalized(#[trigger] before[i], norm[i]),
    ensures
        sort_stable(norm, finding_le()).to_multiset() == norm.to_multiset(),
        sort_stable(norm, finding_le()).len() == before.len(),
        sorted_by(sort_stable(norm, finding_le()), finding_le()),
        forall|j: int|
            0 <= j < before.len() ==> normalized_from_one_of(
                before,
                #[trigger] sort_stable(norm, finding_le())[j],
            ),
{
    broadcast use vstd::seq_lib::group_to_multiset_ensures;

    let after = sort_stable(norm, finding_le());
    lemma_sort_multiset(norm, finding_le());
    crate::order::lemma_sort_len(norm, finding_le());
    lemma_finding_order_total();
    lemma_sort_sorted(norm, finding_le());
    assert forall|j: int| 0 <= j < before.len() implies normalized_from_one_of(
        before,
        #[trigger] after[j],
    ) by {
        assert(after.contains(after[j]));
        assert(after.to_multiset().count(after[j]) > 0);
        assert(norm.contains(after[j]));
        let i = choose|i: int| 0 <= i < norm.len() && norm[i] == after[j];
        assert(finding_normalized(before[i], after[j]));
    }
    assert(after.len() == before.len());
}

/// `after` is `before` with its observations normalized and its summary restated.
pub open spec fn finding_normalized(before: Finding, after: Finding) -> bool {
    &&& after.id == before.id
    &&& after.adapter_id == before.adapter_id
    &&& after.rule_id == before.rule_id
    &&& after.title == before.title
    &&& after.subject == before.subject
    &&& after.mechanism == before.mechanism
    &&& after.recoverability == before.recoverability
    &&& after.sensitivity == before.sensitivity
    &&& after.evidence == before.evidence
    &&& after.unexplained_private_gap == before.unexplained_private_gap
    &&& after.measurements == before.measurements
    &&& after.advice == before.advice
    &&& after.observations@ == normalized_observations(before.observations@)
    &&& after.summary@ == summary_text(after.observations@)
}

fn relation_index(r: ObservationRelation) -> (n: u8)
    ensures
        n as int == relation_rank(r),
{
    match r {
        ObservationRelation::TestedWidthCorrelate => 0,
        ObservationRelation::PossibleWidthExplanation => 1,
        ObservationRelation::LogicalAllocationGap => 2,
        ObservationRelation::ReclaimPolicy => 3,
        ObservationRelation::DeletionScope => 4,
    }
}

fn signal_index(s: SignalId) -> (n: u8)
    ensures
        n as int == signal_rank(s),
{
    match s {
        SignalId::FilesystemCompressed => 0,
        SignalId::ResourceForkAllocated => 1,
        SignalId::MayShareBlocks => 2,
        SignalId::VolumeHasSnapshots => 3,
        SignalId::Sparse => 4,
        SignalId::Purgeable => 5,
        SignalId::MultipleHardlinks => 6,
    }
}

fn scope_index(s: ObservationScope) -> (n: u8)
    ensures
        n as int == scope_rank(s),
{
    match s {
        ObservationScope::Object => 0,
        ObservationScope::Inode => 1,
        ObservationScope::Volume => 2,
    }
}

fn kind_index(k: ObservationKind) -> (n: u8)
    ensures
        n as int == kind_rank(k),
{
    match k {
        ObservationKind::Direct => 0,
        ObservationKind::Derived => 1,
    }
}

fn priority_of(o: SignalObservation) -> (n: u32)
    ensures
        n as int == observation_priority(o),
{
    relation_index(o.relation) as u32 * 21 + signal_index(o.signal) as u32 * 3 + scope_index(
        o.scope,
    ) as u32
}

pub fn rank_of(o: SignalObservation) -> (n: u32)
    ensures
        n as int == observation_rank(o),
{
    kind_index(o.observation) as u32 * 105 + signal_index(o.signal) as u32 * 15 + relation_index(
        o.relation,
    ) as u32 * 3 + scope_index(o.scope) as u32
}

/// Orders observations stably by relation, signal and scope, and drops repeated neighbours.
pub fn normalize_observations(obs: &Vec<SignalObservation>) -> (r: Vec<SignalObservation>)
    ensures
        r@ == normalized_observations(obs@),
{
    let mut sorted: Vec<SignalObservation> = Vec::new();
    let mut i: usize = 0;
    while i < obs.len()
        invariant
            i <= obs.len(),
            sorted@ == sort_stable(obs@.subrange(0, i as int), observation_le()),
        decreases obs.len() - i,
    {
        let x = obs[i];
        let kx = priority_of(x);
        let mut j: usize = sorted.len();
        while j > 0 && priority_of(sorted[j - 1]) > kx
            invariant
                j <= sorted.len(),
                kx as int == observation_priority(x),
                forall|k: int|
                    j <= k < sorted@.len() ==> !(observation_le())(#[trigger] sorted@[k], x),
            decreases j,
        {
            j = j - 1;
        }
        proof {
            lemma_insert_at(sorted@, x, observation_le(), j as int);
            let next = obs@.subrange(0, i + 1);
            assert(next.drop_last() =~= obs@.subrange(0, i as int));
        }
        sorted.insert(j, x);
        i = i + 1;
    }
    assert(obs@.subrange(0, obs@.len() as int) =~= obs@);
    let mut out: Vec<SignalObservation> = Vec::new();
    let mut k: usize = 0;
    while k < sorted.len()
        invariant
            k <= sorted.len(),
            out@ == dedup_consecutive(sorted@.subrange(0, k as int)),
        decreases sorted.len() - k,
    {
        let ghost next = sorted@.subrange(0, k + 1);
        assert(next.drop_last() =~= sorted@.subrange(0, k as int));
        if k == 0 || sorted[k] != sorted[k - 1] {
            out.push(sorted[k]);
        }
        k = k + 1;
    }
    assert(sorted@.subrange(0, sorted@.len() as int) =~= sorted@);
    out
}

pub fn signal_summary(observation: &SignalObservation) -> (r: String)
    ensures
        r@ == spec_signal_summary(observation.signal),
{
    match observation.signal {
        SignalId::FilesystemCompressed => "compressed storage makes the private floor uninformative".to_owned(),
        SignalId::ResourceForkAllocated => "resource-fork allocation is correlated with private-floor uncertainty".to_owned(),
        SignalId::MayShareBlocks => "clone sharing may contribute to allocation uncertainty".to_owned(),
        SignalId::VolumeHasSnapshots => "volume snapshots may contribute to allocation uncertainty".to_owned(),
        SignalId::Sparse => "sparse allocation explains part of the logical-size gap".to_owned(),
        SignalId::Purgeable => "the filesystem marks some content as purgeable".to_owned(),
        SignalId::MultipleHardlinks => "multiple hardlinks widen the deletion scope".to_owned(),
    }
}

fn finding_le_exec(a: &Finding, b: &Finding) -> (r: bool)
    ensures
        r == (finding_le())(*a, *b),
{
    let ea = a.observations.len() == 0;
    let eb = b.observations.len() == 0;
    if ea != eb {
        return !ea;
    }
    if !ea {
        let ra = priority_of(a.observations[0]);
        let rb = priority_of(b.observations[0]);
        if ra != rb {
            return ra < rb;
        }
    }
    let ac = chars_of(a.id.as_str());
    let bc = chars_of(b.id.as_str());
    compare_chars(ac.as_slice(), bc.as_slice()) <= 0
}

/// Normalizes every finding's observations and summary, then orders the findings:
/// findings with observations first, by the relation, signal and scope of their first
/// observation, then by ID.
pub fn normalize_findings(findings: &mut Vec<Finding>)
    ensures
        exists|norm: Seq<Finding>|
            {
                &&& norm.len() == old(findings)@.len()
                &&& forall|i: int|
                    0 <= i < norm.len() ==> finding_normalized(
                        #[trigger] old(findings)@[i],
                        norm[i],
                    )
                &&& final(findings)@ == sort_stable(norm, finding_le())
            },
{
    let mut pending: Vec<Finding> = Vec::new();
    std::mem::swap(findings, &mut pending);
    let ghost input = pending@;
    let ghost n = pending@.len();
    let ghost mut norm: Seq<Finding> = Seq::empty();
    let mut sorted: Vec<Finding> = Vec::new();
    while pending.len() > 0
        invariant
            input.len() == n,
            norm.len() + pending@.len() == n,
            pending@ == input.subrange(norm.len() as int, n as int),
            forall|i: int| 0 <= i < norm.len() ==> finding_normalized(#[trigger] input[i], norm[i]),
            sorted@ == sort_stable(norm, finding_le()),
        decreases pending.len(),
    {
        let ghost idx: int = norm.len() as int;
        let mut f = pending.remove(0);
        assert(f == input[idx as int]);
        let obs = normalize_observations(&f.observations);
        proof {
            lemma_dedup_head(sort_stable(f.observations@, observation_le()));
        }
        let summary = if obs.len() == 0 {
            "no allocation signal observed".to_owned()
        } else {
            signal_summary(&obs[0])
        };
        f.summary = summary;
        f.observations = obs;
        let mut j: usize = sorted.len();
        while j > 0 && !finding_le_exec(&sorted[j - 1], &f)
            invariant
                j <= sorted.len(),
                forall|k: int| j <= k < sorted@.len() ==> !(finding_le())(#[trigger] sorted@[k], f),
            decreases j,
        {
            j = j - 1;
        }
        proof {
            lemma_insert_at(sorted@, f, finding_le(), j as int);
            let next = norm.push(f);
            assert(next.drop_last() =~= norm);
            assert(pending@ =~= input.subrange(idx + 1 as int, n as int));
            norm = next;
        }
        sorted.insert(j, f);
    }
    *findings = sorted;
}


/// ASCII whitespace as `u8::is_ascii_whitespace` defines it.
pub open spec fn is_ascii_ws(c: char) -> bool {
    c == ' ' || c == '\t' || c == '\n' || c == '\x0C' || c == '\r'
}

/// The non-empty runs of non-whitespace characters, in order.
pub open spec fn ws_fields(s: Seq<char>) -> Seq<Seq<char>>
    decreases s.len(),
{
    if s.len() == 0 {
        Seq::empty()
    } else {
        let rest = ws_fields(s.drop_last());
        let c = s.last();
        if is_ascii_ws(c) {
            rest
        } else if s.len() >= 2 && !is_ascii_ws(s[s.len() - 2]) {
            rest.update(rest.len() - 1, rest.last().push(c))
        } else {
            rest.push(seq![c])
        }
    }
}

proof fn lemma_ws_fields_nonempty(s: Seq<char>)
    requires
        s.len() > 0,
        !is_ascii_ws(s.last()),
    ensures
        ws_fields(s).len() > 0,
    decreases s.len(),
{
    if s.len() >= 2 && !is_ascii_ws(s[s.len() - 2]) {
        lemma_ws_fields_nonempty(s.drop_last());
    }
}

/// A vendor percentage annotation: `(`, at least one digit, `%)`.
pub open spec fn percent_ok(p: Seq<char>) -> bool {
    p.len() > 3 && p[0] == '(' && p[p.len() - 2] == '%' && p[p.len() - 1] == ')' && all_digits(
        p.subrange(1, p.len() - 2),
    )
}

pub open spec fn ends_with_unit(t: Seq<char>, first: char) -> bool {
    t.len() >= 2 && t[t.len() - 2] == first && t[t.len() - 1] == 'B'
}

/// The first decimal unit suffix that `t` ends with, tried from `EB` down to `B`,
/// and the number before it.
pub open spec fn unit_split(t: Seq<char>) -> Option<(Seq<char>, int)> {
    if ends_with_unit(t, 'E') {
        Some((t.subrange(0, t.len() - 2), 1_000_000_000_000_000_000))
    } else if ends_with_unit(t, 'P') {
        Some((t.subrange(0, t.len() - 2), 1_000_000_000_000_000))
    } else if ends_with_unit(t, 'T') {
        Some((t.subrange(0, t.len() - 2), 1_000_000_000_000))
    } else if ends_with_unit(t, 'G') {
        Some((t.subrange(0, t.len() - 2), 1_000_000_000))
    } else if ends_with_unit(t, 'M') {
        Some((t.subrange(0, t.len() - 2), 1_000_000))
    } else if ends_with_unit(t, 'k') {
        Some((t.subrange(0, t.len() - 2), 1_000))
    } else if t.len() >= 1 && t[t.len() - 1] == 'B' {
        Some((t.subrange(0, t.len() - 1), 1))
    } else {
        None
    }
}

pub open spec fn count_char(s: Seq<char>, c: char) -> nat
    decreases s.len(),
{
    if s.len() == 0 {
        0
    } else {
        count_char(s.drop_last(), c) + if s.last() == c {
            1nat
        } else {
            0nat
        }
    }
}

/// The index of the first `c` in `s`, or the length of `s` when there is none.
pub open spec fn first_index(s: Seq<char>, c: char) -> int
    decreases s.len(),
{
    if s.len() == 0 {
        0
    } else if s[0] == c {
        0
    } else {
        1 + first_index(s.drop_first(), c)
    }
}

pub open spec fn pow10(n: nat) -> int
    decreases n,
{
    if n == 0 {
        1
    } else {
        10 * pow10((n - 1) as nat)
    }
}

/// The pieces of a rounded vendor size: the whole digits, the fraction digits and
/// the unit in bytes, when the text is one token with an optional `(NN%)` and the
/// token is a decimal number followed by a unit.
pub open spec fn rounded_token(reported: Seq<char>) -> Option<(Seq<char>, Seq<char>, int)> {
    let fields = ws_fields(reported);
    if fields.len() == 0 || fields.len() > 2 || (fields.len() == 2 && !percent_ok(fields[1])) {
        None
    } else {
        match unit_split(fields[0]) {
            None => None,
            Some((number, unit)) => {
                let dot = first_index(number, '.');
                let whole = number.subrange(0, dot);
                let fraction = if dot < number.len() {
                    number.subrange(dot + 1, number.len() as int)
                } else {
                    Seq::<char>::empty()
                };
                if count_char(number, '.') > 1 || whole.len() == 0 || !all_digits(whole)
                    || !all_digits(fraction) {
                    None
                } else {
                    Some((whole, fraction, unit))
                }
            },
        }
    }
}

/// The byte range of `whole.fraction` units: one unit either side of the written
/// value, scaled by its decimal places, floored and ceilinged to whole bytes; exact
/// for a whole number of bytes. `None` when a value does not fit in 64 bits.
pub open spec fn rounded_range(whole: Seq<char>, fraction: Seq<char>, unit: int) -> Option<
    (int, int),
> {
    let scale = pow10(fraction.len());
    let mantissa = decimal_value(whole + fraction);
    let center = mantissa * unit;
    if scale > u64::MAX || mantissa > u64::MAX || center > u64::MAX {
        None
    } else if unit == 1 && fraction.len() == 0 {
        Some((center, center))
    } else if center + unit + scale - 1 > u64::MAX {
        None
    } else {
        Some(
            (
                if center >= unit {
                    (center - unit) / scale
                } else {
                    0
                },
                (center + unit + scale - 1) / scale,
            ),
        )
    }
}

/// The byte range that a rounded vendor size such as `2.498GB (94%)` stands for.
pub open spec fn spec_rounded_bounds(reported: Seq<char>) -> Option<(int, int)> {
    match rounded_token(reported) {
        None => None,
        Some((whole, fraction, unit)) => rounded_range(whole, fraction, unit),
    }
}

fn is_ascii_ws_exec(c: char) -> (r: bool)
    ensures
        r == is_ascii_ws(c),
{
    c == ' ' || c == '\t' || c == '\n' || c == '\x0C' || c == '\r'
}

fn split_fields(s: &[char]) -> (r: Vec<Vec<char>>)
    ensures
        r.deep_view() == ws_fields(s@),
{
    let mut fields: Vec<Vec<char>> = Vec::new();
    let mut i: usize = 0;
    while i < s.len()
        invariant
            i <= s.len(),
            fields.deep_view() == ws_fields(s@.subrange(0, i as int)),
        decreases s.len() - i,
    {
        let ghost prev = s@.subrange(0, i as int);
        let ghost next = s@.subrange(0, i + 1);
        assert(next.drop_last() =~= prev);
        let c = s[i];
        if is_ascii_ws_exec(c) {
        } else if i >= 1 && !is_ascii_ws_exec(s[i - 1]) {
            proof {
                assert(next[next.len() - 2] == s@[i - 1]);
                assert(prev.last() == s@[i - 1]);
                lemma_ws_fields_nonempty(prev);
            }
            let last = fields.len() - 1;
            proof {
                lemma_dv_index(&fields, last as int);
            }
            let mut tail = fields.pop().unwrap();
            let ghost before = fields.deep_view();
            proof {
                assert(before =~= ws_fields(prev).drop_last());
            }
            tail.push(c);
            fields.push(tail);
            proof {
                lemma_dv_index(&fields, last as int);
                assert(fields.deep_view() =~= ws_fields(prev).update(
                    ws_fields(prev).len() - 1,
                    ws_fields(prev).last().push(c),
                ));
            }
        } else {
            let ghost before = fields.deep_view();
            let mut one: Vec<char> = Vec::new();
            one.push(c);
            fields.push(one);
            proof {
                lemma_dv_index(&fields, fields.len() - 1);
                assert(fields.deep_view() =~= before.push(seq![c]));
            }
        }
        i = i + 1;
    }
    assert(s@.subrange(0, s@.len() as int) =~= s@);
    fields
}

fn percent_ok_exec(p: &[char]) -> (r: bool)
    ensures
        r == percent_ok(p@),
{
    if p.len() <= 3 || p[0] != '(' || p[p.len() - 2] != '%' || p[p.len() - 1] != ')' {
        return false;
    }
    let mut i: usize = 1;
    while i < p.len() - 2
        invariant
            3 < p.len(),
            1 <= i <= p.len() - 2,
            forall|k: int| 1 <= k < i ==> is_digit(#[trigger] p@[k]),
        decreases p.len() - i,
    {
        if !('0' <= p[i] && p[i] <= '9') {
            assert(!is_digit(p@.subrange(1, p@.len() - 2)[i - 1]));
            return false;
        }
        i = i + 1;
    }
    assert forall|k: int| 0 <= k < p@.len() - 3 implies is_digit(
        #[trigger] p@.subrange(1, p@.len() - 2)[k],
    ) by {
        assert(p@.subrange(1, p@.len() - 2)[k] == p@[k + 1]);
    }
    true
}

fn prefix_chars(t: &[char], n: usize) -> (r: Vec<char>)
    requires
        n <= t.len(),
    ensures
        r@ == t@.subrange(0, n as int),
{
    let mut out: Vec<char> = Vec::new();
    let mut i: usize = 0;
    while i < n
        invariant
            n <= t.len(),
            i <= n,
            out@ =~= t@.subrange(0, i as int),
        decreases n - i,
    {
        out.push(t[i]);
        i = i + 1;
    }
    out
}

fn suffix_chars(t: &[char], n: usize) -> (r: Vec<char>)
    requires
        n <= t.len(),
    ensures
        r@ == t@.subrange(n as int, t@.len() as int),
{
    let mut out: Vec<char> = Vec::new();
    let mut i: usize = n;
    while i < t.len()
        invariant
            n <= i <= t.len(),
            out@ =~= t@.subrange(n as int, i as int),
        decreases t.len() - i,
    {
        out.push(t[i]);
        i = i + 1;
    }
    out
}

fn unit_split_exec(t: &[char]) -> (r: Option<(Vec<char>, u64)>)
    ensures
        match unit_split(t@) {
            None => r is None,
            Some((number, unit)) => r matches Some((n, u)) && n@ == number && u as int == unit,
        },
{
    let n = t.len();
    if n >= 2 && t[n - 1] == 'B' {
        let first = t[n - 2];
        let unit: u64 = if first == 'E' {
            1_000_000_000_000_000_000
        } else if first == 'P' {
            1_000_000_000_000_000
        } else if first == 'T' {
            1_000_000_000_000
        } else if first == 'G' {
            1_000_000_000
        } else if first == 'M' {
            1_000_000
        } else if first == 'k' {
            1_000
        } else {
            1
        };
        if unit != 1 {
            return Some((prefix_chars(t, n - 2), unit));
        }
    }
    if n >= 1 && t[n - 1] == 'B' {
        return Some((prefix_chars(t, n - 1), 1));
    }
    None
}

/// Reads a rounded vendor size such as `2.498GB (94%)` as the byte range it stands for.
pub fn rounded_bytes(reported: &str) -> (r: Result<MeasurementValue, RoundedBytesError>)
    ensures
        match r {
            Ok(MeasurementValue::RoundedBytes { reported: text, lower_bound_bytes, upper_bound_bytes }) => {
                &&& text@ == reported@
                &&& spec_rounded_bounds(reported@) == Some(
                    (lower_bound_bytes as int, upper_bound_bytes as int),
                )
            },
            Ok(_) => false,
            Err(_) => spec_rounded_bounds(reported@) is None,
        },
{
    let chars = chars_of(reported);
    let fields = split_fields(chars.as_slice());
    if fields.len() == 0 || fields.len() > 2 {
        return Err(RoundedBytesError);
    }
    proof {
        lemma_dv_index(&fields, 0);
    }
    if fields.len() == 2 {
        proof {
            lemma_dv_index(&fields, 1);
        }
        if !percent_ok_exec(fields[1].as_slice()) {
            return Err(RoundedBytesError);
        }
    }
    let (number, unit) = match unit_split_exec(fields[0].as_slice()) {
        Some(split) => split,
        None => return Err(RoundedBytesError),
    };
    let mut dots: usize = 0;
    let mut dot: usize = number.len();
    let mut i: usize = 0;
    while i < number.len()
        invariant
            i <= number.len(),
            dots as int == count_char(number@.subrange(0, i as int), '.'),
            dot <= number.len(),
            dots <= i,
            dot == number.len() ==> dots == 0,
            dots == 0 ==> dot == number.len(),
            dots > 0 ==> dot < i && dot as int == first_index(number@, '.'),
            dots == 0 ==> forall|k: int| 0 <= k < i ==> number@[k] != '.',
        decreases number.len() - i,
    {
        let ghost next = number@.subrange(0, i + 1);
        assert(next.drop_last() =~= number@.subrange(0, i as int));
        if number[i] == '.' {
            if dots == 0 {
                dot = i;
                proof {
                    lemma_first_index_at(number@, '.', i as int);
                }
            }
            dots = dots + 1;
        }
        i = i + 1;
    }
    assert(number@.subrange(0, number@.len() as int) =~= number@);
    proof {
        if dots == 0 {
            lemma_first_index_absent(number@, '.');
        }
    }
    if dots > 1 {
        return Err(RoundedBytesError);
    }
    let whole = prefix_chars(number.as_slice(), dot);
    let fraction = if dot < number.len() {
        suffix_chars(number.as_slice(), dot + 1)
    } else {
        Vec::new()
    };
    proof {
        assert(fields.deep_view()[0] == fields@[0]@);
        let sf = ws_fields(reported@);
        assert(sf == fields.deep_view());
        assert(unit_split(sf[0]) == Some((number@, unit as int)));
        assert(dot as int == first_index(number@, '.'));
        assert(whole@ == number@.subrange(0, dot as int));
        assert(count_char(number@, '.') == dots);
        assert(!(sf.len() == 0 || sf.len() > 2 || (sf.len() == 2 && !percent_ok(sf[1]))));
    }
    if whole.len() == 0 || !all_digits_exec(whole.as_slice()) || !all_digits_exec(
        fraction.as_slice(),
    ) {
        return Err(RoundedBytesError);
    }
    assert(rounded_token(reported@) == Some((whole@, fraction@, unit as int)));
    let mut scale: u64 = 1;
    let mut k: usize = 0;
    while k < fraction.len()
        invariant
            k <= fraction.len(),
            scale as int == pow10(k as nat),
            scale >= 1,
            rounded_token(reported@) == Some((whole@, fraction@, unit as int)),
        decreases fraction.len() - k,
    {
        scale = match scale.checked_mul(10) {
            Some(v) => v,
            None => {
                proof {
                    lemma_pow10_mono(k as nat + 1, fraction@.len());
                    assert(pow10(k as nat + 1) == 10 * pow10(k as nat));
                    assert(pow10(fraction@.len()) > u64::MAX);
                }
                return Err(RoundedBytesError);
            },
        };
        k = k + 1;
    }
    let mut digits = copy_chars_vec(&whole);
    extend_chars(&mut digits, fraction.as_slice());
    proof {
        assert forall|j: int| 0 <= j < digits@.len() implies is_digit(#[trigger] digits@[j]) by {
            if j < whole@.len() {
                assert(digits@[j] == whole@[j]);
            } else {
                assert(digits@[j] == fraction@[j - whole@.len()]);
            }
        }
        assert(digits@[0] != '+');
    }
    assert(digits@ =~= whole@ + fraction@);
    assert(digits@.len() > 0 && is_digit(digits@[0]) && digits@[0] != '+');
    proof {
        crate::text::lemma_decimal_nonneg(digits@);
    }
    assert(spec_parse_u64(digits@) == (if decimal_value(digits@) <= u64::MAX {
        Some(decimal_value(digits@) as u64)
    } else {
        None
    }));
    let mantissa = match parse_u64(digits.as_slice()) {
        Some(v) => v,
        None => return Err(RoundedBytesError),
    };
    assert(mantissa as int == decimal_value(whole@ + fraction@));
    let center = match mantissa.checked_mul(unit) {
        Some(v) => v,
        None => return Err(RoundedBytesError),
    };
    let (lower, upper) = if unit == 1 && fraction.len() == 0 {
        (center, center)
    } else {
        let lower = center.saturating_sub(unit) / scale;
        let upper_numerator = match center.checked_add(unit) {
            Some(v) => match v.checked_add(scale - 1) {
                Some(w) => w,
                None => return Err(RoundedBytesError),
            },
            None => return Err(RoundedBytesError),
        };
        (lower, upper_numerator / scale)
    };
    Ok(
        MeasurementValue::RoundedBytes {
            reported: reported.to_owned(),
            lower_bound_bytes: lower,
            upper_bound_bytes: upper,
        },
    )
}

fn copy_chars_vec(v: &Vec<char>) -> (r: Vec<char>)
    ensures
        r@ == v@,
{
    crate::paths::copy_chars(v.as_slice())
}

fn all_digits_exec(s: &[char]) -> (r: bool)
    ensures
        r == all_digits(s@),
{
    let mut i: usize = 0;
    while i < s.len()
        invariant
            i <= s.len(),
            forall|k: int| 0 <= k < i ==> is_digit(#[trigger] s@[k]),
        decreases s.len() - i,
    {
        if !('0' <= s[i] && s[i] <= '9') {
            return false;
        }
        i = i + 1;
    }
    true
}

proof fn lemma_first_index_at(s: Seq<char>, c: char, i: int)
    requires
        0 <= i < s.len(),
        s[i] == c,
        forall|k: int| 0 <= k < i ==> s[k] != c,
    ensures
        first_index(s, c) == i,
    decreases i,
{
    if i > 0 {
        lemma_first_index_at(s.drop_first(), c, i - 1);
    }
}

proof fn lemma_first_index_absent(s: Seq<char>, c: char)
    requires
        forall|k: int| 0 <= k < s.len() ==> s[k] != c,
    ensures
        first_index(s, c) == s.len(),
    decreases s.len(),
{
    if s.len() > 0 {
        lemma_first_index_absent(s.drop_first(), c);
    }
}

proof fn lemma_pow10_mono(a: nat, b: nat)
    requires
        a <= b,
    ensures
        pow10(a) <= pow10(b),
        pow10(a) >= 1,
    decreases b,
{
    if b > a {
        lemma_pow10_mono(a, (b - 1) as nat);
    } else if a > 0 {
        lemma_pow10_mono((a - 1) as nat, (a - 1) as nat);
    }
}


/// Two identities name the same inode: same physical filesystem and same file ID.
pub open spec fn same_identity(a: FileIdentity, b: FileIdentity) -> bool {
    a.fsid[0] == b.fsid[0] && a.fsid[1] == b.fsid[1] && a.fileid == b.fileid
}

/// The order of identities: by filesystem ID, then file ID.
pub open spec fn identity_lt(a: FileIdentity, b: FileIdentity) -> bool {
    a.fsid[0] < b.fsid[0] || (a.fsid[0] == b.fsid[0] && (a.fsid[1] < b.fsid[1] || (a.fsid[1]
        == b.fsid[1] && a.fileid < b.fileid)))
}

/// Entry `i` is a file-forks extent and the first such entry for its inode; later
/// entries for the same inode are duplicates.
pub open spec fn first_file_forks(obs: Seq<ExtentObservation>, i: int) -> bool {
    &&& obs[i].kind == ExtentKind::FileForks
    &&& forall|j: int|
        0 <= j < i ==> !(obs[j].kind == ExtentKind::FileForks && same_identity(
            #[trigger] obs[j].identity,
            obs[i].identity,
        ))
}

/// The private floor counts an inode only when no snapshot may have appeared since
/// the scan and every one of its hardlinks is in the set.
pub open spec fn floor_eligible(obs: Seq<ExtentObservation>, i: int, snapshots_stable: bool) -> bool {
    first_file_forks(obs, i) && snapshots_stable && obs[i].covered_link_count
        >= obs[i].link_count
}

pub open spec fn floor_part(obs: Seq<ExtentObservation>, i: int, snapshots_stable: bool) -> int {
    if floor_eligible(obs, i, snapshots_stable) && obs[i].private_bytes is Some {
        obs[i].private_bytes->0 as int
    } else {
        0
    }
}

pub open spec fn floor_sum(obs: Seq<ExtentObservation>, snapshots_stable: bool, n: int) -> int
    decreases n,
{
    if n <= 0 {
        0
    } else {
        floor_sum(obs, snapshots_stable, n - 1) + floor_part(obs, n - 1, snapshots_stable)
    }
}

/// Entry `i` is ordered before every inode whose allocated size is missing.
pub open spec fn before_missing_allocation(obs: Seq<ExtentObservation>, i: int) -> bool {
    forall|j: int|
        0 <= j < obs.len() && first_file_forks(obs, j) && #[trigger] obs[j].allocated_bytes is None
            ==> identity_lt(obs[i].identity, obs[j].identity)
}

/// The allocated bytes counted toward the ceiling: those of the inodes ordered before
/// the first inode whose allocation is missing (all of them when none is missing).
pub open spec fn ceiling_part(obs: Seq<ExtentObservation>, i: int) -> int {
    if first_file_forks(obs, i) && obs[i].allocated_bytes is Some && before_missing_allocation(
        obs,
        i,
    ) {
        obs[i].allocated_bytes->0 as int
    } else {
        0
    }
}

pub open spec fn ceiling_sum(obs: Seq<ExtentObservation>, n: int) -> int
    decreases n,
{
    if n <= 0 {
        0
    } else {
        ceiling_sum(obs, n - 1) + ceiling_part(obs, n - 1)
    }
}

pub open spec fn allocation_missing(obs: Seq<ExtentObservation>) -> bool {
    exists|i: int|
        0 <= i < obs.len() && first_file_forks(obs, i) && #[trigger] obs[i].allocated_bytes is None
}

pub open spec fn private_missing(obs: Seq<ExtentObservation>, snapshots_stable: bool) -> bool {
    exists|i: int|
        0 <= i < obs.len() && floor_eligible(obs, i, snapshots_stable)
            && #[trigger] obs[i].private_bytes is None
}

/// The disposition interval of a set of extents: inodes are counted once (their first
/// file-forks entry); directories and other extents are left out. The floor sums
/// private sizes and is zero for inodes whose hardlink set is incomplete or when
/// snapshots may have appeared; the ceiling sums allocated sizes and is unknown as soon
/// as one allocated size is missing. `None` when a sum, taken in identity order up to
/// the first missing allocation, exceeds 64 bits.
pub open spec fn spec_estimate_disposition(
    obs: Seq<ExtentObservation>,
    snapshots_stable: bool,
) -> Option<DispositionEstimate> {
    let floor = floor_sum(obs, snapshots_stable, obs.len() as int);
    let ceiling = ceiling_sum(obs, obs.len() as int);
    if floor > u64::MAX || ceiling > u64::MAX {
        None
    } else {
        Some(
            DispositionEstimate {
                floor_bytes: floor as u64,
                ceiling_bytes: if allocation_missing(obs) {
                    None
                } else {
                    Some(ceiling as u64)
                },
                has_unmeasurable_objects: private_missing(obs, snapshots_stable)
                    || allocation_missing(obs),
                unexplained_private_gap: true,
            },
        )
    }
}

proof fn lemma_floor_sum_mono(obs: Seq<ExtentObservation>, stable: bool, a: int, b: int)
    requires
        0 <= a <= b,
    ensures
        floor_sum(obs, stable, a) <= floor_sum(obs, stable, b),
        floor_sum(obs, stable, a) >= 0,
    decreases b,
{
    if b > a {
        lemma_floor_sum_mono(obs, stable, a, b - 1);
    } else if a > 0 {
        lemma_floor_sum_mono(obs, stable, a - 1, a - 1);
    }
}

proof fn lemma_ceiling_sum_mono(obs: Seq<ExtentObservation>, a: int, b: int)
    requires
        0 <= a <= b,
    ensures
        ceiling_sum(obs, a) <= ceiling_sum(obs, b),
        ceiling_sum(obs, a) >= 0,
    decreases b,
{
    if b > a {
        lemma_ceiling_sum_mono(obs, a, b - 1);
    } else if a > 0 {
        lemma_ceiling_sum_mono(obs, a - 1, a - 1);
    }
}

pub fn same_identity_exec(a: &FileIdentity, b: &FileIdentity) -> (r: bool)
    ensures
        r == same_identity(*a, *b),
{
    a.fsid[0] == b.fsid[0] && a.fsid[1] == b.fsid[1] && a.fileid == b.fileid
}

pub fn identity_lt_exec(a: &FileIdentity, b: &FileIdentity) -> (r: bool)
    ensures
        r == identity_lt(*a, *b),
{
    a.fsid[0] < b.fsid[0] || (a.fsid[0] == b.fsid[0] && (a.fsid[1] < b.fsid[1] || (a.fsid[1]
        == b.fsid[1] && a.fileid < b.fileid)))
}

fn is_kind_file_forks(k: ExtentKind) -> (r: bool)
    ensures
        r == (k == ExtentKind::FileForks),
{
    match k {
        ExtentKind::FileForks => true,
        _ => false,
    }
}

fn first_file_forks_flags(obs: &[ExtentObservation]) -> (r: Vec<bool>)
    ensures
        r@.len() == obs@.len(),
        forall|i: int| 0 <= i < obs@.len() ==> #[trigger] r@[i] == first_file_forks(obs@, i),
{
    let mut flags: Vec<bool> = Vec::new();
    let mut i: usize = 0;
    while i < obs.len()
        invariant
            i <= obs.len(),
            flags@.len() == i,
            forall|k: int| 0 <= k < i ==> #[trigger] flags@[k] == first_file_forks(obs@, k),
        decreases obs.len() - i,
    {
        let mut first = is_kind_file_forks(obs[i].kind);
        let mut j: usize = 0;
        while j < i && first
            invariant
                j <= i < obs.len(),
                first ==> obs@[i as int].kind == ExtentKind::FileForks,
                first ==> forall|k: int|
                    0 <= k < j ==> !(obs@[k].kind == ExtentKind::FileForks && same_identity(
                        #[trigger] obs@[k].identity,
                        obs@[i as int].identity,
                    )),
                !first ==> !first_file_forks(obs@, i as int),
            decreases i - j,
        {
            if is_kind_file_forks(obs[j].kind) && same_identity_exec(&obs[j].identity, &obs[i].identity) {
                first = false;
            }
            j = j + 1;
        }
        flags.push(first);
        i = i + 1;
    }
    flags
}

fn before_missing_exec(obs: &[ExtentObservation], flags: &Vec<bool>, i: usize) -> (r: bool)
    requires
        i < obs@.len(),
        flags@.len() == obs@.len(),
        forall|k: int| 0 <= k < obs@.len() ==> #[trigger] flags@[k] == first_file_forks(obs@, k),
    ensures
        r == before_missing_allocation(obs@, i as int),
{
    let mut j: usize = 0;
    while j < obs.len()
        invariant
            i < obs@.len(),
            flags@.len() == obs@.len(),
            forall|k: int| 0 <= k < obs@.len() ==> #[trigger] flags@[k] == first_file_forks(obs@, k),
            j <= obs.len(),
            forall|k: int|
                0 <= k < j && first_file_forks(obs@, k) && #[trigger] obs@[k].allocated_bytes is None
                    ==> identity_lt(obs@[i as int].identity, obs@[k].identity),
        decreases obs.len() - j,
    {
        if flags[j] && obs[j].allocated_bytes.is_none() && !identity_lt_exec(
            &obs[i].identity,
            &obs[j].identity,
        ) {
            assert(flags@[j as int]);
            return false;
        }
        j = j + 1;
    }
    true
}

/// The disposition interval of a set of extents, as `spec_estimate_disposition` states it.
pub fn estimate_disposition(observations: &[ExtentObservation], snapshots_stable: bool) -> (r:
    Result<DispositionEstimate, MeasurementOverflow>)
    ensures
        match spec_estimate_disposition(observations@, snapshots_stable) {
            Some(e) => r == Ok::<DispositionEstimate, MeasurementOverflow>(e),
            None => r is Err,
        },
{
    let ghost obs = observations@;
    let n = observations.len();
    let flags = first_file_forks_flags(observations);
    let mut floor: u64 = 0;
    let mut ceiling: u64 = 0;
    let mut floor_missing = false;
    let mut allocated_missing = false;
    let mut i: usize = 0;
    while i < n
        invariant
            n == obs.len(),
            obs == observations@,
            flags@.len() == n,
            forall|k: int| 0 <= k < n ==> #[trigger] flags@[k] == first_file_forks(obs, k),
            i <= n,
            floor as int == floor_sum(obs, snapshots_stable, i as int),
            ceiling as int == ceiling_sum(obs, i as int),
            floor_missing == exists|k: int|
                0 <= k < i && floor_eligible(obs, k, snapshots_stable)
                    && #[trigger] obs[k].private_bytes is None,
            allocated_missing == exists|k: int|
                0 <= k < i && first_file_forks(obs, k) && #[trigger] obs[k].allocated_bytes is None,
        decreases n - i,
    {
        let o = &observations[i];
        if flags[i] {
            if snapshots_stable && o.covered_link_count >= o.link_count {
                match o.private_bytes {
                    Some(bytes) => {
                        floor = match floor.checked_add(bytes) {
                            Some(v) => v,
                            None => {
                                proof {
                                    lemma_floor_sum_mono(obs, snapshots_stable, i + 1, n as int);
                                }
                                return Err(MeasurementOverflow);
                            },
                        };
                    },
                    None => {
                        floor_missing = true;
                    },
                }
            }
            match o.allocated_bytes {
                Some(bytes) => {
                    if before_missing_exec(observations, &flags, i) {
                        ceiling = match ceiling.checked_add(bytes) {
                            Some(v) => v,
                            None => {
                                proof {
                                    lemma_ceiling_sum_mono(obs, i + 1, n as int);
                                }
                                return Err(MeasurementOverflow);
                            },
                        };
                    }
                },
                None => {
                    allocated_missing = true;
                },
            }
        }
        proof {
            assert(flags@[i as int] == first_file_forks(obs, i as int));
        }
        i = i + 1;
    }
    Ok(
        DispositionEstimate {
            floor_bytes: floor,
            ceiling_bytes: if allocated_missing {
                None
            } else {
                Some(ceiling)
            },
            has_unmeasurable_objects: floor_missing || allocated_missing,
            unexplained_private_gap: true,
        },
    )
}

/// Two extent lists that agree on everything but their signals.
pub open spec fn agree_but_signals(a: Seq<ExtentObservation>, b: Seq<ExtentObservation>) -> bool {
    &&& a.len() == b.len()
    &&& forall|i: int|
        0 <= i < a.len() ==> {
            &&& (#[trigger] a[i]).identity == b[i].identity
            &&& a[i].kind == b[i].kind
            &&& a[i].link_count == b[i].link_count
            &&& a[i].covered_link_count == b[i].covered_link_count
            &&& a[i].allocated_bytes == b[i].allocated_bytes
            &&& a[i].private_bytes == b[i].private_bytes
        }
}

proof fn lemma_sums_agree(a: Seq<ExtentObservation>, b: Seq<ExtentObservation>, s: bool, n: int)
    requires
        agree_but_signals(a, b),
        0 <= n <= a.len(),
        forall|i: int| 0 <= i < a.len() ==> floor_part(a, i, s) == floor_part(b, i, s),
        forall|i: int| 0 <= i < a.len() ==> ceiling_part(a, i) == ceiling_part(b, i),
    ensures
        floor_sum(a, s, n) == floor_sum(b, s, n),
        ceiling_sum(a, n) == ceiling_sum(b, n),
    decreases n,
{
    if n > 0 {
        lemma_sums_agree(a, b, s, n - 1);
    }
}

/// Signals are labels: two extent lists that differ only in their signals have the
/// same disposition interval.
pub proof fn lemma_signals_never_move_the_interval(
    a: Seq<ExtentObservation>,
    b: Seq<ExtentObservation>,
    snapshots_stable: bool,
)
    requires
        agree_but_signals(a, b),
    ensures
        spec_estimate_disposition(a, snapshots_stable) == spec_estimate_disposition(
            b,
            snapshots_stable,
        ),
{
    assert forall|i: int| 0 <= i < a.len() implies first_file_forks(a, i) == first_file_forks(b, i) by {
        assert(a[i].kind == b[i].kind && a[i].identity == b[i].identity);
        if first_file_forks(a, i) {
            assert forall|j: int| 0 <= j < i implies !(b[j].kind == ExtentKind::FileForks
                && same_identity(#[trigger] b[j].identity, b[i].identity)) by {
                assert(a[j].kind == b[j].kind && a[j].identity == b[j].identity);
            }
        }
        if first_file_forks(b, i) {
            assert forall|j: int| 0 <= j < i implies !(a[j].kind == ExtentKind::FileForks
                && same_identity(#[trigger] a[j].identity, a[i].identity)) by {
                assert(a[j].kind == b[j].kind && a[j].identity == b[j].identity);
            }
        }
    }
    assert forall|i: int| 0 <= i < a.len() implies before_missing_allocation(a, i)
        == before_missing_allocation(b, i) by {
        assert(a[i].identity == b[i].identity);
        if before_missing_allocation(a, i) {
            assert forall|j: int|
                0 <= j < b.len() && first_file_forks(b, j) && #[trigger] b[j].allocated_bytes
                    is None implies identity_lt(b[i].identity, b[j].identity) by {
                assert(a[j].allocated_bytes == b[j].allocated_bytes && a[j].identity == b[j].identity);
                assert(first_file_forks(a, j));
            }
        }
        if before_missing_allocation(b, i) {
            assert forall|j: int|
                0 <= j < a.len() && first_file_forks(a, j) && #[trigger] a[j].allocated_bytes
                    is None implies identity_lt(a[i].identity, a[j].identity) by {
                assert(a[j].allocated_bytes == b[j].allocated_bytes && a[j].identity == b[j].identity);
                assert(first_file_forks(b, j));
            }
        }
    }
    assert forall|i: int| 0 <= i < a.len() implies floor_part(a, i, snapshots_stable) == floor_part(
        b,
        i,
        snapshots_stable,
    ) by {
        assert(a[i].covered_link_count == b[i].covered_link_count);
        assert(a[i].private_bytes == b[i].private_bytes);
    }
    assert forall|i: int| 0 <= i < a.len() implies ceiling_part(a, i) == ceiling_part(b, i) by {
        assert(a[i].allocated_bytes == b[i].allocated_bytes);
    }
    lemma_sums_agree(a, b, snapshots_stable, a.len() as int);
    assert(allocation_missing(a) == allocation_missing(b)) by {
        if allocation_missing(a) {
            let i = choose|i: int|
                0 <= i < a.len() && first_file_forks(a, i) && #[trigger] a[i].allocated_bytes
                    is None;
            assert(b[i].allocated_bytes == a[i].allocated_bytes);
        }
        if allocation_missing(b) {
            let i = choose|i: int|
                0 <= i < b.len() && first_file_forks(b, i) && #[trigger] b[i].allocated_bytes
                    is None;
            assert(b[i].allocated_bytes == a[i].allocated_bytes);
        }
    }
    assert(private_missing(a, snapshots_stable) == private_missing(b, snapshots_stable)) by {
        if private_missing(a, snapshots_stable) {
            let i = choose|i: int|
                0 <= i < a.len() && floor_eligible(a, i, snapshots_stable)
                    && #[trigger] a[i].private_bytes is None;
            assert(b[i].private_bytes == a[i].private_bytes);
            assert(b[i].covered_link_count == a[i].covered_link_count);
        }
        if private_missing(b, snapshots_stable) {
            let i = choose|i: int|
                0 <= i < b.len() && floor_eligible(b, i, snapshots_stable)
                    && #[trigger] b[i].private_bytes is None;
            assert(b[i].private_bytes == a[i].private_bytes);
            assert(b[i].covered_link_count == a[i].covered_link_count);
        }
    }
}

proof fn lemma_floor_vanishes(obs: Seq<ExtentObservation>, n: int)
    ensures
        floor_sum(obs, false, n) == 0,
    decreases n,
{
    if n > 0 {
        lemma_floor_vanishes(obs, n - 1);
    }
}

/// The allocated sizes of the inodes, each counted once through its first file-forks
/// extent, over the first `n` entries.
pub open spec fn allocated_sum(obs: Seq<ExtentObservation>, n: int) -> int
    decreases n,
{
    if n <= 0 {
        0
    } else {
        allocated_sum(obs, n - 1) + if first_file_forks(obs, n - 1) && obs[n - 1].allocated_bytes is Some {
            obs[n - 1].allocated_bytes->0 as int
        } else {
            0
        }
    }
}

proof fn lemma_complete_ceiling_is_plain_sum(obs: Seq<ExtentObservation>, n: int)
    requires
        0 <= n <= obs.len(),
        !allocation_missing(obs),
    ensures
        ceiling_sum(obs, n) == allocated_sum(obs, n),
    decreases n,
{
    if n > 0 {
        lemma_complete_ceiling_is_plain_sum(obs, n - 1);
        assert(before_missing_allocation(obs, n - 1)) by {
            assert forall|j: int|
                0 <= j < obs.len() && first_file_forks(obs, j) && #[trigger] obs[j].allocated_bytes is None
                    implies identity_lt(obs[n - 1].identity, obs[j].identity) by {
                assert(allocation_missing(obs));
            }
        }
    }
}

/// The interval counts each inode once, through its first file-forks extent: the
/// ceiling is unknown exactly when one such extent lacks its allocated size, and
/// otherwise sums their allocated sizes; the floor sums the private sizes of those
/// whose hardlinks are all present, and only while no snapshot may have appeared;
/// the estimate is incomplete exactly when the ceiling is unknown or one such
/// counted inode lacks its private size.
pub proof fn lemma_disposition_counts_each_inode_once(obs: Seq<ExtentObservation>, snapshots_stable: bool)
    ensures
        spec_estimate_disposition(obs, snapshots_stable) matches Some(e) ==> {
            &&& (e.ceiling_bytes is None <==> allocation_missing(obs))
            &&& (e.ceiling_bytes matches Some(c) ==> c == allocated_sum(obs, obs.len() as int))
            &&& e.floor_bytes == floor_sum(obs, snapshots_stable, obs.len() as int)
            &&& (!snapshots_stable ==> e.floor_bytes == 0)
            &&& e.has_unmeasurable_objects == (e.ceiling_bytes is None || private_missing(
                obs,
                snapshots_stable,
            ))
        },
{
    lemma_floor_vanishes(obs, obs.len() as int);
    lemma_floor_sum_mono(obs, snapshots_stable, obs.len() as int, obs.len() as int);
    lemma_ceiling_sum_mono(obs, obs.len() as int, obs.len() as int);
    if !allocation_missing(obs) {
        lemma_complete_ceiling_is_plain_sum(obs, obs.len() as int);
    }
}

/// Snapshots may invalidate only the floor: when a snapshot may have appeared the
/// floor is zero, and the ceiling is the one that a stable volume gives.
pub proof fn lemma_snapshots_only_touch_the_floor(obs: Seq<ExtentObservation>)
    ensures
        spec_estimate_disposition(obs, false) matches Some(e) ==> e.floor_bytes == 0,
        spec_estimate_disposition(obs, true) matches Some(t) ==> (spec_estimate_disposition(
            obs,
            false,
        ) matches Some(f) && f.ceiling_bytes == t.ceiling_bytes),
{
    lemma_floor_vanishes(obs, obs.len() as int);
}

proof fn lemma_prefix_sums_agree(a: Seq<ExtentObservation>, b: Seq<ExtentObservation>, s: bool, n: int)
    requires
        0 <= n <= a.len(),
        n <= b.len(),
        forall|i: int| 0 <= i < n ==> floor_part(a, i, s) == floor_part(b, i, s),
        forall|i: int| 0 <= i < n ==> ceiling_part(a, i) == ceiling_part(b, i),
    ensures
        floor_sum(a, s, n) == floor_sum(b, s, n),
        ceiling_sum(a, n) == ceiling_sum(b, n),
    decreases n,
{
    if n > 0 {
        lemma_prefix_sums_agree(a, b, s, n - 1);
    }
}

/// Each inode counts once: a further extent for an inode that the list already holds
/// as file forks leaves the disposition interval as it was.
pub proof fn lemma_repeated_inode_changes_nothing(
    obs: Seq<ExtentObservation>,
    k: int,
    repeat: ExtentObservation,
    snapshots_stable: bool,
)
    requires
        0 <= k < obs.len(),
        obs[k].kind == ExtentKind::FileForks,
        same_identity(obs[k].identity, repeat.identity),
    ensures
        spec_estimate_disposition(obs.push(repeat), snapshots_stable) == spec_estimate_disposition(
            obs,
            snapshots_stable,
        ),
{
    let b = obs.push(repeat);
    let n = obs.len() as int;
    let s = snapshots_stable;
    assert forall|i: int| 0 <= i < n implies first_file_forks(b, i) == first_file_forks(obs, i) by {
        assert(b[i] == obs[i]);
        if first_file_forks(obs, i) {
            assert forall|j: int| 0 <= j < i implies !(b[j].kind == ExtentKind::FileForks
                && same_identity(#[trigger] b[j].identity, b[i].identity)) by {
                assert(b[j] == obs[j]);
            }
        }
        if first_file_forks(b, i) {
            assert forall|j: int| 0 <= j < i implies !(obs[j].kind == ExtentKind::FileForks
                && same_identity(#[trigger] obs[j].identity, obs[i].identity)) by {
                assert(b[j] == obs[j]);
            }
        }
    }
    assert(!first_file_forks(b, n)) by {
        assert(b[k] == obs[k]);
        assert(b[k].kind == ExtentKind::FileForks && same_identity(b[k].identity, b[n].identity));
    }
    assert forall|i: int| 0 <= i < n implies before_missing_allocation(b, i)
        == before_missing_allocation(obs, i) by {
        assert(b[i] == obs[i]);
        if before_missing_allocation(obs, i) {
            assert forall|j: int|
                0 <= j < b.len() && first_file_forks(b, j) && #[trigger] b[j].allocated_bytes
                    is None implies identity_lt(b[i].identity, b[j].identity) by {
                if j < n {
                    assert(b[j] == obs[j]);
                }
            }
        }
        if before_missing_allocation(b, i) {
            assert forall|j: int|
                0 <= j < obs.len() && first_file_forks(obs, j) && #[trigger] obs[j].allocated_bytes
                    is None implies identity_lt(obs[i].identity, obs[j].identity) by {
                assert(b[j] == obs[j]);
            }
        }
    }
    assert forall|i: int| 0 <= i < n implies floor_part(b, i, s) == floor_part(obs, i, s) by {
        assert(b[i] == obs[i]);
    }
    assert forall|i: int| 0 <= i < n implies ceiling_part(b, i) == ceiling_part(obs, i) by {
        assert(b[i] == obs[i]);
    }
    lemma_prefix_sums_agree(b, obs, s, n);
    assert(floor_part(b, n, s) == 0);
    assert(ceiling_part(b, n) == 0);
    assert(allocation_missing(b) == allocation_missing(obs)) by {
        if allocation_missing(b) {
            let i = choose|i: int|
                0 <= i < b.len() && first_file_forks(b, i) && #[trigger] b[i].allocated_bytes
                    is None;
            assert(b[i] == obs[i]);
        }
        if allocation_missing(obs) {
            let i = choose|i: int|
                0 <= i < obs.len() && first_file_forks(obs, i) && #[trigger] obs[i].allocated_bytes
                    is None;
            assert(b[i] == obs[i]);
        }
    }
    assert(private_missing(b, s) == private_missing(obs, s)) by {
        if private_missing(b, s) {
            let i = choose|i: int|
                0 <= i < b.len() && floor_eligible(b, i, s) && #[trigger] b[i].private_bytes
                    is None;
            assert(b[i] == obs[i]);
        }
        if private_missing(obs, s) {
            let i = choose|i: int|
                0 <= i < obs.len() && floor_eligible(obs, i, s) && #[trigger] obs[i].private_bytes
                    is None;
            assert(b[i] == obs[i]);
        }
    }
}

/// A filesystem subject and a toolchain object set never share a canonical key.
pub proof fn lemma_canonical_keys_disjoint(normalized_path: String, object_set_id: String)
    ensures
        ({
            let fs = spec_canonical_key(FindingSubject::FilesystemPath { normalized_path });
            let ts = spec_canonical_key(FindingSubject::ToolchainObjectSet { object_set_id });
            fs matches Ok(a) ==> (ts matches Ok(b) ==> a != b)
        }),
{
    let v = normalized_path@;
    let w = object_set_prefix() + object_set_id@;
    if spec_valid_normalized_subject(v) && spec_valid_id(object_set_id@) {
        assert(w[0] == 'o');
        if v == seq!['~'] {
            assert(v[0] == '~');
        } else if has_prefix(v, seq!['~', '/']) {
            assert(v[0] == v.subrange(0, 2)[0]);
        } else {
            assert(v[0] == v.subrange(0, 1)[0]);
        }
        assert(v != w);
    }
}

/// A rounded vendor size reads as an ordered byte range that holds the written value
/// and is no wider than its last written digit: the lower bound is at most the upper
/// one, the value the text spells lies between them, and each bound lies less than
/// one unit of the last digit plus one byte from that value (all scaled by the power
/// of ten of the fraction's length).
pub proof fn lemma_rounded_range_holds_the_value(reported: Seq<char>)
    ensures
        spec_rounded_bounds(reported) matches Some((lower, upper)) ==> lower <= upper,
        rounded_token(reported) matches Some((whole, fraction, unit)) ==> (spec_rounded_bounds(
            reported,
        ) matches Some((lower, upper)) ==> lower * pow10(fraction.len()) <= decimal_value(
            whole + fraction,
        ) * unit <= upper * pow10(fraction.len())),
        rounded_token(reported) matches Some((whole, fraction, unit)) ==> (spec_rounded_bounds(
            reported,
        ) matches Some((lower, upper)) ==> decimal_value(whole + fraction) * unit - unit - pow10(
            fraction.len(),
        ) < lower * pow10(fraction.len()) && upper * pow10(fraction.len()) < decimal_value(
            whole + fraction,
        ) * unit + unit + pow10(fraction.len())),
{
    if let Some((whole, fraction, unit)) = rounded_token(reported) {
        if let Some((lower, upper)) = spec_rounded_bounds(reported) {
            let scale = pow10(fraction.len());
            let mantissa = decimal_value(whole + fraction);
            let center = mantissa * unit;
            lemma_pow10_mono(0, fraction.len());
            assert(all_digits(whole + fraction)) by {
                assert forall|i: int| 0 <= i < (whole + fraction).len() implies is_digit(
                    #[trigger] (whole + fraction)[i],
                ) by {
                    if i < whole.len() {
                        assert((whole + fraction)[i] == whole[i]);
                    } else {
                        assert((whole + fraction)[i] == fraction[i - whole.len()]);
                    }
                }
            }
            crate::text::lemma_decimal_nonneg(whole + fraction);
            assert(unit >= 1);
            assert(center >= 0) by (nonlinear_arith)
                requires
                    mantissa >= 0,
                    unit >= 1,
                    center == mantissa * unit,
            ;
            if unit == 1 && fraction.len() == 0 {
                assert(scale == 1);
                assert(lower * scale == lower) by (nonlinear_arith)
                    requires
                        scale == 1,
                ;
                assert(upper * scale == upper) by (nonlinear_arith)
                    requires
                        scale == 1,
                ;
            } else {
                let top = center + unit + scale - 1;
                vstd::arithmetic::div_mod::lemma_fundamental_div_mod(top, scale);
                vstd::arithmetic::div_mod::lemma_mod_pos_bound(top, scale);
                assert(upper == top / scale);
                assert(upper * scale >= center + unit) by (nonlinear_arith)
                    requires
                        top == scale * upper + top % scale,
                        top % scale < scale,
                        top == center + unit + scale - 1,
                ;
                assert(upper * scale < center + unit + scale) by (nonlinear_arith)
                    requires
                        top == scale * upper + top % scale,
                        top % scale >= 0,
                        top == center + unit + scale - 1,
                ;
                if center >= unit {
                    let bottom = center - unit;
                    vstd::arithmetic::div_mod::lemma_fundamental_div_mod(bottom, scale);
                    vstd::arithmetic::div_mod::lemma_mod_pos_bound(bottom, scale);
                    vstd::arithmetic::div_mod::lemma_div_is_ordered(bottom, top, scale);
                    assert(lower == bottom / scale);
                    assert(lower * scale <= bottom) by (nonlinear_arith)
                        requires
                            bottom == scale * lower + bottom % scale,
                            bottom % scale >= 0,
                    ;
                    assert(lower * scale > bottom - scale) by (nonlinear_arith)
                        requires
                            bottom == scale * lower + bottom % scale,
                            bottom % scale < scale,
                    ;
                } else {
                    assert(lower == 0);
                    vstd::arithmetic::div_mod::lemma_div_is_ordered(0, top, scale);
                    assert(lower * scale == 0) by (nonlinear_arith)
                        requires
                            lower == 0,
                    ;
                }
            }
        }
    }
}

/// `suffix` is a decimal unit of `unit` bytes: `EB`, `PB`, `TB`, `GB`, `MB`, `kB` and `B`
/// stand for 10^18, 10^15, 10^12, 10^9, 10^6, 10^3 and 1 bytes.
pub open spec fn decimal_unit(suffix: Seq<char>, unit: int) -> bool {
    ||| suffix == seq!['E', 'B'] && unit == 1_000_000_000_000_000_000
    ||| suffix == seq!['P', 'B'] && unit == 1_000_000_000_000_000
    ||| suffix == seq!['T', 'B'] && unit == 1_000_000_000_000
    ||| suffix == seq!['G', 'B'] && unit == 1_000_000_000
    ||| suffix == seq!['M', 'B'] && unit == 1_000_000
    ||| suffix == seq!['k', 'B'] && unit == 1_000
    ||| suffix == seq!['B'] && unit == 1
}

/// The text of a rounded size: whole digits, then `.` and the fraction digits when it
/// is written with a point, then the unit suffix.
pub open spec fn size_text(whole: Seq<char>, dotted: bool, fraction: Seq<char>, suffix: Seq<char>) -> Seq<char> {
    whole + (if dotted {
        seq!['.'] + fraction
    } else {
        Seq::<char>::empty()
    }) + suffix
}

proof fn lemma_ws_fields_single(s: Seq<char>)
    requires
        s.len() > 0,
        forall|i: int| 0 <= i < s.len() ==> !is_ascii_ws(#[trigger] s[i]),
    ensures
        ws_fields(s) == seq![s],
    decreases s.len(),
{
    if s.len() == 1 {
        assert(s.drop_last() =~= Seq::<char>::empty());
        assert(ws_fields(s.drop_last()) =~= Seq::<Seq<char>>::empty());
        assert(seq![s.last()] =~= s);
        assert(Seq::<Seq<char>>::empty().push(seq![s.last()]) =~= seq![s]);
    } else {
        let d = s.drop_last();
        assert forall|i: int| 0 <= i < d.len() implies !is_ascii_ws(#[trigger] d[i]) by {
            assert(d[i] == s[i]);
        }
        lemma_ws_fields_single(d);
        assert(!is_ascii_ws(s[s.len() - 2]));
        assert(d.push(s.last()) =~= s);
        assert(seq![d].update(0, d.push(s.last())) =~= seq![s]);
    }
}

proof fn lemma_count_char_concat(a: Seq<char>, b: Seq<char>, c: char)
    ensures
        count_char(a + b, c) == count_char(a, c) + count_char(b, c),
    decreases b.len(),
{
    if b.len() == 0 {
        assert(a + b =~= a);
    } else {
        lemma_count_char_concat(a, b.drop_last(), c);
        assert((a + b).drop_last() =~= a + b.drop_last());
    }
}

proof fn lemma_digits_hold_no_point(s: Seq<char>)
    requires
        all_digits(s),
    ensures
        count_char(s, '.') == 0,
    decreases s.len(),
{
    if s.len() > 0 {
        assert(all_digits(s.drop_last())) by {
            assert forall|i: int| 0 <= i < s.drop_last().len() implies is_digit(#[trigger] s.drop_last()[i]) by {
                assert(s.drop_last()[i] == s[i]);
            }
        }
        lemma_digits_hold_no_point(s.drop_last());
        assert(is_digit(s[s.len() - 1]));
    }
}

proof fn lemma_size_text_token(whole: Seq<char>, dotted: bool, fraction: Seq<char>, suffix: Seq<char>, unit: int)
    requires
        whole.len() > 0,
        all_digits(whole),
        all_digits(fraction),
        dotted || fraction.len() == 0,
        decimal_unit(suffix, unit),
    ensures
        rounded_token(size_text(whole, dotted, fraction, suffix)) == Some((whole, fraction, unit)),
{
    let point = if dotted {
        seq!['.'] + fraction
    } else {
        Seq::<char>::empty()
    };
    let number = whole + point;
    let text = number + suffix;
    assert(text == size_text(whole, dotted, fraction, suffix));
    assert forall|i: int| 0 <= i < text.len() implies !is_ascii_ws(#[trigger] text[i]) by {
        if i < whole.len() {
            assert(text[i] == whole[i]);
            assert(is_digit(whole[i]));
        } else if i < number.len() {
            assert(text[i] == point[i - whole.len()]);
            if i > whole.len() {
                assert(point[i - whole.len()] == fraction[i - whole.len() - 1]);
                assert(is_digit(fraction[i - whole.len() - 1]));
            }
        } else {
            assert(text[i] == suffix[i - number.len()]);
        }
    }
    lemma_ws_fields_single(text);
    let last = number[number.len() - 1];
    assert(is_digit(last) || last == '.') by {
        if dotted && fraction.len() > 0 {
            assert(last == fraction[fraction.len() - 1]);
        } else if dotted {
            assert(last == '.');
        } else {
            assert(last == whole[whole.len() - 1]);
        }
    }
    if suffix.len() == 2 {
        assert(text[text.len() - 2] == suffix[0]);
        assert(text[text.len() - 1] == suffix[1]);
        assert(text.subrange(0, text.len() - 2) =~= number);
    } else {
        assert(text[text.len() - 2] == last);
        assert(text[text.len() - 1] == 'B');
        assert(text.subrange(0, text.len() - 1) =~= number);
    }
    assert(unit_split(text) == Some((number, unit)));
    assert forall|j: int| 0 <= j < whole.len() implies number[j] != '.' by {
        assert(number[j] == whole[j]);
        assert(is_digit(whole[j]));
    }
    lemma_digits_hold_no_point(whole);
    lemma_digits_hold_no_point(fraction);
    if dotted {
        assert(number[whole.len() as int] == '.');
        lemma_first_index_at(number, '.', whole.len() as int);
        assert(number.subrange(0, whole.len() as int) =~= whole);
        assert(number.subrange(whole.len() as int + 1, number.len() as int) =~= fraction);
        lemma_count_char_concat(whole, point, '.');
        lemma_count_char_concat(seq!['.'], fraction, '.');
        assert(count_char(seq!['.'], '.') == 1) by {
            assert(seq!['.'].drop_last() =~= Seq::<char>::empty());
            assert(count_char(seq!['.'].drop_last(), '.') == 0);
        }
    } else {
        assert(number =~= whole);
        lemma_first_index_absent(number, '.');
        assert(number.subrange(0, whole.len() as int) =~= whole);
        assert(fraction =~= Seq::<char>::empty());
    }
}

/// A rounded size is read against the decimal value of its unit: for whole digits,
/// an optional point and fraction digits, and a unit suffix of `unit` bytes, the range
/// holds the written value times `unit` (both scaled by the power of ten of the
/// fraction's length), each bound lies less than one unit and one byte away from it,
/// and the range exists whenever those sums fit in 64 bits.
pub proof fn lemma_rounded_size_reads_its_unit(
    whole: Seq<char>,
    dotted: bool,
    fraction: Seq<char>,
    suffix: Seq<char>,
    unit: int,
)
    requires
        whole.len() > 0,
        all_digits(whole),
        all_digits(fraction),
        dotted || fraction.len() == 0,
        decimal_unit(suffix, unit),
    ensures
        ({
            let scale = pow10(fraction.len());
            let value = decimal_value(whole + fraction) * unit;
            &&& spec_rounded_bounds(size_text(whole, dotted, fraction, suffix)) matches Some((lower, upper))
                ==> lower * scale <= value <= upper * scale && value - unit - scale < lower * scale
                && upper * scale < value + unit + scale
            &&& value + unit + scale <= u64::MAX ==> spec_rounded_bounds(
                size_text(whole, dotted, fraction, suffix),
            ) is Some
        }),
{
    let text = size_text(whole, dotted, fraction, suffix);
    lemma_size_text_token(whole, dotted, fraction, suffix, unit);
    lemma_rounded_range_holds_the_value(text);
    let scale = pow10(fraction.len());
    let mantissa = decimal_value(whole + fraction);
    assert(all_digits(whole + fraction)) by {
        assert forall|i: int| 0 <= i < (whole + fraction).len() implies is_digit(
            #[trigger] (whole + fraction)[i],
        ) by {
            if i < whole.len() {
                assert((whole + fraction)[i] == whole[i]);
            } else {
                assert((whole + fraction)[i] == fraction[i - whole.len()]);
            }
        }
    }
    crate::text::lemma_decimal_nonneg(whole + fraction);
    lemma_pow10_mono(0, fraction.len());
    assert(mantissa <= mantissa * unit) by (nonlinear_arith)
        requires
            mantissa >= 0,
            unit >= 1,
    ;
}

/// A rounded vendor size gives one exact byte count only when it is written as a
/// whole number of bytes; any other unit or any written fraction widens it into a
/// range whose lower bound is strictly below its upper one.
pub proof fn lemma_rounded_range_exact_only_for_bytes(reported: Seq<char>)
    ensures
        rounded_token(reported) matches Some((whole, fraction, unit)) ==> (spec_rounded_bounds(
            reported,
        ) matches Some((lower, upper)) ==> ((lower == upper) <==> (unit == 1 && fraction.len()
            == 0)) && lower <= upper),
{
    lemma_rounded_range_holds_the_value(reported);
    if let Some((whole, fraction, unit)) = rounded_token(reported) {
        if let Some((lower, upper)) = spec_rounded_bounds(reported) {
            let scale = pow10(fraction.len());
            let mantissa = decimal_value(whole + fraction);
            let center = mantissa * unit;
            lemma_pow10_mono(0, fraction.len());
            assert(all_digits(whole + fraction)) by {
                assert forall|i: int| 0 <= i < (whole + fraction).len() implies is_digit(
                    #[trigger] (whole + fraction)[i],
                ) by {
                    if i < whole.len() {
                        assert((whole + fraction)[i] == whole[i]);
                    } else {
                        assert((whole + fraction)[i] == fraction[i - whole.len()]);
                    }
                }
            }
            crate::text::lemma_decimal_nonneg(whole + fraction);
            assert(unit >= 1);
            assert(center >= 0) by (nonlinear_arith)
                requires
                    mantissa >= 0,
                    unit >= 1,
                    center == mantissa * unit,
            ;
            if !(unit == 1 && fraction.len() == 0) {
                let top = center + unit + scale - 1;
                vstd::arithmetic::div_mod::lemma_fundamental_div_mod(top, scale);
                vstd::arithmetic::div_mod::lemma_mod_pos_bound(top, scale);
                assert(upper == top / scale);
                assert(upper * scale >= center + unit) by (nonlinear_arith)
                    requires
                        top == scale * upper + top % scale,
                        top % scale < scale,
                        top == center + unit + scale - 1,
                ;
                if center >= unit {
                    let bottom = center - unit;
                    vstd::arithmetic::div_mod::lemma_fundamental_div_mod(bottom, scale);
                    vstd::arithmetic::div_mod::lemma_mod_pos_bound(bottom, scale);
                    assert(lower == bottom / scale);
                    assert(lower * scale <= bottom) by (nonlinear_arith)
                        requires
                            bottom == scale * lower + bottom % scale,
                            bottom % scale >= 0,
                    ;
                    assert(lower < upper) by (nonlinear_arith)
                        requires
                            lower * scale <= bottom,
                            bottom == center - unit,
                            upper * scale >= center + unit,
                            unit >= 1,
                            scale >= 1,
                    ;
                } else {
                    assert(lower == 0);
                    assert(upper > 0) by (nonlinear_arith)
                        requires
                            upper * scale >= center + unit,
                            center >= 0,
                            unit >= 1,
                            scale >= 1,
                    ;
                }
            }
        }
    }
}

/// Two measurements that carry the same fields, their texts compared as text.
pub open spec fn same_measurement(a: Measurement, b: Measurement) -> bool {
    &&& a.plane == b.plane
    &&& a.quantity == b.quantity
    &&& a.basis == b.basis
    &&& a.scope.kind == b.scope.kind
    &&& a.scope.id@ == b.scope.id@
    &&& a.coverage.status == b.coverage.status
    &&& a.coverage.gap_view() == b.coverage.gap_view()
    &&& a.value == b.value
}

pub open spec fn same_measurements(a: Seq<Measurement>, b: Seq<Measurement>) -> bool {
    &&& a.len() == b.len()
    &&& forall|i: int| 0 <= i < a.len() ==> same_measurement(#[trigger] a[i], b[i])
}

pub fn copy_strings(v: &Vec<String>) -> (r: Vec<String>)
    ensures
        r@ == v@,
{
    let mut out: Vec<String> = Vec::new();
    let mut i: usize = 0;
    while i < v.len()
        invariant
            i <= v@.len(),
            out@ == v@.subrange(0, i as int),
        decreases v.len() - i,
    {
        out.push(v[i].clone());
        i = i + 1;
        assert(out@ =~= v@.subrange(0, i as int));
    }
    assert(v@.subrange(0, v@.len() as int) =~= v@);
    out
}

pub fn copy_value(v: &MeasurementValue) -> (r: MeasurementValue)
    ensures
        r == *v,
{
    match v {
        MeasurementValue::ExactBytes { bytes } => MeasurementValue::ExactBytes { bytes: *bytes },
        MeasurementValue::IntervalBytes { floor_bytes, ceiling_bytes, applicable_action } =>
            MeasurementValue::IntervalBytes {
            floor_bytes: *floor_bytes,
            ceiling_bytes: *ceiling_bytes,
            applicable_action: *applicable_action,
        },
        MeasurementValue::RoundedBytes { reported, lower_bound_bytes, upper_bound_bytes } =>
            MeasurementValue::RoundedBytes {
            reported: reported.clone(),
            lower_bound_bytes: *lower_bound_bytes,
            upper_bound_bytes: *upper_bound_bytes,
        },
        MeasurementValue::ExactCount { count } => MeasurementValue::ExactCount { count: *count },
        MeasurementValue::Unmeasurable => MeasurementValue::Unmeasurable,
    }
}

pub fn copy_measurement(m: &Measurement) -> (r: Measurement)
    ensures
        same_measurement(r, *m),
{
    let gap_ids = copy_strings(&m.coverage.gap_ids);
    let r = Measurement {
        plane: m.plane,
        quantity: m.quantity,
        basis: m.basis,
        scope: MeasurementScope { kind: m.scope.kind, id: m.scope.id.clone() },
        coverage: MeasurementCoverage { status: m.coverage.status, gap_ids },
        value: copy_value(&m.value),
    };
    assert(r.coverage.gap_view() =~= m.coverage.gap_view());
    r
}

pub fn copy_measurements(v: &Vec<Measurement>) -> (r: Vec<Measurement>)
    ensures
        same_measurements(r@, v@),
{
    let mut out: Vec<Measurement> = Vec::new();
    let mut i: usize = 0;
    while i < v.len()
        invariant
            i <= v@.len(),
            out@.len() == i,
            forall|k: int| 0 <= k < i ==> same_measurement(#[trigger] out@[k], v@[k]),
        decreases v.len() - i,
    {
        out.push(copy_measurement(&v[i]));
        i = i + 1;
    }
    out
}

pub fn copy_observations(v: &Vec<SignalObservation>) -> (r: Vec<SignalObservation>)
    ensures
        r@ == v@,
{
    let mut out: Vec<SignalObservation> = Vec::new();
    let mut i: usize = 0;
    while i < v.len()
        invariant
            i <= v@.len(),
            out@ == v@.subrange(0, i as int),
        decreases v.len() - i,
    {
        out.push(v[i]);
        i = i + 1;
        assert(out@ =~= v@.subrange(0, i as int));
    }
    assert(v@.subrange(0, v@.len() as int) =~= v@);
    out
}

pub fn copy_subject(s: &FindingSubject) -> (r: FindingSubject)
    ensures
        r == *s,
{
    match s {
        FindingSubject::FilesystemPath { normalized_path } => FindingSubject::FilesystemPath {
            normalized_path: normalized_path.clone(),
        },
        FindingSubject::ToolchainObjectSet { object_set_id } => FindingSubject::ToolchainObjectSet {
            object_set_id: object_set_id.clone(),
        },
    }
}

/// An advice item as text: whether it is a command, the command or the path, the
/// impact (`Inspect` for a reveal), the explanation or recovery semantics, and whether
/// a reliable preview exists (`false` for a reveal).
impl View for Advice {
    type V = (bool, Seq<char>, AdviceImpact, Seq<char>, bool);

    open spec fn view(&self) -> (bool, Seq<char>, AdviceImpact, Seq<char>, bool) {
        match self {
            Advice::Command(c) => (
                true,
                c.display_command@,
                c.impact,
                c.explanation@,
                c.reliable_preview_available,
            ),
            Advice::Reveal(r) => (
                false,
                r.normalized_path@,
                AdviceImpact::Inspect,
                r.recovery_semantics@,
                false,
            ),
        }
    }
}

pub open spec fn command_view(
    command: Seq<char>,
    impact: AdviceImpact,
    explanation: Seq<char>,
    preview: bool,
) -> (bool, Seq<char>, AdviceImpact, Seq<char>, bool) {
    (true, command, impact, explanation, preview)
}

pub open spec fn reveal_view(path: Seq<char>, recovery: Seq<char>) -> (
    bool,
    Seq<char>,
    AdviceImpact,
    Seq<char>,
    bool,
) {
    (false, path, AdviceImpact::Inspect, recovery, false)
}

pub open spec fn advice_views(v: Seq<Advice>) -> Seq<(bool, Seq<char>, AdviceImpact, Seq<char>, bool)> {
    v.map_values(|a: Advice| a@)
}

pub fn command_advice(
    command: &str,
    impact: AdviceImpact,
    explanation: &str,
    preview: bool,
) -> (r: Advice)
    ensures
        r@ == command_view(command@, impact, explanation@, preview),
{
    Advice::Command(
        CommandAdvice {
            display_command: command.to_owned(),
            impact,
            explanation: explanation.to_owned(),
            reliable_preview_available: preview,
        },
    )
}

pub fn reveal_advice(path: &str, recovery: &str) -> (r: Advice)
    ensures
        r@ == reveal_view(path@, recovery@),
{
    Advice::Reveal(
        RevealAdvice { normalized_path: path.to_owned(), recovery_semantics: recovery.to_owned() },
    )
}

/// `after` is `before` with every finding normalized, then stably ordered.
pub open spec fn findings_normalized_from(before: Seq<Finding>, after: Seq<Finding>) -> bool {
    exists|norm: Seq<Finding>|
        {
            &&& norm.len() == before.len()
            &&& forall|i: int| 0 <= i < norm.len() ==> finding_normalized(#[trigger] before[i], norm[i])
            &&& after == sort_stable(norm, finding_le())
        }
}

} // verus!
