//! What a measured store amounts to: each inode once, its logical and allocated
//! sizes summed, the disposition interval of the set, and the signals that explain
//! the gaps between those numbers.

use vstd::prelude::*;

use crate::fsx::{ObjectMeasurements, RootEntry, RootEntryKind};
use crate::model::{
    DispositionAction, ExtentKind, ExtentObservation, FileIdentity, Measurement,
    MeasurementBasis, MeasurementCoverage, MeasurementCoverageStatus, MeasurementPlane,
    MeasurementQuantity, MeasurementScope, MeasurementScopeKind, MeasurementValue,
    ObservationKind, ObservationRelation, ObservationScope, SignalId, SignalObservation,
    StorageSignal, estimate_disposition, identity_lt, identity_lt_exec, observation_rank,
    rank_of, same_identity, same_identity_exec, spec_estimate_disposition,
};
use crate::order::{dedup_consecutive, lemma_insert_at, sort_stable};
use crate::model::{agree_but_signals, lemma_signals_never_move_the_interval, DispositionEstimate};
use crate::paths::{file_name, file_name_is, path_starts_with, split_segments, split_slash, starts_with};
use crate::text::{chars_of, string_of};

verus! {

/// A directly observed signal.
pub open spec fn spec_observation(
    signal: SignalId,
    relation: ObservationRelation,
    scope: ObservationScope,
) -> SignalObservation {
    SignalObservation { observation: ObservationKind::Direct, signal, relation, scope }
}

pub fn observation(
    signal: SignalId,
    relation: ObservationRelation,
    scope: ObservationScope,
) -> (r: SignalObservation)
    ensures
        r == spec_observation(signal, relation, scope),
{
    SignalObservation { observation: ObservationKind::Direct, signal, relation, scope }
}

pub open spec fn when(c: bool, o: SignalObservation) -> Seq<SignalObservation> {
    if c {
        seq![o]
    } else {
        Seq::empty()
    }
}

pub open spec fn extended_of(m: ObjectMeasurements) -> u64 {
    match m.extended_flags {
        Some(f) => f,
        None => 0,
    }
}

/// The signals that one object's measurements carry, in this order: a clone that may
/// share blocks, an allocated resource fork, filesystem compression, sparseness,
/// purgeability, more than one hardlink.
pub open spec fn spec_object_observations(m: ObjectMeasurements) -> Seq<SignalObservation> {
    when(
        extended_of(m) & 1 != 0,
        spec_observation(
            SignalId::MayShareBlocks,
            ObservationRelation::PossibleWidthExplanation,
            ObservationScope::Inode,
        ),
    ) + when(
        (match m.resource_fork_allocated_bytes {
            Some(b) => b,
            None => 0,
        }) > 0,
        spec_observation(
            SignalId::ResourceForkAllocated,
            ObservationRelation::TestedWidthCorrelate,
            ObservationScope::Object,
        ),
    ) + when(
        m.bsd_flags & 0x20 != 0,
        spec_observation(
            SignalId::FilesystemCompressed,
            ObservationRelation::TestedWidthCorrelate,
            ObservationScope::Object,
        ),
    ) + when(
        extended_of(m) & 0x10 != 0,
        spec_observation(
            SignalId::Sparse,
            ObservationRelation::LogicalAllocationGap,
            ObservationScope::Object,
        ),
    ) + when(
        extended_of(m) & 0x08 != 0,
        spec_observation(
            SignalId::Purgeable,
            ObservationRelation::ReclaimPolicy,
            ObservationScope::Object,
        ),
    ) + when(
        m.link_count > 1,
        spec_observation(
            SignalId::MultipleHardlinks,
            ObservationRelation::DeletionScope,
            ObservationScope::Inode,
        ),
    )
}

fn push_when(out: &mut Vec<SignalObservation>, c: bool, o: SignalObservation)
    ensures
        final(out)@ == old(out)@ + when(c, o),
{
    if c {
        out.push(o);
        assert(final(out)@ =~= old(out)@ + when(c, o));
    } else {
        assert(old(out)@ + when(c, o) =~= old(out)@);
    }
}

pub fn object_observations(measured: &ObjectMeasurements) -> (r: Vec<SignalObservation>)
    ensures
        r@ == spec_object_observations(*measured),
{
    let extended: u64 = match measured.extended_flags {
        Some(f) => f,
        None => 0,
    };
    let fork: u64 = match measured.resource_fork_allocated_bytes {
        Some(b) => b,
        None => 0,
    };
    let mut out: Vec<SignalObservation> = Vec::new();
    push_when(
        &mut out,
        extended & 1 != 0,
        observation(
            SignalId::MayShareBlocks,
            ObservationRelation::PossibleWidthExplanation,
            ObservationScope::Inode,
        ),
    );
    push_when(
        &mut out,
        fork > 0,
        observation(
            SignalId::ResourceForkAllocated,
            ObservationRelation::TestedWidthCorrelate,
            ObservationScope::Object,
        ),
    );
    push_when(
        &mut out,
        measured.bsd_flags & 0x20 != 0,
        observation(
            SignalId::FilesystemCompressed,
            ObservationRelation::TestedWidthCorrelate,
            ObservationScope::Object,
        ),
    );
    push_when(
        &mut out,
        extended & 0x10 != 0,
        observation(
            SignalId::Sparse,
            ObservationRelation::LogicalAllocationGap,
            ObservationScope::Object,
        ),
    );
    push_when(
        &mut out,
        extended & 0x08 != 0,
        observation(
            SignalId::Purgeable,
            ObservationRelation::ReclaimPolicy,
            ObservationScope::Object,
        ),
    );
    push_when(
        &mut out,
        measured.link_count > 1,
        observation(
            SignalId::MultipleHardlinks,
            ObservationRelation::DeletionScope,
            ObservationScope::Inode,
        ),
    );
    assert(out@ =~= spec_object_observations(*measured));
    out
}

/// `path` lies at or below one of the excluded paths, component by component.
pub open spec fn spec_excluded(path: Seq<char>, excludes: Seq<String>) -> bool {
    exists|i: int| 0 <= i < excludes.len() && starts_with(path, #[trigger] excludes[i]@)
}

pub fn excluded(path: &str, excludes: &[String]) -> (r: bool)
    ensures
        r == spec_excluded(path@, excludes@),
{
    let p = chars_of(path);
    let mut i: usize = 0;
    while i < excludes.len()
        invariant
            i <= excludes@.len(),
            p@ == path@,
            forall|j: int| 0 <= j < i ==> !starts_with(path@, #[trigger] excludes@[j]@),
        decreases excludes.len() - i,
    {
        let e = chars_of(excludes[i].as_str());
        if path_starts_with(p.as_slice(), e.as_slice()) {
            return true;
        }
        i = i + 1;
    }
    false
}

/// How many of `entries` measured the inode `id`.
pub open spec fn count_same(entries: Seq<ObjectMeasurements>, id: FileIdentity) -> nat
    decreases entries.len(),
{
    if entries.len() == 0 {
        0
    } else {
        count_same(entries.drop_last(), id) + if same_identity(entries.last().identity, id) {
            1nat
        } else {
            0nat
        }
    }
}

/// Entry `i` is the first measurement of its inode.
pub open spec fn first_of_inode(entries: Seq<ObjectMeasurements>, i: int) -> bool {
    forall|j: int| 0 <= j < i ==> !same_identity(#[trigger] entries[j].identity, entries[i].identity)
}

/// The inodes are listed in strictly increasing identity order.
#[verifier::opaque]
pub open spec fn inodes_sorted(objects: Seq<(ObjectMeasurements, u64)>) -> bool {
    forall|a: int, b: int|
        0 <= a < b < objects.len() ==> identity_lt(
            #[trigger] objects[a].0.identity,
            #[trigger] objects[b].0.identity,
        )
}

/// `m` is an entry of `entries` that is the first measurement of its inode.
pub open spec fn first_entry(entries: Seq<ObjectMeasurements>, m: ObjectMeasurements) -> bool {
    exists|f: int| 0 <= f < entries.len() && #[trigger] entries[f] == m && first_of_inode(entries, f)
}

/// Each listed inode is the first entry that measured it.
#[verifier::opaque]
pub open spec fn inodes_first(
    entries: Seq<ObjectMeasurements>,
    objects: Seq<(ObjectMeasurements, u64)>,
) -> bool {
    forall|k: int| 0 <= k < objects.len() ==> first_entry(entries, (#[trigger] objects[k]).0)
}

/// Each listed inode carries the number of entries that measured it.
#[verifier::opaque]
pub open spec fn inodes_counted(
    entries: Seq<ObjectMeasurements>,
    objects: Seq<(ObjectMeasurements, u64)>,
) -> bool {
    forall|k: int|
        0 <= k < objects.len() ==> (#[trigger] objects[k]).1 == count_same(
            entries,
            objects[k].0.identity,
        )
}

/// Every measured entry's inode is listed.
#[verifier::opaque]
pub open spec fn inodes_cover(
    entries: Seq<ObjectMeasurements>,
    objects: Seq<(ObjectMeasurements, u64)>,
) -> bool {
    forall|f: int|
        0 <= f < entries.len() ==> exists|k: int|
            0 <= k < objects.len() && same_identity(
                (#[trigger] objects[k]).0.identity,
                #[trigger] entries[f].identity,
            )
}

/// `objects` holds each inode that `entries` measured exactly once, in identity
/// order, as its first measurement with the number of entries that reached it.
pub open spec fn inodes_of(
    entries: Seq<ObjectMeasurements>,
    objects: Seq<(ObjectMeasurements, u64)>,
) -> bool {
    &&& inodes_sorted(objects)
    &&& inodes_first(entries, objects)
    &&& inodes_counted(entries, objects)
    &&& inodes_cover(entries, objects)
}

proof fn lemma_count_push(entries: Seq<ObjectMeasurements>, e: ObjectMeasurements, id: FileIdentity)
    ensures
        count_same(entries.push(e), id) == count_same(entries, id) + if same_identity(
            e.identity,
            id,
        ) {
            1nat
        } else {
            0nat
        },
{
    assert(entries.push(e).drop_last() =~= entries);
}

proof fn lemma_count_bound(entries: Seq<ObjectMeasurements>, id: FileIdentity)
    ensures
        count_same(entries, id) <= entries.len(),
    decreases entries.len(),
{
    if entries.len() > 0 {
        lemma_count_bound(entries.drop_last(), id);
    }
}

/// Groups measured entries by inode: one element per inode, in identity order, with
/// the first measurement of the inode and the number of entries that reached it.
pub fn group_inodes(entries: &[ObjectMeasurements]) -> (r: Vec<(ObjectMeasurements, u64)>)
    ensures
        inodes_of(entries@, r@),
{
    let mut objects: Vec<(ObjectMeasurements, u64)> = Vec::new();
    let mut i: usize = 0;
    proof {
        reveal(inodes_sorted);
        reveal(inodes_first);
        reveal(inodes_counted);
        reveal(inodes_cover);
    }
    while i < entries.len()
        invariant
            i <= entries@.len(),
            inodes_of(entries@.subrange(0, i as int), objects@),
        decreases entries.len() - i,
    {
        let e = entries[i];
        let ghost before = entries@.subrange(0, i as int);
        let ghost after = entries@.subrange(0, i + 1);
        assert(after =~= before.push(e));
        let mut j: usize = 0;
        while j < objects.len() && identity_lt_exec(&objects[j].0.identity, &e.identity)
            invariant
                j <= objects@.len(),
                forall|a: int| 0 <= a < j ==> identity_lt(#[trigger] objects@[a].0.identity, e.identity),
            decreases objects.len() - j,
        {
            j = j + 1;
        }
        if j < objects.len() && same_identity_exec(&objects[j].0.identity, &e.identity) {
            let (m, c) = objects[j];
            proof {
                lemma_counted_at(before, objects@, j as int);
                lemma_count_bound(before, objects@[j as int].0.identity);
                lemma_count_increment(before, e, objects@, j as int);
            }
            objects.set(j, (m, c + 1));
        } else {
            proof {
                lemma_count_insert(before, e, objects@, j as int);
            }
            objects.insert(j, (e, 1));
        }
        i = i + 1;
    }
    assert(entries@.subrange(0, entries@.len() as int) =~= entries@);
    objects
}

proof fn lemma_sorted_neighbours(objects: Seq<(ObjectMeasurements, u64)>, a: int, b: int)
    requires
        inodes_sorted(objects),
        0 <= a < b < objects.len(),
    ensures
        identity_lt(objects[a].0.identity, objects[b].0.identity),
{
    reveal(inodes_sorted);
}

proof fn lemma_counted_at(
    entries: Seq<ObjectMeasurements>,
    objects: Seq<(ObjectMeasurements, u64)>,
    k: int,
)
    requires
        inodes_counted(entries, objects),
        0 <= k < objects.len(),
    ensures
        objects[k].1 == count_same(entries, objects[k].0.identity),
{
    reveal(inodes_counted);
}

proof fn lemma_first_push(
    before: Seq<ObjectMeasurements>,
    e: ObjectMeasurements,
    objects: Seq<(ObjectMeasurements, u64)>,
    old_objects: Seq<(ObjectMeasurements, u64)>,
    map: spec_fn(int) -> int,
    j: int,
    fresh: bool,
)
    requires
        inodes_first(before, old_objects),
        fresh ==> 0 <= j < objects.len() && objects[j].0 == e && first_of_inode(
            before.push(e),
            before.len() as int,
        ),
        forall|k: int|
            0 <= k < objects.len() && !(fresh && k == j) ==> 0 <= #[trigger] map(k)
                < old_objects.len() && objects[k].0 == old_objects[map(k)].0,
    ensures
        inodes_first(before.push(e), objects),
{
    reveal(inodes_first);
    let after = before.push(e);
    assert forall|k: int| 0 <= k < objects.len() implies first_entry(after, (#[trigger] objects[k]).0) by {
        if fresh && k == j {
            assert(after[before.len() as int] == objects[k].0);
        } else {
            let ok = map(k);
            assert(first_entry(before, old_objects[ok].0));
            let f = choose|f: int|
                0 <= f < before.len() && #[trigger] before[f] == old_objects[ok].0
                    && first_of_inode(before, f);
            assert(after[f] == before[f]);
            assert forall|g: int| 0 <= g < f implies !same_identity(
                #[trigger] after[g].identity,
                after[f].identity,
            ) by {
                assert(after[g] == before[g]);
            }
        }
    }
    assert(inodes_first(after, objects));
}

proof fn lemma_cover_push(
    before: Seq<ObjectMeasurements>,
    e: ObjectMeasurements,
    objects: Seq<(ObjectMeasurements, u64)>,
    old_objects: Seq<(ObjectMeasurements, u64)>,
    map: spec_fn(int) -> int,
    j: int,
)
    requires
        inodes_cover(before, old_objects),
        0 <= j < objects.len(),
        same_identity(objects[j].0.identity, e.identity),
        forall|k: int|
            0 <= k < old_objects.len() ==> 0 <= #[trigger] map(k) < objects.len()
                && objects[map(k)].0 == old_objects[k].0,
    ensures
        inodes_cover(before.push(e), objects),
{
    reveal(inodes_cover);
    let after = before.push(e);
    assert forall|f: int| 0 <= f < after.len() implies exists|k: int|
        0 <= k < objects.len() && same_identity(
            (#[trigger] objects[k]).0.identity,
            #[trigger] after[f].identity,
        ) by {
        if f < before.len() {
            assert(after[f] == before[f]);
            let k = choose|k: int|
                0 <= k < old_objects.len() && same_identity(
                    (#[trigger] old_objects[k]).0.identity,
                    #[trigger] before[f].identity,
                );
            assert(objects[map(k)].0 == old_objects[k].0);
        } else {
            assert(after[f] == e);
        }
    }
}

proof fn lemma_count_increment(
    before: Seq<ObjectMeasurements>,
    e: ObjectMeasurements,
    old_objects: Seq<(ObjectMeasurements, u64)>,
    j: int,
)
    requires
        inodes_of(before, old_objects),
        0 <= j < old_objects.len(),
        same_identity(old_objects[j].0.identity, e.identity),
        old_objects[j].1 < u64::MAX,
    ensures
        inodes_of(
            before.push(e),
            old_objects.update(j, (old_objects[j].0, (old_objects[j].1 + 1) as u64)),
        ),
{
    let after = before.push(e);
    let objects = old_objects.update(j, (old_objects[j].0, (old_objects[j].1 + 1) as u64));
    assert(inodes_sorted(objects)) by {
        reveal(inodes_sorted);
        assert forall|a: int, b: int| 0 <= a < b < objects.len() implies identity_lt(
            #[trigger] objects[a].0.identity,
            #[trigger] objects[b].0.identity,
        ) by {
            lemma_sorted_neighbours(old_objects, a, b);
        }
    }
    assert(inodes_counted(after, objects)) by {
        reveal(inodes_counted);
        assert forall|k: int| 0 <= k < objects.len() implies (#[trigger] objects[k]).1
            == count_same(after, objects[k].0.identity) by {
            lemma_count_push(before, e, objects[k].0.identity);
            lemma_counted_at(before, old_objects, k);
            if k < j {
                lemma_sorted_neighbours(old_objects, k, j);
            } else if k > j {
                lemma_sorted_neighbours(old_objects, j, k);
            }
        }
    }
    let id_map = |k: int| k;
    lemma_first_push(before, e, objects, old_objects, id_map, j, false);
    lemma_cover_push(before, e, objects, old_objects, id_map, j);
}

proof fn lemma_count_insert(
    before: Seq<ObjectMeasurements>,
    e: ObjectMeasurements,
    old_objects: Seq<(ObjectMeasurements, u64)>,
    j: int,
)
    requires
        inodes_of(before, old_objects),
        0 <= j <= old_objects.len(),
        forall|a: int| 0 <= a < j ==> identity_lt(#[trigger] old_objects[a].0.identity, e.identity),
        j < old_objects.len() ==> !identity_lt(old_objects[j].0.identity, e.identity)
            && !same_identity(old_objects[j].0.identity, e.identity),
    ensures
        inodes_of(before.push(e), old_objects.insert(j, (e, 1u64))),
{
    let after = before.push(e);
    let i = before.len() as int;
    let objects = old_objects.insert(j, (e, 1u64));
    assert forall|k: int| 0 <= k < old_objects.len() implies !same_identity(
        #[trigger] old_objects[k].0.identity,
        e.identity,
    ) by {
        if k > j {
            lemma_sorted_neighbours(old_objects, j, k);
        }
    }
    assert(inodes_sorted(objects)) by {
        reveal(inodes_sorted);
        assert forall|a: int, b: int| 0 <= a < b < objects.len() implies identity_lt(
            #[trigger] objects[a].0.identity,
            #[trigger] objects[b].0.identity,
        ) by {
            if b < j {
                lemma_sorted_neighbours(old_objects, a, b);
            } else if b == j {
            } else if a < j {
                if b - 1 != j {
                    lemma_sorted_neighbours(old_objects, j, b - 1);
                }
            } else if a == j {
                if b - 1 != j {
                    lemma_sorted_neighbours(old_objects, j, b - 1);
                }
            } else {
                lemma_sorted_neighbours(old_objects, a - 1, b - 1);
            }
        }
    }
    assert forall|g: int| 0 <= g < before.len() implies !same_identity(
        #[trigger] before[g].identity,
        e.identity,
    ) by {
        reveal(inodes_cover);
        let k = choose|k: int|
            0 <= k < old_objects.len() && same_identity(
                (#[trigger] old_objects[k]).0.identity,
                #[trigger] before[g].identity,
            );
        assert(!same_identity(old_objects[k].0.identity, e.identity));
    }
    lemma_count_absent(before, e.identity);
    assert(first_of_inode(after, i)) by {
        assert forall|g: int| 0 <= g < i implies !same_identity(
            #[trigger] after[g].identity,
            after[i].identity,
        ) by {
            assert(after[g] == before[g]);
        }
    }
    assert(inodes_counted(after, objects)) by {
        reveal(inodes_counted);
        assert forall|k: int| 0 <= k < objects.len() implies (#[trigger] objects[k]).1
            == count_same(after, objects[k].0.identity) by {
            lemma_count_push(before, e, objects[k].0.identity);
            if k < j {
                lemma_counted_at(before, old_objects, k);
            } else if k > j {
                lemma_counted_at(before, old_objects, k - 1);
            }
        }
    }
    let back = |k: int|
        if k < j {
            k
        } else {
            k - 1
        };
    let forward = |k: int|
        if k < j {
            k
        } else {
            k + 1
        };
    lemma_first_push(before, e, objects, old_objects, back, j, true);
    lemma_cover_push(before, e, objects, old_objects, forward, j);
}

proof fn lemma_count_absent(entries: Seq<ObjectMeasurements>, id: FileIdentity)
    requires
        forall|g: int| 0 <= g < entries.len() ==> !same_identity(#[trigger] entries[g].identity, id),
    ensures
        count_same(entries, id) == 0,
    decreases entries.len(),
{
    if entries.len() > 0 {
        let rest = entries.drop_last();
        assert forall|g: int| 0 <= g < rest.len() implies !same_identity(#[trigger] rest[g].identity, id) by {
            assert(rest[g] == entries[g]);
        }
        lemma_count_absent(rest, id);
        assert(!same_identity(entries[entries.len() - 1].identity, id));
    }
}

/// The order that `SignalObservation` derives: kind, signal, relation, scope.
pub open spec fn rank_le() -> spec_fn(SignalObservation, SignalObservation) -> bool {
    |a: SignalObservation, b: SignalObservation| observation_rank(a) <= observation_rank(b)
}

/// Sorts observations by their derived order and drops repeated neighbours.
pub fn sorted_distinct(obs: &Vec<SignalObservation>) -> (r: Vec<SignalObservation>)
    ensures
        r@ == dedup_consecutive(sort_stable(obs@, rank_le())),
{
    let mut sorted: Vec<SignalObservation> = Vec::new();
    let mut i: usize = 0;
    while i < obs.len()
        invariant
            i <= obs.len(),
            sorted@ == sort_stable(obs@.subrange(0, i as int), rank_le()),
        decreases obs.len() - i,
    {
        let x = obs[i];
        let kx = rank_of(x);
        let mut j: usize = sorted.len();
        while j > 0 && rank_of(sorted[j - 1]) > kx
            invariant
                j <= sorted.len(),
                kx as int == observation_rank(x),
                forall|k: int| j <= k < sorted@.len() ==> !(rank_le())(#[trigger] sorted@[k], x),
            decreases j,
        {
            j = j - 1;
        }
        proof {
            lemma_insert_at(sorted@, x, rank_le(), j as int);
            let next = obs@.subrange(0, i + 1);
            assert(next.drop_last() =~= obs@.subrange(0, i as int));
        }
        sorted.insert(j, x);
        i = i + 1;
    }
    assert(obs@.subrange(0, obs@.len() as int) =~= obs@);
    let mut out: Vec<SignalObservation> = Vec::new();
    let mut k: usize = 0;
    while k < sorted.len()
        invariant
            k <= sorted.len(),
            out@ == dedup_consecutive(sorted@.subrange(0, k as int)),
        decreases sorted.len() - k,
    {
        let ghost next = sorted@.subrange(0, k + 1);
        assert(next.drop_last() =~= sorted@.subrange(0, k as int));
        if k == 0 || sorted[k] != sorted[k - 1] {
            out.push(sorted[k]);
        }
        k = k + 1;
    }
    assert(sorted@.subrange(0, sorted@.len() as int) =~= sorted@);
    out
}

/// The sum of the logical sizes of the first `n` inodes.
pub open spec fn logical_total(objects: Seq<(ObjectMeasurements, u64)>, n: int) -> int
    decreases n,
{
    if n <= 0 {
        0
    } else {
        logical_total(objects, n - 1) + objects[n - 1].0.logical_bytes
    }
}

/// The sum of the allocated sizes of the first `n` inodes, taken in order: unknown
/// from the first inode whose allocated size is missing or whose addition leaves 64
/// bits.
pub open spec fn allocated_total(objects: Seq<(ObjectMeasurements, u64)>, n: int) -> Option<int>
    decreases n,
{
    if n <= 0 {
        Some(0)
    } else {
        match (allocated_total(objects, n - 1), objects[n - 1].0.allocated_bytes) {
            (Some(t), Some(b)) => if t + b <= u64::MAX {
                Some(t + b)
            } else {
                None
            },
            _ => None,
        }
    }
}

/// The signals of the first `n` inodes, one inode after another.
pub open spec fn raw_observations(objects: Seq<(ObjectMeasurements, u64)>, n: int) -> Seq<
    SignalObservation,
>
    decreases n,
{
    if n <= 0 {
        Seq::empty()
    } else {
        raw_observations(objects, n - 1) + spec_object_observations(objects[n - 1].0)
    }
}

/// The signals of a store: the volume's snapshots when it has some, and every inode's
/// signals, sorted and without repeats.
pub open spec fn store_observations(objects: Seq<(ObjectMeasurements, u64)>, snapshots: bool) -> Seq<
    SignalObservation,
> {
    dedup_consecutive(
        sort_stable(
            when(
                snapshots,
                spec_observation(
                    SignalId::VolumeHasSnapshots,
                    ObservationRelation::PossibleWidthExplanation,
                    ObservationScope::Volume,
                ),
            ) + raw_observations(objects, objects.len() as int),
            rank_le(),
        ),
    )
}

/// An extent that stands for one inode of a store: file forks, with the inode's link
/// count, covered links and sizes.
pub open spec fn extent_agrees(e: ExtentObservation, o: (ObjectMeasurements, u64)) -> bool {
    &&& e.identity == o.0.identity
    &&& e.kind == ExtentKind::FileForks
    &&& e.link_count == o.0.link_count
    &&& e.covered_link_count == o.1
    &&& e.allocated_bytes == o.0.allocated_bytes
    &&& e.private_bytes == o.0.private_bytes
}

/// A measurement with the given fields, its gap IDs and scope ID taken as text.
pub open spec fn measurement_is(
    m: Measurement,
    plane: MeasurementPlane,
    quantity: MeasurementQuantity,
    basis: MeasurementBasis,
    kind: MeasurementScopeKind,
    id: Seq<char>,
    status: MeasurementCoverageStatus,
    gaps: Seq<Seq<char>>,
    value: MeasurementValue,
) -> bool {
    &&& m.plane == plane
    &&& m.quantity == quantity
    &&& m.basis == basis
    &&& m.scope.kind == kind
    &&& m.scope.id@ == id
    &&& m.coverage.status == status
    &&& m.coverage.gap_view() == gaps
    &&& m.value == value
}

#[derive(Clone, Copy, Debug, Eq, PartialEq, Structural)]
pub struct StoreOverflow;

fn coverage_of(status: MeasurementCoverageStatus, gap: Option<&str>) -> (r: MeasurementCoverage)
    ensures
        r.status == status,
        r.gap_view() == match gap {
            Some(g) => seq![g@],
            None => Seq::<Seq<char>>::empty(),
        },
{
    let mut gap_ids: Vec<String> = Vec::new();
    match gap {
        Some(g) => {
            gap_ids.push(g.to_owned());
        },
        None => {},
    }
    let r = MeasurementCoverage { status, gap_ids };
    assert(r.gap_view() =~= match gap {
        Some(g) => seq![g@],
        None => Seq::<Seq<char>>::empty(),
    });
    r
}

/// The extents that stand for the inodes of a store; their signals play no part.
pub open spec fn store_extents(objects: Seq<(ObjectMeasurements, u64)>) -> Seq<ExtentObservation> {
    Seq::new(
        objects.len(),
        |i: int|
            ExtentObservation {
                identity: objects[i].0.identity,
                kind: ExtentKind::FileForks,
                link_count: objects[i].0.link_count,
                covered_link_count: objects[i].1,
                allocated_bytes: objects[i].0.allocated_bytes,
                private_bytes: objects[i].0.private_bytes,
                signals: arbitrary(),
            },
    )
}

proof fn lemma_allocated_range(objects: Seq<(ObjectMeasurements, u64)>, n: int)
    ensures
        allocated_total(objects, n) matches Some(t) ==> 0 <= t <= u64::MAX,
    decreases n,
{
    if n > 0 {
        lemma_allocated_range(objects, n - 1);
    }
}

proof fn lemma_logical_mono(objects: Seq<(ObjectMeasurements, u64)>, a: int, b: int)
    requires
        0 <= a <= b <= objects.len(),
    ensures
        logical_total(objects, a) <= logical_total(objects, b),
    decreases b - a,
{
    if a < b {
        lemma_logical_mono(objects, a, b - 1);
    }
}

/// The three measurements of a store and its signals. The logical size is the exact
/// sum over its inodes; the allocated footprint the exact sum, or unmeasurable as
/// soon as one inode's allocation is unknown; the disposition interval that of its
/// inodes with no snapshot stability assumed. Fails when the logical sum or the
/// interval leaves 64 bits.
pub fn store_measurements(
    objects: &Vec<(ObjectMeasurements, u64)>,
    volume_has_snapshots: bool,
    scope: &str,
) -> (r: Result<(Vec<Measurement>, Vec<SignalObservation>), StoreOverflow>)
    ensures
        r is Err <==> (logical_total(objects@, objects@.len() as int) > u64::MAX
            || spec_estimate_disposition(store_extents(objects@), false) is None),
        r matches Ok((ms, obs)) ==> {
            let est = spec_estimate_disposition(store_extents(objects@), false)->0;
            let allocated = allocated_total(objects@, objects@.len() as int);
            &&& ms@.len() == 3
            &&& measurement_is(
                ms@[0],
                MeasurementPlane::ToolchainAttribution,
                MeasurementQuantity::LogicalSize,
                MeasurementBasis::LogicalSize,
                MeasurementScopeKind::ToolchainStore,
                scope@,
                MeasurementCoverageStatus::Complete,
                Seq::empty(),
                MeasurementValue::ExactBytes {
                    bytes: logical_total(objects@, objects@.len() as int) as u64,
                },
            )
            &&& measurement_is(
                ms@[1],
                MeasurementPlane::ToolchainAttribution,
                MeasurementQuantity::AllocatedFootprint,
                MeasurementBasis::AllocatedFootprint,
                MeasurementScopeKind::ToolchainStore,
                scope@,
                if allocated is Some {
                    MeasurementCoverageStatus::Complete
                } else {
                    MeasurementCoverageStatus::Unmeasurable
                },
                if allocated is Some {
                    Seq::empty()
                } else {
                    seq!["allocated_size_unmeasurable"@]
                },
                match allocated {
                    Some(t) => MeasurementValue::ExactBytes { bytes: t as u64 },
                    None => MeasurementValue::Unmeasurable,
                },
            )
            &&& measurement_is(
                ms@[2],
                MeasurementPlane::DispositionEstimate,
                MeasurementQuantity::DispositionEstimate,
                MeasurementBasis::PrivateFloorAllocatedCeiling,
                MeasurementScopeKind::ObjectSet,
                scope@,
                if est.has_unmeasurable_objects {
                    MeasurementCoverageStatus::Partial
                } else {
                    MeasurementCoverageStatus::Complete
                },
                if est.has_unmeasurable_objects {
                    seq!["private_or_allocated_size_unmeasurable"@]
                } else {
                    Seq::empty()
                },
                MeasurementValue::IntervalBytes {
                    floor_bytes: est.floor_bytes,
                    ceiling_bytes: est.ceiling_bytes,
                    applicable_action: DispositionAction::PermanentUnlinkAfterReferencesClose,
                },
            )
            &&& obs@ == store_observations(objects@, volume_has_snapshots)
        },
{
    let n = objects.len();
    let mut logical: u64 = 0;
    let mut allocated: Option<u64> = Some(0);
    let mut extents: Vec<ExtentObservation> = Vec::new();
    let mut raw: Vec<SignalObservation> = Vec::new();
    let snapshot_signal = observation(
        SignalId::VolumeHasSnapshots,
        ObservationRelation::PossibleWidthExplanation,
        ObservationScope::Volume,
    );
    push_when(&mut raw, volume_has_snapshots, snapshot_signal);
    let ghost head = when(volume_has_snapshots, snapshot_signal);
    let mut i: usize = 0;
    while i < n
        invariant
            n == objects@.len(),
            i <= n,
            logical as int == logical_total(objects@, i as int),
            match allocated_total(objects@, i as int) {
                Some(t) => allocated == Some(t as u64),
                None => allocated is None,
            },
            extents@.len() == i,
            forall|k: int| 0 <= k < i ==> extent_agrees(#[trigger] extents@[k], objects@[k]),
            raw@ == head + raw_observations(objects@, i as int),
        decreases n - i,
    {
        let (m, covered) = objects[i];
        let next = logical.checked_add(m.logical_bytes);
        match next {
            None => {
                proof {
                    lemma_logical_mono(objects@, i + 1, n as int);
                }
                return Err(StoreOverflow);
            },
            Some(v) => {
                logical = v;
            },
        }
        proof {
            lemma_allocated_range(objects@, i as int);
            lemma_allocated_range(objects@, i + 1);
        }
        allocated = match (allocated, m.allocated_bytes) {
            (Some(t), Some(b)) => t.checked_add(b),
            _ => None,
        };
        extents.push(
            ExtentObservation {
                identity: m.identity,
                kind: ExtentKind::FileForks,
                link_count: m.link_count,
                covered_link_count: covered,
                allocated_bytes: m.allocated_bytes,
                private_bytes: m.private_bytes,
                signals: Vec::new(),
            },
        );
        let ghost before = raw@;
        let mut signals = object_observations(&m);
        raw.append(&mut signals);
        assert(raw@ =~= head + raw_observations(objects@, i + 1));
        i = i + 1;
    }
    proof {
        assert(agree_but_signals(extents@, store_extents(objects@)));
        lemma_signals_never_move_the_interval(extents@, store_extents(objects@), false);
    }
    let estimate = match estimate_disposition(extents.as_slice(), false) {
        Ok(e) => e,
        Err(_) => {
            return Err(StoreOverflow);
        },
    };
    let observations = sorted_distinct(&raw);
    let scope_text = scope.to_owned();
    let logical_measurement = Measurement {
        plane: MeasurementPlane::ToolchainAttribution,
        quantity: MeasurementQuantity::LogicalSize,
        basis: MeasurementBasis::LogicalSize,
        scope: MeasurementScope { kind: MeasurementScopeKind::ToolchainStore, id: scope_text.clone() },
        coverage: coverage_of(MeasurementCoverageStatus::Complete, None),
        value: MeasurementValue::ExactBytes { bytes: logical },
    };
    let allocated_measurement = Measurement {
        plane: MeasurementPlane::ToolchainAttribution,
        quantity: MeasurementQuantity::AllocatedFootprint,
        basis: MeasurementBasis::AllocatedFootprint,
        scope: MeasurementScope { kind: MeasurementScopeKind::ToolchainStore, id: scope_text.clone() },
        coverage: match allocated {
            Some(_) => coverage_of(MeasurementCoverageStatus::Complete, None),
            None => coverage_of(
                MeasurementCoverageStatus::Unmeasurable,
                Some("allocated_size_unmeasurable"),
            ),
        },
        value: match allocated {
            Some(bytes) => MeasurementValue::ExactBytes { bytes },
            None => MeasurementValue::Unmeasurable,
        },
    };
    let interval_measurement = Measurement {
        plane: MeasurementPlane::DispositionEstimate,
        quantity: MeasurementQuantity::DispositionEstimate,
        basis: MeasurementBasis::PrivateFloorAllocatedCeiling,
        scope: MeasurementScope { kind: MeasurementScopeKind::ObjectSet, id: scope_text },
        coverage: if estimate.has_unmeasurable_objects {
            coverage_of(
                MeasurementCoverageStatus::Partial,
                Some("private_or_allocated_size_unmeasurable"),
            )
        } else {
            coverage_of(MeasurementCoverageStatus::Complete, None)
        },
        value: MeasurementValue::IntervalBytes {
            floor_bytes: estimate.floor_bytes,
            ceiling_bytes: estimate.ceiling_bytes,
            applicable_action: DispositionAction::PermanentUnlinkAfterReferencesClose,
        },
    };
    let mut measurements: Vec<Measurement> = Vec::new();
    measurements.push(logical_measurement);
    measurements.push(allocated_measurement);
    measurements.push(interval_measurement);
    proof {
        reveal_strlit("allocated_size_unmeasurable");
        reveal_strlit("private_or_allocated_size_unmeasurable");
    }
    Ok((measurements, observations))
}


/// The components of a rule pattern below the home directory, split at every `/`;
/// `None` for a pattern that does not start with `~/`, which names nothing.
pub open spec fn spec_pattern_components(pattern: Seq<char>) -> Option<Seq<Seq<char>>> {
    if pattern.len() >= 2 && pattern[0] == '~' && pattern[1] == '/' {
        Some(split_slash(pattern.subrange(2, pattern.len() as int)))
    } else {
        None
    }
}

pub open spec fn string_views(v: Seq<String>) -> Seq<Seq<char>> {
    v.map_values(|s: String| s@)
}

pub fn pattern_components(pattern: &str) -> (r: Option<Vec<String>>)
    ensures
        match spec_pattern_components(pattern@) {
            None => r is None,
            Some(c) => r matches Some(v) && string_views(v@) == c,
        },
{
    let p = chars_of(pattern);
    if p.len() < 2 || p[0] != '~' || p[1] != '/' {
        return None;
    }
    let mut rest: Vec<char> = Vec::new();
    let mut k: usize = 2;
    while k < p.len()
        invariant
            2 <= k <= p@.len(),
            rest@ =~= p@.subrange(2, k as int),
        decreases p.len() - k,
    {
        rest.push(p[k]);
        k = k + 1;
    }
    assert(rest@ =~= pattern@.subrange(2, pattern@.len() as int));
    Some(components_of_chars(rest.as_slice()))
}

/// The components of a relative pattern, split at every `/`.
pub fn split_components(relative: &str) -> (r: Vec<String>)
    ensures
        string_views(r@) == split_slash(relative@),
{
    let chars = chars_of(relative);
    components_of_chars(chars.as_slice())
}

fn components_of_chars(rest: &[char]) -> (r: Vec<String>)
    ensures
        string_views(r@) == split_slash(rest@),
{
    let segs = split_segments(rest);
    let mut out: Vec<String> = Vec::new();
    let mut i: usize = 0;
    while i < segs.len()
        invariant
            i <= segs.len(),
            segs.deep_view() == split_slash(rest@),
            string_views(out@) =~= segs.deep_view().subrange(0, i as int),
        decreases segs.len() - i,
    {
        proof {
            crate::paths::lemma_dv_index(&segs, i as int);
        }
        let ghost before = out@;
        out.push(string_of(segs[i].as_slice()));
        assert(string_views(out@) =~= string_views(before).push(segs.deep_view()[i as int]));
        assert(segs.deep_view().subrange(0, i + 1) =~= segs.deep_view().subrange(0, i as int).push(
            segs.deep_view()[i as int],
        ));
        i = i + 1;
    }
    assert(segs.deep_view().subrange(0, segs.len() as int) =~= segs.deep_view());
    out
}

/// A child matches a pattern component when the component is `*` or names it.
pub open spec fn name_matches(path: Seq<char>, component: Seq<char>) -> bool {
    component == seq!['*'] || file_name(path) == Some(component)
}

/// What one pattern component keeps of one parent's listing, in listing order:
/// the matching directories that no exclusion covers. A matching entry of another
/// kind is passed over under `*` (stores sit beside unrelated files), and is an
/// error naming its path under a literal component, which the rule named itself.
pub open spec fn spec_match_component(
    component: Seq<char>,
    children: Seq<RootEntry>,
    excludes: Seq<String>,
) -> Result<Seq<Seq<char>>, Seq<char>>
    decreases children.len(),
{
    if children.len() == 0 {
        Ok(Seq::empty())
    } else {
        match spec_match_component(component, children.drop_last(), excludes) {
            Err(p) => Err(p),
            Ok(kept) => {
                let c = children.last();
                if spec_excluded(c.path@, excludes) || !name_matches(c.path@, component) {
                    Ok(kept)
                } else if c.kind == RootEntryKind::Directory {
                    Ok(kept.push(c.path@))
                } else if component == seq!['*'] {
                    Ok(kept)
                } else {
                    Err(c.path@)
                }
            },
        }
    }
}

/// An excluded path is never expanded: every path that a pattern component keeps
/// is a directory entry of the listing that no exclusion covers.
pub proof fn lemma_match_keeps_no_excluded_path(
    component: Seq<char>,
    children: Seq<RootEntry>,
    excludes: Seq<String>,
)
    ensures
        spec_match_component(component, children, excludes) matches Ok(kept) ==> forall|k: int|
            0 <= k < kept.len() ==> !spec_excluded(#[trigger] kept[k], excludes) && exists|c: int|
                0 <= c < children.len() && children[c].path@ == kept[k] && children[c].kind
                    == RootEntryKind::Directory,
    decreases children.len(),
{
    if children.len() > 0 {
        let prior = children.drop_last();
        lemma_match_keeps_no_excluded_path(component, prior, excludes);
        if let Ok(kept) = spec_match_component(component, children, excludes) {
            assert forall|k: int| 0 <= k < kept.len() implies !spec_excluded(#[trigger] kept[k], excludes)
                && exists|c: int|
                0 <= c < children.len() && children[c].path@ == kept[k] && children[c].kind
                    == RootEntryKind::Directory by {
                if let Ok(before) = spec_match_component(component, prior, excludes) {
                    if k < before.len() {
                        let c = choose|c: int|
                            0 <= c < prior.len() && prior[c].path@ == before[k] && prior[c].kind
                                == RootEntryKind::Directory;
                        assert(children[c] == prior[c]);
                    } else {
                        assert(children[children.len() - 1].path@ == kept[k]);
                    }
                }
            }
        }
    }
}

proof fn lemma_match_error_stays(
    component: Seq<char>,
    children: Seq<RootEntry>,
    excludes: Seq<String>,
    n: int,
)
    requires
        0 <= n <= children.len(),
        spec_match_component(component, children.subrange(0, n), excludes) is Err,
    ensures
        spec_match_component(component, children, excludes) == spec_match_component(
            component,
            children.subrange(0, n),
            excludes,
        ),
    decreases children.len(),
{
    if n < children.len() {
        assert(children.drop_last().subrange(0, n) =~= children.subrange(0, n));
        lemma_match_error_stays(component, children.drop_last(), excludes, n);
    } else {
        assert(children.subrange(0, n) =~= children);
    }
}

pub fn match_component(component: &str, children: &[RootEntry], excludes: &[String]) -> (r: Result<
    Vec<String>,
    String,
>)
    ensures
        match spec_match_component(component@, children@, excludes@) {
            Err(p) => r matches Err(e) && e@ == p,
            Ok(kept) => r matches Ok(v) && string_views(v@) == kept,
        },
{
    let comp = chars_of(component);
    let wildcard = comp.len() == 1 && comp[0] == '*';
    assert(wildcard == (component@ == seq!['*'])) by {
        if comp@.len() == 1 {
            assert(seq!['*'][0] == '*');
            if component@ == seq!['*'] {
                assert(comp@[0] == '*');
            }
            if comp@[0] == '*' {
                assert(comp@ =~= seq!['*']);
            }
        }
    }
    let mut out: Vec<String> = Vec::new();
    let mut i: usize = 0;
    assert(children@.subrange(0, 0) =~= Seq::<RootEntry>::empty());
    assert(string_views(out@) =~= Seq::<Seq<char>>::empty());
    while i < children.len()
        invariant
            i <= children@.len(),
            comp@ == component@,
            wildcard == (component@ == seq!['*']),
            spec_match_component(component@, children@.subrange(0, i as int), excludes@)
                == Ok::<Seq<Seq<char>>, Seq<char>>(string_views(out@)),
        decreases children.len() - i,
    {
        let ghost before = string_views(out@);
        assert(children@.subrange(0, i + 1).drop_last() =~= children@.subrange(0, i as int));
        let child = &children[i];
        if excluded(child.path.as_str(), excludes) {
            i = i + 1;
            continue;
        }
        let p = chars_of(child.path.as_str());
        let named = wildcard || file_name_is(p.as_slice(), comp.as_slice());
        if !named {
            i = i + 1;
            continue;
        }
        match child.kind {
            RootEntryKind::Directory => {
                let copy = child.path.clone();
                out.push(copy);
                assert(string_views(out@) =~= before.push(child.path@));
            },
            _ => {
                if !wildcard {
                    proof {
                        lemma_match_error_stays(component@, children@, excludes@, i + 1);
                    }
                    return Err(child.path.clone());
                }
            },
        }
        i = i + 1;
    }
    assert(children@.subrange(0, children@.len() as int) =~= children@);
    Ok(out)
}

} // verus!
