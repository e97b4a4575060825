//! A model of Unix path spelling over characters: segments, components,
//! prefix and suffix tests, joining, and the home-relative report form.

use vstd::prelude::*;

use crate::text::{chars_of, string_of};

verus! {

/// The pieces of `s` between `/` separators, empty pieces included.
pub open spec fn split_slash(s: Seq<char>) -> Seq<Seq<char>>
    decreases s.len(),
{
    if s.len() == 0 {
        seq![Seq::<char>::empty()]
    } else {
        let rest = split_slash(s.drop_last());
        if s.last() == '/' {
            rest.push(Seq::<char>::empty())
        } else {
            rest.update(rest.len() - 1, rest.last().push(s.last()))
        }
    }
}

pub proof fn lemma_split_nonempty(s: Seq<char>)
    ensures
        split_slash(s).len() >= 1,
    decreases s.len(),
{
    if s.len() > 0 {
        lemma_split_nonempty(s.drop_last());
    }
}

/// A segment that names a component: neither empty nor a lone `.`.
pub open spec fn is_normal(seg: Seq<char>) -> bool {
    seg.len() > 0 && seg != seq!['.']
}

/// The normal segments, in order.
pub open spec fn normals(segs: Seq<Seq<char>>) -> Seq<Seq<char>>
    decreases segs.len(),
{
    if segs.len() == 0 {
        Seq::empty()
    } else {
        let rest = normals(segs.drop_last());
        if is_normal(segs.last()) {
            rest.push(segs.last())
        } else {
            rest
        }
    }
}

/// The indices of the normal segments, in order.
pub open spec fn normal_positions(segs: Seq<Seq<char>>) -> Seq<int>
    decreases segs.len(),
{
    if segs.len() == 0 {
        Seq::empty()
    } else {
        let rest = normal_positions(segs.drop_last());
        if is_normal(segs.last()) {
            rest.push(segs.len() - 1)
        } else {
            rest
        }
    }
}

pub open spec fn is_absolute(p: Seq<char>) -> bool {
    p.len() > 0 && p[0] == '/'
}

/// The components of a path as `std::path::Path::components` yields them: a root
/// marker for an absolute path, a leading `.` for a relative path spelled from
/// `.`, then every normal segment.
pub open spec fn components(p: Seq<char>) -> Seq<Seq<char>> {
    let segs = split_slash(p);
    let lead = if is_absolute(p) {
        seq![seq!['/']]
    } else if segs[0] == seq!['.'] {
        seq![seq!['.']]
    } else {
        Seq::<Seq<char>>::empty()
    };
    lead + normals(segs)
}

/// `Path::starts_with`: the components of `base` are a prefix of those of `p`.
pub open spec fn starts_with(p: Seq<char>, base: Seq<char>) -> bool {
    components(base).is_prefix_of(components(p))
}

/// `Path::ends_with`: the components of `child` are a suffix of those of `p`.
pub open spec fn ends_with(p: Seq<char>, child: Seq<char>) -> bool {
    components(child).is_suffix_of(components(p))
}

pub open spec fn has_parent_component(p: Seq<char>) -> bool {
    normals(split_slash(p)).contains(seq!['.', '.'])
}

/// Absolute and free of `.` and `..` components.
pub open spec fn is_normalized_absolute(p: Seq<char>) -> bool {
    is_absolute(p) && !has_parent_component(p)
}

/// The segments joined with `/`.
pub open spec fn join_slash(segs: Seq<Seq<char>>) -> Seq<char>
    decreases segs.len(),
{
    if segs.len() == 0 {
        Seq::empty()
    } else if segs.len() == 1 {
        segs[0]
    } else {
        join_slash(segs.drop_last()).push('/') + segs.last()
    }
}

/// `base.join(rel)`: `rel` itself when it is absolute, otherwise `rel` appended
/// after one separator unless `base` is empty or already ends with one.
pub open spec fn join(base: Seq<char>, rel: Seq<char>) -> Seq<char> {
    if is_absolute(rel) {
        rel
    } else if base.len() == 0 || base.last() == '/' {
        base + rel
    } else {
        base.push('/') + rel
    }
}

pub proof fn lemma_dv_index(v: &Vec<Vec<char>>, i: int)
    requires
        0 <= i < v.len(),
    ensures
        v.deep_view()[i] == v@[i]@,
{
    assert(v@[i].deep_view() =~= v@[i]@);
}

/// A fresh vector holding the same characters.
pub fn copy_chars(v: &[char]) -> (r: Vec<char>)
    ensures
        r@ == v@,
{
    let mut out: Vec<char> = Vec::new();
    let mut i: usize = 0;
    while i < v.len()
        invariant
            i <= v.len(),
            out@ =~= v@.subrange(0, i as int),
        decreases v.len() - i,
    {
        out.push(v[i]);
        i = i + 1;
    }
    assert(out@ =~= v@);
    out
}

pub fn split_segments(s: &[char]) -> (r: Vec<Vec<char>>)
    ensures
        r.deep_view() == split_slash(s@),
{
    let mut segs: Vec<Vec<char>> = Vec::new();
    let mut cur: Vec<char> = Vec::new();
    let mut i: usize = 0;
    assert(s@.subrange(0, 0) =~= Seq::<char>::empty());
    while i < s.len()
        invariant
            i <= s.len(),
            segs.deep_view().push(cur@) == split_slash(s@.subrange(0, i as int)),
        decreases s.len() - i,
    {
        let ghost prev = s@.subrange(0, i as int);
        let ghost next = s@.subrange(0, i + 1);
        assert(next.drop_last() =~= prev);
        proof {
            lemma_split_nonempty(prev);
        }
        let c = s[i];
        if c == '/' {
            let ghost before = segs.deep_view();
            let ghost cv = cur@;
            let done = copy_chars(cur.as_slice());
            segs.push(done);
            cur = Vec::new();
            proof {
                lemma_dv_index(&segs, segs.len() - 1);
                assert(segs.deep_view() =~= before.push(cv));
            }
            assert(segs.deep_view().push(cur@) =~= split_slash(prev).push(Seq::<char>::empty()));
        } else {
            let ghost before = segs.deep_view();
            cur.push(c);
            assert(segs.deep_view() =~= before);
            assert(segs.deep_view().push(cur@) =~= split_slash(prev).update(
                split_slash(prev).len() - 1,
                split_slash(prev).last().push(c),
            ));
        }
        i = i + 1;
    }
    assert(s@.subrange(0, s@.len() as int) =~= s@);
    let ghost before = segs.deep_view();
    let ghost cv = cur@;
    segs.push(cur);
    proof {
        lemma_dv_index(&segs, segs.len() - 1);
        assert(segs.deep_view() =~= before.push(cv));
    }
    segs
}

pub fn is_normal_segment(seg: &[char]) -> (r: bool)
    ensures
        r == is_normal(seg@),
{
    if seg.len() == 0 {
        return false;
    }
    if seg.len() == 1 && seg[0] == '.' {
        assert(seg@ =~= seq!['.']);
        return false;
    }
    if seg.len() == 1 {
        assert(seg@ != seq!['.']) by {
            assert(seq!['.'][0] == '.');
        }
    }
    true
}

/// The normal segments of `segs` and their indices.
pub fn normal_segments(segs: &Vec<Vec<char>>) -> (r: (Vec<Vec<char>>, Vec<usize>))
    ensures
        r.0.deep_view() == normals(segs.deep_view()),
        r.1@.len() == normal_positions(segs.deep_view()).len(),
        forall|j: int|
            0 <= j < r.1@.len() ==> r.1@[j] as int == #[trigger] normal_positions(
                segs.deep_view(),
            )[j],
{
    let mut out: Vec<Vec<char>> = Vec::new();
    let mut pos: Vec<usize> = Vec::new();
    let mut i: usize = 0;
    while i < segs.len()
        invariant
            i <= segs.len(),
            out.deep_view() == normals(segs.deep_view().subrange(0, i as int)),
            pos@.len() == normal_positions(segs.deep_view().subrange(0, i as int)).len(),
            forall|j: int|
                0 <= j < pos@.len() ==> pos@[j] as int == #[trigger] normal_positions(
                    segs.deep_view().subrange(0, i as int),
                )[j],
        decreases segs.len() - i,
    {
        let ghost prev = segs.deep_view().subrange(0, i as int);
        let ghost next = segs.deep_view().subrange(0, i + 1);
        assert(next.drop_last() =~= prev);
        assert(next.last() == segs[i as int]@);
        let ghost old_pos = pos@;
        proof {
            lemma_dv_index(segs, i as int);
        }
        if is_normal_segment(segs[i].as_slice()) {
            let ghost before = out.deep_view();
            out.push(copy_chars(segs[i].as_slice()));
            proof {
                lemma_dv_index(&out, out.len() - 1);
                assert(out.deep_view() =~= before.push(segs[i as int]@));
            }
            pos.push(i);
            assert(out.deep_view() =~= normals(prev).push(segs[i as int]@));
            assert forall|j: int| 0 <= j < pos@.len() implies pos@[j] as int
                == #[trigger] normal_positions(next)[j] by {
                if j < old_pos.len() {
                    assert(pos@[j] == old_pos[j]);
                }
            }
        }
        i = i + 1;
    }
    assert(segs.deep_view().subrange(0, segs.len() as int) =~= segs.deep_view());
    (out, pos)
}

pub(crate) proof fn lemma_normal_positions(segs: Seq<Seq<char>>)
    ensures
        normal_positions(segs).len() == normals(segs).len(),
        forall|j: int|
            0 <= j < normals(segs).len() ==> 0 <= #[trigger] normal_positions(segs)[j]
                < segs.len() && segs[normal_positions(segs)[j]] == normals(segs)[j],
        forall|a: int, b: int|
            0 <= a < b < normals(segs).len() ==> #[trigger] normal_positions(segs)[a]
                < #[trigger] normal_positions(segs)[b],
    decreases segs.len(),
{
    if segs.len() > 0 {
        lemma_normal_positions(segs.drop_last());
    }
}

/// The components of a path.
pub fn path_components(p: &[char]) -> (r: Vec<Vec<char>>)
    ensures
        r.deep_view() == components(p@),
{
    let segs = split_segments(p);
    proof {
        lemma_split_nonempty(p@);
    }
    let (norm, _) = normal_segments(&segs);
    let mut out: Vec<Vec<char>> = Vec::new();
    proof {
        lemma_dv_index(&segs, 0);
    }
    if p.len() > 0 && p[0] == '/' {
        let mut root: Vec<char> = Vec::new();
        root.push('/');
        out.push(root);
        proof {
            lemma_dv_index(&out, 0);
            assert(out@[0]@ =~= seq!['/']);
            assert(out.deep_view() =~= seq![seq!['/']]);
        }
    } else if segs[0].len() == 1 && segs[0][0] == '.' {
        assert(segs[0]@ =~= seq!['.']);
        let mut cur: Vec<char> = Vec::new();
        cur.push('.');
        out.push(cur);
        proof {
            lemma_dv_index(&out, 0);
            assert(out@[0]@ =~= seq!['.']);
            assert(out.deep_view() =~= seq![seq!['.']]);
        }
    } else {
        if segs[0].len() == 1 {
            assert(segs@[0]@ != seq!['.']) by {
                assert(segs@[0]@[0] != '.');
            }
        }
    }
    let ghost lead = out.deep_view();
    let mut i: usize = 0;
    while i < norm.len()
        invariant
            i <= norm.len(),
            out.deep_view() =~= lead + norm.deep_view().subrange(0, i as int),
        decreases norm.len() - i,
    {
        let ghost before = out.deep_view();
        proof {
            lemma_dv_index(&norm, i as int);
        }
        out.push(copy_chars(norm[i].as_slice()));
        proof {
            lemma_dv_index(&out, out.len() - 1);
            assert(out.deep_view() =~= before.push(norm.deep_view()[i as int]));
        }
        i = i + 1;
    }
    assert(norm.deep_view().subrange(0, norm.len() as int) =~= norm.deep_view());
    assert(out.deep_view() =~= components(p@));
    out
}

pub fn seq_eq(a: &[char], b: &[char]) -> (r: bool)
    ensures
        r == (a@ == b@),
{
    if a.len() != b.len() {
        return false;
    }
    let mut i: usize = 0;
    while i < a.len()
        invariant
            a.len() == b.len(),
            i <= a.len(),
            forall|j: int| 0 <= j < i ==> a@[j] == b@[j],
        decreases a.len() - i,
    {
        if a[i] != b[i] {
            return false;
        }
        i = i + 1;
    }
    assert(a@ =~= b@);
    true
}

/// `Path::starts_with` over character spellings.
pub fn path_starts_with(p: &[char], base: &[char]) -> (r: bool)
    ensures
        r == starts_with(p@, base@),
{
    let pc = path_components(p);
    let bc = path_components(base);
    if bc.len() > pc.len() {
        return false;
    }
    let mut i: usize = 0;
    while i < bc.len()
        invariant
            pc.deep_view() == components(p@),
            bc.deep_view() == components(base@),
            bc.len() <= pc.len(),
            i <= bc.len(),
            forall|j: int| 0 <= j < i ==> bc.deep_view()[j] == pc.deep_view()[j],
        decreases bc.len() - i,
    {
        proof {
            lemma_dv_index(&bc, i as int);
            lemma_dv_index(&pc, i as int);
        }
        if !seq_eq(bc[i].as_slice(), pc[i].as_slice()) {
            assert(bc.deep_view()[i as int] != pc.deep_view().subrange(0, bc.len() as int)[i as int]);
            assert(!(bc.deep_view() =~= pc.deep_view().subrange(0, bc.len() as int)));
            return false;
        }
        i = i + 1;
    }
    assert(bc.deep_view() =~= pc.deep_view().subrange(0, bc.len() as int));
    true
}

/// `Path::ends_with` over character spellings.
pub fn path_ends_with(p: &[char], child: &[char]) -> (r: bool)
    ensures
        r == ends_with(p@, child@),
{
    let pc = path_components(p);
    let cc = path_components(child);
    if cc.len() > pc.len() {
        return false;
    }
    let off: usize = pc.len() - cc.len();
    let mut i: usize = 0;
    while i < cc.len()
        invariant
            pc.deep_view() == components(p@),
            cc.deep_view() == components(child@),
            cc.len() <= pc.len(),
            off == pc.len() - cc.len(),
            i <= cc.len(),
            forall|j: int| 0 <= j < i ==> cc.deep_view()[j] == pc.deep_view()[off + j],
        decreases cc.len() - i,
    {
        proof {
            lemma_dv_index(&cc, i as int);
            lemma_dv_index(&pc, off + i);
        }
        if !seq_eq(cc[i].as_slice(), pc[off + i].as_slice()) {
            assert(cc.deep_view()[i as int] != pc.deep_view().subrange(
                off as int,
                pc.len() as int,
            )[i as int]);
            assert(!(cc.deep_view() =~= pc.deep_view().subrange(off as int, pc.len() as int)));
            return false;
        }
        i = i + 1;
    }
    assert(cc.deep_view() =~= pc.deep_view().subrange(off as int, pc.len() as int));
    true
}

/// The spelling of `path` below a prefix whose normal components number `k`:
/// `~` when nothing follows, otherwise `~/` and the raw segments from the first
/// remaining component to the last one.
pub open spec fn home_relative(path: Seq<char>, k: int) -> Seq<char> {
    let segs = split_slash(path);
    let pos = normal_positions(segs);
    if pos.len() <= k {
        seq!['~']
    } else {
        seq!['~', '/'] + join_slash(segs.subrange(pos[k], pos[pos.len() - 1] + 1))
    }
}

pub fn has_parent_dir(p: &[char]) -> (r: bool)
    ensures
        r == has_parent_component(p@),
{
    let segs = split_segments(p);
    let (norm, _) = normal_segments(&segs);
    let mut i: usize = 0;
    while i < norm.len()
        invariant
            norm.deep_view() == normals(split_slash(p@)),
            i <= norm.len(),
            forall|j: int| 0 <= j < i ==> norm.deep_view()[j] != seq!['.', '.'],
        decreases norm.len() - i,
    {
        proof {
            lemma_dv_index(&norm, i as int);
        }
        if norm[i].len() == 2 && norm[i][0] == '.' && norm[i][1] == '.' {
            assert(norm.deep_view()[i as int] =~= seq!['.', '.']);
            return true;
        }
        assert(norm.deep_view()[i as int] != seq!['.', '.']) by {
            if norm[i as int]@.len() == 2 {
                assert(seq!['.', '.'][0] == '.' && seq!['.', '.'][1] == '.');
            }
        }
        i = i + 1;
    }
    false
}

pub fn normalized_absolute(p: &[char]) -> (r: bool)
    ensures
        r == is_normalized_absolute(p@),
{
    p.len() > 0 && p[0] == '/' && !has_parent_dir(p)
}

/// Computes `home_relative(path, k)`.
pub fn relative_spelling(path: &[char], k: usize) -> (r: Vec<char>)
    ensures
        r@ == home_relative(path@, k as int),
{
    let segs = split_segments(path);
    let (_, pos) = normal_segments(&segs);
    proof {
        lemma_normal_positions(segs.deep_view());
    }
    let mut out: Vec<char> = Vec::new();
    out.push('~');
    if pos.len() <= k {
        assert(out@ =~= seq!['~']);
        return out;
    }
    out.push('/');
    let first = pos[k];
    let last = pos[pos.len() - 1];
    proof {
        if k < pos.len() - 1 {
            assert(normal_positions(segs.deep_view())[k as int] < normal_positions(
                segs.deep_view(),
            )[pos.len() - 1]);
        }
    }
    let ghost sv = segs.deep_view();
    let mut idx: usize = first;
    while idx <= last
        invariant
            sv == segs.deep_view(),
            first <= last < segs.len(),
            first <= idx <= last + 1,
            out@ =~= seq!['~', '/'] + (if idx == first {
                Seq::<char>::empty()
            } else {
                join_slash(sv.subrange(first as int, idx as int))
            }),
        decreases last + 1 - idx,
    {
        let ghost before = out@;
        proof {
            lemma_dv_index(&segs, idx as int);
        }
        if idx > first {
            out.push('/');
        }
        let mut j: usize = 0;
        let ghost mid = out@;
        while j < segs[idx].len()
            invariant
                idx < segs.len(),
                j <= segs[idx as int]@.len(),
                out@ =~= mid + segs[idx as int]@.subrange(0, j as int),
            decreases segs[idx as int]@.len() - j,
        {
            out.push(segs[idx][j]);
            j = j + 1;
        }
        assert(segs[idx as int]@.subrange(0, j as int) =~= segs[idx as int]@);
        let ghost sub = sv.subrange(first as int, idx + 1);
        assert(sub.drop_last() =~= sv.subrange(first as int, idx as int));
        assert(sub.last() == sv[idx as int]);
        if idx == first {
            assert(sub.len() == 1);
            assert(join_slash(sub) == sub[0]);
        }
        idx = idx + 1;
    }
    out
}

/// `Path::join` on characters.
pub fn join_paths(base: &[char], rel: &[char]) -> (r: Vec<char>)
    ensures
        r@ == join(base@, rel@),
{
    if rel.len() > 0 && rel[0] == '/' {
        return copy_chars(rel);
    }
    let mut out = copy_chars(base);
    if !(base.len() == 0 || base[base.len() - 1] == '/') {
        out.push('/');
    }
    crate::text::extend_chars(&mut out, rel);
    out
}


/// `Path::file_name`: the last component when it is a normal name (not `..`).
pub open spec fn file_name(p: Seq<char>) -> Option<Seq<char>> {
    let n = normals(split_slash(p));
    if n.len() > 0 && n.last() != seq!['.', '.'] {
        Some(n.last())
    } else {
        None
    }
}

/// Whether the file name of `p` is `name`.
pub fn file_name_is(p: &[char], name: &[char]) -> (r: bool)
    ensures
        r == (file_name(p@) == Some(name@)),
{
    let segs = split_segments(p);
    let (norm, _) = normal_segments(&segs);
    if norm.len() == 0 {
        return false;
    }
    let k = norm.len() - 1;
    proof {
        lemma_dv_index(&norm, k as int);
    }
    if norm[k].len() == 2 && norm[k][0] == '.' && norm[k][1] == '.' {
        assert(norm.deep_view()[k as int] =~= seq!['.', '.']);
        return false;
    }
    assert(norm.deep_view()[k as int] != seq!['.', '.']) by {
        if norm[k as int]@.len() == 2 {
            assert(seq!['.', '.'][0] == '.' && seq!['.', '.'][1] == '.');
        }
    }
    seq_eq(norm[k].as_slice(), name)
}


/// Splitting text that follows a `/`: the pieces of the head, less its empty last
/// piece, then the pieces of the tail.
pub(crate) proof fn lemma_split_after_slash(a: Seq<char>, b: Seq<char>)
    requires
        a.len() > 0,
        a.last() == '/',
    ensures
        split_slash(a + b) == split_slash(a).drop_last() + split_slash(b),
    decreases b.len(),
{
    lemma_split_nonempty(a.drop_last());
    assert(a =~= a.drop_last().push('/'));
    if b.len() == 0 {
        assert(a + b =~= a);
        assert(split_slash(a).drop_last() + split_slash(b) =~= split_slash(a));
    } else {
        lemma_split_after_slash(a, b.drop_last());
        lemma_split_nonempty(b.drop_last());
        assert((a + b).drop_last() =~= a + b.drop_last());
        assert((a + b).last() == b.last());
        let head = split_slash(a).drop_last();
        let tail = split_slash(b.drop_last());
        if b.last() == '/' {
            assert((head + tail).push(Seq::<char>::empty()) =~= head + tail.push(Seq::<char>::empty()));
        } else {
            assert((head + tail).update((head + tail).len() - 1, (head + tail).last().push(b.last()))
                =~= head + tail.update(tail.len() - 1, tail.last().push(b.last())));
        }
    }
}

proof fn lemma_normals_concat(x: Seq<Seq<char>>, y: Seq<Seq<char>>)
    ensures
        normals(x + y) == normals(x) + normals(y),
        normal_positions(x + y) == normal_positions(x) + normal_positions(y).map_values(
            |p: int| p + x.len(),
        ),
    decreases y.len(),
{
    if y.len() == 0 {
        assert(x + y =~= x);
        assert(normals(x) + normals(y) =~= normals(x));
        assert(normal_positions(x) + normal_positions(y).map_values(|p: int| p + x.len())
            =~= normal_positions(x));
    } else {
        lemma_normals_concat(x, y.drop_last());
        assert((x + y).drop_last() =~= x + y.drop_last());
        assert((x + y).last() == y.last());
        assert((x + y).len() - 1 == x.len() + (y.len() - 1));
        if is_normal(y.last()) {
            assert(normals(x) + normals(y.drop_last()).push(y.last()) =~= (normals(x) + normals(
                y.drop_last(),
            )).push(y.last()));
            assert(normal_positions(x) + normal_positions(y.drop_last()).push(y.len() - 1).map_values(
                |p: int| p + x.len(),
            ) =~= (normal_positions(x) + normal_positions(y.drop_last()).map_values(
                |p: int| p + x.len(),
            )).push(x.len() + y.len() - 1));
        }
    }
}

/// No piece of a split holds a `/`.
pub(crate) proof fn lemma_split_pieces_lack_slash(s: Seq<char>)
    ensures
        forall|i: int, j: int|
            0 <= i < split_slash(s).len() && 0 <= j < split_slash(s)[i].len()
                ==> #[trigger] split_slash(s)[i][j] != '/',
    decreases s.len(),
{
    if s.len() > 0 {
        lemma_split_pieces_lack_slash(s.drop_last());
        lemma_split_nonempty(s.drop_last());
        let rest = split_slash(s.drop_last());
        if s.last() != '/' {
            let grown = rest.last().push(s.last());
            assert forall|j: int| 0 <= j < grown.len() implies grown[j] != '/' by {
                if j < rest.last().len() {
                    assert(grown[j] == rest[rest.len() - 1][j]);
                }
            }
        }
    }
}

/// Text without a `/` splits into itself alone.
proof fn lemma_split_of_slashless(s: Seq<char>)
    requires
        forall|j: int| 0 <= j < s.len() ==> s[j] != '/',
    ensures
        split_slash(s) == seq![s],
    decreases s.len(),
{
    if s.len() > 0 {
        lemma_split_of_slashless(s.drop_last());
        assert(s.drop_last().push(s.last()) =~= s);
        assert(seq![s.drop_last()].update(0, s.drop_last().push(s.last())) =~= seq![s]);
    } else {
        assert(s =~= Seq::<char>::empty());
    }
}

/// Joining pieces that hold no `/` and splitting again gives the pieces back.
pub(crate) proof fn lemma_split_of_join(segs: Seq<Seq<char>>)
    requires
        segs.len() >= 1,
        forall|i: int, j: int| 0 <= i < segs.len() && 0 <= j < segs[i].len() ==> #[trigger] segs[i][j] != '/',
    ensures
        split_slash(join_slash(segs)) == segs,
    decreases segs.len(),
{
    if segs.len() == 1 {
        assert forall|j: int| 0 <= j < segs[0].len() implies segs[0][j] != '/' by {
            assert(segs[0][j] != '/');
        }
        lemma_split_of_slashless(segs[0]);
        assert(seq![segs[0]] =~= segs);
    } else {
        let front = segs.drop_last();
        assert forall|i: int, j: int| 0 <= i < front.len() && 0 <= j < front[i].len() implies #[trigger] front[i][j]
            != '/' by {
            assert(front[i] == segs[i]);
        }
        lemma_split_of_join(front);
        let head = join_slash(front).push('/');
        assert forall|j: int| 0 <= j < segs.last().len() implies segs.last()[j] != '/' by {
            assert(segs[segs.len() - 1][j] != '/');
        }
        lemma_split_of_slashless(segs.last());
        lemma_split_after_slash(head, segs.last());
        assert(head.drop_last() =~= join_slash(front));
        lemma_split_nonempty(join_slash(front));
        assert(split_slash(head) == split_slash(join_slash(front)).push(Seq::<char>::empty()));
        assert(split_slash(head).drop_last() =~= front);
        assert(front + seq![segs.last()] =~= segs);
    }
}

/// A normal piece of a split is among its normal pieces.
pub(crate) proof fn lemma_normal_piece_kept(segs: Seq<Seq<char>>, i: int)
    requires
        0 <= i < segs.len(),
        is_normal(segs[i]),
    ensures
        normals(segs).contains(segs[i]),
    decreases segs.len(),
{
    let rest = normals(segs.drop_last());
    if i == segs.len() - 1 {
        assert(normals(segs) == rest.push(segs[i]));
        assert(normals(segs)[rest.len() as int] == segs[i]);
    } else {
        assert(segs.drop_last()[i] == segs[i]);
        lemma_normal_piece_kept(segs.drop_last(), i);
        let k = choose|k: int| 0 <= k < rest.len() && rest[k] == segs[i];
        if is_normal(segs.last()) {
            assert(normals(segs)[k] == rest[k]);
        }
    }
}

/// A relative path below a normalized home, joined to it: normalized, under the
/// home, and spelled `~/` and the normal part of the relative path, whichever home.
pub proof fn lemma_join_below_home(home: Seq<char>, rel: Seq<char>)
    requires
        is_normalized_absolute(home),
        !is_absolute(rel),
        !has_parent_component(rel),
    ensures
        is_normalized_absolute(join(home, rel)),
        starts_with(join(home, rel), home),
        home_relative(join(home, rel), normals(split_slash(home)).len() as int) == ({
            let r = split_slash(rel);
            let pos = normal_positions(r);
            if pos.len() == 0 {
                seq!['~']
            } else {
                seq!['~', '/'] + join_slash(r.subrange(pos[0], pos[pos.len() - 1] + 1))
            }
        }),
{
    let h = if home.last() == '/' {
        home
    } else {
        home.push('/')
    };
    assert(join(home, rel) == h + rel);
    lemma_split_after_slash(h, rel);
    lemma_split_nonempty(home);
    lemma_split_nonempty(rel);
    let a = split_slash(h).drop_last();
    let r = split_slash(rel);
    if home.last() != '/' {
        assert(home.push('/').drop_last() =~= home);
        assert(split_slash(h).drop_last() =~= split_slash(home));
    } else {
        assert(home =~= home.drop_last().push('/'));
        lemma_split_nonempty(home.drop_last());
        lemma_normals_concat(split_slash(home).drop_last(), seq![Seq::<char>::empty()]);
        assert(split_slash(home) =~= split_slash(home).drop_last() + seq![Seq::<char>::empty()]);
        assert(normals(seq![Seq::<char>::empty()]) =~= Seq::<Seq<char>>::empty()) by {
            assert(seq![Seq::<char>::empty()].drop_last() =~= Seq::<Seq<char>>::empty());
        }
    }
    assert(normals(a) == normals(split_slash(home)));
    lemma_normals_concat(a, r);
    lemma_normal_positions(a);
    lemma_normal_positions(r);
    let segs = split_slash(join(home, rel));
    assert(segs == a + r);
    let k = normals(split_slash(home)).len() as int;
    let pos = normal_positions(segs);
    let pr = normal_positions(r);
    assert(normals(segs) == normals(a) + normals(r));
    assert(pos == normal_positions(a) + pr.map_values(|p: int| p + a.len()));
    assert(pos.len() == k + pr.len());
    if pr.len() > 0 {
        assert(pos[k] == pr[0] + a.len());
        assert(pos[pos.len() - 1] == pr[pr.len() - 1] + a.len());
        lemma_normal_positions(r);
        assert(0 <= pr[0] && pr[pr.len() - 1] < r.len());
        if pr.len() > 1 {
            assert(pr[0] < pr[pr.len() - 1]);
        }
        assert(segs.subrange(pos[k], pos[pos.len() - 1] + 1) =~= r.subrange(pr[0], pr[pr.len() - 1] + 1));
    }
    assert(is_absolute(join(home, rel))) by {
        assert((h + rel)[0] == h[0]);
    }
    assert(!normals(segs).contains(seq!['.', '.'])) by {
        if normals(segs).contains(seq!['.', '.']) {
            let i = choose|i: int| 0 <= i < normals(segs).len() && normals(segs)[i] == seq!['.', '.'];
            if i < normals(a).len() {
                assert(normals(split_slash(home)).contains(seq!['.', '.']));
            } else {
                assert(normals(r)[i - normals(a).len()] == seq!['.', '.']);
                assert(normals(r).contains(seq!['.', '.']));
            }
        }
    }
    let ch = components(home);
    let cj = components(join(home, rel));
    assert(ch == seq![seq!['/']] + normals(split_slash(home)));
    assert(cj == seq![seq!['/']] + normals(segs));
    assert(ch.is_prefix_of(cj)) by {
        assert(cj.subrange(0, ch.len() as int) =~= ch);
    }
}

} // verus!
