//! The set of image paths found under one root, and the three-way
//! reconciliation between two such sets.

use vstd::prelude::*;
use vstd::seq_lib::*;
use vstd::set_lib::*;
use vstd::assert_sets_equal;

verus! {

/// Removes repeated paths from `s`, keeping the first occurrence of each.
pub open spec fn spec_dedup(s: Seq<Seq<char>>) -> Seq<Seq<char>>
    decreases s.len(),
{
    if s.len() == 0 {
        Seq::empty()
    } else {
        let rest = spec_dedup(s.drop_last());
        if rest.contains(s.last()) {
            rest
        } else {
            rest.push(s.last())
        }
    }
}

/// The members of `s`, in order, that are not in `t`.
pub open spec fn spec_only(s: Seq<Seq<char>>, t: Set<Seq<char>>) -> Seq<Seq<char>>
    decreases s.len(),
{
    if s.len() == 0 {
        Seq::empty()
    } else {
        let rest = spec_only(s.drop_last(), t);
        if t.contains(s.last()) {
            rest
        } else {
            rest.push(s.last())
        }
    }
}

/// The members of `s`, in order, that are also in `t`.
pub open spec fn spec_common(s: Seq<Seq<char>>, t: Set<Seq<char>>) -> Seq<Seq<char>>
    decreases s.len(),
{
    if s.len() == 0 {
        Seq::empty()
    } else {
        let rest = spec_common(s.drop_last(), t);
        if t.contains(s.last()) {
            rest.push(s.last())
        } else {
            rest
        }
    }
}

pub proof fn lemma_contains_split_last(s: Seq<Seq<char>>, x: Seq<char>)
    requires
        s.len() > 0,
    ensures
        s.contains(x) <==> (s.drop_last().contains(x) || s.last() == x),
{
    if s.contains(x) {
        let i = choose|i: int| 0 <= i < s.len() && s[i] == x;
        if i < s.len() - 1 {
            assert(s.drop_last()[i] == x);
        }
    }
    if s.drop_last().contains(x) {
        let i = choose|i: int| 0 <= i < s.drop_last().len() && s.drop_last()[i] == x;
        assert(s[i] == x);
    }
    assert(s[s.len() - 1] == s.last());
}

pub proof fn lemma_push_contains(s: Seq<Seq<char>>, y: Seq<char>, x: Seq<char>)
    ensures
        s.push(y).contains(x) <==> (s.contains(x) || x == y),
{
    assert(s.push(y)[s.len() as int] == y);
    if s.contains(x) {
        let i = choose|i: int| 0 <= i < s.len() && s[i] == x;
        assert(s.push(y)[i] == x);
    }
    if s.push(y).contains(x) {
        let i = choose|i: int| 0 <= i < s.push(y).len() && s.push(y)[i] == x;
        if i < s.len() {
            assert(s[i] == x);
        }
    }
}

pub proof fn lemma_dedup_contains(s: Seq<Seq<char>>, x: Seq<char>)
    ensures
        spec_dedup(s).contains(x) <==> s.contains(x),
    decreases s.len(),
{
    if s.len() > 0 {
        lemma_dedup_contains(s.drop_last(), x);
        lemma_contains_split_last(s, x);
        let rest = spec_dedup(s.drop_last());
        if !rest.contains(s.last()) {
            lemma_push_contains(rest, s.last(), x);
        }
    }
}

pub proof fn lemma_dedup_no_dup(s: Seq<Seq<char>>)
    ensures
        forall|i: int, j: int|
            0 <= i < j < spec_dedup(s).len() ==> spec_dedup(s)[i] != spec_dedup(s)[j],
    decreases s.len(),
{
    if s.len() > 0 {
        lemma_dedup_no_dup(s.drop_last());
        let rest = spec_dedup(s.drop_last());
        if !rest.contains(s.last()) {
            let d = spec_dedup(s);
            assert(d == rest.push(s.last()));
            assert forall|i: int, j: int| 0 <= i < j < d.len() implies d[i] != d[j] by {
                if j < rest.len() {
                    assert(rest[i] == d[i] && rest[j] == d[j]);
                } else {
                    assert(d[j] == s.last());
                    assert(d[i] == rest[i]);
                    assert(rest.contains(rest[i]));
                }
            }
        }
    }
}

pub proof fn lemma_only_contains(s: Seq<Seq<char>>, t: Set<Seq<char>>, x: Seq<char>)
    ensures
        spec_only(s, t).contains(x) <==> (s.contains(x) && !t.contains(x)),
    decreases s.len(),
{
    if s.len() > 0 {
        lemma_only_contains(s.drop_last(), t, x);
        lemma_contains_split_last(s, x);
        let rest = spec_only(s.drop_last(), t);
        if !t.contains(s.last()) {
            lemma_push_contains(rest, s.last(), x);
        }
    }
}

pub proof fn lemma_common_contains(s: Seq<Seq<char>>, t: Set<Seq<char>>, x: Seq<char>)
    ensures
        spec_common(s, t).contains(x) <==> (s.contains(x) && t.contains(x)),
    decreases s.len(),
{
    if s.len() > 0 {
        lemma_common_contains(s.drop_last(), t, x);
        lemma_contains_split_last(s, x);
        let rest = spec_common(s.drop_last(), t);
        if t.contains(s.last()) {
            lemma_push_contains(rest, s.last(), x);
        }
    }
}

/// The set of image paths found under one root, built once and read-only
/// afterwards. Paths are unique; the order of first discovery is kept so
/// that a run is reproducible given the same traversal.
pub struct ImageSet {
    paths: Vec<String>,
}

impl View for ImageSet {
    type V = Seq<Seq<char>>;

    closed spec fn view(&self) -> Seq<Seq<char>> {
        self.paths.deep_view()
    }
}

impl ImageSet {
    /// The paths as a mathematical set.
    pub open spec fn set(&self) -> Set<Seq<char>> {
        self@.to_set()
    }

    /// Paths are unique within the set.
    pub open spec fn wf(&self) -> bool {
        forall|i: int, j: int| 0 <= i < j < self@.len() ==> self@[i] != self@[j]
    }

    /// Builds the set from the paths one traversal yielded, collapsing
    /// duplicates to the first occurrence.
    pub fn from_paths(v: Vec<String>) -> (r: ImageSet)
        ensures
            r@ == spec_dedup(v.deep_view()),
            r.wf(),
            r.set() =~= v.deep_view().to_set(),
    {
        let ghost vs = v.deep_view();
        let mut paths: Vec<String> = Vec::new();
        let mut i: usize = 0;
        while i < v.len()
            invariant
                0 <= i <= v.len(),
                vs == v.deep_view(),
                vs.len() == v.len(),
                paths.deep_view() == spec_dedup(vs.subrange(0, i as int)),
            decreases v.len() - i,
        {
            assert(vs.subrange(0, i + 1).drop_last() =~= vs.subrange(0, i as int));
            assert(vs.subrange(0, i + 1).last() == vs[i as int]);
            assert(vs[i as int] == v[i as int]@);
            let dup: bool = contains_string(&paths, &v[i]);
            if !dup {
                let p: String = v[i].clone();
                paths.push(p);
                assert(paths.deep_view() =~= spec_dedup(vs.subrange(0, i + 1)));
            }
            i = i + 1;
        }
        assert(vs.subrange(0, v.len() as int) =~= vs);
        let r = ImageSet { paths };
        proof {
            lemma_dedup_no_dup(vs);
            assert forall|x: Seq<char>| r.set().contains(x) <==> vs.to_set().contains(x) by {
                lemma_dedup_contains(vs, x);
            }
        }
        r
    }

    /// How many paths the set holds.
    pub fn len(&self) -> (n: usize)
        ensures
            n == self@.len(),
    {
        self.paths.len()
    }

    /// The paths in their kept order.
    pub fn as_vec(&self) -> (r: &Vec<String>)
        ensures
            r.deep_view() == self@,
    {
        &self.paths
    }

    /// Whether `p` is a member of the set.
    pub fn contains(&self, p: &String) -> (r: bool)
        ensures
            r == self.set().contains(p@),
    {
        let r = contains_string(&self.paths, p);
        proof {
            if self@.contains(p@) {
                let i = choose|i: int| 0 <= i < self@.len() && self@[i] == p@;
                assert(self@.to_set().contains(self@[i]));
            }
            if self.set().contains(p@) {
                assert(self@.contains(p@));
            }
        }
        r
    }

    /// The paths of `self` that are absent from `other`, in kept order.
    pub fn difference(&self, other: &ImageSet) -> (r: Vec<String>)
        ensures
            r.deep_view() == spec_only(self@, other.set()),
            r.deep_view().to_set() =~= self.set().difference(other.set()),
    {
        let ghost s = self@;
        let mut out: Vec<String> = Vec::new();
        let mut i: usize = 0;
        while i < self.paths.len()
            invariant
                0 <= i <= self.paths.len(),
                s == self@,
                s.len() == self.paths.len(),
                out.deep_view() == spec_only(s.subrange(0, i as int), other.set()),
            decreases self.paths.len() - i,
        {
            assert(s.subrange(0, i + 1).drop_last() =~= s.subrange(0, i as int));
            assert(s.subrange(0, i + 1).last() == s[i as int]);
            assert(s[i as int] == self.paths[i as int]@);
            let member: bool = other.contains(&self.paths[i]);
            if !member {
                let p: String = self.paths[i].clone();
                out.push(p);
                assert(out.deep_view() =~= spec_only(s.subrange(0, i + 1), other.set()));
            }
            i = i + 1;
        }
        assert(s.subrange(0, s.len() as int) =~= s);
        proof {
            assert forall|x: Seq<char>|
                out.deep_view().to_set().contains(x) <==> self.set().difference(
                    other.set(),
                ).contains(x) by {
                lemma_only_contains(s, other.set(), x);
                if out.deep_view().to_set().contains(x) {
                    assert(out.deep_view().contains(x));
                }
                if out.deep_view().contains(x) {
                    let i = choose|i: int|
                        0 <= i < out.deep_view().len() && out.deep_view()[i] == x;
                    assert(out.deep_view().to_set().contains(out.deep_view()[i]));
                }
                if s.contains(x) {
                    let i = choose|i: int| 0 <= i < s.len() && s[i] == x;
                    assert(s.to_set().contains(s[i]));
                }
                if s.to_set().contains(x) {
                    assert(s.contains(x));
                }
            }
        }
        out
    }

    /// The paths of `self` that are also in `other`, in kept order.
    pub fn intersection(&self, other: &ImageSet) -> (r: Vec<String>)
        ensures
            r.deep_view() == spec_common(self@, other.set()),
            r.deep_view().to_set() =~= self.set().intersect(other.set()),
    {
        let ghost s = self@;
        let mut out: Vec<String> = Vec::new();
        let mut i: usize = 0;
        while i < self.paths.len()
            invariant
                0 <= i <= self.paths.len(),
                s == self@,
                s.len() == self.paths.len(),
                out.deep_view() == spec_common(s.subrange(0, i as int), other.set()),
            decreases self.paths.len() - i,
        {
            assert(s.subrange(0, i + 1).drop_last() =~= s.subrange(0, i as int));
            assert(s.subrange(0, i + 1).last() == s[i as int]);
            assert(s[i as int] == self.paths[i as int]@);
            let member: bool = other.contains(&self.paths[i]);
            if member {
                let p: String = self.paths[i].clone();
                out.push(p);
                assert(out.deep_view() =~= spec_common(s.subrange(0, i + 1), other.set()));
            }
            i = i + 1;
        }
        assert(s.subrange(0, s.len() as int) =~= s);
        proof {
            assert forall|x: Seq<char>|
                out.deep_view().to_set().contains(x) <==> self.set().intersect(
                    other.set(),
                ).contains(x) by {
                lemma_common_contains(s, other.set(), x);
                if out.deep_view().to_set().contains(x) {
                    assert(out.deep_view().contains(x));
                }
                if out.deep_view().contains(x) {
                    let i = choose|i: int|
                        0 <= i < out.deep_view().len() && out.deep_view()[i] == x;
                    assert(out.deep_view().to_set().contains(out.deep_view()[i]));
                }
                if s.contains(x) {
                    let i = choose|i: int| 0 <= i < s.len() && s[i] == x;
                    assert(s.to_set().contains(s[i]));
                }
                if s.to_set().contains(x) {
                    assert(s.contains(x));
                }
            }
        }
        out
    }
}

/// The paths of `s`, in order, that name image files.
pub open spec fn spec_image_filter(s: Seq<Seq<char>>) -> Seq<Seq<char>>
    decreases s.len(),
{
    if s.len() == 0 {
        Seq::empty()
    } else {
        let rest = spec_image_filter(s.drop_last());
        if crate::paths::spec_is_image_path(s.last()) {
            rest.push(s.last())
        } else {
            rest
        }
    }
}

/// Indexes one traversal's file paths into an image set: paths whose
/// extension is not on the allow-list are left out, and duplicates
/// collapse to their first occurrence.
pub fn index_paths(v: &Vec<String>) -> (r: ImageSet)
    ensures
        r@ == spec_dedup(spec_image_filter(v.deep_view())),
        r.wf(),
{
    let ghost vs = v.deep_view();
    let mut kept: Vec<String> = Vec::new();
    let mut i: usize = 0;
    while i < v.len()
        invariant
            0 <= i <= v.len(),
            vs == v.deep_view(),
            vs.len() == v.len(),
            kept.deep_view() == spec_image_filter(vs.subrange(0, i as int)),
        decreases v.len() - i,
    {
        assert(vs.subrange(0, i + 1).drop_last() =~= vs.subrange(0, i as int));
        assert(vs.subrange(0, i + 1).last() == vs[i as int]);
        assert(vs[i as int] == v[i as int]@);
        if crate::paths::is_image_path(&v[i]) {
            let p: String = v[i].clone();
            kept.push(p);
            assert(kept.deep_view() =~= spec_image_filter(vs.subrange(0, i + 1)));
        }
        i = i + 1;
    }
    assert(vs.subrange(0, v.len() as int) =~= vs);
    ImageSet::from_paths(kept)
}

/// Whether some member of `v` equals `p`.
fn contains_string(v: &Vec<String>, p: &String) -> (r: bool)
    ensures
        r == v.deep_view().contains(p@),
{
    let mut i: usize = 0;
    while i < v.len()
        invariant
            0 <= i <= v.len(),
            forall|j: int| 0 <= j < i ==> v.deep_view()[j] != p@,
        decreases v.len() - i,
    {
        if v[i].eq(p) {
            assert(v.deep_view()[i as int] == p@);
            return true;
        }
        i = i + 1;
    }
    false
}

/// Reconciling unchanged inputs twice yields the identical classification:
/// each category is a function of the two path sequences alone.
pub proof fn lemma_reconciliation_idempotent(
    a1: &ImageSet,
    b1: &ImageSet,
    a2: &ImageSet,
    b2: &ImageSet,
)
    requires
        a1@ == a2@,
        b1@ == b2@,
    ensures
        spec_only(a1@, b1.set()) == spec_only(a2@, b2.set()),
        spec_only(b1@, a1.set()) == spec_only(b2@, a2.set()),
        spec_common(a1@, b1.set()) == spec_common(a2@, b2.set()),
{
}

/// The three categories of a reconciliation split `A` and `B` without
/// overlap, and together they recreate `A ∪ B`.
pub proof fn lemma_reconciliation_partition(a: Set<Seq<char>>, b: Set<Seq<char>>)
    ensures
        a.difference(b).intersect(b.difference(a)) =~= Set::<Seq<char>>::empty(),
        a.difference(b).intersect(a.intersect(b)) =~= Set::<Seq<char>>::empty(),
        b.difference(a).intersect(a.intersect(b)) =~= Set::<Seq<char>>::empty(),
        a.difference(b).union(b.difference(a)).union(a.intersect(b)) =~= a.union(b),
{
}

} // verus!
