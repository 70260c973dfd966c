//! The bounding-volume hierarchy: a binary tree over the primitives of a
//! scene, built by sorting and halving, and the traversal that finds the
//! nearest hit of a ray; with the proof that the traversal finds what a
//! linear scan of the primitives finds.
use vstd::prelude::*;
use crate::aabb::{computes_slab, enlarging_keeps_hit, surrounding_box, Aabb, Slab};
use crate::hitable::{
    clip, computes_hit, enclosure, lemma_enclosure_encloses, lemma_scan_nearest, nearest_among,
    reports_nearest, scan, HitFn, HitRecord,
};
use crate::rng::random_axis;
use crate::vec3::Scalar;

verus! {

/// A primitive, known by its handle, together with its bounding box.
#[derive(Debug)]
pub struct Bounded<T> {
    pub item: T,
    pub boxy: Aabb,
}

impl<T: Copy> Clone for Bounded<T> {
    fn clone(&self) -> (c: Self)
        ensures
            c == *self,
    {
        *self
    }
}

impl<T: Copy> Copy for Bounded<T> {
}

/// The scalar by which a primitive is ordered along `axis`: the lower corner
/// of its box.
pub open spec fn key<T>(e: Bounded<T>, axis: int) -> Scalar {
    e.boxy.min.component(axis)
}

/// The entries at positions `start..end` do not decrease along `axis`.
pub open spec fn sorted_range<T>(s: Seq<Bounded<T>>, start: int, end: int, axis: int) -> bool {
    forall|i: int, j: int| start <= i <= j < end ==> key(s[i], axis) <= key(s[j], axis)
}

/// Every entry of `low` comes no later along `axis` than every entry of
/// `high`.
pub open spec fn separated<T>(low: Seq<Bounded<T>>, high: Seq<Bounded<T>>, axis: int) -> bool {
    forall|i: int, j: int|
        0 <= i < low.len() && 0 <= j < high.len() ==> key(#[trigger] low[i], axis) <= key(
            #[trigger] high[j],
            axis,
        )
}

/// Whether `a` comes strictly before `b` along `axis`. Two boxes with the
/// same lower corner are not before one another.
fn box_less<T: Copy>(a: &Bounded<T>, b: &Bounded<T>, axis: usize) -> (less: bool)
    requires
        axis < 3,
    ensures
        less == (key(*a, axis as int) < key(*b, axis as int)),
{
    a.boxy.min.index(axis) < b.boxy.min.index(axis)
}

/// Exchanging two elements of a sequence keeps its multiset.
proof fn lemma_swap_multiset<A>(s: Seq<A>, i: int, j: int)
    requires
        0 <= i < s.len(),
        0 <= j < s.len(),
    ensures
        s.update(i, s[j]).update(j, s[i]).to_multiset() == s.to_multiset(),
{
    broadcast use vstd::multiset::group_multiset_axioms;

    let s1 = s.update(i, s[j]);
    vstd::seq_lib::to_multiset_update(s, i, s[j]);
    vstd::seq_lib::to_multiset_update(s1, j, s[i]);
    s.to_multiset_ensures();
    assert(s.contains(s[i]));
    assert(s.contains(s[j]));
    assert(s.update(i, s[j]).update(j, s[i]).to_multiset() =~= s.to_multiset());
}

/// Sorts the entries at `start..end` in place, so that they do not decrease
/// along `axis`.
fn sort_range<T: Copy>(l: &mut Vec<Bounded<T>>, start: usize, end: usize, axis: usize)
    requires
        start <= end <= old(l).len(),
        axis < 3,
    ensures
        final(l).len() == old(l).len(),
        sorted_range(final(l)@, start as int, end as int, axis as int),
        final(l)@.subrange(start as int, end as int).to_multiset() == old(l)@.subrange(
            start as int,
            end as int,
        ).to_multiset(),
        forall|i: int|
            0 <= i < start || end <= i < old(l).len() ==> final(l)@[i] == old(l)@[i],
{
    if end - start < 2 {
        return ;
    }
    let mut i: usize = start + 1;
    while i < end
        invariant
            start < i <= end <= l.len(),
            axis < 3,
            l.len() == old(l).len(),
            sorted_range(l@, start as int, i as int, axis as int),
            l@.subrange(start as int, end as int).to_multiset() == old(l)@.subrange(
                start as int,
                end as int,
            ).to_multiset(),
            forall|m: int| 0 <= m < start || end <= m < l.len() ==> l@[m] == old(l)@[m],
        decreases end - i,
    {
        let mut j: usize = i;
        while j > start && box_less(&l[j], &l[j - 1], axis)
            invariant
                start <= j <= i < end <= l.len(),
                axis < 3,
                l.len() == old(l).len(),
                sorted_range(l@, start as int, j as int, axis as int),
                sorted_range(l@, j as int, i + 1, axis as int),
                forall|a: int, b: int|
                    start <= a < j && j < b <= i ==> key(l@[a], axis as int) <= key(
                        l@[b],
                        axis as int,
                    ),
                l@.subrange(start as int, end as int).to_multiset() == old(l)@.subrange(
                    start as int,
                    end as int,
                ).to_multiset(),
                forall|m: int| 0 <= m < start || end <= m < l.len() ==> l@[m] == old(l)@[m],
            decreases j,
        {
            let ghost before = l@;
            let upper = l[j];
            let lower = l[j - 1];
            l[j] = lower;
            l[j - 1] = upper;
            proof {
                let sub = before.subrange(start as int, end as int);
                lemma_swap_multiset(sub, j - start, j - 1 - start);
                assert(l@.subrange(start as int, end as int) == sub.update(
                    j - start,
                    sub[j - 1 - start],
                ).update(j - 1 - start, sub[j - start]));
            }
            j = j - 1;
        }
        i = i + 1;
    }
}

/// What holds of a range once its two halves have been reordered one
/// after the other: the range still holds what it held when it was sorted,
/// and its first half still precedes its second half along the axis.
proof fn lemma_halves_rebuilt<T>(
    sorted: Seq<Bounded<T>>,
    halfway: Seq<Bounded<T>>,
    done: Seq<Bounded<T>>,
    start: int,
    mid: int,
    end: int,
    axis: int,
)
    requires
        0 <= start < mid < end <= sorted.len(),
        halfway.len() == sorted.len(),
        done.len() == sorted.len(),
        sorted_range(sorted, start, end, axis),
        halfway.subrange(start, mid).to_multiset() == sorted.subrange(start, mid).to_multiset(),
        forall|i: int| 0 <= i < start || mid <= i < sorted.len() ==> halfway[i] == sorted[i],
        done.subrange(mid, end).to_multiset() == halfway.subrange(mid, end).to_multiset(),
        forall|i: int| 0 <= i < mid || end <= i < sorted.len() ==> done[i] == halfway[i],
    ensures
        done.subrange(start, end) == done.subrange(start, mid) + done.subrange(mid, end),
        done.subrange(start, mid) == halfway.subrange(start, mid),
        done.subrange(start, end).to_multiset() == sorted.subrange(start, end).to_multiset(),
        separated(done.subrange(start, mid), done.subrange(mid, end), axis),
        forall|i: int| 0 <= i < start || end <= i < sorted.len() ==> done[i] == sorted[i],
{
    let lo = done.subrange(start, mid);
    let hi = done.subrange(mid, end);
    let slo = sorted.subrange(start, mid);
    let shi = sorted.subrange(mid, end);
    assert(lo =~= halfway.subrange(start, mid));
    assert(halfway.subrange(mid, end) =~= shi);
    assert(lo + hi =~= done.subrange(start, end));
    assert(slo + shi =~= sorted.subrange(start, end));
    vstd::seq_lib::lemma_multiset_commutative(lo, hi);
    vstd::seq_lib::lemma_multiset_commutative(slo, shi);
    lemma_separated_after_reordering(sorted, lo, hi, start, mid, end, axis);
}

/// Reordering each half of a sorted range leaves the first half before the
/// second.
proof fn lemma_separated_after_reordering<T>(
    sorted: Seq<Bounded<T>>,
    lo: Seq<Bounded<T>>,
    hi: Seq<Bounded<T>>,
    start: int,
    mid: int,
    end: int,
    axis: int,
)
    requires
        0 <= start <= mid <= end <= sorted.len(),
        sorted_range(sorted, start, end, axis),
        lo.to_multiset() == sorted.subrange(start, mid).to_multiset(),
        hi.to_multiset() == sorted.subrange(mid, end).to_multiset(),
    ensures
        separated(lo, hi, axis),
{
    let slo = sorted.subrange(start, mid);
    let shi = sorted.subrange(mid, end);
    lo.to_multiset_ensures();
    hi.to_multiset_ensures();
    slo.to_multiset_ensures();
    shi.to_multiset_ensures();
    assert forall|i: int, j: int| 0 <= i < lo.len() && 0 <= j < hi.len() implies key(
        #[trigger] lo[i],
        axis,
    ) <= key(#[trigger] hi[j], axis) by {
        assert(lo.contains(lo[i]));
        assert(hi.contains(hi[j]));
        assert(slo.to_multiset().count(lo[i]) > 0);
        assert(shi.to_multiset().count(hi[j]) > 0);
        let a = choose|a: int| 0 <= a < slo.len() && slo[a] == lo[i];
        let b = choose|b: int| 0 <= b < shi.len() && shi[b] == hi[j];
        assert(sorted[start + a] == lo[i]);
        assert(sorted[mid + b] == hi[j]);
    }
}

/// Why no hierarchy can be built.
#[derive(Debug, Clone, Copy, PartialEq, Eq)]
pub enum BuildError {
    /// There is no primitive to build over.
    Empty,
    /// A primitive has no bounding box.
    Unbounded,
}

/// The entries of primitives that all have a box.
pub open spec fn with_boxes<T>(l: Seq<(T, Option<Aabb>)>) -> Seq<Bounded<T>> {
    l.map_values(|e: (T, Option<Aabb>)| Bounded { item: e.0, boxy: e.1->0 })
}

/// Every primitive of `l` has a box.
pub open spec fn all_bounded<T>(l: Seq<(T, Option<Aabb>)>) -> bool {
    forall|i: int| 0 <= i < l.len() ==> (#[trigger] l[i]).1.is_some()
}

/// A node of the bounding-volume hierarchy.
///
/// A leaf holds the handle of one primitive in `contents` and has no
/// children; an inner node holds no handle and has two children. `boxy`
/// bounds everything beneath the node.
#[derive(Debug)]
pub struct BvhNode<T> {
    pub contents: Option<T>,
    pub left: Option<Box<BvhNode<T>>>,
    pub right: Option<Box<BvhNode<T>>>,
    pub boxy: Aabb,
}

/// Of two hits, the one with the smaller parameter, and the second when the
/// parameters are equal; of one hit and nothing, the hit.
pub open spec fn spec_closer(left: Option<HitRecord>, right: Option<HitRecord>) -> Option<
    HitRecord,
> {
    match (left, right) {
        (Some(l), Some(r)) => if l.t < r.t {
            left
        } else {
            right
        },
        (Some(_), None) => left,
        (None, _) => right,
    }
}

/// Chooses between the hits that the two subtrees of a node report.
pub fn closer(hit_left: Option<HitRecord>, hit_right: Option<HitRecord>) -> (res: Option<
    HitRecord,
>)
    ensures
        res == spec_closer(hit_left, hit_right),
{
    match (hit_left, hit_right) {
        (Some(l), Some(r)) => if l.t < r.t {
            Some(l)
        } else {
            Some(r)
        },
        (Some(l), None) => Some(l),
        (None, r) => r,
    }
}

impl<T: Copy> BvhNode<T> {
    /// The primitives beneath the node with their boxes, from left to right.
    pub open spec fn entries(self) -> Seq<Bounded<T>>
        decreases self,
    {
        let own = match self.contents {
            Some(c) => seq![Bounded { item: c, boxy: self.boxy }],
            None => Seq::empty(),
        };
        let l = match self.left {
            Some(n) => n.entries(),
            None => Seq::empty(),
        };
        let r = match self.right {
            Some(n) => n.entries(),
            None => Seq::empty(),
        };
        own + l + r
    }

    /// The handles of the primitives beneath the node, from left to right.
    pub open spec fn items(self) -> Seq<T> {
        self.entries().map_values(|e: Bounded<T>| e.item)
    }

    /// The shape of the tree: every node is a leaf with one primitive or an
    /// inner node with two subtrees, and the box of an inner node is the
    /// union of the boxes of its children.
    pub open spec fn wf(self) -> bool
        decreases self,
    {
        match (self.contents, self.left, self.right) {
            (Some(_), None, None) => true,
            (None, Some(l), Some(r)) => l.wf() && r.wf() && self.boxy == l.boxy.union(r.boxy),
            _ => false,
        }
    }

    /// Every inner node gives its left subtree the first half of its
    /// primitives, rounded down.
    pub open spec fn split_at_midpoint(self) -> bool
        decreases self,
    {
        match (self.left, self.right) {
            (Some(l), Some(r)) => {
                &&& l.entries().len() == (l.entries().len() + r.entries().len()) / 2
                &&& l.split_at_midpoint()
                &&& r.split_at_midpoint()
            },
            _ => true,
        }
    }

    /// Every inner node separates its two subtrees along one of the three
    /// axes: no primitive on the left begins later on that axis than one on
    /// the right.
    pub open spec fn split_along_axis(self) -> bool
        decreases self,
    {
        match (self.left, self.right) {
            (Some(l), Some(r)) => {
                &&& exists|axis: int| 0 <= axis < 3 && #[trigger] separated(
                    l.entries(),
                    r.entries(),
                    axis,
                )
                &&& l.split_along_axis()
                &&& r.split_along_axis()
            },
            _ => true,
        }
    }

    /// What a ray hits in the tree within `(t_min, t_max)`. A node whose
    /// box the ray misses reports nothing. Else the node's own primitive is
    /// asked, and where it reports nothing, both subtrees are, and the
    /// nearer of their two hits is the result.
    pub open spec fn hit_spec(
        self,
        k: spec_fn(usize, Scalar, Scalar) -> Slab,
        g: HitFn<T>,
        t_min: Scalar,
        t_max: Scalar,
    ) -> Option<HitRecord>
        decreases self,
    {
        if self.boxy.hit_spec(k, t_min, t_max) {
            let own = match self.contents {
                Some(c) => g(c, t_min, t_max),
                None => None,
            };
            if own.is_some() {
                own
            } else {
                let l = match self.left {
                    Some(n) => n.hit_spec(k, g, t_min, t_max),
                    None => None,
                };
                let r = match self.right {
                    Some(n) => n.hit_spec(k, g, t_min, t_max),
                    None => None,
                };
                spec_closer(l, r)
            }
        } else {
            None
        }
    }

    /// Builds the hierarchy over the primitives of `l`, which it reorders.
    ///
    /// At every level an axis is drawn at random, the primitives are sorted
    /// along it, and the two halves are built in turn. The tree lists the
    /// primitives in the order in which the call leaves `l`.
    pub fn new(l: &mut Vec<Bounded<T>>) -> (node: Self)
        requires
            old(l).len() >= 1,
        ensures
            node.wf(),
            node.entries() == final(l)@,
            final(l)@.to_multiset() == old(l)@.to_multiset(),
            node.split_at_midpoint(),
            node.split_along_axis(),
    {
        let ghost before = l@;
        let n = l.len();
        let node = Self::build(l, 0, n);
        proof {
            assert(before.subrange(0, n as int) == before);
            assert(l@.subrange(0, n as int) == l@);
        }
        node
    }

    /// Builds the hierarchy over primitives of which some may have no box.
    ///
    /// A primitive without box cannot be placed in a hierarchy, and a
    /// hierarchy needs at least one primitive; in both cases nothing is
    /// built. Else the tree is built as by `new`, over the primitives in
    /// the order given.
    pub fn try_new(l: &Vec<(T, Option<Aabb>)>) -> (res: Result<Self, BuildError>)
        ensures
            res == Err::<Self, BuildError>(BuildError::Unbounded) <==> !all_bounded(l@),
            res == Err::<Self, BuildError>(BuildError::Empty) <==> l.len() == 0,
            res matches Ok(node) ==> {
                &&& node.wf()
                &&& node.entries().to_multiset() == with_boxes(l@).to_multiset()
                &&& node.split_at_midpoint()
                &&& node.split_along_axis()
            },
    {
        let mut entries: Vec<Bounded<T>> = Vec::new();
        let mut i: usize = 0;
        while i < l.len()
            invariant
                i <= l.len(),
                all_bounded(l@.take(i as int)),
                entries@ == with_boxes(l@.take(i as int)),
            decreases l.len() - i,
        {
            let (item, boxy) = l[i];
            match boxy {
                None => {
                    return Err(BuildError::Unbounded);
                },
                Some(b) => {
                    entries.push(Bounded { item, boxy: b });
                },
            }
            proof {
                assert(l@.take(i + 1) == l@.take(i as int).push(l@[i as int]));
                assert(entries@ =~= with_boxes(l@.take(i + 1)));
                assert forall|j: int| 0 <= j < i + 1 implies (#[trigger] l@.take(
                    i + 1,
                )[j]).1.is_some() by {
                    if j < i {
                        assert(l@.take(i as int)[j] == l@.take(i + 1)[j]);
                    }
                }
            }
            i = i + 1;
        }
        proof {
            assert(l@.take(i as int) == l@);
        }
        if entries.len() == 0 {
            return Err(BuildError::Empty);
        }
        Ok(Self::new(&mut entries))
    }

    fn build(l: &mut Vec<Bounded<T>>, start: usize, end: usize) -> (node: Self)
        requires
            start < end <= old(l).len(),
        ensures
            final(l).len() == old(l).len(),
            node.wf(),
            node.entries() == final(l)@.subrange(start as int, end as int),
            final(l)@.subrange(start as int, end as int).to_multiset() == old(l)@.subrange(
                start as int,
                end as int,
            ).to_multiset(),
            forall|i: int|
                0 <= i < start || end <= i < old(l).len() ==> final(l)@[i] == old(l)@[i],
            node.split_at_midpoint(),
            node.split_along_axis(),
        decreases end - start,
    {
        let axis = random_axis();
        sort_range(l, start, end, axis);
        let ghost sorted = l@;
        if end - start == 1 {
            let e = l[start];
            let node = BvhNode { contents: Some(e.item), left: None, right: None, boxy: e.boxy };
            proof {
                assert(node.entries() =~= l@.subrange(start as int, end as int));
            }
            node
        } else {
            let mid = start + (end - start) / 2;
            let left = Self::build(l, start, mid);
            let ghost halfway = l@;
            let right = Self::build(l, mid, end);
            let boxy = surrounding_box(left.boxy, right.boxy);
            let node = BvhNode {
                contents: None,
                left: Some(Box::new(left)),
                right: Some(Box::new(right)),
                boxy,
            };
            proof {
                lemma_halves_rebuilt(
                    sorted,
                    halfway,
                    l@,
                    start as int,
                    mid as int,
                    end as int,
                    axis as int,
                );
                assert(node.entries() =~= left.entries() + right.entries());
            }
            node
        }
    }

    /// Intersects a ray with the tree within `(t_min, t_max)`. `slab`
    /// evaluates the ray against one slab of a box, `probe` intersects it
    /// with one primitive.
    pub fn hit<
        K: Fn(usize, Scalar, Scalar) -> Slab,
        P: Fn(&T, Scalar, Scalar) -> Option<HitRecord>,
    >(
        &self,
        slab: &K,
        probe: &P,
        t_min: Scalar,
        t_max: Scalar,
    ) -> (res: Option<HitRecord>)
        requires
            forall|axis: usize, lo: Scalar, hi: Scalar| call_requires(*slab, (axis, lo, hi)),
            forall|x: &T, lo: Scalar, hi: Scalar| call_requires(*probe, (x, lo, hi)),
        ensures
            forall|k: spec_fn(usize, Scalar, Scalar) -> Slab, g: HitFn<T>|
                #![trigger computes_slab(*slab, k), computes_hit(*probe, g)]
                computes_slab(*slab, k) && computes_hit(*probe, g) ==> res == self.hit_spec(
                    k,
                    g,
                    t_min,
                    t_max,
                ),
            res.is_some() ==> exists|x: T| #[trigger]
                self.items().contains(x) && call_ensures(*probe, (&x, t_min, t_max), res),
        decreases self,
    {
        proof {
            self.lemma_items_split();
        }
        if self.boxy.hit(slab, t_min, t_max) {
            let own = match &self.contents {
                Some(c) => {
                    let r = probe(c, t_min, t_max);
                    assert(call_ensures(*probe, (c, t_min, t_max), r));
                    r
                },
                None => None,
            };
            if let Some(hit_content) = own {
                assert(self.items().contains(self.contents->0));
                return Some(hit_content);
            }
            let hit_left = match &self.left {
                Some(n) => n.hit(slab, probe, t_min, t_max),
                None => None,
            };
            let hit_right = match &self.right {
                Some(n) => n.hit(slab, probe, t_min, t_max),
                None => None,
            };
            let res = closer(hit_left, hit_right);
            proof {
                if res.is_some() {
                    let sub = if res == hit_left && hit_left.is_some() {
                        self.left->0
                    } else {
                        self.right->0
                    };
                    let x = choose|x: T| #[trigger]
                        sub.items().contains(x) && call_ensures(*probe, (&x, t_min, t_max), res);
                    assert(self.items().contains(x));
                }
            }
            res
        } else {
            None
        }
    }

    /// A node holds its own primitive and those of its two subtrees.
    pub proof fn lemma_items_split(self)
        ensures
            forall|x: T|
                self.contents == Some(x) ==> #[trigger] self.items().contains(x),
            self.left.is_some() ==> forall|x: T| #[trigger]
                self.left->0.items().contains(x) ==> self.items().contains(x),
            self.right.is_some() ==> forall|x: T| #[trigger]
                self.right->0.items().contains(x) ==> self.items().contains(x),
    {
        let own = match self.contents {
            Some(c) => seq![Bounded { item: c, boxy: self.boxy }],
            None => Seq::empty(),
        };
        let l = match self.left {
            Some(n) => n.entries(),
            None => Seq::empty(),
        };
        let r = match self.right {
            Some(n) => n.entries(),
            None => Seq::empty(),
        };
        let f = |e: Bounded<T>| e.item;
        lemma_items_of_concat(own, l);
        lemma_items_of_concat(own + l, r);
        assert(self.items() == own.map_values(f) + l.map_values(f) + r.map_values(f));
        assert forall|x: T| self.contents == Some(x) implies #[trigger] self.items().contains(
            x,
        ) by {
            assert(own.map_values(f)[0] == x);
            assert(self.items()[0] == x);
        }
        assert forall|x: T| l.map_values(f).contains(x) implies self.items().contains(x) by {
            lemma_contains_concat(own.map_values(f), l.map_values(f), x);
            lemma_contains_concat(own.map_values(f) + l.map_values(f), r.map_values(f), x);
        }
        assert forall|x: T| r.map_values(f).contains(x) implies self.items().contains(x) by {
            lemma_contains_concat(own.map_values(f) + l.map_values(f), r.map_values(f), x);
        }
    }

    /// The box around everything beneath the node.
    pub fn bounding_box(&self) -> (b: Option<Aabb>)
        ensures
            b == Some(self.boxy),
    {
        Some(self.boxy)
    }
}


/// The boxes bound their primitives, as far as the ray can tell: whenever a
/// primitive is hit within `(lo, hi)`, the ray passes through its box there.
pub open spec fn boxes_sound<T>(
    entries: Seq<Bounded<T>>,
    k: spec_fn(usize, Scalar, Scalar) -> Slab,
    g: HitFn<T>,
    lo: Scalar,
    hi: Scalar,
) -> bool {
    forall|i: int|
        0 <= i < entries.len() ==> (g((#[trigger] entries[i]).item, lo, hi).is_some()
            ==> entries[i].boxy.hit_spec(k, lo, hi))
}

/// The two sequences hold the same primitives, in whatever order.
pub open spec fn same_members<T>(a: Seq<T>, b: Seq<T>) -> bool {
    forall|x: T| a.contains(x) <==> b.contains(x)
}

/// Hits that share a parameter are one and the same hit.
pub open spec fn ties_agree<T>(items: Seq<T>, g: HitFn<T>, lo: Scalar, hi: Scalar) -> bool {
    forall|x: T, y: T|
        #![trigger items.contains(x), items.contains(y)]
        items.contains(x) && items.contains(y) ==> (g(x, lo, hi) matches Some(rx) ==> (g(
            y,
            lo,
            hi,
        ) matches Some(ry) ==> (rx.t == ry.t ==> rx == ry)))
}

/// The parameter of a hit, if there is one.
pub open spec fn parameter(r: Option<HitRecord>) -> Option<Scalar> {
    match r {
        Some(rec) => Some(rec.t),
        None => None,
    }
}

proof fn lemma_items_of_concat<T>(a: Seq<Bounded<T>>, b: Seq<Bounded<T>>)
    ensures
        (a + b).map_values(|e: Bounded<T>| e.item) == a.map_values(|e: Bounded<T>| e.item)
            + b.map_values(|e: Bounded<T>| e.item),
{
    assert((a + b).map_values(|e: Bounded<T>| e.item) =~= a.map_values(|e: Bounded<T>| e.item)
        + b.map_values(|e: Bounded<T>| e.item));
}

proof fn lemma_contains_concat<T>(a: Seq<T>, b: Seq<T>, x: T)
    ensures
        (a + b).contains(x) <==> a.contains(x) || b.contains(x),
{
    if a.contains(x) {
        let i = choose|i: int| 0 <= i < a.len() && a[i] == x;
        assert((a + b)[i] == x);
    }
    if b.contains(x) {
        let i = choose|i: int| 0 <= i < b.len() && b[i] == x;
        assert((a + b)[a.len() + i] == x);
    }
    if (a + b).contains(x) {
        let i = choose|i: int| 0 <= i < (a + b).len() && (a + b)[i] == x;
        if i < a.len() {
            assert(a[i] == x);
        } else {
            assert(b[i - a.len()] == x);
        }
    }
}

/// The traversal of a well-formed tree finds a nearest hit among the
/// primitives of the tree, provided the boxes of the primitives are sound
/// for the ray and enlarging a box keeps the ray inside. Moreover the ray
/// passes through the box of the root whenever it hits a primitive.
pub proof fn lemma_tree_nearest<T: Copy>(
    node: BvhNode<T>,
    k: spec_fn(usize, Scalar, Scalar) -> Slab,
    g: HitFn<T>,
    lo: Scalar,
    hi: Scalar,
)
    requires
        node.wf(),
        boxes_sound(node.entries(), k, g, lo, hi),
        enlarging_keeps_hit(k, lo, hi),
    ensures
        nearest_among(node.hit_spec(k, g, lo, hi), node.items(), g, lo, hi),
        node.hit_spec(k, g, lo, hi).is_some() ==> node.boxy.hit_spec(k, lo, hi),
    decreases node,
{
    let res = node.hit_spec(k, g, lo, hi);
    let items = node.items();
    match (node.contents, node.left, node.right) {
        (Some(c), None, None) => {
            let e = Bounded { item: c, boxy: node.boxy };
            assert(node.entries() =~= seq![e]);
            assert(node.entries()[0] == e);
            assert(items =~= seq![c]);
            assert(items[0] == c);
            assert(items.contains(c));
            assert(res == g(c, lo, hi)) by {
                if !node.boxy.hit_spec(k, lo, hi) {
                    assert(g(e.item, lo, hi).is_none());
                }
            }
            assert forall|x: T| #[trigger] items.contains(x) implies x == c by {
                let i = choose|i: int| 0 <= i < items.len() && items[i] == x;
            }
        },
        (None, Some(l), Some(r)) => {
            let le = l.entries();
            let re = r.entries();
            assert(node.entries() =~= le + re);
            assert(boxes_sound(le, k, g, lo, hi)) by {
                assert forall|i: int|
                    0 <= i < le.len() && g((#[trigger] le[i]).item, lo, hi).is_some()
                    implies le[i].boxy.hit_spec(k, lo, hi) by {
                    assert(node.entries()[i] == le[i]);
                }
            }
            assert(boxes_sound(re, k, g, lo, hi)) by {
                assert forall|i: int|
                    0 <= i < re.len() && g((#[trigger] re[i]).item, lo, hi).is_some()
                    implies re[i].boxy.hit_spec(k, lo, hi) by {
                    assert(node.entries()[le.len() + i] == re[i]);
                }
            }
            lemma_tree_nearest(*l, k, g, lo, hi);
            lemma_tree_nearest(*r, k, g, lo, hi);
            let lres = l.hit_spec(k, g, lo, hi);
            let rres = r.hit_spec(k, g, lo, hi);
            lemma_items_of_concat(le, re);
            assert(items == l.items() + r.items());
            assert forall|x: T| #[trigger] items.contains(x) <==> l.items().contains(x)
                || r.items().contains(x) by {
                lemma_contains_concat(l.items(), r.items(), x);
            }
            assert(node.boxy.encloses(l.boxy));
            assert(node.boxy.encloses(r.boxy));
            if lres.is_some() {
                assert(l.boxy.hit_spec(k, lo, hi));
                assert(node.boxy.hit_spec(k, lo, hi));
            }
            if rres.is_some() {
                assert(r.boxy.hit_spec(k, lo, hi));
                assert(node.boxy.hit_spec(k, lo, hi));
            }
            assert(res == spec_closer(lres, rres));
            match res {
                None => {
                    assert forall|x: T| #[trigger] items.contains(x) implies g(
                        x,
                        lo,
                        hi,
                    ).is_none() by {
                        assert(l.items().contains(x) || r.items().contains(x));
                    }
                },
                Some(rec) => {
                    if lres == Some(rec) {
                        let x = choose|x: T| #[trigger]
                            l.items().contains(x) && g(x, lo, hi) == Some(rec);
                        assert(items.contains(x) && g(x, lo, hi) == Some(rec));
                    } else {
                        let x = choose|x: T| #[trigger]
                            r.items().contains(x) && g(x, lo, hi) == Some(rec);
                        assert(items.contains(x) && g(x, lo, hi) == Some(rec));
                    }
                    assert forall|x: T| #[trigger] items.contains(x) implies (g(x, lo, hi)
                        matches Some(other) ==> rec.t <= other.t) by {
                        assert(l.items().contains(x) || r.items().contains(x));
                    }
                },
            }
        },
        _ => {},
    }
}

/// Two nearest hits among the same primitives have the same parameter, and
/// are the same hit where hits that share a parameter are.
pub proof fn lemma_nearest_unique<T>(
    a: Option<HitRecord>,
    b: Option<HitRecord>,
    items: Seq<T>,
    others: Seq<T>,
    g: HitFn<T>,
    lo: Scalar,
    hi: Scalar,
)
    requires
        nearest_among(a, items, g, lo, hi),
        nearest_among(b, others, g, lo, hi),
        same_members(items, others),
    ensures
        parameter(a) == parameter(b),
        ties_agree(items, g, lo, hi) ==> a == b,
{
    match (a, b) {
        (Some(ra), Some(rb)) => {
            let x = choose|x: T| #[trigger] items.contains(x) && g(x, lo, hi) == Some(ra);
            let y = choose|y: T| #[trigger] others.contains(y) && g(y, lo, hi) == Some(rb);
            assert(others.contains(x));
            assert(items.contains(y));
        },
        (Some(ra), None) => {
            let x = choose|x: T| #[trigger] items.contains(x) && g(x, lo, hi) == Some(ra);
            assert(others.contains(x));
        },
        (None, Some(rb)) => {
            let y = choose|y: T| #[trigger] others.contains(y) && g(y, lo, hi) == Some(rb);
            assert(items.contains(y));
        },
        (None, None) => {},
    }
}

/// Traversal of the hierarchy and the linear scan agree.
///
/// Take a well-formed tree and a list that hold the same primitives, and a
/// ray whose primitives report nearest hits, whose boxes are sound, and for
/// which enlarging a box keeps the ray inside. Then the tree and the scan
/// either both miss or both hit at the same parameter; and they report the
/// very same hit, material included, where hits that share a parameter are
/// one and the same.
pub proof fn lemma_bvh_agrees_with_scan<T: Copy>(
    node: BvhNode<T>,
    list: Seq<T>,
    k: spec_fn(usize, Scalar, Scalar) -> Slab,
    g: HitFn<T>,
    t_min: Scalar,
    t_max: Scalar,
)
    requires
        node.wf(),
        same_members(node.items(), list),
        reports_nearest(g),
        boxes_sound(node.entries(), k, g, t_min, t_max),
        enlarging_keeps_hit(k, t_min, t_max),
    ensures
        parameter(node.hit_spec(k, g, t_min, t_max)) == parameter(scan(list, g, t_min, t_max)),
        ties_agree(list, g, t_min, t_max) ==> node.hit_spec(k, g, t_min, t_max) == scan(
            list,
            g,
            t_min,
            t_max,
        ),
{
    lemma_tree_nearest(node, k, g, t_min, t_max);
    lemma_scan_nearest(list, g, t_min, t_max);
    lemma_nearest_unique(
        node.hit_spec(k, g, t_min, t_max),
        scan(list, g, t_min, t_max),
        node.items(),
        list,
        g,
        t_min,
        t_max,
    );
    if ties_agree(list, g, t_min, t_max) {
        assert(ties_agree(node.items(), g, t_min, t_max));
    }
}

/// A tree built over a reordering of some entries holds the primitives of
/// those entries.
pub proof fn lemma_built_tree_members<T: Copy>(
    node: BvhNode<T>,
    before: Seq<Bounded<T>>,
    after: Seq<Bounded<T>>,
)
    requires
        node.entries() == after,
        after.to_multiset() == before.to_multiset(),
    ensures
        same_members(node.items(), before.map_values(|e: Bounded<T>| e.item)),
{
    before.to_multiset_ensures();
    after.to_multiset_ensures();
    let f = |e: Bounded<T>| e.item;
    assert forall|x: T| node.items().contains(x) <==> before.map_values(f).contains(x) by {
        if node.items().contains(x) {
            let i = choose|i: int| 0 <= i < node.items().len() && node.items()[i] == x;
            let e = after[i];
            assert(after.contains(e));
            assert(before.to_multiset().count(e) > 0);
            let j = choose|j: int| 0 <= j < before.len() && before[j] == e;
            assert(before.map_values(f)[j] == x);
        }
        if before.map_values(f).contains(x) {
            let j = choose|j: int|
                0 <= j < before.map_values(f).len() && before.map_values(f)[j] == x;
            let e = before[j];
            assert(before.contains(e));
            assert(after.to_multiset().count(e) > 0);
            let i = choose|i: int| 0 <= i < after.len() && after[i] == e;
            assert(node.items()[i] == x);
        }
    }
}

/// The box of a node encloses the box of every primitive beneath it, and is
/// not inverted if none of theirs is.
pub proof fn lemma_node_box_encloses<T: Copy>(node: BvhNode<T>)
    requires
        node.wf(),
    ensures
        forall|i: int|
            0 <= i < node.entries().len() ==> node.boxy.encloses(
                (#[trigger] node.entries()[i]).boxy,
            ),
        node.entries().len() >= 1,
        (forall|i: int| 0 <= i < node.entries().len() ==> (#[trigger] node.entries()[i]).boxy.wf())
            ==> node.boxy.wf(),
    decreases node,
{
    match (node.contents, node.left, node.right) {
        (Some(c), None, None) => {
            assert(node.entries() =~= seq![Bounded { item: c, boxy: node.boxy }]);
            assert(node.entries()[0].boxy == node.boxy);
        },
        (None, Some(l), Some(r)) => {
            lemma_node_box_encloses(*l);
            lemma_node_box_encloses(*r);
            let le = l.entries();
            let re = r.entries();
            assert(node.entries() =~= le + re);
            assert forall|i: int| 0 <= i < node.entries().len() implies node.boxy.encloses(
                (#[trigger] node.entries()[i]).boxy,
            ) by {
                if i < le.len() {
                    assert(node.entries()[i] == le[i]);
                } else {
                    assert(node.entries()[i] == re[i - le.len()]);
                }
            }
            if forall|i: int|
                0 <= i < node.entries().len() ==> (#[trigger] node.entries()[i]).boxy.wf() {
                assert forall|i: int| 0 <= i < le.len() implies (#[trigger] le[i]).boxy.wf() by {
                    assert(node.entries()[i] == le[i]);
                }
            }
        },
        _ => {},
    }
}

/// A tree built over sound boxes finds what the linear scan finds.
///
/// `before` are the entries that the hierarchy was built from and `after`
/// the same entries in the order in which the build left them. If every
/// box of `before` is sound for the ray, the primitives report nearest
/// hits, and enlarging a box keeps the ray inside, then the tree and the
/// scan of the primitives in their first order either both miss or both
/// hit at the same parameter, and they report the same hit where hits that
/// share a parameter are one and the same.
pub proof fn lemma_built_tree_agrees_with_scan<T: Copy>(
    node: BvhNode<T>,
    before: Seq<Bounded<T>>,
    after: Seq<Bounded<T>>,
    k: spec_fn(usize, Scalar, Scalar) -> Slab,
    g: HitFn<T>,
    t_min: Scalar,
    t_max: Scalar,
)
    requires
        node.wf(),
        node.entries() == after,
        after.to_multiset() == before.to_multiset(),
        reports_nearest(g),
        boxes_sound(before, k, g, t_min, t_max),
        enlarging_keeps_hit(k, t_min, t_max),
    ensures
        parameter(node.hit_spec(k, g, t_min, t_max)) == parameter(
            scan(before.map_values(|e: Bounded<T>| e.item), g, t_min, t_max),
        ),
        ties_agree(before.map_values(|e: Bounded<T>| e.item), g, t_min, t_max)
            ==> node.hit_spec(k, g, t_min, t_max) == scan(
            before.map_values(|e: Bounded<T>| e.item),
            g,
            t_min,
            t_max,
        ),
{
    before.to_multiset_ensures();
    after.to_multiset_ensures();
    assert(boxes_sound(after, k, g, t_min, t_max)) by {
        assert forall|i: int|
            0 <= i < after.len() && g((#[trigger] after[i]).item, t_min, t_max).is_some()
            implies after[i].boxy.hit_spec(k, t_min, t_max) by {
            assert(after.contains(after[i]));
            assert(before.to_multiset().count(after[i]) > 0);
            let j = choose|j: int| 0 <= j < before.len() && before[j] == after[i];
            assert(before[j].boxy == after[i].boxy);
        }
    }
    lemma_built_tree_members(node, before, after);
    lemma_bvh_agrees_with_scan(
        node,
        before.map_values(|e: Bounded<T>| e.item),
        k,
        g,
        t_min,
        t_max,
    );
}

/// The box around a list is sound for the list: where the boxes of the
/// members are sound for the ray and enlarging a box keeps the ray inside,
/// a ray that hits the list passes through the box around it.
pub proof fn lemma_list_box_sound<T>(
    items: Seq<T>,
    b: spec_fn(T) -> Option<Aabb>,
    k: spec_fn(usize, Scalar, Scalar) -> Slab,
    g: HitFn<T>,
    t_min: Scalar,
    t_max: Scalar,
)
    requires
        reports_nearest(g),
        enlarging_keeps_hit(k, t_min, t_max),
        forall|i: int|
            0 <= i < items.len() ==> (g(#[trigger] items[i], t_min, t_max).is_some() ==> (b(
                items[i],
            ) matches Some(own) && own.hit_spec(k, t_min, t_max))),
        enclosure(items, b).is_some(),
        scan(items, g, t_min, t_max).is_some(),
    ensures
        enclosure(items, b)->0.hit_spec(k, t_min, t_max),
{
    lemma_scan_nearest(items, g, t_min, t_max);
    lemma_enclosure_encloses(items, b);
    let rec = scan(items, g, t_min, t_max)->0;
    let x = choose|x: T| #[trigger] items.contains(x) && g(x, t_min, t_max) == Some(rec);
    let i = choose|i: int| 0 <= i < items.len() && items[i] == x;
    assert(g(items[i], t_min, t_max).is_some());
    let own = b(items[i])->0;
    assert(enclosure(items, b)->0.encloses(own));
    assert(own.hit_spec(k, t_min, t_max));
}

/// A hierarchy reports nearest hits itself: when the upper end of the
/// interval is lowered to `cut`, the traversal finds the same hit if that
/// lies before `cut`, and nothing otherwise. The boxes must be sound, and
/// enlarging a box must keep the ray inside, within both intervals.
pub proof fn lemma_tree_reports_nearest<T: Copy>(
    node: BvhNode<T>,
    k: spec_fn(usize, Scalar, Scalar) -> Slab,
    g: HitFn<T>,
    lo: Scalar,
    hi: Scalar,
    cut: Scalar,
)
    requires
        node.wf(),
        cut <= hi,
        reports_nearest(g),
        boxes_sound(node.entries(), k, g, lo, hi),
        boxes_sound(node.entries(), k, g, lo, cut),
        enlarging_keeps_hit(k, lo, hi),
        enlarging_keeps_hit(k, lo, cut),
    ensures
        node.hit_spec(k, g, lo, cut) == clip(node.hit_spec(k, g, lo, hi), cut),
    decreases node,
{
    lemma_tree_nearest(node, k, g, lo, hi);
    lemma_tree_nearest(node, k, g, lo, cut);
    let wide = node.hit_spec(k, g, lo, hi);
    let narrow = node.hit_spec(k, g, lo, cut);
    assert forall|x: T| g(x, lo, cut) == clip(#[trigger] g(x, lo, hi), cut) by {}
    match (node.contents, node.left, node.right) {
        (Some(c), None, None) => {
            assert(node.items().contains(c)) by {
                node.lemma_items_split();
            }
            assert(g(c, lo, cut) == clip(g(c, lo, hi), cut));
            if wide.is_some() {
                assert(wide == g(c, lo, hi));
            }
            if narrow.is_some() {
                assert(narrow == g(c, lo, cut));
            }
            if !node.boxy.hit_spec(k, lo, hi) {
                assert(g(c, lo, hi).is_none());
            }
            if !node.boxy.hit_spec(k, lo, cut) {
                assert(g(c, lo, cut).is_none());
            }
        },
        (None, Some(l), Some(r)) => {
            let le = l.entries();
            let re = r.entries();
            assert(node.entries() =~= le + re);
            assert forall|i: int| 0 <= i < le.len() implies node.entries()[i]
                == #[trigger] le[i] by {}
            assert forall|i: int| 0 <= i < re.len() implies node.entries()[le.len() + i]
                == #[trigger] re[i] by {}
            assert(boxes_sound(le, k, g, lo, hi));
            assert(boxes_sound(le, k, g, lo, cut));
            assert(boxes_sound(re, k, g, lo, hi));
            assert(boxes_sound(re, k, g, lo, cut));
            lemma_tree_reports_nearest(*l, k, g, lo, hi, cut);
            lemma_tree_reports_nearest(*r, k, g, lo, hi, cut);
            lemma_tree_nearest(*l, k, g, lo, hi);
            lemma_tree_nearest(*r, k, g, lo, hi);
            lemma_tree_nearest(*l, k, g, lo, cut);
            lemma_tree_nearest(*r, k, g, lo, cut);
            assert(node.boxy.encloses(l.boxy));
            assert(node.boxy.encloses(r.boxy));
            let lw = l.hit_spec(k, g, lo, hi);
            let rw = r.hit_spec(k, g, lo, hi);
            let ln = l.hit_spec(k, g, lo, cut);
            let rn = r.hit_spec(k, g, lo, cut);
            assert(spec_closer(ln, rn) == clip(spec_closer(lw, rw), cut));
            if node.boxy.hit_spec(k, lo, hi) {
                assert(wide == spec_closer(lw, rw));
            } else {
                assert(lw.is_none() && rw.is_none());
            }
            if node.boxy.hit_spec(k, lo, cut) {
                assert(narrow == spec_closer(ln, rn));
            } else {
                assert(ln.is_none() && rn.is_none());
            }
        },
        _ => {},
    }
}

} // verus!
