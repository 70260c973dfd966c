//! Axis-aligned bounding boxes: their union, and the slab test of a ray
//! against a box.
use vstd::prelude::*;
use crate::vec3::{below, less, spec_above, spec_below, spec_less, Scalar, Vec3, ZERO};

verus! {

/// The smaller of two scalars; the second one when they are equal.
pub open spec fn spec_ffmin(a: Scalar, b: Scalar) -> Scalar {
    if a < b {
        a
    } else {
        b
    }
}

/// The larger of two scalars; the second one when they are equal.
pub open spec fn spec_ffmax(a: Scalar, b: Scalar) -> Scalar {
    if a > b {
        a
    } else {
        b
    }
}

/// The smaller of two scalars.
pub fn ffmin(a: Scalar, b: Scalar) -> (m: Scalar)
    ensures
        m == spec_ffmin(a, b),
{
    if a < b {
        a
    } else {
        b
    }
}

/// The larger of two scalars.
pub fn ffmax(a: Scalar, b: Scalar) -> (m: Scalar)
    ensures
        m == spec_ffmax(a, b),
{
    if a > b {
        a
    } else {
        b
    }
}

/// An axis-aligned bounding box, given by its two extreme corners.
#[derive(Debug, Clone, Copy, PartialEq, Eq, Structural)]
pub struct Aabb {
    pub min: Vec3,
    pub max: Vec3,
}

impl Aabb {
    /// The box is not inverted: on every axis `min` does not exceed `max`.
    pub open spec fn wf(self) -> bool {
        &&& self.min.x <= self.max.x
        &&& self.min.y <= self.max.y
        &&& self.min.z <= self.max.z
    }

    /// `inner` lies within this box on every axis.
    pub open spec fn encloses(self, inner: Aabb) -> bool {
        &&& self.min.x <= inner.min.x && inner.max.x <= self.max.x
        &&& self.min.y <= inner.min.y && inner.max.y <= self.max.y
        &&& self.min.z <= inner.min.z && inner.max.z <= self.max.z
    }

    /// The union of two boxes: the componentwise minimum of the lower corners
    /// and the componentwise maximum of the upper corners.
    pub open spec fn union(self, other: Aabb) -> Aabb {
        Aabb {
            min: Vec3 {
                x: spec_ffmin(self.min.x, other.min.x),
                y: spec_ffmin(self.min.y, other.min.y),
                z: spec_ffmin(self.min.z, other.min.z),
            },
            max: Vec3 {
                x: spec_ffmax(self.max.x, other.max.x),
                y: spec_ffmax(self.max.y, other.max.y),
                z: spec_ffmax(self.max.z, other.max.z),
            },
        }
    }

    /// The box between two corners, which are taken as they are.
    pub fn new(min: Vec3, max: Vec3) -> (b: Self)
        ensures
            b == (Aabb { min, max }),
    {
        Self { min, max }
    }
}

/// The smallest box that holds both `box0` and `box1`.
pub fn surrounding_box(box0: Aabb, box1: Aabb) -> (b: Aabb)
    ensures
        b == box0.union(box1),
        b.wf() <== box0.wf() || box1.wf(),
        b.encloses(box0),
        b.encloses(box1),
{
    let small = Vec3::new(
        ffmin(box0.min.x, box1.min.x),
        ffmin(box0.min.y, box1.min.y),
        ffmin(box0.min.z, box1.min.z),
    );
    let big = Vec3::new(
        ffmax(box0.max.x, box1.max.x),
        ffmax(box0.max.y, box1.max.y),
        ffmax(box0.max.z, box1.max.z),
    );
    Aabb::new(small, big)
}

/// The union of boxes is commutative.
pub proof fn lemma_union_commutative(a: Aabb, b: Aabb)
    ensures
        a.union(b) == b.union(a),
{
}

/// The union of boxes is associative.
pub proof fn lemma_union_associative(a: Aabb, b: Aabb, c: Aabb)
    ensures
        a.union(b).union(c) == a.union(b.union(c)),
{
}

/// The union of a box with itself is that box.
pub proof fn lemma_union_idempotent(a: Aabb)
    ensures
        a.union(a) == a,
{
}

/// The union of two boxes is the least box that encloses both: any box that
/// encloses both also encloses their union.
pub proof fn lemma_union_least(a: Aabb, b: Aabb, outer: Aabb)
    requires
        outer.encloses(a),
        outer.encloses(b),
    ensures
        outer.encloses(a.union(b)),
{
}

/// What the embedding program reports of one axis of a ray against one slab
/// of a box: the reciprocal of the ray's direction along the axis and the
/// parameters at which the ray meets the slab's lower and upper plane. Any
/// of the three may be undefined.
#[derive(Debug, Clone, Copy, PartialEq, Eq, Structural)]
pub struct Slab {
    pub inv_d: Option<Scalar>,
    pub t0: Option<Scalar>,
    pub t1: Option<Scalar>,
}

/// The closure `f` computes the function `g`: whatever `f` returns on
/// `(axis, lo, hi)` is `g(axis, lo, hi)`.
pub open spec fn computes_slab<K: Fn(usize, Scalar, Scalar) -> Slab>(
    f: K,
    g: spec_fn(usize, Scalar, Scalar) -> Slab,
) -> bool {
    forall|axis: usize, lo: Scalar, hi: Scalar, s: Slab| #[trigger]
        call_ensures(f, (axis, lo, hi), s) ==> s == g(axis, lo, hi)
}

/// The interval `(t_min, t_max)` after one slab has narrowed it, or `None`
/// when nothing of it is left.
///
/// The entry parameter is `t0`, and the exit parameter `t1`, unless the
/// direction runs against the axis, in which case the two change places. An
/// entry above `t_min` raises it, an exit below `t_max` lowers it; an
/// undefined parameter changes nothing.
pub open spec fn narrow(s: Slab, t_min: Scalar, t_max: Scalar) -> Option<(Scalar, Scalar)> {
    let entry = if spec_below(s.inv_d, ZERO) { s.t1 } else { s.t0 };
    let exit = if spec_below(s.inv_d, ZERO) { s.t0 } else { s.t1 };
    let lo = if spec_above(entry, t_min) { entry->0 } else { t_min };
    let hi = if spec_below(exit, t_max) { exit->0 } else { t_max };
    if hi <= lo {
        None
    } else {
        Some((lo, hi))
    }
}

/// One slab narrows the interval `(t_min, t_max)`, as `narrow` says.
pub fn narrow_interval(s: Slab, t_min: Scalar, t_max: Scalar) -> (n: Option<(Scalar, Scalar)>)
    ensures
        n == narrow(s, t_min, t_max),
{
    let mut t0 = s.t0;
    let mut t1 = s.t1;
    if below(s.inv_d, ZERO) {
        t0 = s.t1;
        t1 = s.t0;
    }
    let lo = match t0 {
        Some(v) => if v > t_min { v } else { t_min },
        None => t_min,
    };
    let hi = match t1 {
        Some(v) => if v < t_max { v } else { t_max },
        None => t_max,
    };
    if hi <= lo {
        None
    } else {
        Some((lo, hi))
    }
}

/// The interval `(t_min, t_max)` after one slab has narrowed it, where the
/// smaller of the slab's two parameters is taken for the entry and the
/// larger for the exit, whatever the direction of the ray. Where one of the
/// two is undefined the second one is taken for both.
pub open spec fn narrow_sorted(s: Slab, t_min: Scalar, t_max: Scalar) -> Option<(Scalar, Scalar)> {
    let entry = if spec_less(s.t0, s.t1) { s.t0 } else { s.t1 };
    let exit = if spec_less(s.t1, s.t0) { s.t0 } else { s.t1 };
    let lo = if spec_above(entry, t_min) { entry->0 } else { t_min };
    let hi = if spec_below(exit, t_max) { exit->0 } else { t_max };
    if hi <= lo {
        None
    } else {
        Some((lo, hi))
    }
}

/// One slab narrows the interval `(t_min, t_max)`, as `narrow_sorted` says.
pub fn narrow_interval_sorted(s: Slab, t_min: Scalar, t_max: Scalar) -> (n: Option<
    (Scalar, Scalar),
>)
    ensures
        n == narrow_sorted(s, t_min, t_max),
{
    let t0 = if less(s.t0, s.t1) { s.t0 } else { s.t1 };
    let t1 = if less(s.t1, s.t0) { s.t0 } else { s.t1 };
    let lo = match t0 {
        Some(v) => if v > t_min { v } else { t_min },
        None => t_min,
    };
    let hi = match t1 {
        Some(v) => if v < t_max { v } else { t_max },
        None => t_max,
    };
    if hi <= lo {
        None
    } else {
        Some((lo, hi))
    }
}

/// Where both parameters of a slab are defined and the sign of the
/// direction tells their order, the two ways of narrowing agree.
pub proof fn lemma_narrow_agree(s: Slab, t_min: Scalar, t_max: Scalar)
    requires
        s.t0.is_some(),
        s.t1.is_some(),
        spec_below(s.inv_d, ZERO) ==> s.t1->0 <= s.t0->0,
        !spec_below(s.inv_d, ZERO) ==> s.t0->0 <= s.t1->0,
    ensures
        narrow(s, t_min, t_max) == narrow_sorted(s, t_min, t_max),
{
}

impl Aabb {
    /// The slab test from `axis` on: the slabs of the remaining axes in turn
    /// narrow the interval, and the ray misses as soon as nothing is left.
    pub open spec fn hit_from(
        self,
        k: spec_fn(usize, Scalar, Scalar) -> Slab,
        axis: usize,
        t_min: Scalar,
        t_max: Scalar,
    ) -> bool
        decreases 3 - axis,
    {
        if axis >= 3 {
            true
        } else {
            match narrow(
                k(axis, self.min.component(axis as int), self.max.component(axis as int)),
                t_min,
                t_max,
            ) {
                None => false,
                Some((lo, hi)) => self.hit_from(k, (axis + 1) as usize, lo, hi),
            }
        }
    }

    /// Whether a ray, known by its slab parameters `k`, passes through the
    /// box within `(t_min, t_max)`.
    pub open spec fn hit_spec(
        self,
        k: spec_fn(usize, Scalar, Scalar) -> Slab,
        t_min: Scalar,
        t_max: Scalar,
    ) -> bool {
        self.hit_from(k, 0, t_min, t_max)
    }

    /// The slab test from `axis` on, with the parameters of every slab
    /// taken in ascending order.
    pub open spec fn slower_hit_from(
        self,
        k: spec_fn(usize, Scalar, Scalar) -> Slab,
        axis: usize,
        t_min: Scalar,
        t_max: Scalar,
    ) -> bool
        decreases 3 - axis,
    {
        if axis >= 3 {
            true
        } else {
            match narrow_sorted(
                k(axis, self.min.component(axis as int), self.max.component(axis as int)),
                t_min,
                t_max,
            ) {
                None => false,
                Some((lo, hi)) => self.slower_hit_from(k, (axis + 1) as usize, lo, hi),
            }
        }
    }

    /// The slab test that orders the two parameters of each slab by
    /// comparing them, and does not look at the sign of the direction.
    pub fn slower_hit<K: Fn(usize, Scalar, Scalar) -> Slab>(
        &self,
        slab: &K,
        t_min: Scalar,
        t_max: Scalar,
    ) -> (inside: bool)
        requires
            forall|axis: usize, lo: Scalar, hi: Scalar| call_requires(*slab, (axis, lo, hi)),
        ensures
            forall|k: spec_fn(usize, Scalar, Scalar) -> Slab| #[trigger]
                computes_slab(*slab, k) ==> inside == self.slower_hit_from(k, 0, t_min, t_max),
    {
        let mut lo = t_min;
        let mut hi = t_max;
        let mut a: usize = 0;
        while a < 3
            invariant
                a <= 3,
                forall|axis: usize, lo: Scalar, hi: Scalar| call_requires(*slab, (axis, lo, hi)),
                forall|k: spec_fn(usize, Scalar, Scalar) -> Slab| #[trigger]
                    computes_slab(*slab, k) ==> self.slower_hit_from(k, 0, t_min, t_max)
                        == self.slower_hit_from(k, a, lo, hi),
            decreases 3 - a,
        {
            let s = slab(a, self.min.index(a), self.max.index(a));
            assert forall|k: spec_fn(usize, Scalar, Scalar) -> Slab| #[trigger]
                computes_slab(*slab, k) implies s == k(
                a,
                self.min.component(a as int),
                self.max.component(a as int),
            ) by {
                assert(call_ensures(
                    *slab,
                    (a, self.min.component(a as int), self.max.component(a as int)),
                    s,
                ));
            }
            match narrow_interval_sorted(s, lo, hi) {
                None => {
                    return false;
                },
                Some((lo1, hi1)) => {
                    lo = lo1;
                    hi = hi1;
                },
            }
            a = a + 1;
        }
        true
    }

    /// The slab test. `slab` is called with an axis and the box's two planes
    /// on that axis, and evaluates the ray there.
    pub fn hit<K: Fn(usize, Scalar, Scalar) -> Slab>(
        &self,
        slab: &K,
        t_min: Scalar,
        t_max: Scalar,
    ) -> (inside: bool)
        requires
            forall|axis: usize, lo: Scalar, hi: Scalar| call_requires(*slab, (axis, lo, hi)),
        ensures
            forall|k: spec_fn(usize, Scalar, Scalar) -> Slab| #[trigger]
                computes_slab(*slab, k) ==> inside == self.hit_spec(k, t_min, t_max),
    {
        let mut lo = t_min;
        let mut hi = t_max;
        let mut a: usize = 0;
        while a < 3
            invariant
                a <= 3,
                forall|axis: usize, lo: Scalar, hi: Scalar| call_requires(*slab, (axis, lo, hi)),
                forall|k: spec_fn(usize, Scalar, Scalar) -> Slab| #[trigger]
                    computes_slab(*slab, k) ==> self.hit_spec(k, t_min, t_max) == self.hit_from(
                        k,
                        a,
                        lo,
                        hi,
                    ),
            decreases 3 - a,
        {
            let s = slab(a, self.min.index(a), self.max.index(a));
            assert forall|k: spec_fn(usize, Scalar, Scalar) -> Slab| #[trigger]
                computes_slab(*slab, k) implies s == k(
                a,
                self.min.component(a as int),
                self.max.component(a as int),
            ) by {
                assert(call_ensures(
                    *slab,
                    (a, self.min.component(a as int), self.max.component(a as int)),
                    s,
                ));
            }
            match narrow_interval(s, lo, hi) {
                None => {
                    return false;
                },
                Some((lo1, hi1)) => {
                    lo = lo1;
                    hi = hi1;
                },
            }
            a = a + 1;
        }
        true
    }
}

/// A ray that passes through a box passes through every box around it.
pub open spec fn enlarging_keeps_hit(
    k: spec_fn(usize, Scalar, Scalar) -> Slab,
    lo: Scalar,
    hi: Scalar,
) -> bool {
    forall|a: Aabb, b: Aabb|
        #![trigger b.encloses(a), a.hit_spec(k, lo, hi)]
        b.encloses(a) && a.hit_spec(k, lo, hi) ==> b.hit_spec(k, lo, hi)
}

/// Widening a slab, or the interval that it narrows, widens what is left:
/// whenever a slab leaves `(x, y)` of an interval, the wider slab leaves of
/// the wider interval something that contains `(x, y)`.
pub open spec fn wider_slab_leaves_more(k: spec_fn(usize, Scalar, Scalar) -> Slab) -> bool {
    forall|
        axis: usize,
        lo: Scalar,
        hi: Scalar,
        wide_lo: Scalar,
        wide_hi: Scalar,
        t_min: Scalar,
        t_max: Scalar,
        wide_min: Scalar,
        wide_max: Scalar,
    |
        #![trigger
            narrow(k(axis, lo, hi), t_min, t_max),
            narrow(k(axis, wide_lo, wide_hi), wide_min, wide_max)
        ]
        wide_lo <= lo && hi <= wide_hi && wide_min <= t_min && t_max <= wide_max ==> (narrow(
            k(axis, lo, hi),
            t_min,
            t_max,
        ) matches Some(left) ==> (narrow(k(axis, wide_lo, wide_hi), wide_min, wide_max)
            matches Some(more) && more.0 <= left.0 && left.1 <= more.1))
}

proof fn lemma_wider_box_from(
    a: Aabb,
    b: Aabb,
    k: spec_fn(usize, Scalar, Scalar) -> Slab,
    axis: usize,
    t_min: Scalar,
    t_max: Scalar,
    wide_min: Scalar,
    wide_max: Scalar,
)
    requires
        wider_slab_leaves_more(k),
        b.encloses(a),
        axis <= 3,
        wide_min <= t_min,
        t_max <= wide_max,
        a.hit_from(k, axis, t_min, t_max),
    ensures
        b.hit_from(k, axis, wide_min, wide_max),
    decreases 3 - axis,
{
    if axis < 3 {
        let sa = k(axis, a.min.component(axis as int), a.max.component(axis as int));
        let sb = k(axis, b.min.component(axis as int), b.max.component(axis as int));
        let left = narrow(sa, t_min, t_max)->0;
        let more = narrow(sb, wide_min, wide_max)->0;
        assert(narrow(sa, t_min, t_max).is_some());
        assert(narrow(sb, wide_min, wide_max).is_some() && more.0 <= left.0 && left.1 <= more.1);
        lemma_wider_box_from(a, b, k, (axis + 1) as usize, left.0, left.1, more.0, more.1);
    }
}

/// Where widening a slab leaves more of every interval, a ray that passes
/// through a box passes through every box around it.
pub proof fn lemma_wider_slabs_keep_hit(
    k: spec_fn(usize, Scalar, Scalar) -> Slab,
    t_min: Scalar,
    t_max: Scalar,
)
    requires
        wider_slab_leaves_more(k),
    ensures
        enlarging_keeps_hit(k, t_min, t_max),
{
    assert forall|a: Aabb, b: Aabb|
        #![trigger b.encloses(a), a.hit_spec(k, t_min, t_max)]
        b.encloses(a) && a.hit_spec(k, t_min, t_max) implies b.hit_spec(k, t_min, t_max) by {
        lemma_wider_box_from(a, b, k, 0, t_min, t_max, t_min, t_max);
    }
}

} // verus!
