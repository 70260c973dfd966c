//! Hit records, the linear scan of a list, and the rules by which each
//! primitive accepts or rejects what a ray does to it.
use vstd::prelude::*;
use crate::aabb::{surrounding_box, Aabb};
use crate::vec3::{
    above, below, less, spec_above, spec_below, spec_less, RawVec3, Scalar, Vec3, MAX, MIN, ONE,
    ZERO,
};

verus! {

/// One intersection of a ray with a surface: the ray parameter, the surface
/// coordinates, the point, the normal there, and the index of the material
/// in the scene's material table.
///
/// The library compares nothing but `t`; the other scalars are carried from
/// the program that computed them to the program that shades the hit.
#[derive(Debug, Clone, Copy, PartialEq, Eq)]
pub struct HitRecord {
    pub t: Scalar,
    pub u: Scalar,
    pub v: Scalar,
    pub p: Vec3,
    pub normal: Vec3,
    pub material: Option<usize>,
}

impl Default for HitRecord {
    fn default() -> (rec: Self)
        ensures
            rec == (HitRecord {
                t: ZERO,
                u: ZERO,
                v: ZERO,
                p: Vec3 { x: ZERO, y: ZERO, z: ZERO },
                normal: Vec3 { x: ZERO, y: ZERO, z: ZERO },
                material: None,
            }),
    {
        HitRecord {
            t: ZERO,
            u: ZERO,
            v: ZERO,
            p: Vec3 { x: ZERO, y: ZERO, z: ZERO },
            normal: Vec3 { x: ZERO, y: ZERO, z: ZERO },
            material: None,
        }
    }
}

/// A function from a primitive and an interval to the hit it reports there.
pub type HitFn<T> = spec_fn(T, Scalar, Scalar) -> Option<HitRecord>;

/// The closure `f` computes the function `g`: whatever `f` returns on a
/// primitive and an interval is what `g` gives there.
pub open spec fn computes_hit<T, P: Fn(&T, Scalar, Scalar) -> Option<HitRecord>>(
    f: P,
    g: HitFn<T>,
) -> bool {
    forall|x: &T, lo: Scalar, hi: Scalar, r: Option<HitRecord>| #[trigger]
        call_ensures(f, (x, lo, hi), r) ==> r == g(*x, lo, hi)
}

/// The closure `f` computes the function `g`: whatever `f` returns on a
/// primitive is what `g` gives for it.
pub open spec fn computes_box<T, B: Fn(&T) -> Option<Aabb>>(
    f: B,
    g: spec_fn(T) -> Option<Aabb>,
) -> bool {
    forall|x: &T, r: Option<Aabb>| #[trigger] call_ensures(f, (x,), r) ==> r == g(*x)
}

/// The hit `r`, kept only when it lies strictly before `cut`.
pub open spec fn clip(r: Option<HitRecord>, cut: Scalar) -> Option<HitRecord> {
    match r {
        Some(rec) => if rec.t < cut {
            r
        } else {
            None
        },
        None => None,
    }
}

/// `g` reports nearest hits: when the upper end of the interval is lowered
/// to `cut`, the hit reported stays the same if it lies before `cut`, and
/// there is no hit otherwise.
pub open spec fn reports_nearest<T>(g: HitFn<T>) -> bool {
    forall|x: T, lo: Scalar, hi: Scalar, cut: Scalar|
        cut <= hi ==> #[trigger] g(x, lo, cut) == clip(#[trigger] g(x, lo, hi), cut)
}

/// `g` reports hits inside the interval it is asked for, and not at its
/// ends.
pub open spec fn reports_inside<T>(g: HitFn<T>) -> bool {
    forall|x: T, lo: Scalar, hi: Scalar|
        (#[trigger] g(x, lo, hi)) matches Some(rec) ==> lo < rec.t < hi
}

/// `res` is a nearest hit among `items` within `(lo, hi)`: nothing when no
/// item is hit, and else the hit of one item that no other item's hit
/// precedes.
pub open spec fn nearest_among<T>(
    res: Option<HitRecord>,
    items: Seq<T>,
    g: HitFn<T>,
    lo: Scalar,
    hi: Scalar,
) -> bool {
    match res {
        None => forall|x: T| #[trigger] items.contains(x) ==> g(x, lo, hi).is_none(),
        Some(rec) => {
            &&& exists|x: T| #[trigger] items.contains(x) && g(x, lo, hi) == Some(rec)
            &&& forall|x: T| #[trigger]
                items.contains(x) ==> (g(x, lo, hi) matches Some(r) ==> rec.t <= r.t)
        },
    }
}

/// The upper end of the interval once `best` has been found.
pub open spec fn closest_so_far(best: Option<HitRecord>, t_max: Scalar) -> Scalar {
    match best {
        Some(rec) => rec.t,
        None => t_max,
    }
}

/// The linear scan: the items are asked in order, each within the interval
/// that ends at the nearest hit found before it, and the last hit reported
/// is the result.
pub open spec fn scan<T>(items: Seq<T>, g: HitFn<T>, t_min: Scalar, t_max: Scalar) -> Option<
    HitRecord,
>
    decreases items.len(),
{
    if items.len() == 0 {
        None
    } else {
        let before = scan(items.drop_last(), g, t_min, t_max);
        match g(items.last(), t_min, closest_so_far(before, t_max)) {
            Some(rec) => Some(rec),
            None => before,
        }
    }
}

/// The box that holds the boxes of all `items`: nothing for an empty
/// sequence, nothing when an item has no box, else the union from left to
/// right.
pub open spec fn enclosure<T>(items: Seq<T>, b: spec_fn(T) -> Option<Aabb>) -> Option<Aabb>
    decreases items.len(),
{
    if items.len() == 0 {
        None
    } else if items.len() == 1 {
        b(items[0])
    } else {
        match (enclosure(items.drop_last(), b), b(items.last())) {
            (Some(acc), Some(x)) => Some(acc.union(x)),
            _ => None,
        }
    }
}

/// An ordered sequence of primitives, intersected by linear scan.
#[derive(Debug)]
pub struct HitableList<T> {
    pub list: Vec<T>,
}

impl<T> HitableList<T> {
    /// The list of the given members, in their order.
    pub fn new(list: Vec<T>) -> (l: Self)
        ensures
            l.list == list,
    {
        Self { list }
    }

    /// The nearest hit of the list within `(t_min, t_max)`. `probe`
    /// intersects the ray with one member within an interval.
    pub fn hit<P: Fn(&T, Scalar, Scalar) -> Option<HitRecord>>(
        &self,
        probe: &P,
        t_min: Scalar,
        t_max: Scalar,
    ) -> (res: Option<HitRecord>)
        requires
            forall|x: &T, lo: Scalar, hi: Scalar| call_requires(*probe, (x, lo, hi)),
        ensures
            forall|g: HitFn<T>| #[trigger]
                computes_hit(*probe, g) ==> res == scan(self.list@, g, t_min, t_max),
            res.is_some() ==> exists|i: int, hi: Scalar|
                0 <= i < self.list.len() && #[trigger] call_ensures(
                    *probe,
                    (&self.list@[i], t_min, hi),
                    res,
                ),
    {
        let mut hit_anything: Option<HitRecord> = None;
        let mut closest = t_max;
        let mut i: usize = 0;
        while i < self.list.len()
            invariant
                i <= self.list.len(),
                forall|x: &T, lo: Scalar, hi: Scalar| call_requires(*probe, (x, lo, hi)),
                closest == closest_so_far(hit_anything, t_max),
                hit_anything.is_some() ==> exists|j: int, hi: Scalar|
                    0 <= j < i && #[trigger] call_ensures(
                        *probe,
                        (&self.list@[j], t_min, hi),
                        hit_anything,
                    ),
                forall|g: HitFn<T>| #[trigger]
                    computes_hit(*probe, g) ==> hit_anything == scan(
                        self.list@.take(i as int),
                        g,
                        t_min,
                        t_max,
                    ),
            decreases self.list.len() - i,
        {
            let ghost old_closest = closest;
            let found = probe(&self.list[i], t_min, closest);
            proof {
                let before = self.list@.take(i as int);
                let now = self.list@.take(i + 1);
                assert(now.drop_last() == before);
                assert(now.last() == self.list@[i as int]);
                assert forall|g: HitFn<T>| #[trigger] computes_hit(*probe, g) implies (match found {
                    Some(rec) => Some(rec),
                    None => hit_anything,
                }) == scan(now, g, t_min, t_max) by {
                    assert(call_ensures(*probe, (&self.list@[i as int], t_min, closest), found));
                }
            }
            if let Some(rec) = found {
                closest = rec.t;
                hit_anything = Some(rec);
            }
            assert(found.is_some() ==> call_ensures(
                *probe,
                (&self.list@[i as int], t_min, old_closest),
                hit_anything,
            ));
            i = i + 1;
        }
        proof {
            assert(self.list@.take(i as int) == self.list@);
        }
        hit_anything
    }

    /// The box around the whole list. `boxes` gives the box of one member.
    pub fn bounding_box<B: Fn(&T) -> Option<Aabb>>(&self, boxes: &B) -> (res: Option<Aabb>)
        requires
            forall|x: &T| call_requires(*boxes, (x,)),
        ensures
            forall|b: spec_fn(T) -> Option<Aabb>| #[trigger]
                computes_box(*boxes, b) ==> res == enclosure(self.list@, b),
            self.list.len() == 0 ==> res.is_none(),
    {
        if self.list.len() < 1 {
            return None;
        }
        let first = boxes(&self.list[0]);
        proof {
            assert(self.list@.take(1).len() == 1);
            assert forall|b: spec_fn(T) -> Option<Aabb>| #[trigger]
                computes_box(*boxes, b) implies first == enclosure(self.list@.take(1), b) by {
                assert(call_ensures(*boxes, (&self.list@[0],), first));
            }
        }
        let mut boxy = match first {
            Some(b) => b,
            None => {
                proof {
                    assert forall|b: spec_fn(T) -> Option<Aabb>| #[trigger]
                        computes_box(*boxes, b) implies enclosure(self.list@, b).is_none() by {
                        lemma_enclosure_unbounded_prefix(self.list@, b, 1);
                    }
                }
                return None;
            },
        };
        let mut i: usize = 1;
        while i < self.list.len()
            invariant
                1 <= i <= self.list.len(),
                forall|x: &T| call_requires(*boxes, (x,)),
                forall|b: spec_fn(T) -> Option<Aabb>| #[trigger]
                    computes_box(*boxes, b) ==> Some(boxy) == enclosure(
                        self.list@.take(i as int),
                        b,
                    ),
            decreases self.list.len() - i,
        {
            let next = boxes(&self.list[i]);
            proof {
                let before = self.list@.take(i as int);
                let now = self.list@.take(i + 1);
                assert(now.drop_last() == before);
                assert(now.last() == self.list@[i as int]);
                assert forall|b: spec_fn(T) -> Option<Aabb>| #[trigger]
                    computes_box(*boxes, b) implies (match next {
                    Some(x) => Some(boxy.union(x)),
                    None => None,
                }) == enclosure(now, b) by {
                    assert(call_ensures(*boxes, (&self.list@[i as int],), next));
                }
            }
            match next {
                Some(x) => {
                    boxy = surrounding_box(boxy, x);
                },
                None => {
                    proof {
                        assert forall|b: spec_fn(T) -> Option<Aabb>| #[trigger]
                            computes_box(*boxes, b) implies enclosure(self.list@, b).is_none() by {
                            lemma_enclosure_unbounded_prefix(self.list@, b, i + 1);
                        }
                    }
                    return None;
                },
            }
            i = i + 1;
        }
        proof {
            assert(self.list@.take(i as int) == self.list@);
        }
        Some(boxy)
    }
}

/// Once a prefix of the items has no enclosure, the whole sequence has none.
pub proof fn lemma_enclosure_unbounded_prefix<T>(
    items: Seq<T>,
    b: spec_fn(T) -> Option<Aabb>,
    n: int,
)
    requires
        1 <= n <= items.len(),
        enclosure(items.take(n), b).is_none(),
    ensures
        enclosure(items, b).is_none(),
    decreases items.len() - n,
{
    if n < items.len() {
        let longer = items.take(n + 1);
        assert(longer.drop_last() == items.take(n));
        lemma_enclosure_unbounded_prefix(items, b, n + 1);
    } else {
        assert(items.take(n) == items);
    }
}

/// A list of primitives that report nearest hits reports nearest hits
/// itself: when the upper end of the interval is lowered to `cut`, the scan
/// finds the same hit if that lies before `cut`, and nothing otherwise.
pub proof fn lemma_scan_reports_nearest<T>(
    items: Seq<T>,
    g: HitFn<T>,
    lo: Scalar,
    hi: Scalar,
    cut: Scalar,
)
    requires
        reports_nearest(g),
        cut <= hi,
    ensures
        scan(items, g, lo, cut) == clip(scan(items, g, lo, hi), cut),
    decreases items.len(),
{
    if items.len() > 0 {
        let init = items.drop_last();
        let last = items.last();
        let wide = scan(init, g, lo, hi);
        let narrow = scan(init, g, lo, cut);
        lemma_scan_reports_nearest(init, g, lo, hi, cut);
        lemma_scan_nearest(init, g, lo, hi);
        match wide {
            None => {
                assert(g(last, lo, cut) == clip(g(last, lo, hi), cut));
            },
            Some(b) => {
                let x = choose|x: T| #[trigger] init.contains(x) && g(x, lo, hi) == Some(b);
                assert(g(x, lo, hi) == clip(g(x, lo, hi), hi));
                if b.t < cut {
                    assert(narrow == wide);
                } else {
                    assert(narrow.is_none());
                    assert(g(last, lo, cut) == clip(g(last, lo, b.t), cut));
                }
            },
        }
    }
}

/// The enclosure of a sequence, where there is one, encloses the box of
/// every item; and there is one exactly when the sequence is not empty and
/// every item has a box.
pub proof fn lemma_enclosure_encloses<T>(items: Seq<T>, b: spec_fn(T) -> Option<Aabb>)
    ensures
        enclosure(items, b).is_some() <==> items.len() > 0 && forall|i: int|
            0 <= i < items.len() ==> (#[trigger] b(items[i])).is_some(),
        enclosure(items, b) matches Some(all) ==> forall|i: int|
            0 <= i < items.len() ==> all.encloses((#[trigger] b(items[i]))->0),
    decreases items.len(),
{
    if items.len() >= 2 {
        let init = items.drop_last();
        lemma_enclosure_encloses(init, b);
        assert forall|i: int| 0 <= i < init.len() implies init[i] == items[i] by {}
        if enclosure(items, b).is_some() {
            let all = enclosure(items, b)->0;
            assert forall|i: int| 0 <= i < items.len() implies (#[trigger] b(items[i])).is_some()
                && all.encloses(b(items[i])->0) by {
                if i < init.len() {
                    assert(init[i] == items[i]);
                }
            }
        } else {
            if forall|i: int| 0 <= i < items.len() ==> (#[trigger] b(items[i])).is_some() {
                assert forall|i: int| 0 <= i < init.len() implies (#[trigger] b(
                    init[i],
                )).is_some() by {
                    assert(init[i] == items[i]);
                }
                assert(b(items[items.len() - 1]).is_some());
            }
        }
    }
}

/// A nearest hit among primitives that report hits inside their intervals
/// lies strictly inside the interval.
pub proof fn lemma_nearest_inside<T>(
    res: Option<HitRecord>,
    items: Seq<T>,
    g: HitFn<T>,
    lo: Scalar,
    hi: Scalar,
)
    requires
        nearest_among(res, items, g, lo, hi),
        reports_inside(g),
    ensures
        res matches Some(rec) ==> lo < rec.t < hi,
{
    if res.is_some() {
        let rec = res->0;
        let x = choose|x: T| #[trigger] items.contains(x) && g(x, lo, hi) == Some(rec);
        assert(g(x, lo, hi) == Some(rec));
    }
}

/// The linear scan finds a nearest hit: against primitives that report
/// nearest hits, the result of the scan is the hit of one member, and no
/// member is hit before it.
pub proof fn lemma_scan_nearest<T>(items: Seq<T>, g: HitFn<T>, t_min: Scalar, t_max: Scalar)
    requires
        reports_nearest(g),
    ensures
        nearest_among(scan(items, g, t_min, t_max), items, g, t_min, t_max),
    decreases items.len(),
{
    let res = scan(items, g, t_min, t_max);
    if items.len() == 0 {
        assert forall|x: T| #[trigger] items.contains(x) implies g(x, t_min, t_max).is_none() by {}
    } else {
        let init = items.drop_last();
        let last = items.last();
        let before = scan(init, g, t_min, t_max);
        lemma_scan_nearest(init, g, t_min, t_max);
        let cut = closest_so_far(before, t_max);
        assert(cut <= t_max) by {
            if before.is_some() {
                let rec = before->0;
                let x = choose|x: T| #[trigger] init.contains(x) && g(x, t_min, t_max) == Some(rec);
                assert(g(x, t_min, t_max) == clip(g(x, t_min, t_max), t_max));
            }
        }
        assert(g(last, t_min, cut) == clip(g(last, t_min, t_max), cut));
        assert(items.contains(last)) by {
            assert(items[items.len() - 1] == last);
        }
        assert forall|x: T| #[trigger] items.contains(x) implies init.contains(x) || x == last by {
            let i = choose|i: int| 0 <= i < items.len() && items[i] == x;
            if i < init.len() {
                assert(init[i] == x);
            }
        }
        assert forall|x: T| #[trigger] init.contains(x) implies items.contains(x) by {
            let i = choose|i: int| 0 <= i < init.len() && init[i] == x;
            assert(items[i] == x);
        }
        match res {
            None => {
                assert forall|x: T| #[trigger] items.contains(x) implies g(
                    x,
                    t_min,
                    t_max,
                ).is_none() by {
                    assert(init.contains(x) || x == last);
                }
            },
            Some(rec) => {
                if g(last, t_min, cut).is_some() {
                    assert(items.contains(last) && g(last, t_min, t_max) == Some(rec));
                } else {
                    let x = choose|x: T| #[trigger]
                        init.contains(x) && g(x, t_min, t_max) == Some(rec);
                    assert(items.contains(x) && g(x, t_min, t_max) == Some(rec));
                }
                assert forall|x: T| #[trigger] items.contains(x) implies (g(x, t_min, t_max)
                    matches Some(r) ==> rec.t <= r.t) by {
                    assert(init.contains(x) || x == last);
                }
            },
        }
    }
}


/// `t` lies strictly inside `(t_min, t_max)`. An undefined parameter lies
/// inside no interval.
pub open spec fn strictly_inside(t: Option<Scalar>, t_min: Scalar, t_max: Scalar) -> bool {
    spec_above(t, t_min) && spec_below(t, t_max)
}

/// `x` does not fall outside `[lo, hi]`. An undefined coordinate falls
/// outside nothing.
pub open spec fn within(x: Option<Scalar>, lo: Scalar, hi: Scalar) -> bool {
    !spec_below(x, lo) && !spec_above(x, hi)
}

/// The surface data of a hit: what the embedding program computes once the
/// ray parameter is known.
#[derive(Debug, Clone, Copy, PartialEq, Eq)]
pub struct Surface {
    pub u: Scalar,
    pub v: Scalar,
    pub p: Vec3,
    pub normal: Vec3,
}

/// What the embedding program reports of a ray against a sphere: the
/// discriminant of the quadratic in the ray parameter, and its two roots,
/// the one with the negative square root first.
#[derive(Debug, Clone, Copy, PartialEq, Eq)]
pub struct Roots {
    pub discriminant: Option<Scalar>,
    pub near: Option<Scalar>,
    pub far: Option<Scalar>,
}

/// A sphere of one material.
#[derive(Debug, Clone, Copy, PartialEq, Eq)]
pub struct Sphere {
    pub center: Vec3,
    pub radius: Scalar,
    pub material: usize,
}

impl Sphere {
    /// The parameter at which the ray hits: with a discriminant that is not
    /// positive there is no hit; else the first root counts when it lies
    /// strictly inside the interval, else the second when that one does.
    pub open spec fn root(roots: Roots, t_min: Scalar, t_max: Scalar) -> Option<Scalar> {
        if spec_above(roots.discriminant, ZERO) {
            if strictly_inside(roots.near, t_min, t_max) {
                roots.near
            } else if strictly_inside(roots.far, t_min, t_max) {
                roots.far
            } else {
                None
            }
        } else {
            None
        }
    }

    /// The sphere about `center`.
    pub fn new(center: Vec3, radius: Scalar, material: usize) -> (s: Self)
        ensures
            s == (Sphere { center, radius, material }),
    {
        Self { center, radius, material }
    }

    /// The nearest hit of the sphere within `(t_min, t_max)`, from the
    /// roots of its quadratic. `surface` is asked for the surface data at
    /// the parameter chosen, and only then.
    pub fn hit<S: Fn(Scalar) -> Surface>(
        &self,
        roots: &Roots,
        surface: &S,
        t_min: Scalar,
        t_max: Scalar,
    ) -> (res: Option<HitRecord>)
        requires
            forall|t: Scalar| call_requires(*surface, (t,)),
        ensures
            res.is_some() == Self::root(*roots, t_min, t_max).is_some(),
            res matches Some(rec) ==> {
                &&& Some(rec.t) == Self::root(*roots, t_min, t_max)
                &&& t_min < rec.t < t_max
                &&& rec.material == Some(self.material)
                &&& call_ensures(
                    *surface,
                    (rec.t,),
                    Surface { u: rec.u, v: rec.v, p: rec.p, normal: rec.normal },
                )
            },
    {
        if above(roots.discriminant, ZERO) {
            if above(roots.near, t_min) && below(roots.near, t_max) {
                let t = roots.near.unwrap();
                let s = surface(t);
                return Some(
                    HitRecord {
                        t,
                        u: s.u,
                        v: s.v,
                        p: s.p,
                        normal: s.normal,
                        material: Some(self.material),
                    },
                );
            }
            if above(roots.far, t_min) && below(roots.far, t_max) {
                let t = roots.far.unwrap();
                let s = surface(t);
                return Some(
                    HitRecord {
                        t,
                        u: s.u,
                        v: s.v,
                        p: s.p,
                        normal: s.normal,
                        material: Some(self.material),
                    },
                );
            }
        }
        None
    }
}

/// What the embedding program reports of a ray against the plane of a
/// rectangle: the parameter at which the ray crosses the plane, the two
/// coordinates of the crossing within the plane, and the surface
/// coordinates and the point that go with it.
#[derive(Debug, Clone, Copy, PartialEq, Eq)]
pub struct PlaneCrossing {
    pub t: Option<Scalar>,
    pub a: Option<Scalar>,
    pub b: Option<Scalar>,
    pub u: Scalar,
    pub v: Scalar,
    pub p: Vec3,
}

/// The hit of a rectangle with extent `[a0, a1]` by `[b0, b1]` in its
/// plane: the crossing counts when its parameter lies strictly inside
/// `(t0, t1)` and neither coordinate falls outside the extent. The normal is
/// the fixed axis of the plane.
pub open spec fn rect_hit(
    c: PlaneCrossing,
    t0: Scalar,
    t1: Scalar,
    a0: Scalar,
    a1: Scalar,
    b0: Scalar,
    b1: Scalar,
    normal: Vec3,
    material: usize,
) -> Option<HitRecord> {
    if strictly_inside(c.t, t0, t1) && within(c.a, a0, a1) && within(c.b, b0, b1) {
        Some(HitRecord { t: c.t->0, u: c.u, v: c.v, p: c.p, normal, material: Some(material) })
    } else {
        None
    }
}

/// The hit of a sphere lies strictly inside the interval, and is a nearest
/// hit: when the upper end of the interval is lowered to `cut`, the root
/// chosen stays the same if it lies before `cut`, and there is none
/// otherwise. The first root must not lie after the second.
pub proof fn lemma_sphere_reports_nearest(roots: Roots, lo: Scalar, hi: Scalar, cut: Scalar)
    requires
        cut <= hi,
        !spec_less(roots.far, roots.near),
    ensures
        Sphere::root(roots, lo, hi) matches Some(t) ==> lo < t < hi,
        Sphere::root(roots, lo, cut) == match Sphere::root(roots, lo, hi) {
            Some(t) => if t < cut {
                Some(t)
            } else {
                None
            },
            None => None,
        },
{
}

/// The hit of a rectangle lies strictly inside the interval, and is a
/// nearest hit: when the upper end of the interval is lowered to `cut`, the
/// hit stays the same if it lies before `cut`, and there is none otherwise.
pub proof fn lemma_rect_reports_nearest(
    c: PlaneCrossing,
    lo: Scalar,
    hi: Scalar,
    cut: Scalar,
    a0: Scalar,
    a1: Scalar,
    b0: Scalar,
    b1: Scalar,
    normal: Vec3,
    material: usize,
)
    requires
        cut <= hi,
    ensures
        rect_hit(c, lo, hi, a0, a1, b0, b1, normal, material) matches Some(rec) ==> lo < rec.t < hi,
        rect_hit(c, lo, cut, a0, a1, b0, b1, normal, material) == clip(
            rect_hit(c, lo, hi, a0, a1, b0, b1, normal, material),
            cut,
        ),
{
}

fn hit_rect(
    c: &PlaneCrossing,
    t0: Scalar,
    t1: Scalar,
    a0: Scalar,
    a1: Scalar,
    b0: Scalar,
    b1: Scalar,
    normal: Vec3,
    material: usize,
) -> (res: Option<HitRecord>)
    ensures
        res == rect_hit(*c, t0, t1, a0, a1, b0, b1, normal, material),
{
    if !(above(c.t, t0) && below(c.t, t1)) {
        return None;
    }
    if below(c.a, a0) || above(c.a, a1) || below(c.b, b0) || above(c.b, b1) {
        return None;
    }
    Some(HitRecord { t: c.t.unwrap(), u: c.u, v: c.v, p: c.p, normal, material: Some(material) })
}

/// A rectangle in the plane `z = k`.
#[derive(Debug, Clone, Copy, PartialEq, Eq)]
pub struct XYRect {
    pub material: usize,
    pub x0: Scalar,
    pub x1: Scalar,
    pub y0: Scalar,
    pub y1: Scalar,
    pub k: Scalar,
}

impl XYRect {
    /// What the crossing `c` gives within `(t0, t1)`.
    pub open spec fn hit_spec(self, c: PlaneCrossing, t0: Scalar, t1: Scalar) -> Option<
        HitRecord,
    > {
        rect_hit(
            c,
            t0,
            t1,
            self.x0,
            self.x1,
            self.y0,
            self.y1,
            Vec3 { x: ZERO, y: ZERO, z: ONE },
            self.material,
        )
    }

    /// The rectangle `[x0, x1]` by `[y0, y1]` at `z = k`.
    pub fn new(x0: Scalar, x1: Scalar, y0: Scalar, y1: Scalar, k: Scalar, material: usize) -> (r:
        Self)
        ensures
            r == (XYRect { material, x0, x1, y0, y1, k }),
    {
        Self { x0, x1, y0, y1, k, material }
    }

    /// The hit within `(t0, t1)`; `c.a` is the x and `c.b` the y of the
    /// crossing.
    pub fn hit(&self, c: &PlaneCrossing, t0: Scalar, t1: Scalar) -> (res: Option<HitRecord>)
        ensures
            res == self.hit_spec(*c, t0, t1),
    {
        hit_rect(
            c,
            t0,
            t1,
            self.x0,
            self.x1,
            self.y0,
            self.y1,
            Vec3::new(ZERO, ZERO, ONE),
            self.material,
        )
    }

    /// The box of the rectangle, which reaches from `k_below` to `k_above`
    /// across its plane.
    pub fn bounding_box(&self, k_below: Scalar, k_above: Scalar) -> (b: Option<Aabb>)
        ensures
            b == Some(
                Aabb {
                    min: Vec3 { x: self.x0, y: self.y0, z: k_below },
                    max: Vec3 { x: self.x1, y: self.y1, z: k_above },
                },
            ),
    {
        Some(Aabb::new(Vec3::new(self.x0, self.y0, k_below), Vec3::new(self.x1, self.y1, k_above)))
    }
}

/// A rectangle in the plane `y = k`.
#[derive(Debug, Clone, Copy, PartialEq, Eq)]
pub struct XZRect {
    pub material: usize,
    pub x0: Scalar,
    pub x1: Scalar,
    pub z0: Scalar,
    pub z1: Scalar,
    pub k: Scalar,
}

impl XZRect {
    /// What the crossing `c` gives within `(t0, t1)`.
    pub open spec fn hit_spec(self, c: PlaneCrossing, t0: Scalar, t1: Scalar) -> Option<
        HitRecord,
    > {
        rect_hit(
            c,
            t0,
            t1,
            self.x0,
            self.x1,
            self.z0,
            self.z1,
            Vec3 { x: ZERO, y: ONE, z: ZERO },
            self.material,
        )
    }

    /// The rectangle `[x0, x1]` by `[z0, z1]` at `y = k`.
    pub fn new(x0: Scalar, x1: Scalar, z0: Scalar, z1: Scalar, k: Scalar, material: usize) -> (r:
        Self)
        ensures
            r == (XZRect { material, x0, x1, z0, z1, k }),
    {
        Self { x0, x1, z0, z1, k, material }
    }

    /// The hit within `(t0, t1)`; `c.a` is the x and `c.b` the z of the
    /// crossing.
    pub fn hit(&self, c: &PlaneCrossing, t0: Scalar, t1: Scalar) -> (res: Option<HitRecord>)
        ensures
            res == self.hit_spec(*c, t0, t1),
    {
        hit_rect(
            c,
            t0,
            t1,
            self.x0,
            self.x1,
            self.z0,
            self.z1,
            Vec3::new(ZERO, ONE, ZERO),
            self.material,
        )
    }

    /// The box of the rectangle, which reaches from `k_below` to `k_above`
    /// across its plane.
    pub fn bounding_box(&self, k_below: Scalar, k_above: Scalar) -> (b: Option<Aabb>)
        ensures
            b == Some(
                Aabb {
                    min: Vec3 { x: self.x0, y: k_below, z: self.z0 },
                    max: Vec3 { x: self.x1, y: k_above, z: self.z1 },
                },
            ),
    {
        Some(Aabb::new(Vec3::new(self.x0, k_below, self.z0), Vec3::new(self.x1, k_above, self.z1)))
    }
}

/// A rectangle in the plane `x = k`.
#[derive(Debug, Clone, Copy, PartialEq, Eq)]
pub struct YZRect {
    pub material: usize,
    pub y0: Scalar,
    pub y1: Scalar,
    pub z0: Scalar,
    pub z1: Scalar,
    pub k: Scalar,
}

impl YZRect {
    /// What the crossing `c` gives within `(t0, t1)`.
    pub open spec fn hit_spec(self, c: PlaneCrossing, t0: Scalar, t1: Scalar) -> Option<
        HitRecord,
    > {
        rect_hit(
            c,
            t0,
            t1,
            self.y0,
            self.y1,
            self.z0,
            self.z1,
            Vec3 { x: ONE, y: ZERO, z: ZERO },
            self.material,
        )
    }

    /// The rectangle `[y0, y1]` by `[z0, z1]` at `x = k`.
    pub fn new(y0: Scalar, y1: Scalar, z0: Scalar, z1: Scalar, k: Scalar, material: usize) -> (r:
        Self)
        ensures
            r == (YZRect { material, y0, y1, z0, z1, k }),
    {
        Self { y0, y1, z0, z1, k, material }
    }

    /// The hit within `(t0, t1)`; `c.a` is the y and `c.b` the z of the
    /// crossing.
    pub fn hit(&self, c: &PlaneCrossing, t0: Scalar, t1: Scalar) -> (res: Option<HitRecord>)
        ensures
            res == self.hit_spec(*c, t0, t1),
    {
        hit_rect(
            c,
            t0,
            t1,
            self.y0,
            self.y1,
            self.z0,
            self.z1,
            Vec3::new(ONE, ZERO, ZERO),
            self.material,
        )
    }

    /// The box of the rectangle, which reaches from `k_below` to `k_above`
    /// across its plane.
    pub fn bounding_box(&self, k_below: Scalar, k_above: Scalar) -> (b: Option<Aabb>)
        ensures
            b == Some(
                Aabb {
                    min: Vec3 { x: k_below, y: self.y0, z: self.z0 },
                    max: Vec3 { x: k_above, y: self.y1, z: self.z1 },
                },
            ),
    {
        Some(Aabb::new(Vec3::new(k_below, self.y0, self.z0), Vec3::new(k_above, self.y1, self.z1)))
    }
}

/// The hit `r` with its normal turned round.
pub open spec fn flipped(r: Option<HitRecord>) -> Option<HitRecord> {
    match r {
        Some(rec) => Some(HitRecord { normal: rec.normal.spec_neg(), ..rec }),
        None => None,
    }
}

/// A rectangle whose normal points the other way.
#[derive(Debug, Clone, Copy, PartialEq, Eq)]
pub enum FlipNormals {
    OkayXY(XYRect),
    OkayXZ(XZRect),
    OkayYZ(YZRect),
}

impl FlipNormals {
    /// What the rectangle inside reports, before its normal is turned.
    pub open spec fn inner_hit(self, c: PlaneCrossing, t0: Scalar, t1: Scalar) -> Option<
        HitRecord,
    > {
        match self {
            FlipNormals::OkayXY(r) => r.hit_spec(c, t0, t1),
            FlipNormals::OkayXZ(r) => r.hit_spec(c, t0, t1),
            FlipNormals::OkayYZ(r) => r.hit_spec(c, t0, t1),
        }
    }

    /// The rectangle `hitable`, seen from the other side.
    pub fn new_xy(hitable: XYRect) -> (f: Self)
        ensures
            f == FlipNormals::OkayXY(hitable),
    {
        FlipNormals::OkayXY(hitable)
    }

    /// The rectangle `hitable`, seen from the other side.
    pub fn new_xz(hitable: XZRect) -> (f: Self)
        ensures
            f == FlipNormals::OkayXZ(hitable),
    {
        FlipNormals::OkayXZ(hitable)
    }

    /// The rectangle `hitable`, seen from the other side.
    pub fn new_yz(hitable: YZRect) -> (f: Self)
        ensures
            f == FlipNormals::OkayYZ(hitable),
    {
        FlipNormals::OkayYZ(hitable)
    }

    /// The hit of the rectangle inside, with the normal turned round and
    /// nothing else changed.
    pub fn hit(&self, c: &PlaneCrossing, t0: Scalar, t1: Scalar) -> (res: Option<HitRecord>)
        ensures
            res == flipped(self.inner_hit(*c, t0, t1)),
    {
        let rec = match self {
            FlipNormals::OkayXY(hitable) => hitable.hit(c, t0, t1),
            FlipNormals::OkayXZ(hitable) => hitable.hit(c, t0, t1),
            FlipNormals::OkayYZ(hitable) => hitable.hit(c, t0, t1),
        };
        if let Some(mut rec) = rec {
            rec.normal = rec.normal.neg();
            return Some(rec);
        }
        None
    }

    /// The box of the rectangle inside.
    pub fn bounding_box(&self, k_below: Scalar, k_above: Scalar) -> (b: Option<Aabb>)
        ensures
            b == match *self {
                FlipNormals::OkayXY(r) => Some(
                    Aabb {
                        min: Vec3 { x: r.x0, y: r.y0, z: k_below },
                        max: Vec3 { x: r.x1, y: r.y1, z: k_above },
                    },
                ),
                FlipNormals::OkayXZ(r) => Some(
                    Aabb {
                        min: Vec3 { x: r.x0, y: k_below, z: r.z0 },
                        max: Vec3 { x: r.x1, y: k_above, z: r.z1 },
                    },
                ),
                FlipNormals::OkayYZ(r) => Some(
                    Aabb {
                        min: Vec3 { x: k_below, y: r.y0, z: r.z0 },
                        max: Vec3 { x: k_above, y: r.y1, z: r.z1 },
                    },
                ),
            },
    {
        match self {
            FlipNormals::OkayXY(hitable) => hitable.bounding_box(k_below, k_above),
            FlipNormals::OkayXZ(hitable) => hitable.bounding_box(k_below, k_above),
            FlipNormals::OkayYZ(hitable) => hitable.bounding_box(k_below, k_above),
        }
    }
}


/// One face of a cuboid: a rectangle, or a rectangle with its normal turned.
#[derive(Debug, Clone, Copy, PartialEq, Eq)]
pub enum Face {
    XY(XYRect),
    XZ(XZRect),
    YZ(YZRect),
    Flipped(FlipNormals),
}

impl Face {
    /// What the crossing `c` gives within `(t0, t1)`.
    pub open spec fn hit_spec(self, c: PlaneCrossing, t0: Scalar, t1: Scalar) -> Option<
        HitRecord,
    > {
        match self {
            Face::XY(r) => r.hit_spec(c, t0, t1),
            Face::XZ(r) => r.hit_spec(c, t0, t1),
            Face::YZ(r) => r.hit_spec(c, t0, t1),
            Face::Flipped(f) => flipped(f.inner_hit(c, t0, t1)),
        }
    }

    /// The hit of the face within `(t0, t1)`, from the crossing of the ray
    /// with the face's plane.
    pub fn hit(&self, c: &PlaneCrossing, t0: Scalar, t1: Scalar) -> (res: Option<HitRecord>)
        ensures
            res == self.hit_spec(*c, t0, t1),
    {
        match self {
            Face::XY(r) => r.hit(c, t0, t1),
            Face::XZ(r) => r.hit(c, t0, t1),
            Face::YZ(r) => r.hit(c, t0, t1),
            Face::Flipped(f) => f.hit(c, t0, t1),
        }
    }
}

/// The hit of a face lies strictly inside the interval, and is a nearest
/// hit: when the upper end of the interval is lowered to `cut`, the hit
/// stays the same if it lies before `cut`, and there is none otherwise.
pub proof fn lemma_face_reports_nearest(
    face: Face,
    c: PlaneCrossing,
    lo: Scalar,
    hi: Scalar,
    cut: Scalar,
)
    requires
        cut <= hi,
    ensures
        face.hit_spec(c, lo, hi) matches Some(rec) ==> lo < rec.t < hi,
        face.hit_spec(c, lo, cut) == clip(face.hit_spec(c, lo, hi), cut),
{
}

/// The six faces of the cuboid between the corners `p0` and `p1`: on every
/// axis the face at `p1` with its normal along the axis, then the face at
/// `p0` with its normal turned.
pub open spec fn cuboid_faces(p0: Vec3, p1: Vec3, material: usize) -> Seq<Face> {
    seq![
        Face::XY(XYRect { material, x0: p0.x, x1: p1.x, y0: p0.y, y1: p1.y, k: p1.z }),
        Face::Flipped(
            FlipNormals::OkayXY(
                XYRect { material, x0: p0.x, x1: p1.x, y0: p0.y, y1: p1.y, k: p0.z },
            ),
        ),
        Face::XZ(XZRect { material, x0: p0.x, x1: p1.x, z0: p0.z, z1: p1.z, k: p1.y }),
        Face::Flipped(
            FlipNormals::OkayXZ(
                XZRect { material, x0: p0.x, x1: p1.x, z0: p0.z, z1: p1.z, k: p0.y },
            ),
        ),
        Face::YZ(YZRect { material, y0: p0.y, y1: p1.y, z0: p0.z, z1: p1.z, k: p1.x }),
        Face::Flipped(
            FlipNormals::OkayYZ(
                YZRect { material, y0: p0.y, y1: p1.y, z0: p0.z, z1: p1.z, k: p0.x },
            ),
        ),
    ]
}

/// An axis-aligned box made of six rectangles of one material.
#[derive(Debug)]
pub struct Cuboid {
    pub pmin: Vec3,
    pub pmax: Vec3,
    pub list: HitableList<Face>,
}

impl Cuboid {
    /// The cuboid between the corners `p0` and `p1`.
    pub fn new(p0: Vec3, p1: Vec3, material: usize) -> (c: Self)
        ensures
            c.pmin == p0,
            c.pmax == p1,
            c.list.list@ == cuboid_faces(p0, p1, material),
    {
        let mut list: Vec<Face> = Vec::new();
        list.push(Face::XY(XYRect::new(p0.x, p1.x, p0.y, p1.y, p1.z, material)));
        list.push(
            Face::Flipped(
                FlipNormals::new_xy(XYRect::new(p0.x, p1.x, p0.y, p1.y, p0.z, material)),
            ),
        );
        list.push(Face::XZ(XZRect::new(p0.x, p1.x, p0.z, p1.z, p1.y, material)));
        list.push(
            Face::Flipped(
                FlipNormals::new_xz(XZRect::new(p0.x, p1.x, p0.z, p1.z, p0.y, material)),
            ),
        );
        list.push(Face::YZ(YZRect::new(p0.y, p1.y, p0.z, p1.z, p1.x, material)));
        list.push(
            Face::Flipped(
                FlipNormals::new_yz(YZRect::new(p0.y, p1.y, p0.z, p1.z, p0.x, material)),
            ),
        );
        proof {
            assert(list@ =~= cuboid_faces(p0, p1, material));
        }
        Self { pmin: p0, pmax: p1, list: HitableList::new(list) }
    }

    /// The nearest hit among the six faces. `probe` intersects the ray
    /// with one face within an interval.
    pub fn hit<P: Fn(&Face, Scalar, Scalar) -> Option<HitRecord>>(
        &self,
        probe: &P,
        t_min: Scalar,
        t_max: Scalar,
    ) -> (res: Option<HitRecord>)
        requires
            forall|x: &Face, lo: Scalar, hi: Scalar| call_requires(*probe, (x, lo, hi)),
        ensures
            forall|g: HitFn<Face>| #[trigger]
                computes_hit(*probe, g) ==> res == scan(self.list.list@, g, t_min, t_max),
            res.is_some() ==> exists|i: int, hi: Scalar|
                0 <= i < self.list.list.len() && #[trigger] call_ensures(
                    *probe,
                    (&self.list.list@[i], t_min, hi),
                    res,
                ),
    {
        self.list.hit(probe, t_min, t_max)
    }

    /// The box between the two corners the cuboid was made from; the faces
    /// are not consulted.
    pub fn bounding_box(&self) -> (b: Option<Aabb>)
        ensures
            b == Some(Aabb { min: self.pmin, max: self.pmax }),
    {
        Some(Aabb::new(self.pmin, self.pmax))
    }
}

/// The corner of `b` that takes its x from `b.max` when `i` is 1 and from
/// `b.min` otherwise, and its y and z likewise by `j` and `k`.
pub open spec fn corner(b: Aabb, i: int, j: int, k: int) -> Vec3 {
    Vec3 {
        x: if i == 1 { b.max.x } else { b.min.x },
        y: if j == 1 { b.max.y } else { b.min.y },
        z: if k == 1 { b.max.z } else { b.min.z },
    }
}

/// The box `acc` stretched to hold the point `p`: on every axis a defined
/// coordinate above the upper corner raises it, one below the lower corner
/// lowers it, and an undefined one changes nothing.
pub open spec fn stretched(acc: Aabb, p: RawVec3) -> Aabb {
    Aabb {
        min: Vec3 {
            x: if spec_below(p.x, acc.min.x) { p.x->0 } else { acc.min.x },
            y: if spec_below(p.y, acc.min.y) { p.y->0 } else { acc.min.y },
            z: if spec_below(p.z, acc.min.z) { p.z->0 } else { acc.min.z },
        },
        max: Vec3 {
            x: if spec_above(p.x, acc.max.x) { p.x->0 } else { acc.max.x },
            y: if spec_above(p.y, acc.max.y) { p.y->0 } else { acc.max.y },
            z: if spec_above(p.z, acc.max.z) { p.z->0 } else { acc.max.z },
        },
    }
}

/// The box that holds nothing yet: its lower corner is the largest finite
/// number on every axis and its upper corner the smallest.
pub open spec fn inverted_box() -> Aabb {
    Aabb { min: Vec3 { x: MAX, y: MAX, z: MAX }, max: Vec3 { x: MIN, y: MIN, z: MIN } }
}

/// The axis-aligned extent of the first `n` corners of `b` after the map
/// `rot`, the corners counted with x slowest and z fastest.
pub open spec fn rotated_extent(b: Aabb, rot: spec_fn(Vec3) -> RawVec3, n: int) -> Aabb
    decreases n,
{
    if n <= 0 {
        inverted_box()
    } else {
        let m = n - 1;
        stretched(rotated_extent(b, rot, m), rot(corner(b, m / 4, (m / 2) % 2, m % 2)))
    }
}

/// The closure `f` computes the function `g`.
pub open spec fn computes_rotation<R: Fn(Vec3) -> RawVec3>(
    f: R,
    g: spec_fn(Vec3) -> RawVec3,
) -> bool {
    forall|p: Vec3, q: RawVec3| #[trigger] call_ensures(f, (p,), q) ==> q == g(p)
}

/// The point `p` lies within `b` on every axis on which it is defined.
pub open spec fn holds_point(b: Aabb, p: RawVec3) -> bool {
    &&& p.x matches Some(v) ==> b.min.x <= v <= b.max.x
    &&& p.y matches Some(v) ==> b.min.y <= v <= b.max.y
    &&& p.z matches Some(v) ==> b.min.z <= v <= b.max.z
}

/// The extent of the turned corners holds every one of them.
pub proof fn lemma_extent_holds_corners(b: Aabb, rot: spec_fn(Vec3) -> RawVec3, n: int, m: int)
    requires
        0 <= m < n,
    ensures
        holds_point(rotated_extent(b, rot, n), rot(corner(b, m / 4, (m / 2) % 2, m % 2))),
        rotated_extent(b, rot, n).min.x <= MAX,
        rotated_extent(b, rot, n).min.y <= MAX,
        rotated_extent(b, rot, n).min.z <= MAX,
        rotated_extent(b, rot, n).max.x >= MIN,
        rotated_extent(b, rot, n).max.y >= MIN,
        rotated_extent(b, rot, n).max.z >= MIN,
    decreases n,
{
    if n - 1 > m {
        lemma_extent_holds_corners(b, rot, n - 1, m);
    } else if n - 1 > 0 {
        lemma_extent_holds_corners(b, rot, n - 1, 0);
    }
}

fn stretch(acc: Aabb, p: &RawVec3) -> (b: Aabb)
    ensures
        b == stretched(acc, *p),
{
    let mut min = acc.min;
    let mut max = acc.max;
    if above(p.x, max.x) {
        max.x = p.x.unwrap();
    }
    if below(p.x, min.x) {
        min.x = p.x.unwrap();
    }
    if above(p.y, max.y) {
        max.y = p.y.unwrap();
    }
    if below(p.y, min.y) {
        min.y = p.y.unwrap();
    }
    if above(p.z, max.z) {
        max.z = p.z.unwrap();
    }
    if below(p.z, min.z) {
        min.z = p.z.unwrap();
    }
    Aabb::new(min, max)
}

/// A primitive turned about the y axis.
#[derive(Debug)]
pub struct RotateY<T> {
    pub hitable: T,
    pub sin_theta: Scalar,
    pub cos_theta: Scalar,
    pub hasbox: bool,
    pub boxy: Aabb,
}

impl<T> RotateY<T> {
    /// Wraps `hitable`, whose box is `bbox`, and works out the box of the
    /// turned primitive once: `rotate` turns a point, and the new box is
    /// the axis-aligned extent of the eight turned corners of `bbox`.
    pub fn new<R: Fn(Vec3) -> RawVec3>(
        hitable: T,
        sin_theta: Scalar,
        cos_theta: Scalar,
        bbox: Aabb,
        rotate: &R,
    ) -> (r: Self)
        requires
            forall|p: Vec3| call_requires(*rotate, (p,)),
        ensures
            r.hitable == hitable,
            r.sin_theta == sin_theta,
            r.cos_theta == cos_theta,
            r.hasbox,
            forall|rot: spec_fn(Vec3) -> RawVec3| #[trigger]
                computes_rotation(*rotate, rot) ==> r.boxy == rotated_extent(bbox, rot, 8),
    {
        let mut boxy = Aabb::new(Vec3::new(MAX, MAX, MAX), Vec3::new(MIN, MIN, MIN));
        let mut n: usize = 0;
        while n < 8
            invariant
                n <= 8,
                forall|p: Vec3| call_requires(*rotate, (p,)),
                forall|rot: spec_fn(Vec3) -> RawVec3| #[trigger]
                    computes_rotation(*rotate, rot) ==> boxy == rotated_extent(
                        bbox,
                        rot,
                        n as int,
                    ),
            decreases 8 - n,
        {
            let x = if n / 4 == 1 { bbox.max.x } else { bbox.min.x };
            let y = if (n / 2) % 2 == 1 { bbox.max.y } else { bbox.min.y };
            let z = if n % 2 == 1 { bbox.max.z } else { bbox.min.z };
            let tester = rotate(Vec3::new(x, y, z));
            proof {
                let c = corner(bbox, n as int / 4, (n as int / 2) % 2, n as int % 2);
                assert(c == Vec3 { x, y, z });
                assert forall|rot: spec_fn(Vec3) -> RawVec3| #[trigger]
                    computes_rotation(*rotate, rot) implies stretched(boxy, tester)
                    == rotated_extent(bbox, rot, n + 1) by {
                    assert(call_ensures(*rotate, (c,), tester));
                }
            }
            boxy = stretch(boxy, &tester);
            n = n + 1;
        }
        Self { hitable, sin_theta, cos_theta, hasbox: true, boxy }
    }

    /// The box worked out at construction.
    pub fn bounding_box(&self) -> (b: Option<Aabb>)
        ensures
            b == if self.hasbox { Some(self.boxy) } else { None },
    {
        if self.hasbox {
            Some(self.boxy)
        } else {
            None
        }
    }
}

/// The part of a medium that the ray crosses within `(t_min, t_max)`.
///
/// `entry` and `exit` are the parameters at which the ray crosses the
/// boundary. The entry is raised to `t_min` and the exit lowered to
/// `t_max`; if nothing is left between them the ray does not cross the
/// medium; an entry behind the origin of the ray is moved to the origin.
pub open spec fn medium_span(entry: Scalar, exit: Scalar, t_min: Scalar, t_max: Scalar) -> Option<
    (Scalar, Scalar),
> {
    let e = if entry < t_min { t_min } else { entry };
    let x = if exit > t_max { t_max } else { exit };
    if e >= x {
        None
    } else {
        Some((if e < ZERO { ZERO } else { e }, x))
    }
}

/// What the embedding program reports of one free path drawn in a medium:
/// the distance the ray travels inside the boundary, the distance drawn for
/// the path, and the parameter and the point at which the path would end.
#[derive(Debug, Clone, Copy, PartialEq, Eq)]
pub struct FreePath {
    pub distance_inside: Option<Scalar>,
    pub hit_distance: Option<Scalar>,
    pub t: Scalar,
    pub p: Vec3,
}

/// A homogeneous participating medium inside a boundary.
#[derive(Debug)]
pub struct ConstantMedium<T> {
    pub boundary: T,
    pub density: Scalar,
    pub phase_function: usize,
}

impl<T> ConstantMedium<T> {
    /// The hit that a free path gives: the path scatters when it ends
    /// before the ray leaves the boundary, and the hit then has the
    /// medium's material, zero surface coordinates and a normal along x,
    /// which means nothing.
    pub open spec fn scattered(self, path: FreePath) -> Option<HitRecord> {
        if spec_less(path.hit_distance, path.distance_inside) {
            Some(
                HitRecord {
                    t: path.t,
                    u: ZERO,
                    v: ZERO,
                    p: path.p,
                    normal: Vec3 { x: ONE, y: ZERO, z: ZERO },
                    material: Some(self.phase_function),
                },
            )
        } else {
            None
        }
    }

    /// The medium of the given density inside `boundary`, which scatters by
    /// the material `phase_function`.
    pub fn new(boundary: T, density: Scalar, phase_function: usize) -> (m: Self)
        ensures
            m.boundary == boundary,
            m.density == density,
            m.phase_function == phase_function,
    {
        Self { boundary, density, phase_function }
    }

    /// Clips the crossing of the boundary to `(t_min, t_max)`.
    pub fn span(entry: Scalar, exit: Scalar, t_min: Scalar, t_max: Scalar) -> (s: Option<
        (Scalar, Scalar),
    >)
        ensures
            s == medium_span(entry, exit, t_min, t_max),
    {
        let mut e = entry;
        let mut x = exit;
        if e < t_min {
            e = t_min;
        }
        if x > t_max {
            x = t_max;
        }
        if e >= x {
            return None;
        }
        if e < ZERO {
            e = ZERO;
        }
        Some((e, x))
    }

    /// Decides whether one free path scatters inside the medium.
    pub fn scatter(&self, path: &FreePath) -> (res: Option<HitRecord>)
        ensures
            res == self.scattered(*path),
    {
        if less(path.hit_distance, path.distance_inside) {
            Some(
                HitRecord {
                    t: path.t,
                    u: ZERO,
                    v: ZERO,
                    p: path.p,
                    normal: Vec3::new(ONE, ZERO, ZERO),
                    material: Some(self.phase_function),
                },
            )
        } else {
            None
        }
    }

    /// The hit of a ray in the medium within `(t_min, t_max)`.
    ///
    /// `first` is asked where the ray enters the boundary, anywhere along
    /// its line; `second` where it leaves it after the entry; `draw` for a
    /// free path between the two once they are clipped to the interval.
    /// Nothing is hit when the ray does not cross the boundary twice, when
    /// nothing of the crossing lies within the interval, or when the path
    /// drawn is longer than the crossing.
    pub fn hit<
        A: FnOnce(&T) -> Option<HitRecord>,
        B: FnOnce(&T, Scalar) -> Option<HitRecord>,
        D: FnOnce(Scalar, Scalar) -> FreePath,
    >(&self, first: A, second: B, draw: D, t_min: Scalar, t_max: Scalar) -> (res: Option<
        HitRecord,
    >)
        requires
            call_requires(first, (&self.boundary,)),
            forall|after: Scalar| call_requires(second, (&self.boundary, after)),
            forall|e: Scalar, x: Scalar| call_requires(draw, (e, x)),
        ensures
            exists|rec1: Option<HitRecord>|
                {
                    &&& #[trigger] call_ensures(first, (&self.boundary,), rec1)
                    &&& match rec1 {
                        None => res.is_none(),
                        Some(r1) => exists|rec2: Option<HitRecord>|
                            {
                                &&& #[trigger] call_ensures(second, (&self.boundary, r1.t), rec2)
                                &&& match rec2 {
                                    None => res.is_none(),
                                    Some(r2) => match medium_span(r1.t, r2.t, t_min, t_max) {
                                        None => res.is_none(),
                                        Some((e, x)) => exists|path: FreePath|
                                            {
                                                &&& #[trigger] call_ensures(draw, (e, x), path)
                                                &&& res == self.scattered(path)
                                            },
                                    },
                                }
                            },
                    }
                },
    {
        let rec1 = first(&self.boundary);
        if let Some(r1) = rec1 {
            let rec2 = second(&self.boundary, r1.t);
            if let Some(r2) = rec2 {
                match Self::span(r1.t, r2.t, t_min, t_max) {
                    None => {
                        return None;
                    },
                    Some((e, x)) => {
                        let path = draw(e, x);
                        return self.scatter(&path);
                    },
                }
            }
        }
        None
    }
}

} // verus!
