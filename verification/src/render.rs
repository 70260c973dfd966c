//! The course of a traced path, and the bookkeeping of a render pass:
//! samples for each worker, the order of the pixels, the workers' buffers
//! and their sum.
use vstd::prelude::*;
use crate::vec3::{RawVec3, Scalar, Vec3, ONE, ZERO};

verus! {

/// The number of bounces after which a path scatters no more.
pub const MAX_DEPTH: usize = 50;

/// Where a traced path stands.
#[derive(Debug, Clone, Copy, PartialEq, Eq)]
pub enum PathState {
    /// A ray is under way after `depth` bounces.
    Active { depth: usize },
    /// The ray has hit `material` after `depth` bounces, and the material
    /// is being asked to scatter.
    Shading { depth: usize, material: usize },
    /// The path has ended.
    Done,
}

/// What the renderer reports of the work it was asked to do.
#[derive(Debug, Clone, Copy, PartialEq, Eq)]
pub enum PathEvent {
    /// The ray left the scene.
    Missed,
    /// The ray hit a surface, whose record names this material.
    Hit { material: Option<usize> },
    /// The material was asked to scatter, and did or did not.
    Scattered { scattered: bool },
}

/// What the renderer is to do next.
#[derive(Debug, Clone, Copy, PartialEq, Eq)]
pub enum PathAction {
    /// The path ends with the radiance of the background.
    Background,
    /// The path ends with what `material` emits.
    Emit { material: usize },
    /// Ask `material` to scatter; what it emits is added in any case.
    Scatter { material: usize },
    /// Draw the next direction and trace it; its radiance, weighted, is
    /// added to what the surface emits.
    Trace,
}

/// Why a path cannot go on.
#[derive(Debug, Clone, Copy, PartialEq, Eq)]
pub enum PathError {
    /// A hit record names no material: the scene was put together wrongly.
    MissingMaterial,
    /// The event does not answer what the path last asked for.
    OutOfTurn,
}

impl PathState {
    /// The state in which every path starts.
    pub open spec fn start() -> PathState {
        PathState::Active { depth: 0 }
    }

    /// No path is deeper than `MAX_DEPTH`, and none asks a material to
    /// scatter at that depth.
    pub open spec fn wf(self) -> bool {
        match self {
            PathState::Active { depth } => depth <= MAX_DEPTH,
            PathState::Shading { depth, material } => depth < MAX_DEPTH,
            PathState::Done => true,
        }
    }

    /// An upper bound on the steps that a path in this state can still take.
    pub open spec fn remaining(self) -> nat {
        match self {
            PathState::Active { depth } => (2 * (MAX_DEPTH - depth) + 2) as nat,
            PathState::Shading { depth, material } => (2 * (MAX_DEPTH - depth) + 1) as nat,
            PathState::Done => 0,
        }
    }

    /// The transition of a path.
    ///
    /// A ray that misses ends the path with the background. A ray that
    /// hits a surface without material is a fatal error. A ray that hits
    /// after fewer than `MAX_DEPTH` bounces has the material asked to
    /// scatter, and any later one ends the path with the emission. A
    /// material that scatters sends the path on, one bounce deeper; one
    /// that does not ends it with the emission.
    pub open spec fn next(self, event: PathEvent) -> Result<(PathState, PathAction), PathError> {
        match (self, event) {
            (PathState::Active { depth }, PathEvent::Missed) => Ok(
                (PathState::Done, PathAction::Background),
            ),
            (PathState::Active { depth }, PathEvent::Hit { material: None }) => Err(
                PathError::MissingMaterial,
            ),
            (PathState::Active { depth }, PathEvent::Hit { material: Some(m) }) => if depth
                < MAX_DEPTH {
                Ok((PathState::Shading { depth, material: m }, PathAction::Scatter { material: m }))
            } else {
                Ok((PathState::Done, PathAction::Emit { material: m }))
            },
            (PathState::Shading { depth, material }, PathEvent::Scattered { scattered }) => if
                scattered {
                Ok((PathState::Active { depth: (depth + 1) as usize }, PathAction::Trace))
            } else {
                Ok((PathState::Done, PathAction::Emit { material }))
            },
            _ => Err(PathError::OutOfTurn),
        }
    }

    /// The state in which every path starts: a camera ray, no bounce yet.
    pub fn begin() -> (s: Self)
        ensures
            s == Self::start(),
            s.wf(),
    {
        PathState::Active { depth: 0 }
    }

    /// Takes one step of the path. A well-formed state stays well-formed,
    /// and every step brings the path nearer to its end.
    pub fn step(&self, event: PathEvent) -> (res: Result<(PathState, PathAction), PathError>)
        requires
            self.wf(),
        ensures
            res == self.next(event),
            res matches Ok((after, _)) ==> after.wf() && after.remaining() < self.remaining(),
    {
        match (*self, event) {
            (PathState::Active { depth }, PathEvent::Missed) => Ok(
                (PathState::Done, PathAction::Background),
            ),
            (PathState::Active { depth }, PathEvent::Hit { material: None }) => Err(
                PathError::MissingMaterial,
            ),
            (PathState::Active { depth }, PathEvent::Hit { material: Some(m) }) => if depth
                < MAX_DEPTH {
                Ok((PathState::Shading { depth, material: m }, PathAction::Scatter { material: m }))
            } else {
                Ok((PathState::Done, PathAction::Emit { material: m }))
            },
            (PathState::Shading { depth, material }, PathEvent::Scattered { scattered }) => if
                scattered {
                Ok((PathState::Active { depth: depth + 1 }, PathAction::Trace))
            } else {
                Ok((PathState::Done, PathAction::Emit { material }))
            },
            _ => Err(PathError::OutOfTurn),
        }
    }
}

/// The state of a path after the events `events`, as long as none of them
/// is an error; `None` once one is.
pub open spec fn run(from: PathState, events: Seq<PathEvent>) -> Option<PathState>
    decreases events.len(),
{
    if events.len() == 0 {
        Some(from)
    } else {
        match run(from, events.drop_last()) {
            None => None,
            Some(s) => match s.next(events.last()) {
                Ok((after, _)) => Some(after),
                Err(_) => None,
            },
        }
    }
}

/// Every path ends: from a well-formed state no path takes more steps than
/// the state's bound, which for a fresh path is two for each of the
/// `MAX_DEPTH` bounces and two more.
pub proof fn lemma_paths_end(from: PathState, events: Seq<PathEvent>)
    requires
        from.wf(),
        run(from, events).is_some(),
    ensures
        events.len() + run(from, events)->0.remaining() <= from.remaining(),
        run(from, events)->0.wf(),
        from == PathState::start() ==> events.len() <= 2 * MAX_DEPTH + 2,
    decreases events.len(),
{
    if events.len() > 0 {
        lemma_paths_end(from, events.drop_last());
    }
}

/// The samples that each worker renders of every pixel.
pub fn samples_per_worker(total_samples: usize, worker_count: usize) -> (ns: usize)
    requires
        worker_count > 0,
    ensures
        ns == total_samples / worker_count,
{
    total_samples / worker_count
}

/// The pixel that is rendered as the `index`-th of an image of `nx` by `ny`
/// pixels: rows from the top one, which is row `ny - 1`, down to row 0, and
/// each row from column 0 on.
pub open spec fn spec_pixel_at(index: int, nx: int, ny: int) -> (int, int) {
    (index % nx, ny - 1 - index / nx)
}

/// The place in the buffer of the pixel in column `i` and row `j`.
pub open spec fn spec_pixel_index(i: int, j: int, nx: int, ny: int) -> int {
    (ny - 1 - j) * nx + i
}

/// The column and the row of the pixel rendered as the `index`-th.
pub fn pixel_at(index: usize, nx: usize, ny: usize) -> (at: (usize, usize))
    requires
        index < nx * ny,
    ensures
        at.0 < nx,
        at.1 < ny,
        (at.0 as int, at.1 as int) == spec_pixel_at(index as int, nx as int, ny as int),
{
    proof {
        lemma_pixel_in_image(index as int, nx as int, ny as int);
    }
    (index % nx, ny - 1 - index / nx)
}

/// The place in the buffer of the pixel in column `i` and row `j`.
pub fn pixel_index(i: usize, j: usize, nx: usize, ny: usize) -> (index: usize)
    requires
        i < nx,
        j < ny,
        nx * ny <= usize::MAX,
    ensures
        index < nx * ny,
        index == spec_pixel_index(i as int, j as int, nx as int, ny as int),
{
    proof {
        lemma_index_in_buffer(i as int, j as int, nx as int, ny as int);
        assert((ny - 1 - j) * nx >= 0) by (nonlinear_arith)
            requires
                j < ny,
                nx > 0,
        ;
    }
    (ny - 1 - j) * nx + i
}

proof fn lemma_pixel_in_image(index: int, nx: int, ny: int)
    requires
        0 <= index < nx * ny,
        0 <= nx,
        0 <= ny,
    ensures
        nx > 0,
        0 <= index % nx < nx,
        0 <= index / nx < ny,
{
    assert(nx > 0) by (nonlinear_arith)
        requires
            0 <= index < nx * ny,
            0 <= nx,
    ;
    vstd::arithmetic::div_mod::lemma_fundamental_div_mod(index, nx);
    vstd::arithmetic::div_mod::lemma_div_pos_is_pos(index, nx);
    assert(index / nx < ny) by (nonlinear_arith)
        requires
            0 <= index < nx * ny,
            nx > 0,
            index == nx * (index / nx) + index % nx,
            0 <= index % nx < nx,
    ;
}

proof fn lemma_index_in_buffer(i: int, j: int, nx: int, ny: int)
    requires
        0 <= i < nx,
        0 <= j < ny,
    ensures
        0 <= (ny - 1 - j) * nx + i < nx * ny,
{
    assert(0 <= (ny - 1 - j) * nx + i < nx * ny) by (nonlinear_arith)
        requires
            0 <= i < nx,
            0 <= j < ny,
    ;
}

/// The two ways of numbering pixels undo one another.
pub proof fn lemma_pixel_round_trip(index: int, i: int, j: int, nx: int, ny: int)
    requires
        0 <= nx,
        0 <= ny,
    ensures
        0 <= index < nx * ny ==> spec_pixel_index(
            spec_pixel_at(index, nx, ny).0,
            spec_pixel_at(index, nx, ny).1,
            nx,
            ny,
        ) == index,
        0 <= i < nx && 0 <= j < ny ==> spec_pixel_at(spec_pixel_index(i, j, nx, ny), nx, ny) == (
            i,
            j,
        ),
{
    if 0 <= index < nx * ny {
        lemma_pixel_in_image(index, nx, ny);
        vstd::arithmetic::div_mod::lemma_fundamental_div_mod(index, nx);
        assert((index / nx) * nx == nx * (index / nx)) by (nonlinear_arith);
    }
    if 0 <= i < nx && 0 <= j < ny {
        let row = ny - 1 - j;
        vstd::arithmetic::div_mod::lemma_fundamental_div_mod_converse(row * nx + i, nx, row, i);
    }
}

/// The channel `c` brought into the unit interval: a value above one
/// becomes one, a value below zero or one that is not a number becomes zero.
pub open spec fn spec_clamp(c: Option<Scalar>) -> Scalar {
    match c {
        None => ZERO,
        Some(v) => if v > ONE {
            ONE
        } else if v < ZERO {
            ZERO
        } else {
            v
        },
    }
}

/// One channel brought into the unit interval.
pub fn clamp(c: Option<Scalar>) -> (v: Scalar)
    ensures
        v == spec_clamp(c),
        ZERO <= v <= ONE,
{
    match c {
        None => ZERO,
        Some(v) => if v > ONE {
            ONE
        } else if v < ZERO {
            ZERO
        } else {
            v
        },
    }
}

/// A colour with every channel brought into the unit interval.
pub fn clamp_color(col: &RawVec3) -> (out: Vec3)
    ensures
        out == (Vec3 { x: spec_clamp(col.x), y: spec_clamp(col.y), z: spec_clamp(col.z) }),
        ZERO <= out.x <= ONE,
        ZERO <= out.y <= ONE,
        ZERO <= out.z <= ONE,
{
    Vec3::new(clamp(col.x), clamp(col.y), clamp(col.z))
}

/// The buffers of the workers of one render pass: one slot for each
/// worker, empty until the worker has published its buffer.
#[derive(Debug)]
pub struct Film {
    pub slots: Vec<Option<Vec<Vec3>>>,
}

/// The closure `f` computes the function `g`.
pub open spec fn computes_sum<F: Fn(Vec3, Vec3) -> Vec3>(
    f: F,
    g: spec_fn(Vec3, Vec3) -> Vec3,
) -> bool {
    forall|a: Vec3, b: Vec3, c: Vec3| #[trigger] call_ensures(f, (a, b), c) ==> c == g(a, b)
}

/// The sum of pixel `p` over the first `upto` slots, added up from zero in
/// the order of the slots.
pub open spec fn sum_at(
    slots: Seq<Option<Vec<Vec3>>>,
    plus: spec_fn(Vec3, Vec3) -> Vec3,
    p: int,
    upto: int,
) -> Vec3
    decreases upto,
{
    if upto <= 0 {
        Vec3 { x: ZERO, y: ZERO, z: ZERO }
    } else {
        plus(sum_at(slots, plus, p, upto - 1), slots[upto - 1]->0@[p])
    }
}

/// The values of pixel `p` in the buffers of all slots, in the order of the
/// slots.
pub open spec fn column(slots: Seq<Option<Vec<Vec3>>>, p: int) -> Seq<Vec3> {
    Seq::new(slots.len(), |w: int| slots[w]->0@[p])
}

proof fn lemma_sum_is_fold(
    slots: Seq<Option<Vec<Vec3>>>,
    plus: spec_fn(Vec3, Vec3) -> Vec3,
    p: int,
    upto: int,
)
    requires
        0 <= upto <= slots.len(),
    ensures
        sum_at(slots, plus, p, upto) == column(slots, p).take(upto).fold_left(
            Vec3 { x: ZERO, y: ZERO, z: ZERO },
            plus,
        ),
    decreases upto,
{
    if upto > 0 {
        lemma_sum_is_fold(slots, plus, p, upto - 1);
        let now = column(slots, p).take(upto);
        assert(now.drop_last() == column(slots, p).take(upto - 1));
        assert(now.last() == slots[upto - 1]->0@[p]);
    }
}

/// The sum of a pixel does not depend on the order in which the workers
/// stand, as long as the addition does not: if two films hold the same
/// values of a pixel, in whatever order, and adding two values to a sum
/// gives the same whichever is added first, the pixel adds up to the same
/// in both.
pub proof fn lemma_sum_any_order(
    slots: Seq<Option<Vec<Vec3>>>,
    others: Seq<Option<Vec<Vec3>>>,
    plus: spec_fn(Vec3, Vec3) -> Vec3,
    p: int,
)
    requires
        vstd::seq_lib::commutative_foldl(plus),
        column(slots, p).to_multiset() == column(others, p).to_multiset(),
    ensures
        sum_at(slots, plus, p, slots.len() as int) == sum_at(
            others,
            plus,
            p,
            others.len() as int,
        ),
{
    let zero = Vec3 { x: ZERO, y: ZERO, z: ZERO };
    lemma_sum_is_fold(slots, plus, p, slots.len() as int);
    lemma_sum_is_fold(others, plus, p, others.len() as int);
    assert(column(slots, p).take(slots.len() as int) == column(slots, p));
    assert(column(others, p).take(others.len() as int) == column(others, p));
    vstd::seq_lib::lemma_fold_left_permutation(column(slots, p), column(others, p), plus, zero);
}

impl Film {
    /// Every worker has published a buffer of `n` pixels.
    pub open spec fn complete(self, n: int) -> bool {
        forall|w: int|
            0 <= w < self.slots.len() ==> ((#[trigger] self.slots[w]) matches Some(buf)
                && buf.len() == n)
    }

    /// A film with an empty slot for each of `worker_count` workers.
    pub fn new(worker_count: usize) -> (film: Self)
        ensures
            film.slots.len() == worker_count,
            forall|w: int| 0 <= w < worker_count ==> (#[trigger] film.slots[w]).is_none(),
    {
        let mut slots: Vec<Option<Vec<Vec3>>> = Vec::new();
        let mut w: usize = 0;
        while w < worker_count
            invariant
                w <= worker_count,
                slots.len() == w,
                forall|i: int| 0 <= i < w ==> (#[trigger] slots[i]).is_none(),
            decreases worker_count - w,
        {
            slots.push(None);
            w = w + 1;
        }
        Self { slots }
    }

    /// Puts the buffer of one worker into the slot reserved for it. No
    /// other slot changes.
    pub fn publish(&mut self, worker: usize, buffer: Vec<Vec3>)
        requires
            worker < old(self).slots.len(),
        ensures
            final(self).slots@ == old(self).slots@.update(worker as int, Some(buffer)),
    {
        self.slots[worker] = Some(buffer);
    }

    /// Whether every worker has published a buffer of `n` pixels.
    pub fn is_complete(&self, n: usize) -> (done: bool)
        ensures
            done == self.complete(n as int),
    {
        let mut w: usize = 0;
        while w < self.slots.len()
            invariant
                w <= self.slots.len(),
                forall|i: int|
                    0 <= i < w ==> ((#[trigger] self.slots[i]) matches Some(buf) && buf.len()
                        == n),
            decreases self.slots.len() - w,
        {
            match &self.slots[w] {
                Some(buf) => {
                    if buf.len() != n {
                        return false;
                    }
                },
                None => {
                    return false;
                },
            }
            w = w + 1;
        }
        true
    }

    /// Adds up the buffers of all workers, pixel by pixel. `plus_fn` adds two
    /// colours; the buffers are added to zero in the order of their slots.
    pub fn merge<F: Fn(Vec3, Vec3) -> Vec3>(&self, n: usize, plus_fn: &F) -> (result: Vec<Vec3>)
        requires
            self.complete(n as int),
            forall|a: Vec3, b: Vec3| call_requires(*plus_fn, (a, b)),
        ensures
            result.len() == n,
            forall|plus: spec_fn(Vec3, Vec3) -> Vec3| #[trigger]
                computes_sum(*plus_fn, plus) ==> forall|p: int|
                    0 <= p < n ==> (#[trigger] result[p]) == sum_at(
                        self.slots@,
                        plus,
                        p,
                        self.slots.len() as int,
                    ),
    {
        let mut result: Vec<Vec3> = Vec::new();
        let mut p: usize = 0;
        while p < n
            invariant
                p <= n,
                result.len() == p,
                forall|i: int|
                    0 <= i < p ==> (#[trigger] result[i]) == (Vec3 { x: ZERO, y: ZERO, z: ZERO }),
            decreases n - p,
        {
            result.push(Vec3::new(ZERO, ZERO, ZERO));
            p = p + 1;
        }
        let mut w: usize = 0;
        while w < self.slots.len()
            invariant
                w <= self.slots.len(),
                result.len() == n,
                self.complete(n as int),
                forall|a: Vec3, b: Vec3| call_requires(*plus_fn, (a, b)),
                forall|plus: spec_fn(Vec3, Vec3) -> Vec3| #[trigger]
                    computes_sum(*plus_fn, plus) ==> forall|i: int|
                        0 <= i < n ==> (#[trigger] result[i]) == sum_at(
                            self.slots@,
                            plus,
                            i,
                            w as int,
                        ),
            decreases self.slots.len() - w,
        {
            assert(self.slots[w as int] matches Some(buf) && buf.len() == n);
            if let Some(buf) = &self.slots[w] {
                let mut q: usize = 0;
                while q < n
                    invariant
                        q <= n,
                        w < self.slots.len(),
                        result.len() == n,
                        buf.len() == n,
                        self.slots[w as int] == Some(*buf),
                        forall|a: Vec3, b: Vec3| call_requires(*plus_fn, (a, b)),
                        forall|plus: spec_fn(Vec3, Vec3) -> Vec3| #[trigger]
                            computes_sum(*plus_fn, plus) ==> forall|i: int|
                                0 <= i < n ==> (#[trigger] result[i]) == sum_at(
                                    self.slots@,
                                    plus,
                                    i,
                                    if i < q {
                                        w + 1
                                    } else {
                                        w as int
                                    },
                                ),
                    decreases n - q,
                {
                    let ghost before = result@;
                    let sum = plus_fn(result[q], buf[q]);
                    result[q] = sum;
                    proof {
                        assert forall|plus: spec_fn(Vec3, Vec3) -> Vec3| #[trigger]
                            computes_sum(*plus_fn, plus) implies forall|i: int|
                            0 <= i < n ==> (#[trigger] result[i]) == sum_at(
                                self.slots@,
                                plus,
                                i,
                                if i < q + 1 {
                                    w + 1
                                } else {
                                    w as int
                                },
                            ) by {
                            assert(call_ensures(*plus_fn, (before[q as int], buf@[q as int]), sum));
                            assert forall|i: int| 0 <= i < n implies (#[trigger] result[i])
                                == sum_at(
                                self.slots@,
                                plus,
                                i,
                                if i < q + 1 {
                                    w + 1
                                } else {
                                    w as int
                                },
                            ) by {
                                if i != q {
                                    assert(result[i] == before[i]);
                                }
                            }
                        }
                    }
                    q = q + 1;
                }
            }
            w = w + 1;
        }
        result
    }
}

} // verus!
