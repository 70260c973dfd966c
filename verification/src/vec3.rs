//! Scalars, held as order-preserving codes, and triples of them.
use vstd::prelude::*;

verus! {

/// A real quantity, held as the order-preserving code of a binary64 number.
///
/// The code of a number with bit pattern `b` is `b` itself, read as a signed
/// integer, when the sign bit is clear, and `b` with its low 63 bits inverted
/// when it is set. Codes increase exactly as the numbers do, so `<` on codes
/// is `<` on the numbers. The embedding program stores zero with a clear sign
/// bit, and hands over a quantity that may be undefined as an `Option`, with
/// `None` for "not a number".
pub type Scalar = i64;

/// The code of zero.
pub const ZERO: Scalar = 0;

/// The code of one.
pub const ONE: Scalar = 0x3FF0_0000_0000_0000;

/// The code of the largest finite number.
pub const MAX: Scalar = 0x7FEF_FFFF_FFFF_FFFF;

/// The code of the smallest (most negative) finite number.
pub const MIN: Scalar = -0x7FF0_0000_0000_0000;

/// The code of positive infinity.
pub const INFINITY: Scalar = 0x7FF0_0000_0000_0000;

/// The code of the number opposite to the one with code `c`.
///
/// Changing the sign of a binary64 number inverts every bit of its code,
/// which for a signed integer is `-1 - c`; zero, which is stored with a
/// clear sign bit, is its own opposite.
pub open spec fn spec_negate(c: Scalar) -> Scalar {
    if c == 0 {
        0
    } else {
        (-1 - c) as Scalar
    }
}

/// The code of the opposite number.
pub fn negate(c: Scalar) -> (n: Scalar)
    ensures
        n == spec_negate(c),
{
    if c == 0 {
        0
    } else {
        -1 - c
    }
}

/// Taking the opposite twice gives the number back. The code `-1`, which
/// would be a zero with its sign bit set, is the one exception, and the
/// embedding program never produces it.
pub proof fn lemma_negate_involutive(c: Scalar)
    requires
        c != -1,
    ensures
        spec_negate(spec_negate(c)) == c,
{
}

/// Taking opposites reverses the order.
pub proof fn lemma_negate_reverses_order(a: Scalar, b: Scalar)
    requires
        a != -1,
        b != -1,
        a < b,
    ensures
        spec_negate(b) < spec_negate(a),
{
}

/// The code `c` as a quantity that may be undefined: the codes beyond the
/// two infinities stand for "not a number".
pub open spec fn spec_defined(c: Scalar) -> Option<Scalar> {
    if -INFINITY - 1 <= c <= INFINITY {
        Some(c)
    } else {
        None
    }
}

/// The code `c`, unless it stands for "not a number".
pub fn defined(c: Scalar) -> (d: Option<Scalar>)
    ensures
        d == spec_defined(c),
{
    if -INFINITY - 1 <= c && c <= INFINITY {
        Some(c)
    } else {
        None
    }
}

/// Whether `x` is defined and lies below `bound`.
pub open spec fn spec_below(x: Option<Scalar>, bound: Scalar) -> bool {
    x matches Some(v) && v < bound
}

/// Whether `x` is defined and lies above `bound`.
pub open spec fn spec_above(x: Option<Scalar>, bound: Scalar) -> bool {
    x matches Some(v) && v > bound
}

/// Whether both are defined and `a` lies below `b`.
pub open spec fn spec_less(a: Option<Scalar>, b: Option<Scalar>) -> bool {
    a matches Some(x) && b matches Some(y) && x < y
}

/// An undefined scalar is below nothing.
pub fn below(x: Option<Scalar>, bound: Scalar) -> (b: bool)
    ensures
        b == spec_below(x, bound),
{
    match x {
        Some(v) => v < bound,
        None => false,
    }
}

/// An undefined scalar is above nothing.
pub fn above(x: Option<Scalar>, bound: Scalar) -> (b: bool)
    ensures
        b == spec_above(x, bound),
{
    match x {
        Some(v) => v > bound,
        None => false,
    }
}

/// An undefined scalar is neither below nor above anything.
pub fn less(a: Option<Scalar>, b: Option<Scalar>) -> (l: bool)
    ensures
        l == spec_less(a, b),
{
    match (a, b) {
        (Some(x), Some(y)) => x < y,
        _ => false,
    }
}

/// A triple of scalars of which any may be undefined: what a formula gives
/// before anything is known of its operands.
#[derive(Debug, Clone, Copy, PartialEq, Eq)]
pub struct RawVec3 {
    pub x: Option<Scalar>,
    pub y: Option<Scalar>,
    pub z: Option<Scalar>,
}

impl RawVec3 {
    /// The component along `axis`: 0 is x, 1 is y, anything else is z.
    pub open spec fn component(self, axis: int) -> Option<Scalar> {
        if axis == 0 {
            self.x
        } else if axis == 1 {
            self.y
        } else {
            self.z
        }
    }

    /// The triple with zero in place of every undefined component.
    pub open spec fn sanitized(self) -> Vec3 {
        Vec3 {
            x: match self.x {
                Some(v) => v,
                None => ZERO,
            },
            y: match self.y {
                Some(v) => v,
                None => ZERO,
            },
            z: match self.z {
                Some(v) => v,
                None => ZERO,
            },
        }
    }

    /// The component along `index`, which must name one of the three axes.
    pub fn index(&self, index: usize) -> (c: Option<Scalar>)
        requires
            index < 3,
        ensures
            c == self.component(index as int),
    {
        if index == 0 {
            self.x
        } else if index == 1 {
            self.y
        } else {
            self.z
        }
    }
}

/// A triple of scalars: a point, a direction or a colour.
#[derive(Debug, Clone, Copy, PartialEq, Eq, Structural)]
pub struct Vec3 {
    pub x: Scalar,
    pub y: Scalar,
    pub z: Scalar,
}

/// The triple `(x, y, z)`.
pub fn vec3(x: Scalar, y: Scalar, z: Scalar) -> (v: Vec3)
    ensures
        v == (Vec3 { x, y, z }),
{
    Vec3 { x, y, z }
}

/// The triple whose three components are all `f`.
pub fn scalar(f: Scalar) -> (v: Vec3)
    ensures
        v == (Vec3 { x: f, y: f, z: f }),
{
    vec3(f, f, f)
}

impl Vec3 {
    /// The component along `axis`: 0 is x, 1 is y, anything else is z.
    pub open spec fn component(self, axis: int) -> Scalar {
        if axis == 0 {
            self.x
        } else if axis == 1 {
            self.y
        } else {
            self.z
        }
    }

    /// The opposite vector.
    pub open spec fn spec_neg(self) -> Vec3 {
        Vec3 { x: spec_negate(self.x), y: spec_negate(self.y), z: spec_negate(self.z) }
    }

    /// The triple `(x, y, z)`.
    pub fn new(x: Scalar, y: Scalar, z: Scalar) -> (v: Self)
        ensures
            v == (Vec3 { x, y, z }),
    {
        Self { x, y, z }
    }

    /// The opposite vector.
    pub fn neg(self) -> (v: Self)
        ensures
            v == self.spec_neg(),
    {
        Self { x: negate(self.x), y: negate(self.y), z: negate(self.z) }
    }

    /// The first component, read as the red channel.
    pub fn r(&self) -> (c: Scalar)
        ensures
            c == self.x,
    {
        self.x
    }

    /// The second component, read as the green channel.
    pub fn g(&self) -> (c: Scalar)
        ensures
            c == self.y,
    {
        self.y
    }

    /// The third component, read as the blue channel.
    pub fn b(&self) -> (c: Scalar)
        ensures
            c == self.z,
    {
        self.z
    }

    /// The component along `index`, which must name one of the three axes.
    pub fn index(&self, index: usize) -> (c: Scalar)
        requires
            index < 3,
        ensures
            c == self.component(index as int),
    {
        if index == 0 {
            self.x
        } else if index == 1 {
            self.y
        } else {
            self.z
        }
    }
}

/// The colour `c` with zero in place of every component that is not a
/// number.
pub fn de_nan(c: Vec3) -> (clean: Vec3)
    ensures
        clean == (RawVec3 {
            x: spec_defined(c.x),
            y: spec_defined(c.y),
            z: spec_defined(c.z),
        }).sanitized(),
{
    let mut temp = c;
    if defined(temp.x).is_none() {
        temp.x = ZERO;
    }
    if defined(temp.y).is_none() {
        temp.y = ZERO;
    }
    if defined(temp.z).is_none() {
        temp.z = ZERO;
    }
    temp
}

impl Default for Vec3 {
    fn default() -> (v: Self)
        ensures
            v == (Vec3 { x: ZERO, y: ZERO, z: ZERO }),
    {
        Vec3 { x: ZERO, y: ZERO, z: ZERO }
    }
}

} // verus!
