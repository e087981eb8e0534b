//! Vectors, compass directions, rays, and the greatest common divisor.

use vstd::prelude::*;
use vstd::arithmetic::div_mod::{
    lemma_fundamental_div_mod, lemma_mod_multiples_basic, lemma_mod_self_0,
};
use vstd::arithmetic::mul::{
    lemma_mul_is_associative, lemma_mul_is_commutative, lemma_mul_is_distributive_add,
    lemma_mul_is_distributive_sub,
};
use crate::fixed::{clamp_i64, clamped_add};

verus! {

/// Largest magnitude of a coordinate of a ray's source.
pub const COORD_LIMIT: i64 = 0x100_0000_0000;

/// Largest magnitude of a component of a ray's direction.
pub const DIR_LIMIT: i64 = 0x2_0000_0000;

/// Largest cell size of a grid.
pub const GRID_LIMIT: i64 = 0x1000_0000;

/// A pair of unsigned numbers: a size in pixels.
#[derive(Clone, Copy, Debug, PartialEq, Eq, Structural)]
pub struct Vec2u {
    pub x: u32,
    pub y: u32,
}

/// A pair of signed numbers: a cell of the grid, or a place on the screen.
#[derive(Clone, Copy, Debug, PartialEq, Eq, Structural)]
pub struct Vec2i {
    pub x: i32,
    pub y: i32,
}

/// A point or a direction in the plane, in fixed point.
#[derive(Clone, Copy, Debug, PartialEq, Eq, Structural)]
pub struct Vec2f {
    pub x: i64,
    pub y: i64,
}

/// A point in space, in fixed point.
#[derive(Clone, Copy, Debug, PartialEq, Eq, Structural)]
pub struct Vec3f {
    pub x: i64,
    pub y: i64,
    pub z: i64,
}

/// The side of a cell through which a ray enters it, named by the way the
/// ray is heading.
#[derive(Clone, Copy, Debug, PartialEq, Eq, Structural)]
pub enum Cardinal {
    North,
    East,
    South,
    West,
}

/// A ray: where it starts and which way it goes. The direction need not have
/// unit length.
#[derive(Clone, Copy, Debug, PartialEq, Eq, Structural)]
pub struct Ray2f {
    pub src: Vec2f,
    pub dir: Vec2f,
}

impl Vec2u {
    pub fn new(x: u32, y: u32) -> (v: Self)
        ensures
            v == (Vec2u { x, y }),
    {
        Vec2u { x, y }
    }
}

impl Vec2i {
    pub fn new(x: i32, y: i32) -> (v: Self)
        ensures
            v == (Vec2i { x, y }),
    {
        Vec2i { x, y }
    }
}

impl Vec2f {
    pub fn new(x: i64, y: i64) -> (v: Self)
        ensures
            v == (Vec2f { x, y }),
    {
        Vec2f { x, y }
    }

    /// The vector with its two components exchanged.
    pub open spec fn flip(self) -> Vec2f {
        Vec2f { x: self.y, y: self.x }
    }

    /// The vector with its two components exchanged.
    pub fn flipped(self) -> (v: Vec2f)
        ensures
            v == self.flip(),
    {
        Vec2f { x: self.y, y: self.x }
    }

    /// The sum of two vectors, each component held to the range of `i64`.
    pub open spec fn spec_plus(self, rhs: Vec2f) -> Vec2f {
        Vec2f { x: clamp_i64(self.x + rhs.x), y: clamp_i64(self.y + rhs.y) }
    }

    /// The sum of two vectors, each component held to the range of `i64`.
    pub fn plus(self, rhs: Vec2f) -> (sum: Vec2f)
        ensures
            sum == self.spec_plus(rhs),
    {
        Vec2f { x: clamped_add(self.x, rhs.x), y: clamped_add(self.y, rhs.y) }
    }

    /// Both components are within `limit` of zero.
    pub open spec fn within(self, limit: int) -> bool {
        &&& -limit <= self.x <= limit
        &&& -limit <= self.y <= limit
    }

    /// Whether both components are within `limit` of zero.
    pub fn is_within(self, limit: i64) -> (b: bool)
        requires
            0 <= limit,
        ensures
            b == self.within(limit as int),
    {
        -limit <= self.x && self.x <= limit && -limit <= self.y && self.y <= limit
    }
}

impl Vec3f {
    pub fn new(x: i64, y: i64, z: i64) -> (v: Self)
        ensures
            v == (Vec3f { x, y, z }),
    {
        Vec3f { x, y, z }
    }

    /// The sum of two vectors, each component held to the range of `i64`.
    pub open spec fn spec_plus(self, rhs: Vec3f) -> Vec3f {
        Vec3f {
            x: clamp_i64(self.x + rhs.x),
            y: clamp_i64(self.y + rhs.y),
            z: clamp_i64(self.z + rhs.z),
        }
    }

    /// The sum of two vectors, each component held to the range of `i64`.
    pub fn plus(self, rhs: Vec3f) -> (sum: Vec3f)
        ensures
            sum == self.spec_plus(rhs),
    {
        Vec3f {
            x: clamped_add(self.x, rhs.x),
            y: clamped_add(self.y, rhs.y),
            z: clamped_add(self.z, rhs.z),
        }
    }

    /// The point without its height.
    pub open spec fn spec_truncate(self) -> Vec2f {
        Vec2f { x: self.x, y: self.y }
    }

    /// The point without its height.
    pub fn truncate(self) -> (v: Vec2f)
        ensures
            v == self.spec_truncate(),
    {
        Vec2f { x: self.x, y: self.y }
    }
}

impl Cardinal {
    /// The side that takes this one's place when the two axes are exchanged:
    /// east becomes north, west becomes south, and back.
    pub open spec fn flip(self) -> Cardinal {
        match self {
            Cardinal::East => Cardinal::North,
            Cardinal::West => Cardinal::South,
            Cardinal::North => Cardinal::East,
            Cardinal::South => Cardinal::West,
        }
    }

    /// The side that takes this one's place when the two axes are exchanged.
    pub fn flipped(self) -> (c: Cardinal)
        ensures
            c == self.flip(),
    {
        match self {
            Cardinal::East => Cardinal::North,
            Cardinal::West => Cardinal::South,
            Cardinal::North => Cardinal::East,
            Cardinal::South => Cardinal::West,
        }
    }

    /// The way into the cell beyond this side, as a step of -1, 0 or 1 along
    /// each axis.
    pub open spec fn spec_heading(self) -> Vec2i {
        match self {
            Cardinal::North => Vec2i { x: 0, y: 1 },
            Cardinal::South => Vec2i { x: 0, y: -1i32 },
            Cardinal::East => Vec2i { x: 1, y: 0 },
            Cardinal::West => Vec2i { x: -1i32, y: 0 },
        }
    }

    /// The way into the cell beyond this side, as a step of -1, 0 or 1 along
    /// each axis.
    pub fn heading(self) -> (v: Vec2i)
        ensures
            v == self.spec_heading(),
    {
        match self {
            Cardinal::North => Vec2i { x: 0, y: 1 },
            Cardinal::South => Vec2i { x: 0, y: -1 },
            Cardinal::East => Vec2i { x: 1, y: 0 },
            Cardinal::West => Vec2i { x: -1, y: 0 },
        }
    }
}

impl Ray2f {
    pub fn new(src: Vec2f, dir: Vec2f) -> (ray: Self)
        ensures
            ray == (Ray2f { src, dir }),
    {
        Ray2f { src, dir }
    }

    /// The ray is small enough to be cast without overflow.
    pub open spec fn fits(self) -> bool {
        &&& self.src.within(COORD_LIMIT as int)
        &&& self.dir.within(DIR_LIMIT as int)
    }
}

/// `d` divides `n`. Zero divides only zero.
pub open spec fn divides(d: int, n: int) -> bool {
    if d == 0 {
        n == 0
    } else {
        n % d == 0
    }
}

/// `g` is the greatest common divisor of `a` and `b`: it divides both, and
/// every number that divides both divides it.
pub open spec fn is_gcd(a: int, b: int, g: int) -> bool {
    &&& divides(g, a)
    &&& divides(g, b)
    &&& forall|d: int| 0 <= d && #[trigger] divides(d, a) && divides(d, b) ==> divides(d, g)
}

/// A divisor of `b` divides `a` exactly when it divides `a % b`.
proof fn lemma_divides_remainder(d: int, a: int, b: int)
    requires
        0 <= d,
        0 <= a,
        0 < b,
        divides(d, b),
    ensures
        divides(d, a) <==> divides(d, a % b),
{
    if d == 0 {
    } else {
        let q = a / b;
        let r = a % b;
        lemma_fundamental_div_mod(a, b);
        lemma_fundamental_div_mod(b, d);
        let kb = b / d;
        assert(b == d * kb);
        assert(b * q == d * (kb * q)) by {
            lemma_mul_is_associative(d, kb, q);
        }
        if divides(d, a) {
            lemma_fundamental_div_mod(a, d);
            let ka = a / d;
            assert(r == d * ka - d * (kb * q));
            assert(r == d * (ka - kb * q)) by {
                lemma_mul_is_distributive_sub(d, ka, kb * q);
            }
            lemma_mod_multiples_basic(ka - kb * q, d);
            assert((ka - kb * q) * d == d * (ka - kb * q)) by {
                lemma_mul_is_commutative(d, ka - kb * q);
            }
        }
        if divides(d, r) {
            lemma_fundamental_div_mod(r, d);
            let kr = r / d;
            assert(a == d * (kb * q) + d * kr);
            assert(a == d * (kb * q + kr)) by {
                lemma_mul_is_distributive_add(d, kb * q, kr);
            }
            lemma_mod_multiples_basic(kb * q + kr, d);
            assert((kb * q + kr) * d == d * (kb * q + kr)) by {
                lemma_mul_is_commutative(d, kb * q + kr);
            }
        }
    }
}

/// The greatest common divisor of `a` and `b`, by Euclid's algorithm.
/// `gcd(0, 0)` is 0.
pub fn gcd(a: u32, b: u32) -> (g: u32)
    ensures
        is_gcd(a as int, b as int, g as int),
{
    let mut a: u32 = a;
    let mut b: u32 = b;
    let ghost a0: int = a as int;
    let ghost b0: int = b as int;
    if b > a {
        let t: u32 = a;
        a = b;
        b = t;
    }
    loop
        invariant
            forall|d: int|
                0 <= d ==> ((#[trigger] divides(d, a as int) && divides(d, b as int)) <==> (divides(
                    d,
                    a0,
                ) && divides(d, b0))),
        ensures
            is_gcd(a0, b0, a as int),
        decreases b,
    {
        if b == 0 || a == b {
            proof {
                if a > 0 {
                    lemma_mod_self_0(a as int);
                }
                assert(divides(a as int, a as int));
                assert(divides(a as int, b as int));
            }
            break ;
        }
        let r: u32 = a % b;
        proof {
            assert forall|d: int| 0 <= d implies ((#[trigger] divides(d, b as int) && divides(
                d,
                r as int,
            )) <==> (divides(d, a0) && divides(d, b0))) by {
                let both_now = divides(d, a as int) && divides(d, b as int);
                assert(both_now == (divides(d, a0) && divides(d, b0)));
                if divides(d, b as int) {
                    lemma_divides_remainder(d, a as int, b as int);
                }
            }
        }
        a = b;
        b = r;
    }
    a
}

} // verus!
