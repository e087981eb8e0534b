//! The camera, and the fan of rays that it casts: one for each column of
//! the screen.

use vstd::prelude::*;
use vstd::arithmetic::div_mod::{lemma_div_is_ordered, lemma_fundamental_div_mod_converse};
use crate::fixed::{lemma_div_exact, lemma_div_within, lemma_product_bound, mul_div, UNIT};
use crate::component::IsPlayer;
use crate::geom::{Ray2f, Vec2f, Vec2u, Vec3f, COORD_LIMIT};

verus! {

/// Largest magnitude of a component of the way a camera faces: twice the
/// length of a unit vector.
pub const HEADING_LIMIT: i64 = 131072;

/// Largest width of a view, in columns.
pub const VIEW_LIMIT: u32 = 65536;

/// Largest magnitude of a component of the vector from the middle of the
/// view plane to its right edge.
pub const RIGHT_LIMIT: i64 = 0x1_0000_0000;

/// Where the eye is, which way it faces and how large its view is.
///
/// The way it faces is held as a vector: the unit vector along `x`, turned by
/// the camera's yaw. The view does not depend on the camera's pitch, and the
/// camera does not hold it.
#[derive(Clone, Copy, Debug, PartialEq, Eq, Structural)]
pub struct Camera3D {
    pub pos: Vec3f,
    pub dim: Vec2u,
    pub heading: Vec2f,
}

/// Where something is and which way it faces: its place, and the unit
/// vector along `x` turned by its yaw.
#[derive(Clone, Copy, Debug, PartialEq, Eq, Structural)]
pub struct Pos3D(pub Vec3f, pub Vec2f);

/// The pass that brings the camera to where the player is.
#[derive(Clone, Copy, Debug)]
pub struct MoveCamera;

/// The rays of a view that are still to come, from left to right.
#[derive(Clone, Copy, Debug, PartialEq, Eq, Structural)]
pub struct XRayIter {
    /// The column of the next ray.
    pub x: u32,
    /// The number of columns.
    pub width: u32,
    /// Where every ray starts.
    pub src: Vec2f,
    /// The way through the middle of the view.
    pub dir: Vec2f,
    /// From the middle of the view plane to its right edge.
    pub right: Vec2f,
}

/// How far column `x` of `width` columns lies from the middle of the view,
/// as a fraction of half the view in fixed point: `2 * x / width - 1`,
/// rounded down. It runs from `-UNIT` at the left edge up to, but not
/// including, `UNIT`.
pub open spec fn view_fraction(x: int, width: int) -> int {
    ((2 * x - width) * UNIT) / width
}

/// The vector `v` scaled by the fixed-point number `t`, each component
/// rounded down.
pub open spec fn spec_scaled(v: Vec2f, t: int) -> (int, int) {
    ((v.x * t) / (UNIT as int), (v.y * t) / (UNIT as int))
}

/// The fraction of a column of the view is at least `-UNIT` and less than
/// `UNIT`.
pub proof fn lemma_view_fraction(x: int, width: int)
    requires
        0 <= x < width,
    ensures
        -UNIT <= view_fraction(x, width) < UNIT,
{
    let n = (2 * x - width) * UNIT;
    assert(-(UNIT * width) <= n <= (UNIT - 1) * width + (width - 1)) by (nonlinear_arith)
        requires
            n == (2 * x - width) * UNIT,
            0 <= x < width,
            UNIT == 65536,
    ;
    lemma_div_is_ordered(-(UNIT * width), n, width);
    lemma_div_is_ordered(n, (UNIT - 1) * width + (width - 1), width);
    assert(-(UNIT * width) == (-UNIT) * width) by (nonlinear_arith);
    lemma_div_exact(-UNIT, width);
    lemma_fundamental_div_mod_converse(
        (UNIT - 1) * width + (width - 1),
        width,
        UNIT - 1,
        width - 1,
    );
}

impl Camera3D {
    /// A camera at the origin that faces along `x`.
    pub fn new(dim: Vec2u) -> (camera: Self)
        ensures
            camera == (Camera3D {
                pos: Vec3f { x: 0, y: 0, z: 0 },
                dim,
                heading: Vec2f { x: UNIT, y: 0 },
            }),
    {
        Camera3D { dim, pos: Vec3f { x: 0, y: 0, z: 0 }, heading: Vec2f { x: UNIT, y: 0 } }
    }

    /// The camera can cast its rays without overflow: it is not too far
    /// from the origin, the way it faces is not too long, and its view is
    /// not too wide and has a height.
    pub open spec fn wf(&self) -> bool {
        &&& self.pos.spec_truncate().within(COORD_LIMIT as int)
        &&& self.heading.within(HEADING_LIMIT as int)
        &&& self.dim.x <= VIEW_LIMIT
        &&& self.dim.y >= 1
    }

    /// Whether the camera can cast its rays without overflow.
    pub fn is_wf(&self) -> (b: bool)
        ensures
            b == self.wf(),
    {
        -COORD_LIMIT <= self.pos.x && self.pos.x <= COORD_LIMIT && -COORD_LIMIT <= self.pos.y
            && self.pos.y <= COORD_LIMIT && -HEADING_LIMIT <= self.heading.x && self.heading.x
            <= HEADING_LIMIT && -HEADING_LIMIT <= self.heading.y && self.heading.y
            <= HEADING_LIMIT && self.dim.x <= VIEW_LIMIT && self.dim.y >= 1
    }

    /// From the middle of the view plane to its right edge: the way the
    /// camera faces, turned a quarter to the right and scaled by half the
    /// ratio of the view's width to its height, each component rounded down.
    pub open spec fn spec_right(&self) -> Vec2f {
        Vec2f {
            x: ((self.heading.y * self.dim.x) / (2 * self.dim.y)) as i64,
            y: ((-self.heading.x * self.dim.x) / (2 * self.dim.y)) as i64,
        }
    }

    /// The fan of rays before any ray has been taken from it.
    pub open spec fn spec_scatter_rays(&self) -> XRayIter {
        XRayIter {
            x: 0,
            width: self.dim.x,
            src: self.pos.spec_truncate(),
            dir: self.heading,
            right: self.spec_right(),
        }
    }

    /// The rays of the view, one for each column, from left to right.
    pub fn scatter_rays(&self) -> (rays: XRayIter)
        requires
            self.wf(),
        ensures
            rays == self.spec_scatter_rays(),
            rays.wf(),
    {
        let width: i64 = self.dim.x as i64;
        let twice_height: i64 = 2 * (self.dim.y as i64);
        proof {
            lemma_product_bound(
                self.heading.y as int,
                width as int,
                HEADING_LIMIT as int,
                VIEW_LIMIT as int,
            );
            lemma_product_bound(
                -self.heading.x,
                width as int,
                HEADING_LIMIT as int,
                VIEW_LIMIT as int,
            );
            assert(HEADING_LIMIT * VIEW_LIMIT <= RIGHT_LIMIT * twice_height) by (nonlinear_arith)
                requires
                    twice_height >= 2,
                    HEADING_LIMIT == 131072,
                    VIEW_LIMIT == 65536,
                    RIGHT_LIMIT == 0x1_0000_0000,
            ;
            lemma_div_within(self.heading.y * width, twice_height as int, RIGHT_LIMIT as int);
            lemma_div_within(-self.heading.x * width, twice_height as int, RIGHT_LIMIT as int);
        }
        let right_x: i64 = mul_div(self.heading.y, width, twice_height) as i64;
        let right_y: i64 = mul_div(-self.heading.x, width, twice_height) as i64;
        XRayIter {
            x: 0,
            width: self.dim.x,
            src: self.pos.truncate(),
            dir: self.heading,
            right: Vec2f { x: right_x, y: right_y },
        }
    }
}

impl XRayIter {
    /// The fan can yield its rays without overflow, and each of them can be
    /// cast.
    pub open spec fn wf(&self) -> bool {
        &&& self.width <= VIEW_LIMIT
        &&& self.src.within(COORD_LIMIT as int)
        &&& self.dir.within(HEADING_LIMIT as int)
        &&& self.right.within(RIGHT_LIMIT as int)
    }

    /// Whether the fan can yield its rays without overflow.
    pub fn is_wf(&self) -> (b: bool)
        ensures
            b == self.wf(),
    {
        self.width <= VIEW_LIMIT && -COORD_LIMIT <= self.src.x && self.src.x <= COORD_LIMIT
            && -COORD_LIMIT <= self.src.y && self.src.y <= COORD_LIMIT && -HEADING_LIMIT
            <= self.dir.x && self.dir.x <= HEADING_LIMIT && -HEADING_LIMIT <= self.dir.y
            && self.dir.y <= HEADING_LIMIT && -RIGHT_LIMIT <= self.right.x && self.right.x
            <= RIGHT_LIMIT && -RIGHT_LIMIT <= self.right.y && self.right.y <= RIGHT_LIMIT
    }

    /// The ray through column `x`: it starts where every ray starts, and
    /// goes the way through the middle of the view plus the way to the right
    /// edge scaled by the column's fraction.
    pub open spec fn spec_ray(&self, x: int) -> Ray2f {
        let t = view_fraction(x, self.width as int);
        let side = spec_scaled(self.right, t);
        Ray2f {
            src: self.src,
            dir: Vec2f { x: (self.dir.x + side.0) as i64, y: (self.dir.y + side.1) as i64 },
        }
    }

    /// The fan after its next ray has been taken.
    pub open spec fn advanced(&self) -> XRayIter {
        XRayIter { x: (self.x + 1) as u32, ..*self }
    }

    /// The next ray with its column, or `None` when every column has had
    /// its ray.
    pub fn next(&mut self) -> (r: Option<(u32, Ray2f)>)
        requires
            old(self).wf(),
        ensures
            old(self).x >= old(self).width ==> r is None && *final(self) == *old(self),
            old(self).x < old(self).width ==> r == Some(
                (old(self).x, old(self).spec_ray(old(self).x as int)),
            ) && *final(self) == old(self).advanced(),
            old(self).x < old(self).width ==> old(self).spec_ray(old(self).x as int).fits(),
            final(self).wf(),
    {
        if self.x >= self.width {
            return None;
        }
        let x: u32 = self.x;
        self.x = self.x + 1;
        let width: i64 = self.width as i64;
        let offset: i64 = 2 * (x as i64) - width;
        proof {
            lemma_view_fraction(x as int, width as int);
        }
        let t: i64 = mul_div(offset, UNIT, width) as i64;
        proof {
            lemma_product_bound(self.right.x as int, t as int, RIGHT_LIMIT as int, UNIT as int);
            lemma_product_bound(self.right.y as int, t as int, RIGHT_LIMIT as int, UNIT as int);
            lemma_div_within(self.right.x * t, UNIT as int, RIGHT_LIMIT as int);
            lemma_div_within(self.right.y * t, UNIT as int, RIGHT_LIMIT as int);
        }
        let side_x: i64 = mul_div(self.right.x, t, UNIT) as i64;
        let side_y: i64 = mul_div(self.right.y, t, UNIT) as i64;
        let dir = Vec2f { x: self.dir.x + side_x, y: self.dir.y + side_y };
        Some((x, Ray2f { src: self.src, dir }))
    }
}

/// Entity number `i` is the first that carries the mark of a player.
pub open spec fn is_first_player(entities: Seq<(Option<IsPlayer>, Pos3D)>, i: int) -> bool {
    &&& 0 <= i < entities.len()
    &&& entities[i].0 is Some
    &&& forall|j: int| 0 <= j < i ==> (#[trigger] entities[j]).0 is None
}

impl MoveCamera {
    /// Brings the camera to the first of the entities that carries the mark
    /// of a player: to where that player is, facing the way that player
    /// faces. Without a player the camera stays as it is.
    pub fn run(&mut self, camera: &mut Camera3D, entities: &Vec<(Option<IsPlayer>, Pos3D)>)
        ensures
            final(camera).dim == old(camera).dim,
            forall|i: int|
                is_first_player(entities@, i) ==> final(camera).pos == entities[i].1.0,
            forall|i: int|
                is_first_player(entities@, i) ==> final(camera).heading == entities[i].1.1,
            (forall|i: int| 0 <= i < entities.len() ==> (#[trigger] entities[i]).0 is None)
                ==> *final(camera) == *old(camera),
    {
        let mut i: usize = 0;
        while i < entities.len()
            invariant
                i <= entities.len(),
                *camera == *old(camera),
                forall|j: int| 0 <= j < i ==> (#[trigger] entities[j]).0 is None,
            decreases entities.len() - i,
        {
            if entities[i].0.is_some() {
                camera.pos = entities[i].1.0;
                camera.heading = entities[i].1.1;
                assert(is_first_player(entities@, i as int));
                assert forall|k: int| is_first_player(entities@, k) implies k == i by {
                    if k < i {
                        assert(entities[k].0 is None);
                    } else if k > i {
                        assert(entities[i as int].0 is None);
                    }
                }
                return ;
            }
            i = i + 1;
        }
    }
}

} // verus!
