//! Walking a ray across a square grid.
//!
//! A ray crosses two families of grid lines: those of constant `x` and those
//! of constant `y`. One stepper per family yields that family's crossings in
//! order; [`DDA`] merges the two by distance from the ray's source.

use vstd::prelude::*;
use vstd::arithmetic::div_mod::{lemma_fundamental_div_mod, lemma_mod_multiples_basic};
use crate::fixed::{
    abs, clamp_u64, floor_div, lemma_div_bound, lemma_magnitude_lower, lemma_product_bound,
    magnitude, mul_div, spec_magnitude,
};
use crate::geom::{Cardinal, Ray2f, Vec2f, COORD_LIMIT, DIR_LIMIT, GRID_LIMIT};

verus! {

/// A place where a ray crosses a grid line.
#[derive(Clone, Copy, Debug, PartialEq, Eq, Structural)]
pub struct RayHit {
    /// The point of the crossing.
    pub poi: Vec2f,
    /// Its distance from the ray's source.
    pub toi: u64,
    /// The side of the cell that the ray enters there.
    pub normal: Cardinal,
}

/// The crossings of a ray with one family of grid lines, nearest first: the
/// next crossing, and the step from each crossing to the one after it.
///
/// A ray that runs along the family's lines never crosses one. Its stepper
/// is idle: it stands at the greatest distance there is and does not move.
#[derive(Clone, Copy, Debug, PartialEq, Eq, Structural)]
pub struct Iter {
    pub poi: Vec2f,
    pub toi: u64,
    pub delta_poi: Vec2f,
    pub delta_toi: u64,
    pub normal: Cardinal,
}

/// All crossings of a ray with the lines of a grid, nearest first.
#[derive(Clone, Copy, Debug, PartialEq, Eq, Structural)]
pub struct DDA {
    /// Crossings of the lines of constant `x`.
    pub h: Iter,
    /// Crossings of the lines of constant `y`.
    pub v: Iter,
}

/// The grid line from which a ray at coordinate `s` counts its crossings:
/// the next line ahead when it heads up the axis, the line at or behind it
/// when it heads down.
pub open spec fn first_line(s: int, d: int, g: int) -> int {
    if d > 0 {
        (s / g + 1) * g
    } else {
        (s / g) * g
    }
}

/// The grid admits a cast: its cells are at least one step wide and no wider
/// than `GRID_LIMIT`.
pub open spec fn grid_fits(g: i64) -> bool {
    0 < g <= GRID_LIMIT
}

impl Iter {
    /// The stepper of a ray that never crosses a line of the family.
    pub open spec fn idle(src: Vec2f, normal: Cardinal) -> Iter {
        Iter { poi: src, toi: u64::MAX, delta_poi: Vec2f { x: 0, y: 0 }, delta_toi: 0, normal }
    }

    /// The crossing that the stepper yields next.
    pub open spec fn hit(self) -> RayHit {
        RayHit { poi: self.poi, toi: self.toi, normal: self.normal }
    }

    /// The stepper after it has yielded a crossing. A coordinate or a
    /// distance that would leave its type stays at the type's bound.
    pub open spec fn advanced(self) -> Iter {
        Iter {
            poi: self.poi.spec_plus(self.delta_poi),
            toi: clamp_u64(self.toi + self.delta_toi),
            ..self
        }
    }

    /// The stepper after it has yielded `n` crossings.
    pub open spec fn after(self, n: nat) -> Iter
        decreases n,
    {
        if n == 0 {
            self
        } else {
            self.advanced().after((n - 1) as nat)
        }
    }

    /// The stepper with the two axes exchanged.
    pub open spec fn flip(self) -> Iter {
        Iter {
            poi: self.poi.flip(),
            toi: self.toi,
            delta_poi: self.delta_poi.flip(),
            delta_toi: self.delta_toi,
            normal: self.normal.flip(),
        }
    }

    /// Each step takes the stepper farther from the source, unless it
    /// already stands at the greatest distance.
    pub open spec fn live(self) -> bool {
        self.delta_toi >= 1 || self.toi == u64::MAX
    }

    /// Yields the next crossing and steps on to the one after it.
    pub fn next(&mut self) -> (r: Option<RayHit>)
        ensures
            r == Some(old(self).hit()),
            *final(self) == old(self).advanced(),
    {
        let hit = RayHit { poi: self.poi, toi: self.toi, normal: self.normal };
        self.poi = self.poi.plus(self.delta_poi);
        self.toi = self.toi.saturating_add(self.delta_toi);
        Some(hit)
    }
}

/// The stepper across the lines of constant `x`, for a ray from `src` along
/// `dir` on a grid of cell size `g`.
///
/// The first crossing is on the line `first_line(src.x, dir.x, g)`; from one
/// crossing to the next `x` changes by `g` towards `dir.x`, and `y` by
/// `g * dir.y / |dir.x|`, rounded down. Distances are lengths of vectors,
/// rounded down. With `dir.x == 0` the stepper is idle.
pub open spec fn spec_horizontal(src: Vec2f, dir: Vec2f, g: i64) -> Iter {
    if dir.x == 0 {
        Iter::idle(src, Cardinal::West)
    } else {
        let first_x = first_line(src.x as int, dir.x as int, g as int);
        let run = first_x - src.x;
        let rise = (abs(run) * dir.y) / abs(dir.x as int);
        let delta_x = if dir.x > 0 {
            g as int
        } else {
            -g
        };
        let delta_y = (g * dir.y) / abs(dir.x as int);
        Iter {
            poi: Vec2f { x: first_x as i64, y: (src.y + rise) as i64 },
            toi: spec_magnitude(run, rise) as u64,
            delta_poi: Vec2f { x: delta_x as i64, y: delta_y as i64 },
            delta_toi: spec_magnitude(delta_x, delta_y) as u64,
            normal: if dir.x > 0 {
                Cardinal::East
            } else {
                Cardinal::West
            },
        }
    }
}

/// The stepper across the lines of constant `y`: as [`spec_horizontal`],
/// with the parts of `x` and `y` exchanged.
pub open spec fn spec_vertical(src: Vec2f, dir: Vec2f, g: i64) -> Iter {
    if dir.y == 0 {
        Iter::idle(src, Cardinal::South)
    } else {
        let first_y = first_line(src.y as int, dir.y as int, g as int);
        let rise = first_y - src.y;
        let run = (abs(rise) * dir.x) / abs(dir.y as int);
        let delta_y = if dir.y > 0 {
            g as int
        } else {
            -g
        };
        let delta_x = (g * dir.x) / abs(dir.y as int);
        Iter {
            poi: Vec2f { x: (src.x + run) as i64, y: first_y as i64 },
            toi: spec_magnitude(rise, run) as u64,
            delta_poi: Vec2f { x: delta_x as i64, y: delta_y as i64 },
            delta_toi: spec_magnitude(delta_x, delta_y) as u64,
            normal: if dir.y > 0 {
                Cardinal::North
            } else {
                Cardinal::South
            },
        }
    }
}

/// Where the first line lies: no more than one cell away from `s`, ahead of
/// it when `d > 0` and at or behind it otherwise, and on a multiple of `g`.
pub proof fn lemma_first_line(s: int, d: int, g: int)
    requires
        g > 0,
    ensures
        d > 0 ==> s < first_line(s, d, g) <= s + g,
        d <= 0 ==> s - g < first_line(s, d, g) <= s,
        first_line(s, d, g) % g == 0,
{
    let q = s / g;
    lemma_fundamental_div_mod(s, g);
    assert((q + 1) * g == q * g + g) by (nonlinear_arith);
    assert(q * g == g * q) by (nonlinear_arith);
    lemma_mod_multiples_basic(q, g);
    lemma_mod_multiples_basic(q + 1, g);
}

/// The stepper across the lines of constant `x`.
pub fn horizontal(src: Vec2f, dir: Vec2f, grid_size: i64) -> (it: Iter)
    requires
        src.within(COORD_LIMIT as int),
        dir.within(DIR_LIMIT as int),
        grid_fits(grid_size),
    ensures
        it == spec_horizontal(src, dir, grid_size),
        it.live(),
{
    if dir.x == 0 {
        return Iter {
            poi: src,
            toi: u64::MAX,
            delta_poi: Vec2f { x: 0, y: 0 },
            delta_toi: 0,
            normal: Cardinal::West,
        };
    }
    let ghost g = grid_size as int;
    let cell: i128 = floor_div(src.x as i128, grid_size as i128);
    proof {
        lemma_first_line(src.x as int, dir.x as int, g);
        lemma_fundamental_div_mod(src.x as int, g);
        assert(cell * g == g * cell) by (nonlinear_arith);
        assert((cell + 1) * g == cell * g + g) by (nonlinear_arith);
    }
    let base: i128 = cell * (grid_size as i128);
    let first_x: i64 = if dir.x > 0 {
        (base + grid_size as i128) as i64
    } else {
        base as i64
    };
    let run: i64 = first_x - src.x;
    let reach: i64 = if run < 0 {
        -run
    } else {
        run
    };
    let span: i64 = if dir.x < 0 {
        -dir.x
    } else {
        dir.x
    };
    proof {
        lemma_product_bound(reach as int, dir.y as int, GRID_LIMIT as int, DIR_LIMIT as int);
        lemma_product_bound(g, dir.y as int, GRID_LIMIT as int, DIR_LIMIT as int);
        lemma_div_bound(reach * dir.y, span as int);
        lemma_div_bound(g * dir.y, span as int);
    }
    let rise: i64 = mul_div(reach, dir.y, span) as i64;
    let delta_x: i64 = if dir.x > 0 {
        grid_size
    } else {
        -grid_size
    };
    let delta_y: i64 = mul_div(grid_size, dir.y, span) as i64;
    let delta_toi: u64 = magnitude(delta_x, delta_y);
    proof {
        lemma_magnitude_lower(delta_x as int, delta_y as int);
    }
    Iter {
        poi: Vec2f { x: first_x, y: src.y + rise },
        toi: magnitude(run, rise),
        delta_poi: Vec2f { x: delta_x, y: delta_y },
        delta_toi,
        normal: if dir.x > 0 {
            Cardinal::East
        } else {
            Cardinal::West
        },
    }
}

/// Exchanging the two axes of a ray exchanges its two steppers: the stepper
/// across the lines of constant `y` is the stepper across the lines of
/// constant `x` of the exchanged ray, exchanged back.
pub proof fn lemma_axis_symmetry(src: Vec2f, dir: Vec2f, g: i64)
    ensures
        spec_vertical(src, dir, g) == spec_horizontal(src.flip(), dir.flip(), g).flip(),
        spec_horizontal(src, dir, g) == spec_vertical(src.flip(), dir.flip(), g).flip(),
{
}

/// Exchanging the axes and stepping can be done in either order.
pub proof fn lemma_flip_after(it: Iter, n: nat)
    ensures
        it.flip().after(n) == it.after(n).flip(),
    decreases n,
{
    if n > 0 {
        assert(it.flip().advanced() == it.advanced().flip());
        lemma_flip_after(it.advanced(), (n - 1) as nat);
    }
}

/// The two steppers of a ray yield the same crossings, axes exchanged, as
/// the steppers of the exchanged ray, however far they are run.
pub proof fn lemma_axis_symmetry_after(src: Vec2f, dir: Vec2f, g: i64, n: nat)
    ensures
        spec_vertical(src, dir, g).after(n).hit() == spec_horizontal(
            src.flip(),
            dir.flip(),
            g,
        ).flip().after(n).hit(),
        spec_vertical(src, dir, g).after(n) == spec_horizontal(src.flip(), dir.flip(), g).after(
            n,
        ).flip(),
{
    lemma_axis_symmetry(src, dir, g);
    lemma_flip_after(spec_horizontal(src.flip(), dir.flip(), g), n);
}

/// As long as nothing reaches the bound of its type, the crossing number
/// `n` of a stepper lies `n` steps from its first crossing, in place and in
/// distance.
pub proof fn lemma_after_steps(it: Iter, n: nat)
    ensures
        i64::MIN <= it.poi.x + n * it.delta_poi.x <= i64::MAX ==> it.after(n).poi.x == it.poi.x + n
            * it.delta_poi.x,
        i64::MIN <= it.poi.y + n * it.delta_poi.y <= i64::MAX ==> it.after(n).poi.y == it.poi.y + n
            * it.delta_poi.y,
        it.toi + n * it.delta_toi <= u64::MAX ==> it.after(n).toi == it.toi + n * it.delta_toi,
        it.after(n).delta_poi == it.delta_poi,
        it.after(n).delta_toi == it.delta_toi,
        it.after(n).normal == it.normal,
    decreases n,
{
    if n > 0 {
        let m = (n - 1) as nat;
        let next = it.advanced();
        lemma_after_steps(next, m);
        lemma_steps_between(it.poi.x as int, it.delta_poi.x as int, n);
        lemma_steps_between(it.poi.y as int, it.delta_poi.y as int, n);
        lemma_steps_between(it.toi as int, it.delta_toi as int, n);
    }
}

/// One step from `a` towards `a + n * d` lies between the two, and the
/// other `n - 1` steps lead from there to `a + n * d`.
proof fn lemma_steps_between(a: int, d: int, n: nat)
    requires
        n > 0,
    ensures
        (a + d) + (n - 1) * d == a + n * d,
        d >= 0 ==> a <= a + d <= a + n * d,
        d <= 0 ==> a + n * d <= a + d <= a,
{
    assert((a + d) + (n - 1) * d == a + n * d) by (nonlinear_arith);
    assert(d >= 0 ==> (n - 1) * d >= 0) by (nonlinear_arith)
        requires
            n > 0,
    ;
    assert(d <= 0 ==> (n - 1) * d <= 0) by (nonlinear_arith)
        requires
            n > 0,
    ;
}

/// The crossing number `n` of the stepper across the lines of constant `x`
/// lies `n` cells beyond the first line, in the direction of the ray.
proof fn lemma_horizontal_on_lines(src: Vec2f, dir: Vec2f, g: i64, n: nat)
    requires
        src.within(COORD_LIMIT as int),
        grid_fits(g),
        dir.x != 0,
        n <= 0x1_0000_0000,
    ensures
        spec_horizontal(src, dir, g).after(n).poi.x == first_line(
            src.x as int,
            dir.x as int,
            g as int,
        ) + if dir.x > 0 {
            n * g
        } else {
            -(n * g)
        },
        (spec_horizontal(src, dir, g).after(n).poi.x as int) % (g as int) == 0,
{
    let it = spec_horizontal(src, dir, g);
    let first = first_line(src.x as int, dir.x as int, g as int);
    lemma_first_line(src.x as int, dir.x as int, g as int);
    lemma_fundamental_div_mod(first, g as int);
    let k = first / (g as int);
    assert(0 <= n * g <= 0x1_0000_0000 * 0x1000_0000) by (nonlinear_arith)
        requires
            0 <= n <= 0x1_0000_0000,
            0 < g <= 0x1000_0000,
    ;
    assert(n * (-g) == -(n * g)) by (nonlinear_arith);
    lemma_after_steps(it, n);
    if dir.x > 0 {
        assert(first + n * g == (k + n) * g) by (nonlinear_arith)
            requires
                first == g * k,
        ;
        lemma_mod_multiples_basic(k + n, g as int);
    } else {
        assert(first - n * g == (k - n) * g) by (nonlinear_arith)
            requires
                first == g * k,
        ;
        lemma_mod_multiples_basic(k - n, g as int);
    }
}

/// Every crossing that a stepper yields lies on a line of its family: a
/// crossing of a line of constant `x` has an `x` that is a multiple of the
/// cell size, and a crossing of a line of constant `y` such a `y`; and each
/// lies one cell beyond the crossing before it, in the direction of the ray.
/// (For as many crossings as there are steps in the range of a coordinate.)
pub proof fn lemma_crossings_on_lines(src: Vec2f, dir: Vec2f, g: i64, n: nat)
    requires
        src.within(COORD_LIMIT as int),
        grid_fits(g),
        n <= 0x1_0000_0000,
    ensures
        dir.x != 0 ==> (spec_horizontal(src, dir, g).after(n).poi.x as int) % (g as int) == 0,
        dir.x > 0 ==> spec_horizontal(src, dir, g).after(n).poi.x == first_line(
            src.x as int,
            dir.x as int,
            g as int,
        ) + n * g,
        dir.x < 0 ==> spec_horizontal(src, dir, g).after(n).poi.x == first_line(
            src.x as int,
            dir.x as int,
            g as int,
        ) - n * g,
        dir.y != 0 ==> (spec_vertical(src, dir, g).after(n).poi.y as int) % (g as int) == 0,
        dir.y > 0 ==> spec_vertical(src, dir, g).after(n).poi.y == first_line(
            src.y as int,
            dir.y as int,
            g as int,
        ) + n * g,
        dir.y < 0 ==> spec_vertical(src, dir, g).after(n).poi.y == first_line(
            src.y as int,
            dir.y as int,
            g as int,
        ) - n * g,
{
    if dir.x != 0 {
        lemma_horizontal_on_lines(src, dir, g, n);
    }
    if dir.y != 0 {
        lemma_horizontal_on_lines(src.flip(), dir.flip(), g, n);
        lemma_axis_symmetry_after(src, dir, g, n);
    }
}

/// The stepper across the lines of constant `y`: the stepper across the
/// lines of constant `x` of the ray with its axes exchanged, exchanged back.
pub fn vertical(src: Vec2f, dir: Vec2f, grid_size: i64) -> (it: Iter)
    requires
        src.within(COORD_LIMIT as int),
        dir.within(DIR_LIMIT as int),
        grid_fits(grid_size),
    ensures
        it == spec_vertical(src, dir, grid_size),
        it.live(),
{
    let h = horizontal(src.flipped(), dir.flipped(), grid_size);
    proof {
        lemma_axis_symmetry(src, dir, grid_size);
    }
    Iter {
        toi: h.toi,
        delta_toi: h.delta_toi,
        poi: h.poi.flipped(),
        delta_poi: h.delta_poi.flipped(),
        normal: h.normal.flipped(),
    }
}

impl DDA {
    /// The stepper that yields the next crossing is the one across the
    /// lines of constant `x`: it is strictly nearer than the other.
    pub open spec fn takes_h(self) -> bool {
        self.h.toi < self.v.toi
    }

    /// The crossing that comes next: the nearer of the two steppers' next
    /// crossings, and at equal distance the crossing of a line of constant
    /// `y`.
    pub open spec fn hit(self) -> RayHit {
        if self.takes_h() {
            self.h.hit()
        } else {
            self.v.hit()
        }
    }

    /// The walk after it has yielded a crossing.
    pub open spec fn advanced(self) -> DDA {
        if self.takes_h() {
            DDA { h: self.h.advanced(), v: self.v }
        } else {
            DDA { h: self.h, v: self.v.advanced() }
        }
    }

    /// The walk after it has yielded `n` crossings.
    pub open spec fn after(self, n: nat) -> DDA
        decreases n,
    {
        if n == 0 {
            self
        } else {
            self.advanced().after((n - 1) as nat)
        }
    }

    /// The crossing number `n` of the walk, counted from 0.
    pub open spec fn crossing(self, n: nat) -> RayHit {
        self.after(n).hit()
    }

    /// Both steppers are live.
    pub open spec fn live(self) -> bool {
        self.h.live() && self.v.live()
    }

    /// The distance of the next crossing.
    pub open spec fn nearest(self) -> u64 {
        if self.h.toi < self.v.toi {
            self.h.toi
        } else {
            self.v.toi
        }
    }

    /// Yields the next crossing and steps past it. There always is one.
    pub fn next(&mut self) -> (r: Option<RayHit>)
        ensures
            r == Some(old(self).hit()),
            *final(self) == old(self).advanced(),
    {
        if self.h.toi < self.v.toi {
            self.h.next()
        } else {
            self.v.next()
        }
    }
}

/// The walk of `ray` across a grid of cell size `g`.
pub open spec fn spec_cast(ray: Ray2f, g: i64) -> DDA {
    DDA { h: spec_horizontal(ray.src, ray.dir, g), v: spec_vertical(ray.src, ray.dir, g) }
}

impl Ray2f {
    /// Whether the ray can be cast on a grid of cell size `grid_size`: the
    /// ray fits, and so does the grid.
    pub fn can_cast(&self, grid_size: i64) -> (b: bool)
        ensures
            b == (self.fits() && grid_fits(grid_size)),
    {
        -COORD_LIMIT <= self.src.x && self.src.x <= COORD_LIMIT && -COORD_LIMIT <= self.src.y
            && self.src.y <= COORD_LIMIT && -DIR_LIMIT <= self.dir.x && self.dir.x <= DIR_LIMIT
            && -DIR_LIMIT <= self.dir.y && self.dir.y <= DIR_LIMIT && 0 < grid_size && grid_size
            <= GRID_LIMIT
    }

    /// All crossings of the ray with the lines of a grid of cell size
    /// `grid_size`, nearest first.
    pub fn cast(self, grid_size: i64) -> (dda: DDA)
        requires
            self.fits(),
            grid_fits(grid_size),
        ensures
            dda == spec_cast(self, grid_size),
            dda.live(),
    {
        DDA {
            h: horizontal(self.src, self.dir, grid_size),
            v: vertical(self.src, self.dir, grid_size),
        }
    }
}

/// A stepper that is idle stays idle, and no crossing nearer than the
/// greatest distance there is comes from it: a ray that runs along one
/// family of grid lines is walked by the crossings of the other family alone.
pub proof fn lemma_idle_never_nearer(dda: DDA, n: nat)
    ensures
        dda.h == Iter::idle(dda.h.poi, dda.h.normal) ==> dda.after(n).h == dda.h && dda.crossing(n)
            == dda.v.after(n).hit(),
        dda.v == Iter::idle(dda.v.poi, dda.v.normal) ==> dda.after(n).v == dda.v && (dda.crossing(
            n,
        ).toi < u64::MAX ==> dda.crossing(n).normal == dda.h.normal),
    decreases n,
{
    if n > 0 {
        lemma_idle_never_nearer(dda.advanced(), (n - 1) as nat);
        if dda.h == Iter::idle(dda.h.poi, dda.h.normal) {
            lemma_after_sum_iter(dda.v, 1, (n - 1) as nat);
        }
    }
    if dda.v == Iter::idle(dda.v.poi, dda.v.normal) {
        lemma_keeps_sides(dda, n);
    }
}

/// Whatever a walk has yielded, its steppers enter cells by the sides they
/// began with.
pub proof fn lemma_keeps_sides(dda: DDA, n: nat)
    ensures
        dda.after(n).h.normal == dda.h.normal,
        dda.after(n).v.normal == dda.v.normal,
    decreases n,
{
    if n > 0 {
        lemma_keeps_sides(dda.advanced(), (n - 1) as nat);
    }
}

/// Running a stepper for `i` crossings and then for `k` more is running it
/// for `i + k`.
proof fn lemma_after_sum_iter(it: Iter, i: nat, k: nat)
    ensures
        it.after(i).after(k) == it.after(i + k),
    decreases i,
{
    if i > 0 {
        lemma_after_sum_iter(it.advanced(), (i - 1) as nat, k);
    }
}

/// Every crossing of a cast ray enters a cell by a side that the ray heads
/// for: by the east or the west side where it crosses a line of constant
/// `x`, by the north or the south side where it crosses a line of constant
/// `y`, and never by a side that it moves away from.
pub proof fn lemma_cast_sides(ray: Ray2f, g: i64, n: nat)
    ensures
        match spec_cast(ray, g).crossing(n).normal {
            Cardinal::East => ray.dir.x > 0,
            Cardinal::West => ray.dir.x <= 0,
            Cardinal::North => ray.dir.y > 0,
            Cardinal::South => ray.dir.y <= 0,
        },
{
    lemma_keeps_sides(spec_cast(ray, g), n);
}

/// A step never brings the next crossing nearer, and keeps live steppers
/// live.
pub proof fn lemma_advance(dda: DDA)
    ensures
        dda.nearest() <= dda.advanced().nearest(),
        dda.hit().toi == dda.nearest(),
        dda.live() ==> dda.advanced().live(),
{
}

/// A walk that has been run for a while is as far as before, or farther.
pub proof fn lemma_after_ascends(dda: DDA, n: nat)
    ensures
        dda.nearest() <= dda.after(n).nearest(),
        dda.live() ==> dda.after(n).live(),
    decreases n,
{
    if n > 0 {
        lemma_advance(dda);
        lemma_after_ascends(dda.advanced(), (n - 1) as nat);
    }
}

/// Running a walk for `i` crossings and then for `k` more is running it for
/// `i + k`.
pub proof fn lemma_after_sum(dda: DDA, i: nat, k: nat)
    ensures
        dda.after(i).after(k) == dda.after(i + k),
    decreases i,
{
    if i > 0 {
        lemma_after_sum(dda.advanced(), (i - 1) as nat, k);
    }
}

/// The distances of the crossings of a walk never decrease: a later
/// crossing is at least as far from the source as an earlier one.
pub proof fn lemma_crossings_ascend(dda: DDA, i: nat, j: nat)
    requires
        i <= j,
    ensures
        dda.crossing(i).toi <= dda.crossing(j).toi,
{
    lemma_after_sum(dda, i, (j - i) as nat);
    lemma_after_ascends(dda.after(i), (j - i) as nat);
    lemma_advance(dda.after(i));
    lemma_advance(dda.after(j));
}

} // verus!
