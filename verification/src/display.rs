//! From crossings to wall slices: the walk of one column, and the frame of
//! all columns.

use vstd::prelude::*;
use crate::camera::{Camera3D, XRayIter};
use crate::component::TextureID;
use crate::dda::{lemma_after_sum, spec_cast, RayHit, DDA};
use vstd::arithmetic::div_mod::{
    lemma_div_is_ordered_by_denominator, lemma_div_pos_is_pos, lemma_fundamental_div_mod,
    lemma_mod_multiples_basic,
};
use crate::fixed::{abs, lemma_div_exact, UNIT};
use crate::geom::{divides, gcd, is_gcd, Ray2f, Vec2i, Vec2u};
use crate::map::{LevelMap, Sector};

verus! {

/// The distance beyond which nothing is drawn: a thousand world units.
pub const FAR_CLIP: u64 = 65_536_000;

/// A colour.
#[derive(Clone, Copy, Debug, PartialEq, Eq, Structural)]
pub struct Rgb {
    pub r: u8,
    pub g: u8,
    pub b: u8,
}

/// The wall that one column of the screen shows.
#[derive(Clone, Copy, Debug, PartialEq, Eq, Structural)]
pub struct WallSlice {
    /// The texture of the sector that rises there.
    pub texid: TextureID,
    /// The distance of the wall from the eye.
    pub camera_z: u64,
    /// How far above the middle of the screen the slice ends.
    pub high_y: i16,
    /// How far above the middle of the screen the slice begins: `-high_y`.
    pub low_y: i16,
    /// The column.
    pub x: u32,
}

/// What is to be drawn for one frame.
#[derive(Debug)]
pub struct DisplayList {
    pub bg: Rgb,
    pub walls: Vec<WallSlice>,
}

/// The pass that fills a display list with the walls that the camera sees.
#[derive(Clone, Copy, Debug)]
pub struct Draw {
    pub resolution: Vec2u,
}

/// Half the height on the screen of a wall that rises by `rise` at
/// `distance`, on a view `view_height` rows high: an eighth of the view for
/// each unit of height at a distance of one world unit, in inverse proportion
/// to the distance, rounded down, and no more than `i16::MAX`. At distance
/// zero it is `i16::MAX`.
pub open spec fn spec_wall_height(rise: int, view_height: int, distance: int) -> int {
    if distance <= 0 {
        i16::MAX as int
    } else {
        let h = (rise * view_height * UNIT) / (8 * distance);
        if h > i16::MAX {
            i16::MAX as int
        } else {
            h
        }
    }
}

/// Half the height on the screen of a wall that rises by `rise` at
/// `distance`, on a view `view_height` rows high.
pub fn wall_height(rise: u16, view_height: u32, distance: u64) -> (h: i16)
    ensures
        h == spec_wall_height(rise as int, view_height as int, distance as int),
        h >= 0,
{
    if distance == 0 {
        return i16::MAX;
    }
    assert(0 <= rise * view_height * UNIT <= 0xffff * 0xffff_ffff * 65536) by (nonlinear_arith)
        requires
            0 <= rise <= 0xffff,
            0 <= view_height <= 0xffff_ffff,
            UNIT == 65536,
    ;
    let scaled: u128 = (rise as u128) * (view_height as u128) * 65536;
    let h: u128 = scaled / (8 * (distance as u128));
    proof {
        lemma_div_pos_is_pos(scaled as int, 8 * (distance as int));
    }
    if h > 32767 {
        i16::MAX
    } else {
        h as i16
    }
}

/// A wall that is farther away is no taller on the screen.
pub proof fn lemma_wall_height_falls(rise: int, view_height: int, near: int, far: int)
    requires
        0 <= rise,
        0 <= view_height,
        0 <= near <= far,
    ensures
        spec_wall_height(rise, view_height, far) <= spec_wall_height(rise, view_height, near),
        0 <= spec_wall_height(rise, view_height, far) <= i16::MAX,
{
    let scaled = rise * view_height * UNIT;
    assert(0 <= scaled) by (nonlinear_arith)
        requires
            0 <= rise,
            0 <= view_height,
            scaled == rise * view_height * UNIT,
            UNIT == 65536,
    ;
    if far > 0 {
        lemma_div_pos_is_pos(scaled, 8 * far);
        if near > 0 {
            lemma_div_is_ordered_by_denominator(scaled, 8 * near, 8 * far);
        }
    }
}

/// The slice of column `x` for a wall that rises at the crossing `hit`, from
/// the sector `current` on this side of it to the sector `next` beyond.
pub open spec fn spec_slice(
    hit: RayHit,
    current: Sector,
    next: Sector,
    view_height: int,
    x: u32,
) -> WallSlice {
    let h = spec_wall_height(
        next.floor_height - current.floor_height,
        view_height,
        hit.toi as int,
    );
    WallSlice { texid: next.texid, camera_z: hit.toi, high_y: h as i16, low_y: (-h) as i16, x }
}

/// The sector that a walk is in when it comes to its crossing number `n`:
/// the sector it started in, or the sector it entered at the crossing
/// before.
pub open spec fn sector_before(level: LevelMap, start: Sector, dda: DDA, n: nat) -> Sector {
    if n == 0 {
        start
    } else {
        match level.spec_resolve(dda.crossing((n - 1) as nat)) {
            Some(sector) => sector,
            None => start,
        }
    }
}

/// The walk of a column ends at its crossing number `n`, if it comes so far:
/// the crossing is beyond the far clip, or the ray leaves the level there,
/// or the floor beyond is higher than the floor on this side.
pub open spec fn halts_at(level: LevelMap, start: Sector, dda: DDA, n: nat) -> bool {
    let hit = dda.crossing(n);
    hit.toi > FAR_CLIP || match level.spec_resolve(hit) {
        None => true,
        Some(next) => next.floor_height > sector_before(level, start, dda, n).floor_height,
    }
}

/// The walk of a column ends at its crossing number `n` and at none before.
pub open spec fn ends_at(level: LevelMap, start: Sector, dda: DDA, n: nat) -> bool {
    &&& halts_at(level, start, dda, n)
    &&& forall|m: nat| m < n ==> !#[trigger] halts_at(level, start, dda, m)
}

/// What the walk of a column shows if it ends at its crossing number `n`:
/// a wall where the floor rises within the far clip, and nothing where the
/// crossing is beyond the far clip or leaves the level.
pub open spec fn spec_shown(
    level: LevelMap,
    start: Sector,
    dda: DDA,
    view_height: int,
    x: u32,
    n: nat,
) -> Option<WallSlice> {
    let hit = dda.crossing(n);
    if hit.toi > FAR_CLIP {
        None
    } else {
        match level.spec_resolve(hit) {
            None => None,
            Some(next) => Some(
                spec_slice(hit, sector_before(level, start, dda, n), next, view_height, x),
            ),
        }
    }
}

/// The wall of column `x`, for a ray that starts in the sector `start` and
/// crosses the grid as `dda` says: what the walk shows at the first crossing
/// at which it ends.
pub open spec fn spec_wall(level: LevelMap, start: Sector, dda: DDA, view_height: int, x: u32)
    -> Option<WallSlice> {
    if exists|n: nat| ends_at(level, start, dda, n) {
        spec_shown(
            level,
            start,
            dda,
            view_height,
            x,
            choose|n: nat| ends_at(level, start, dda, n),
        )
    } else {
        None
    }
}

/// A walk ends at one crossing only.
pub proof fn lemma_ends_once(level: LevelMap, start: Sector, dda: DDA, a: nat, b: nat)
    requires
        ends_at(level, start, dda, a),
        ends_at(level, start, dda, b),
    ensures
        a == b,
{
}

/// The wall of a column whose walk ends at crossing number `n` is what the
/// walk shows there.
pub proof fn lemma_wall_at(
    level: LevelMap,
    start: Sector,
    dda: DDA,
    view_height: int,
    x: u32,
    n: nat,
)
    requires
        ends_at(level, start, dda, n),
    ensures
        spec_wall(level, start, dda, view_height, x) == spec_shown(
            level,
            start,
            dda,
            view_height,
            x,
            n,
        ),
{
    let c = choose|n: nat| ends_at(level, start, dda, n);
    lemma_ends_once(level, start, dda, c, n);
}

/// How much farther a distance may grow before it is beyond the far clip.
pub open spec fn room(toi: u64) -> int {
    if toi > FAR_CLIP {
        0
    } else {
        FAR_CLIP + 1 - toi
    }
}

/// How much farther the two steppers of a walk may go, taken together,
/// before both are beyond the far clip.
pub open spec fn slack(dda: DDA) -> int {
    room(dda.h.toi) + room(dda.v.toi)
}

/// A step from a crossing within the far clip uses up some of the slack.
pub proof fn lemma_step_uses_slack(dda: DDA)
    requires
        dda.live(),
        dda.hit().toi <= FAR_CLIP,
    ensures
        0 <= slack(dda.advanced()) < slack(dda),
{
}

/// Walks the crossings of `ray` from the sector `start`, nearest first, and
/// returns the wall that column `x` shows: the slice of the first crossing
/// beyond which the floor is higher than on this side. Floors that are level
/// or lower are walked across. The walk ends without a wall where a crossing
/// lies beyond the far clip or leaves the level.
pub fn cast_column(level: &LevelMap, start: Sector, ray: Ray2f, view_height: u32, x: u32) -> (wall:
    Option<WallSlice>)
    requires
        level.wf(),
        ray.fits(),
    ensures
        wall == spec_wall(
            *level,
            start,
            spec_cast(ray, level.grid_size),
            view_height as int,
            x,
        ),
{
    let mut dda = ray.cast(level.grid_size);
    let ghost dda0 = dda;
    let ghost mut n: nat = 0;
    let mut prev = start;
    loop
        invariant
            level.wf(),
            dda0 == spec_cast(ray, level.grid_size),
            dda == dda0.after(n),
            dda.live(),
            prev == sector_before(*level, start, dda0, n),
            forall|m: nat| m < n ==> !#[trigger] halts_at(*level, start, dda0, m),
        decreases slack(dda),
    {
        let ghost before = dda;
        let hit = match dda.next() {
            Some(hit) => hit,
            None => { return None; },
        };
        proof {
            lemma_after_sum(dda0, n, 1);
            assert(before.after(1) == before.advanced().after(0));
        }
        if hit.toi > FAR_CLIP {
            proof {
                lemma_wall_at(*level, start, dda0, view_height as int, x, n);
            }
            return None;
        }
        let next = match level.resolve(&hit) {
            Some(next) => next,
            None => {
                proof {
                    lemma_wall_at(*level, start, dda0, view_height as int, x, n);
                }
                return None;
            },
        };
        if next.floor_height <= prev.floor_height {
            proof {
                lemma_step_uses_slack(before);
                n = n + 1;
            }
            prev = next;
            continue ;
        }
        proof {
            lemma_wall_at(*level, start, dda0, view_height as int, x, n);
        }
        let rise: u16 = (next.floor_height as i32 - prev.floor_height as i32) as u16;
        let h: i16 = wall_height(rise, view_height, hit.toi);
        return Some(WallSlice { texid: next.texid, camera_z: hit.toi, high_y: h, low_y: -h, x });
    }
}

/// The wall of column `x` of the camera's view, if the column shows one. A
/// camera that stands outside the level sees nothing.
pub open spec fn spec_column(camera: Camera3D, level: LevelMap, x: int) -> Option<WallSlice> {
    match level.spec_sector_to_draw(camera.pos.spec_truncate()) {
        None => None,
        Some(start) => spec_wall(
            level,
            start,
            spec_cast(camera.spec_scatter_rays().spec_ray(x), level.grid_size),
            camera.dim.y as int,
            x as u32,
        ),
    }
}

/// The walls of the first `n` columns of the camera's view, from left to
/// right.
pub open spec fn spec_frame(camera: Camera3D, level: LevelMap, n: nat) -> Seq<WallSlice>
    decreases n,
{
    if n == 0 {
        Seq::empty()
    } else {
        let before = spec_frame(camera, level, (n - 1) as nat);
        match spec_column(camera, level, n - 1) {
            Some(wall) => before.push(wall),
            None => before,
        }
    }
}

impl DisplayList {
    /// An empty list for a view of the given size, on a sky-blue ground.
    pub fn new(resolution: Vec2u) -> (list: DisplayList)
        ensures
            list.bg == (Rgb { r: 0x3f, g: 0x7f, b: 0xff }),
            list.walls@ == Seq::<WallSlice>::empty(),
    {
        DisplayList {
            bg: Rgb { r: 0x3f, g: 0x7f, b: 0xff },
            walls: Vec::with_capacity(resolution.x as usize),
        }
    }
}

impl Draw {
    /// Adds to `manifest` the walls that the camera sees in the level: for
    /// each column of the view, from left to right, the wall of that column
    /// if it shows one.
    pub fn run(&mut self, manifest: &mut DisplayList, camera: &Camera3D, level: &LevelMap)
        requires
            camera.wf(),
            level.wf(),
        ensures
            *final(self) == *old(self),
            final(manifest).bg == old(manifest).bg,
            final(manifest).walls@ == old(manifest).walls@ + spec_frame(
                *camera,
                *level,
                camera.dim.x as nat,
            ),
    {
        let player_xy = camera.pos.truncate();
        let mut rays = camera.scatter_rays();
        let ghost rays0 = rays;
        loop
            invariant
                camera.wf(),
                level.wf(),
                rays0 == camera.spec_scatter_rays(),
                player_xy == camera.pos.spec_truncate(),
                rays.wf(),
                rays.x <= rays.width,
                rays == (XRayIter { x: rays.x, ..rays0 }),
                manifest.bg == old(manifest).bg,
                manifest.walls@ == old(manifest).walls@ + spec_frame(
                    *camera,
                    *level,
                    rays.x as nat,
                ),
            ensures
                manifest.bg == old(manifest).bg,
                manifest.walls@ == old(manifest).walls@ + spec_frame(
                    *camera,
                    *level,
                    camera.dim.x as nat,
                ),
            decreases rays.width - rays.x,
        {
            let (x, ray) = match rays.next() {
                Some(column) => column,
                None => { break ; },
            };
            assert(ray == rays0.spec_ray(x as int));
            let wall = match level.sector_to_draw(player_xy) {
                Some(start) => cast_column(level, start, ray, camera.dim.y, x),
                None => None,
            };
            assert(wall == spec_column(*camera, *level, x as int));
            match wall {
                Some(slice) => {
                    manifest.walls.push(slice);
                    assert(manifest.walls@ =~= old(manifest).walls@ + spec_frame(
                        *camera,
                        *level,
                        (x + 1) as nat,
                    ));
                },
                None => {},
            }
        }
    }
}

/// A column whose first crossing lies beyond the far clip shows no wall.
pub proof fn lemma_far_clip(level: LevelMap, start: Sector, dda: DDA, view_height: int, x: u32)
    requires
        dda.crossing(0).toi > FAR_CLIP,
    ensures
        spec_wall(level, start, dda, view_height, x) is None,
{
    assert(ends_at(level, start, dda, 0));
    lemma_wall_at(level, start, dda, view_height, x, 0);
}

/// A wall is shown only where the floor rises: the sector beyond the
/// crossing is strictly higher than the sector on this side, every crossing
/// before it led to a floor that was level or lower, and the slice carries
/// the texture of the higher sector and the distance of the crossing.
pub proof fn lemma_rising_edge(
    level: LevelMap,
    start: Sector,
    dda: DDA,
    view_height: int,
    x: u32,
    n: nat,
)
    requires
        ends_at(level, start, dda, n),
        spec_wall(level, start, dda, view_height, x) is Some,
    ensures
        level.spec_resolve(dda.crossing(n)) is Some,
        level.spec_resolve(dda.crossing(n))->0.floor_height > sector_before(
            level,
            start,
            dda,
            n,
        ).floor_height,
        forall|m: nat|
            m < n ==> (#[trigger] level.spec_resolve(dda.crossing(m))) is Some
                && level.spec_resolve(dda.crossing(m))->0.floor_height <= sector_before(
                level,
                start,
                dda,
                m,
            ).floor_height,
        spec_wall(level, start, dda, view_height, x)->0.texid == level.spec_resolve(
            dda.crossing(n),
        )->0.texid,
        spec_wall(level, start, dda, view_height, x)->0.camera_z == dda.crossing(n).toi,
        spec_wall(level, start, dda, view_height, x)->0.x == x,
{
    lemma_wall_at(level, start, dda, view_height, x, n);
    assert forall|m: nat| m < n implies (#[trigger] level.spec_resolve(dda.crossing(m))) is Some
        && level.spec_resolve(dda.crossing(m))->0.floor_height <= sector_before(
        level,
        start,
        dda,
        m,
    ).floor_height by {
        assert(!halts_at(level, start, dda, m));
    }
}

/// No column shows more than one wall, and the walls of a frame stand in
/// the order of their columns: each wall of the first `n` columns is in a
/// column below `n`, and a wall that comes later in the frame is in a column
/// further to the right.
pub proof fn lemma_frame_columns(camera: Camera3D, level: LevelMap, n: nat)
    requires
        n <= u32::MAX,
    ensures
        spec_frame(camera, level, n).len() <= n,
        forall|i: int|
            0 <= i < spec_frame(camera, level, n).len() ==> (#[trigger] spec_frame(
                camera,
                level,
                n,
            )[i]).x < n,
        forall|i: int, j: int|
            0 <= i < j < spec_frame(camera, level, n).len() ==> (#[trigger] spec_frame(
                camera,
                level,
                n,
            )[i]).x < (#[trigger] spec_frame(camera, level, n)[j]).x,
    decreases n,
{
    if n > 0 {
        lemma_frame_columns(camera, level, (n - 1) as nat);
        let before = spec_frame(camera, level, (n - 1) as nat);
        match spec_column(camera, level, n - 1) {
            Some(wall) => {
                lemma_column_number(camera, level, n - 1);
                assert(wall.x == n - 1);
                assert(spec_frame(camera, level, n) == before.push(wall));
            },
            None => {},
        }
    }
}

/// No wall of a frame lies beyond the far clip, and each is as far below the
/// middle of the screen as above it.
pub proof fn lemma_frame_walls(camera: Camera3D, level: LevelMap, n: nat)
    ensures
        forall|i: int|
            0 <= i < spec_frame(camera, level, n).len() ==> {
                let wall = #[trigger] spec_frame(camera, level, n)[i];
                &&& wall.camera_z <= FAR_CLIP
                &&& 0 <= wall.high_y
                &&& wall.low_y == -wall.high_y
            },
    decreases n,
{
    if n > 0 {
        lemma_frame_walls(camera, level, (n - 1) as nat);
        let before = spec_frame(camera, level, (n - 1) as nat);
        match spec_column(camera, level, n - 1) {
            Some(wall) => {
                lemma_column_wall(camera, level, n - 1);
                assert(spec_frame(camera, level, n) == before.push(wall));
            },
            None => {},
        }
    }
}

/// The wall of a column lies within the far clip, rises by more than
/// nothing, and is as far below the middle of the screen as above it.
pub proof fn lemma_column_wall(camera: Camera3D, level: LevelMap, x: int)
    ensures
        spec_column(camera, level, x) is Some ==> {
            let wall = spec_column(camera, level, x)->0;
            &&& wall.camera_z <= FAR_CLIP
            &&& 0 <= wall.high_y
            &&& wall.low_y == -wall.high_y
        },
{
    if spec_column(camera, level, x) is Some {
        let start = level.spec_sector_to_draw(camera.pos.spec_truncate())->0;
        let dda = spec_cast(camera.spec_scatter_rays().spec_ray(x), level.grid_size);
        let n = choose|n: nat| ends_at(level, start, dda, n);
        let hit = dda.crossing(n);
        let next = level.spec_resolve(hit)->0;
        let current = sector_before(level, start, dda, n);
        lemma_wall_height_falls(
            next.floor_height - current.floor_height,
            camera.dim.y as int,
            hit.toi as int,
            hit.toi as int,
        );
    }
}

/// The wall of a column carries the number of that column.
pub proof fn lemma_column_number(camera: Camera3D, level: LevelMap, x: int)
    requires
        0 <= x <= u32::MAX,
    ensures
        spec_column(camera, level, x) is Some ==> spec_column(camera, level, x)->0.x == x,
{
}

/// A rectangle on the screen: its top left corner, its width and its
/// height.
#[derive(Clone, Copy, Debug, PartialEq, Eq, Structural)]
pub struct ScreenRect {
    pub x: i32,
    pub y: i32,
    pub w: u32,
    pub h: u32,
}

/// A rectangle to be outlined in a colour.
#[derive(Clone, Copy, Debug, PartialEq, Eq, Structural)]
pub struct Stroke {
    pub rect: ScreenRect,
    pub color: Rgb,
}

/// A frame as the presenter puts it on the screen: the ground to clear the
/// screen with, and then the strokes, in this order.
#[derive(Debug)]
pub struct Frame {
    pub bg: Rgb,
    pub strokes: Vec<Stroke>,
}

/// The colour of a texture, for the textures that have one.
pub open spec fn spec_texture_color(id: TextureID) -> Option<Rgb> {
    if id.0 == 0 {
        Some(Rgb { r: 0x00, g: 0x00, b: 0x00 })
    } else if id.0 == 1 {
        Some(Rgb { r: 0x7f, g: 0x3f, b: 0x1f })
    } else if id.0 == 2 {
        Some(Rgb { r: 0x00, g: 0xbf, b: 0x1f })
    } else if id.0 == 3 {
        Some(Rgb { r: 0xbf, g: 0xbf, b: 0x1f })
    } else if id.0 == 4 {
        Some(Rgb { r: 0xbf, g: 0xbf, b: 0xbf })
    } else {
        None
    }
}

/// The colour of a texture, or `None` for a texture that has none.
pub fn texture_color(id: TextureID) -> (color: Option<Rgb>)
    ensures
        color == spec_texture_color(id),
{
    if id.0 == 0 {
        Some(Rgb { r: 0x00, g: 0x00, b: 0x00 })
    } else if id.0 == 1 {
        Some(Rgb { r: 0x7f, g: 0x3f, b: 0x1f })
    } else if id.0 == 2 {
        Some(Rgb { r: 0x00, g: 0xbf, b: 0x1f })
    } else if id.0 == 3 {
        Some(Rgb { r: 0xbf, g: 0xbf, b: 0x1f })
    } else if id.0 == 4 {
        Some(Rgb { r: 0xbf, g: 0xbf, b: 0xbf })
    } else {
        None
    }
}

impl WallSlice {
    /// The rectangle of the slice on a screen whose middle row is
    /// `camera_y`: one column wide, from `high_y` above the middle row down
    /// to `low_y` above it. Rows are counted downwards. There is none where
    /// the column or the top row is no `i32`.
    pub open spec fn spec_screen_rect(self, camera_y: int) -> Option<ScreenRect> {
        let top = camera_y - self.high_y;
        if self.x <= i32::MAX && i32::MIN <= top <= i32::MAX {
            Some(
                ScreenRect {
                    x: self.x as i32,
                    y: top as i32,
                    w: 1,
                    h: abs(self.high_y - self.low_y) as u32,
                },
            )
        } else {
            None
        }
    }

    /// The rectangle of the slice on a screen whose middle row is
    /// `camera_y`.
    pub fn screen_rect(&self, camera_y: i32) -> (rect: Option<ScreenRect>)
        ensures
            rect == self.spec_screen_rect(camera_y as int),
    {
        let top: i64 = camera_y as i64 - self.high_y as i64;
        if self.x > 0x7fff_ffff || top < -0x8000_0000 || top > 0x7fff_ffff {
            return None;
        }
        let span: i32 = self.high_y as i32 - self.low_y as i32;
        let h: u32 = if span < 0 {
            (-span) as u32
        } else {
            span as u32
        };
        Some(ScreenRect { x: self.x as i32, y: top as i32, w: 1, h })
    }

    /// The stroke that puts the slice on the screen: its rectangle in the
    /// colour of its texture. There is none where the texture has no colour
    /// or the slice has no rectangle.
    pub open spec fn spec_stroke(self, camera_y: int) -> Option<Stroke> {
        match (spec_texture_color(self.texid), self.spec_screen_rect(camera_y)) {
            (Some(color), Some(rect)) => Some(Stroke { rect, color }),
            _ => None,
        }
    }
}

/// The strokes that put a list of walls on the screen, in the order of the
/// walls. A wall without a stroke is passed over.
pub open spec fn spec_strokes(walls: Seq<WallSlice>, camera_y: int) -> Seq<Stroke>
    decreases walls.len(),
{
    if walls.len() == 0 {
        Seq::empty()
    } else {
        let before = spec_strokes(walls.drop_last(), camera_y);
        match walls.last().spec_stroke(camera_y) {
            Some(stroke) => before.push(stroke),
            None => before,
        }
    }
}

impl DisplayList {
    /// Turns the list into the frame that shows it on a screen of the given
    /// size, whose middle row is half its height, and empties the list for
    /// the next frame.
    pub fn present(&mut self, resolution: Vec2u) -> (frame: Frame)
        ensures
            frame.bg == old(self).bg,
            frame.strokes@ == spec_strokes(old(self).walls@, (resolution.y / 2) as int),
            final(self).bg == old(self).bg,
            final(self).walls@ == Seq::<WallSlice>::empty(),
    {
        let camera_y: i32 = (resolution.y / 2) as i32;
        let mut strokes: Vec<Stroke> = Vec::new();
        let mut i: usize = 0;
        while i < self.walls.len()
            invariant
                i <= self.walls.len(),
                self.walls@ == old(self).walls@,
                self.bg == old(self).bg,
                camera_y == resolution.y / 2,
                strokes@ == spec_strokes(self.walls@.take(i as int), camera_y as int),
            decreases self.walls.len() - i,
        {
            let wall = self.walls[i];
            proof {
                assert(self.walls@.take(i + 1).drop_last() =~= self.walls@.take(i as int));
            }
            match texture_color(wall.texid) {
                Some(color) => {
                    match wall.screen_rect(camera_y) {
                        Some(rect) => {
                            strokes.push(Stroke { rect, color });
                        },
                        None => {},
                    }
                },
                None => {},
            }
            i = i + 1;
        }
        proof {
            assert(self.walls@.take(i as int) =~= self.walls@);
        }
        self.walls.clear();
        Frame { bg: self.bg, strokes }
    }
}

/// The size at which a window of the given size is drawn, chosen by the
/// shape of the window: 400 by 225 for 16 to 9, 720 by 450 for 8 to 5 and
/// 320 by 240 for 4 to 3. A window of another shape, or without a width,
/// has none.
pub open spec fn spec_desired_resolution(width: int, height: int) -> Option<Vec2u> {
    if width <= 0 {
        None
    } else if 9 * width == 16 * height {
        Some(Vec2u { x: 400, y: 225 })
    } else if 5 * width == 8 * height {
        Some(Vec2u { x: 720, y: 450 })
    } else if 3 * width == 4 * height {
        Some(Vec2u { x: 320, y: 240 })
    } else {
        None
    }
}

/// A number that divides two numbers divides every sum of multiples of
/// them.
proof fn lemma_divides_combination(d: int, a: int, b: int, x: int, y: int)
    requires
        0 <= d,
        divides(d, a),
        divides(d, b),
    ensures
        divides(d, x * a + y * b),
{
    if d != 0 {
        lemma_fundamental_div_mod(a, d);
        lemma_fundamental_div_mod(b, d);
        let ka = a / d;
        let kb = b / d;
        assert(x * a + y * b == (x * ka + y * kb) * d) by (nonlinear_arith)
            requires
                a == d * ka,
                b == d * kb,
        ;
        lemma_mod_multiples_basic(x * ka + y * kb, d);
    } else {
        assert(x * a + y * b == 0) by (nonlinear_arith)
            requires
                a == 0,
                b == 0,
        ;
    }
}

/// Two numbers stand in the ratio `p` to `q`, for `p` and `q` without a
/// common divisor, exactly when dividing them by their greatest common
/// divisor leaves `p` and `q`.
proof fn lemma_ratio(w: int, h: int, g: int, p: int, q: int, x: int, y: int)
    requires
        0 <= w,
        0 <= h,
        0 <= g,
        is_gcd(w, h, g),
        0 < p,
        0 < q,
        x * p + y * q == 1,
    ensures
        (g > 0 && w / g == p && h / g == q) <==> (w > 0 && q * w == p * h),
{
    if g > 0 && w / g == p && h / g == q {
        lemma_fundamental_div_mod(w, g);
        lemma_fundamental_div_mod(h, g);
        assert(w > 0 && q * w == p * h) by (nonlinear_arith)
            requires
                w == g * p,
                h == g * q,
                g > 0,
                p > 0,
        ;
    }
    if w > 0 && q * w == p * h {
        // w = p * k and h = q * k for k = x * w + y * h
        let k = x * w + y * h;
        assert(w == p * k && h == q * k) by (nonlinear_arith)
            requires
                k == x * w + y * h,
                q * w == p * h,
                x * p + y * q == 1,
        ;
        assert(k > 0) by (nonlinear_arith)
            requires
                w == p * k,
                w > 0,
                p > 0,
        ;
        lemma_divides_combination(g, w, h, x, y);
        assert(divides(g, k));
        lemma_mod_multiples_basic(p, k);
        lemma_mod_multiples_basic(q, k);
        assert(divides(k, w));
        assert(divides(k, h));
        assert(divides(k, g));
        assert(g != 0);
        lemma_fundamental_div_mod(g, k);
        lemma_fundamental_div_mod(k, g);
        let m = g / k;
        let n = k / g;
        assert(g == k) by (nonlinear_arith)
            requires
                g == k * m,
                k == g * n,
                g > 0,
                k > 0,
        ;
        lemma_div_exact(p, k);
        lemma_div_exact(q, k);
    }
}

/// The size at which a window of the given size is drawn, or `None` for a
/// window of a shape that has none.
pub fn desired_resolution(width: u32, height: u32) -> (res: Option<Vec2u>)
    ensures
        res == spec_desired_resolution(width as int, height as int),
{
    let divisor: u32 = gcd(width, height);
    proof {
        lemma_ratio(width as int, height as int, divisor as int, 16, 9, 4, -7);
        lemma_ratio(width as int, height as int, divisor as int, 8, 5, 2, -3);
        lemma_ratio(width as int, height as int, divisor as int, 4, 3, 1, -1);
    }
    if divisor == 0 {
        return None;
    }
    let across: u32 = width / divisor;
    let down: u32 = height / divisor;
    if across == 16 && down == 9 {
        Some(Vec2u { x: 400, y: 225 })
    } else if across == 8 && down == 5 {
        Some(Vec2u { x: 720, y: 450 })
    } else if across == 4 && down == 3 {
        Some(Vec2u { x: 320, y: 240 })
    } else {
        None
    }
}

/// A flat picture that stands in the world and faces the eye.
#[derive(Clone, Copy, Debug, PartialEq, Eq, Structural)]
pub struct Billboard {
    /// Where on the screen it goes: its left edge, and how far its lower
    /// edge lies above the middle row.
    pub dst_pos: Vec2i,
    /// Where in its texture the picture is found.
    pub src_pos: Vec2i,
    pub size: Vec2u,
    /// Its distance from the eye.
    pub depth: i64,
    pub texid: TextureID,
}

impl Billboard {
    /// The rectangle that `dst_pos` and `size` describe.
    pub fn dst_rect(self) -> (rect: ScreenRect)
        ensures
            rect == (ScreenRect {
                x: self.dst_pos.x,
                y: self.dst_pos.y,
                w: self.size.x,
                h: self.size.y,
            }),
    {
        ScreenRect { x: self.dst_pos.x, y: self.dst_pos.y, w: self.size.x, h: self.size.y }
    }

    /// The rectangle of the billboard on a screen whose middle row is
    /// `camera_y`: its top row is the picture's height above its lower edge.
    /// There is none where that row is no `i32`.
    pub open spec fn spec_screen_rect(self, camera_y: int) -> Option<ScreenRect> {
        let top = camera_y - (self.dst_pos.y + self.size.y);
        if i32::MIN <= top <= i32::MAX {
            Some(ScreenRect { x: self.dst_pos.x, y: top as i32, w: self.size.x, h: self.size.y })
        } else {
            None
        }
    }

    /// The rectangle of the billboard on a screen whose middle row is
    /// `camera_y`.
    pub fn screen_rect(self, camera_y: i32) -> (rect: Option<ScreenRect>)
        ensures
            rect == self.spec_screen_rect(camera_y as int),
    {
        let top: i64 = camera_y as i64 - (self.dst_pos.y as i64 + self.size.y as i64);
        if top < -0x8000_0000 || top > 0x7fff_ffff {
            None
        } else {
            Some(ScreenRect { x: self.dst_pos.x, y: top as i32, w: self.size.x, h: self.size.y })
        }
    }
}

} // verus!
