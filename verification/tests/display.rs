use rayhem::camera::Camera3D;
use rayhem::component::TextureID;
use rayhem::display::{
    cast_column, desired_resolution, texture_color, wall_height, Billboard, DisplayList, Draw,
    Rgb, ScreenRect, Stroke, WallSlice, FAR_CLIP,
};
use rayhem::geom::{Ray2f, Vec2f, Vec2i, Vec2u, Vec3f};
use rayhem::map::{Chunk, LevelMap, Sector};

const CELL: i64 = 196608;

fn fx(v: f32) -> i64 {
    (v * 65536.0) as i64
}

fn level_with_row(heights: &[i16], grid_size: i64) -> LevelMap {
    // the sectors of row 0, from column 0 on; the texture of column x is 10 + x
    let mut sectors = [[Sector::default(); 8]; 8];
    for (x, height) in heights.iter().enumerate() {
        sectors[0][x] = Sector { floor_height: *height, texid: TextureID(10 + x as u8) };
    }
    LevelMap { chunks: vec![Chunk { sectors }], grid_size }
}

fn east_from_first_cell(level: &LevelMap) -> Option<WallSlice> {
    let src = Vec2f::new(level.grid_size / 2, level.grid_size / 2);
    let start = level.sector_to_draw(src).unwrap();
    cast_column(level, start, Ray2f::new(src, Vec2f::new(65536, 0)), 240, 3)
}

fn camera(x: f32, y: f32, heading: Vec2f, width: u32, height: u32) -> Camera3D {
    Camera3D { pos: Vec3f::new(fx(x), fx(y), fx(6.0)), dim: Vec2u::new(width, height), heading }
}

fn frame(camera: &Camera3D, level: &LevelMap) -> Vec<WallSlice> {
    let mut list = DisplayList::new(camera.dim);
    let mut pass = Draw { resolution: camera.dim };
    pass.run(&mut list, camera, level);
    list.walls
}

#[test]
fn wall_height_formula() {
    // one unit of height, three world units away, on a view 240 rows high
    assert_eq!(wall_height(1, 240, 196608), 10);
    assert_eq!(wall_height(3, 225, 163840), 33);
    assert_eq!(wall_height(2, 240, 491520), 8);
    assert_eq!(wall_height(0, 240, 5), 0);
    assert_eq!(wall_height(1, 0, 5), 0);
    assert_eq!(wall_height(1, 240, u64::MAX), 0);
}

#[test]
fn wall_height_is_held_to_the_range() {
    assert_eq!(wall_height(1, 240, 1), i16::MAX);
    assert_eq!(wall_height(1, 240, 0), i16::MAX);
    assert_eq!(wall_height(0, 0, 0), i16::MAX);
    assert_eq!(wall_height(u16::MAX, u32::MAX, 1), i16::MAX);
    assert_eq!(wall_height(1, 4, 1), i16::MAX);
    assert_eq!(wall_height(1, 4, 2), 16384);
}

#[test]
fn first_higher_floor_is_the_wall() {
    // from a sector of height 0, the sectors beyond have the heights 0, 0, 2, 5
    let level = level_with_row(&[0, 0, 0, 2, 5], CELL);
    let wall = east_from_first_cell(&level);
    assert_eq!(
        wall,
        Some(WallSlice {
            texid: TextureID(13),
            camera_z: 491520,
            high_y: 8,
            low_y: -8,
            x: 3,
        })
    );
}

#[test]
fn one_wall_for_a_column_of_rising_floors() {
    let level = level_with_row(&[0, 0, 0, 2, 5], CELL);
    let view = Camera3D {
        pos: Vec3f::new(CELL / 2, CELL / 2, 0),
        dim: Vec2u::new(1, 240),
        heading: Vec2f::new(65536, 0),
    };
    let walls = frame(&view, &level);
    assert_eq!(walls.len(), 1);
    assert_eq!(walls[0].texid, TextureID(13));
    assert_eq!(walls[0].x, 0);
}

#[test]
fn level_and_falling_floors_are_walked_across() {
    // down from 3 to 1, then up to 2: the wall rises by one
    let level = level_with_row(&[3, 1, 2, 0, 0, 1, 9], CELL);
    assert_eq!(
        east_from_first_cell(&level),
        Some(WallSlice { texid: TextureID(12), camera_z: 294912, high_y: 6, low_y: -6, x: 3 })
    );
    // down and level all the way: the ray leaves the level without a wall
    let level = level_with_row(&[3, 1, 1, 0, 0, 0, 0, 0], CELL);
    assert_eq!(east_from_first_cell(&level), None);
}

#[test]
fn wall_height_counts_from_the_floor_on_this_side() {
    let level = level_with_row(&[-4, -4, 3], CELL);
    let wall = east_from_first_cell(&level).unwrap();
    assert_eq!(wall.camera_z, 294912);
    // a rise of seven, four and a half world units away
    assert_eq!(wall.high_y, 46);
    assert_eq!(wall.low_y, -46);
}

#[test]
fn first_crossing_beyond_the_far_clip_shows_nothing() {
    let cell = 0x1000_0000;
    let level = level_with_row(&[0, 3], cell);
    let start = Sector::default();
    let east = Vec2f::new(65536, 0);
    // the wall is one step further away than the far clip
    let src = Vec2f::new(cell - FAR_CLIP as i64 - 1, 1);
    assert_eq!(cast_column(&level, start, Ray2f::new(src, east), 240, 0), None);
    // the wall is at the far clip
    let src = Vec2f::new(cell - FAR_CLIP as i64, 1);
    assert_eq!(
        cast_column(&level, start, Ray2f::new(src, east), 240, 0),
        Some(WallSlice { texid: TextureID(11), camera_z: FAR_CLIP, high_y: 0, low_y: 0, x: 0 })
    );
    // the first crossing is 4096 world units away
    let src = Vec2f::new(1, 1);
    assert_eq!(cast_column(&level, start, Ray2f::new(src, east), 240, 0), None);
}

#[test]
fn far_clip_is_a_thousand_world_units() {
    assert_eq!(FAR_CLIP, 1000 * 65536);
}

#[test]
fn ray_that_leaves_the_level_shows_nothing() {
    let level = level_with_row(&[0, 0, 0, 0, 0, 0, 0, 0], CELL);
    assert_eq!(east_from_first_cell(&level), None);
    let src = Vec2f::new(CELL / 2, CELL / 2);
    let west = Ray2f::new(src, Vec2f::new(-65536, 0));
    assert_eq!(cast_column(&level, Sector::default(), west, 240, 0), None);
    let nowhere = Ray2f::new(src, Vec2f::new(0, 0));
    assert_eq!(cast_column(&level, Sector::default(), nowhere, 240, 0), None);
}

#[test]
fn frame_of_the_built_in_level() {
    let level = LevelMap::new();
    let view = camera(13.0, 5.0, Vec2f::new(0, 65536), 320, 240);
    assert!(view.is_wf());
    let walls = frame(&view, &level);
    assert_eq!(walls.len(), 320);
    assert_eq!(
        walls[0],
        WallSlice { texid: TextureID(1), camera_z: 1181476, high_y: 1, low_y: -1, x: 0 }
    );
    assert_eq!(
        walls[100],
        WallSlice { texid: TextureID(2), camera_z: 472868, high_y: 4, low_y: -4, x: 100 }
    );
    assert_eq!(
        walls[160],
        WallSlice { texid: TextureID(1), camera_z: 1048576, high_y: 1, low_y: -1, x: 160 }
    );
    assert_eq!(
        walls[319],
        WallSlice { texid: TextureID(3), camera_z: 314449, high_y: 6, low_y: -6, x: 319 }
    );
    let distances: u64 = walls.iter().map(|w| w.camera_z).sum();
    assert_eq!(distances, 212903184);
    let heights: i64 = walls.iter().map(|w| w.high_y as i64).sum();
    assert_eq!(heights, 1010);
    for id in 0..5u8 {
        let n = walls.iter().filter(|w| w.texid == TextureID(id)).count();
        assert_eq!(n, [0, 115, 114, 91, 0][id as usize]);
    }
}

#[test]
fn small_frame_of_the_built_in_level() {
    let level = LevelMap::new();
    let view = camera(12.0, 12.0, Vec2f::new(65536, 0), 4, 4);
    let walls = frame(&view, &level);
    let want = [(1u8, 659442u64), (1, 607974), (1, 589824), (3, 202658)];
    assert_eq!(walls.len(), 4);
    for (x, (texid, distance)) in want.iter().enumerate() {
        assert_eq!(
            walls[x],
            WallSlice {
                texid: TextureID(*texid),
                camera_z: *distance,
                high_y: 0,
                low_y: 0,
                x: x as u32,
            }
        );
    }
}

#[test]
fn columns_of_a_frame_are_in_order_and_in_range() {
    let level = LevelMap::new();
    let open = level_with_row(&[0, 0, 0, 7], CELL);
    let headings = [
        Vec2f::new(65536, 0),
        Vec2f::new(0, 65536),
        Vec2f::new(-65536, 0),
        Vec2f::new(0, -65536),
        Vec2f::new(46341, 46341),
        Vec2f::new(-52428, 39321),
    ];
    for heading in headings.iter() {
        for (width, height) in [(0u32, 1u32), (1, 1), (7, 3), (64, 48), (320, 240)] {
            for lvl in [&level, &open] {
                let view = camera(4.0, 4.5, *heading, width, height);
                assert!(view.is_wf());
                let walls = frame(&view, lvl);
                assert!(walls.len() <= width as usize);
                for wall in walls.iter() {
                    assert!(wall.x < width);
                    assert_eq!(wall.low_y, -wall.high_y);
                }
                for pair in walls.windows(2) {
                    assert!(pair[0].x < pair[1].x);
                }
            }
        }
    }
}

#[test]
fn some_columns_of_a_frame_may_show_nothing() {
    // one pillar in an open level: only the rays that meet it show a wall
    let mut sectors = [[Sector::default(); 8]; 8];
    sectors[4][6] = Sector { floor_height: 2, texid: TextureID(9) };
    let level = LevelMap { chunks: vec![Chunk { sectors }], grid_size: CELL };
    let view = camera(1.5, 13.5, Vec2f::new(65536, 0), 64, 48);
    let walls = frame(&view, &level);
    assert!(!walls.is_empty());
    assert!(walls.len() < 64);
    for wall in walls.iter() {
        assert_eq!(wall.texid, TextureID(9));
    }
    let columns: Vec<u32> = walls.iter().map(|w| w.x).collect();
    let first = columns[0];
    let want: Vec<u32> = (first..first + columns.len() as u32).collect();
    assert_eq!(columns, want);
}

#[test]
fn camera_outside_the_level_sees_nothing() {
    let level = LevelMap::new();
    let view = camera(-1.0, 5.0, Vec2f::new(65536, 0), 64, 48);
    assert_eq!(frame(&view, &level), vec![]);
    let view = camera(12.0, 24.0, Vec2f::new(0, -65536), 64, 48);
    assert_eq!(frame(&view, &level), vec![]);
    let empty = LevelMap { chunks: vec![], grid_size: CELL };
    let view = camera(12.0, 12.0, Vec2f::new(0, -65536), 64, 48);
    assert_eq!(frame(&view, &empty), vec![]);
}

#[test]
fn draw_adds_to_what_the_list_holds() {
    let level = LevelMap::new();
    let view = camera(12.0, 12.0, Vec2f::new(65536, 0), 4, 4);
    let mut list = DisplayList::new(view.dim);
    assert_eq!(list.bg, Rgb { r: 0x3f, g: 0x7f, b: 0xff });
    assert!(list.walls.is_empty());
    let kept = WallSlice { texid: TextureID(77), camera_z: 1, high_y: 2, low_y: -2, x: 3 };
    list.walls.push(kept);
    let mut pass = Draw { resolution: view.dim };
    pass.run(&mut list, &view, &level);
    assert_eq!(list.walls.len(), 5);
    assert_eq!(list.walls[0], kept);
    assert_eq!(list.walls[1].x, 0);
    assert_eq!(list.walls[4].x, 3);
    assert_eq!(list.bg, Rgb { r: 0x3f, g: 0x7f, b: 0xff });
    assert_eq!(pass.resolution, view.dim);
}

#[test]
fn textures_and_their_colours() {
    assert_eq!(texture_color(TextureID(0)), Some(Rgb { r: 0x00, g: 0x00, b: 0x00 }));
    assert_eq!(texture_color(TextureID(1)), Some(Rgb { r: 0x7f, g: 0x3f, b: 0x1f }));
    assert_eq!(texture_color(TextureID(2)), Some(Rgb { r: 0x00, g: 0xbf, b: 0x1f }));
    assert_eq!(texture_color(TextureID(3)), Some(Rgb { r: 0xbf, g: 0xbf, b: 0x1f }));
    assert_eq!(texture_color(TextureID(4)), Some(Rgb { r: 0xbf, g: 0xbf, b: 0xbf }));
    assert_eq!(texture_color(TextureID(5)), None);
    assert_eq!(texture_color(TextureID(255)), None);
}

#[test]
fn rectangle_of_a_wall() {
    let wall = WallSlice { texid: TextureID(1), camera_z: 9, high_y: 10, low_y: -10, x: 17 };
    assert_eq!(wall.screen_rect(120), Some(ScreenRect { x: 17, y: 110, w: 1, h: 20 }));
    let flat = WallSlice { texid: TextureID(1), camera_z: 9, high_y: 0, low_y: 0, x: 0 };
    assert_eq!(flat.screen_rect(0), Some(ScreenRect { x: 0, y: 0, w: 1, h: 0 }));
    let upside = WallSlice { texid: TextureID(1), camera_z: 9, high_y: -3, low_y: 4, x: 2 };
    assert_eq!(upside.screen_rect(100), Some(ScreenRect { x: 2, y: 103, w: 1, h: 7 }));
    let tall =
        WallSlice { texid: TextureID(1), camera_z: 9, high_y: i16::MAX, low_y: i16::MIN, x: 2 };
    assert_eq!(tall.screen_rect(0), Some(ScreenRect { x: 2, y: -32767, w: 1, h: 65535 }));
}

#[test]
fn wall_without_a_rectangle() {
    let wide = WallSlice { texid: TextureID(1), camera_z: 9, high_y: 1, low_y: -1, x: 0x8000_0000 };
    assert_eq!(wide.screen_rect(120), None);
    let edge = WallSlice { texid: TextureID(1), camera_z: 9, high_y: 1, low_y: -1, x: 0x7fff_ffff };
    assert_eq!(edge.screen_rect(120), Some(ScreenRect { x: i32::MAX, y: 119, w: 1, h: 2 }));
    let high = WallSlice { texid: TextureID(1), camera_z: 9, high_y: 1, low_y: -1, x: 0 };
    assert_eq!(high.screen_rect(i32::MIN), None);
    let low = WallSlice { texid: TextureID(1), camera_z: 9, high_y: -1, low_y: 1, x: 0 };
    assert_eq!(low.screen_rect(i32::MAX), None);
    assert_eq!(low.screen_rect(i32::MAX - 1), Some(ScreenRect { x: 0, y: i32::MAX, w: 1, h: 2 }));
}

#[test]
fn present_turns_walls_into_strokes_and_empties_the_list() {
    let mut list = DisplayList::new(Vec2u::new(320, 240));
    list.walls.push(WallSlice { texid: TextureID(1), camera_z: 5, high_y: 10, low_y: -10, x: 0 });
    // a texture without a colour
    list.walls.push(WallSlice { texid: TextureID(9), camera_z: 5, high_y: 10, low_y: -10, x: 1 });
    list.walls.push(WallSlice { texid: TextureID(3), camera_z: 5, high_y: 4, low_y: -4, x: 2 });
    // a column that is no i32
    let x = u32::MAX;
    list.walls.push(WallSlice { texid: TextureID(3), camera_z: 5, high_y: 4, low_y: -4, x });
    let frame = list.present(Vec2u::new(320, 241));
    assert_eq!(frame.bg, Rgb { r: 0x3f, g: 0x7f, b: 0xff });
    assert_eq!(
        frame.strokes,
        vec![
            Stroke {
                rect: ScreenRect { x: 0, y: 110, w: 1, h: 20 },
                color: Rgb { r: 0x7f, g: 0x3f, b: 0x1f },
            },
            Stroke {
                rect: ScreenRect { x: 2, y: 116, w: 1, h: 8 },
                color: Rgb { r: 0xbf, g: 0xbf, b: 0x1f },
            },
        ]
    );
    assert!(list.walls.is_empty());
    assert_eq!(list.bg, Rgb { r: 0x3f, g: 0x7f, b: 0xff });
    let again = list.present(Vec2u::new(320, 240));
    assert!(again.strokes.is_empty());
}

#[test]
fn resolution_by_the_shape_of_the_window() {
    assert_eq!(desired_resolution(1920, 1080), Some(Vec2u::new(400, 225)));
    assert_eq!(desired_resolution(16, 9), Some(Vec2u::new(400, 225)));
    assert_eq!(desired_resolution(1280, 800), Some(Vec2u::new(720, 450)));
    assert_eq!(desired_resolution(8, 5), Some(Vec2u::new(720, 450)));
    assert_eq!(desired_resolution(640, 480), Some(Vec2u::new(320, 240)));
    assert_eq!(desired_resolution(4, 3), Some(Vec2u::new(320, 240)));
    assert_eq!(desired_resolution(4_000_000_000, 3_000_000_000), Some(Vec2u::new(320, 240)));
}

#[test]
fn window_of_another_shape_has_no_resolution() {
    assert_eq!(desired_resolution(0, 0), None);
    assert_eq!(desired_resolution(0, 9), None);
    assert_eq!(desired_resolution(16, 0), None);
    assert_eq!(desired_resolution(1080, 1920), None);
    assert_eq!(desired_resolution(1024, 1024), None);
    assert_eq!(desired_resolution(1366, 768), None);
    assert_eq!(desired_resolution(641, 480), None);
    assert_eq!(desired_resolution(u32::MAX, u32::MAX), None);
}

#[test]
fn rectangles_of_a_billboard() {
    let board = Billboard {
        dst_pos: Vec2i::new(30, 5),
        src_pos: Vec2i::new(0, 0),
        size: Vec2u::new(16, 32),
        depth: 65536,
        texid: TextureID(2),
    };
    assert_eq!(board.dst_rect(), ScreenRect { x: 30, y: 5, w: 16, h: 32 });
    assert_eq!(board.screen_rect(120), Some(ScreenRect { x: 30, y: 83, w: 16, h: 32 }));
    let huge = Billboard { size: Vec2u::new(16, u32::MAX), ..board };
    assert_eq!(huge.screen_rect(120), None);
    assert_eq!(huge.screen_rect(i32::MAX), None);
    let low = Billboard { dst_pos: Vec2i::new(30, i32::MIN), size: Vec2u::new(16, 1), ..board };
    assert_eq!(low.screen_rect(1), None);
    assert_eq!(low.screen_rect(0), Some(ScreenRect { x: 30, y: i32::MAX, w: 16, h: 1 }));
}
