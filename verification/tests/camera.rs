use rayhem::camera::{Camera3D, MoveCamera, Pos3D, XRayIter};
use rayhem::geom::{Ray2f, Vec2f, Vec2u, Vec3f};
use rayhem::component::IsPlayer;
use rayhem::movement::{ApplyVelocity, MovePlayer, Turning, Vel3D, WALK_SPEED};

fn all_rays(camera: &Camera3D) -> Vec<(u32, Ray2f)> {
    let mut fan = camera.scatter_rays();
    let mut rays = Vec::new();
    while let Some(ray) = fan.next() {
        rays.push(ray);
    }
    assert_eq!(fan.next(), None);
    rays
}

#[test]
fn new_camera_faces_along_x() {
    let camera = Camera3D::new(Vec2u::new(320, 240));
    assert_eq!(camera.pos, Vec3f::new(0, 0, 0));
    assert_eq!(camera.dim, Vec2u::new(320, 240));
    assert_eq!(camera.heading, Vec2f::new(65536, 0));
    assert!(camera.is_wf());
}

#[test]
fn one_ray_for_each_column_from_left_to_right() {
    for width in [0u32, 1, 2, 7, 8, 320, 65536] {
        let camera = Camera3D {
            pos: Vec3f::new(851968, 327680, 393216),
            dim: Vec2u::new(width, 240),
            heading: Vec2f::new(0, 65536),
        };
        let rays = all_rays(&camera);
        assert_eq!(rays.len(), width as usize);
        for (i, (x, ray)) in rays.iter().enumerate() {
            assert_eq!(*x, i as u32);
            assert_eq!(ray.src, Vec2f::new(851968, 327680));
        }
        // facing north, the view runs from west to east
        for pair in rays.windows(2) {
            assert!(pair[0].1.dir.x <= pair[1].1.dir.x);
            assert_eq!(pair[0].1.dir.y, 65536);
        }
    }
}

#[test]
fn fan_of_eight_rays() {
    let camera = Camera3D {
        pos: Vec3f::new(851968, 327680, 393216),
        dim: Vec2u::new(8, 6),
        heading: Vec2f::new(0, 65536),
    };
    let fan = camera.scatter_rays();
    assert_eq!(
        fan,
        XRayIter {
            x: 0,
            width: 8,
            src: Vec2f::new(851968, 327680),
            dir: Vec2f::new(0, 65536),
            // half of eight sixths, to the east
            right: Vec2f::new(43690, 0),
        }
    );
    let dirs: Vec<i64> = all_rays(&camera).iter().map(|(_, ray)| ray.dir.x).collect();
    assert_eq!(dirs, vec![-43690, -32768, -21845, -10923, 0, 10922, 21845, 32767]);
}

#[test]
fn middle_column_of_an_even_view_looks_straight_ahead() {
    let camera = Camera3D {
        pos: Vec3f::new(0, 0, 0),
        dim: Vec2u::new(320, 240),
        heading: Vec2f::new(65536, 0),
    };
    let rays = all_rays(&camera);
    assert_eq!(rays[160].1.dir, Vec2f::new(65536, 0));
    // the left edge is a full half view to the left, the right edge one column short of it
    assert_eq!(rays[0].1.dir, Vec2f::new(65536, 43691));
    assert_eq!(rays[319].1.dir, Vec2f::new(65536, -43418));
}

#[test]
fn odd_view_has_no_column_straight_ahead() {
    let camera = Camera3D {
        pos: Vec3f::new(0, 0, 0),
        dim: Vec2u::new(3, 3),
        heading: Vec2f::new(65536, 0),
    };
    let dirs: Vec<Vec2f> = all_rays(&camera).iter().map(|(_, ray)| ray.dir).collect();
    assert_eq!(
        dirs,
        vec![Vec2f::new(65536, 32768), Vec2f::new(65536, 10923), Vec2f::new(65536, -10923)]
    );
}

#[test]
fn camera_limits() {
    let good = Camera3D {
        pos: Vec3f::new(0x100_0000_0000, -0x100_0000_0000, i64::MAX),
        dim: Vec2u::new(65536, 1),
        heading: Vec2f::new(131072, -131072),
    };
    assert!(good.is_wf());
    assert!(!Camera3D { pos: Vec3f::new(0x100_0000_0001, 0, 0), ..good }.is_wf());
    assert!(!Camera3D { pos: Vec3f::new(0, -0x100_0000_0001, 0), ..good }.is_wf());
    assert!(!Camera3D { dim: Vec2u::new(65537, 1), ..good }.is_wf());
    assert!(!Camera3D { dim: Vec2u::new(320, 0), ..good }.is_wf());
    assert!(!Camera3D { heading: Vec2f::new(131073, 0), ..good }.is_wf());
    assert!(!Camera3D { heading: Vec2f::new(0, -131073), ..good }.is_wf());
    // the widest fan from the farthest corner can still be cast
    assert!(good.scatter_rays().is_wf());
    assert!(!XRayIter { width: 65537, ..good.scatter_rays() }.is_wf());
    assert!(!XRayIter { right: Vec2f::new(0x1_0000_0001, 0), ..good.scatter_rays() }.is_wf());
    let rays = all_rays(&good);
    assert!(rays.iter().all(|(_, ray)| ray.can_cast(0x1000_0000)));
    assert_eq!(rays.len(), 65536);
    let mut dda = rays[0].1.cast(0x1000_0000);
    let mut last = 0;
    for _ in 0..100 {
        let hit = dda.next().unwrap();
        assert!(last <= hit.toi);
        last = hit.toi;
    }
}

#[test]
fn camera_follows_the_first_player() {
    let mut camera = Camera3D::new(Vec2u::new(320, 240));
    let first = Pos3D(Vec3f::new(1, 2, 3), Vec2f::new(0, 65536));
    let second = Pos3D(Vec3f::new(4, 5, 6), Vec2f::new(-65536, 0));
    let third = Pos3D(Vec3f::new(7, 8, 9), Vec2f::new(0, -65536));
    let mut pass = MoveCamera;
    pass.run(&mut camera, &vec![(None, first), (Some(IsPlayer), second), (Some(IsPlayer), third)]);
    assert_eq!(camera.pos, Vec3f::new(4, 5, 6));
    assert_eq!(camera.heading, Vec2f::new(-65536, 0));
    assert_eq!(camera.dim, Vec2u::new(320, 240));
    pass.run(&mut camera, &vec![(Some(IsPlayer), first), (None, second)]);
    assert_eq!(camera.pos, Vec3f::new(1, 2, 3));
    assert_eq!(camera.heading, Vec2f::new(0, 65536));
}

#[test]
fn camera_stays_without_a_player() {
    let mut camera = Camera3D::new(Vec2u::new(320, 240));
    let somebody = Pos3D(Vec3f::new(1, 2, 3), Vec2f::new(0, 65536));
    let mut pass = MoveCamera;
    pass.run(&mut camera, &vec![]);
    assert_eq!(camera, Camera3D::new(Vec2u::new(320, 240)));
    pass.run(&mut camera, &vec![(None, somebody), (None, somebody)]);
    assert_eq!(camera, Camera3D::new(Vec2u::new(320, 240)));
}

#[test]
fn player_walks_the_way_it_faces() {
    let mut pos = Pos3D(Vec3f::new(10, 20, 30), Vec2f::new(65536, 0));
    let mut vel = Vel3D(Vec3f::new(9, 9, 9));
    let mut pass = MovePlayer;
    // half a second, facing north: a stride of one and a half world units
    pass.run(&mut pos, &mut vel, Vec2f::new(0, 65536), true, 32768);
    assert_eq!(pos, Pos3D(Vec3f::new(10, 20, 30), Vec2f::new(0, 65536)));
    assert_eq!(vel, Vel3D(Vec3f::new(0, 98304, 0)));
    // a sixtieth of a second, facing south-west
    pass.run(&mut pos, &mut vel, Vec2f::new(-46341, -46341), true, 1092);
    assert_eq!(pos.1, Vec2f::new(-46341, -46341));
    assert_eq!(vel, Vel3D(Vec3f::new(-2317, -2317, 0)));
    assert_eq!(WALK_SPEED, 3);
}

#[test]
fn player_that_does_not_walk_stands() {
    let mut pos = Pos3D(Vec3f::new(10, 20, 30), Vec2f::new(65536, 0));
    let mut vel = Vel3D(Vec3f::new(9, 9, 9));
    let mut pass = MovePlayer;
    pass.run(&mut pos, &mut vel, Vec2f::new(0, -65536), false, 32768);
    assert_eq!(pos, Pos3D(Vec3f::new(10, 20, 30), Vec2f::new(0, -65536)));
    assert_eq!(vel, Vel3D::new());
}

#[test]
fn stride_is_held_to_the_range() {
    let mut pos = Pos3D(Vec3f::new(0, 0, 0), Vec2f::new(65536, 0));
    let mut vel = Vel3D::new();
    let mut pass = MovePlayer;
    pass.run(&mut pos, &mut vel, Vec2f::new(131072, -131072), true, i64::MAX);
    assert_eq!(vel, Vel3D(Vec3f::new(i64::MAX, i64::MIN, 0)));
    pass.run(&mut pos, &mut vel, Vec2f::new(65536, -65536), true, -65536);
    assert_eq!(vel, Vel3D(Vec3f::new(-196608, 196608, 0)));
}

#[test]
fn vector_within_a_limit() {
    assert!(Vec2f::new(5, -5).is_within(5));
    assert!(!Vec2f::new(6, -5).is_within(5));
    assert!(!Vec2f::new(5, -6).is_within(5));
    assert!(Vec2f::new(0, 0).is_within(0));
}

#[test]
fn velocity_moves_a_position() {
    let mut pos = Pos3D(Vec3f::new(10, -20, 30), Vec2f::new(65536, 0));
    let mut pass = ApplyVelocity;
    pass.run(&mut pos, &Vel3D(Vec3f::new(1, 2, -3)));
    assert_eq!(pos, Pos3D(Vec3f::new(11, -18, 27), Vec2f::new(65536, 0)));
    pass.run(&mut pos, &Vel3D::new());
    assert_eq!(pos, Pos3D(Vec3f::new(11, -18, 27), Vec2f::new(65536, 0)));
    assert_eq!(Vel3D::new(), Vel3D(Vec3f::new(0, 0, 0)));
}

#[test]
fn position_stays_at_the_bound_of_its_type() {
    let mut pos = Pos3D(Vec3f::new(i64::MAX - 1, i64::MIN + 1, 0), Vec2f::new(65536, 0));
    let mut pass = ApplyVelocity;
    pass.run(&mut pos, &Vel3D(Vec3f::new(5, -5, i64::MIN)));
    assert_eq!(pos.0, Vec3f::new(i64::MAX, i64::MIN, i64::MIN));
}

#[test]
fn turning_steps() {
    assert_eq!(Turning::Left.steps(), 1);
    assert_eq!(Turning::Right.steps(), -1);
    assert_eq!(Turning::Straight.steps(), 0);
}
