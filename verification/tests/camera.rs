use flycam::camera::{
    Camera, CameraMovement, DEFAULT_SENSITIVITY, DEFAULT_SPEED, GRAVITY, PITCH_LIMIT,
};
use flycam::fixed::{times, SCALE};
use flycam::vector::Vec3;

fn origin() -> Camera {
    Camera::new(Vec3::new(0, 0, 0), 0, 0)
}

fn norm_squared(v: Vec3) -> i128 {
    let (x, y, z) = (v.x as i128, v.y as i128, v.z as i128);
    x * x + y * y + z * z
}

#[test]
fn new_stores_its_arguments_and_the_defaults() {
    let c = Camera::new(Vec3::new(1_000_000, -2_000_000, 3_500_000), 45_000_000, -10_000_000);
    assert_eq!(c.position, Vec3::new(1_000_000, -2_000_000, 3_500_000));
    assert_eq!(c.yaw, 45_000_000);
    assert_eq!(c.pitch, -10_000_000);
    assert_eq!(c.speed, 2_500_000);
    assert_eq!(c.sensitivity, 100_000);
    assert_eq!(c.vertical_velocity, 0);
    assert_eq!(DEFAULT_SPEED, 2_500_000);
    assert_eq!(DEFAULT_SENSITIVITY, 100_000);
    assert_eq!(GRAVITY, -9_800_000);
    assert_eq!(PITCH_LIMIT, 89_000_000);
}

#[test]
fn new_does_not_clamp_the_pitch() {
    let mut c = Camera::new(Vec3::new(0, 0, 0), 0, 120_000_000);
    assert_eq!(c.pitch, 120_000_000);
    c.process_keyboard(CameraMovement::Forward, SCALE);
    c.update(SCALE);
    assert_eq!(c.pitch, 120_000_000);
    c.process_mouse(0, 0);
    assert_eq!(c.pitch, PITCH_LIMIT);
}

#[test]
fn forward_for_one_second_at_the_default_speed() {
    let mut c = origin();
    c.process_keyboard(CameraMovement::Forward, SCALE);
    assert_eq!(c.position, Vec3::new(2_500_000, 0, 0));
    assert_eq!(c.yaw, 0);
    assert_eq!(c.pitch, 0);
    assert_eq!(c.vertical_velocity, 0);
}

#[test]
fn the_four_directions_at_yaw_zero() {
    let mut c = origin();
    c.process_keyboard(CameraMovement::Backward, SCALE);
    assert_eq!(c.position, Vec3::new(-2_500_000, 0, 0));
    let mut c = origin();
    c.process_keyboard(CameraMovement::Right, SCALE);
    assert_eq!(c.position, Vec3::new(0, 2_500_000, 0));
    let mut c = origin();
    c.process_keyboard(CameraMovement::Left, SCALE);
    assert_eq!(c.position, Vec3::new(0, -2_500_000, 0));
}

#[test]
fn the_four_directions_at_thirty_degrees() {
    let start = Vec3::new(1_000_000, 2_000_000, 3_000_000);
    let mut c = Camera::new(start, 30_000_000, 45_000_000);
    c.process_keyboard(CameraMovement::Forward, 500_000);
    assert_eq!(c.position, Vec3::new(2_082_531, 2_625_000, 3_000_000));
    let mut c = Camera::new(start, 30_000_000, 45_000_000);
    c.process_keyboard(CameraMovement::Backward, 500_000);
    assert_eq!(c.position, Vec3::new(-82_531, 1_375_000, 3_000_000));
    let mut c = Camera::new(start, 30_000_000, 45_000_000);
    c.process_keyboard(CameraMovement::Right, 500_000);
    assert_eq!(c.position, Vec3::new(375_000, 3_082_531, 3_000_000));
    let mut c = Camera::new(start, 30_000_000, 45_000_000);
    c.process_keyboard(CameraMovement::Left, 500_000);
    assert_eq!(c.position, Vec3::new(1_625_000, 917_469, 3_000_000));
}

#[test]
fn forward_at_other_yaws() {
    let mut c = Camera::new(Vec3::new(0, 0, 0), 90_000_000, 0);
    c.process_keyboard(CameraMovement::Forward, 2_000_000);
    assert_eq!(c.position, Vec3::new(0, 5_000_000, 0));
    c.process_keyboard(CameraMovement::Right, 2_000_000);
    assert_eq!(c.position, Vec3::new(-5_000_000, 5_000_000, 0));
    let mut c = Camera::new(Vec3::new(0, 0, 0), 45_000_000, 0);
    c.process_keyboard(CameraMovement::Forward, SCALE);
    assert_eq!(c.position, Vec3::new(1_767_765, 1_767_765, 0));
    let mut c = Camera::new(Vec3::new(0, 0, 0), 123_456_789, 0);
    c.process_keyboard(CameraMovement::Forward, 16_667);
    assert_eq!(c.position, Vec3::new(-22_971, 34_762, 0));
    let mut c = Camera::new(Vec3::new(0, 0, 0), 360_000_000, 0);
    c.process_keyboard(CameraMovement::Forward, SCALE);
    assert_eq!(c.position, Vec3::new(2_500_000, 0, 0));
}

#[test]
fn the_speed_scales_the_step() {
    let mut c = origin();
    c.speed = 10_000_000;
    c.process_keyboard(CameraMovement::Forward, 250_000);
    assert_eq!(c.position, Vec3::new(2_500_000, 0, 0));
    c.speed = 0;
    c.process_keyboard(CameraMovement::Forward, SCALE);
    assert_eq!(c.position, Vec3::new(2_500_000, 0, 0));
}

#[test]
fn no_time_and_negative_time() {
    let mut c = Camera::new(Vec3::new(7, 8, 9), 77_000_000, 5_000_000);
    let before = c;
    c.process_keyboard(CameraMovement::Left, 0);
    assert_eq!(c, before);
    c.update(0);
    assert_eq!(c, before);
    let mut c = origin();
    c.process_keyboard(CameraMovement::Forward, -SCALE);
    assert_eq!(c.position, Vec3::new(-2_500_000, 0, 0));
}

#[test]
fn a_step_and_the_step_back_cancel() {
    let pairs = [
        (CameraMovement::Forward, CameraMovement::Backward),
        (CameraMovement::Backward, CameraMovement::Forward),
        (CameraMovement::Left, CameraMovement::Right),
        (CameraMovement::Right, CameraMovement::Left),
    ];
    let mut yaw: i64 = -400_000_000;
    while yaw <= 400_000_000 {
        for (there, back) in pairs {
            let mut c = Camera::new(Vec3::new(123_456_789, -987_654_321, 55), yaw, 12_000_000);
            let before = c;
            c.process_keyboard(there, 16_667);
            assert_ne!(c.position, before.position);
            c.process_keyboard(back, 16_667);
            assert_eq!(c, before);
        }
        yaw += 13_333_333;
    }
}

#[test]
fn a_step_into_the_end_of_the_range_does_not_cancel() {
    let mut c = Camera::new(Vec3::new(i64::MAX, 0, 0), 0, 0);
    c.process_keyboard(CameraMovement::Forward, SCALE);
    assert_eq!(c.position, Vec3::new(i64::MAX, 0, 0));
    c.process_keyboard(CameraMovement::Backward, SCALE);
    assert_eq!(c.position, Vec3::new(i64::MAX - 2_500_000, 0, 0));
}

#[test]
fn the_pitch_has_no_part_in_a_step() {
    let directions = [
        CameraMovement::Forward,
        CameraMovement::Backward,
        CameraMovement::Left,
        CameraMovement::Right,
    ];
    for direction in directions {
        let mut level = Camera::new(Vec3::new(10, 20, 30), 67_000_000, 0);
        level.process_keyboard(direction, 750_000);
        let mut pitch: i64 = -PITCH_LIMIT;
        while pitch <= PITCH_LIMIT {
            let mut tilted = Camera::new(Vec3::new(10, 20, 30), 67_000_000, pitch);
            tilted.process_keyboard(direction, 750_000);
            assert_eq!(tilted.position, level.position);
            assert_eq!(tilted.position.z, 30);
            assert_eq!(tilted.pitch, pitch);
            pitch += 8_900_000;
        }
    }
}

#[test]
fn the_mouse_turns_the_yaw_by_the_sensitivity() {
    let mut c = origin();
    c.process_mouse(10_000_000, 0);
    assert_eq!(c.yaw, 1_000_000);
    assert_eq!(c.pitch, 0);
    assert_eq!(c.position, Vec3::new(0, 0, 0));
}

#[test]
fn the_mouse_clamps_the_pitch() {
    let mut c = origin();
    c.process_mouse(0, 1_000_000_000);
    assert_eq!(c.pitch, 89_000_000);
    assert_eq!(c.yaw, 0);
    c.process_mouse(0, i64::MAX);
    assert_eq!(c.pitch, 89_000_000);
    c.process_mouse(0, -1_000_000_000);
    assert_eq!(c.pitch, -11_000_000);
    c.process_mouse(0, -1_000_000_000);
    assert_eq!(c.pitch, -89_000_000);
    c.process_mouse(0, i64::MIN);
    assert_eq!(c.pitch, -89_000_000);
    c.process_mouse(0, 890_000_000);
    assert_eq!(c.pitch, 0);
}

#[test]
fn the_mouse_does_not_invert_or_wrap() {
    let mut c = origin();
    c.process_mouse(-25_000_000, 123_456);
    assert_eq!((c.yaw, c.pitch), (-2_500_000, 12_345));
    let mut c = origin();
    c.process_mouse(15, -17);
    assert_eq!((c.yaw, c.pitch), (1, -1));
    let mut c = origin();
    c.process_mouse(7_200_000_000, 0);
    assert_eq!(c.yaw, 720_000_000);
}

#[test]
fn the_yaw_adds_up_over_many_moves() {
    let moves: [(i64, i64); 6] = [
        (10_000_000, 5_000_000),
        (-3_000_007, 2_000_000_000),
        (123_456_789, -1),
        (0, -4_000_000_000),
        (-999_999_999, 17),
        (5, 5),
    ];
    let mut c = Camera::new(Vec3::new(1, 2, 3), 40_000_000, 0);
    let mut total: i64 = 40_000_000;
    for (dx, dy) in moves {
        c.process_mouse(dx, dy);
        total += times(dx, c.sensitivity);
        assert_eq!(c.yaw, total);
        assert!(-PITCH_LIMIT <= c.pitch && c.pitch <= PITCH_LIMIT);
    }
    assert_eq!(c.yaw, -46_954_321);
    assert_eq!(c.pitch, -88_999_999);
    assert_eq!(c.position, Vec3::new(1, 2, 3));
}

#[test]
fn the_yaw_saturates_at_the_end_of_the_range() {
    let mut c = origin();
    c.yaw = i64::MAX - 5;
    c.process_mouse(1_000, 0);
    assert_eq!(c.yaw, i64::MAX);
    c.sensitivity = i64::MIN;
    c.process_mouse(i64::MAX, 0);
    assert_eq!(c.yaw, i64::MIN);
}

#[test]
fn one_update_changes_the_velocity_before_the_height() {
    let mut c = Camera::new(Vec3::new(4, 5, 10_000_000), 10, 20);
    c.update(100_000);
    assert_eq!(c.vertical_velocity, -980_000);
    assert_eq!(c.position, Vec3::new(4, 5, 9_902_000));
    c.update(100_000);
    assert_eq!(c.vertical_velocity, -1_960_000);
    assert_eq!(c.position, Vec3::new(4, 5, 9_706_000));
    assert_eq!((c.yaw, c.pitch, c.speed, c.sensitivity), (10, 20, 2_500_000, 100_000));
}

#[test]
fn ten_updates_match_the_closed_form() {
    let mut c = Camera::new(Vec3::new(0, 0, 10_000_000), 0, 0);
    for _ in 0..10 {
        c.update(100_000);
    }
    // v = n·g·h; z = z0 + g·h²·n(n + 1)/2.
    assert_eq!(c.vertical_velocity, -9_800_000);
    assert_eq!(c.position.z, 10_000_000 - 98_000 * 55);
}

#[test]
fn a_throw_upward_comes_down_again() {
    let mut c = origin();
    c.vertical_velocity = 5_000_000;
    for _ in 0..100 {
        c.update(10_000);
    }
    assert_eq!(c.vertical_velocity, -4_800_000);
    assert_eq!(c.position.z, 51_000);
}

#[test]
fn sixty_frames_stay_within_rounding_of_the_closed_form() {
    let h: i128 = 16_667;
    let n: i128 = 60;
    let mut c = origin();
    for _ in 0..60 {
        c.update(h as i64);
    }
    assert_eq!(c.vertical_velocity, -9_800_160);
    assert_eq!(c.position.z, -4_981_817);
    let k = SCALE as i128;
    let g = (c.vertical_velocity as i128) / n;
    assert_eq!(g, -163_336);
    assert!((k * g - (GRAVITY as i128) * h).abs() < k);
    let exact = h * g * n * (n + 1) / 2;
    assert!((k * (c.position.z as i128) - exact).abs() <= n * (k - 1));
}

#[test]
fn the_fall_saturates_at_the_end_of_the_range() {
    let mut c = origin();
    c.vertical_velocity = i64::MIN + 10;
    c.position.z = i64::MIN + 10;
    c.update(SCALE);
    assert_eq!(c.vertical_velocity, i64::MIN);
    assert_eq!(c.position.z, i64::MIN);
}

#[test]
fn front_points_along_the_angles() {
    assert_eq!(origin().front(), Vec3::new(SCALE, 0, 0));
    assert_eq!(Camera::new(Vec3::new(9, 9, 9), 90_000_000, 0).front(), Vec3::new(0, SCALE, 0));
    assert_eq!(Camera::new(Vec3::new(0, 0, 0), 0, 90_000_000).front(), Vec3::new(0, 0, SCALE));
    assert_eq!(
        Camera::new(Vec3::new(0, 0, 0), 0, 89_000_000).front(),
        Vec3::new(17_451, 0, 999_847)
    );
    assert_eq!(
        Camera::new(Vec3::new(0, 0, 0), 30_000_000, 45_000_000).front(),
        Vec3::new(612_372, 353_553, 707_107)
    );
    assert_eq!(
        Camera::new(Vec3::new(0, 0, 0), -135_000_000, -60_000_000).front(),
        Vec3::new(-353_553, -353_553, -866_025)
    );
    assert_eq!(
        Camera::new(Vec3::new(0, 0, 0), 77_777_777, -33_333_333).front(),
        Vec3::new(176_876, 816_550, -549_509)
    );
}

#[test]
fn front_has_unit_length() {
    let k = SCALE as i128;
    let mut yaw: i64 = -FULL;
    while yaw <= FULL {
        let mut pitch: i64 = -PITCH_LIMIT;
        while pitch <= PITCH_LIMIT {
            let f = Camera::new(Vec3::new(0, 0, 0), yaw, pitch).front();
            let n = norm_squared(f);
            assert!((k - 4) * (k - 4) <= n && n <= (k + 1) * (k + 1), "{:?}: {}", f, n);
            pitch += 3_560_000;
        }
        yaw += 7_123_457;
    }
}

const FULL: i64 = 360_000_000;

#[test]
fn front_has_unit_length_at_any_pitch() {
    let k = SCALE as i128;
    for pitch in [120_000_000, -200_000_000, i64::MAX, i64::MIN, 90_000_001] {
        for yaw in [0, 1, -1, i64::MAX, i64::MIN, 45_000_000] {
            let f = Camera::new(Vec3::new(0, 0, 0), yaw, pitch).front();
            let n = norm_squared(f);
            assert!((k - 4) * (k - 4) <= n && n <= (k + 1) * (k + 1), "{:?}: {}", f, n);
        }
    }
}

#[test]
fn front_agrees_with_floating_point() {
    let mut yaw: i64 = -180_000_000;
    while yaw <= 180_000_000 {
        let mut pitch: i64 = -PITCH_LIMIT;
        while pitch <= PITCH_LIMIT {
            let f = Camera::new(Vec3::new(0, 0, 0), yaw, pitch).front();
            let (y, p) = ((yaw as f64 / 1e6).to_radians(), (pitch as f64 / 1e6).to_radians());
            let expected = [y.cos() * p.cos(), y.sin() * p.cos(), p.sin()];
            assert!((f.x as f64 / 1e6 - expected[0]).abs() < 4e-6);
            assert!((f.y as f64 / 1e6 - expected[1]).abs() < 4e-6);
            assert!((f.z as f64 / 1e6 - expected[2]).abs() < 4e-6);
            pitch += 4_450_000;
        }
        yaw += 9_999_999;
    }
}

#[test]
fn the_view_target_is_one_unit_ahead() {
    let c = Camera::new(Vec3::new(0, 0, 0), 33_000_000, -20_000_000);
    assert_eq!(c.view_target(), Vec3::new(788_092, 511_792, -342_019));
    let c = Camera::new(Vec3::new(5_000_000, -4_000_000, 3_000_000), 33_000_000, -20_000_000);
    assert_eq!(c.view_target(), Vec3::new(5_788_092, -3_488_208, 2_657_981));
    assert_eq!(c.view_target(), c.position.plus(c.front()));
    let c = Camera::new(Vec3::new(i64::MAX, 0, 0), 0, 0);
    assert_eq!(c.view_target(), Vec3::new(i64::MAX, 0, 0));
}

#[test]
fn the_operations_of_a_frame_commute() {
    let start = Camera::new(Vec3::new(100, 200, 300), 10_000_000, 5_000_000);
    let mut a = start;
    a.process_keyboard(CameraMovement::Right, 20_000);
    a.update(20_000);
    let mut b = start;
    b.update(20_000);
    b.process_keyboard(CameraMovement::Right, 20_000);
    assert_eq!(a, b);
}
