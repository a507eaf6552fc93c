use asteroids_core::motion::{
    apply_velocity, integrate_mover, Mover, Transform2, Vec2i, Velocity,
};

fn mover(px: i64, py: i64, rot: i64, vx: i64, vy: i64, va: i64, drag: i64, adrag: i64) -> Mover {
    Mover {
        transform: Transform2 {
            translation: Vec2i { x: px, y: py },
            rotation: rot,
        },
        velocity: Velocity {
            linear: Vec2i { x: vx, y: vy },
            linear_drag: Vec2i { x: drag, y: drag },
            angular: va,
            angular_drag: adrag,
        },
    }
}

#[test]
fn zero_velocity_is_a_no_op_on_the_transform() {
    let mut m = mover(123, -456, 789, 0, 0, 0, 500, 500);
    integrate_mover(&mut m, 16);
    assert_eq!(m.transform.translation.x, 123);
    assert_eq!(m.transform.translation.y, -456);
    assert_eq!(m.transform.rotation, 789);
    assert_eq!(m.velocity.linear.x, 0);
    assert_eq!(m.velocity.linear.y, 0);
    assert_eq!(m.velocity.angular, 0);

    let mut m = mover(1, 2, 3, 0, 0, 0, 1_000_000, 0);
    integrate_mover(&mut m, 60_000);
    assert_eq!(m.transform.translation.x, 1);
    assert_eq!(m.transform.translation.y, 2);
    assert_eq!(m.transform.rotation, 3);
}

#[test]
fn zero_drag_advances_position_linearly() {
    let mut m = mover(0, 0, 0, 10, -20, 5, 0, 0);
    integrate_mover(&mut m, 100);
    assert_eq!(m.velocity.linear.x, 10);
    assert_eq!(m.velocity.linear.y, -20);
    assert_eq!(m.transform.translation.x, 1_000);
    assert_eq!(m.transform.translation.y, -2_000);
    assert_eq!(m.transform.rotation, 500);
    integrate_mover(&mut m, 250);
    // position(t2) - position(t1) == velocity * (t2 - t1), exactly
    assert_eq!(m.transform.translation.x, 10 * 350);
    assert_eq!(m.transform.translation.y, -20 * 350);
    assert_eq!(m.transform.rotation, 5 * 350);
}

#[test]
fn drag_reduces_speed_each_tick() {
    // drag 0.5 per second over a full second: velocity halves exactly
    let mut m = mover(0, 0, 0, 1000, -1000, 800, 500, 500);
    integrate_mover(&mut m, 1000);
    assert_eq!(m.velocity.linear.x, 500);
    assert_eq!(m.velocity.linear.y, -500);
    assert_eq!(m.velocity.angular, 400);
    // magnitudes keep shrinking on further ticks
    let before = m.velocity.linear.x;
    integrate_mover(&mut m, 1000);
    assert!(m.velocity.linear.x.abs() < before.abs());
}

#[test]
fn drag_truncates_toward_zero() {
    // 16 ms of drag 0.5/s scales by (1 - 0.008): 999 * 0.992 = 991.008
    let mut m = mover(0, 0, 0, 999, -999, 0, 500, 0);
    integrate_mover(&mut m, 16);
    assert_eq!(m.velocity.linear.x, 991);
    assert_eq!(m.velocity.linear.y, -991);
}

#[test]
fn heavy_drag_inverts_velocity_sign() {
    // drag * dt == 2 in fixed point: the scale factor is exactly -1
    let mut m = mover(0, 0, 0, 100, -40, 0, 1_000, 0);
    integrate_mover(&mut m, 2000);
    assert_eq!(m.velocity.linear.x, -100);
    assert_eq!(m.velocity.linear.y, 40);
}

#[test]
fn apply_velocity_integrates_every_mover() {
    let mut movers = vec![
        mover(0, 0, 0, 10, 0, 0, 0, 0),
        mover(5, 5, 0, 0, -10, 0, 0, 0),
    ];
    apply_velocity(&mut movers, 100);
    assert_eq!(movers[0].transform.translation.x, 1000);
    assert_eq!(movers[0].transform.translation.y, 0);
    assert_eq!(movers[1].transform.translation.x, 5);
    assert_eq!(movers[1].transform.translation.y, -995);
}
