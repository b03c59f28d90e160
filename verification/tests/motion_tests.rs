use rts_core::geometry::{isqrt, Point, Velocity};
use rts_core::movement::{planar_dist_sq_exec, run_to_arrival, step_toward, MotionState, MovementPath};

fn pt(x: i64, y: i64, z: i64) -> Point {
    Point { x, y, z }
}

#[test]
fn isqrt_exact_values() {
    assert_eq!(isqrt(0), 0);
    assert_eq!(isqrt(1), 1);
    assert_eq!(isqrt(24), 4);
    assert_eq!(isqrt(25), 5);
    assert_eq!(isqrt(250000), 500);
    assert_eq!(isqrt(u64::MAX), 4294967295);
}

#[test]
fn planar_distance_ignores_height() {
    // 1 world unit apart in z, far apart in y: the planar distance sees
    // only x and z.
    let d2 = planar_dist_sq_exec(pt(0, 999_999, 0), pt(0, 0, 100));
    assert_eq!(d2, 10_000);
}

#[test]
fn tick_points_velocity_at_waypoint() {
    // Heading straight down x at speed 10 world units per second.
    let mut state = MotionState::idle();
    state.install(MovementPath::new(vec![pt(500, 0, 0), pt(1000, 0, 0)]));
    state.tick(pt(0, 0, 0));
    assert_eq!(state.velocity, Velocity { x: 1000, y: 0, z: 0 });
    assert_eq!(state.path.len(), 2);
}

#[test]
fn tick_velocity_diagonal_is_normalized() {
    // A 3-4-5 triangle: planar distance 500, so the velocity components are
    // 600 and 800 — overall planar speed exactly 1000.
    let mut state = MotionState::idle();
    state.install(MovementPath::new(vec![pt(300, 0, 400)]));
    state.tick(pt(0, 0, 0));
    assert_eq!(state.velocity, Velocity { x: 600, y: 0, z: 800 });
}

#[test]
fn tick_velocity_slows_on_slopes() {
    // The waypoint sits 5 world units up as well as 5 along x: the
    // direction is normalized over the full 3D displacement (rounded-up
    // distance 708) before the vertical component is zeroed, so the planar
    // speed drops to about 7.06 world units per second.
    let mut state = MotionState::idle();
    state.install(MovementPath::new(vec![pt(500, 500, 0)]));
    state.tick(pt(0, 0, 0));
    assert_eq!(state.velocity, Velocity { x: 706, y: 0, z: 0 });
}

#[test]
fn tick_speed_never_exceeds_nominal() {
    // A hair outside the tolerance diagonally: the normalizing distance is
    // rounded up (121 for squared distance 14401), keeping the speed just
    // under the nominal 10 units per second rather than just over it.
    let mut state = MotionState::idle();
    state.install(MovementPath::new(vec![pt(120, 0, 1)]));
    state.tick(pt(0, 0, 0));
    assert_eq!(state.velocity, Velocity { x: 991, y: 0, z: 8 });
    let v = state.velocity;
    assert!(v.x * v.x + v.z * v.z <= 1_000_000);
}

#[test]
fn tick_negative_direction() {
    let mut state = MotionState::idle();
    state.install(MovementPath::new(vec![pt(0, 0, 0)]));
    state.tick(pt(500, 0, 0));
    assert_eq!(state.velocity, Velocity { x: -1000, y: 0, z: 0 });
}

#[test]
fn tick_within_tolerance_consumes_waypoint() {
    // 1.2 world units away exactly: arrival, waypoint popped, velocity zero.
    let mut state = MotionState::idle();
    state.install(MovementPath::new(vec![pt(120, 0, 0), pt(1000, 0, 0)]));
    state.tick(pt(0, 0, 0));
    assert_eq!(state.velocity, Velocity { x: 0, y: 0, z: 0 });
    assert_eq!(state.path.len(), 1);
    assert_eq!(state.path.get(0), pt(1000, 0, 0));
}

#[test]
fn tick_on_idle_state_does_nothing() {
    let mut state = MotionState::idle();
    state.tick(pt(42, 7, -3));
    assert_eq!(state.path.len(), 0);
    assert_eq!(state.velocity, Velocity { x: 0, y: 0, z: 0 });
}

#[test]
fn remove_first_on_empty_path_is_noop() {
    let mut path = MovementPath::new(vec![]);
    path.remove_first();
    assert_eq!(path.len(), 0);
}

#[test]
fn remove_first_drops_front_waypoint() {
    let mut path = MovementPath::new(vec![pt(1, 2, 3), pt(4, 5, 6)]);
    path.remove_first();
    assert_eq!(path.len(), 1);
    assert_eq!(path.get(0), pt(4, 5, 6));
}

#[test]
fn step_advances_one_tick_of_velocity() {
    // Speed 10 world units per second at 50 ticks per second: 0.2 world
    // units (20 coordinate units) per tick.
    let mut pos = pt(0, 0, 0);
    step_toward(&mut pos, pt(500, 0, 0));
    assert_eq!(pos, pt(20, 0, 0));
    let mut back = pt(500, 0, 0);
    step_toward(&mut back, pt(0, 0, 0));
    assert_eq!(back, pt(480, 0, 0));
}

#[test]
fn run_to_arrival_walks_the_whole_path() {
    // The concrete scenario: entity at the origin, handed the trimmed path
    // [(5,0,0), (10,0,0)] in world units. It closes in on (5,0,0) at 0.2
    // units per tick, pops it at planar distance 1.2, then repeats for
    // (10,0,0), ending idle within tolerance of the final waypoint.
    let mut state = MotionState::idle();
    state.install(MovementPath::new(vec![pt(500, 0, 0), pt(1000, 0, 0)]));
    let mut pos = pt(0, 0, 0);
    run_to_arrival(&mut state, &mut pos);
    assert_eq!(state.path.len(), 0);
    assert_eq!(state.velocity, Velocity { x: 0, y: 0, z: 0 });
    // 19 ticks to x = 380 (distance 120: arrival), then 25 ticks to x = 880.
    assert_eq!(pos, pt(880, 0, 0));
    let remaining = planar_dist_sq_exec(pos, pt(1000, 0, 0));
    assert!(remaining <= 14400);
}

#[test]
fn run_to_arrival_from_installed_single_waypoint() {
    let mut state = MotionState::idle();
    state.install(MovementPath::new(vec![pt(0, 0, 300)]));
    let mut pos = pt(0, 50, 0);
    run_to_arrival(&mut state, &mut pos);
    assert_eq!(state.path.len(), 0);
    assert_eq!(state.velocity, Velocity { x: 0, y: 0, z: 0 });
    // Height is never touched by the planar controller, and the climb to
    // the waypoint slows the approach without preventing arrival.
    assert_eq!(pos.y, 50);
    assert_eq!(pos, pt(0, 50, 188));
}
