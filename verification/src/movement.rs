//! The motion controller: drives an entity along its waypoint sequence,
//! tick by tick, until arrival.
//!
//! Per tick the controller looks at the first waypoint of the entity's path.
//! If the entity is within the arrival tolerance in the horizontal plane, the
//! waypoint is consumed and the velocity is set to zero; otherwise the
//! displacement toward the waypoint is normalized over all three coordinates,
//! its vertical component zeroed, and the result scaled to the fixed speed —
//! so an entity heads toward a waypoint above or below it more slowly in the
//! plane, and the planar speed never exceeds the nominal speed
//! (`lemma_speed_bound`). An empty path means the entity is idle.

use vstd::prelude::*;
use crate::geometry::{
    Point, Velocity, in_bounds, planar_dist_sq, dist3_sq, sq, sqrt_floor, sqrt_ceil, is_isqrt,
    isqrt_ceil, lemma_isqrt_exists, lemma_sq_nonneg, ARRIVE_TOL, ARRIVE_TOL_SQ, CLIMB_LIMIT,
    SPEED, TICKS_PER_SEC, COORD_LIMIT,
};

verus! {

/// The waypoint sequence an entity is following, front first.
pub struct MovementPath(Vec<Point>);

impl View for MovementPath {
    type V = Seq<Point>;

    closed spec fn view(&self) -> Seq<Point> {
        self.0@
    }
}

impl MovementPath {
    /// A path holding exactly the given waypoints, front first.
    pub fn new(path: Vec<Point>) -> (r: Self)
        ensures
            r@ == path@,
    {
        Self(path)
    }

    /// Consumes the front waypoint; does nothing on an empty path.
    pub fn remove_first(&mut self)
        ensures
            final(self)@ == if old(self)@.len() == 0 {
                old(self)@
            } else {
                old(self)@.drop_first()
            },
    {
        if self.0.len() > 0 {
            self.0.remove(0);
            proof {
                assert(self@ =~= old(self)@.drop_first());
            }
        }
    }

    /// How many waypoints remain.
    pub fn len(&self) -> (r: usize)
        ensures
            r == self@.len(),
    {
        self.0.len()
    }

    /// Whether no waypoint remains.
    pub fn is_empty(&self) -> (r: bool)
        ensures
            r == (self@.len() == 0),
    {
        self.0.len() == 0
    }

    /// The front waypoint.
    pub fn first(&self) -> (r: Point)
        requires
            self@.len() > 0,
        ensures
            r == self@[0],
    {
        self.0[0]
    }

    /// The waypoint at position `i`.
    pub fn get(&self, i: usize) -> (r: Point)
        requires
            i < self@.len(),
        ensures
            r == self@[i as int],
    {
        self.0[i]
    }
}

/// Every waypoint of `s` lies within the accepted world bounds.
pub open spec fn path_in_bounds(s: Seq<Point>) -> bool {
    forall|i: int| 0 <= i < s.len() ==> in_bounds(#[trigger] s[i])
}

/// The per-entity motion state: the path being followed and the velocity the
/// controller last published.
pub struct MotionState {
    pub path: MovementPath,
    pub velocity: Velocity,
}

/// One velocity component along a coordinate gap of `delta`, scaled by
/// `SPEED` over the distance `d` and truncated toward zero; its magnitude
/// never exceeds `delta`'s share of `SPEED`.
pub open spec fn scaled_toward(delta: int, d: int) -> int {
    if delta >= 0 {
        (delta * (SPEED as int)) / d
    } else {
        -(((-delta) * (SPEED as int)) / d)
    }
}

/// The velocity the controller publishes for an entity at `pos` heading for
/// waypoint `wp`: the displacement toward the waypoint normalized over all
/// three coordinates and scaled by the fixed speed, with the vertical
/// component then zeroed. The normalization divides by the 3D distance
/// rounded up, so the planar speed is at most `SPEED`
/// (`lemma_speed_bound`) — and below it when the waypoint sits above or
/// below the entity.
pub open spec fn vel_toward(pos: Point, wp: Point) -> Velocity {
    let d = sqrt_ceil(dist3_sq(pos, wp));
    Velocity {
        x: scaled_toward(wp.x - pos.x, d) as i64,
        y: 0,
        z: scaled_toward(wp.z - pos.z, d) as i64,
    }
}

/// What one velocity component contributes to the position over a single
/// simulation tick.
pub open spec fn step_len(v: int) -> int {
    if v >= 0 {
        v / (TICKS_PER_SEC as int)
    } else {
        -((-v) / (TICKS_PER_SEC as int))
    }
}

/// The exact transition one controller tick makes for an entity at `pos`:
/// idle states are untouched; a reached front waypoint is consumed and the
/// velocity zeroed; otherwise the velocity is pointed at the front waypoint
/// and the path kept whole.
pub open spec fn tick_rel(pre: MotionState, pos: Point, post: MotionState) -> bool {
    if pre.path@.len() == 0 {
        post.path@ == pre.path@ && post.velocity == pre.velocity
    } else if planar_dist_sq(pos, pre.path@[0]) <= ARRIVE_TOL_SQ {
        post.path@ == pre.path@.drop_first() && post.velocity == Velocity::spec_zero()
    } else {
        post.path@ == pre.path@ && post.velocity == vel_toward(pos, pre.path@[0])
    }
}

impl MotionState {
    /// The state invariant: an idle entity (empty path) has zero velocity.
    pub open spec fn wf(&self) -> bool {
        self.path@.len() == 0 ==> self.velocity == Velocity::spec_zero()
    }

    /// A fresh, idle motion state.
    pub fn idle() -> (r: Self)
        ensures
            r.path@.len() == 0,
            r.velocity == Velocity::spec_zero(),
            r.wf(),
    {
        MotionState { path: MovementPath::new(Vec::new()), velocity: Velocity::zero() }
    }

    /// Installs a freshly resolved path, replacing whatever was being
    /// followed; the entity starts moving on the next tick.
    pub fn install(&mut self, path: MovementPath)
        ensures
            final(self).path@ == path@,
            final(self).velocity == Velocity::spec_zero(),
            final(self).wf(),
    {
        self.path = path;
        self.velocity = Velocity::zero();
    }

    /// One controller tick for an entity currently at `pos`.
    pub fn tick(&mut self, pos: Point)
        requires
            old(self).wf(),
            in_bounds(pos),
            old(self).path@.len() > 0 ==> in_bounds(old(self).path@[0]),
        ensures
            tick_rel(*old(self), pos, *final(self)),
            final(self).wf(),
    {
        if self.path.is_empty() {
            return;
        }
        let wp = self.path.first();
        let d2 = planar_dist_sq_exec(pos, wp);
        if d2 <= ARRIVE_TOL_SQ as u64 {
            self.velocity = Velocity::zero();
            self.path.remove_first();
        } else {
            let dc = dist3_ceil_exec(pos, wp);
            proof {
                lemma_ceil_dist_at_least_tol(pos, wp);
            }
            let vx = component_toward(pos.x, wp.x, dc);
            let vz = component_toward(pos.z, wp.z, dc);
            self.velocity = Velocity { x: vx, y: 0, z: vz };
        }
    }
}

/// The squared planar distance between two in-bounds points, computed
/// exactly in 64 bits.
pub fn planar_dist_sq_exec(a: Point, b: Point) -> (r: u64)
    requires
        in_bounds(a),
        in_bounds(b),
    ensures
        r as int == planar_dist_sq(a, b),
{
    let dx = b.x - a.x;
    let dz = b.z - a.z;
    let ax: u64 = if dx >= 0 { dx as u64 } else { (-dx) as u64 };
    let az: u64 = if dz >= 0 { dz as u64 } else { (-dz) as u64 };
    proof {
        lemma_abs_sq(dx as int, ax as int);
        lemma_abs_sq(dz as int, az as int);
        lemma_sq_bound(ax as int);
        lemma_sq_bound(az as int);
    }
    ax * ax + az * az
}

/// The 3D distance between two in-bounds points, rounded up — the
/// denominator that normalizes a direction toward a waypoint.
fn dist3_ceil_exec(a: Point, b: Point) -> (r: u64)
    requires
        in_bounds(a),
        in_bounds(b),
    ensures
        r == sqrt_ceil(dist3_sq(a, b)),
        (r as int) * (r as int) >= dist3_sq(a, b),
        r >= sqrt_floor(dist3_sq(a, b)),
{
    let dx = b.x - a.x;
    let dy = b.y - a.y;
    let dz = b.z - a.z;
    let ax: u64 = if dx >= 0 { dx as u64 } else { (-dx) as u64 };
    let ay: u64 = if dy >= 0 { dy as u64 } else { (-dy) as u64 };
    let az: u64 = if dz >= 0 { dz as u64 } else { (-dz) as u64 };
    proof {
        lemma_abs_sq(dx as int, ax as int);
        lemma_abs_sq(dy as int, ay as int);
        lemma_abs_sq(dz as int, az as int);
        lemma_sq_bound(ax as int);
        lemma_sq_bound(ay as int);
        lemma_sq_bound(az as int);
    }
    let d3 = ax * ax + ay * ay + az * az;
    isqrt_ceil(d3)
}

/// Outside the arrival tolerance, the rounded-up 3D distance to the
/// waypoint is at least the tolerance, and in particular positive.
proof fn lemma_ceil_dist_at_least_tol(pos: Point, wp: Point)
    requires
        planar_dist_sq(pos, wp) > ARRIVE_TOL_SQ,
    ensures
        sqrt_ceil(dist3_sq(pos, wp)) >= ARRIVE_TOL,
{
    lemma_sq_nonneg(wp.x - pos.x);
    lemma_sq_nonneg(wp.y - pos.y);
    lemma_sq_nonneg(wp.z - pos.z);
    let d3 = dist3_sq(pos, wp);
    lemma_isqrt_exists(d3);
    lemma_dist_at_least_tol(d3, sqrt_floor(d3));
}

/// Squares of opposite numbers agree.
proof fn lemma_abs_sq(d: int, a: int)
    by (nonlinear_arith)
    requires
        a == d || a == -d,
    ensures
        a * a == sq(d),
{
}

/// A magnitude within the coordinate span has a square within 62 bits.
proof fn lemma_sq_bound(a: int)
    by (nonlinear_arith)
    requires
        0 <= a <= 2 * (COORD_LIMIT as int),
    ensures
        0 <= a * a <= 0x3800000000000000,
{
}

/// Outside the arrival tolerance, the planar distance is at least the
/// tolerance itself.
proof fn lemma_dist_at_least_tol(d2: int, d: int)
    by (nonlinear_arith)
    requires
        d2 > ARRIVE_TOL_SQ,
        is_isqrt(d2, d),
    ensures
        d >= ARRIVE_TOL,
{
}

/// One velocity component toward a waypoint coordinate: the coordinate gap
/// scaled by `SPEED` over the normalizing distance `d`, truncated toward
/// zero.
fn component_toward(from: i64, to: i64, d: u64) -> (r: i64)
    requires
        -COORD_LIMIT <= from <= COORD_LIMIT,
        -COORD_LIMIT <= to <= COORD_LIMIT,
        1 <= d,
    ensures
        r as int == scaled_toward(to - from, d as int),
{
    let delta = to - from;
    let mag: u64 = if delta >= 0 { delta as u64 } else { (-delta) as u64 };
    let scaled = mag * (SPEED as u64) / d;
    proof {
        vstd::arithmetic::div_mod::lemma_div_nonincreasing(
            (mag as int) * (SPEED as int),
            d as int,
        );
    }
    if delta >= 0 {
        scaled as i64
    } else {
        -(scaled as i64)
    }
}

/// Bounds on one tick's displacement toward a waypoint: with coordinate
/// gap magnitudes `axi` (planar), `ayi` (vertical), `azi` (planar), the
/// squared planar gap `d2p`, and the velocity normalized by the rounded-up
/// 3D distance `dc`, the per-tick steps `sx`, `sz` never overshoot their
/// gaps, and — as long as the climb to the waypoint is within
/// `CLIMB_LIMIT` — at least one step is positive, so the squared planar
/// distance strictly shrinks.
proof fn lemma_step_props(
    axi: int,
    ayi: int,
    azi: int,
    d2p: int,
    d3sq: int,
    fl: int,
    dc: int,
    sx: int,
    sz: int,
)
    requires
        axi >= 0,
        ayi >= 0,
        azi >= 0,
        d2p == axi * axi + azi * azi,
        d3sq == d2p + ayi * ayi,
        d2p > ARRIVE_TOL_SQ,
        ayi <= CLIMB_LIMIT,
        is_isqrt(d3sq, fl),
        dc == if fl * fl == d3sq { fl } else { fl + 1 },
        sx == axi * (SPEED as int) / dc / (TICKS_PER_SEC as int),
        sz == azi * (SPEED as int) / dc / (TICKS_PER_SEC as int),
    ensures
        dc >= ARRIVE_TOL,
        0 <= sx,
        6 * sx <= axi,
        0 <= sz,
        6 * sz <= azi,
        (axi - sx) * (axi - sx) + (azi - sz) * (azi - sz) < d2p,
{
    assert(ayi * ayi >= 0) by (nonlinear_arith);
    lemma_dist_at_least_tol(d3sq, fl);
    lemma_component_step(axi, dc, sx);
    lemma_component_step(azi, dc, sz);
    if fl * fl == d3sq {
        assert((dc - 1) * (dc - 1) < d3sq) by (nonlinear_arith)
            requires
                dc == fl,
                fl >= 1,
                fl * fl == d3sq;
    } else {
        assert((dc - 1) * (dc - 1) < d3sq);
    }
    assert(ayi * ayi <= 2_560_000) by (nonlinear_arith)
        requires
            0 <= ayi <= 1600;
    assert(2 * (axi * axi) >= d2p || 2 * (azi * azi) >= d2p) by (nonlinear_arith)
        requires
            d2p == axi * axi + azi * azi;
    if 2 * (axi * axi) >= d2p {
        lemma_axis_step_at_least_one(axi, d3sq, dc, sx);
    } else {
        lemma_axis_step_at_least_one(azi, d3sq, dc, sz);
    }
    assert((axi - sx) * (axi - sx) + (azi - sz) * (azi - sz) < axi * axi + azi * azi)
        by (nonlinear_arith)
        requires
            0 <= sx,
            6 * sx <= axi,
            0 <= sz,
            6 * sz <= azi,
            sx >= 1 || sz >= 1;
}

/// A per-tick step along one axis is non-negative and at most a sixth of the
/// remaining gap along that axis.
proof fn lemma_component_step(a: int, d: int, s: int)
    requires
        a >= 0,
        d >= ARRIVE_TOL,
        s == a * (SPEED as int) / d / (TICKS_PER_SEC as int),
    ensures
        0 <= s,
        6 * s <= a,
{
    let q = a * (SPEED as int) / d;
    vstd::arithmetic::div_mod::lemma_div_pos_is_pos(a * (SPEED as int), d);
    vstd::arithmetic::div_mod::lemma_div_pos_is_pos(q, TICKS_PER_SEC as int);
    vstd::arithmetic::div_mod::lemma_fundamental_div_mod(a * (SPEED as int), d);
    vstd::arithmetic::div_mod::lemma_mod_division_less_than_divisor(a * (SPEED as int), d);
    vstd::arithmetic::div_mod::lemma_fundamental_div_mod(q, TICKS_PER_SEC as int);
    vstd::arithmetic::div_mod::lemma_mod_division_less_than_divisor(q, TICKS_PER_SEC as int);
    assert(120 * q <= d * q) by (nonlinear_arith)
        requires
            q >= 0,
            d >= 120;
    assert(d * q <= a * 1000);
    assert(50 * s <= q);
    assert(6000 * s <= 120 * q);
}

/// Along a planar axis that carries at least half the squared planar
/// distance, the per-tick step is at least one coordinate unit, provided
/// the waypoint's climb is within `CLIMB_LIMIT`: outside the arrival
/// tolerance the normalizing distance `dc` is then at most twenty times the
/// axis gap.
proof fn lemma_axis_step_at_least_one(a: int, d3sq: int, dc: int, s: int)
    requires
        a >= 0,
        2 * (a * a) >= 14401,
        d3sq <= 2 * (a * a) + 2_560_000,
        dc >= 1,
        (dc - 1) * (dc - 1) < d3sq,
        s == a * (SPEED as int) / dc / (TICKS_PER_SEC as int),
    ensures
        s >= 1,
{
    assert(a >= 85) by (nonlinear_arith)
        requires
            2 * (a * a) >= 14401,
            a >= 0;
    assert((20 * a - 1) * (20 * a - 1) >= 2 * (a * a) + 2_560_000) by (nonlinear_arith)
        requires
            a >= 85;
    assert(dc <= 20 * a) by (nonlinear_arith)
        requires
            (dc - 1) * (dc - 1) < (20 * a - 1) * (20 * a - 1),
            dc >= 1,
            a >= 85;
    let q = a * (SPEED as int) / dc;
    vstd::arithmetic::div_mod::lemma_fundamental_div_mod(a * (SPEED as int), dc);
    vstd::arithmetic::div_mod::lemma_mod_division_less_than_divisor(a * (SPEED as int), dc);
    assert(q >= 50) by (nonlinear_arith)
        requires
            dc >= 1,
            a * 1000 == dc * q + (a * 1000) % dc,
            0 <= (a * 1000) % dc < dc,
            a * 1000 >= 50 * dc;
    vstd::arithmetic::div_mod::lemma_fundamental_div_mod(q, TICKS_PER_SEC as int);
    vstd::arithmetic::div_mod::lemma_mod_division_less_than_divisor(q, TICKS_PER_SEC as int);
    assert(50 * s >= q - 49);
}

/// Integrates the controller's published velocity over one simulation tick,
/// for an entity at `pos` that is heading for `wp` and has not yet arrived:
/// each planar coordinate advances by its velocity component divided by the
/// tick rate. Provided the waypoint's climb is within `CLIMB_LIMIT`, the
/// squared planar distance to the waypoint strictly shrinks; the entity
/// never overshoots past the waypoint's bounds, and its height is
/// untouched.
pub fn step_toward(pos: &mut Point, wp: Point)
    requires
        in_bounds(*old(pos)),
        in_bounds(wp),
        planar_dist_sq(*old(pos), wp) > ARRIVE_TOL_SQ,
        -CLIMB_LIMIT <= wp.y - old(pos).y <= CLIMB_LIMIT,
    ensures
        final(pos).x as int == old(pos).x + step_len(vel_toward(*old(pos), wp).x as int),
        final(pos).z as int == old(pos).z + step_len(vel_toward(*old(pos), wp).z as int),
        final(pos).y == old(pos).y,
        in_bounds(*final(pos)),
        planar_dist_sq(*final(pos), wp) < planar_dist_sq(*old(pos), wp),
{
    let dx = wp.x - pos.x;
    let dy = wp.y - pos.y;
    let dz = wp.z - pos.z;
    let ax: u64 = if dx >= 0 { dx as u64 } else { (-dx) as u64 };
    let ay: u64 = if dy >= 0 { dy as u64 } else { (-dy) as u64 };
    let az: u64 = if dz >= 0 { dz as u64 } else { (-dz) as u64 };
    proof {
        lemma_abs_sq(dx as int, ax as int);
        lemma_abs_sq(dy as int, ay as int);
        lemma_abs_sq(dz as int, az as int);
        lemma_sq_bound(ax as int);
        lemma_sq_bound(ay as int);
        lemma_sq_bound(az as int);
    }
    let d2 = ax * ax + az * az;
    let dc = dist3_ceil_exec(*pos, wp);
    proof {
        lemma_sq_nonneg(dx as int);
        lemma_sq_nonneg(dy as int);
        lemma_sq_nonneg(dz as int);
        lemma_isqrt_exists(dist3_sq(*pos, wp));
        lemma_ceil_dist_at_least_tol(*pos, wp);
    }
    let sx = ax * (SPEED as u64) / dc / (TICKS_PER_SEC as u64);
    let sz = az * (SPEED as u64) / dc / (TICKS_PER_SEC as u64);
    proof {
        lemma_step_props(
            ax as int,
            ay as int,
            az as int,
            d2 as int,
            dist3_sq(*pos, wp),
            sqrt_floor(dist3_sq(*pos, wp)),
            dc as int,
            sx as int,
            sz as int,
        );
        vstd::arithmetic::div_mod::lemma_div_pos_is_pos((ax as int) * (SPEED as int), dc as int);
        vstd::arithmetic::div_mod::lemma_div_nonincreasing(
            (ax as int) * (SPEED as int),
            dc as int,
        );
        vstd::arithmetic::div_mod::lemma_div_pos_is_pos((az as int) * (SPEED as int), dc as int);
        vstd::arithmetic::div_mod::lemma_div_nonincreasing(
            (az as int) * (SPEED as int),
            dc as int,
        );
    }
    let ghost pre = *pos;
    if dx >= 0 {
        pos.x = pos.x + sx as i64;
    } else {
        pos.x = pos.x - sx as i64;
    }
    if dz >= 0 {
        pos.z = pos.z + sz as i64;
    } else {
        pos.z = pos.z - sz as i64;
    }
    proof {
        let di = dc as int;
        assert(di == sqrt_ceil(dist3_sq(pre, wp)));
        let v = vel_toward(pre, wp);
        assert(v.x as int == scaled_toward(dx as int, di));
        assert(v.z as int == scaled_toward(dz as int, di));
        assert(step_len(scaled_toward(dx as int, di)) == if dx >= 0 { sx as int } else { -(sx as int) });
        assert(step_len(scaled_toward(dz as int, di)) == if dz >= 0 { sz as int } else { -(sz as int) });
        lemma_abs_sq(wp.x - pos.x, ax - sx);
        lemma_abs_sq(wp.z - pos.z, az - sz);
        assert(planar_dist_sq(*pos, wp) == (ax - sx) * (ax - sx) + (az - sz) * (az - sz));
    }
}

/// The remaining squared planar distance to the front waypoint; zero once
/// the path is empty. This is the measure that shrinks while the entity
/// closes in on a waypoint.
pub open spec fn front_gap_sq(s: MotionState, pos: Point) -> int {
    if s.path@.len() == 0 {
        0
    } else {
        planar_dist_sq(pos, s.path@[0])
    }
}

/// Every waypoint of `s` lies within `CLIMB_LIMIT` of the entity's height.
/// Beyond that climb the 3D-normalized velocity is so diluted that its
/// fixed-point planar components can round to zero, and per-tick progress —
/// hence arrival — can no longer be promised.
pub open spec fn path_within_climb(s: Seq<Point>, pos: Point) -> bool {
    forall|i: int|
        0 <= i < s.len() ==> -CLIMB_LIMIT <= (#[trigger] s[i]).y - pos.y <= CLIMB_LIMIT
}

/// Arrival termination: an entity with any path whose waypoints are within
/// the climb limit of its height, ticked and integrated repeatedly, ends
/// idle — empty path, zero velocity — within a number of ticks bounded by
/// the path length times the per-waypoint closing time (the loop's
/// termination measure, which Verus checks). If the path was non-empty, the
/// entity ends within the arrival tolerance of the final waypoint, and its
/// height never changes.
pub fn run_to_arrival(state: &mut MotionState, pos: &mut Point)
    requires
        old(state).wf(),
        in_bounds(*old(pos)),
        path_in_bounds(old(state).path@),
        path_within_climb(old(state).path@, *old(pos)),
    ensures
        final(state).path@.len() == 0,
        final(state).velocity == Velocity::spec_zero(),
        final(state).wf(),
        in_bounds(*final(pos)),
        final(pos).y == old(pos).y,
        old(state).path@.len() > 0 ==> planar_dist_sq(
            *final(pos),
            old(state).path@.last(),
        ) <= ARRIVE_TOL_SQ,
        old(state).path@.len() == 0 ==> *final(pos) == *old(pos),
{
    let ghost orig = state.path@;
    while !state.path.is_empty()
        invariant
            state.wf(),
            in_bounds(*pos),
            path_in_bounds(state.path@),
            path_within_climb(state.path@, *pos),
            pos.y == old(pos).y,
            orig == old(state).path@,
            orig.len() == 0 ==> state.path@.len() == 0,
            state.path@.len() == 0 && orig.len() > 0 ==> planar_dist_sq(
                *pos,
                orig.last(),
            ) <= ARRIVE_TOL_SQ,
            state.path@.len() == 0 ==> state.velocity == Velocity::spec_zero(),
            state.path@.len() > 0 ==> state.path@.last() == orig.last(),
            orig.len() == 0 ==> *pos == *old(pos),
        decreases state.path@.len(), front_gap_sq(*state, *pos),
    {
        let wp = state.path.first();
        let d2 = planar_dist_sq_exec(*pos, wp);
        let ghost pre_path = state.path@;
        state.tick(*pos);
        if d2 > ARRIVE_TOL_SQ as u64 {
            step_toward(pos, wp);
        }
        proof {
            if pre_path.len() > 1 && d2 <= ARRIVE_TOL_SQ as u64 {
                assert(state.path@ =~= pre_path.drop_first());
                assert(state.path@.last() == pre_path.last());
            }
            if state.path@.len() > 0 {
                lemma_sq_nonneg(state.path@[0].x - pos.x);
                lemma_sq_nonneg(state.path@[0].z - pos.z);
            }
        }
    }
}

/// The published speed never exceeds the nominal speed: toward any waypoint
/// outside the arrival tolerance, the velocity's vertical component is zero
/// and its squared planar magnitude is at most `SPEED` squared — it
/// approaches `SPEED` on level ground and drops as the waypoint moves above
/// or below the entity.
pub proof fn lemma_speed_bound(pos: Point, wp: Point)
    requires
        planar_dist_sq(pos, wp) > ARRIVE_TOL_SQ,
    ensures
        vel_toward(pos, wp).y == 0,
        sq(vel_toward(pos, wp).x as int) + sq(vel_toward(pos, wp).z as int) <= (SPEED as int)
            * (SPEED as int),
{
    let dx = wp.x - pos.x;
    let dy = wp.y - pos.y;
    let dz = wp.z - pos.z;
    let d3 = dist3_sq(pos, wp);
    lemma_sq_nonneg(dx);
    lemma_sq_nonneg(dy);
    lemma_sq_nonneg(dz);
    lemma_isqrt_exists(d3);
    let fl = sqrt_floor(d3);
    lemma_dist_at_least_tol(d3, fl);
    let dc = sqrt_ceil(d3);
    assert(dc * dc >= d3 && dc >= 120) by (nonlinear_arith)
        requires
            fl >= 120,
            fl * fl <= d3,
            d3 < (fl + 1) * (fl + 1),
            dc == if fl * fl == d3 { fl } else { fl + 1 };
    let ax = if dx >= 0 { dx } else { -dx };
    let az = if dz >= 0 { dz } else { -dz };
    lemma_abs_sq(dx, ax);
    lemma_abs_sq(dz, az);
    assert(ax <= dc && az <= dc) by (nonlinear_arith)
        requires
            ax >= 0,
            az >= 0,
            dc >= 0,
            ax * ax <= dc * dc,
            az * az <= dc * dc;
    let qx = ax * (SPEED as int) / dc;
    let qz = az * (SPEED as int) / dc;
    vstd::arithmetic::div_mod::lemma_div_pos_is_pos(ax * (SPEED as int), dc);
    vstd::arithmetic::div_mod::lemma_div_pos_is_pos(az * (SPEED as int), dc);
    vstd::arithmetic::div_mod::lemma_fundamental_div_mod(ax * (SPEED as int), dc);
    vstd::arithmetic::div_mod::lemma_mod_division_less_than_divisor(ax * (SPEED as int), dc);
    vstd::arithmetic::div_mod::lemma_fundamental_div_mod(az * (SPEED as int), dc);
    vstd::arithmetic::div_mod::lemma_mod_division_less_than_divisor(az * (SPEED as int), dc);
    assert(dc * qx <= ax * 1000);
    assert(dc * qz <= az * 1000);
    assert(qx <= 1000 && qz <= 1000) by (nonlinear_arith)
        requires
            dc >= 1,
            qx >= 0,
            qz >= 0,
            ax <= dc,
            az <= dc,
            dc * qx <= ax * 1000,
            dc * qz <= az * 1000;
    assert(qx * qx + qz * qz <= 1_000_000) by (nonlinear_arith)
        requires
            dc >= 1,
            qx >= 0,
            qz >= 0,
            dc * qx <= ax * 1000,
            dc * qz <= az * 1000,
            ax >= 0,
            az >= 0,
            ax * ax + az * az <= dc * dc;
    let v = vel_toward(pos, wp);
    assert(v.x as int == scaled_toward(dx, dc));
    assert(v.z as int == scaled_toward(dz, dc));
    lemma_abs_sq(v.x as int, qx);
    lemma_abs_sq(v.z as int, qz);
}

/// `a` is what remains of `b` after consuming zero or more front waypoints.
pub open spec fn is_suffix_of(a: Seq<Point>, b: Seq<Point>) -> bool {
    exists|k: int| 0 <= k <= b.len() && a == #[trigger] b.skip(k)
}

/// A sequence is a suffix of itself: consuming nothing is allowed.
pub proof fn lemma_suffix_refl(s: Seq<Point>)
    ensures
        is_suffix_of(s, s),
{
    assert(s == s.skip(0));
}

/// Waypoint order preservation: one controller tick leaves the path either
/// untouched or with exactly its front waypoint consumed, so across any run
/// of ticks the remaining path is always a suffix of the original sequence —
/// waypoints are consumed strictly in their original order and never
/// reordered, rewritten, or skipped other than by the arrival rule.
pub proof fn lemma_tick_keeps_order(
    pre: MotionState,
    pos: Point,
    post: MotionState,
    orig: Seq<Point>,
)
    requires
        tick_rel(pre, pos, post),
        is_suffix_of(pre.path@, orig),
    ensures
        is_suffix_of(post.path@, orig),
{
    let k = choose|k: int| 0 <= k <= orig.len() && pre.path@ == #[trigger] orig.skip(k);
    if pre.path@.len() > 0 && planar_dist_sq(pos, pre.path@[0]) <= ARRIVE_TOL_SQ {
        assert(post.path@ =~= orig.skip(k + 1));
    }
}

} // verus!
