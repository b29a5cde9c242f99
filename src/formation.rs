//! Formation paths: the per-tick follower and the generator of new paths.
use vstd::prelude::*;
use crate::geometry::{clamp_coord, clamp_coord_exec, WindowSize, COORD_LIMIT};
use crate::random::draw_between;
use rand::rngs::StdRng;
use crate::entity::{all_wf, Entity, Formation, Role, RADIUS_LIMIT, SPEED_LIMIT};

verus! {

/// Angles are stored in `1 / ANGLE_UNITS_PER_RADIAN` radians.
pub const ANGLE_UNITS_PER_RADIAN: i64 = 3600;

/// Turning direction: clockwise (-1) for a path that starts left of the
/// centre line, counter-clockwise (1) otherwise.
pub open spec fn direction(f: Formation) -> int {
    if f.start_x < 0 { -1 } else { 1 }
}

/// The angle gained in one advance: `dir * speed * TIME_STEP * min(rx, rx * PI / 2)`
/// radians. The radius is never negative, so the minimum is `rx`; with `rx`
/// in sub-units and `TIME_STEP = 1/60 s` this is `dir * speed * rx_sub / 3600`
/// radians, that is `dir * speed * rx_sub` angle units.
pub open spec fn angle_step(f: Formation) -> int {
    direction(f) * f.speed * f.radius_x
}

pub open spec fn clamp_i64(v: int) -> int {
    if v > i64::MAX { i64::MAX as int } else if v < i64::MIN { i64::MIN as int } else { v }
}

/// The angle a formation takes once its follower has closed on the path point.
pub open spec fn advanced_angle(f: Formation) -> int {
    clamp_i64(f.angle + angle_step(f))
}

/// `r` is the integer square root of `n`.
pub open spec fn is_root(n: int, r: int) -> bool {
    0 <= r && r * r <= n < (r + 1) * (r + 1)
}

pub open spec fn root_of(n: int) -> int {
    choose|r: int| is_root(n, r)
}

/// The distance `sqrt(d2)` is below the threshold `max_step * speed / 20`,
/// with `max_step = TIME_STEP * speed = speed` sub-units; squared and
/// multiplied through, `400 * d2 < speed^4`.
pub open spec fn close_enough(d2: int, speed: int) -> bool {
    400 * d2 < speed * speed * speed * speed
}

pub open spec fn abs(v: int) -> int {
    if v < 0 { -v } else { v }
}

/// The step along one axis, `|delta| * max_step / distance`, with the distance
/// rounded down to an integer; zero at distance zero.
pub open spec fn axis_shift(delta: int, speed: int, root: int) -> int {
    if root == 0 { 0 } else { abs(delta) * speed / root }
}

/// The new coordinate: moved toward `dst` by `shift`, never past it.
pub open spec fn axis_step(org: int, dst: int, shift: int) -> int {
    if org > dst {
        if org - shift > dst { org - shift } else { dst }
    } else {
        if org + shift < dst { org + shift } else { dst }
    }
}

/// What one tick of formation following makes of an entity, given the path
/// point `target` at the formation's current angle. An enemy with a formation
/// moves toward the point by at most `speed` sub-units along the line to it,
/// clamped per axis so as not to pass it; the formation's angle becomes the
/// advanced one only when the distance was below the threshold. Any other
/// entity is unchanged.
pub open spec fn follow_step(e: Entity, target: (i64, i64)) -> Entity {
    match (e.role, e.formation) {
        (Role::Enemy, Some(f)) => {
            let tx = clamp_coord(target.0 as int);
            let ty = clamp_coord(target.1 as int);
            let dx = e.pos.x - tx;
            let dy = e.pos.y - ty;
            let d2 = dx * dx + dy * dy;
            let root = root_of(d2);
            let nf = if close_enough(d2, f.speed as int) {
                Formation { angle: advanced_angle(f) as i64, ..f }
            } else {
                f
            };
            Entity {
                pos: crate::geometry::Position {
                    x: axis_step(e.pos.x as int, tx, axis_shift(dx, f.speed as int, root)) as i64,
                    y: axis_step(e.pos.y as int, ty, axis_shift(dy, f.speed as int, root)) as i64,
                    z: e.pos.z,
                },
                formation: Some(nf),
                ..e
            }
        },
        _ => e,
    }
}

pub proof fn lemma_root_unique(n: int, r1: int, r2: int)
    requires
        is_root(n, r1),
        is_root(n, r2),
    ensures
        r1 == r2,
{
    if r1 < r2 {
        assert((r1 + 1) * (r1 + 1) <= r2 * r2) by (nonlinear_arith)
            requires 0 <= r1, r1 + 1 <= r2;
    } else if r2 < r1 {
        assert((r2 + 1) * (r2 + 1) <= r1 * r1) by (nonlinear_arith)
            requires 0 <= r2, r2 + 1 <= r1;
    }
}

/// Integer square root by bisection.
fn isqrt(n: u128) -> (r: u128)
    requires
        n < 0x400_0000_0000_0000_0000_0000,
    ensures
        is_root(n as int, r as int),
        r == root_of(n as int),
{
    let mut lo: u128 = 0;
    let mut hi: u128 = 0x2000_0000_0000;
    assert(0x2000_0000_0000u128 * 0x2000_0000_0000u128 == 0x400_0000_0000_0000_0000_0000u128);
    while hi - lo > 1
        invariant
            lo < hi <= 0x2000_0000_0000,
            lo * lo <= n,
            n < hi * hi,
        decreases hi - lo,
    {
        let mid = lo + (hi - lo) / 2;
        assert(mid * mid <= 0x2000_0000_0000u128 * 0x2000_0000_0000u128) by (nonlinear_arith)
            requires mid < 0x2000_0000_0000u128;
        if mid * mid <= n {
            lo = mid;
        } else {
            hi = mid;
        }
    }
    proof {
        assert(is_root(n as int, lo as int));
        lemma_root_unique(n as int, lo as int, root_of(n as int));
    }
    lo
}

/// The angle that formation `f` takes when its follower closes on the path point.
pub fn advanced_angle_of(f: Formation) -> (r: i64)
    requires
        f.wf(),
    ensures
        r == advanced_angle(f),
{
    assert(0 <= f.speed * f.radius_x <= 65536 * 1073741824) by (nonlinear_arith)
        requires f.speed <= 65536, f.radius_x <= 1073741824;
    let mag: i128 = (f.speed as i128) * (f.radius_x as i128);
    let step: i128 = if f.start_x < 0 { -mag } else { mag };
    assert(step == angle_step(f)) by (nonlinear_arith)
        requires
            mag == f.speed * f.radius_x,
            step == if f.start_x < 0 { -(mag as int) } else { mag as int },
            angle_step(f) == direction(f) * f.speed * f.radius_x,
            direction(f) == if f.start_x < 0 { -1int } else { 1int };
    let a: i128 = f.angle as i128 + step;
    if a > i64::MAX as i128 {
        i64::MAX
    } else if a < i64::MIN as i128 {
        i64::MIN
    } else {
        a as i64
    }
}

fn axis_step_exec(org: i64, dst: i64, shift: i128) -> (r: i64)
    requires
        -COORD_LIMIT <= org <= COORD_LIMIT,
        -COORD_LIMIT <= dst <= COORD_LIMIT,
        0 <= shift < 0x1_0000_0000_0000_0000,
    ensures
        r == axis_step(org as int, dst as int, shift as int),
        -COORD_LIMIT <= r <= COORD_LIMIT,
{
    if org > dst {
        if org as i128 - shift > dst as i128 { (org as i128 - shift) as i64 } else { dst }
    } else {
        if org as i128 + shift < dst as i128 { (org as i128 + shift) as i64 } else { dst }
    }
}

fn axis_shift_exec(delta: i128, speed: u32, root: u128) -> (r: i128)
    requires
        -0x200_0000_0000 <= delta <= 0x200_0000_0000,
        speed <= SPEED_LIMIT,
        root == 0 || root <= 0x1_0000_0000_0000_0000,
    ensures
        r == axis_shift(delta as int, speed as int, root as int),
        0 <= r < 0x1_0000_0000_0000_0000,
{
    if root == 0 {
        0
    } else {
        let a: u128 = if delta < 0 { (-delta) as u128 } else { delta as u128 };
        assert(a * speed <= 0x200_0000_0000 * 65536) by (nonlinear_arith)
            requires a <= 0x200_0000_0000, speed <= 65536;
        let num: u128 = a * speed as u128;
        let q: u128 = num / root;
        assert(q <= num) by (nonlinear_arith)
            requires q == num / root, root >= 1, num >= 0;
        q as i128
    }
}

/// One tick of formation following for one entity; `target` is the path
/// point at the current angle of its formation.
pub fn follow_step_exec(e: Entity, target: (i64, i64)) -> (r: Entity)
    requires
        e.wf(),
    ensures
        r == follow_step(e, target),
        r.wf(),
{
    match (e.role, e.formation) {
        (Role::Enemy, Some(f)) => {
            let tx = clamp_coord_exec(target.0 as i128);
            let ty = clamp_coord_exec(target.1 as i128);
            let dx: i128 = e.pos.x as i128 - tx as i128;
            let dy: i128 = e.pos.y as i128 - ty as i128;
            assert(dx * dx <= 0x100_0000_0000 * 0x100_0000_0000 * 4) by (nonlinear_arith)
                requires -0x200_0000_0000 <= dx <= 0x200_0000_0000;
            assert(dy * dy <= 0x100_0000_0000 * 0x100_0000_0000 * 4) by (nonlinear_arith)
                requires -0x200_0000_0000 <= dy <= 0x200_0000_0000;
            assert(dx * dx >= 0 && dy * dy >= 0) by (nonlinear_arith);
            let d2: u128 = (dx * dx + dy * dy) as u128;
            let root = isqrt(d2);
            assert(root <= 0x1_0000_0000_0000_0000) by (nonlinear_arith)
                requires root * root <= d2, d2 < 0x400_0000_0000_0000_0000_0000;
            let sx = axis_shift_exec(dx, f.speed, root);
            let sy = axis_shift_exec(dy, f.speed, root);
            let nx = axis_step_exec(e.pos.x, tx, sx);
            let ny = axis_step_exec(e.pos.y, ty, sy);
            let s: u128 = f.speed as u128;
            assert(s * s <= 65536u128 * 65536u128) by (nonlinear_arith)
                requires s <= 65536;
            assert(s * s * s <= 65536u128 * 65536u128 * 65536u128) by (nonlinear_arith)
                requires s <= 65536, s * s <= 65536u128 * 65536u128;
            assert(s * s * s * s <= 65536u128 * 65536u128 * 65536u128 * 65536u128) by (nonlinear_arith)
                requires s <= 65536, s * s * s <= 65536u128 * 65536u128 * 65536u128;
            assert(65536u128 * 65536u128 * 65536u128 * 65536u128 == 0x1_0000_0000_0000_0000u128);
            let nf = if 400 * d2 < s * s * s * s {
                Formation { angle: advanced_angle_of(f), ..f }
            } else {
                f
            };
            Entity {
                pos: crate::geometry::Position { x: nx, y: ny, z: e.pos.z },
                formation: Some(nf),
                ..e
            }
        },
        _ => e,
    }
}

/// While an enemy is at or beyond the threshold distance from its path point,
/// a tick of following leaves its formation's angle unchanged; below it the
/// angle becomes the advanced one.
pub proof fn lemma_angle_advances_only_when_close(e: Entity, target: (i64, i64))
    requires
        e.role == Role::Enemy,
        e.formation is Some,
    ensures
        ({
            let f = e.formation->0;
            let dx = e.pos.x - clamp_coord(target.0 as int);
            let dy = e.pos.y - clamp_coord(target.1 as int);
            let nf = follow_step(e, target).formation->0;
            &&& !close_enough(dx * dx + dy * dy, f.speed as int) ==> nf.angle == f.angle
            &&& close_enough(dx * dx + dy * dy, f.speed as int) ==> nf.angle == advanced_angle(f)
        }),
{
}

/// What `n` ticks of following toward the fixed path point `target` make of
/// an entity.
pub open spec fn follow_n(e: Entity, target: (i64, i64), n: nat) -> Entity
    decreases n,
{
    if n == 0 { e } else { follow_step(follow_n(e, target, (n - 1) as nat), target) }
}

/// The squared distance from an entity to the (clamped) path point.
pub open spec fn dist2(e: Entity, target: (i64, i64)) -> int {
    let dx = e.pos.x - clamp_coord(target.0 as int);
    let dy = e.pos.y - clamp_coord(target.1 as int);
    dx * dx + dy * dy
}

/// Over ticks toward the path point at the current angle, the formation
/// keeps its angle (and its start, pivot, radii and speed) through every
/// tick that began at or beyond the threshold distance, and the first tick
/// that begins below it advances the angle by one step,
/// `dir * speed * TIME_STEP * min(rx, rx * PI / 2)`.
pub proof fn lemma_follow_until_close(e: Entity, target: (i64, i64), n: nat)
    requires
        e.role == Role::Enemy,
        e.formation is Some,
        forall|k: nat| k < n ==> !close_enough(dist2(#[trigger] follow_n(e, target, k), target), e.formation->0.speed as int),
    ensures
        follow_n(e, target, n).role == Role::Enemy,
        follow_n(e, target, n).formation == e.formation,
        close_enough(dist2(follow_n(e, target, n), target), e.formation->0.speed as int) ==>
            follow_n(e, target, n + 1).formation == Some(Formation { angle: advanced_angle(e.formation->0) as i64, ..e.formation->0 }),
    decreases n,
{
    if n > 0 {
        lemma_follow_until_close(e, target, (n - 1) as nat);
        assert(!close_enough(dist2(follow_n(e, target, (n - 1) as nat), target), e.formation->0.speed as int));
    }
    assert(follow_n(e, target, n + 1) == follow_step(follow_n(e, target, n), target));
}

/// Following for every entity: entity `k` heads for `targets[k]`; an entity
/// without a target is unchanged.
pub open spec fn followed_all(s: Seq<Entity>, targets: Seq<(i64, i64)>) -> Seq<Entity> {
    Seq::new(s.len(), |k: int| if k < targets.len() { follow_step(s[k], targets[k]) } else { s[k] })
}

/// Advances every enemy along its formation path by one tick; `targets[k]`
/// is the path point, at the current angle, of entity `k`'s formation.
pub fn enemy_movement_system(s: &mut Vec<Entity>, targets: &Vec<(i64, i64)>)
    requires
        all_wf(old(s)@),
    ensures
        final(s)@ == followed_all(old(s)@, targets@),
        all_wf(final(s)@),
{
    let ghost s0 = s@;
    let mut i: usize = 0;
    while i < s.len()
        invariant
            i <= s.len(),
            s@.len() == s0.len(),
            all_wf(s@),
            forall|k: int| 0 <= k < i ==> s@[k] == followed_all(s0, targets@)[k],
            forall|k: int| i <= k < s@.len() ==> s@[k] == s0[k],
        decreases s.len() - i,
    {
        if i < targets.len() {
            let e = s[i];
            assert(s@[i as int].wf());
            let n = follow_step_exec(e, targets[i]);
            let ghost before = s@;
            s.set(i, n);
            assert forall|k: int| 0 <= k < s@.len() implies #[trigger] s@[k].wf() by {
                if k != i {
                    assert(s@[k] == before[k]);
                }
            }
        }
        i += 1;
    }
    assert(s@ =~= followed_all(s0, targets@));
}

/// Enemies that share one formation's path before a new one is drawn.
pub const FORMATION_MEMBERS_MAX: u32 = 2;

/// Distance, in world units, kept between a formation's start and the window's edge.
pub const EDGE_MARGIN: i64 = 100;

/// Vertical radius of every formation, in sub-units (100 world units).
pub const FORMATION_RADIUS_Y: u32 = 6000;

/// Smallest and one past the largest horizontal radius, in sub-units (80 and 150 world units).
pub const RADIUS_X_MIN: i64 = 4800;
pub const RADIUS_X_END: i64 = 9000;

/// Speed of every formation, in world units per second.
pub const FORMATION_SPEED: u32 = 200;

/// The random parameters of a new formation, in sub-units.
#[derive(Clone, Copy, Debug, PartialEq, Eq, Structural)]
pub struct FormationDraw {
    pub start_x: i64,
    pub start_y: i64,
    pub pivot_x: i64,
    pub pivot_y: i64,
    pub radius_x: u32,
}

/// Hands out formations: members of one group share its path until the group
/// is full, then a new group is drawn.
#[derive(Clone, Copy, Debug, PartialEq, Eq, Structural)]
pub struct FormationMaker {
    pub current: Option<Formation>,
    pub members: u32,
}

/// `v` lies in `[-span, span)`, or is 0 where that range is empty.
pub open spec fn in_span(v: int, span: int) -> bool {
    if span > 0 { -span <= v < span } else { v == 0 }
}

/// `v` lies in `[0, top)`, or is 0 where that range is empty.
pub open spec fn in_upto(v: int, top: int) -> bool {
    if top > 0 { 0 <= v < top } else { v == 0 }
}

/// Half the window's width or height less the edge margin, in sub-units.
pub open spec fn start_span(extent: int) -> int {
    extent * 30 - EDGE_MARGIN * 60
}

/// The draw respects the ranges of a new formation in this window: its start
/// within the window less the edge margin, its pivot within the middle half
/// of the width and the lower part `[0, h/3 - 50)` of the upper half, its
/// horizontal radius in `[80, 150)` world units.
pub open spec fn draw_in_ranges(d: FormationDraw, win: WindowSize) -> bool {
    &&& in_span(d.start_x as int, start_span(win.w as int))
    &&& in_span(d.start_y as int, start_span(win.h as int))
    &&& in_span(d.pivot_x as int, win.w * 15)
    &&& in_upto(d.pivot_y as int, win.h * 20 - 3000)
    &&& RADIUS_X_MIN <= d.radius_x < RADIUS_X_END
}

impl FormationDraw {
    pub open spec fn wf(self) -> bool {
        &&& -COORD_LIMIT <= self.start_x <= COORD_LIMIT
        &&& -COORD_LIMIT <= self.start_y <= COORD_LIMIT
        &&& -COORD_LIMIT <= self.pivot_x <= COORD_LIMIT
        &&& -COORD_LIMIT <= self.pivot_y <= COORD_LIMIT
        &&& self.radius_x <= RADIUS_LIMIT
    }
}

/// The formation that a draw describes, at angle 0.
pub open spec fn from_draw(d: FormationDraw) -> Formation {
    Formation {
        start_x: d.start_x,
        start_y: d.start_y,
        pivot_x: d.pivot_x,
        pivot_y: d.pivot_y,
        radius_x: d.radius_x,
        radius_y: FORMATION_RADIUS_Y,
        speed: FORMATION_SPEED,
        angle: 0,
    }
}

fn draw_in_span(rng: &mut StdRng, span: i64) -> (r: i64)
    ensures
        in_span(r as int, span as int),
{
    if span > 0 {
        draw_between(rng, -span, span)
    } else {
        0
    }
}

fn draw_upto(rng: &mut StdRng, top: i64) -> (r: i64)
    ensures
        in_upto(r as int, top as int),
{
    if top > 0 {
        draw_between(rng, 0, top)
    } else {
        0
    }
}

/// Draws the parameters of a new formation for this window.
pub fn draw_formation(rng: &mut StdRng, win: WindowSize) -> (r: FormationDraw)
    ensures
        draw_in_ranges(r, win),
        r.wf(),
{
    let sx = draw_in_span(rng, win.w as i64 * 30 - EDGE_MARGIN * 60);
    let sy = draw_in_span(rng, win.h as i64 * 30 - EDGE_MARGIN * 60);
    let px = draw_in_span(rng, win.w as i64 * 15);
    let py = draw_upto(rng, win.h as i64 * 20 - 3000);
    let rx = draw_between(rng, RADIUS_X_MIN, RADIUS_X_END);
    FormationDraw { start_x: sx, start_y: sy, pivot_x: px, pivot_y: py, radius_x: rx as u32 }
}

impl FormationMaker {
    pub open spec fn wf(self) -> bool {
        &&& self.members <= FORMATION_MEMBERS_MAX
        &&& (self.current matches Some(f) ==> f.wf())
    }

    /// The maker joins the next enemy to the current group.
    pub open spec fn reuses(self) -> bool {
        self.current is Some && self.members < FORMATION_MEMBERS_MAX
    }

    pub open spec fn new_spec() -> FormationMaker {
        FormationMaker { current: None, members: 0 }
    }

    pub fn new() -> (r: FormationMaker)
        ensures
            r == FormationMaker::new_spec(),
            r.wf(),
    {
        FormationMaker { current: None, members: 0 }
    }

    /// The next enemy's formation, with `draw` as the parameters where a new
    /// group begins: the current group's formation while it has room, else a
    /// new group of one member made from `draw`.
    pub fn make_with(&mut self, draw: FormationDraw) -> (r: Formation)
        requires
            old(self).wf(),
            draw.wf(),
        ensures
            final(self).wf(),
            r.wf(),
            old(self).reuses() ==> r == old(self).current->0 && final(self).current == old(self).current
                && final(self).members == old(self).members + 1,
            !old(self).reuses() ==> r == from_draw(draw) && final(self).current == Some(r)
                && final(self).members == 1,
    {
        match self.current {
            Some(f) => {
                if self.members < FORMATION_MEMBERS_MAX {
                    self.members = self.members + 1;
                    return f;
                }
            },
            None => {},
        }
        let f = Formation {
            start_x: draw.start_x,
            start_y: draw.start_y,
            pivot_x: draw.pivot_x,
            pivot_y: draw.pivot_y,
            radius_x: draw.radius_x,
            radius_y: FORMATION_RADIUS_Y,
            speed: FORMATION_SPEED,
            angle: 0,
        };
        self.current = Some(f);
        self.members = 1;
        f
    }

    /// The next enemy's formation; a new group draws its parameters from `rng`.
    pub fn make(&mut self, win: WindowSize, rng: &mut StdRng) -> (r: Formation)
        requires
            old(self).wf(),
        ensures
            final(self).wf(),
            r.wf(),
            old(self).reuses() ==> r == old(self).current->0 && final(self).current == old(self).current
                && final(self).members == old(self).members + 1,
            !old(self).reuses() ==> (exists|d: FormationDraw| draw_in_ranges(d, win) && r == from_draw(d))
                && final(self).current == Some(r) && final(self).members == 1,
    {
        if self.reuses_exec() {
            let ignored = FormationDraw { start_x: 0, start_y: 0, pivot_x: 0, pivot_y: 0, radius_x: 0 };
            self.make_with(ignored)
        } else {
            let d = draw_formation(rng, win);
            self.make_with(d)
        }
    }

    fn reuses_exec(&self) -> (r: bool)
        ensures
            r == self.reuses(),
    {
        self.current.is_some() && self.members < FORMATION_MEMBERS_MAX
    }
}

} // verus!
