//! Linear motion: velocity integration and removal past the window's edge.
use vstd::prelude::*;
use crate::geometry::{clamp_coord, clamp_coord_exec, Position, WindowSize, SUBUNITS_PER_UNIT};
use crate::entity::{all_wf, compact, lemma_compact_keeps, lemma_compact_step, lemma_compact_wf, Entity, Movable, Role, Velocity};

verus! {

/// World units per second of a unit velocity.
pub const BASE_SPEED: i64 = 200;

/// Ticks in one second of simulated time.
pub const TICKS_PER_SECOND: i64 = 60;

/// Sub-units travelled in one tick by a unit velocity:
/// `BASE_SPEED * SUBUNITS_PER_UNIT / TICKS_PER_SECOND`.
pub const STEP_PER_TICK: i64 = 200;

/// How far past the window's edge, in world units, an auto-despawning entity may go.
pub const DESPAWN_MARGIN: i64 = 200;

/// Position after one tick at velocity `v`, held within the coordinate limits.
pub open spec fn moved(p: Position, v: Velocity) -> Position {
    Position {
        x: clamp_coord(p.x + v.x * STEP_PER_TICK) as i64,
        y: clamp_coord(p.y + v.y * STEP_PER_TICK) as i64,
        z: p.z,
    }
}

/// One coordinate lies beyond half the window's extent plus the margin.
pub open spec fn beyond(c: int, extent: int) -> bool {
    2 * c > (extent + 2 * DESPAWN_MARGIN) * SUBUNITS_PER_UNIT
    || 2 * c < -(extent + 2 * DESPAWN_MARGIN) * SUBUNITS_PER_UNIT
}

/// The position lies outside the window grown by the margin on some axis.
pub open spec fn outside_window(p: Position, win: WindowSize) -> bool {
    beyond(p.y as int, win.h as int) || beyond(p.x as int, win.w as int)
}

/// What one tick of linear motion makes of an entity: an entity with a
/// velocity and `Movable` moves; an auto-despawning one that ends outside the
/// window plus margin is removed (`None`).
pub open spec fn motion_step(e: Entity, win: WindowSize) -> Option<Entity> {
    match (e.velocity, e.movable) {
        (Some(v), Some(m)) => {
            let n = Entity { pos: moved(e.pos, v), ..e };
            if m.auto_despawn && outside_window(n.pos, win) {
                None
            } else {
                Some(n)
            }
        },
        _ => Some(e),
    }
}

/// What the player's movement makes of an entity: a player with a velocity moves.
pub open spec fn player_step(e: Entity) -> Entity {
    match (e.role, e.velocity) {
        (Role::Player, Some(v)) => Entity { pos: moved(e.pos, v), ..e },
        _ => e,
    }
}

/// The entities after one tick of linear motion.
pub open spec fn moved_all(s: Seq<Entity>, win: WindowSize) -> Seq<Entity> {
    compact(s.map_values(|e: Entity| motion_step(e, win)))
}

fn moved_exec(p: Position, v: Velocity) -> (r: Position)
    requires
        p.in_limits(),
        v.wf(),
    ensures
        r == moved(p, v),
        r.in_limits(),
{
    let x = clamp_coord_exec(p.x as i128 + (v.x as i128) * (STEP_PER_TICK as i128));
    let y = clamp_coord_exec(p.y as i128 + (v.y as i128) * (STEP_PER_TICK as i128));
    Position { x, y, z: p.z }
}

fn beyond_exec(c: i64, extent: u32) -> (r: bool)
    ensures
        r == beyond(c as int, extent as int),
{
    assert(0 <= (extent as i128 + 400) * 60 <= (0xffff_ffffi128 + 400) * 60) by (nonlinear_arith);
    let bound = (extent as i128 + 2 * (DESPAWN_MARGIN as i128)) * (SUBUNITS_PER_UNIT as i128);
    2 * (c as i128) > bound || 2 * (c as i128) < -bound
}

/// Tests whether a position lies outside the window grown by the margin.
pub fn outside_window_exec(p: Position, win: WindowSize) -> (r: bool)
    ensures
        r == outside_window(p, win),
{
    beyond_exec(p.y, win.h) || beyond_exec(p.x, win.w)
}

/// One tick of linear motion for one entity.
pub fn motion_step_exec(e: Entity, win: WindowSize) -> (r: Option<Entity>)
    requires
        e.wf(),
    ensures
        r == motion_step(e, win),
        r matches Some(n) ==> n.wf(),
{
    match (e.velocity, e.movable) {
        (Some(v), Some(m)) => {
            let n = Entity { pos: moved_exec(e.pos, v), ..e };
            if m.auto_despawn && outside_window_exec(n.pos, win) {
                None
            } else {
                Some(n)
            }
        },
        _ => Some(e),
    }
}

/// Advances every entity that has a velocity and `Movable` by one tick and
/// removes the auto-despawning ones that left the window plus margin.
pub fn movable_system(s: &Vec<Entity>, win: WindowSize) -> (r: Vec<Entity>)
    requires
        all_wf(s@),
    ensures
        r@ == moved_all(s@, win),
        all_wf(r@),
{
    let ghost m = s@.map_values(|e: Entity| motion_step(e, win));
    let mut out: Vec<Entity> = Vec::new();
    let mut i: usize = 0;
    while i < s.len()
        invariant
            i <= s.len(),
            all_wf(s@),
            m == s@.map_values(|e: Entity| motion_step(e, win)),
            out@ == compact(m.take(i as int)),
        decreases s.len() - i,
    {
        proof {
            lemma_compact_step(m, i as int);
        }
        let stepped = motion_step_exec(s[i], win);
        if let Some(n) = stepped {
            out.push(n);
        }
        i += 1;
    }
    proof {
        assert(m.take(s.len() as int) =~= m);
        assert forall|k: int| 0 <= k < m.len() implies (#[trigger] m[k] matches Some(e) ==> e.wf()) by {
            assert(s@[k].wf());
        }
        lemma_compact_wf(m);
    }
    out
}

/// Moves every player entity that has a velocity by one tick.
pub fn player_movement_system(s: &mut Vec<Entity>)
    requires
        all_wf(old(s)@),
    ensures
        final(s)@ == old(s)@.map_values(|e: Entity| player_step(e)),
        all_wf(final(s)@),
{
    let ghost s0 = s@;
    let mut i: usize = 0;
    while i < s.len()
        invariant
            i <= s.len(),
            s@.len() == s0.len(),
            all_wf(s@),
            forall|k: int| 0 <= k < i ==> s@[k] == player_step(s0[k]),
            forall|k: int| i <= k < s@.len() ==> s@[k] == s0[k],
        decreases s.len() - i,
    {
        let e = s[i];
        assert(s@[i as int].wf());
        match (e.role, e.velocity) {
            (Role::Player, Some(v)) => {
                let n = Entity { pos: moved_exec(e.pos, v), ..e };
                let ghost before = s@;
                s.set(i, n);
                assert forall|k: int| 0 <= k < s@.len() implies #[trigger] s@[k].wf() by {
                    if k != i {
                        assert(s@[k] == before[k]);
                    }
                }
            },
            _ => {},
        }
        i += 1;
    }
    assert(s@ =~= s0.map_values(|e: Entity| player_step(e)));
}

/// What `n` ticks of linear motion make of an entity (`None`: removed).
pub open spec fn motion_after(e: Entity, win: WindowSize, n: nat) -> Option<Entity>
    decreases n,
{
    if n == 0 {
        Some(e)
    } else {
        match motion_after(e, win, (n - 1) as nat) {
            Some(p) => motion_step(p, win),
            None => None,
        }
    }
}

/// An auto-despawning entity at constant velocity `v` is, after `n` ticks,
/// at its initial position plus `n * STEP_PER_TICK * v` (that is
/// `n * TIME_STEP * BASE_SPEED * v` in world units), as long as none of the
/// positions it passes through lies outside the window plus margin.
#[verifier::spinoff_prover]
pub proof fn lemma_linear_motion(e: Entity, win: WindowSize, n: nat)
    requires
        e.velocity is Some,
        e.movable == Some(Movable { auto_despawn: true }),
        forall|k: int| 1 <= k <= n ==> {
            &&& !beyond(#[trigger] (e.pos.x + k * STEP_PER_TICK * e.velocity->0.x), win.w as int)
            &&& !beyond(e.pos.y + k * STEP_PER_TICK * e.velocity->0.y, win.h as int)
        },
    ensures
        motion_after(e, win, n) matches Some(r) && {
            &&& r.pos.x == e.pos.x + n * STEP_PER_TICK * e.velocity->0.x
            &&& r.pos.y == e.pos.y + n * STEP_PER_TICK * e.velocity->0.y
            &&& r.pos.z == e.pos.z
            &&& r.velocity == e.velocity
            &&& r.movable == e.movable
            &&& r.role == e.role
            &&& r.id == e.id
        },
    decreases n,
{
    if n > 0 {
        let v = e.velocity->0;
        lemma_linear_motion(e, win, (n - 1) as nat);
        let p = motion_after(e, win, (n - 1) as nat)->0;
        let nx = e.pos.x + n * STEP_PER_TICK * v.x;
        let ny = e.pos.y + n * STEP_PER_TICK * v.y;
        assert(p.pos.x + v.x * STEP_PER_TICK == nx) by (nonlinear_arith)
            requires p.pos.x == e.pos.x + (n - 1) * STEP_PER_TICK * v.x, nx == e.pos.x + n * STEP_PER_TICK * v.x;
        assert(p.pos.y + v.y * STEP_PER_TICK == ny) by (nonlinear_arith)
            requires p.pos.y == e.pos.y + (n - 1) * STEP_PER_TICK * v.y, ny == e.pos.y + n * STEP_PER_TICK * v.y;
        assert(!beyond(nx, win.w as int) && !beyond(ny, win.h as int)) by {
            assert(!beyond(e.pos.x + (n as int) * STEP_PER_TICK * e.velocity->0.x, win.w as int));
        }
        assert(clamp_coord(nx) == nx);
        assert(clamp_coord(ny) == ny);
        assert(p.velocity == Some(v) && p.movable == e.movable);
        let r = Entity { pos: moved(p.pos, v), ..p };
        assert(r.pos.x == nx && r.pos.y == ny);
        assert(!outside_window(r.pos, win));
        assert(motion_step(p, win) == Some(r));
        assert(motion_after(e, win, n) == motion_step(p, win));
    } else {
        assert(0 * STEP_PER_TICK * e.velocity->0.x == 0);
        assert(0 * STEP_PER_TICK * e.velocity->0.y == 0);
    }
}

/// The arena after `n` calls of the linear-motion system.
pub open spec fn moved_n(s: Seq<Entity>, win: WindowSize, n: nat) -> Seq<Entity>
    decreases n,
{
    if n == 0 { s } else { moved_all(moved_n(s, win, (n - 1) as nat), win) }
}

/// An entity that `n` ticks of motion keep is, after `n` calls of the
/// linear-motion system on an arena holding it, still in the arena, as those
/// ticks make it.
pub proof fn lemma_moved_n_keeps(s: Seq<Entity>, win: WindowSize, i: int, n: nat)
    requires
        0 <= i < s.len(),
        motion_after(s[i], win, n) is Some,
    ensures
        exists|j: int| 0 <= j < moved_n(s, win, n).len() && moved_n(s, win, n)[j] == motion_after(s[i], win, n)->0,
    decreases n,
{
    if n == 0 {
        assert(moved_n(s, win, 0)[i] == s[i]);
        assert(0 <= i < moved_n(s, win, n).len() && moved_n(s, win, n)[i] == motion_after(s[i], win, n)->0);
    } else {
        let p = motion_after(s[i], win, (n - 1) as nat);
        assert(p is Some);
        lemma_moved_n_keeps(s, win, i, (n - 1) as nat);
        let prev = moved_n(s, win, (n - 1) as nat);
        let j = choose|j: int| 0 <= j < prev.len() && prev[j] == p->0;
        let m = prev.map_values(|e: Entity| motion_step(e, win));
        assert(m[j] == motion_step(p->0, win));
        assert(motion_after(s[i], win, n) == motion_step(p->0, win));
        assert(moved_n(s, win, n) == compact(m));
        lemma_compact_keeps(m, j);
    }
}

/// An auto-despawning entity at constant velocity, after `n` calls of the
/// linear-motion system, is in the arena at its initial position plus
/// `n * STEP_PER_TICK * v`, as long as none of the positions it passes
/// through lies outside the window plus margin.
pub proof fn lemma_linear_motion_calls(s: Seq<Entity>, win: WindowSize, i: int, n: nat)
    requires
        0 <= i < s.len(),
        s[i].velocity is Some,
        s[i].movable == Some(Movable { auto_despawn: true }),
        forall|k: int| 1 <= k <= n ==> {
            &&& !beyond(#[trigger] (s[i].pos.x + k * STEP_PER_TICK * s[i].velocity->0.x), win.w as int)
            &&& !beyond(s[i].pos.y + k * STEP_PER_TICK * s[i].velocity->0.y, win.h as int)
        },
    ensures
        exists|j: int| 0 <= j < moved_n(s, win, n).len() && {
            let r = #[trigger] moved_n(s, win, n)[j];
            &&& r.id == s[i].id
            &&& r.pos.x == s[i].pos.x + n * STEP_PER_TICK * s[i].velocity->0.x
            &&& r.pos.y == s[i].pos.y + n * STEP_PER_TICK * s[i].velocity->0.y
            &&& r.pos.z == s[i].pos.z
        },
{
    lemma_linear_motion(s[i], win, n);
    lemma_moved_n_keeps(s, win, i, n);
}

} // verus!
