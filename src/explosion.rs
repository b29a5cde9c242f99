//! Explosion animations: the repeating frame timer and removal after the last frame.
use vstd::prelude::*;
use crate::entity::{all_wf, compact, lemma_compact_keeps, lemma_compact_step, lemma_compact_wf, Entity, Explosion, ExplosionTimer, Role};

verus! {

/// Time is counted in `1 / TIME_UNITS_PER_SECOND` seconds.
pub const TIME_UNITS_PER_SECOND: u64 = 1200;

/// Length of one tick (1/60 s), in time units.
pub const TICK_TIME: u64 = 20;

/// Length of one explosion frame (0.05 s), in time units.
pub const EXPLOSION_PERIOD: u64 = 60;

/// Frames of the explosion animation.
pub const EXPLOSION_LEN: u32 = 16;

/// What advancing the animation clock by `delta` makes of an entity. An
/// explosion's timer gains `delta`; when it reaches the period, the frame
/// advances and the timer keeps the remainder, and once the frame reaches
/// `EXPLOSION_LEN` the explosion is removed (`None`). Other entities are unchanged.
pub open spec fn explosion_step(e: Entity, delta: u64) -> Option<Entity> {
    match (e.role, e.explosion) {
        (Role::Explosion, Some(x)) => {
            let total = x.timer.elapsed + delta;
            if total >= EXPLOSION_PERIOD {
                if x.frame + 1 >= EXPLOSION_LEN {
                    None
                } else {
                    Some(Entity {
                        explosion: Some(Explosion {
                            frame: (x.frame + 1) as u32,
                            timer: ExplosionTimer { elapsed: (total % EXPLOSION_PERIOD as int) as u64 },
                        }),
                        ..e
                    })
                }
            } else {
                Some(Entity {
                    explosion: Some(Explosion { frame: x.frame, timer: ExplosionTimer { elapsed: total as u64 } }),
                    ..e
                })
            }
        },
        _ => Some(e),
    }
}

/// The entities after advancing every explosion by `delta`.
pub open spec fn animated_all(s: Seq<Entity>, delta: u64) -> Seq<Entity> {
    compact(s.map_values(|e: Entity| explosion_step(e, delta)))
}

/// What `n` clock advances of `delta` make of an entity.
pub open spec fn explosion_after(e: Entity, delta: u64, n: nat) -> Option<Entity>
    decreases n,
{
    if n == 0 {
        Some(e)
    } else {
        match explosion_after(e, delta, (n - 1) as nat) {
            Some(p) => explosion_step(p, delta),
            None => None,
        }
    }
}

/// A new explosion at frame 0 with an empty timer.
pub open spec fn fresh_explosion(e: Entity) -> bool {
    e.role == Role::Explosion && e.explosion == Some(Explosion { frame: 0, timer: ExplosionTimer { elapsed: 0 } })
}

impl ExplosionTimer {
    pub fn new() -> (r: ExplosionTimer)
        ensures
            r.elapsed == 0,
    {
        ExplosionTimer { elapsed: 0 }
    }
}

impl Default for ExplosionTimer {
    fn default() -> (r: ExplosionTimer)
        ensures
            r.elapsed == 0,
    {
        ExplosionTimer::new()
    }
}

/// Advances one entity's explosion animation by `delta`.
pub fn explosion_step_exec(e: Entity, delta: u64) -> (r: Option<Entity>)
    ensures
        r == explosion_step(e, delta),
        e.wf() ==> (r matches Some(n) ==> n.wf()),
{
    match (e.role, e.explosion) {
        (Role::Explosion, Some(x)) => {
            let total: u128 = x.timer.elapsed as u128 + delta as u128;
            if total >= EXPLOSION_PERIOD as u128 {
                if x.frame >= EXPLOSION_LEN - 1 {
                    None
                } else {
                    let rest = (total % EXPLOSION_PERIOD as u128) as u64;
                    Some(Entity {
                        explosion: Some(Explosion { frame: x.frame + 1, timer: ExplosionTimer { elapsed: rest } }),
                        ..e
                    })
                }
            } else {
                Some(Entity {
                    explosion: Some(Explosion { frame: x.frame, timer: ExplosionTimer { elapsed: total as u64 } }),
                    ..e
                })
            }
        },
        _ => Some(e),
    }
}

/// Advances every explosion's animation by `delta` and removes those past
/// their last frame.
pub fn explosion_animation_system(s: &Vec<Entity>, delta: u64) -> (r: Vec<Entity>)
    requires
        all_wf(s@),
    ensures
        r@ == animated_all(s@, delta),
        all_wf(r@),
{
    let ghost m = s@.map_values(|e: Entity| explosion_step(e, delta));
    let mut out: Vec<Entity> = Vec::new();
    let mut i: usize = 0;
    while i < s.len()
        invariant
            i <= s.len(),
            m == s@.map_values(|e: Entity| explosion_step(e, delta)),
            out@ == compact(m.take(i as int)),
        decreases s.len() - i,
    {
        proof {
            lemma_compact_step(m, i as int);
        }
        if let Some(n) = explosion_step_exec(s[i], delta) {
            out.push(n);
        }
        i += 1;
    }
    proof {
        assert(m.take(s.len() as int) =~= m);
        assert forall|k: int| 0 <= k < m.len() implies (#[trigger] m[k] matches Some(e) ==> e.wf()) by {
            assert(s@[k].wf());
        }
        lemma_compact_wf(m);
    }
    out
}

/// Advancing the clock by a whole period advances an explosion one frame: a
/// new explosion is still there, at frame `n`, after `n < EXPLOSION_LEN`
/// advances, and is removed at exactly the `EXPLOSION_LEN`-th.
pub proof fn lemma_explosion_lifetime(e: Entity, n: nat)
    requires
        fresh_explosion(e),
        n <= EXPLOSION_LEN,
    ensures
        n < EXPLOSION_LEN ==> (explosion_after(e, EXPLOSION_PERIOD, n) matches Some(r)
            && r.explosion == Some(Explosion { frame: n as u32, timer: ExplosionTimer { elapsed: 0 } })
            && r.role == Role::Explosion && r.pos == e.pos && r.id == e.id),
        n == EXPLOSION_LEN ==> explosion_after(e, EXPLOSION_PERIOD, n) is None,
    decreases n,
{
    if n > 0 {
        lemma_explosion_lifetime(e, (n - 1) as nat);
    }
}

/// At the fixed tick length a frame lasts three ticks: a new explosion is
/// still there after `3 * m` ticks for `m < EXPLOSION_LEN`, at frame `m`, and
/// is removed at tick `3 * EXPLOSION_LEN`, not earlier.
pub proof fn lemma_explosion_ticks(e: Entity, m: nat)
    requires
        fresh_explosion(e),
        m < EXPLOSION_LEN,
    ensures
        explosion_after(e, TICK_TIME, 3 * m) matches Some(r)
            && r.explosion == Some(Explosion { frame: m as u32, timer: ExplosionTimer { elapsed: 0 } })
            && r.role == Role::Explosion,
        explosion_after(e, TICK_TIME, 3 * m + 1) is Some,
        explosion_after(e, TICK_TIME, 3 * m + 2) is Some,
        m + 1 == EXPLOSION_LEN ==> explosion_after(e, TICK_TIME, 3 * m + 3) is None,
    decreases m,
{
    if m > 0 {
        lemma_explosion_ticks(e, (m - 1) as nat);
        assert(3 * m == 3 * (m - 1) + 3);
    }
    assert(explosion_after(e, TICK_TIME, 3 * m + 1) == match explosion_after(e, TICK_TIME, 3 * m) {
        Some(p) => explosion_step(p, TICK_TIME),
        None => None,
    });
    assert(explosion_after(e, TICK_TIME, 3 * m + 2) == match explosion_after(e, TICK_TIME, 3 * m + 1) {
        Some(p) => explosion_step(p, TICK_TIME),
        None => None,
    });
    assert(explosion_after(e, TICK_TIME, 3 * m + 3) == match explosion_after(e, TICK_TIME, 3 * m + 2) {
        Some(p) => explosion_step(p, TICK_TIME),
        None => None,
    });
}

/// What clock advances of `ds[0]`, `ds[1]`, ... make of an entity.
pub open spec fn explosion_over(e: Entity, ds: Seq<u64>) -> Option<Entity>
    decreases ds.len(),
{
    if ds.len() == 0 {
        Some(e)
    } else {
        match explosion_over(e, ds.drop_last()) {
            Some(p) => explosion_step(p, ds.last()),
            None => None,
        }
    }
}

/// The sum of the advances.
pub open spec fn total_time(ds: Seq<u64>) -> int
    decreases ds.len(),
{
    if ds.len() == 0 { 0 } else { total_time(ds.drop_last()) + ds.last() }
}

/// Each advance is positive and at most one frame period.
pub open spec fn short_steps(ds: Seq<u64>) -> bool {
    forall|i: int| 0 <= i < ds.len() ==> 0 < #[trigger] ds[i] <= EXPLOSION_PERIOD
}

/// With advances of at most one period, a new explosion is alive while the
/// time elapsed is under `EXPLOSION_LEN` periods; its frame and timer then
/// account for exactly that time.
pub proof fn lemma_explosion_alive(e: Entity, ds: Seq<u64>)
    requires
        fresh_explosion(e),
        short_steps(ds),
        total_time(ds) < EXPLOSION_LEN * EXPLOSION_PERIOD,
    ensures
        explosion_over(e, ds) matches Some(r) && r.role == Role::Explosion && r.pos == e.pos
            && r.id == e.id && r.explosion is Some
            && r.explosion->0.frame * EXPLOSION_PERIOD + r.explosion->0.timer.elapsed == total_time(ds)
            && r.explosion->0.timer.elapsed < EXPLOSION_PERIOD,
    decreases ds.len(),
{
    if ds.len() > 0 {
        let a = ds.drop_last();
        assert(short_steps(a)) by {
            assert forall|i: int| 0 <= i < a.len() implies 0 < #[trigger] a[i] <= EXPLOSION_PERIOD by {
                assert(a[i] == ds[i]);
            }
        }
        assert(ds.last() == ds[ds.len() - 1]);
        lemma_explosion_alive(e, a);
    }
}

/// With advances of at most one period, a new explosion is removed by the
/// advance that brings the time elapsed to `EXPLOSION_LEN` periods.
pub proof fn lemma_explosion_removed(e: Entity, ds: Seq<u64>)
    requires
        fresh_explosion(e),
        short_steps(ds),
        ds.len() > 0,
        total_time(ds.drop_last()) < EXPLOSION_LEN * EXPLOSION_PERIOD,
        total_time(ds) >= EXPLOSION_LEN * EXPLOSION_PERIOD,
    ensures
        explosion_over(e, ds) is None,
{
    let a = ds.drop_last();
    assert(short_steps(a)) by {
        assert forall|i: int| 0 <= i < a.len() implies 0 < #[trigger] a[i] <= EXPLOSION_PERIOD by {
            assert(a[i] == ds[i]);
        }
    }
    assert(ds.last() == ds[ds.len() - 1]);
    lemma_explosion_alive(e, a);
}

/// The arena after one call of the animation system per advance in `ds`.
pub open spec fn animated_over(s: Seq<Entity>, ds: Seq<u64>) -> Seq<Entity>
    decreases ds.len(),
{
    if ds.len() == 0 { s } else { animated_all(animated_over(s, ds.drop_last()), ds.last()) }
}

/// An explosion that the advances keep is, after one call of the animation
/// system per advance, still in the arena, as those advances make it.
pub proof fn lemma_animated_over_keeps(s: Seq<Entity>, ds: Seq<u64>, i: int)
    requires
        0 <= i < s.len(),
        explosion_over(s[i], ds) is Some,
    ensures
        exists|j: int| 0 <= j < animated_over(s, ds).len() && animated_over(s, ds)[j] == explosion_over(s[i], ds)->0,
    decreases ds.len(),
{
    if ds.len() == 0 {
        assert(0 <= i < animated_over(s, ds).len() && animated_over(s, ds)[i] == explosion_over(s[i], ds)->0);
    } else {
        let a = ds.drop_last();
        let p = explosion_over(s[i], a);
        assert(p is Some);
        lemma_animated_over_keeps(s, a, i);
        let prev = animated_over(s, a);
        let j = choose|j: int| 0 <= j < prev.len() && prev[j] == p->0;
        let m = prev.map_values(|e: Entity| explosion_step(e, ds.last()));
        assert(m[j] == explosion_step(p->0, ds.last()));
        assert(explosion_over(s[i], ds) == explosion_step(p->0, ds.last()));
        assert(animated_over(s, ds) == compact(m));
        lemma_compact_keeps(m, j);
    }
}

/// A new explosion in the arena, after calls of the animation system with
/// advances of at most one period that total less than `EXPLOSION_LEN`
/// periods, is still there, its frame and timer accounting for that time:
/// it is not removed before its last frame advance.
pub proof fn lemma_explosion_alive_calls(s: Seq<Entity>, ds: Seq<u64>, i: int)
    requires
        0 <= i < s.len(),
        fresh_explosion(s[i]),
        short_steps(ds),
        total_time(ds) < EXPLOSION_LEN * EXPLOSION_PERIOD,
    ensures
        exists|j: int| 0 <= j < animated_over(s, ds).len() && {
            let r = #[trigger] animated_over(s, ds)[j];
            &&& r.id == s[i].id
            &&& r.role == Role::Explosion
            &&& r.explosion is Some
            &&& r.explosion->0.frame * EXPLOSION_PERIOD + r.explosion->0.timer.elapsed == total_time(ds)
        },
{
    lemma_explosion_alive(s[i], ds);
    lemma_animated_over_keeps(s, ds, i);
    let j = choose|j: int| 0 <= j < animated_over(s, ds).len() && animated_over(s, ds)[j] == explosion_over(s[i], ds)->0;
    assert(animated_over(s, ds)[j] == explosion_over(s[i], ds)->0);
}

} // verus!
