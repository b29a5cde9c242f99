//! The entity record: a stable identifier, a role, and optional facets.
use vstd::prelude::*;
use crate::geometry::{Position, Scale, SpriteSize, COORD_LIMIT};

verus! {

/// Largest magnitude of a velocity component.
pub const VELOCITY_LIMIT: i64 = 1048576;

/// Largest formation speed, in world units per second.
pub const SPEED_LIMIT: u32 = 65536;

/// Largest formation radius, in sub-units.
pub const RADIUS_LIMIT: u32 = 1073741824;

/// Direction of travel; one unit moves `BASE_SPEED` world units per second.
#[derive(Clone, Copy, Debug, PartialEq, Eq, Structural)]
pub struct Velocity {
    pub x: i64,
    pub y: i64,
}

/// Marks an entity moved by its velocity; with `auto_despawn` it is removed
/// once it leaves the window by more than the margin.
#[derive(Clone, Copy, Debug, PartialEq, Eq, Structural)]
pub struct Movable {
    pub auto_despawn: bool,
}

/// A circular or elliptical path: start point, pivot and radii in sub-units,
/// speed in world units per second, current angle in `1/ANGLE_UNITS_PER_RADIAN`
/// radians.
#[derive(Clone, Copy, Debug, PartialEq, Eq, Structural)]
pub struct Formation {
    pub start_x: i64,
    pub start_y: i64,
    pub pivot_x: i64,
    pub pivot_y: i64,
    pub radius_x: u32,
    pub radius_y: u32,
    pub speed: u32,
    pub angle: i64,
}

/// Repeating frame timer of an explosion: time elapsed in the current frame.
#[derive(Clone, Copy, Debug, PartialEq, Eq, Structural)]
pub struct ExplosionTimer {
    pub elapsed: u64,
}

/// An explosion animation: its current frame and frame timer.
#[derive(Clone, Copy, Debug, PartialEq, Eq, Structural)]
pub struct Explosion {
    pub frame: u32,
    pub timer: ExplosionTimer,
}

/// A request for an explosion at a position, turned into an explosion entity
/// by the lifecycle step.
#[derive(Clone, Copy, Debug, PartialEq, Eq, Structural)]
pub struct ExplosionToSpawn(pub Position);

/// What an entity is.
#[derive(Clone, Copy, Debug, PartialEq, Eq, Structural)]
pub enum Role {
    Player,
    Enemy,
    PlayerLaser,
    EnemyLaser,
    Explosion,
}

/// One entity of the arena.
#[derive(Clone, Copy, Debug, PartialEq, Eq, Structural)]
pub struct Entity {
    pub id: u64,
    pub role: Role,
    pub pos: Position,
    pub scale: Scale,
    pub size: Option<SpriteSize>,
    pub velocity: Option<Velocity>,
    pub movable: Option<Movable>,
    pub formation: Option<Formation>,
    pub explosion: Option<Explosion>,
}

impl Velocity {
    pub open spec fn wf(self) -> bool {
        -VELOCITY_LIMIT <= self.x <= VELOCITY_LIMIT && -VELOCITY_LIMIT <= self.y <= VELOCITY_LIMIT
    }
}

impl Formation {
    pub open spec fn wf(self) -> bool {
        self.speed <= SPEED_LIMIT && self.radius_x <= RADIUS_LIMIT && self.radius_y <= RADIUS_LIMIT
        && -COORD_LIMIT <= self.start_x <= COORD_LIMIT && -COORD_LIMIT <= self.start_y <= COORD_LIMIT
        && -COORD_LIMIT <= self.pivot_x <= COORD_LIMIT && -COORD_LIMIT <= self.pivot_y <= COORD_LIMIT
    }
}

impl Formation {
    /// Tests the limits of `wf`.
    pub fn is_wf(&self) -> (r: bool)
        ensures
            r == self.wf(),
    {
        self.speed <= SPEED_LIMIT && self.radius_x <= RADIUS_LIMIT && self.radius_y <= RADIUS_LIMIT
        && -COORD_LIMIT <= self.start_x && self.start_x <= COORD_LIMIT
        && -COORD_LIMIT <= self.start_y && self.start_y <= COORD_LIMIT
        && -COORD_LIMIT <= self.pivot_x && self.pivot_x <= COORD_LIMIT
        && -COORD_LIMIT <= self.pivot_y && self.pivot_y <= COORD_LIMIT
    }
}

impl Entity {
    /// Coordinates and velocity stay within the limits that keep arithmetic exact.
    pub open spec fn wf(self) -> bool {
        &&& self.pos.in_limits()
        &&& (self.velocity matches Some(v) ==> v.wf())
        &&& (self.formation matches Some(f) ==> f.wf())
        &&& (self.role == Role::Enemy ==> self.movable is None)
    }
}

/// Every entity of the sequence is well formed.
pub open spec fn all_wf(s: Seq<Entity>) -> bool {
    forall|i: int| 0 <= i < s.len() ==> #[trigger] s[i].wf()
}

/// The entities that remain, in order, when each entity is replaced by what
/// a step made of it (`None`: removed).
pub open spec fn compact(s: Seq<Option<Entity>>) -> Seq<Entity>
    decreases s.len(),
{
    if s.len() == 0 {
        Seq::empty()
    } else {
        let rest = compact(s.drop_last());
        match s.last() {
            Some(e) => rest.push(e),
            None => rest,
        }
    }
}

pub proof fn lemma_compact_step(s: Seq<Option<Entity>>, i: int)
    requires
        0 <= i < s.len(),
    ensures
        compact(s.take(i + 1)) == match s[i] {
            Some(e) => compact(s.take(i)).push(e),
            None => compact(s.take(i)),
        },
{
    assert(s.take(i + 1).drop_last() =~= s.take(i));
}

/// Whatever a step keeps is well formed when the step keeps well-formedness.
pub proof fn lemma_compact_wf(s: Seq<Option<Entity>>)
    requires
        forall|i: int| 0 <= i < s.len() ==> (#[trigger] s[i] matches Some(e) ==> e.wf()),
    ensures
        all_wf(compact(s)),
    decreases s.len(),
{
    if s.len() > 0 {
        let t = s.drop_last();
        assert forall|i: int| 0 <= i < t.len() implies (#[trigger] t[i] matches Some(e) ==> e.wf()) by {
            assert(t[i] == s[i]);
        }
        lemma_compact_wf(t);
    }
}

pub open spec fn is_enemy(e: Entity) -> bool {
    e.role == Role::Enemy
}

/// The number of enemies in `s`.
pub open spec fn enemies(s: Seq<Entity>) -> nat
    decreases s.len(),
{
    if s.len() == 0 {
        0
    } else {
        enemies(s.drop_last()) + if is_enemy(s.last()) { 1nat } else { 0nat }
    }
}

pub proof fn lemma_enemies_push(s: Seq<Entity>, e: Entity)
    ensures
        enemies(s.push(e)) == enemies(s) + if is_enemy(e) { 1nat } else { 0nat },
{
    assert(s.push(e).drop_last() =~= s);
}

pub proof fn lemma_enemies_append(s: Seq<Entity>, t: Seq<Entity>)
    ensures
        enemies(s + t) == enemies(s) + enemies(t),
    decreases t.len(),
{
    if t.len() > 0 {
        assert((s + t).drop_last() =~= s + t.drop_last());
        lemma_enemies_append(s, t.drop_last());
    } else {
        assert(s + t =~= s);
    }
}

/// Sequences whose entities agree, index by index, on being enemies hold as many.
pub proof fn lemma_enemies_same_roles(s: Seq<Entity>, t: Seq<Entity>)
    requires
        s.len() == t.len(),
        forall|i: int| 0 <= i < s.len() ==> is_enemy(#[trigger] s[i]) == is_enemy(t[i]),
    ensures
        enemies(s) == enemies(t),
    decreases s.len(),
{
    if s.len() > 0 {
        let (a, b) = (s.drop_last(), t.drop_last());
        assert forall|i: int| 0 <= i < a.len() implies is_enemy(#[trigger] a[i]) == is_enemy(b[i]) by {
            assert(a[i] == s[i] && b[i] == t[i]);
        }
        lemma_enemies_same_roles(a, b);
    }
}

/// A sequence without enemies counts none.
pub proof fn lemma_no_enemies(t: Seq<Entity>)
    requires
        forall|i: int| 0 <= i < t.len() ==> !is_enemy(#[trigger] t[i]),
    ensures
        enemies(t) == 0,
    decreases t.len(),
{
    if t.len() > 0 {
        let a = t.drop_last();
        assert forall|i: int| 0 <= i < a.len() implies !is_enemy(#[trigger] a[i]) by {
            assert(a[i] == t[i]);
        }
        lemma_no_enemies(a);
    }
}

/// A step that keeps every enemy as an enemy and makes no new one keeps the count.
pub proof fn lemma_enemies_compact(s: Seq<Entity>, m: Seq<Option<Entity>>)
    requires
        m.len() == s.len(),
        forall|i: int| 0 <= i < s.len() && is_enemy(#[trigger] s[i]) ==> (m[i] matches Some(e) && is_enemy(e)),
        forall|i: int| 0 <= i < s.len() && (#[trigger] m[i] matches Some(e) && is_enemy(e)) ==> is_enemy(s[i]),
    ensures
        enemies(compact(m)) == enemies(s),
    decreases s.len(),
{
    if s.len() > 0 {
        let (a, b) = (s.drop_last(), m.drop_last());
        assert forall|i: int| 0 <= i < a.len() && is_enemy(#[trigger] a[i]) implies (b[i] matches Some(e) && is_enemy(e)) by {
            assert(a[i] == s[i] && b[i] == m[i]);
        }
        assert forall|i: int| 0 <= i < a.len() && (#[trigger] b[i] matches Some(e) && is_enemy(e)) implies is_enemy(a[i]) by {
            assert(a[i] == s[i] && b[i] == m[i]);
        }
        lemma_enemies_compact(a, b);
        let j = s.len() - 1;
        if let Some(e) = m.last() {
            lemma_enemies_push(compact(b), e);
        }
        assert(s.last() == s[j] && m.last() == m[j]);
        if is_enemy(s[j]) {
            assert(m[j] matches Some(e) && is_enemy(e));
        }
        match m[j] {
            Some(e) => {
                if is_enemy(e) {
                    assert(is_enemy(s[j]));
                }
            },
            None => {},
        }
    }
}

/// A sequence of only non-enemies after compaction counts none.
pub proof fn lemma_compact_no_enemies(m: Seq<Option<Entity>>)
    requires
        forall|i: int| 0 <= i < m.len() ==> (#[trigger] m[i] matches Some(e) ==> !is_enemy(e)),
    ensures
        enemies(compact(m)) == 0,
    decreases m.len(),
{
    if m.len() > 0 {
        let b = m.drop_last();
        assert forall|i: int| 0 <= i < b.len() implies (#[trigger] b[i] matches Some(e) ==> !is_enemy(e)) by {
            assert(b[i] == m[i]);
        }
        lemma_compact_no_enemies(b);
        assert(m.last() == m[m.len() - 1]);
        if let Some(e) = m.last() {
            lemma_enemies_push(compact(b), e);
        }
    }
}

/// Whatever a step keeps of an entity is among the remaining entities.
pub proof fn lemma_compact_keeps(m: Seq<Option<Entity>>, i: int)
    requires
        0 <= i < m.len(),
        m[i] is Some,
    ensures
        exists|j: int| 0 <= j < compact(m).len() && compact(m)[j] == m[i]->0,
    decreases m.len(),
{
    let b = m.drop_last();
    assert(compact(m) == match m.last() {
        Some(e) => compact(b).push(e),
        None => compact(b),
    });
    if i == m.len() - 1 {
        assert(m.last() == m[i]);
        let j = compact(b).len() as int;
        assert(0 <= j < compact(m).len() && compact(m)[j] == m[i]->0);
    } else {
        assert(b[i] == m[i]);
        lemma_compact_keeps(b, i);
        let j = choose|j: int| 0 <= j < compact(b).len() && compact(b)[j] == b[i]->0;
        assert(0 <= j < compact(m).len() && compact(m)[j] == m[i]->0);
    }
}

} // verus!
