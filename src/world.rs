//! The simulation state and the fixed per-tick pipeline of systems.
use vstd::prelude::*;
use rand::rngs::StdRng;
use crate::geometry::{Position, Scale, SpriteSize, WindowSize, SCALE_ONE};
use crate::entity::{all_wf, enemies, is_enemy, lemma_enemies_append, lemma_enemies_compact, lemma_enemies_same_roles, lemma_no_enemies, lemma_compact_no_enemies, Entity, Explosion, ExplosionTimer, ExplosionToSpawn, Formation, Movable, Role, Velocity};
use crate::geometry::clamp_coord;
use crate::formation::{draw_in_ranges, enemy_movement_system, follow_step, followed_all, from_draw, FormationDraw, FormationMaker};
use crate::motion::{motion_step, moved_all, movable_system, player_movement_system, player_step};
use crate::collision::{consumed_enemies, lemma_consumed_none, lemma_consumed_update, lemma_kept_enemies, lemma_laser_pass_count, enemy_laser_hit_player, keep_unconsumed, kept, laser_pass, player_hit, player_laser_hit_enemy, requests, single_player};
use crate::explosion::{animated_all, explosion_animation_system, explosion_step, TICK_TIME};
use crate::random::{draw_chance, seeded};

verus! {

/// Most enemies alive at once.
pub const ENEMY_MAX: u32 = 2;

/// An enemy fires with a chance of one in `ENEMY_FIRE_ODDS` per tick.
pub const ENEMY_FIRE_ODDS: u32 = 120;

/// Time between enemy spawn attempts (1 s), in time units.
pub const ENEMY_SPAWN_INTERVAL: u64 = 1200;

/// Delay before the player may respawn (2 s), in time units; for the respawn policy.
pub const PLAYER_RESPAWN_DELAY: u64 = 2400;

/// Collision boxes, in world units.
pub const PLAYER_SIZE: (u32, u32) = (1024, 1024);
pub const ENEMY_SIZE: (u32, u32) = (103, 84);
pub const PLAYER_LASER_SIZE: (u32, u32) = (9, 54);
pub const ENEMY_LASER_SIZE: (u32, u32) = (9, 37);

/// Scales, in thousandths.
pub const PLAYER_SCALE: u32 = 100;
pub const ENEMY_SCALE: u32 = 500;

/// Depth at which ships and lasers are drawn.
pub const SHIP_DEPTH: i64 = 10;

/// Vertical offset of a new laser from its ship (15 world units), in sub-units.
pub const LASER_OFFSET: i64 = 900;

/// Whether the player is alive, and when it was last shot down.
#[derive(Clone, Copy, Debug, PartialEq, Eq, Structural)]
pub struct PlayerState {
    pub on: bool,
    pub last_shot: Option<u64>,
}

impl PlayerState {
    pub fn new() -> (r: PlayerState)
        ensures
            r == (PlayerState { on: false, last_shot: None }),
    {
        PlayerState { on: false, last_shot: None }
    }

    /// The player was shot down at `time`.
    pub fn shot(&mut self, time: u64)
        ensures
            *final(self) == (PlayerState { on: false, last_shot: Some(time) }),
    {
        self.on = false;
        self.last_shot = Some(time);
    }

    /// The player is alive again.
    pub fn spawned(&mut self)
        ensures
            *final(self) == (PlayerState { on: true, last_shot: None }),
    {
        self.on = true;
        self.last_shot = None;
    }
}

impl Default for PlayerState {
    fn default() -> (r: PlayerState)
        ensures
            r == (PlayerState { on: false, last_shot: None }),
    {
        PlayerState::new()
    }
}

/// The resolved horizontal intent of the player for one tick.
#[derive(Clone, Copy, Debug, PartialEq, Eq, Structural)]
pub enum Intent {
    Left,
    Idle,
    Right,
}

pub open spec fn intent_x(i: Intent) -> int {
    match i {
        Intent::Left => -1,
        Intent::Idle => 0,
        Intent::Right => 1,
    }
}

/// The identifier `n` places after `start`, wrapping at 2^64.
pub open spec fn id_after(start: u64, n: int) -> u64 {
    ((start + n) % 0x1_0000_0000_0000_0000) as u64
}

/// The entities of `s` numbered from `start`.
pub open spec fn numbered(s: Seq<Entity>, start: u64) -> Seq<Entity> {
    Seq::new(s.len(), |k: int| Entity { id: id_after(start, k), ..s[k] })
}

/// Every requested explosion lies within the coordinate limits.
pub open spec fn pending_wf(p: Seq<ExplosionToSpawn>) -> bool {
    forall|i: int| 0 <= i < p.len() ==> (#[trigger] p[i]).0.in_limits()
}

/// The whole simulation: the arena of entities and the shared counters.
pub struct World {
    pub entities: Vec<Entity>,
    pub next_id: u64,
    pub enemy_count: u32,
    pub player: PlayerState,
    pub maker: FormationMaker,
    pub win: WindowSize,
    pub pending: Vec<ExplosionToSpawn>,
    pub clock: u64,
    pub spawn_timer: u64,
    pub rng: StdRng,
}

impl World {
    /// Entities are within the arithmetic limits, the live-enemy count is the
    /// number of enemies in the arena and at most `ENEMY_MAX`, and the
    /// formation maker is consistent.
    pub open spec fn wf(&self) -> bool {
        &&& all_wf(self.entities@)
        &&& self.enemy_count == enemies(self.entities@)
        &&& self.enemy_count <= ENEMY_MAX
        &&& self.maker.wf()
        &&& pending_wf(self.pending@)
    }

    /// An empty world for a window of the given size, with its random source
    /// seeded by `seed`.
    pub fn new(win: WindowSize, seed: u64) -> (r: World)
        ensures
            r.wf(),
            r.entities@.len() == 0,
            r.next_id == 0,
            r.enemy_count == 0,
            r.player == (PlayerState { on: false, last_shot: None }),
            r.maker == FormationMaker::new_spec(),
            r.win == win,
            r.pending@.len() == 0,
            r.clock == 0,
            r.spawn_timer == 0,
    {
        World {
            entities: Vec::new(),
            next_id: 0,
            enemy_count: 0,
            player: PlayerState::new(),
            maker: FormationMaker::new(),
            win,
            pending: Vec::new(),
            clock: 0,
            spawn_timer: 0,
            rng: seeded(seed),
        }
    }

    /// Adds `new` to the arena, numbering the entities from `next_id` on.
    fn spawn_all(&mut self, new: Vec<Entity>)
        requires
            old(self).wf(),
            all_wf(new@),
        ensures
            all_wf(final(self).entities@),
            final(self).enemy_count <= ENEMY_MAX,
            final(self).maker.wf(),
            pending_wf(final(self).pending@),
            enemies(final(self).entities@) == enemies(old(self).entities@) + enemies(new@),
            final(self).entities@ == old(self).entities@ + numbered(new@, old(self).next_id),
            final(self).next_id == id_after(old(self).next_id, new@.len() as int),
            final(self).enemy_count == old(self).enemy_count,
            final(self).player == old(self).player,
            final(self).maker == old(self).maker,
            final(self).win == old(self).win,
            final(self).pending@ == old(self).pending@,
            final(self).clock == old(self).clock,
            final(self).spawn_timer == old(self).spawn_timer,
    {
        let ghost e0 = self.entities@;
        let ghost start = self.next_id;
        let mut k: usize = 0;
        while k < new.len()
            invariant
                k <= new@.len(),
                all_wf(new@),
                all_wf(e0),
                self.next_id == id_after(start, k as int),
                self.entities@ == e0 + numbered(new@.take(k as int), start),
                self.enemy_count == old(self).enemy_count,
                self.enemy_count <= ENEMY_MAX,
                self.maker == old(self).maker,
                self.maker.wf(),
                self.player == old(self).player,
                self.win == old(self).win,
                self.pending@ == old(self).pending@,
                self.clock == old(self).clock,
                self.spawn_timer == old(self).spawn_timer,
                e0 == old(self).entities@,
                start == old(self).next_id,
                old(self).wf(),
            decreases new.len() - k,
        {
            let e = Entity { id: self.next_id, ..new[k] };
            self.entities.push(e);
            self.next_id = if self.next_id < u64::MAX { self.next_id + 1 } else { 0 };
            proof {
                assert(numbered(new@.take(k as int + 1), start) =~= numbered(new@.take(k as int), start).push(e));
            }
            k += 1;
        }
        assert(new@.take(new@.len() as int) =~= new@);
        assert forall|i: int| 0 <= i < self.entities@.len() implies #[trigger] self.entities@[i].wf() by {
            if i >= e0.len() {
                assert(new@[i - e0.len()].wf());
            }
        }
        proof {
            lemma_enemies_append(e0, numbered(new@, start));
            lemma_enemies_same_roles(numbered(new@, start), new@);
        }
    }

    /// Everything but the entities, the identifiers and the explosion requests.
    pub open spec fn counters(&self) -> (u32, PlayerState, FormationMaker, WindowSize, u64, u64) {
        (self.enemy_count, self.player, self.maker, self.win, self.clock, self.spawn_timer)
    }

    /// One tick of linear motion for every movable entity.
    pub fn movable_system(&mut self)
        requires
            old(self).wf(),
        ensures
            final(self).wf(),
            final(self).entities@ == moved_all(old(self).entities@, old(self).win),
            final(self).counters() == old(self).counters(),
            final(self).next_id == old(self).next_id,
            final(self).pending@ == old(self).pending@,
    {
        let ghost s0 = self.entities@;
        let ghost win = self.win;
        self.entities = movable_system(&self.entities, self.win);
        proof {
            let m = s0.map_values(|e: Entity| motion_step(e, win));
            assert forall|i: int| 0 <= i < s0.len() && is_enemy(#[trigger] s0[i]) implies (m[i] matches Some(e) && is_enemy(e)) by {
                assert(s0[i].wf());
            }
            lemma_enemies_compact(s0, m);
        }
    }

    /// One tick of movement for the player.
    pub fn player_movement_system(&mut self)
        requires
            old(self).wf(),
        ensures
            final(self).wf(),
            final(self).entities@ == old(self).entities@.map_values(|e: Entity| player_step(e)),
            final(self).counters() == old(self).counters(),
            final(self).next_id == old(self).next_id,
            final(self).pending@ == old(self).pending@,
    {
        let ghost s0 = self.entities@;
        player_movement_system(&mut self.entities);
        proof {
            lemma_enemies_same_roles(s0, s0.map_values(|e: Entity| player_step(e)));
        }
    }

    /// One tick of formation following; `targets[k]` is the path point, at
    /// the current angle, of entity `k`'s formation.
    pub fn enemy_movement_system(&mut self, targets: &Vec<(i64, i64)>)
        requires
            old(self).wf(),
        ensures
            final(self).wf(),
            final(self).entities@ == followed_all(old(self).entities@, targets@),
            final(self).counters() == old(self).counters(),
            final(self).next_id == old(self).next_id,
            final(self).pending@ == old(self).pending@,
    {
        let ghost s0 = self.entities@;
        enemy_movement_system(&mut self.entities, targets);
        proof {
            lemma_enemies_same_roles(s0, followed_all(s0, targets@));
        }
    }

    /// Advances every explosion's animation by `delta` time units.
    pub fn explosion_animation_system(&mut self, delta: u64)
        requires
            old(self).wf(),
        ensures
            final(self).wf(),
            final(self).entities@ == animated_all(old(self).entities@, delta),
            final(self).counters() == old(self).counters(),
            final(self).next_id == old(self).next_id,
            final(self).pending@ == old(self).pending@,
    {
        let ghost s0 = self.entities@;
        self.entities = explosion_animation_system(&self.entities, delta);
        proof {
            let m = s0.map_values(|e: Entity| explosion_step(e, delta));
            lemma_enemies_compact(s0, m);
        }
    }
}

impl World {
    /// The player-laser pass: each player laser destroys the first unconsumed
    /// enemy that it overlaps; both are removed, the live-enemy count drops by
    /// one per hit, and an explosion is requested at each destroyed enemy.
    pub fn player_laser_hit_enemy_system(&mut self)
        requires
            old(self).wf(),
        ensures
            final(self).wf(),
            ({
                let (c, h) = laser_pass(old(self).entities@, old(self).entities@.len());
                &&& final(self).entities@ == kept(old(self).entities@, c)
                &&& h.len() <= old(self).enemy_count
                &&& final(self).enemy_count == old(self).enemy_count - h.len()
                &&& final(self).pending@ == old(self).pending@ + requests(old(self).entities@, h)
            }),
            final(self).player == old(self).player,
            final(self).maker == old(self).maker,
            final(self).win == old(self).win,
            final(self).clock == old(self).clock,
            final(self).spawn_timer == old(self).spawn_timer,
            final(self).next_id == old(self).next_id,
    {
        let ghost s0 = self.entities@;
        let (rest, reqs) = player_laser_hit_enemy(&self.entities);
        proof {
            crate::collision::lemma_laser_pass_consumes_once(s0, s0.len());
            lemma_kept_wf(s0, laser_pass(s0, s0.len()).0);
            lemma_kept_enemies(s0, laser_pass(s0, s0.len()).0);
            lemma_laser_pass_count(s0, s0.len());
        }
        self.entities = rest;
        let hits = reqs.len();
        self.enemy_count = self.enemy_count - hits as u32;
        let mut reqs = reqs;
        let ghost queued = self.pending@;
        self.pending.append(&mut reqs);
        proof {
            let h = laser_pass(s0, s0.len()).1;
            assert forall|i: int| 0 <= i < self.pending@.len() implies (#[trigger] self.pending@[i]).0.in_limits() by {
                if i >= queued.len() {
                    let a = i - queued.len();
                    assert(0 <= h[a].0);
                    assert(s0[h[a].1].wf());
                } else {
                    assert(queued[i] == self.pending@[i]);
                }
            }
        }
    }

    /// The enemy-laser pass: with a single player, the first enemy laser that
    /// overlaps it destroys it; both are removed, the player is marked shot
    /// at the current clock, and an explosion is requested at its position.
    /// Without a single player, or without a hit, nothing changes.
    pub fn enemy_laser_hit_player_system(&mut self)
        requires
            old(self).wf(),
        ensures
            final(self).wf(),
            final(self).next_id == old(self).next_id,
            final(self).enemy_count == old(self).enemy_count,
            final(self).maker == old(self).maker,
            final(self).win == old(self).win,
            final(self).clock == old(self).clock,
            final(self).spawn_timer == old(self).spawn_timer,
            match player_hit(old(self).entities@) {
                Some(pl) => {
                    &&& final(self).entities@ == kept(old(self).entities@,
                        Seq::new(old(self).entities@.len(), |k: int| k == pl.0 || k == pl.1))
                    &&& final(self).player == (PlayerState { on: false, last_shot: Some(old(self).clock) })
                    &&& final(self).pending@ == old(self).pending@.push(ExplosionToSpawn(old(self).entities@[pl.0].pos))
                },
                None => {
                    &&& final(self).entities@ == old(self).entities@
                    &&& final(self).player == old(self).player
                    &&& final(self).pending@ == old(self).pending@
                },
            },
    {
        match enemy_laser_hit_player(&self.entities) {
            Some((p, l)) => {
                let ghost s0 = self.entities@;
                let n = self.entities.len();
                let mut c: Vec<bool> = Vec::new();
                let mut k: usize = 0;
                while k < n
                    invariant
                        k <= n,
                        n == s0.len(),
                        c@ == Seq::new(k as nat, |j: int| j == p as int || j == l as int),
                    decreases n - k,
                {
                    c.push(k == p || k == l);
                    k += 1;
                }
                assert(c@ =~= Seq::new(s0.len(), |j: int| j == p as int || j == l as int));
                let pos = self.entities[p].pos;
                assert(s0[p as int].wf());
                let rest = keep_unconsumed(&self.entities, &c);
                proof {
                    lemma_kept_wf(s0, c@);
                    lemma_kept_enemies(s0, c@);
                    let none = Seq::new(s0.len(), |k: int| false);
                    lemma_consumed_none(s0, s0.len());
                    assert(c@ =~= none.update(p as int, true).update(l as int, true));
                    lemma_consumed_update(s0, none, p as int);
                    lemma_consumed_update(s0, none.update(p as int, true), l as int);
                }
                self.entities = rest;
                let now = self.clock;
                self.player.shot(now);
                let ghost queued = self.pending@;
                self.pending.push(ExplosionToSpawn(pos));
                assert forall|i: int| 0 <= i < self.pending@.len() implies (#[trigger] self.pending@[i]).0.in_limits() by {
                    if i < queued.len() {
                        assert(queued[i] == self.pending@[i]);
                    }
                }
                let ghost pl = (p as int, l as int);
                assert(Seq::new(s0.len(), |k: int| k == pl.0 || k == pl.1)
                    =~= Seq::new(s0.len(), |j: int| j == p as int || j == l as int));
            },
            None => {},
        }
    }
}

/// What the pass keeps of well-formed entities is well formed.
pub proof fn lemma_kept_wf(s: Seq<Entity>, c: Seq<bool>)
    requires
        all_wf(s),
        c.len() == s.len(),
    ensures
        all_wf(kept(s, c)),
{
    let m = Seq::new(s.len(), |k: int| if c[k] { None } else { Some(s[k]) });
    assert forall|i: int| 0 <= i < m.len() implies (#[trigger] m[i] matches Some(e) ==> e.wf()) by {
        assert(s[i].wf());
    }
    crate::entity::lemma_compact_wf(m);
}

/// A new enemy on formation `f`, at the formation's start.
pub open spec fn enemy_entity(f: Formation) -> Entity {
    Entity {
        id: 0,
        role: Role::Enemy,
        pos: Position { x: f.start_x, y: f.start_y, z: SHIP_DEPTH },
        scale: Scale { x: ENEMY_SCALE, y: ENEMY_SCALE },
        size: Some(SpriteSize { w: ENEMY_SIZE.0, h: ENEMY_SIZE.1 }),
        velocity: None,
        movable: None,
        formation: Some(f),
        explosion: None,
    }
}

/// A laser fired by enemy `e`: just below it, heading down.
pub open spec fn enemy_laser_for(e: Entity) -> Entity {
    Entity {
        id: 0,
        role: Role::EnemyLaser,
        pos: Position { x: e.pos.x, y: clamp_coord(e.pos.y - LASER_OFFSET) as i64, z: SHIP_DEPTH },
        scale: Scale { x: SCALE_ONE, y: SCALE_ONE },
        size: Some(SpriteSize { w: ENEMY_LASER_SIZE.0, h: ENEMY_LASER_SIZE.1 }),
        velocity: Some(Velocity { x: 0, y: -1i64 }),
        movable: Some(Movable { auto_despawn: true }),
        formation: None,
        explosion: None,
    }
}

/// A laser fired by player `e`: just above it, heading up.
pub open spec fn player_laser_for(e: Entity) -> Entity {
    Entity {
        id: 0,
        role: Role::PlayerLaser,
        pos: Position { x: e.pos.x, y: clamp_coord(e.pos.y + LASER_OFFSET) as i64, z: SHIP_DEPTH },
        scale: Scale { x: SCALE_ONE, y: SCALE_ONE },
        size: Some(SpriteSize { w: PLAYER_LASER_SIZE.0, h: PLAYER_LASER_SIZE.1 }),
        velocity: Some(Velocity { x: 0, y: 1 }),
        movable: Some(Movable { auto_despawn: true }),
        formation: None,
        explosion: None,
    }
}

/// A new player, centred at the bottom of the window: its centre a quarter
/// of its unscaled height plus 15 world units above the bottom edge.
pub open spec fn player_entity(win: WindowSize) -> Entity {
    Entity {
        id: 0,
        role: Role::Player,
        pos: Position { x: 0, y: (-(win.h as int) * 30 + (PLAYER_SIZE.1 / 4 + 15) * 60) as i64, z: SHIP_DEPTH },
        scale: Scale { x: PLAYER_SCALE, y: PLAYER_SCALE },
        size: Some(SpriteSize { w: PLAYER_SIZE.0, h: PLAYER_SIZE.1 }),
        velocity: Some(Velocity { x: 0, y: 0 }),
        movable: None,
        formation: None,
        explosion: None,
    }
}

/// An explosion at the requested position, at frame 0.
pub open spec fn explosion_entity(r: ExplosionToSpawn) -> Entity {
    Entity {
        id: 0,
        role: Role::Explosion,
        pos: r.0,
        scale: Scale { x: SCALE_ONE, y: SCALE_ONE },
        size: None,
        velocity: None,
        movable: None,
        formation: None,
        explosion: Some(Explosion { frame: 0, timer: ExplosionTimer { elapsed: 0 } }),
    }
}

/// A player with a velocity takes the intent as its horizontal velocity.
pub open spec fn steer(e: Entity, intent: Intent) -> Entity {
    match (e.role, e.velocity) {
        (Role::Player, Some(v)) => Entity { velocity: Some(Velocity { x: intent_x(intent) as i64, y: v.y }), ..e },
        _ => e,
    }
}

/// The single player, where there is exactly one, steered by the intent.
pub open spec fn steered(s: Seq<Entity>, intent: Intent) -> Seq<Entity> {
    match single_player(s) {
        Some(p) => s.update(p, steer(s[p], intent)),
        None => s,
    }
}

/// The lasers fired by every enemy, in order.
pub open spec fn enemy_volley(s: Seq<Entity>) -> Seq<Entity> {
    crate::entity::compact(s.map_values(|e: Entity| if e.role == Role::Enemy { Some(enemy_laser_for(e)) } else { None }))
}

/// How the formation maker moved from `m0` to `m1` in handing out `f`.
pub open spec fn maker_step(m0: FormationMaker, m1: FormationMaker, f: Formation, win: WindowSize) -> bool {
    &&& m1.current == Some(f)
    &&& m0.reuses() ==> f == m0.current->0 && m1.members == m0.members + 1
    &&& !m0.reuses() ==> (exists|d: FormationDraw| draw_in_ranges(d, win) && f == from_draw(d)) && m1.members == 1
}

fn enemy_entity_exec(f: Formation) -> (r: Entity)
    requires
        f.wf(),
    ensures
        r == enemy_entity(f),
        r.wf(),
{
    Entity {
        id: 0,
        role: Role::Enemy,
        pos: Position { x: f.start_x, y: f.start_y, z: SHIP_DEPTH },
        scale: Scale { x: ENEMY_SCALE, y: ENEMY_SCALE },
        size: Some(SpriteSize { w: ENEMY_SIZE.0, h: ENEMY_SIZE.1 }),
        velocity: None,
        movable: None,
        formation: Some(f),
        explosion: None,
    }
}

fn one(e: Entity) -> (r: Vec<Entity>)
    ensures
        r@ == seq![e],
{
    let mut v: Vec<Entity> = Vec::new();
    v.push(e);
    v
}

impl World {
    /// Spawns an enemy while fewer than `ENEMY_MAX` are alive, on the next
    /// formation of the maker, whose new groups draw from `draw`.
    pub fn enemy_spawn_with(&mut self, draw: FormationDraw)
        requires
            old(self).wf(),
            draw.wf(),
        ensures
            final(self).wf(),
            final(self).player == old(self).player,
            final(self).win == old(self).win,
            final(self).clock == old(self).clock,
            final(self).spawn_timer == old(self).spawn_timer,
            final(self).pending@ == old(self).pending@,
            old(self).enemy_count < ENEMY_MAX ==> {
                let f = if old(self).maker.reuses() { old(self).maker.current->0 } else { from_draw(draw) };
                &&& final(self).enemy_count == old(self).enemy_count + 1
                &&& final(self).maker.current == Some(f)
                &&& final(self).maker.members == if old(self).maker.reuses() { old(self).maker.members + 1 } else { 1 }
                &&& final(self).entities@ == old(self).entities@ + numbered(seq![enemy_entity(f)], old(self).next_id)
                &&& final(self).next_id == id_after(old(self).next_id, 1)
            },
            old(self).enemy_count >= ENEMY_MAX ==> {
                &&& final(self).enemy_count == old(self).enemy_count
                &&& final(self).maker == old(self).maker
                &&& final(self).entities@ == old(self).entities@
                &&& final(self).next_id == old(self).next_id
            },
    {
        if self.enemy_count < ENEMY_MAX {
            let f = self.maker.make_with(draw);
            let e = enemy_entity_exec(f);
            let v = one(e);
            assert(all_wf(v@)) by { assert(v@[0] == e); }
            proof {
                crate::entity::lemma_enemies_push(Seq::empty(), e);
                assert(Seq::<Entity>::empty().push(e) =~= v@);
            }
            self.spawn_all(v);
            self.enemy_count = self.enemy_count + 1;
        }
    }

    /// Spawns an enemy while fewer than `ENEMY_MAX` are alive, on the next
    /// formation of the maker, whose new groups draw from the random source.
    pub fn enemy_spawn_system(&mut self)
        requires
            old(self).wf(),
        ensures
            final(self).wf(),
            final(self).player == old(self).player,
            final(self).win == old(self).win,
            final(self).clock == old(self).clock,
            final(self).spawn_timer == old(self).spawn_timer,
            final(self).pending@ == old(self).pending@,
            old(self).enemy_count < ENEMY_MAX ==> {
                let f = final(self).maker.current->0;
                &&& maker_step(old(self).maker, final(self).maker, f, old(self).win)
                &&& final(self).enemy_count == old(self).enemy_count + 1
                &&& final(self).entities@ == old(self).entities@ + numbered(seq![enemy_entity(f)], old(self).next_id)
                &&& final(self).next_id == id_after(old(self).next_id, 1)
            },
            old(self).enemy_count >= ENEMY_MAX ==> {
                &&& final(self).enemy_count == old(self).enemy_count
                &&& final(self).maker == old(self).maker
                &&& final(self).entities@ == old(self).entities@
                &&& final(self).next_id == old(self).next_id
            },
    {
        if self.enemy_count < ENEMY_MAX {
            let win = self.win;
            let f = self.maker.make(win, &mut self.rng);
            let e = enemy_entity_exec(f);
            let v = one(e);
            assert(all_wf(v@)) by { assert(v@[0] == e); }
            proof {
                crate::entity::lemma_enemies_push(Seq::empty(), e);
                assert(Seq::<Entity>::empty().push(e) =~= v@);
            }
            self.spawn_all(v);
            self.enemy_count = self.enemy_count + 1;
        }
    }
}

fn enemy_laser_exec(e: Entity) -> (r: Entity)
    requires
        e.wf(),
    ensures
        r == enemy_laser_for(e),
        r.wf(),
{
    let y = crate::geometry::clamp_coord_exec(e.pos.y as i128 - LASER_OFFSET as i128);
    Entity {
        id: 0,
        role: Role::EnemyLaser,
        pos: Position { x: e.pos.x, y, z: SHIP_DEPTH },
        scale: Scale { x: SCALE_ONE, y: SCALE_ONE },
        size: Some(SpriteSize { w: ENEMY_LASER_SIZE.0, h: ENEMY_LASER_SIZE.1 }),
        velocity: Some(Velocity { x: 0, y: -1 }),
        movable: Some(Movable { auto_despawn: true }),
        formation: None,
        explosion: None,
    }
}

fn player_laser_exec(e: Entity) -> (r: Entity)
    requires
        e.wf(),
    ensures
        r == player_laser_for(e),
        r.wf(),
{
    let y = crate::geometry::clamp_coord_exec(e.pos.y as i128 + LASER_OFFSET as i128);
    Entity {
        id: 0,
        role: Role::PlayerLaser,
        pos: Position { x: e.pos.x, y, z: SHIP_DEPTH },
        scale: Scale { x: SCALE_ONE, y: SCALE_ONE },
        size: Some(SpriteSize { w: PLAYER_LASER_SIZE.0, h: PLAYER_LASER_SIZE.1 }),
        velocity: Some(Velocity { x: 0, y: 1 }),
        movable: Some(Movable { auto_despawn: true }),
        formation: None,
        explosion: None,
    }
}

fn explosion_exec(r: ExplosionToSpawn) -> (e: Entity)
    ensures
        e == explosion_entity(r),
{
    Entity {
        id: 0,
        role: Role::Explosion,
        pos: r.0,
        scale: Scale { x: SCALE_ONE, y: SCALE_ONE },
        size: None,
        velocity: None,
        movable: None,
        formation: None,
        explosion: Some(Explosion { frame: 0, timer: ExplosionTimer::new() }),
    }
}

impl World {
    /// Every enemy fires one laser.
    pub fn enemy_fire_system(&mut self)
        requires
            old(self).wf(),
        ensures
            final(self).wf(),
            final(self).entities@ == old(self).entities@ + numbered(enemy_volley(old(self).entities@), old(self).next_id),
            final(self).next_id == id_after(old(self).next_id, enemy_volley(old(self).entities@).len() as int),
            final(self).counters() == old(self).counters(),
            final(self).pending@ == old(self).pending@,
    {
        let ghost s0 = self.entities@;
        let ghost m = s0.map_values(|e: Entity| if e.role == Role::Enemy { Some(enemy_laser_for(e)) } else { None });
        let mut shots: Vec<Entity> = Vec::new();
        let mut i: usize = 0;
        while i < self.entities.len()
            invariant
                i <= self.entities@.len(),
                self.entities@ == s0,
                all_wf(s0),
                m == s0.map_values(|e: Entity| if e.role == Role::Enemy { Some(enemy_laser_for(e)) } else { None }),
                shots@ == crate::entity::compact(m.take(i as int)),
                all_wf(shots@),
            decreases self.entities@.len() - i,
        {
            proof {
                crate::entity::lemma_compact_step(m, i as int);
            }
            let e = self.entities[i];
            assert(s0[i as int].wf());
            if e.role == Role::Enemy {
                let l = enemy_laser_exec(e);
                shots.push(l);
                assert forall|k: int| 0 <= k < shots@.len() implies #[trigger] shots@[k].wf() by {
                    if k < shots@.len() - 1 {
                        assert(shots@[k] == shots@.drop_last()[k]);
                    }
                }
            }
            i += 1;
        }
        assert(m.take(s0.len() as int) =~= m);
        proof {
            lemma_compact_no_enemies(m);
        }
        self.spawn_all(shots);
    }

    /// Spawns the player at the bottom of the window unless it is alive, and
    /// marks it alive.
    pub fn player_spawn_system(&mut self)
        requires
            old(self).wf(),
        ensures
            final(self).wf(),
            final(self).pending@ == old(self).pending@,
            final(self).enemy_count == old(self).enemy_count,
            final(self).maker == old(self).maker,
            final(self).win == old(self).win,
            final(self).clock == old(self).clock,
            final(self).spawn_timer == old(self).spawn_timer,
            !old(self).player.on ==> {
                &&& final(self).entities@ == old(self).entities@ + numbered(seq![player_entity(old(self).win)], old(self).next_id)
                &&& final(self).next_id == id_after(old(self).next_id, 1)
                &&& final(self).player == (PlayerState { on: true, last_shot: None })
            },
            old(self).player.on ==> {
                &&& final(self).entities@ == old(self).entities@
                &&& final(self).next_id == old(self).next_id
                &&& final(self).player == old(self).player
            },
    {
        if !self.player.on {
            let y: i64 = -(self.win.h as i64) * 30 + (PLAYER_SIZE.1 as i64 / 4 + 15) * 60;
            let e = Entity {
                id: 0,
                role: Role::Player,
                pos: Position { x: 0, y, z: SHIP_DEPTH },
                scale: Scale { x: PLAYER_SCALE, y: PLAYER_SCALE },
                size: Some(SpriteSize { w: PLAYER_SIZE.0, h: PLAYER_SIZE.1 }),
                velocity: Some(Velocity { x: 0, y: 0 }),
                movable: None,
                formation: None,
                explosion: None,
            };
            assert(e == player_entity(self.win));
            let v = one(e);
            assert(all_wf(v@)) by { assert(v@[0] == e); }
            proof {
                lemma_no_enemies(v@);
            }
            self.spawn_all(v);
            self.player.spawned();
        }
    }

    /// The single player, if there is exactly one and it has a velocity,
    /// takes the intent as horizontal velocity; otherwise nothing changes.
    pub fn player_keyboard_event_system(&mut self, intent: Intent)
        requires
            old(self).wf(),
        ensures
            final(self).wf(),
            final(self).entities@ == steered(old(self).entities@, intent),
            final(self).counters() == old(self).counters(),
            final(self).next_id == old(self).next_id,
            final(self).pending@ == old(self).pending@,
    {
        let x: i64 = match intent {
            Intent::Left => -1,
            Intent::Idle => 0,
            Intent::Right => 1,
        };
        let ghost s0 = self.entities@;
        match crate::collision::find_single_player(&self.entities) {
            Some(p) => {
                let e = self.entities[p];
                match e.velocity {
                    Some(v) => {
                        assert(s0[p as int].wf());
                        self.entities.set(p, Entity { velocity: Some(Velocity { x, y: v.y }), ..e });
                        assert forall|k: int| 0 <= k < self.entities@.len() implies #[trigger] self.entities@[k].wf() by {
                            if k != p {
                                assert(self.entities@[k] == s0[k]);
                            }
                        }
                        assert(self.entities@ =~= steered(s0, intent));
                    },
                    None => {
                        assert(s0.update(p as int, steer(s0[p as int], intent)) =~= s0);
                    },
                }
            },
            None => {},
        }
        proof {
            lemma_enemies_same_roles(s0, self.entities@);
        }
    }

    /// When `fire` is set and there is a single player, it fires one laser.
    pub fn player_fire_system(&mut self, fire: bool)
        requires
            old(self).wf(),
        ensures
            final(self).wf(),
            final(self).counters() == old(self).counters(),
            final(self).pending@ == old(self).pending@,
            fire && single_player(old(self).entities@) is Some ==> {
                let p = single_player(old(self).entities@)->0;
                &&& final(self).entities@ == old(self).entities@
                    + numbered(seq![player_laser_for(old(self).entities@[p])], old(self).next_id)
                &&& final(self).next_id == id_after(old(self).next_id, 1)
            },
            !(fire && single_player(old(self).entities@) is Some) ==> {
                &&& final(self).entities@ == old(self).entities@
                &&& final(self).next_id == old(self).next_id
            },
    {
        if fire {
            match crate::collision::find_single_player(&self.entities) {
                Some(p) => {
                    assert(self.entities@[p as int].wf());
                    let l = player_laser_exec(self.entities[p]);
                    let v = one(l);
                    assert(all_wf(v@)) by { assert(v@[0] == l); }
                    proof {
                        lemma_no_enemies(v@);
                    }
                    self.spawn_all(v);
                },
                None => {},
            }
        }
    }

    /// Turns every explosion request into an explosion entity, in order, and
    /// clears the requests.
    pub fn explosion_to_spawn_system(&mut self)
        requires
            old(self).wf(),
        ensures
            final(self).wf(),
            final(self).entities@ == old(self).entities@
                + numbered(old(self).pending@.map_values(|r: ExplosionToSpawn| explosion_entity(r)), old(self).next_id),
            final(self).next_id == id_after(old(self).next_id, old(self).pending@.len() as int),
            final(self).pending@.len() == 0,
            final(self).counters() == old(self).counters(),
    {
        let ghost queued = self.pending@;
        let mut new: Vec<Entity> = Vec::new();
        let mut i: usize = 0;
        while i < self.pending.len()
            invariant
                i <= self.pending@.len(),
                self.pending@ == queued,
                new@ == queued.take(i as int).map_values(|r: ExplosionToSpawn| explosion_entity(r)),
                pending_wf(queued),
                all_wf(new@),
            decreases self.pending@.len() - i,
        {
            let x = explosion_exec(self.pending[i]);
            assert(queued[i as int].0.in_limits());
            let ghost before = new@;
            new.push(x);
            assert forall|k: int| 0 <= k < new@.len() implies #[trigger] new@[k].wf() by {
                if k < before.len() {
                    assert(new@[k] == before[k]);
                }
            }
            proof {
                assert(queued.take(i as int + 1).map_values(|r: ExplosionToSpawn| explosion_entity(r))
                    =~= queued.take(i as int).map_values(|r: ExplosionToSpawn| explosion_entity(r)).push(x));
            }
            i += 1;
        }
        assert(queued.take(queued.len() as int) =~= queued);
        proof {
            lemma_no_enemies(new@);
        }
        self.pending = Vec::new();
        self.spawn_all(new);
    }
}

impl World {
    /// The player is down and `PLAYER_RESPAWN_DELAY` has passed since it was
    /// shot, or it was never spawned.
    pub open spec fn respawn_due_spec(&self) -> bool {
        !self.player.on && match self.player.last_shot {
            Some(t) => self.clock >= t + PLAYER_RESPAWN_DELAY,
            None => true,
        }
    }

    /// Tells the respawn policy whether the player may be spawned again.
    pub fn respawn_due(&self) -> (r: bool)
        ensures
            r == self.respawn_due_spec(),
    {
        if self.player.on {
            false
        } else {
            match self.player.last_shot {
                Some(t) => self.clock as u128 >= t as u128 + PLAYER_RESPAWN_DELAY as u128,
                None => true,
            }
        }
    }

    /// The first half of a tick, up to the positions that formation following
    /// starts from: the clock advances; once a second an enemy spawns while
    /// fewer than `ENEMY_MAX` live; with a chance of one in `ENEMY_FIRE_ODDS`
    /// every enemy fires; the player takes the intent, fires on `fire`, and
    /// moves; every movable entity moves.
    pub fn tick_begin(&mut self, intent: Intent, fire: bool)
        requires
            old(self).wf(),
        ensures
            final(self).wf(),
            final(self).enemy_count <= ENEMY_MAX,
            enemies(final(self).entities@) <= ENEMY_MAX,
            final(self).clock == if old(self).clock as int + TICK_TIME <= u64::MAX {
                (old(self).clock + TICK_TIME) as u64
            } else {
                u64::MAX
            },
            final(self).win == old(self).win,
            final(self).player == old(self).player,
            final(self).pending@ == old(self).pending@,
            final(self).spawn_timer == if old(self).spawn_timer + TICK_TIME >= ENEMY_SPAWN_INTERVAL {
                0
            } else {
                (old(self).spawn_timer + TICK_TIME) as u64
            },
            final(self).enemy_count == if old(self).spawn_timer + TICK_TIME >= ENEMY_SPAWN_INTERVAL
                && old(self).enemy_count < ENEMY_MAX {
                (old(self).enemy_count + 1) as u32
            } else {
                old(self).enemy_count
            },
            ({
                let due = old(self).spawn_timer + TICK_TIME >= ENEMY_SPAWN_INTERVAL && old(self).enemy_count < ENEMY_MAX;
                let spawned = if due { Some(final(self).maker.current->0) } else { None };
                &&& due ==> maker_step(old(self).maker, final(self).maker, final(self).maker.current->0, old(self).win)
                &&& !due ==> final(self).maker == old(self).maker
                &&& ((final(self).entities@, final(self).next_id)
                        == begin_of_tick(old(self).entities@, old(self).next_id, spawned, false, intent, fire, old(self).win)
                    || (final(self).entities@, final(self).next_id)
                        == begin_of_tick(old(self).entities@, old(self).next_id, spawned, true, intent, fire, old(self).win))
            }),
    {
        self.clock = self.clock.saturating_add(TICK_TIME);
        let t: u128 = self.spawn_timer as u128 + TICK_TIME as u128;
        if t >= ENEMY_SPAWN_INTERVAL as u128 {
            self.spawn_timer = 0;
            self.enemy_spawn_system();
        } else {
            self.spawn_timer = t as u64;
        }
        if draw_chance(&mut self.rng, 1, ENEMY_FIRE_ODDS) {
            self.enemy_fire_system();
        }
        self.player_keyboard_event_system(intent);
        self.player_fire_system(fire);
        self.player_movement_system();
        self.movable_system();
    }

    /// The second half of a tick: formation following toward `targets`
    /// (the path point, at the current angle, of each entity's formation),
    /// the two collision passes, the explosion requests, and one tick of the
    /// explosion animations.
    pub fn tick_end(&mut self, targets: &Vec<(i64, i64)>)
        requires
            old(self).wf(),
        ensures
            final(self).wf(),
            ({
                let r = end_of_tick(old(self).entities@, targets@, old(self).player, old(self).pending@,
                    old(self).clock, old(self).next_id);
                &&& final(self).entities@ == r.0
                &&& final(self).player == r.1
                &&& final(self).enemy_count == old(self).enemy_count - r.2
                &&& final(self).next_id == r.3
            }),
            final(self).enemy_count <= ENEMY_MAX,
            enemies(final(self).entities@) <= ENEMY_MAX,
            final(self).enemy_count <= old(self).enemy_count,
            final(self).clock == old(self).clock,
            final(self).win == old(self).win,
            final(self).spawn_timer == old(self).spawn_timer,
            final(self).maker == old(self).maker,
            final(self).player == old(self).player
                || final(self).player == (PlayerState { on: false, last_shot: Some(old(self).clock) }),
            final(self).pending@.len() == 0,
    {
        self.enemy_movement_system(targets);
        self.player_laser_hit_enemy_system();
        self.enemy_laser_hit_player_system();
        self.explosion_to_spawn_system();
        self.explosion_animation_system(TICK_TIME);
    }
}

/// The first half of a tick, step after step, from entities `s0` and next
/// identifier `id0`: the enemy spawned on `spawned`, if any; the enemies'
/// volley when `fired`; steering by `intent`; the player's laser on `fire`;
/// the player's movement; linear motion. Gives the entities and the next
/// identifier.
pub open spec fn begin_of_tick(s0: Seq<Entity>, id0: u64, spawned: Option<Formation>, fired: bool,
    intent: Intent, fire: bool, win: WindowSize) -> (Seq<Entity>, u64)
{
    let (s1, id1) = match spawned {
        Some(f) => (s0 + numbered(seq![enemy_entity(f)], id0), id_after(id0, 1)),
        None => (s0, id0),
    };
    let (s2, id2) = if fired {
        (s1 + numbered(enemy_volley(s1), id1), id_after(id1, enemy_volley(s1).len() as int))
    } else {
        (s1, id1)
    };
    let s3 = steered(s2, intent);
    let (s4, id4) = if fire && single_player(s3) is Some {
        (s3 + numbered(seq![player_laser_for(s3[single_player(s3)->0])], id2), id_after(id2, 1))
    } else {
        (s3, id2)
    };
    (moved_all(s4.map_values(|e: Entity| player_step(e)), win), id4)
}

/// The enemy-laser pass on entities `s`, player state `player` and requests
/// `q` at time `clock`: the entities, player state and requests after it.
pub open spec fn after_enemy_lasers(s: Seq<Entity>, player: PlayerState, q: Seq<ExplosionToSpawn>, clock: u64)
    -> (Seq<Entity>, PlayerState, Seq<ExplosionToSpawn>)
{
    match player_hit(s) {
        Some(pl) => (
            kept(s, Seq::new(s.len(), |k: int| k == pl.0 || k == pl.1)),
            PlayerState { on: false, last_shot: Some(clock) },
            q.push(ExplosionToSpawn(s[pl.0].pos)),
        ),
        None => (s, player, q),
    }
}

/// The second half of a tick, step after step: formation following toward
/// `targets`, the player-laser pass, the enemy-laser pass, the requested
/// explosions numbered from `next_id`, and one tick of animation. Gives the
/// entities, the player state, the number of enemies destroyed, and the next
/// identifier.
pub open spec fn end_of_tick(s0: Seq<Entity>, targets: Seq<(i64, i64)>, player: PlayerState,
    q0: Seq<ExplosionToSpawn>, clock: u64, next_id: u64) -> (Seq<Entity>, PlayerState, nat, u64)
{
    let s1 = followed_all(s0, targets);
    let (c, h) = laser_pass(s1, s1.len());
    let s2 = kept(s1, c);
    let q = q0 + requests(s1, h);
    let (s3, player3, q3) = after_enemy_lasers(s2, player, q, clock);
    let s4 = s3 + numbered(q3.map_values(|r: ExplosionToSpawn| explosion_entity(r)), next_id);
    (animated_all(s4, TICK_TIME), player3, h.len(), id_after(next_id, q3.len() as int))
}

} // verus!
