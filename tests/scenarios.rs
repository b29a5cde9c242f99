use galaga_core::entity::{Entity, Explosion, ExplosionTimer, ExplosionToSpawn, Formation, Movable, Role, Velocity};
use galaga_core::explosion::{explosion_step_exec, EXPLOSION_LEN, EXPLOSION_PERIOD, TICK_TIME};
use galaga_core::formation::{follow_step_exec, advanced_angle_of, FormationDraw, FormationMaker};
use galaga_core::geometry::{collide, Position, Scale, SpriteSize, WindowSize};
use galaga_core::motion::{motion_step_exec, STEP_PER_TICK};
use galaga_core::world::{Intent, PlayerState, World, ENEMY_MAX};

fn bare(id: u64, role: Role, x: i64, y: i64) -> Entity {
    Entity {
        id,
        role,
        pos: Position { x, y, z: 10 },
        scale: Scale { x: 1000, y: 1000 },
        size: None,
        velocity: None,
        movable: None,
        formation: None,
        explosion: None,
    }
}

fn boxed(id: u64, role: Role, x: i64, y: i64, w: u32, h: u32, scale: u32) -> Entity {
    let mut e = bare(id, role, x, y);
    e.size = Some(SpriteSize { w, h });
    e.scale = Scale { x: scale, y: scale };
    e
}

fn world() -> World {
    World::new(WindowSize { w: 600, h: 900 }, 7)
}

#[test]
fn auto_despawn_entity_moves_linearly_until_it_leaves() {
    let win = WindowSize { w: 600, h: 900 };
    let mut e = bare(1, Role::PlayerLaser, 0, 0);
    e.velocity = Some(Velocity { x: 0, y: 1 });
    e.movable = Some(Movable { auto_despawn: true });
    let mut cur = Some(e);
    let mut n: i64 = 0;
    while let Some(c) = cur {
        assert_eq!(c.pos.y, n * STEP_PER_TICK);
        assert_eq!(c.pos.x, 0);
        cur = motion_step_exec(c, win);
        n += 1;
    }
    // Removed on the first tick that ends beyond 450 + 200 world units.
    assert_eq!(n, 196);
    assert!(195 * STEP_PER_TICK <= 650 * 60);
    assert!(196 * STEP_PER_TICK > 650 * 60);
}

#[test]
fn one_tick_at_unit_velocity_moves_base_speed_over_sixty() {
    let win = WindowSize { w: 600, h: 900 };
    let mut e = bare(1, Role::EnemyLaser, 60, -120);
    e.velocity = Some(Velocity { x: -1, y: 2 });
    e.movable = Some(Movable { auto_despawn: false });
    let r = motion_step_exec(e, win).unwrap();
    // 200 units/s for 1/60 s: 10/3 world units, that is 200 sub-units.
    assert_eq!(r.pos.x, 60 - 200);
    assert_eq!(r.pos.y, -120 + 400);
}

#[test]
fn entity_without_auto_despawn_stays_outside_window() {
    let win = WindowSize { w: 600, h: 900 };
    let mut e = bare(1, Role::Enemy, 0, 100_000);
    e.velocity = Some(Velocity { x: 0, y: 1 });
    e.movable = Some(Movable { auto_despawn: false });
    let r = motion_step_exec(e, win).unwrap();
    assert_eq!(r.pos.y, 100_200);
}

#[test]
fn player_laser_hits_enemy_scenario() {
    let mut w = world();
    w.entities.push(boxed(1, Role::PlayerLaser, 0, 0, 9, 54, 1000));
    w.entities.push(boxed(2, Role::Enemy, 0, 0, 103, 84, 500));
    w.enemy_count = 1;
    w.player_laser_hit_enemy_system();
    assert!(w.entities.is_empty());
    assert_eq!(w.pending.len(), 1);
    assert_eq!(w.pending[0], ExplosionToSpawn(Position { x: 0, y: 0, z: 10 }));
    assert_eq!(w.enemy_count, 0);
}

#[test]
fn one_laser_destroys_only_the_first_enemy() {
    let mut w = world();
    w.entities.push(boxed(1, Role::PlayerLaser, 0, 0, 9, 54, 1000));
    w.entities.push(boxed(2, Role::Enemy, 0, 0, 103, 84, 500));
    w.entities.push(boxed(3, Role::Enemy, 60, 0, 103, 84, 500));
    w.enemy_count = 2;
    w.player_laser_hit_enemy_system();
    assert_eq!(w.entities.len(), 1);
    assert_eq!(w.entities[0].id, 3);
    assert_eq!(w.enemy_count, 1);
    assert_eq!(w.pending.len(), 1);
}

#[test]
fn one_enemy_is_destroyed_once_by_two_lasers() {
    let mut w = world();
    w.entities.push(boxed(1, Role::PlayerLaser, 0, 0, 9, 54, 1000));
    w.entities.push(boxed(2, Role::PlayerLaser, 30, 0, 9, 54, 1000));
    w.entities.push(boxed(3, Role::Enemy, 0, 0, 103, 84, 500));
    w.enemy_count = 1;
    w.player_laser_hit_enemy_system();
    assert_eq!(w.entities.len(), 1);
    assert_eq!(w.entities[0].id, 2);
    assert_eq!(w.enemy_count, 0);
    assert_eq!(w.pending.len(), 1);
}

#[test]
fn no_player_means_no_enemy_laser_effect() {
    let mut w = world();
    w.entities.push(boxed(1, Role::EnemyLaser, 0, 0, 9, 37, 1000));
    w.entities.push(boxed(2, Role::Enemy, 0, 0, 103, 84, 500));
    let before = w.entities.clone();
    w.enemy_laser_hit_player_system();
    assert_eq!(w.entities, before);
    assert!(w.pending.is_empty());
    assert_eq!(w.player, PlayerState { on: false, last_shot: None });
}

#[test]
fn enemy_laser_shoots_player_down() {
    let mut w = world();
    w.player_spawn_system();
    assert!(w.player.on);
    let py = w.entities[0].pos.y;
    w.entities.push(boxed(50, Role::EnemyLaser, 0, py, 9, 37, 1000));
    w.entities.push(boxed(51, Role::EnemyLaser, 0, py, 9, 37, 1000));
    w.clock = 1234;
    w.enemy_laser_hit_player_system();
    assert_eq!(w.entities.len(), 1);
    assert_eq!(w.entities[0].id, 51);
    assert_eq!(w.player, PlayerState { on: false, last_shot: Some(1234) });
    assert_eq!(w.pending.len(), 1);
    assert_eq!(w.pending[0].0.y, py);
}

#[test]
fn touching_boxes_do_not_collide() {
    let s = SpriteSize { w: 10, h: 10 };
    let k = Scale { x: 1000, y: 1000 };
    let a = Position { x: 0, y: 0, z: 0 };
    let b = Position { x: 600, y: 0, z: 0 };
    let c = Position { x: 599, y: 0, z: 0 };
    assert!(!collide(a, s, k, b, s, k));
    assert!(collide(a, s, k, c, s, k));
}

#[test]
fn half_scale_halves_the_box() {
    let s = SpriteSize { w: 10, h: 10 };
    let full = Scale { x: 1000, y: 1000 };
    let half = Scale { x: 500, y: 500 };
    let a = Position { x: 0, y: 0, z: 0 };
    let b = Position { x: 449, y: 0, z: 0 };
    assert!(collide(a, s, full, b, s, half));
    let b2 = Position { x: 450, y: 0, z: 0 };
    assert!(!collide(a, s, full, b2, s, half));
}

fn enemy_on(f: Formation, x: i64, y: i64) -> Entity {
    let mut e = bare(9, Role::Enemy, x, y);
    e.formation = Some(f);
    e
}

#[test]
fn formation_angle_advances_once_target_is_reached() {
    let f = Formation {
        start_x: 100,
        start_y: 0,
        pivot_x: 0,
        pivot_y: 0,
        radius_x: 3000,
        radius_y: 3000,
        speed: 1,
        angle: 0,
    };
    assert_eq!(advanced_angle_of(f), 3000);
    // The path point at the current angle.
    let rad = f.angle as f64 / 3600.0;
    let target = ((3000.0 * rad.cos()).round() as i64, (3000.0 * rad.sin()).round() as i64);
    let mut e = enemy_on(f, target.0 + 10, target.1);
    for _ in 0..10 {
        e = follow_step_exec(e, target);
        assert_eq!(e.formation.unwrap().angle, 0);
    }
    assert_eq!((e.pos.x, e.pos.y), target);
    e = follow_step_exec(e, target);
    // dir * speed * (1/60) * min(50, 50 * PI / 2) radians = 50/60 rad.
    assert_eq!(e.formation.unwrap().angle, 3000);
    assert_eq!((e.pos.x, e.pos.y), target);
    assert_eq!(target, (3000, 0));
}

#[test]
fn formation_angle_holds_while_far() {
    let f = Formation {
        start_x: -100,
        start_y: 0,
        pivot_x: 0,
        pivot_y: 0,
        radius_x: 6000,
        radius_y: 6000,
        speed: 200,
        angle: 500,
    };
    assert_eq!(advanced_angle_of(f), 500 - 200 * 6000);
    let mut e = enemy_on(f, 0, 0);
    // Threshold: 200 * 200 / 20 = 2000 sub-units.
    let target = (3000, 0);
    e = follow_step_exec(e, target);
    assert_eq!(e.formation.unwrap().angle, 500);
    assert_eq!((e.pos.x, e.pos.y), (200, 0));
    let mut e2 = enemy_on(f, 1000, 0);
    e2 = follow_step_exec(e2, (2999, 0));
    assert_eq!(e2.formation.unwrap().angle, 500 - 200 * 6000);
    assert_eq!((e2.pos.x, e2.pos.y), (1200, 0));
}

#[test]
fn follower_clamps_each_axis_at_the_target() {
    let f = Formation {
        start_x: 0,
        start_y: 0,
        pivot_x: 0,
        pivot_y: 0,
        radius_x: 10,
        radius_y: 10,
        speed: 200,
        angle: 0,
    };
    let e = enemy_on(f, 0, 0);
    let r = follow_step_exec(e, (30, -40));
    assert_eq!((r.pos.x, r.pos.y), (30, -40));
    let r2 = follow_step_exec(enemy_on(f, 0, 0), (300, 400));
    // distance 500, step 200: (120, 160).
    assert_eq!((r2.pos.x, r2.pos.y), (120, 160));
}

#[test]
fn explosion_lasts_sixteen_frames() {
    let mut w = world();
    w.pending.push(ExplosionToSpawn(Position { x: 5, y: 6, z: 10 }));
    w.explosion_to_spawn_system();
    assert!(w.pending.is_empty());
    assert_eq!(w.entities.len(), 1);
    assert_eq!(w.entities[0].explosion, Some(Explosion { frame: 0, timer: ExplosionTimer { elapsed: 0 } }));
    let mut ticks = 0;
    while !w.entities.is_empty() {
        w.explosion_animation_system(TICK_TIME);
        ticks += 1;
    }
    assert_eq!(ticks, 3 * EXPLOSION_LEN as u64);
}

#[test]
fn explosion_removed_at_sixteenth_advance() {
    let mut e = bare(1, Role::Explosion, 0, 0);
    e.explosion = Some(Explosion { frame: 0, timer: ExplosionTimer { elapsed: 0 } });
    let mut cur = Some(e);
    for n in 0..EXPLOSION_LEN {
        let c = cur.unwrap();
        assert_eq!(c.explosion.unwrap().frame, n);
        cur = explosion_step_exec(c, EXPLOSION_PERIOD);
    }
    assert!(cur.is_none());
}

#[test]
fn formation_maker_groups_members() {
    let mut m = FormationMaker::new();
    let d1 = FormationDraw { start_x: -600, start_y: 300, pivot_x: 10, pivot_y: 20, radius_x: 5000 };
    let d2 = FormationDraw { start_x: 600, start_y: -300, pivot_x: -10, pivot_y: 0, radius_x: 6000 };
    let f1 = m.make_with(d1);
    assert_eq!(f1.start_x, -600);
    assert_eq!(f1.radius_x, 5000);
    assert_eq!(f1.radius_y, 6000);
    assert_eq!(f1.angle, 0);
    let f2 = m.make_with(d2);
    assert_eq!(f2, f1);
    assert_eq!(m.members, 2);
    let f3 = m.make_with(d2);
    assert_eq!(f3.start_x, 600);
    assert_eq!(f3.pivot_x, -10);
    assert_eq!(m.members, 1);
}

#[test]
fn spawn_is_capped_at_enemy_max() {
    let mut w = world();
    let d = FormationDraw { start_x: 0, start_y: 0, pivot_x: 0, pivot_y: 0, radius_x: 5000 };
    for _ in 0..5 {
        w.enemy_spawn_with(d);
    }
    assert_eq!(w.enemy_count, ENEMY_MAX);
    assert_eq!(w.entities.iter().filter(|e| e.role == Role::Enemy).count(), 2);
    assert_eq!(w.entities[0].id, 0);
    assert_eq!(w.entities[1].id, 1);
    assert_eq!(w.entities[0].scale, Scale { x: 500, y: 500 });
}

#[test]
fn random_formations_start_inside_the_window() {
    let mut starts = Vec::new();
    for seed in 0..20u64 {
        let mut w = World::new(WindowSize { w: 600, h: 900 }, seed);
        w.enemy_spawn_system();
        let f = w.entities[0].formation.unwrap();
        assert!(-12000 <= f.start_x && f.start_x < 12000);
        assert!(-21000 <= f.start_y && f.start_y < 21000);
        assert!(4800 <= f.radius_x && f.radius_x < 9000);
        starts.push(f.start_x);
    }
    assert!(starts.iter().any(|&x| x != -12000));
    assert!(starts.iter().any(|&x| x != starts[0]));
}

#[test]
fn live_enemies_never_exceed_the_cap_over_many_ticks() {
    let mut w = world();
    w.player_spawn_system();
    for _ in 0..2000 {
        w.tick_begin(Intent::Right, true);
        assert!(w.enemy_count <= ENEMY_MAX);
        let targets: Vec<(i64, i64)> = w.entities.iter().map(|e| (e.pos.x, e.pos.y)).collect();
        w.tick_end(&targets);
        assert!(w.enemy_count <= ENEMY_MAX);
        let live = w.entities.iter().filter(|e| e.role == Role::Enemy).count();
        assert!(live <= ENEMY_MAX as usize);
    }
    assert_eq!(w.clock, 2000 * TICK_TIME);
}

#[test]
fn keyboard_intent_steers_the_player() {
    let mut w = world();
    w.player_spawn_system();
    let x0 = w.entities[0].pos.x;
    w.player_keyboard_event_system(Intent::Left);
    assert_eq!(w.entities[0].velocity, Some(Velocity { x: -1, y: 0 }));
    w.player_movement_system();
    assert_eq!(w.entities[0].pos.x, x0 - 200);
    w.player_keyboard_event_system(Intent::Idle);
    w.player_movement_system();
    assert_eq!(w.entities[0].pos.x, x0 - 200);
}

#[test]
fn player_spawns_at_bottom_and_fires_upward() {
    let mut w = world();
    w.player_spawn_system();
    assert_eq!(w.entities[0].pos.y, -450 * 60 + (256 + 15) * 60);
    w.player_fire_system(true);
    assert_eq!(w.entities.len(), 2);
    assert_eq!(w.entities[1].role, Role::PlayerLaser);
    assert_eq!(w.entities[1].pos.y, w.entities[0].pos.y + 900);
    assert_eq!(w.entities[1].velocity, Some(Velocity { x: 0, y: 1 }));
    w.player_fire_system(false);
    assert_eq!(w.entities.len(), 2);
}

#[test]
fn enemies_fire_downward() {
    let mut w = world();
    let d = FormationDraw { start_x: 120, start_y: 3000, pivot_x: 0, pivot_y: 0, radius_x: 5000 };
    w.enemy_spawn_with(d);
    w.enemy_fire_system();
    assert_eq!(w.entities.len(), 2);
    assert_eq!(w.entities[1].role, Role::EnemyLaser);
    assert_eq!(w.entities[1].pos, Position { x: 120, y: 2100, z: 10 });
    assert_eq!(w.entities[1].velocity, Some(Velocity { x: 0, y: -1 }));
    assert_eq!(w.entities[1].movable, Some(Movable { auto_despawn: true }));
}

#[test]
fn respawn_waits_for_the_delay() {
    let mut w = world();
    assert!(w.respawn_due());
    w.player_spawn_system();
    assert!(!w.respawn_due());
    w.player.shot(100);
    w.clock = 100 + 2399;
    assert!(!w.respawn_due());
    w.clock = 100 + 2400;
    assert!(w.respawn_due());
}

fn run(seed: u64, ticks: u32) -> (World, usize) {
    let mut w = World::new(WindowSize { w: 600, h: 900 }, seed);
    let mut enemy_shots = 0;
    for _ in 0..ticks {
        let before = w.entities.iter().filter(|e| e.role == Role::EnemyLaser).count();
        w.tick_begin(Intent::Idle, false);
        let after = w.entities.iter().filter(|e| e.role == Role::EnemyLaser).count();
        if after > before {
            enemy_shots += 1;
        }
        let targets: Vec<(i64, i64)> = w.entities.iter().map(|e| (e.pos.x, e.pos.y)).collect();
        w.tick_end(&targets);
    }
    (w, enemy_shots)
}

#[test]
fn same_seed_replays_the_same_run() {
    let (a, _) = run(42, 900);
    let (b, _) = run(42, 900);
    assert_eq!(a.entities, b.entities);
    assert_eq!(a.maker, b.maker);
}

#[test]
fn enemies_fire_now_and_then() {
    let (w, shots) = run(3, 3600);
    assert!(shots > 0);
    assert!(shots < 3600);
    assert_eq!(w.enemy_count, ENEMY_MAX);
}

#[test]
fn two_players_are_not_steered() {
    let mut w = world();
    let mut a = boxed(1, Role::Player, 0, 0, 1024, 1024, 100);
    a.velocity = Some(Velocity { x: 0, y: 0 });
    let b = a;
    w.entities.push(a);
    w.entities.push(Entity { id: 2, ..b });
    let before = w.entities.clone();
    w.player_keyboard_event_system(Intent::Left);
    assert_eq!(w.entities, before);
}
