//! Simulation tests: the entity store, the combat pipeline and listeners.

use spacedogs::constants::{PROJECTILE_SPEED, UNIT};
use spacedogs::enemy::{Enemy, EnemyDiedEvent, EnemyPlugin, EnemyType, spawn_enemies_with};
use spacedogs::game::GamePlugin;
use spacedogs::geom::Vec2i;
use spacedogs::graphics::move_background;
use spacedogs::physics::{
    apply_velocity, check_for_collisions, Collider, Momentum, Velocity,
};
use spacedogs::player::{control, shoot, InputState, Player, PlayerProjectile};
use spacedogs::shared::{Dead, Health};
use spacedogs::store::{EntityRecord, World};
use spacedogs::ui::{on_enemy_died_score, Score};
use spacedogs::world::{despawn, despawn_out_of_world, on_enemy_died_debris, Bounds, Debris};

/// A bare record; tests fill in the components they need.
fn blank() -> EntityRecord {
    EntityRecord {
        id: 0,
        parent: None,
        position: Vec2i::new(0, 0),
        scale: UNIT,
        velocity: None,
        momentum: None,
        collider: None,
        health: None,
        enemy: None,
        player: None,
        projectile: None,
        debris: None,
        dead: None,
        path: None,
    }
}

fn spawn_enemy_at(world: &mut World, x: i64, y: i64, health: i32) -> u64 {
    let mut e = blank();
    e.position = Vec2i::new(x, y);
    e.scale = 30 * UNIT;
    e.collider = Some(Collider);
    e.health = Some(Health(health));
    e.enemy = Some(Enemy::new(EnemyType::Creep));
    world.spawn(e)
}

fn spawn_projectile_at(world: &mut World, x: i64, y: i64) -> u64 {
    let mut e = blank();
    e.position = Vec2i::new(x, y);
    e.scale = UNIT;
    e.collider = Some(Collider);
    e.projectile = Some(PlayerProjectile);
    world.spawn(e)
}

#[test]
fn lethal_hit_tombstones_same_tick() {
    let mut world = World::new();
    let enemy = spawn_enemy_at(&mut world, 0, 0, 1);
    let projectile = spawn_projectile_at(&mut world, 0, 0);
    let collisions = check_for_collisions(&world);
    assert_eq!(collisions.len(), 1);
    let (hits, deaths) = EnemyPlugin::update(&mut world, &collisions);
    assert_eq!(hits.len(), 1);
    assert_eq!(hits[0].entity, enemy);
    assert_eq!(hits[0].damage, 1);
    assert_eq!(deaths.len(), 1);
    assert_eq!(deaths[0].entity, enemy);
    // The projectile is gone; the enemy is tombstoned with health untouched.
    assert!(!world.contains(projectile));
    let i = world.index_of(enemy).unwrap();
    assert_eq!(world.entities[i].health, Some(Health(1)));
    assert!(world.entities[i].dead.is_some());
}

#[test]
fn nonlethal_hit_decrements_health() {
    let mut world = World::new();
    let enemy = spawn_enemy_at(&mut world, 0, 0, 3);
    spawn_projectile_at(&mut world, 0, 0);
    let collisions = check_for_collisions(&world);
    let (hits, deaths) = EnemyPlugin::update(&mut world, &collisions);
    assert_eq!(hits.len(), 1);
    assert_eq!(deaths.len(), 0);
    let i = world.index_of(enemy).unwrap();
    assert_eq!(world.entities[i].health, Some(Health(2)));
    assert!(world.entities[i].dead.is_none());
}

#[test]
fn broad_phase_reports_each_pair_once() {
    let mut world = World::new();
    let a = spawn_enemy_at(&mut world, 0, 0, 3);
    let b = spawn_enemy_at(&mut world, 10 * UNIT, 0, 3);
    // A third entity far away collides with nothing.
    spawn_enemy_at(&mut world, 1000 * UNIT, 0, 3);
    // A nearby entity without a collider is invisible to the broad phase.
    let mut ghostly = blank();
    ghostly.position = Vec2i::new(0, 0);
    world.spawn(ghostly);
    let collisions = check_for_collisions(&world);
    assert_eq!(collisions.len(), 1);
    assert_eq!(collisions[0].entity1, a);
    assert_eq!(collisions[0].entity2, b);
}

#[test]
fn despawn_twice_is_silent() {
    let mut world = World::new();
    let id = spawn_enemy_at(&mut world, 0, 0, 2);
    assert!(world.contains(id));
    world.despawn(id);
    assert!(!world.contains(id));
    world.despawn(id);
    assert!(!world.contains(id));
    assert_eq!(world.entities.len(), 0);
}

#[test]
fn despawn_recursive_removes_children() {
    let mut world = World::new();
    let parent = spawn_enemy_at(&mut world, 0, 0, 2);
    let mut child = blank();
    child.parent = Some(parent);
    let child_id = world.spawn(child);
    let mut grandchild = blank();
    grandchild.parent = Some(child_id);
    let grandchild_id = world.spawn(grandchild);
    let unrelated = spawn_enemy_at(&mut world, 50 * UNIT, 0, 2);
    world.despawn_recursive(parent);
    assert!(!world.contains(parent));
    assert!(!world.contains(child_id));
    assert!(!world.contains(grandchild_id));
    assert!(world.contains(unrelated));
}

#[test]
fn score_rewards_by_enemy_type() {
    let mut score = Score(0);
    let creep_died = vec![EnemyDiedEvent {
        entity: 1,
        position: Vec2i::new(0, 0),
        enemy_type: EnemyType::Creep,
    }];
    on_enemy_died_score(&mut score, &creep_died);
    assert_eq!(score.0, 1);
    let standard_died = vec![EnemyDiedEvent {
        entity: 2,
        position: Vec2i::new(0, 0),
        enemy_type: EnemyType::Standard,
    }];
    on_enemy_died_score(&mut score, &standard_died);
    assert_eq!(score.0, 3);
}

#[test]
fn one_death_spawns_twenty_debris_particles() {
    let mut world = World::new();
    let deaths = vec![EnemyDiedEvent {
        entity: 7,
        position: Vec2i::new(5 * UNIT, -3 * UNIT),
        enemy_type: EnemyType::Standard,
    }];
    on_enemy_died_debris(&mut world, &deaths);
    assert_eq!(world.entities.len(), 20);
    for e in &world.entities {
        assert!(e.debris.is_some());
        assert_eq!(e.position, Vec2i::new(5 * UNIT, -3 * UNIT));
        let v = e.velocity.unwrap();
        let speed = ((v.0.x as f64).powi(2) + (v.0.y as f64).powi(2)).sqrt();
        // Magnitude equals the projectile speed up to the fixed-point
        // rounding of the direction scaling.
        assert!((speed - PROJECTILE_SPEED as f64).abs() < 1500.0);
    }
}

#[test]
fn tombstone_sweep_removes_the_dead() {
    let mut world = World::new();
    let doomed = spawn_enemy_at(&mut world, 0, 0, 2);
    let alive = spawn_enemy_at(&mut world, 90 * UNIT, 0, 2);
    let i = world.index_of(doomed).unwrap();
    let mut rec = world.entities.remove(i);
    rec.dead = Some(Dead);
    world.entities.insert(i, rec);
    despawn(&mut world);
    assert!(!world.contains(doomed));
    assert!(world.contains(alive));
}

#[test]
fn bounds_sweep_spares_the_player() {
    let mut world = World::new();
    let bounds = Bounds::default();
    let gone = spawn_enemy_at(&mut world, 2000 * UNIT, 0, 2);
    let mut p = blank();
    p.position = Vec2i::new(2000 * UNIT, 0);
    p.collider = Some(Collider);
    p.player = Some(Player::new(200_000));
    let player_id = world.spawn(p);
    let inside = spawn_enemy_at(&mut world, 0, 0, 2);
    let mut free = blank();
    free.position = Vec2i::new(5000 * UNIT, 0);
    let no_collider = world.spawn(free);
    despawn_out_of_world(&mut world, bounds);
    assert!(!world.contains(gone));
    assert!(world.contains(player_id));
    assert!(world.contains(inside));
    assert!(world.contains(no_collider));
}

#[test]
fn spawn_gate_needs_empty_field_and_winning_roll() {
    let mut world = World::new();
    spawn_enemies_with(&mut world, 999_999);
    assert_eq!(world.entities.len(), 1);
    let e = &world.entities[0];
    assert_eq!(e.enemy, Some(Enemy::new(EnemyType::Standard)));
    assert_eq!(e.health, Some(Health(4)));
    assert_eq!(e.position, Vec2i::new(-137_142_857, 440_000_000));
    assert_eq!(e.velocity, Some(Velocity(Vec2i::new(0, -300 * UNIT))));
    assert!(e.collider.is_some());
    let path = e.path.as_ref().unwrap();
    assert_eq!(path.vertices.len(), 3);
    assert_eq!(path.vertices[0], Vec2i::new(-137_142_857, 440_000_000));

    // With an enemy alive, no further spawn happens whatever the roll.
    spawn_enemies_with(&mut world, 999_999);
    assert_eq!(world.entities.len(), 1);

    // A losing roll spawns nothing.
    let mut empty = World::new();
    spawn_enemies_with(&mut empty, 950_000);
    assert_eq!(empty.entities.len(), 0);
}

#[test]
fn shoot_is_rate_limited() {
    let mut world = World::new();
    spacedogs::player::spawn(&mut world);
    shoot(&mut world, true, 1_000_000);
    assert_eq!(world.entities.len(), 2);
    let p = &world.entities[1];
    assert!(p.projectile.is_some());
    assert_eq!(p.position, Vec2i::new(0, -480 * UNIT));
    assert_eq!(p.velocity, Some(Velocity(Vec2i::new(0, PROJECTILE_SPEED))));
    // Within the cooldown nothing fires; after it, a second shot does.
    shoot(&mut world, true, 1_100_000);
    assert_eq!(world.entities.len(), 2);
    shoot(&mut world, false, 2_000_000);
    assert_eq!(world.entities.len(), 2);
    shoot(&mut world, true, 1_200_000);
    assert_eq!(world.entities.len(), 3);
}

#[test]
fn control_accelerates_and_clamps() {
    let mut world = World::new();
    let id = spacedogs::player::spawn(&mut world);
    let input = InputState { left: false, right: true, up: false, down: false };
    control(&mut world, input, UNIT);
    let i = world.index_of(id).unwrap();
    let e = &world.entities[i];
    // direction 1.0 plus momentum 0.1, times 300 units per second for one
    // second: 330 units to the right.
    assert_eq!(e.position.x, 330 * UNIT);
    assert_eq!(e.momentum, Some(Momentum(Vec2i::new(100_000, 0))));
}

#[test]
fn momentum_decays_when_idle() {
    let mut world = World::new();
    let id = spacedogs::player::spawn(&mut world);
    let pressed = InputState { left: false, right: true, up: false, down: false };
    control(&mut world, pressed, UNIT);
    let idle = InputState { left: false, right: false, up: false, down: false };
    control(&mut world, idle, UNIT);
    let i = world.index_of(id).unwrap();
    // 0.1 * 91 / 100 = 0.091.
    assert_eq!(world.entities[i].momentum, Some(Momentum(Vec2i::new(91_000, 0))));
}

#[test]
fn apply_velocity_integrates_positions() {
    let mut world = World::new();
    let mut e = blank();
    e.velocity = Some(Velocity(Vec2i::new(10 * UNIT, -4 * UNIT)));
    let id = world.spawn(e);
    apply_velocity(&mut world, 500_000);
    let i = world.index_of(id).unwrap();
    assert_eq!(world.entities[i].position, Vec2i::new(5 * UNIT, -2 * UNIT));
}

#[test]
fn background_scrolls_and_wraps() {
    let mut y = 540 * UNIT;
    move_background(&mut y);
    assert_eq!(y, 535 * UNIT);
    let mut y2 = -2456 * UNIT;
    move_background(&mut y2);
    assert_eq!(y2, 540 * UNIT);
}

#[test]
fn projectile_hitting_two_enemies_damages_both() {
    let mut world = World::new();
    let e1 = spawn_enemy_at(&mut world, -10 * UNIT, 0, 3);
    let e2 = spawn_enemy_at(&mut world, 10 * UNIT, 0, 3);
    spawn_projectile_at(&mut world, 0, 0);
    let collisions = check_for_collisions(&world);
    let (hits, _) = EnemyPlugin::update(&mut world, &collisions);
    assert_eq!(hits.len(), 2);
    let i1 = world.index_of(e1).unwrap();
    let i2 = world.index_of(e2).unwrap();
    assert_eq!(world.entities[i1].health, Some(Health(2)));
    assert_eq!(world.entities[i2].health, Some(Health(2)));
}

#[test]
fn player_hit_listener_signals_contact() {
    let mut world = World::new();
    let mut p = blank();
    p.collider = Some(Collider);
    p.player = Some(Player::new(200_000));
    world.spawn(p);
    spawn_enemy_at(&mut world, 0, 0, 3);
    let collisions = check_for_collisions(&world);
    assert_eq!(collisions.len(), 1);
    let signals = spacedogs::player::on_collision(&world, &collisions);
    assert_eq!(signals.len(), 1);
}

#[test]
fn health_dec_and_component_constructors() {
    let mut h = Health(5);
    h.dec();
    assert_eq!(h, Health(4));
    assert_eq!(Enemy::new(EnemyType::Creep).enemy_type, EnemyType::Creep);
    let mut pl = Player::new(7);
    assert_eq!((pl.fire_rate, pl.last_shot), (7, 0));
    pl.set_last_shot(99);
    assert_eq!(pl.last_shot, 99);
    assert!(Debris == Debris);
}

#[test]
fn death_event_carries_the_enemy_kind() {
    let mut world = World::new();
    let mut e = blank();
    e.scale = 30 * UNIT;
    e.collider = Some(Collider);
    e.health = Some(Health(1));
    e.enemy = Some(Enemy::new(EnemyType::Standard));
    let standard = world.spawn(e);
    spawn_projectile_at(&mut world, 0, 0);
    let collisions = check_for_collisions(&world);
    let (_, deaths) = EnemyPlugin::update(&mut world, &collisions);
    assert_eq!(deaths.len(), 1);
    assert_eq!(deaths[0].entity, standard);
    assert_eq!(deaths[0].enemy_type, EnemyType::Standard);
    let mut score = Score(0);
    on_enemy_died_score(&mut score, &deaths);
    assert_eq!(score.0, 2);
}

#[test]
fn full_tick_resolves_combat_and_cleanup() {
    let mut world = World::new();
    spacedogs::player::spawn(&mut world);
    let enemy = spawn_enemy_at(&mut world, 300 * UNIT, 300 * UNIT, 1);
    spawn_projectile_at(&mut world, 300 * UNIT, 300 * UNIT);
    let mut score = Score(0);
    let idle = InputState { left: false, right: false, up: false, down: false };
    let events = GamePlugin::tick(
        &mut world,
        &mut score,
        idle,
        false,
        0,
        0,
        Bounds::default(),
    );
    assert_eq!(events.collisions.len(), 1);
    assert_eq!(events.hits.len(), 1);
    assert_eq!(events.deaths.len(), 1);
    // The creep kill paid one point, the projectile and the tombstoned
    // enemy are gone, and twenty debris particles remain.
    assert_eq!(score.0, 1);
    assert!(!world.contains(enemy));
    let debris_count = world.entities.iter().filter(|e| e.debris.is_some()).count();
    assert_eq!(debris_count, 20);
}
