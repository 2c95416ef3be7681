//! Enemies: roles, combat events and the staged resolution pipeline.
//!
//! Stage A filters raw collisions to (projectile, enemy) pairs, emits one
//! hit event per pair and removes the projectiles (idempotently, after all
//! hits of the tick are emitted).  Stage B applies damage: an enemy seen at
//! exactly one health point dies — without its stored health ever reaching
//! zero — otherwise health is decremented.  Stage C tags the dead with a
//! tombstone for the cleanup sweep, so same-tick listeners can still read
//! the entity.

use vstd::prelude::*;
use crate::constants::UNIT;
use crate::geom::{
    Vec2i, dist, dist_spec, dist_sq, clamp, clamp_spec, div_euclid_i128, lemma_sqrt_floor_le,
    lemma_mul_div_bounds, VEL_LIMIT, in_pos_range,
};
use crate::physics::{CollisionEvent, Collider, Velocity, DT_MAX};
use crate::poly_path::{PolyPath, walk, total_len_spec, lemma_component_le_seg};
use crate::shared::{Dead, Health};
use crate::store::{
    World, EntityRecord, entity_wf, find, lemma_find_from_props, despawn_all, remove_doomed,
    with_id,
};

verus! {

/// Kind of enemy; the scoring listener pays a different reward per kind.
#[derive(Clone, Copy, Debug, PartialEq, Eq, Structural)]
pub enum EnemyType {
    /// Small enemy, reward 1.
    Creep,
    /// Regular enemy, reward 2.
    Standard,
}

/// Enemy role component.
#[derive(Clone, Copy, Debug, PartialEq, Eq, Structural)]
pub struct Enemy {
    /// Kind of this enemy.
    pub enemy_type: EnemyType,
}

impl Enemy {
    /// An enemy of the given kind.
    pub fn new(enemy_type: EnemyType) -> (r: Enemy)
        ensures
            r == (Enemy { enemy_type }),
    {
        Enemy { enemy_type }
    }
}

/// A projectile confirmed to have hit an enemy this tick.
#[derive(Clone, Copy, Debug, PartialEq, Eq, Structural)]
pub struct EnemyHitEvent {
    /// The enemy that was hit.
    pub entity: u64,
    /// The enemy's position when the hit was resolved.
    pub position: Vec2i,
    /// Damage carried by the hit.
    pub damage: i32,
}

/// An enemy whose lethal hit was resolved this tick.
#[derive(Clone, Copy, Debug, PartialEq, Eq, Structural)]
pub struct EnemyDiedEvent {
    /// The enemy that died.
    pub entity: u64,
    /// Position of the lethal hit.
    pub position: Vec2i,
    /// Kind of the enemy, for the reward listeners.
    pub enemy_type: EnemyType,
}

/// The enemy subsystem: spawning, steering and the combat chain.
pub struct EnemyPlugin;

/// The entity with identity `id` is live and carries the projectile role.
pub open spec fn is_projectile(s: Seq<EntityRecord>, id: u64) -> bool {
    find(s, id) >= 0 && s[find(s, id)].projectile is Some
}

/// The entity with identity `id` is live and carries the enemy role.
pub open spec fn is_enemy(s: Seq<EntityRecord>, id: u64) -> bool {
    find(s, id) >= 0 && s[find(s, id)].enemy is Some
}

/// The hit event stage A emits for the live enemy `id`.
pub open spec fn hit_for(s: Seq<EntityRecord>, id: u64) -> EnemyHitEvent {
    EnemyHitEvent { entity: id, position: s[find(s, id)].position, damage: 1 }
}

/// Hit events one collision event produces (each direction of the pair).
pub open spec fn event_hits(s: Seq<EntityRecord>, ev: CollisionEvent) -> Seq<EnemyHitEvent> {
    (if is_projectile(s, ev.entity1) && is_enemy(s, ev.entity2) {
        seq![hit_for(s, ev.entity2)]
    } else {
        Seq::empty()
    }) + (if is_projectile(s, ev.entity2) && is_enemy(s, ev.entity1) {
        seq![hit_for(s, ev.entity1)]
    } else {
        Seq::empty()
    })
}

/// Projectiles one collision event confirms (to be removed).
pub open spec fn event_victims(s: Seq<EntityRecord>, ev: CollisionEvent) -> Seq<u64> {
    (if is_projectile(s, ev.entity1) && is_enemy(s, ev.entity2) {
        seq![ev.entity1]
    } else {
        Seq::empty()
    }) + (if is_projectile(s, ev.entity2) && is_enemy(s, ev.entity1) {
        seq![ev.entity2]
    } else {
        Seq::empty()
    })
}

/// All hit events of the collision events from index `k` on, judged against
/// the single pre-stage world `s`.
pub open spec fn hits_of(s: Seq<EntityRecord>, evs: Seq<CollisionEvent>, k: int) -> Seq<
    EnemyHitEvent,
>
    decreases evs.len() - k,
{
    if k < 0 || k >= evs.len() {
        Seq::empty()
    } else {
        event_hits(s, evs[k]) + hits_of(s, evs, k + 1)
    }
}

/// All confirmed projectiles of the collision events from index `k` on.
pub open spec fn victims_of(s: Seq<EntityRecord>, evs: Seq<CollisionEvent>, k: int) -> Seq<u64>
    decreases evs.len() - k,
{
    if k < 0 || k >= evs.len() {
        Seq::empty()
    } else {
        event_victims(s, evs[k]) + victims_of(s, evs, k + 1)
    }
}

/// Whether the live entity `id` carries the projectile role.
fn check_projectile(world: &World, id: u64) -> (r: bool)
    ensures
        r == is_projectile(world.entities@, id),
{
    let ghost s = world.entities@;
    let n = world.entities.len();
    proof {
        lemma_find_from_props(s, id, 0);
    }
    match world.index_of(id) {
        Some(i) => world.entities[i].projectile.is_some(),
        None => false,
    }
}

/// Whether the live entity `id` carries the enemy role.
pub(crate) fn check_enemy(world: &World, id: u64) -> (r: bool)
    ensures
        r == is_enemy(world.entities@, id),
{
    let ghost s = world.entities@;
    let n = world.entities.len();
    proof {
        lemma_find_from_props(s, id, 0);
    }
    match world.index_of(id) {
        Some(i) => world.entities[i].enemy.is_some(),
        None => false,
    }
}

/// Position of the live entity `id`.
fn position_of(world: &World, id: u64) -> (p: Vec2i)
    requires
        find(world.entities@, id) >= 0,
    ensures
        p == world.entities@[find(world.entities@, id)].position,
{
    let ghost s = world.entities@;
    let n = world.entities.len();
    proof {
        lemma_find_from_props(s, id, 0);
    }
    match world.index_of(id) {
        Some(i) => world.entities[i].position,
        None => vstd::pervasive::unreached(),
    }
}

/// Stage A: filter collisions to (projectile, enemy) pairs; emit one hit
/// per pair, judged against the pre-stage world, then remove each confirmed
/// projectile recursively (a repeat removal is a silent no-op).
pub fn on_collision(world: &mut World, events: &Vec<CollisionEvent>) -> (hits: Vec<EnemyHitEvent>)
    requires
        old(world).wf(),
    ensures
        final(world).wf(),
        final(world).next_id == old(world).next_id,
        hits@ == hits_of(old(world).entities@, events@, 0),
        final(world).entities@ == despawn_all(
            old(world).entities@,
            victims_of(old(world).entities@, events@, 0),
            0,
        ),
{
    let ghost s = old(world).entities@;
    let ghost evs = events@;
    let m = events.len();
    let mut hits: Vec<EnemyHitEvent> = Vec::new();
    let mut victims: Vec<u64> = Vec::new();
    let mut k: usize = 0;
    while k < m
        invariant
            *world == *old(world),
            old(world).wf(),
            s == old(world).entities@,
            evs == events@,
            m == evs.len(),
            0 <= k <= m,
            hits_of(s, evs, 0) == hits@ + hits_of(s, evs, k as int),
            victims_of(s, evs, 0) == victims@ + victims_of(s, evs, k as int),
        decreases m - k,
    {
        let ev = events[k];
        let ghost h0 = hits@;
        let ghost v0 = victims@;
        let p1 = check_projectile(world, ev.entity1);
        let p2 = check_projectile(world, ev.entity2);
        let e1 = check_enemy(world, ev.entity1);
        let e2 = check_enemy(world, ev.entity2);
        if p1 && e2 {
            let pos = position_of(world, ev.entity2);
            hits.push(EnemyHitEvent { entity: ev.entity2, position: pos, damage: 1 });
            victims.push(ev.entity1);
        }
        if p2 && e1 {
            let pos = position_of(world, ev.entity1);
            hits.push(EnemyHitEvent { entity: ev.entity1, position: pos, damage: 1 });
            victims.push(ev.entity2);
        }
        proof {
            assert(hits@ =~= h0 + event_hits(s, ev));
            assert(victims@ =~= v0 + event_victims(s, ev));
            assert(hits_of(s, evs, k as int) == event_hits(s, evs[k as int]) + hits_of(
                s,
                evs,
                k + 1,
            ));
            assert(victims_of(s, evs, k as int) == event_victims(s, evs[k as int]) + victims_of(
                s,
                evs,
                k + 1,
            ));
            assert(h0 + (event_hits(s, ev) + hits_of(s, evs, k + 1)) =~= (h0 + event_hits(s, ev))
                + hits_of(s, evs, k + 1));
            assert(v0 + (event_victims(s, ev) + victims_of(s, evs, k + 1)) =~= (v0
                + event_victims(s, ev)) + victims_of(s, evs, k + 1));
        }
        k = k + 1;
    }
    proof {
        assert(hits_of(s, evs, m as int) =~= Seq::<EnemyHitEvent>::empty());
        assert(hits@ + Seq::<EnemyHitEvent>::empty() =~= hits@);
        assert(victims_of(s, evs, m as int) =~= Seq::<u64>::empty());
        assert(victims@ + Seq::<u64>::empty() =~= victims@);
    }
    let ghost vs = victims@;
    let nv = victims.len();
    let mut j: usize = 0;
    while j < nv
        invariant
            world.wf(),
            world.next_id == old(world).next_id,
            vs == victims@,
            nv == vs.len(),
            0 <= j <= nv,
            despawn_all(s, vs, 0) == despawn_all(world.entities@, vs, j as int),
        decreases nv - j,
    {
        let ghost cur = world.entities@;
        world.despawn_recursive(victims[j]);
        proof {
            assert(despawn_all(cur, vs, j as int) == despawn_all(
                remove_doomed(cur, vs[j as int], 0),
                vs,
                j + 1,
            ));
        }
        j = j + 1;
    }
    hits
}

/// Health of a record, 0 when it has none.
pub open spec fn health_of(e: EntityRecord) -> int {
    match e.health {
        Some(h) => h.0 as int,
        None => 0,
    }
}

/// Stage B on a single hit event: a live enemy with health observed at
/// exactly 1 dies (health untouched); otherwise its health drops by the
/// event's damage.  Missing or non-enemy targets are skipped silently.
pub open spec fn apply_hit(s: Seq<EntityRecord>, ev: EnemyHitEvent) -> (Seq<EntityRecord>, Seq<
    EnemyDiedEvent,
>) {
    let f = find(s, ev.entity);
    if f < 0 {
        (s, Seq::empty())
    } else {
        match (s[f].enemy, s[f].health) {
            (Some(en), Some(h)) => if h.0 == 1 {
                (
                    s,
                    seq![
                        EnemyDiedEvent {
                            entity: ev.entity,
                            position: ev.position,
                            enemy_type: en.enemy_type,
                        },
                    ],
                )
            } else {
                (
                    s.update(
                        f,
                        EntityRecord { health: Some(Health((h.0 - ev.damage) as i32)), ..s[f] },
                    ),
                    Seq::empty(),
                )
            },
            _ => (s, Seq::empty()),
        }
    }
}

/// Stage B over the hit events from index `k` on, applied in order.
pub open spec fn on_hit_spec(s: Seq<EntityRecord>, evs: Seq<EnemyHitEvent>, k: int) -> (Seq<
    EntityRecord,
>, Seq<EnemyDiedEvent>)
    decreases evs.len() - k,
{
    if k < 0 || k >= evs.len() {
        (s, Seq::empty())
    } else {
        let sd = apply_hit(s, evs[k]);
        let rest = on_hit_spec(sd.0, evs, k + 1);
        (rest.0, sd.1 + rest.1)
    }
}

/// Stage B: apply each hit event in order; the lethal hit (health observed
/// at exactly 1) emits a death event instead of storing a zero.
pub fn on_hit(world: &mut World, events: &Vec<EnemyHitEvent>) -> (died: Vec<EnemyDiedEvent>)
    requires
        old(world).wf(),
        forall|k: int| 0 <= k < events@.len() ==> (#[trigger] events@[k]).damage == 1,
    ensures
        final(world).wf(),
        final(world).next_id == old(world).next_id,
        final(world).entities@ == on_hit_spec(old(world).entities@, events@, 0).0,
        died@ == on_hit_spec(old(world).entities@, events@, 0).1,
{
    let ghost s0 = old(world).entities@;
    let ghost evs = events@;
    let m = events.len();
    let mut died: Vec<EnemyDiedEvent> = Vec::new();
    let mut k: usize = 0;
    while k < m
        invariant
            world.wf(),
            world.next_id == old(world).next_id,
            evs == events@,
            forall|x: int| 0 <= x < evs.len() ==> (#[trigger] evs[x]).damage == 1,
            m == evs.len(),
            0 <= k <= m,
            on_hit_spec(s0, evs, 0).0 == on_hit_spec(world.entities@, evs, k as int).0,
            on_hit_spec(s0, evs, 0).1 == died@ + on_hit_spec(world.entities@, evs, k as int).1,
        decreases m - k,
    {
        let ghost cur = world.entities@;
        let ghost d0 = died@;
        let ev = events[k];
        let n = world.entities.len();
        proof {
            lemma_find_from_props(cur, ev.entity, 0);
        }
        match world.index_of(ev.entity) {
            Some(i) => {
                let is_en = world.entities[i].enemy.is_some();
                let hp = world.entities[i].health;
                match hp {
                    Some(h) => {
                        if is_en {
                            if h.0 == 1 {
                                let en_type = match world.entities[i].enemy {
                                    Some(en) => en.enemy_type,
                                    None => vstd::pervasive::unreached(),
                                };
                                died.push(
                                    EnemyDiedEvent {
                                        entity: ev.entity,
                                        position: ev.position,
                                        enemy_type: en_type,
                                    },
                                );
                            } else {
                                let mut rec = world.entities.remove(i);
                                rec.health = Some(Health(h.0 - ev.damage));
                                world.entities.insert(i, rec);
                                proof {
                                    assert(world.entities@ =~= cur.update(
                                        i as int,
                                        EntityRecord {
                                            health: Some(Health((h.0 - ev.damage) as i32)),
                                            ..cur[i as int]
                                        },
                                    ));
                                }
                            }
                        }
                    },
                    None => (),
                }
            },
            None => (),
        }
        proof {
            assert(world.entities@ == apply_hit(cur, ev).0);
            assert(died@ =~= d0 + apply_hit(cur, ev).1);
            assert(on_hit_spec(cur, evs, k as int).0 == on_hit_spec(world.entities@, evs, k + 1).0);
            assert(on_hit_spec(cur, evs, k as int).1 == apply_hit(cur, ev).1 + on_hit_spec(
                world.entities@,
                evs,
                k + 1,
            ).1);
            assert(d0 + (apply_hit(cur, ev).1 + on_hit_spec(world.entities@, evs, k + 1).1)
                =~= (d0 + apply_hit(cur, ev).1) + on_hit_spec(world.entities@, evs, k + 1).1);
            assert forall|a: int, b: int| 0 <= a < b < world.entities@.len() implies (
            #[trigger] world.entities@[a].id) < (#[trigger] world.entities@[b].id) by {
                assert(world.entities@[a].id == cur[a].id);
                assert(world.entities@[b].id == cur[b].id);
            }
        }
        k = k + 1;
    }
    proof {
        assert(on_hit_spec(world.entities@, evs, m as int).0 == world.entities@);
        assert(died@ + Seq::<EnemyDiedEvent>::empty() =~= died@);
    }
    died
}

/// Stage C over the death events from index `k` on: tombstone each entity
/// that is still live.
pub open spec fn tag_dead(s: Seq<EntityRecord>, evs: Seq<EnemyDiedEvent>, k: int) -> Seq<
    EntityRecord,
>
    decreases evs.len() - k,
{
    if k < 0 || k >= evs.len() {
        s
    } else {
        let f = find(s, evs[k].entity);
        let s1 = if f >= 0 {
            s.update(f, EntityRecord { dead: Some(Dead), ..s[f] })
        } else {
            s
        };
        tag_dead(s1, evs, k + 1)
    }
}

/// Stage C: attach the tombstone marker to each dead entity; destruction is
/// deferred to the cleanup sweep so same-tick listeners can still read it.
pub fn on_enemy_died(world: &mut World, events: &Vec<EnemyDiedEvent>)
    requires
        old(world).wf(),
    ensures
        final(world).wf(),
        final(world).next_id == old(world).next_id,
        final(world).entities@ == tag_dead(old(world).entities@, events@, 0),
{
    let ghost s0 = old(world).entities@;
    let ghost evs = events@;
    let m = events.len();
    let mut k: usize = 0;
    while k < m
        invariant
            world.wf(),
            world.next_id == old(world).next_id,
            evs == events@,
            m == evs.len(),
            0 <= k <= m,
            tag_dead(s0, evs, 0) == tag_dead(world.entities@, evs, k as int),
        decreases m - k,
    {
        let ghost cur = world.entities@;
        let ev = events[k];
        let n = world.entities.len();
        proof {
            lemma_find_from_props(cur, ev.entity, 0);
        }
        match world.index_of(ev.entity) {
            Some(i) => {
                let mut rec = world.entities.remove(i);
                rec.dead = Some(Dead);
                world.entities.insert(i, rec);
                proof {
                    assert(world.entities@ =~= cur.update(
                        i as int,
                        EntityRecord { dead: Some(Dead), ..cur[i as int] },
                    ));
                }
            },
            None => (),
        }
        proof {
            assert(tag_dead(cur, evs, k as int) == tag_dead(world.entities@, evs, k + 1));
            assert forall|a: int, b: int| 0 <= a < b < world.entities@.len() implies (
            #[trigger] world.entities@[a].id) < (#[trigger] world.entities@[b].id) by {
                assert(world.entities@[a].id == cur[a].id);
                assert(world.entities@[b].id == cur[b].id);
            }
        }
        k = k + 1;
    }
}

/// Every hit event stage A emits carries damage exactly 1.
pub proof fn lemma_hits_damage_one(s: Seq<EntityRecord>, evs: Seq<CollisionEvent>, k: int)
    ensures
        forall|m: int| 0 <= m < hits_of(s, evs, k).len() ==> (#[trigger] hits_of(s, evs, k)[m])
            .damage == 1,
    decreases evs.len() - k,
{
    if 0 <= k < evs.len() {
        lemma_hits_damage_one(s, evs, k + 1);
        let eh = event_hits(s, evs[k]);
        let a = if is_projectile(s, evs[k].entity1) && is_enemy(s, evs[k].entity2) {
            seq![hit_for(s, evs[k].entity2)]
        } else {
            Seq::<EnemyHitEvent>::empty()
        };
        let b = if is_projectile(s, evs[k].entity2) && is_enemy(s, evs[k].entity1) {
            seq![hit_for(s, evs[k].entity1)]
        } else {
            Seq::<EnemyHitEvent>::empty()
        };
        assert(eh == a + b);
        assert forall|m: int| 0 <= m < hits_of(s, evs, k).len() implies (#[trigger] hits_of(
            s,
            evs,
            k,
        )[m]).damage == 1 by {
            if m < eh.len() {
                if m < a.len() {
                    assert(eh[m] == a[0]);
                } else {
                    assert(eh[m] == b[0]);
                }
            } else {
                assert(hits_of(s, evs, k)[m] == hits_of(s, evs, k + 1)[m - eh.len()]);
            }
        }
    }
}

impl EnemyPlugin {
    /// One tick of the combat chain, in pipeline order: collision filter,
    /// damage application, death tagging.
    pub fn update(world: &mut World, collisions: &Vec<CollisionEvent>) -> (r: (
        Vec<EnemyHitEvent>,
        Vec<EnemyDiedEvent>,
    ))
        requires
            old(world).wf(),
        ensures
            final(world).wf(),
            final(world).next_id == old(world).next_id,
            ({
                let s0 = old(world).entities@;
                let hits = hits_of(s0, collisions@, 0);
                let s1 = despawn_all(s0, victims_of(s0, collisions@, 0), 0);
                let bd = on_hit_spec(s1, hits, 0);
                &&& r.0@ == hits
                &&& r.1@ == bd.1
                &&& final(world).entities@ == tag_dead(bd.0, bd.1, 0)
            }),
    {
        let hits = on_collision(world, collisions);
        proof {
            lemma_hits_damage_one(old(world).entities@, collisions@, 0);
        }
        let died = on_hit(world, &hits);
        on_enemy_died(world, &died);
        (hits, died)
    }
}

/// Law: resolving a single hit against a live enemy tombstones it in the
/// same pass exactly when its health is observed at 1, leaving the stored
/// health untouched; at any other health the hit only decrements health and
/// adds no tombstone.
pub proof fn lemma_single_hit_resolution(s: Seq<EntityRecord>, ev: EnemyHitEvent)
    requires
        ev.damage == 1,
        find(s, ev.entity) >= 0,
        s[find(s, ev.entity)].enemy is Some,
        s[find(s, ev.entity)].health is Some,
        health_of(s[find(s, ev.entity)]) >= 1,
    ensures
        ({
            let f = find(s, ev.entity);
            let bd = on_hit_spec(s, seq![ev], 0);
            let s2 = tag_dead(bd.0, bd.1, 0);
            &&& s2.len() == s.len()
            &&& (forall|k: int| 0 <= k < s.len() && k != f ==> s2[k] == #[trigger] s[k])
            &&& (health_of(s[f]) == 1 ==> bd.1.len() == 1 && s2[f].dead is Some && s2[f].health
                == s[f].health)
            &&& (health_of(s[f]) != 1 ==> bd.1.len() == 0 && s2[f].dead == s[f].dead && health_of(
                s2[f],
            ) == health_of(s[f]) - 1)
        }),
{
    lemma_find_from_props(s, ev.entity, 0);
    let f = find(s, ev.entity);
    let evs = seq![ev];
    assert(evs[0] == ev);
    let sd = apply_hit(s, ev);
    assert(on_hit_spec(sd.0, evs, 1) == (sd.0, Seq::<EnemyDiedEvent>::empty()));
    let bd = on_hit_spec(s, evs, 0);
    assert(bd.0 == sd.0);
    assert(bd.1 =~= sd.1);
    match (s[f].enemy, s[f].health) {
        (Some(en), Some(h)) => {
            if h.0 == 1 {
                let dev = EnemyDiedEvent {
                    entity: ev.entity,
                    position: ev.position,
                    enemy_type: en.enemy_type,
                };
                assert(bd.1 =~= seq![dev]);
                assert(bd.1[0] == dev);
                let s1 = s.update(f, EntityRecord { dead: Some(Dead), ..s[f] });
                assert(tag_dead(bd.0, bd.1, 0) == tag_dead(s1, bd.1, 1));
                assert(tag_dead(s1, bd.1, 1) == s1);
            } else {
                assert(bd.1.len() == 0);
                assert(tag_dead(bd.0, bd.1, 0) == bd.0);
                assert(bd.0[f].health == Some(Health((h.0 - 1) as i32)));
            }
        },
        _ => {
            assert(false);
        },
    }
}

/// Position of the triangle-path enemy's first vertex.
pub open spec fn enemy_spawn_pos() -> Vec2i {
    Vec2i { x: -137_142_857i64, y: 440_000_000 }
}

/// The path the stepped cursor state of `p` reaches after advancing `dxm`.
pub open spec fn step_path(p: PolyPath, dxm: int) -> PolyPath {
    if p.total_length == 0 {
        p
    } else {
        let tgt = (p.distance + dxm) % (p.total_length as int);
        PolyPath {
            vertices: p.vertices,
            pos: walk(p.vertices@, tgt),
            total_length: p.total_length,
            distance: tgt as i64,
        }
    }
}

/// The record after one steering step: the path advances by the entity's
/// speed times `dt`, and the velocity keeps its magnitude but points from
/// the entity's actual position toward the path's new aim point (unchanged
/// when the entity already sits on the aim point).
pub open spec fn follow_one(e: EntityRecord, dt: int) -> EntityRecord {
    match (e.velocity, e.path) {
        (Some(v), Some(p)) => {
            let speed = dist_spec(Vec2i { x: 0, y: 0 }, v.0);
            let dxm = speed * dt / (UNIT as int);
            let p2 = step_path(p, dxm);
            let next = p2.pos;
            let l = dist_spec(e.position, next);
            if l == 0 {
                EntityRecord { path: Some(p2), ..e }
            } else {
                EntityRecord {
                    velocity: Some(
                        Velocity(
                            Vec2i {
                                x: clamp_spec(
                                    (next.x - e.position.x) * speed / l,
                                    -VEL_LIMIT as int,
                                    VEL_LIMIT as int,
                                ) as i64,
                                y: clamp_spec(
                                    (next.y - e.position.y) * speed / l,
                                    -VEL_LIMIT as int,
                                    VEL_LIMIT as int,
                                ) as i64,
                            },
                        ),
                    ),
                    path: Some(p2),
                    ..e
                }
            }
        },
        _ => e,
    }
}

/// Steering: each path-bound entity with a velocity advances its path by
/// `speed * dt` and retargets its velocity toward the path's aim point.
pub fn follow_path(world: &mut World, dt: i64)
    requires
        old(world).wf(),
        0 <= dt <= DT_MAX,
    ensures
        final(world).wf(),
        final(world).next_id == old(world).next_id,
        final(world).entities@.len() == old(world).entities@.len(),
        forall|k: int| 0 <= k < old(world).entities@.len() ==> final(world).entities@[k]
            == follow_one(#[trigger] old(world).entities@[k], dt as int),
{
    let ghost s = old(world).entities@;
    let n = world.entities.len();
    let mut out: Vec<EntityRecord> = Vec::new();
    let mut i: usize = 0;
    while i < n
        invariant
            old(world).wf(),
            s == old(world).entities@,
            0 <= dt <= DT_MAX,
            world.next_id == old(world).next_id,
            n == s.len(),
            0 <= i <= n,
            world.entities@ =~= s.subrange(i as int, n as int),
            out@.len() == i,
            forall|k: int| 0 <= k < i ==> out@[k] == follow_one(#[trigger] s[k], dt as int),
            forall|k: int| 0 <= k < i ==> entity_wf(#[trigger] out@[k]),
        decreases n - i,
    {
        proof {
            assert(s.subrange(i as int, n as int)[0] == s[i as int]);
        }
        let mut e = world.entities.remove(0);
        proof {
            assert(e == s[i as int]);
            assert(world.entities@ =~= s.subrange(i + 1, n as int));
            assert(entity_wf(s[i as int]));
        }
        let path_taken = e.path.take();
        match (e.velocity, path_taken) {
            (Some(v), Some(mut p)) => {
                let origin = Vec2i::new(0, 0);
                let speed = dist(origin, v.0);
                proof {
                    assert(0 <= dist_sq(origin, v.0) <= 800_000_000_000_000_000_000)
                        by (nonlinear_arith)
                        requires
                            dist_sq(origin, v.0) == (v.0.x - 0) * (v.0.x - 0) + (v.0.y - 0) * (
                            v.0.y - 0),
                            -20_000_000_000 <= v.0.x <= 20_000_000_000,
                            -20_000_000_000 <= v.0.y <= 20_000_000_000,
                    ;
                    assert(800_000_000_000_000_000_000 < (30_000_000_000i64 + 1) * (
                    30_000_000_000i64 + 1)) by (nonlinear_arith);
                    lemma_sqrt_floor_le(dist_sq(origin, v.0), 30_000_000_000);
                    assert(0 <= (speed as int) * (dt as int) <= 300_000_000_000_000_000)
                        by (nonlinear_arith)
                        requires
                            0 <= speed <= 30_000_000_000,
                            0 <= dt <= 10_000_000,
                    ;
                }
                let dq = div_euclid_i128((speed as i128) * (dt as i128), UNIT as i128);
                let dxm = dq as i64;
                let ghost p0 = p;
                let next = p.step(dxm);
                proof {
                    if p0.total_length > 0 {
                        vstd::arithmetic::div_mod::lemma_mod_bound(
                            (p0.distance + dxm) as int,
                            p0.total_length as int,
                        );
                    }
                    assert(p == step_path(p0, dxm as int));
                }
                let l = dist(e.position, next);
                if l > 0 {
                    proof {
                        lemma_component_le_seg(e.position, next);
                        lemma_mul_div_bounds(
                            (next.x - e.position.x) as int,
                            speed as int,
                            l as int,
                        );
                        lemma_mul_div_bounds(
                            (next.y - e.position.y) as int,
                            speed as int,
                            l as int,
                        );
                        assert(
                            -40_000_000_000_000_000_000_000_000
                                <= ((next.x - e.position.x) as int) * (speed as int)
                                <= 40_000_000_000_000_000_000_000_000
                            && -40_000_000_000_000_000_000_000_000
                                <= ((next.y - e.position.y) as int) * (speed as int)
                                <= 40_000_000_000_000_000_000_000_000
                        ) by (nonlinear_arith)
                            requires
                                -200_000_000_000_000 <= next.x - e.position.x
                                    <= 200_000_000_000_000,
                                -200_000_000_000_000 <= next.y - e.position.y
                                    <= 200_000_000_000_000,
                                0 <= speed <= 30_000_000_000,
                        ;
                    }
                    let qx = div_euclid_i128(
                        ((next.x as i128) - (e.position.x as i128)) * (speed as i128),
                        l as i128,
                    );
                    let qy = div_euclid_i128(
                        ((next.y as i128) - (e.position.y as i128)) * (speed as i128),
                        l as i128,
                    );
                    let nvx = clamp(qx as i64, -VEL_LIMIT, VEL_LIMIT);
                    let nvy = clamp(qy as i64, -VEL_LIMIT, VEL_LIMIT);
                    e.velocity = Some(Velocity(Vec2i::new(nvx, nvy)));
                }
                e.path = Some(p);
                proof {
                    assert(e == follow_one(s[i as int], dt as int));
                }
            },
            (_, other) => {
                e.path = other;
                proof {
                    assert(e == follow_one(s[i as int], dt as int));
                }
            },
        }
        out.push(e);
        i = i + 1;
    }
    world.entities = out;
    proof {
        assert forall|a: int, b: int| 0 <= a < b < world.entities@.len() implies (
        #[trigger] world.entities@[a].id) < (#[trigger] world.entities@[b].id) by {
            assert(world.entities@[a] == follow_one(s[a], dt as int));
            assert(world.entities@[b] == follow_one(s[b], dt as int));
            assert(follow_one(s[a], dt as int).id == s[a].id);
            assert(follow_one(s[b], dt as int).id == s[b].id);
        }
        assert forall|k: int| 0 <= k < world.entities@.len() implies (
        #[trigger] world.entities@[k].id) < world.next_id by {
            assert(world.entities@[k] == follow_one(s[k], dt as int));
            assert(follow_one(s[k], dt as int).id == s[k].id);
        }
    }
}

/// Some live entity carries the enemy role.
pub open spec fn has_enemy(s: Seq<EntityRecord>) -> bool {
    exists|i: int| 0 <= i < s.len() && (#[trigger] s[i]).enemy is Some
}

/// Whether any live entity carries the enemy role.
fn any_enemy(world: &World) -> (r: bool)
    ensures
        r == has_enemy(world.entities@),
{
    let ghost s = world.entities@;
    let n = world.entities.len();
    let mut i: usize = 0;
    while i < n
        invariant
            s == world.entities@,
            n == s.len(),
            0 <= i <= n,
            forall|k: int| 0 <= k < i ==> !((#[trigger] s[k]).enemy is Some),
        decreases n - i,
    {
        if world.entities[i].enemy.is_some() {
            proof {
                assert(0 <= i < s.len() && s[i as int].enemy is Some);
            }
            return true;
        }
        i = i + 1;
    }
    proof {
        if has_enemy(s) {
            let k = choose|k: int| 0 <= k < s.len() && (#[trigger] s[k]).enemy is Some;
            assert(!(s[k].enemy is Some));
        }
    }
    false
}

/// The record is the standard triangle-path enemy the spawner creates.
pub open spec fn is_standard_enemy_record(e: EntityRecord) -> bool {
    let v1 = enemy_spawn_pos();
    let v2 = Vec2i { x: 137_142_857, y: 440_000_000 };
    let v3 = Vec2i { x: 0, y: 0 };
    &&& e.parent is None
    &&& e.position == v1
    &&& e.scale == 63 * UNIT
    &&& e.velocity == Some(Velocity(Vec2i { x: 0, y: -300_000_000i64 }))
    &&& e.momentum is None
    &&& e.collider is Some
    &&& e.health == Some(Health(4))
    &&& e.enemy == Some(Enemy { enemy_type: EnemyType::Standard })
    &&& e.player is None
    &&& e.projectile is None
    &&& e.debris is None
    &&& e.dead is None
    &&& (match e.path {
        Some(p) => {
            &&& p.wf()
            &&& p.vertices@ == seq![v1, v2, v3]
            &&& p.distance == 0
            &&& p.total_length == total_len_spec(seq![v1, v2, v3])
            &&& p.pos == v1
        },
        None => false,
    })
}

/// Deterministic spawn policy: with no enemy alive and a winning roll
/// (above 950 000 of 1 000 000, a one-in-twenty chance), spawn the standard
/// triangle-path enemy; otherwise change nothing.
pub fn spawn_enemies_with(world: &mut World, roll: u64)
    requires
        old(world).wf(),
        old(world).next_id < u64::MAX,
    ensures
        final(world).wf(),
        (has_enemy(old(world).entities@) || roll <= 950_000) ==> *final(world) == *old(world),
        (!has_enemy(old(world).entities@) && roll > 950_000) ==> ({
            &&& final(world).next_id == old(world).next_id + 1
            &&& exists|e: EntityRecord| #[trigger] is_standard_enemy_record(e) && e.id == old(
                world,
            ).next_id && final(world).entities@ == old(world).entities@.push(e)
        }),
{
    if any_enemy(world) {
        return ;
    }
    if roll > 950_000 {
        let v1 = Vec2i::new(-137_142_857, 440_000_000);
        let v2 = Vec2i::new(137_142_857, 440_000_000);
        let v3 = Vec2i::new(0, 0);
        let mut vs: Vec<Vec2i> = Vec::new();
        vs.push(v1);
        vs.push(v2);
        vs.push(v3);
        proof {
            assert(vs@ =~= seq![v1, v2, v3]);
        }
        let path = PolyPath::new(vs);
        let rec = EntityRecord {
            id: 0,
            parent: None,
            position: v1,
            scale: 63 * UNIT,
            velocity: Some(Velocity(Vec2i::new(0, -300 * UNIT))),
            momentum: None,
            collider: Some(Collider),
            health: Some(Health(4)),
            enemy: Some(Enemy::new(EnemyType::Standard)),
            player: None,
            projectile: None,
            debris: None,
            dead: None,
            path: Some(path),
        };
        let ghost expect = with_id(rec, old(world).next_id);
        world.spawn(rec);
        proof {
            assert(is_standard_enemy_record(expect));
        }
    }
}

/// One outcome of the spawn gate: the world is unchanged, or (with no
/// enemy alive) the standard enemy joined with the next identity.
pub open spec fn spawn_rel(s0: Seq<EntityRecord>, n0: u64, s1: Seq<EntityRecord>, n1: u64) -> bool {
    ||| (s1 == s0 && n1 == n0)
    ||| ({
        &&& !has_enemy(s0)
        &&& n1 == n0 + 1
        &&& exists|e: EntityRecord| #[trigger] is_standard_enemy_record(e) && e.id == n0 && s1
            == s0.push(e)
    })
}

/// Spawn gate: draw a uniform roll and apply the spawn policy.  The draw is
/// random, so either outcome of `spawn_enemies_with` may be observed; with
/// an enemy already alive the world is always unchanged.
pub fn spawn_enemies(world: &mut World)
    requires
        old(world).wf(),
        old(world).next_id < u64::MAX,
    ensures
        final(world).wf(),
        spawn_rel(
            old(world).entities@,
            old(world).next_id,
            final(world).entities@,
            final(world).next_id,
        ),
        has_enemy(old(world).entities@) ==> *final(world) == *old(world),
        *final(world) == *old(world) || ({
            &&& !has_enemy(old(world).entities@)
            &&& final(world).next_id == old(world).next_id + 1
            &&& exists|e: EntityRecord| #[trigger] is_standard_enemy_record(e) && e.id == old(
                world,
            ).next_id && final(world).entities@ == old(world).entities@.push(e)
        }),
{
    let roll = crate::rng::rand_below(1_000_000);
    spawn_enemies_with(world, roll);
}

/// Stage A emits at most two hit events per collision event.
pub proof fn lemma_hits_len(s: Seq<EntityRecord>, evs: Seq<CollisionEvent>, k: int)
    requires
        0 <= k <= evs.len(),
    ensures
        0 <= hits_of(s, evs, k).len() <= 2 * (evs.len() - k),
    decreases evs.len() - k,
{
    if k < evs.len() {
        lemma_hits_len(s, evs, k + 1);
    }
}

/// Stage B emits at most one death event per hit event.
pub proof fn lemma_died_len(s: Seq<EntityRecord>, evs: Seq<EnemyHitEvent>, k: int)
    requires
        0 <= k <= evs.len(),
    ensures
        0 <= on_hit_spec(s, evs, k).1.len() <= evs.len() - k,
    decreases evs.len() - k,
{
    if k < evs.len() {
        lemma_died_len(apply_hit(s, evs[k]).0, evs, k + 1);
    }
}

/// Every hit event's position is a live entity's position, hence in range.
pub proof fn lemma_hits_positions(s: Seq<EntityRecord>, evs: Seq<CollisionEvent>, k: int)
    requires
        0 <= k <= evs.len(),
        forall|i: int| 0 <= i < s.len() ==> in_pos_range((#[trigger] s[i]).position),
    ensures
        forall|m: int| 0 <= m < hits_of(s, evs, k).len() ==> in_pos_range(
            (#[trigger] hits_of(s, evs, k)[m]).position,
        ),
    decreases evs.len() - k,
{
    if 0 <= k < evs.len() {
        lemma_hits_positions(s, evs, k + 1);
        let eh = event_hits(s, evs[k]);
        let a = if is_projectile(s, evs[k].entity1) && is_enemy(s, evs[k].entity2) {
            seq![hit_for(s, evs[k].entity2)]
        } else {
            Seq::<EnemyHitEvent>::empty()
        };
        let b = if is_projectile(s, evs[k].entity2) && is_enemy(s, evs[k].entity1) {
            seq![hit_for(s, evs[k].entity1)]
        } else {
            Seq::<EnemyHitEvent>::empty()
        };
        assert(eh == a + b);
        lemma_find_from_props(s, evs[k].entity1, 0);
        lemma_find_from_props(s, evs[k].entity2, 0);
        assert forall|m: int| 0 <= m < hits_of(s, evs, k).len() implies in_pos_range(
            (#[trigger] hits_of(s, evs, k)[m]).position,
        ) by {
            if m < eh.len() {
                if m < a.len() {
                    assert(eh[m] == a[0]);
                } else {
                    assert(eh[m] == b[0]);
                }
            } else {
                assert(hits_of(s, evs, k)[m] == hits_of(s, evs, k + 1)[m - eh.len()]);
            }
        }
    }
}

/// Every death event carries the position of the hit event that caused it.
pub proof fn lemma_died_positions(s: Seq<EntityRecord>, evs: Seq<EnemyHitEvent>, k: int)
    requires
        0 <= k <= evs.len(),
        forall|m: int| 0 <= m < evs.len() ==> in_pos_range((#[trigger] evs[m]).position),
    ensures
        forall|m: int| 0 <= m < on_hit_spec(s, evs, k).1.len() ==> in_pos_range(
            (#[trigger] on_hit_spec(s, evs, k).1[m]).position,
        ),
    decreases evs.len() - k,
{
    if 0 <= k < evs.len() {
        let sd = apply_hit(s, evs[k]);
        lemma_died_positions(sd.0, evs, k + 1);
        assert forall|m: int| 0 <= m < on_hit_spec(s, evs, k).1.len() implies in_pos_range(
            (#[trigger] on_hit_spec(s, evs, k).1[m]).position,
        ) by {
            if m < sd.1.len() {
                assert(on_hit_spec(s, evs, k).1[m] == sd.1[0]);
            } else {
                assert(on_hit_spec(s, evs, k).1[m] == on_hit_spec(sd.0, evs, k + 1).1[m
                    - sd.1.len()]);
            }
        }
    }
}

} // verus!
