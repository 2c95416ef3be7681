//! The statically ordered per-tick pipeline.
//!
//! One tick runs, in this order: player steering and firing, the spawn
//! gate, path steering, velocity integration, the broad phase, the combat
//! chain (collision filter, damage, death tagging), the player-hit
//! listener, the score listener, the debris listener, the bounds sweep and
//! the tombstone sweep.  The spawn gate and the debris directions are the
//! only random choices; everything in between is pinned exactly.

use vstd::prelude::*;
use crate::enemy::{
    EnemyPlugin, EnemyHitEvent, EnemyDiedEvent, spawn_enemies, spawn_rel, follow_path, follow_one,
    hits_of, victims_of, on_hit_spec, tag_dead, lemma_hits_len, lemma_died_len,
    lemma_hits_positions, lemma_died_positions,
};
use crate::physics::{
    CollisionEvent, apply_velocity, check_for_collisions, integrate, collisions_spec,
    lemma_collisions_len, DT_MAX,
};
use crate::player::{
    InputState, PlayerHitByEnemyEvent, control, control_player, shoot, projectile_record,
    player_count, player_idx, player_hits_of, Player,
};
use crate::store::{World, EntityRecord, despawn_all, remove_ids};
use crate::ui::{UiPlugin, Score, score_delta};
use crate::world::{WorldPlugin, Bounds, debris_rel, oob_ids, dead_ids};

verus! {

/// Most live entities a tick is specified for (a machine limit: it bounds
/// the events, and with them the id and score headroom a tick may consume).
pub const MAX_TICK_ENTITIES: usize = 1000;

/// The whole game: wires the subsystems into one ordered pipeline.
pub struct GamePlugin;

/// The event queues one tick produced, drained and discarded afterwards.
pub struct TickEvents {
    /// Raw broad-phase overlaps.
    pub collisions: Vec<CollisionEvent>,
    /// Confirmed projectile hits on enemies.
    pub hits: Vec<EnemyHitEvent>,
    /// Lethal hits resolved this tick.
    pub deaths: Vec<EnemyDiedEvent>,
    /// Raw player-enemy contact signals.
    pub player_hits: Vec<PlayerHitByEnemyEvent>,
}

/// The world after the steering stage.
pub open spec fn control_spec(s: Seq<EntityRecord>, input: InputState, dt: int) -> Seq<
    EntityRecord,
> {
    if player_count(s, 0) == 1 {
        s.update(player_idx(s, 0), control_player(s[player_idx(s, 0)], input, dt))
    } else {
        s
    }
}

/// The world and id counter after the firing stage.
pub open spec fn shoot_spec(s: Seq<EntityRecord>, n: u64, pressed: bool, t: i64) -> (Seq<
    EntityRecord,
>, u64) {
    if !pressed || player_count(s, 0) != 1 {
        (s, n)
    } else {
        let i = player_idx(s, 0);
        match s[i].player {
            Some(pl) => if pl.last_shot > 0 && pl.last_shot + pl.fire_rate > t {
                (s, n)
            } else {
                (
                    s.update(
                        i,
                        EntityRecord {
                            player: Some(Player { fire_rate: pl.fire_rate, last_shot: t }),
                            ..s[i]
                        },
                    ).push(projectile_record(n, s[i].position)),
                    (n + 1) as u64,
                )
            },
            None => (s, n),
        }
    }
}

/// The world after the path-steering stage.
pub open spec fn follow_all(s: Seq<EntityRecord>, dt: int) -> Seq<EntityRecord> {
    Seq::new(s.len(), |k: int| follow_one(s[k], dt))
}

/// The world after the integration stage.
pub open spec fn integrate_all(s: Seq<EntityRecord>, dt: int) -> Seq<EntityRecord> {
    Seq::new(s.len(), |k: int| integrate(s[k], dt))
}

/// The player-hit signals of one tick: empty without exactly one player.
pub open spec fn player_hits_spec(s: Seq<EntityRecord>, evs: Seq<CollisionEvent>) -> Seq<
    PlayerHitByEnemyEvent,
> {
    if player_count(s, 0) == 1 {
        player_hits_of(s, s[player_idx(s, 0)].id, evs, 0)
    } else {
        Seq::empty()
    }
}

impl GamePlugin {
    /// One tick of the whole pipeline, in the declared stage order.  The
    /// spawn gate and the debris directions are random draws, so the
    /// contract pins those two joints existentially and everything else
    /// exactly.
    pub fn tick(
        world: &mut World,
        score: &mut Score,
        input: InputState,
        fire: bool,
        t: i64,
        dt: i64,
        bounds: Bounds,
    ) -> (r: TickEvents)
        requires
            old(world).wf(),
            0 <= dt <= DT_MAX,
            old(world).entities@.len() <= MAX_TICK_ENTITIES,
            old(world).next_id + 50_000_000 <= u64::MAX,
            old(score).0 + 9_000_000 <= i32::MAX,
        ensures
            final(world).wf(),
            ({
                let s0 = old(world).entities@;
                let n0 = old(world).next_id;
                let s1 = control_spec(s0, input, dt as int);
                let sh = shoot_spec(s1, n0, fire, t);
                exists|s3: Seq<EntityRecord>, n3: u64|
                    {
                        &&& #[trigger] spawn_rel(sh.0, sh.1, s3, n3)
                        &&& ({
                            let s5 = integrate_all(follow_all(s3, dt as int), dt as int);
                            let cols = collisions_spec(s5, 0);
                            let hits = hits_of(s5, cols, 0);
                            let s6 = despawn_all(s5, victims_of(s5, cols, 0), 0);
                            let bd = on_hit_spec(s6, hits, 0);
                            let s7 = tag_dead(bd.0, bd.1, 0);
                            &&& r.collisions@ == cols
                            &&& r.hits@ == hits
                            &&& r.deaths@ == bd.1
                            &&& r.player_hits@ == player_hits_spec(s7, cols)
                            &&& final(score).0 == old(score).0 + score_delta(bd.1, 0)
                            &&& exists|s8: Seq<EntityRecord>, n8: u64|
                                {
                                    &&& #[trigger] debris_rel(s7, n3, bd.1, s8, n8)
                                    &&& final(world).next_id == n8
                                    &&& final(world).entities@ == despawn_all(
                                        remove_ids(s8, oob_ids(s8, bounds, 0), 0),
                                        dead_ids(remove_ids(s8, oob_ids(s8, bounds, 0), 0), 0),
                                        0,
                                    )
                                }
                        })
                    }
            }),
    {
        let ghost s0 = old(world).entities@;
        let ghost n0 = old(world).next_id;
        control(world, input, dt);
        proof {
            assert(world.entities@ == control_spec(s0, input, dt as int));
        }
        let ghost s1 = world.entities@;
        shoot(world, fire, t);
        proof {
            assert((world.entities@, world.next_id) == shoot_spec(s1, n0, fire, t));
        }
        let ghost s2 = world.entities@;
        let ghost n2 = world.next_id;
        spawn_enemies(world);
        let ghost s3 = world.entities@;
        let ghost n3 = world.next_id;
        follow_path(world, dt);
        proof {
            assert(world.entities@ =~= follow_all(s3, dt as int));
        }
        let ghost s4 = world.entities@;
        apply_velocity(world, dt);
        proof {
            assert(world.entities@ =~= integrate_all(s4, dt as int));
        }
        let ghost s5 = world.entities@;
        let collisions = check_for_collisions(world);
        let (hits, deaths) = EnemyPlugin::update(world, &collisions);
        let ghost s7 = world.entities@;
        let player_hits = crate::player::on_collision(world, &collisions);
        proof {
            assert(player_hits@ == player_hits_spec(s7, collisions@));
            lemma_collisions_len(s5, 0);
            lemma_hits_len(s5, collisions@, 0);
            let s6 = despawn_all(s5, victims_of(s5, collisions@, 0), 0);
            lemma_died_len(s6, hits@, 0);
            let sh = shoot_spec(s1, n0, fire, t);
            crate::player::lemma_player_idx_props(s0, 0);
            crate::player::lemma_player_idx_props(s1, 0);
            assert(s1.len() == s0.len()) by {
                if player_count(s0, 0) == 1 {
                    assert(s1 == s0.update(
                        player_idx(s0, 0),
                        control_player(s0[player_idx(s0, 0)], input, dt as int),
                    ));
                }
            };
            assert(sh.0.len() <= s1.len() + 1) by {
                if fire && player_count(s1, 0) == 1 {
                    let i = player_idx(s1, 0);
                    match s1[i].player {
                        Some(pl) => {
                            assert(s1.update(i, EntityRecord {
                                player: Some(Player { fire_rate: pl.fire_rate, last_shot: t }),
                                ..s1[i]
                            }).push(projectile_record(n0, s1[i].position)).len() == s1.len() + 1);
                        },
                        None => {},
                    }
                }
            };
            assert(s3.len() <= sh.0.len() + 1);
            assert(s5.len() <= 1002);
            assert(collisions@.len() <= 1_004_004) by (nonlinear_arith)
                requires
                    collisions@.len() <= s5.len() * s5.len(),
                    s5.len() <= 1002,
            ;
            assert(deaths@.len() <= 2_100_000);
            assert(forall|i: int| 0 <= i < s5.len() ==> crate::geom::in_pos_range(
                (#[trigger] s5[i]).position,
            ));
            lemma_hits_positions(s5, collisions@, 0);
            lemma_died_positions(s6, hits@, 0);
        }
        UiPlugin::update(score, &deaths);
        WorldPlugin::update(world, &deaths, bounds);
        proof {
            let s1g = control_spec(s0, input, dt as int);
            let shg = shoot_spec(s1g, n0, fire, t);
            assert(s1 == s1g);
            assert(s2 == shg.0 && n2 == shg.1);
            assert(spawn_rel(shg.0, shg.1, s3, n3));
            let s5g = integrate_all(follow_all(s3, dt as int), dt as int);
            assert(s4 == follow_all(s3, dt as int));
            assert(s5 == s5g);
            let colsg = collisions_spec(s5g, 0);
            assert(collisions@ == colsg);
            let hitsg = hits_of(s5g, colsg, 0);
            assert(hits@ == hitsg);
            let s6g = despawn_all(s5g, victims_of(s5g, colsg, 0), 0);
            let bdg = on_hit_spec(s6g, hitsg, 0);
            assert(deaths@ == bdg.1);
            let s7g = tag_dead(bdg.0, bdg.1, 0);
            assert(s7 == s7g);
            assert(player_hits@ == player_hits_spec(s7g, colsg));
            assert(score.0 == old(score).0 + score_delta(bdg.1, 0));
            let (mid, midn): (Seq<EntityRecord>, u64) = choose|mid: Seq<EntityRecord>, midn: u64|
                {
                    &&& #[trigger] debris_rel(s7, n3, deaths@, mid, midn)
                    &&& world.next_id == midn
                    &&& world.entities@ == despawn_all(
                        remove_ids(mid, oob_ids(mid, bounds, 0), 0),
                        dead_ids(remove_ids(mid, oob_ids(mid, bounds, 0), 0), 0),
                        0,
                    )
                };
            assert(debris_rel(s7g, n3, bdg.1, mid, midn));
            assert(exists|s8: Seq<EntityRecord>, n8: u64|
                {
                    &&& #[trigger] debris_rel(s7g, n3, bdg.1, s8, n8)
                    &&& world.next_id == n8
                    &&& world.entities@ == despawn_all(
                        remove_ids(s8, oob_ids(s8, bounds, 0), 0),
                        dead_ids(remove_ids(s8, oob_ids(s8, bounds, 0), 0), 0),
                        0,
                    )
                });
        }
        TickEvents { collisions, hits, deaths, player_hits }
    }
}

} // verus!
