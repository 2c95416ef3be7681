//! The player: steering, firing and the player-hit listener.
//!
//! Steering smooths keyboard input through a momentum component and clamps
//! the ship inside the arena.  Firing is rate-limited by a per-player
//! cooldown; a confirmed shot spawns a projectile at the player's position.
//! The player-hit listener turns raw collisions between the player and any
//! enemy into `PlayerHitByEnemyEvent` signals, destroying nothing itself.

use vstd::prelude::*;
use crate::constants::{
    UNIT, LEFT, RIGHT, TOP, BOTTOM, PADDLE_SPEED, PADDLE_PADDING, PROJECTILE_SPEED,
    GAP_BETWEEN_PADDLE_AND_FLOOR,
};
use crate::geom::{Vec2i, clamp, clamp_spec, div_euclid_i128, lemma_div_mag};
use crate::physics::{CollisionEvent, Collider, Velocity, Momentum, DT_MAX};
use crate::enemy::{is_enemy, check_enemy};
use crate::store::{World, EntityRecord, entity_wf, with_id};

verus! {

/// Leftmost x the player's centre may reach.
pub const LEFT_BOUND: i64 = LEFT + 60 * UNIT + PADDLE_PADDING;

/// Rightmost x the player's centre may reach.
pub const RIGHT_BOUND: i64 = RIGHT - 60 * UNIT - PADDLE_PADDING;

/// Lowest y the player's centre may reach.
pub const LOWER_BOUND: i64 = BOTTOM + 10 * UNIT;

/// Highest y the player's centre may reach.
pub const UPPER_BOUND: i64 = TOP - 10 * UNIT;

/// Player role component with the firing cooldown state.
#[derive(Clone, Copy, Debug, PartialEq, Eq, Structural)]
pub struct Player {
    /// Minimum time between shots, in sub-seconds.
    pub fire_rate: i64,
    /// Time of the last shot, in sub-seconds; 0 before the first shot.
    pub last_shot: i64,
}

impl Player {
    /// A player that has not fired yet.
    pub fn new(fire_rate: i64) -> (r: Player)
        ensures
            r == (Player { fire_rate, last_shot: 0 }),
    {
        Player { fire_rate, last_shot: 0 }
    }

    /// Record the time of the shot just fired.
    pub fn set_last_shot(&mut self, last_shot: i64)
        ensures
            *final(self) == (Player { fire_rate: old(self).fire_rate, last_shot }),
    {
        self.last_shot = last_shot;
    }
}

/// Marker: a projectile fired by the player.
#[derive(Clone, Copy, Debug, PartialEq, Eq, Structural)]
pub struct PlayerProjectile;

/// Signal: a raw collision involved the player and an enemy this tick.
#[derive(Clone, Copy, Debug, PartialEq, Eq, Structural, Default)]
pub struct PlayerHitByEnemyEvent;

/// The player subsystem.
pub struct PlayerPlugin;

/// Direction keys pressed during one tick.
#[derive(Clone, Copy, Debug, PartialEq, Eq, Structural)]
pub struct InputState {
    /// Steer left.
    pub left: bool,
    /// Steer right.
    pub right: bool,
    /// Steer up.
    pub up: bool,
    /// Steer down.
    pub down: bool,
}

/// Number of live entities carrying the player role, from index `i` on.
pub open spec fn player_count(s: Seq<EntityRecord>, i: int) -> int
    decreases s.len() - i,
{
    if i < 0 || i >= s.len() {
        0
    } else {
        (if s[i].player is Some {
            1int
        } else {
            0int
        }) + player_count(s, i + 1)
    }
}

/// Index of the first player record from index `i` on; -1 if none.
pub open spec fn player_idx(s: Seq<EntityRecord>, i: int) -> int
    decreases s.len() - i,
{
    if i < 0 || i >= s.len() {
        -1
    } else if s[i].player is Some {
        i
    } else {
        player_idx(s, i + 1)
    }
}

/// With at least one player, `player_idx` lands on an actual player record.
pub proof fn lemma_player_idx_props(s: Seq<EntityRecord>, i: int)
    requires
        0 <= i <= s.len(),
    ensures
        player_count(s, i) >= 0,
        player_count(s, i) >= 1 ==> i <= player_idx(s, i) < s.len() && s[player_idx(s, i)].player
            is Some,
        player_count(s, i) == 0 ==> player_idx(s, i) == -1,
    decreases s.len() - i,
{
    if i < s.len() {
        lemma_player_idx_props(s, i + 1);
    }
}

/// The index of the sole player, when exactly one entity has the role.
fn find_player(world: &World) -> (r: Option<usize>)
    ensures
        player_count(world.entities@, 0) == 1 ==> r == Some(player_idx(world.entities@, 0) as usize),
        player_count(world.entities@, 0) != 1 ==> r is None,
{
    let ghost s = world.entities@;
    let n = world.entities.len();
    let mut count: usize = 0;
    let mut first: usize = 0;
    let mut i: usize = 0;
    proof {
        lemma_player_idx_props(s, 0);
    }
    while i < n
        invariant
            s == world.entities@,
            n == s.len(),
            0 <= i <= n,
            count <= i,
            player_count(s, 0) == count + player_count(s, i as int),
            count == 0 ==> player_idx(s, 0) == player_idx(s, i as int),
            count >= 1 ==> 0 <= first < i && first == player_idx(s, 0) && s[first as int].player
                is Some,
        decreases n - i,
    {
        if world.entities[i].player.is_some() {
            if count == 0 {
                first = i;
            }
            count = count + 1;
        }
        i = i + 1;
    }
    if count == 1 {
        Some(first)
    } else {
        None
    }
}

/// The freshly spawned player: centred horizontally, just above the floor,
/// with its steering momentum at rest and a five-per-second fire rate.
pub open spec fn player_record(id: u64) -> EntityRecord {
    EntityRecord {
        id,
        parent: None,
        position: Vec2i { x: 0, y: -480_000_000i64 },
        scale: UNIT,
        velocity: None,
        momentum: Some(Momentum(Vec2i { x: 0, y: 0 })),
        collider: Some(Collider),
        health: None,
        enemy: None,
        player: Some(Player { fire_rate: 200_000, last_shot: 0 }),
        projectile: None,
        debris: None,
        dead: None,
        path: None,
    }
}

/// Spawn the player at session start.
pub fn spawn(world: &mut World) -> (id: u64)
    requires
        old(world).wf(),
        old(world).next_id < u64::MAX,
    ensures
        final(world).wf(),
        id == old(world).next_id,
        final(world).next_id == old(world).next_id + 1,
        final(world).entities@ == old(world).entities@.push(player_record(id)),
{
    let player_y = BOTTOM + GAP_BETWEEN_PADDLE_AND_FLOOR;
    let rec = EntityRecord {
        id: 0,
        parent: None,
        position: Vec2i::new(0, player_y),
        scale: UNIT,
        velocity: None,
        momentum: Some(Momentum(Vec2i::new(0, 0))),
        collider: Some(Collider),
        health: None,
        enemy: None,
        player: Some(Player::new(200_000)),
        projectile: None,
        debris: None,
        dead: None,
        path: None,
    };
    proof {
        assert(with_id(rec, old(world).next_id) == player_record(old(world).next_id));
    }
    world.spawn(rec)
}

/// The player record after one steering step: per pressed key the target
/// direction gains a full unit and the momentum a tenth; with nothing
/// pressed the momentum decays by the factor 91/100 (floor division).  The
/// position advances by `(direction + momentum) * PADDLE_SPEED * dt` and is
/// clamped inside the arena.
pub open spec fn control_player(e: EntityRecord, input: InputState, dt: int) -> EntityRecord {
    match e.momentum {
        Some(m) => {
            let pressed = input.left || input.right || input.up || input.down;
            let dxm = (if input.right {
                UNIT as int
            } else {
                0
            }) - (if input.left {
                UNIT as int
            } else {
                0
            });
            let dym = (if input.up {
                UNIT as int
            } else {
                0
            }) - (if input.down {
                UNIT as int
            } else {
                0
            });
            let mx0 = if pressed {
                m.0.x + (if input.right {
                    100_000int
                } else {
                    0
                }) - (if input.left {
                    100_000int
                } else {
                    0
                })
            } else {
                m.0.x * 91 / 100
            };
            let my0 = if pressed {
                m.0.y + (if input.up {
                    100_000int
                } else {
                    0
                }) - (if input.down {
                    100_000int
                } else {
                    0
                })
            } else {
                m.0.y * 91 / 100
            };
            let mx = clamp_spec(mx0, -UNIT as int, UNIT as int);
            let my = clamp_spec(my0, -UNIT as int, UNIT as int);
            let qx = (dxm + mx) * (PADDLE_SPEED as int) * dt / ((UNIT as int) * (UNIT as int));
            let qy = (dym + my) * (PADDLE_SPEED as int) * dt / ((UNIT as int) * (UNIT as int));
            EntityRecord {
                position: Vec2i {
                    x: clamp_spec(
                        e.position.x + qx,
                        LEFT_BOUND as int,
                        RIGHT_BOUND as int,
                    ) as i64,
                    y: clamp_spec(
                        e.position.y + qy,
                        LOWER_BOUND as int,
                        UPPER_BOUND as int,
                    ) as i64,
                },
                momentum: Some(Momentum(Vec2i { x: mx as i64, y: my as i64 })),
                ..e
            }
        },
        None => e,
    }
}

/// Steering: smooth the pressed directions through the sole player's
/// momentum and move it, clamped inside the arena.  With no single player
/// the world is unchanged.
#[verifier::rlimit(60)]
pub fn control(world: &mut World, input: InputState, dt: i64)
    requires
        old(world).wf(),
        0 <= dt <= DT_MAX,
    ensures
        final(world).wf(),
        final(world).next_id == old(world).next_id,
        player_count(old(world).entities@, 0) != 1 ==> *final(world) == *old(world),
        player_count(old(world).entities@, 0) == 1 ==> final(world).entities@ == old(
            world,
        ).entities@.update(
            player_idx(old(world).entities@, 0),
            control_player(
                old(world).entities@[player_idx(old(world).entities@, 0)],
                input,
                dt as int,
            ),
        ),
{
    let ghost s = old(world).entities@;
    proof {
        lemma_player_idx_props(s, 0);
    }
    let idx = match find_player(world) {
        Some(i) => i,
        None => {
            return ;
        },
    };
    let n = world.entities.len();
    proof {
        assert(player_count(s, 0) == 1);
        assert(idx as int == player_idx(s, 0));
    }
    let mut e = world.entities.remove(idx);
    let ghost e0 = e;
    match e.momentum {
        Some(m) => {
            let pressed = input.left || input.right || input.up || input.down;
            let mut mx: i64 = m.0.x;
            let mut my: i64 = m.0.y;
            let mut dxm: i64 = 0;
            let mut dym: i64 = 0;
            if input.left {
                dxm = dxm - UNIT;
                mx = mx - 100_000;
            }
            if input.right {
                dxm = dxm + UNIT;
                mx = mx + 100_000;
            }
            if input.down {
                dym = dym - UNIT;
                my = my - 100_000;
            }
            if input.up {
                dym = dym + UNIT;
                my = my + 100_000;
            }
            if !pressed {
                mx = div_euclid_i128((mx as i128) * 91, 100) as i64;
                my = div_euclid_i128((my as i128) * 91, 100) as i64;
            }
            mx = clamp(mx, -UNIT, UNIT);
            my = clamp(my, -UNIT, UNIT);
            proof {
                assert(
                    -6_100_000_000_000_000_000_000 <= ((dxm + mx) as int) * (PADDLE_SPEED as int)
                        * (dt as int) <= 6_100_000_000_000_000_000_000
                    && -6_100_000_000_000_000_000_000 <= ((dym + my) as int) * (
                    PADDLE_SPEED as int) * (dt as int) <= 6_100_000_000_000_000_000_000
                ) by (nonlinear_arith)
                    requires
                        -2_000_000 <= dxm + mx <= 2_000_000,
                        -2_000_000 <= dym + my <= 2_000_000,
                        PADDLE_SPEED == 300_000_000i64,
                        0 <= dt <= 10_000_000,
                ;
                lemma_div_mag(
                    ((dxm + mx) as int) * (PADDLE_SPEED as int) * (dt as int),
                    1_000_000_000_000,
                    6_100_000_000_000_000_000_000,
                    6_100_000_000,
                );
                lemma_div_mag(
                    ((dym + my) as int) * (PADDLE_SPEED as int) * (dt as int),
                    1_000_000_000_000,
                    6_100_000_000_000_000_000_000,
                    6_100_000_000,
                );
                assert(6_100_000_000int * 1_000_000_000_000 >= 6_100_000_000_000_000_000_000)
                    by (nonlinear_arith);
            }
            let numx: i128 = ((dxm + mx) as i128) * (PADDLE_SPEED as i128) * (dt as i128);
            let numy: i128 = ((dym + my) as i128) * (PADDLE_SPEED as i128) * (dt as i128);
            let qx = div_euclid_i128(numx, (UNIT as i128) * (UNIT as i128));
            let qy = div_euclid_i128(numy, (UNIT as i128) * (UNIT as i128));
            let nx = clamp(e.position.x + (qx as i64), LEFT_BOUND, RIGHT_BOUND);
            let ny = clamp(e.position.y + (qy as i64), LOWER_BOUND, UPPER_BOUND);
            e.position = Vec2i::new(nx, ny);
            e.momentum = Some(Momentum(Vec2i::new(mx, my)));
            proof {
                assert(e == control_player(e0, input, dt as int));
            }
        },
        None => (),
    }
    world.entities.insert(idx, e);
    proof {
        assert(world.entities@ =~= s.update(idx as int, control_player(s[idx as int], input, dt as int)));
        assert(entity_wf(control_player(s[idx as int], input, dt as int)));
        assert forall|a: int, b: int| 0 <= a < b < world.entities@.len() implies (
        #[trigger] world.entities@[a].id) < (#[trigger] world.entities@[b].id) by {
            assert(world.entities@[a].id == s[a].id);
            assert(world.entities@[b].id == s[b].id);
        }
    }
}

/// The projectile a confirmed shot spawns at the player's position.
pub open spec fn projectile_record(id: u64, pos: Vec2i) -> EntityRecord {
    EntityRecord {
        id,
        parent: None,
        position: pos,
        scale: UNIT,
        velocity: Some(Velocity(Vec2i { x: 0, y: PROJECTILE_SPEED })),
        momentum: None,
        collider: Some(Collider),
        health: None,
        enemy: None,
        player: None,
        projectile: Some(PlayerProjectile),
        debris: None,
        dead: None,
        path: None,
    }
}

/// Firing: with the fire key held and the cooldown elapsed (or never fired
/// yet), record the shot time on the player and spawn a projectile moving
/// straight up at the projectile speed.  Without a single player, without
/// the key, or during the cooldown, the world is unchanged.
pub fn shoot(world: &mut World, pressed: bool, t: i64)
    requires
        old(world).wf(),
        old(world).next_id < u64::MAX,
    ensures
        final(world).wf(),
        !pressed || player_count(old(world).entities@, 0) != 1 ==> *final(world) == *old(world),
        pressed && player_count(old(world).entities@, 0) == 1 ==> ({
            let s = old(world).entities@;
            let i = player_idx(s, 0);
            match s[i].player {
                Some(pl) => if pl.last_shot > 0 && pl.last_shot + pl.fire_rate > t {
                    *final(world) == *old(world)
                } else {
                    &&& final(world).next_id == old(world).next_id + 1
                    &&& final(world).entities@ == s.update(
                        i,
                        EntityRecord {
                            player: Some(Player { fire_rate: pl.fire_rate, last_shot: t }),
                            ..s[i]
                        },
                    ).push(projectile_record(old(world).next_id, s[i].position))
                },
                None => false,
            }
        }),
{
    if !pressed {
        return ;
    }
    let ghost s = old(world).entities@;
    proof {
        lemma_player_idx_props(s, 0);
    }
    let idx = match find_player(world) {
        Some(i) => i,
        None => {
            return ;
        },
    };
    let n = world.entities.len();
    proof {
        assert(player_count(s, 0) == 1);
        assert(idx as int == player_idx(s, 0));
    }
    let pl = match world.entities[idx].player {
        Some(pl) => pl,
        None => vstd::pervasive::unreached(),
    };
    if pl.last_shot > 0 {
        let deadline: i128 = (pl.last_shot as i128) + (pl.fire_rate as i128);
        if deadline > t as i128 {
            return ;
        }
    }
    let pos = world.entities[idx].position;
    let mut e = world.entities.remove(idx);
    e.player = Some(Player { fire_rate: pl.fire_rate, last_shot: t });
    world.entities.insert(idx, e);
    proof {
        assert(world.entities@ =~= s.update(
            idx as int,
            EntityRecord {
                player: Some(Player { fire_rate: pl.fire_rate, last_shot: t }),
                ..s[idx as int]
            },
        ));
        assert forall|a: int, b: int| 0 <= a < b < world.entities@.len() implies (
        #[trigger] world.entities@[a].id) < (#[trigger] world.entities@[b].id) by {
            assert(world.entities@[a].id == s[a].id);
            assert(world.entities@[b].id == s[b].id);
        }
    }
    let rec = EntityRecord {
        id: 0,
        parent: None,
        position: pos,
        scale: UNIT,
        velocity: Some(Velocity(Vec2i::new(0, PROJECTILE_SPEED))),
        momentum: None,
        collider: Some(Collider),
        health: None,
        enemy: None,
        player: None,
        projectile: Some(PlayerProjectile),
        debris: None,
        dead: None,
        path: None,
    };
    proof {
        assert(with_id(rec, old(world).next_id) == projectile_record(old(world).next_id, pos));
    }
    world.spawn(rec);
}

/// Player-hit signals of the collision events from index `k` on: one signal
/// per raw collision that involves the player `pid` on either side and an
/// enemy on either side.
pub open spec fn player_hits_of(
    s: Seq<EntityRecord>,
    pid: u64,
    evs: Seq<CollisionEvent>,
    k: int,
) -> Seq<PlayerHitByEnemyEvent>
    decreases evs.len() - k,
{
    if k < 0 || k >= evs.len() {
        Seq::empty()
    } else {
        (if (evs[k].entity1 == pid || evs[k].entity2 == pid) && (is_enemy(s, evs[k].entity1)
            || is_enemy(s, evs[k].entity2)) {
            seq![PlayerHitByEnemyEvent]
        } else {
            Seq::empty()
        }) + player_hits_of(s, pid, evs, k + 1)
    }
}

/// Player-hit listener: emit one signal per raw collision involving the
/// sole player and an enemy; nothing is despawned here.  Without exactly
/// one player no signal is emitted.
pub fn on_collision(world: &World, events: &Vec<CollisionEvent>) -> (r: Vec<PlayerHitByEnemyEvent>)
    requires
        world.wf(),
    ensures
        player_count(world.entities@, 0) != 1 ==> r@ == Seq::<PlayerHitByEnemyEvent>::empty(),
        player_count(world.entities@, 0) == 1 ==> r@ == player_hits_of(
            world.entities@,
            world.entities@[player_idx(world.entities@, 0)].id,
            events@,
            0,
        ),
{
    let ghost s = world.entities@;
    let ghost evs = events@;
    proof {
        lemma_player_idx_props(s, 0);
    }
    let mut r: Vec<PlayerHitByEnemyEvent> = Vec::new();
    let idx = match find_player(world) {
        Some(i) => i,
        None => {
            return r;
        },
    };
    let n = world.entities.len();
    proof {
        assert(player_count(s, 0) == 1);
        assert(idx as int == player_idx(s, 0));
    }
    let pid = world.entities[idx].id;
    let m = events.len();
    let mut k: usize = 0;
    while k < m
        invariant
            world.wf(),
            s == world.entities@,
            evs == events@,
            m == evs.len(),
            0 <= k <= m,
            pid == s[player_idx(s, 0)].id,
            player_hits_of(s, pid, evs, 0) == r@ + player_hits_of(s, pid, evs, k as int),
        decreases m - k,
    {
        let ev = events[k];
        let ghost r0 = r@;
        let involved = ev.entity1 == pid || ev.entity2 == pid;
        if involved && (check_enemy(world, ev.entity1) || check_enemy(world, ev.entity2)) {
            r.push(PlayerHitByEnemyEvent);
            proof {
                assert(r@ =~= r0 + seq![PlayerHitByEnemyEvent]);
            }
        }
        proof {
            assert(player_hits_of(s, pid, evs, k as int) == (if (evs[k as int].entity1 == pid
                || evs[k as int].entity2 == pid) && (is_enemy(s, evs[k as int].entity1)
                || is_enemy(s, evs[k as int].entity2)) {
                seq![PlayerHitByEnemyEvent]
            } else {
                Seq::<PlayerHitByEnemyEvent>::empty()
            }) + player_hits_of(s, pid, evs, k + 1));
            if !(involved && (is_enemy(s, ev.entity1) || is_enemy(s, ev.entity2))) {
                assert(Seq::<PlayerHitByEnemyEvent>::empty() + player_hits_of(s, pid, evs, k + 1)
                    =~= player_hits_of(s, pid, evs, k + 1));
            } else {
                assert(r0 + (seq![PlayerHitByEnemyEvent] + player_hits_of(s, pid, evs, k + 1))
                    =~= (r0 + seq![PlayerHitByEnemyEvent]) + player_hits_of(s, pid, evs, k + 1));
            }
        }
        k = k + 1;
    }
    proof {
        assert(player_hits_of(s, pid, evs, m as int) =~= Seq::<PlayerHitByEnemyEvent>::empty());
        assert(r@ + Seq::<PlayerHitByEnemyEvent>::empty() =~= r@);
    }
    r
}

} // verus!
