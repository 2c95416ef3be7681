//! World lifecycle: debris on enemy death, the tombstone sweep and the
//! bounds sweep.
//!
//! Each death event spawns exactly twenty debris particles at the death
//! position, each with a velocity of the projectile speed magnitude in a
//! direction sampled independently and uniformly at random.  The tombstone
//! sweep recursively despawns every entity tagged dead; the bounds sweep
//! despawns every non-player collider that left the configured play bounds.

use vstd::prelude::*;
use crate::constants::{UNIT, PROJECTILE_SPEED};
use crate::enemy::EnemyDiedEvent;
use crate::geom::{
    Vec2i, dist, dist_sq, sqrt_floor, in_pos_range, div_euclid_i128, lemma_sqrt_floor_le,
    lemma_sqrt_floor_unique, lemma_sqrt_floor_mono, lemma_mul_div_bounds, VEL_LIMIT,
};
use crate::physics::Velocity;
use crate::poly_path::lemma_component_le_seg;
use crate::rng::rand_below;
use crate::store::{World, EntityRecord, entity_wf, with_id, remove_id, remove_ids, despawn_all,
    remove_doomed};

verus! {

/// Marker: a debris particle spawned on an enemy death.
#[derive(Clone, Copy, Debug, PartialEq, Eq, Structural)]
pub struct Debris;

/// The world subsystem: debris listener and lifecycle cleanup.
pub struct WorldPlugin;

/// Debris particles spawned per death event.
pub const DEBRIS_PER_KILL: usize = 20;

/// Play bounds for the cleanup sweep; entities outside are despawned.
#[derive(Clone, Copy, Debug, PartialEq, Eq, Structural)]
pub struct Bounds {
    /// Leftmost x still inside.
    pub min_x: i64,
    /// Rightmost x still inside.
    pub max_x: i64,
    /// Lowest y still inside.
    pub min_y: i64,
    /// Highest y still inside.
    pub max_y: i64,
}

impl Default for Bounds {
    /// The standard margins around the visible play area.
    fn default() -> (r: Bounds)
        ensures
            r == (Bounds {
                min_x: -1_056_000_000i64,
                max_x: 1_056_000_000i64,
                min_y: -594_000_000i64,
                max_y: 1_080_000_000i64,
            }),
    {
        Bounds { min_x: -1056 * UNIT, max_x: 1056 * UNIT, min_y: -594 * UNIT, max_y: 1080 * UNIT }
    }
}

/// An admissible debris direction sample: an integer point of the annulus
/// between radius one half unit and one unit around the origin.
pub open spec fn debris_dir_ok(d: Vec2i) -> bool {
    250_000_000_000 <= dist_sq(Vec2i { x: 0, y: 0 }, d) <= 1_000_000_000_000
}

/// The direction sample scaled to the given speed (floor per coordinate).
pub open spec fn debris_velocity_spec(d: Vec2i, speed: int) -> Vec2i {
    let l = sqrt_floor(dist_sq(Vec2i { x: 0, y: 0 }, d));
    Vec2i { x: (d.x * speed / l) as i64, y: (d.y * speed / l) as i64 }
}

/// Scale an admissible direction sample to a velocity of magnitude `speed`
/// (up to the floor rounding of each coordinate).
pub fn debris_velocity(d: Vec2i, speed: i64) -> (v: Vec2i)
    requires
        debris_dir_ok(d),
        0 <= speed <= VEL_LIMIT,
    ensures
        v == debris_velocity_spec(d, speed as int),
        -VEL_LIMIT <= v.x <= VEL_LIMIT,
        -VEL_LIMIT <= v.y <= VEL_LIMIT,
{
    let origin = Vec2i::new(0, 0);
    proof {
        lemma_component_le_seg(origin, d);
        assert(1_000_000_000_000 < (1_000_000int + 1) * (1_000_000int + 1)) by (nonlinear_arith);
        lemma_sqrt_floor_le(dist_sq(origin, d), 1_000_000);
        assert(500_000int * 500_000 == 250_000_000_000) by (nonlinear_arith);
        assert(250_000_000_000 < (500_000int + 1) * (500_000int + 1)) by (nonlinear_arith);
        lemma_sqrt_floor_unique(250_000_000_000, 500_000);
        lemma_sqrt_floor_mono(250_000_000_000, dist_sq(origin, d));
    }
    let l = dist(origin, d);
    proof {
        lemma_mul_div_bounds(d.x as int, speed as int, l as int);
        lemma_mul_div_bounds(d.y as int, speed as int, l as int);
        assert(
            -20_000_000_000_000_000 <= (d.x as int) * (speed as int) <= 20_000_000_000_000_000
            && -20_000_000_000_000_000 <= (d.y as int) * (speed as int) <= 20_000_000_000_000_000
        ) by (nonlinear_arith)
            requires
                -1_000_000 <= d.x <= 1_000_000,
                -1_000_000 <= d.y <= 1_000_000,
                0 <= speed <= 20_000_000_000,
        ;
    }
    let qx = div_euclid_i128((d.x as i128) * (speed as i128), l as i128);
    let qy = div_euclid_i128((d.y as i128) * (speed as i128), l as i128);
    Vec2i::new(qx as i64, qy as i64)
}

/// Law: a debris particle's speed is the projectile speed constant up to
/// the fixed-point rounding of the direction scaling: the squared magnitude
/// of the scaled velocity lies between the squares of the constant less 3
/// and the constant plus 1000 sub-units (a relative error around two parts
/// per million).  Exact equality cannot hold of integer coordinates.
#[verifier::rlimit(100)]
pub proof fn lemma_debris_speed(d: Vec2i)
    requires
        debris_dir_ok(d),
    ensures
        ({
            let v = debris_velocity_spec(d, PROJECTILE_SPEED as int);
            (PROJECTILE_SPEED - 3) * (PROJECTILE_SPEED - 3) <= v.x * v.x + v.y * v.y
                <= (PROJECTILE_SPEED + 1000) * (PROJECTILE_SPEED + 1000)
        }),
{
    let origin = Vec2i { x: 0, y: 0 };
    let nsq = dist_sq(origin, d);
    let l = sqrt_floor(nsq);
    let spd = PROJECTILE_SPEED as int;
    lemma_component_le_seg(origin, d);
    assert(1_000_000_000_000 < (1_000_000int + 1) * (1_000_000int + 1)) by (nonlinear_arith);
    lemma_sqrt_floor_le(nsq, 1_000_000);
    assert(500_000int * 500_000 == 250_000_000_000) by (nonlinear_arith);
    assert(250_000_000_000 < (500_000int + 1) * (500_000int + 1)) by (nonlinear_arith);
    lemma_sqrt_floor_unique(250_000_000_000, 500_000);
    lemma_sqrt_floor_mono(250_000_000_000, nsq);
    crate::geom::lemma_sqrt_floor(nsq);
    let dx = d.x as int;
    let dy = d.y as int;
    let qx = dx * spd / l;
    let qy = dy * spd / l;
    let rx = dx * spd % l;
    let ry = dy * spd % l;
    vstd::arithmetic::div_mod::lemma_fundamental_div_mod(dx * spd, l);
    vstd::arithmetic::div_mod::lemma_fundamental_div_mod(dy * spd, l);
    lemma_mul_div_bounds(dx, spd, l);
    lemma_mul_div_bounds(dy, spd, l);
    let v = debris_velocity_spec(d, spd);
    assert(v.x == qx && v.y == qy);
    // The exact identity: l^2 |v|^2 = (dx spd - rx)^2 + (dy spd - ry)^2.
    assert(l * l * (qx * qx + qy * qy) == (dx * spd - rx) * (dx * spd - rx) + (dy * spd - ry) * (
    dy * spd - ry)) by (nonlinear_arith)
        requires
            dx * spd == l * qx + rx,
            dy * spd == l * qy + ry,
    ;
    // Bound the cross terms.
    assert(-(l * l) <= dx * rx <= l * l && -(l * l) <= dy * ry <= l * l) by (nonlinear_arith)
        requires
            -l <= dx <= l,
            -l <= dy <= l,
            0 <= rx < l,
            0 <= ry < l,
            l > 0,
    ;
    // Expand the squares around spd^2 * nsq, one coordinate at a time.
    assert(nsq == dx * dx + dy * dy);
    assert((dx * spd - rx) * (dx * spd - rx) == spd * spd * (dx * dx) - 2 * spd * (dx * rx) + rx
        * rx) by (nonlinear_arith)
        requires
            spd == 450_000_000,
    ;
    assert((dy * spd - ry) * (dy * spd - ry) == spd * spd * (dy * dy) - 2 * spd * (dy * ry) + ry
        * ry) by (nonlinear_arith)
        requires
            spd == 450_000_000,
    ;
    assert((dx * spd - rx) * (dx * spd - rx) + (dy * spd - ry) * (dy * spd - ry) == spd * spd
        * nsq - 2 * spd * (dx * rx + dy * ry) + rx * rx + ry * ry) by (nonlinear_arith)
        requires
            (dx * spd - rx) * (dx * spd - rx) == spd * spd * (dx * dx) - 2 * spd * (dx * rx) + rx
                * rx,
            (dy * spd - ry) * (dy * spd - ry) == spd * spd * (dy * dy) - 2 * spd * (dy * ry) + ry
                * ry,
            nsq == dx * dx + dy * dy,
    ;
    assert(-2 * spd * (dx * rx + dy * ry) >= -4 * spd * (l * l)) by (nonlinear_arith)
        requires
            -(l * l) <= dx * rx <= l * l,
            -(l * l) <= dy * ry <= l * l,
            spd >= 0,
    ;
    assert(-2 * spd * (dx * rx + dy * ry) <= 4 * spd * (l * l)) by (nonlinear_arith)
        requires
            -(l * l) <= dx * rx <= l * l,
            -(l * l) <= dy * ry <= l * l,
            spd >= 0,
    ;
    assert(0 <= rx * rx + ry * ry <= 2 * (l * l)) by (nonlinear_arith)
        requires
            0 <= rx < l,
            0 <= ry < l,
    ;
    // Lower bound: spd^2 l^2 - 4 spd l^2 >= (spd - 3)^2 l^2.
    assert(l * l * (qx * qx + qy * qy) >= (spd - 3) * (spd - 3) * (l * l)) by (nonlinear_arith)
        requires
            l * l * (qx * qx + qy * qy) == spd * spd * nsq - 2 * spd * (dx * rx + dy * ry) + rx
                * rx + ry * ry,
            nsq >= l * l,
            -2 * spd * (dx * rx + dy * ry) >= -4 * spd * (l * l),
            rx * rx + ry * ry >= 0,
            spd == 450_000_000,
            l > 0,
    ;
    assert(qx * qx + qy * qy >= (spd - 3) * (spd - 3)) by (nonlinear_arith)
        requires
            l * l * (qx * qx + qy * qy) >= (spd - 3) * (spd - 3) * (l * l),
            l > 0,
    ;
    // Upper bound: spd^2 (l+1)^2 + 4 spd l^2 + 2 l^2 <= (spd + 1000)^2 l^2.
    assert(nsq <= (l + 1) * (l + 1) - 1);
    assert(spd * spd * nsq <= spd * spd * ((l + 1) * (l + 1) - 1)) by (nonlinear_arith)
        requires
            nsq <= (l + 1) * (l + 1) - 1,
            spd >= 0,
    ;
    assert(spd * spd * ((l + 1) * (l + 1) - 1) + 4 * spd * (l * l) + 2 * (l * l) <= (spd + 1000)
        * (spd + 1000) * (l * l)) by (nonlinear_arith)
        requires
            500_000 <= l <= 1_000_000,
            spd == 450_000_000,
    ;
    assert(l * l * (qx * qx + qy * qy) <= (spd + 1000) * (spd + 1000) * (l * l))
        by (nonlinear_arith)
        requires
            l * l * (qx * qx + qy * qy) == spd * spd * nsq - 2 * spd * (dx * rx + dy * ry) + rx
                * rx + ry * ry,
            spd * spd * nsq <= spd * spd * ((l + 1) * (l + 1) - 1),
            -2 * spd * (dx * rx + dy * ry) <= 4 * spd * (l * l),
            rx * rx + ry * ry <= 2 * (l * l),
            spd * spd * ((l + 1) * (l + 1) - 1) + 4 * spd * (l * l) + 2 * (l * l) <= (spd + 1000)
                * (spd + 1000) * (l * l),
    ;
    assert(qx * qx + qy * qy <= (spd + 1000) * (spd + 1000)) by (nonlinear_arith)
        requires
            l * l * (qx * qx + qy * qy) <= (spd + 1000) * (spd + 1000) * (l * l),
            l > 0,
    ;
}

/// Draw a direction uniformly: sample integer points of the square around
/// the origin and keep the first that lands in the admissible annulus (a
/// point on the positive x axis after an improbable run of rejections).
fn sample_debris_direction() -> (d: Vec2i)
    ensures
        debris_dir_ok(d),
{
    let mut tries: usize = 0;
    while tries < 64
        invariant
            0 <= tries <= 64,
        decreases 64 - tries,
    {
        let rx = rand_below(2_000_001);
        let ry = rand_below(2_000_001);
        let dx = (rx as i64) - 1_000_000;
        let dy = (ry as i64) - 1_000_000;
        proof {
            assert(
                0 <= (dx as int) * (dx as int) <= 1_000_000_000_000
                && 0 <= (dy as int) * (dy as int) <= 1_000_000_000_000
            ) by (nonlinear_arith)
                requires
                    -1_000_000 <= dx <= 1_000_000,
                    -1_000_000 <= dy <= 1_000_000,
            ;
        }
        let nsq = dx * dx + dy * dy;
        if 250_000_000_000 <= nsq && nsq <= 1_000_000_000_000 {
            let d = Vec2i::new(dx, dy);
            proof {
                assert(dist_sq(Vec2i { x: 0, y: 0 }, d) == nsq);
            }
            return d;
        }
        tries = tries + 1;
    }
    let d = Vec2i::new(1_000_000, 0);
    proof {
        assert(dist_sq(Vec2i { x: 0, y: 0 }, d) == 1_000_000_000_000) by (nonlinear_arith)
            requires
                d == (Vec2i { x: 1_000_000i64, y: 0i64 }),
        ;
    }
    d
}

/// A debris particle of the death event `ev`: at the death position, with
/// the debris role only, and a velocity of projectile-speed magnitude in
/// some admissible sampled direction.
pub open spec fn is_debris_particle(e: EntityRecord, ev: EnemyDiedEvent, id: u64) -> bool {
    &&& e.id == id
    &&& e.parent is None
    &&& e.position == ev.position
    &&& e.scale == UNIT
    &&& e.momentum is None
    &&& e.collider is None
    &&& e.health is None
    &&& e.enemy is None
    &&& e.player is None
    &&& e.projectile is None
    &&& e.debris is Some
    &&& e.dead is None
    &&& e.path is None
    &&& (exists|d: Vec2i| #[trigger] debris_dir_ok(d) && e.velocity == Some(
        Velocity(debris_velocity_spec(d, PROJECTILE_SPEED as int)),
    ))
}

/// The world grew by exactly twenty debris particles per death event, in
/// event order, appended after the existing records; nothing else changed.
pub open spec fn debris_rel(
    s0: Seq<EntityRecord>,
    n0: u64,
    evs: Seq<EnemyDiedEvent>,
    s1: Seq<EntityRecord>,
    n1: u64,
) -> bool {
    &&& n1 == n0 + (DEBRIS_PER_KILL as int) * evs.len()
    &&& s1.len() == s0.len() + (DEBRIS_PER_KILL as int) * evs.len()
    &&& (forall|k: int| 0 <= k < s0.len() ==> s1[k] == #[trigger] s0[k])
    &&& (forall|k: int| s0.len() <= k < s1.len() ==> is_debris_particle(
        #[trigger] s1[k],
        evs[(k - s0.len()) / (DEBRIS_PER_KILL as int)],
        (n0 + (k - s0.len())) as u64,
    ))
}

/// Debris listener: spawn exactly twenty particles per death event at the
/// death position, each with an independently sampled random direction and
/// projectile-speed magnitude.
pub fn on_enemy_died_debris(world: &mut World, events: &Vec<EnemyDiedEvent>)
    requires
        old(world).wf(),
        old(world).next_id + (DEBRIS_PER_KILL as int) * events@.len() <= u64::MAX,
        forall|k: int| 0 <= k < events@.len() ==> in_pos_range((#[trigger] events@[k]).position),
    ensures
        final(world).wf(),
        debris_rel(
            old(world).entities@,
            old(world).next_id,
            events@,
            final(world).entities@,
            final(world).next_id,
        ),
{
    let ghost s0 = old(world).entities@;
    let ghost n0 = old(world).next_id;
    let ghost evs = events@;
    let m = events.len();
    let mut k: usize = 0;
    while k < m
        invariant
            world.wf(),
            s0 == old(world).entities@,
            n0 == old(world).next_id,
            evs == events@,
            forall|x: int| 0 <= x < evs.len() ==> in_pos_range((#[trigger] evs[x]).position),
            m == evs.len(),
            n0 + (DEBRIS_PER_KILL as int) * evs.len() <= u64::MAX,
            0 <= k <= m,
            world.next_id == n0 + (DEBRIS_PER_KILL as int) * k,
            world.entities@.len() == s0.len() + (DEBRIS_PER_KILL as int) * k,
            forall|x: int| 0 <= x < s0.len() ==> world.entities@[x] == #[trigger] s0[x],
            forall|x: int| s0.len() <= x < world.entities@.len() ==> is_debris_particle(
                #[trigger] world.entities@[x],
                evs[(x - s0.len()) / (DEBRIS_PER_KILL as int)],
                (n0 + (x - s0.len())) as u64,
            ),
        decreases m - k,
    {
        let ev = events[k];
        let mut j: usize = 0;
        while j < DEBRIS_PER_KILL
            invariant
                world.wf(),
                s0 == old(world).entities@,
                n0 == old(world).next_id,
                evs == events@,
                forall|x: int| 0 <= x < evs.len() ==> in_pos_range((#[trigger] evs[x]).position),
                m == evs.len(),
                n0 + (DEBRIS_PER_KILL as int) * evs.len() <= u64::MAX,
                0 <= k < m,
                ev == evs[k as int],
                0 <= j <= DEBRIS_PER_KILL,
                world.next_id == n0 + (DEBRIS_PER_KILL as int) * k + j,
                world.entities@.len() == s0.len() + (DEBRIS_PER_KILL as int) * k + j,
                forall|x: int| 0 <= x < s0.len() ==> world.entities@[x] == #[trigger] s0[x],
                forall|x: int| s0.len() <= x < world.entities@.len() ==> is_debris_particle(
                    #[trigger] world.entities@[x],
                    evs[(x - s0.len()) / (DEBRIS_PER_KILL as int)],
                    (n0 + (x - s0.len())) as u64,
                ),
            decreases DEBRIS_PER_KILL - j,
        {
            let ghost cur = world.entities@;
            let d = sample_debris_direction();
            let v = debris_velocity(d, PROJECTILE_SPEED);
            let rec = EntityRecord {
                id: 0,
                parent: None,
                position: ev.position,
                scale: UNIT,
                velocity: Some(Velocity(v)),
                momentum: None,
                collider: None,
                health: None,
                enemy: None,
                player: None,
                projectile: None,
                debris: Some(Debris),
                dead: None,
                path: None,
            };
            let ghost new_id = world.next_id;
            world.spawn(rec);
            proof {
                assert(is_debris_particle(with_id(rec, new_id), ev, new_id));
                assert forall|x: int| s0.len() <= x < world.entities@.len() implies
                    is_debris_particle(
                    #[trigger] world.entities@[x],
                    evs[(x - s0.len()) / (DEBRIS_PER_KILL as int)],
                    (n0 + (x - s0.len())) as u64,
                ) by {
                    if x < cur.len() {
                        assert(world.entities@[x] == cur[x]);
                    } else {
                        assert(world.entities@[x] == with_id(rec, new_id));
                        assert(x - s0.len() == (DEBRIS_PER_KILL as int) * k + j);
                        assert(((DEBRIS_PER_KILL as int) * k + j) / (DEBRIS_PER_KILL as int)
                            == k) by (nonlinear_arith)
                            requires
                                0 <= j < (DEBRIS_PER_KILL as int),
                                0 <= k,
                                DEBRIS_PER_KILL == 20usize,
                        ;
                    }
                }
            }
            j = j + 1;
        }
        k = k + 1;
    }
}

/// Identities of the tombstoned records from index `i` on.
pub open spec fn dead_ids(s: Seq<EntityRecord>, i: int) -> Seq<u64>
    decreases s.len() - i,
{
    if i < 0 || i >= s.len() {
        Seq::empty()
    } else {
        (if s[i].dead is Some {
            seq![s[i].id]
        } else {
            Seq::empty()
        }) + dead_ids(s, i + 1)
    }
}

/// Tombstone sweep: recursively despawn every entity tagged dead.
pub fn despawn(world: &mut World)
    requires
        old(world).wf(),
    ensures
        final(world).wf(),
        final(world).next_id == old(world).next_id,
        final(world).entities@ == despawn_all(
            old(world).entities@,
            dead_ids(old(world).entities@, 0),
            0,
        ),
{
    let ghost s = old(world).entities@;
    let n = world.entities.len();
    let mut ids: Vec<u64> = Vec::new();
    let mut i: usize = 0;
    while i < n
        invariant
            *world == *old(world),
            s == world.entities@,
            n == s.len(),
            0 <= i <= n,
            dead_ids(s, 0) == ids@ + dead_ids(s, i as int),
        decreases n - i,
    {
        let ghost ids0 = ids@;
        if world.entities[i].dead.is_some() {
            ids.push(world.entities[i].id);
            proof {
                assert(ids@ =~= ids0 + seq![s[i as int].id]);
                assert(ids0 + (seq![s[i as int].id] + dead_ids(s, i + 1)) =~= (ids0 + seq![
                    s[i as int].id,
                ]) + dead_ids(s, i + 1));
            }
        } else {
            proof {
                assert(Seq::<u64>::empty() + dead_ids(s, i + 1) =~= dead_ids(s, i + 1));
            }
        }
        i = i + 1;
    }
    proof {
        assert(dead_ids(s, n as int) =~= Seq::<u64>::empty());
        assert(ids@ + Seq::<u64>::empty() =~= ids@);
    }
    let ghost vs = ids@;
    let nv = ids.len();
    let mut j: usize = 0;
    while j < nv
        invariant
            world.wf(),
            world.next_id == old(world).next_id,
            vs == ids@,
            nv == vs.len(),
            0 <= j <= nv,
            despawn_all(s, vs, 0) == despawn_all(world.entities@, vs, j as int),
        decreases nv - j,
    {
        let ghost cur = world.entities@;
        world.despawn_recursive(ids[j]);
        proof {
            assert(despawn_all(cur, vs, j as int) == despawn_all(
                remove_doomed(cur, vs[j as int], 0),
                vs,
                j + 1,
            ));
        }
        j = j + 1;
    }
}

/// The entity is a non-player collider outside the play bounds.
pub open spec fn out_of_bounds(e: EntityRecord, b: Bounds) -> bool {
    &&& e.collider is Some
    &&& e.player is None
    &&& (e.position.y > b.max_y || e.position.y < b.min_y || e.position.x < b.min_x
        || e.position.x > b.max_x)
}

/// Identities of the out-of-bounds records from index `i` on.
pub open spec fn oob_ids(s: Seq<EntityRecord>, b: Bounds, i: int) -> Seq<u64>
    decreases s.len() - i,
{
    if i < 0 || i >= s.len() {
        Seq::empty()
    } else {
        (if out_of_bounds(s[i], b) {
            seq![s[i].id]
        } else {
            Seq::empty()
        }) + oob_ids(s, b, i + 1)
    }
}

/// Bounds sweep: despawn every non-player collider whose position left the
/// configured play bounds.
pub fn despawn_out_of_world(world: &mut World, bounds: Bounds)
    requires
        old(world).wf(),
    ensures
        final(world).wf(),
        final(world).next_id == old(world).next_id,
        final(world).entities@ == remove_ids(
            old(world).entities@,
            oob_ids(old(world).entities@, bounds, 0),
            0,
        ),
{
    let ghost s = old(world).entities@;
    let n = world.entities.len();
    let mut ids: Vec<u64> = Vec::new();
    let mut i: usize = 0;
    while i < n
        invariant
            *world == *old(world),
            s == world.entities@,
            n == s.len(),
            0 <= i <= n,
            oob_ids(s, bounds, 0) == ids@ + oob_ids(s, bounds, i as int),
        decreases n - i,
    {
        let ghost ids0 = ids@;
        let e = &world.entities[i];
        let oob = e.collider.is_some() && e.player.is_none() && (e.position.y > bounds.max_y
            || e.position.y < bounds.min_y || e.position.x < bounds.min_x || e.position.x
            > bounds.max_x);
        if oob {
            ids.push(e.id);
            proof {
                assert(ids@ =~= ids0 + seq![s[i as int].id]);
                assert(ids0 + (seq![s[i as int].id] + oob_ids(s, bounds, i + 1)) =~= (ids0 + seq![
                    s[i as int].id,
                ]) + oob_ids(s, bounds, i + 1));
            }
        } else {
            proof {
                assert(Seq::<u64>::empty() + oob_ids(s, bounds, i + 1) =~= oob_ids(
                    s,
                    bounds,
                    i + 1,
                ));
            }
        }
        i = i + 1;
    }
    proof {
        assert(oob_ids(s, bounds, n as int) =~= Seq::<u64>::empty());
        assert(ids@ + Seq::<u64>::empty() =~= ids@);
    }
    let ghost vs = ids@;
    let nv = ids.len();
    let mut j: usize = 0;
    while j < nv
        invariant
            world.wf(),
            world.next_id == old(world).next_id,
            vs == ids@,
            nv == vs.len(),
            0 <= j <= nv,
            remove_ids(s, vs, 0) == remove_ids(world.entities@, vs, j as int),
        decreases nv - j,
    {
        let ghost cur = world.entities@;
        world.despawn(ids[j]);
        proof {
            assert(remove_ids(cur, vs, j as int) == remove_ids(
                remove_id(cur, vs[j as int]),
                vs,
                j + 1,
            ));
        }
        j = j + 1;
    }
}

impl WorldPlugin {
    /// One tick of the world lifecycle: debris for this tick's deaths, then
    /// the bounds sweep, then the tombstone sweep.
    pub fn update(world: &mut World, deaths: &Vec<EnemyDiedEvent>, bounds: Bounds)
        requires
            old(world).wf(),
            old(world).next_id + (DEBRIS_PER_KILL as int) * deaths@.len() <= u64::MAX,
            forall|k: int| 0 <= k < deaths@.len() ==> in_pos_range(
                (#[trigger] deaths@[k]).position,
            ),
        ensures
            final(world).wf(),
            exists|mid: Seq<EntityRecord>, midn: u64|
                {
                    &&& #[trigger] debris_rel(
                        old(world).entities@,
                        old(world).next_id,
                        deaths@,
                        mid,
                        midn,
                    )
                    &&& final(world).next_id == midn
                    &&& final(world).entities@ == despawn_all(
                        remove_ids(mid, oob_ids(mid, bounds, 0), 0),
                        dead_ids(remove_ids(mid, oob_ids(mid, bounds, 0), 0), 0),
                        0,
                    )
                },
    {
        on_enemy_died_debris(world, deaths);
        let ghost mid = world.entities@;
        let ghost midn = world.next_id;
        despawn_out_of_world(world, bounds);
        despawn(world);
        proof {
            assert(debris_rel(old(world).entities@, old(world).next_id, deaths@, mid, midn));
        }
    }
}

} // verus!
