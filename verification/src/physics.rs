//! Broad-phase physics: velocity integration and pairwise AABB collision.
//!
//! Each tick every positioned entity integrates its velocity, and every
//! unordered pair of collider entities is tested for axis-aligned
//! bounding-box overlap (half-extent = the entity's scale attribute).  One
//! `CollisionEvent` is emitted per overlapping pair per tick, in world
//! order; there is no temporal deduplication.

use vstd::prelude::*;
use crate::constants::UNIT;
use crate::geom::{Vec2i, clamp, clamp_spec, div_euclid_i128, POS_LIMIT, VEL_LIMIT};
use crate::store::{World, EntityRecord, entity_wf};

verus! {

/// Largest tick delta accepted, in sub-seconds (ten seconds).
pub const DT_MAX: i64 = 10_000_000;

/// Steering momentum accumulated from player input.
#[derive(Clone, Copy, Debug, PartialEq, Eq, Structural)]
pub struct Momentum(pub Vec2i);

/// Velocity in sub-units per second.
#[derive(Clone, Copy, Debug, PartialEq, Eq, Structural)]
pub struct Velocity(pub Vec2i);

/// Marker: the entity participates in broad-phase collision.
#[derive(Clone, Copy, Debug, PartialEq, Eq, Structural)]
pub struct Collider;

/// Raw broad-phase overlap between two distinct entities, reported once per
/// unordered pair per tick.
#[derive(Clone, Copy, Debug, PartialEq, Eq, Structural)]
pub struct CollisionEvent {
    /// First entity of the pair (earlier in world order).
    pub entity1: u64,
    /// Second entity of the pair.
    pub entity2: u64,
}

/// The broad-phase and integration subsystem.
pub struct PhysicsPlugin;

/// The record after integrating its velocity for `dt` sub-seconds; the
/// position saturates at the coordinate range boundary.
pub open spec fn integrate(e: EntityRecord, dt: int) -> EntityRecord {
    match e.velocity {
        Some(v) => EntityRecord {
            position: Vec2i {
                x: clamp_spec(
                    e.position.x + v.0.x * dt / (UNIT as int),
                    -POS_LIMIT as int,
                    POS_LIMIT as int,
                ) as i64,
                y: clamp_spec(
                    e.position.y + v.0.y * dt / (UNIT as int),
                    -POS_LIMIT as int,
                    POS_LIMIT as int,
                ) as i64,
            },
            ..e
        },
        None => e,
    }
}

/// Integrate `position += velocity * dt` for every entity with a velocity.
pub fn apply_velocity(world: &mut World, dt: i64)
    requires
        old(world).wf(),
        0 <= dt <= DT_MAX,
    ensures
        final(world).wf(),
        final(world).next_id == old(world).next_id,
        final(world).entities@.len() == old(world).entities@.len(),
        forall|k: int| 0 <= k < old(world).entities@.len() ==> final(world).entities@[k]
            == integrate(#[trigger] old(world).entities@[k], dt as int),
{
    let ghost s = old(world).entities@;
    let n = world.entities.len();
    let mut out: Vec<EntityRecord> = Vec::new();
    let mut i: usize = 0;
    while i < n
        invariant
            old(world).wf(),
            s == old(world).entities@,
            0 <= dt <= DT_MAX,
            world.next_id == old(world).next_id,
            n == s.len(),
            0 <= i <= n,
            world.entities@ =~= s.subrange(i as int, n as int),
            out@.len() == i,
            forall|k: int| 0 <= k < i ==> out@[k] == integrate(#[trigger] s[k], dt as int),
        decreases n - i,
    {
        proof {
            assert(s.subrange(i as int, n as int)[0] == s[i as int]);
        }
        let mut e = world.entities.remove(0);
        proof {
            assert(e == s[i as int]);
            assert(world.entities@ =~= s.subrange(i + 1, n as int));
            assert(entity_wf(s[i as int]));
        }
        match e.velocity {
            Some(v) => {
                proof {
                    assert(
                        -200_000_000_000_000_000 <= (v.0.x as int) * (dt as int)
                            <= 200_000_000_000_000_000
                        && -200_000_000_000_000_000 <= (v.0.y as int) * (dt as int)
                            <= 200_000_000_000_000_000
                    ) by (nonlinear_arith)
                        requires
                            -20_000_000_000 <= v.0.x <= 20_000_000_000,
                            -20_000_000_000 <= v.0.y <= 20_000_000_000,
                            0 <= dt <= 10_000_000,
                    ;
                }
                let qx = div_euclid_i128((v.0.x as i128) * (dt as i128), UNIT as i128);
                let qy = div_euclid_i128((v.0.y as i128) * (dt as i128), UNIT as i128);
                let nx = clamp(e.position.x + (qx as i64), -POS_LIMIT, POS_LIMIT);
                let ny = clamp(e.position.y + (qy as i64), -POS_LIMIT, POS_LIMIT);
                e.position = Vec2i::new(nx, ny);
            },
            None => (),
        }
        proof {
            assert(e == integrate(s[i as int], dt as int));
        }
        out.push(e);
        i = i + 1;
    }
    world.entities = out;
    proof {
        assert forall|k: int| 0 <= k < world.entities@.len() implies entity_wf(
            #[trigger] world.entities@[k],
        ) && world.entities@[k].id < world.next_id by {
            assert(world.entities@[k] == integrate(s[k], dt as int));
            assert(entity_wf(s[k]) && s[k].id < old(world).next_id);
        }
        assert forall|a: int, b: int| 0 <= a < b < world.entities@.len() implies (
        #[trigger] world.entities@[a].id) < (#[trigger] world.entities@[b].id) by {
            assert(world.entities@[a] == integrate(s[a], dt as int));
            assert(world.entities@[b] == integrate(s[b], dt as int));
        }
    }
}

/// Closed axis-aligned bounding-box overlap, half-extents taken from the
/// entities' scale attributes.
pub open spec fn overlap(a: EntityRecord, b: EntityRecord) -> bool {
    &&& -(a.scale + b.scale) <= a.position.x - b.position.x <= a.scale + b.scale
    &&& -(a.scale + b.scale) <= a.position.y - b.position.y <= a.scale + b.scale
}

/// Bounding-box intersection test for two entities.
pub fn collide(a: &EntityRecord, b: &EntityRecord) -> (r: bool)
    requires
        entity_wf(*a),
        entity_wf(*b),
    ensures
        r == overlap(*a, *b),
{
    let sum = a.scale + b.scale;
    let dx = a.position.x - b.position.x;
    let dy = a.position.y - b.position.y;
    (-sum <= dx && dx <= sum) && (-sum <= dy && dy <= sum)
}

/// Collision events of entity `i` against the later entities from `j` on.
pub open spec fn row_events(s: Seq<EntityRecord>, i: int, j: int) -> Seq<CollisionEvent>
    decreases s.len() - j,
{
    if j < 0 || j >= s.len() || !(0 <= i < s.len()) {
        Seq::empty()
    } else {
        (if s[i].collider is Some && s[j].collider is Some && overlap(s[i], s[j]) {
            seq![CollisionEvent { entity1: s[i].id, entity2: s[j].id }]
        } else {
            Seq::empty()
        }) + row_events(s, i, j + 1)
    }
}

/// All collision events of the pairs whose first index is at least `i`, in
/// lexicographic pair order.
pub open spec fn collisions_spec(s: Seq<EntityRecord>, i: int) -> Seq<CollisionEvent>
    decreases s.len() - i,
{
    if i < 0 || i >= s.len() {
        Seq::empty()
    } else {
        row_events(s, i, i + 1) + collisions_spec(s, i + 1)
    }
}

/// Broad phase: emit one event per unordered pair of overlapping colliders.
pub fn check_for_collisions(world: &World) -> (r: Vec<CollisionEvent>)
    requires
        world.wf(),
    ensures
        r@ == collisions_spec(world.entities@, 0),
{
    let ghost s = world.entities@;
    let n = world.entities.len();
    let mut r: Vec<CollisionEvent> = Vec::new();
    let mut i: usize = 0;
    while i < n
        invariant
            world.wf(),
            s == world.entities@,
            n == s.len(),
            0 <= i <= n,
            collisions_spec(s, 0) == r@ + collisions_spec(s, i as int),
        decreases n - i,
    {
        let mut j: usize = i + 1;
        while j < n
            invariant
                world.wf(),
                s == world.entities@,
                n == s.len(),
                0 <= i < n,
                i < j <= n,
                collisions_spec(s, 0) == r@ + (row_events(s, i as int, j as int)
                    + collisions_spec(s, i + 1)),
            decreases n - j,
        {
            let ghost r0 = r@;
            let hit = world.entities[i].collider.is_some()
                && world.entities[j].collider.is_some()
                && collide(&world.entities[i], &world.entities[j]);
            if hit {
                let ev = CollisionEvent {
                    entity1: world.entities[i].id,
                    entity2: world.entities[j].id,
                };
                r.push(ev);
                proof {
                    assert(row_events(s, i as int, j as int) == seq![ev] + row_events(
                        s,
                        i as int,
                        j + 1,
                    ));
                    assert(r@ =~= r0 + seq![ev]);
                    assert(r0 + ((seq![ev] + row_events(s, i as int, j + 1))
                        + collisions_spec(s, i + 1)) =~= (r0 + seq![ev]) + (row_events(
                        s,
                        i as int,
                        j + 1,
                    ) + collisions_spec(s, i + 1)));
                }
            } else {
                proof {
                    assert(row_events(s, i as int, j as int) == Seq::<CollisionEvent>::empty()
                        + row_events(s, i as int, j + 1));
                    assert(Seq::<CollisionEvent>::empty() + row_events(s, i as int, j + 1)
                        =~= row_events(s, i as int, j + 1));
                }
            }
            j = j + 1;
        }
        proof {
            assert(row_events(s, i as int, n as int) =~= Seq::<CollisionEvent>::empty());
            assert(Seq::<CollisionEvent>::empty() + collisions_spec(s, i + 1)
                =~= collisions_spec(s, i + 1));
            assert(collisions_spec(s, i as int) == row_events(s, i as int, i + 1)
                + collisions_spec(s, i + 1));
        }
        i = i + 1;
    }
    proof {
        assert(collisions_spec(s, n as int) =~= Seq::<CollisionEvent>::empty());
        assert(r@ + Seq::<CollisionEvent>::empty() =~= r@);
    }
    r
}

/// One row of the broad phase emits at most one event per later entity.
pub proof fn lemma_row_len(s: Seq<EntityRecord>, i: int, j: int)
    requires
        0 <= j <= s.len(),
    ensures
        0 <= row_events(s, i, j).len() <= s.len() - j,
    decreases s.len() - j,
{
    if j < s.len() {
        lemma_row_len(s, i, j + 1);
    }
}

/// The broad phase emits at most `n * n` events over `n` entities.
pub proof fn lemma_collisions_len(s: Seq<EntityRecord>, i: int)
    requires
        0 <= i <= s.len(),
    ensures
        0 <= collisions_spec(s, i).len() <= (s.len() - i) * s.len(),
    decreases s.len() - i,
{
    if i < s.len() {
        lemma_row_len(s, i, i + 1);
        lemma_collisions_len(s, i + 1);
        let n = s.len() as int;
        assert((n - i - 1) + (n - i - 1) * n <= (n - i) * n) by (nonlinear_arith)
            requires
                0 <= i < n,
        ;
    }
}

/// Every event of one broad-phase row pairs entity `i` with a strictly
/// later entity, so the two identities differ.
proof fn lemma_row_distinct(s: Seq<EntityRecord>, i: int, j: int)
    requires
        forall|x: int, y: int| 0 <= x < y < s.len() ==> (#[trigger] s[x].id) < (#[trigger] s[y].id),
        0 <= i < j <= s.len(),
        i < s.len(),
    ensures
        forall|m: int| 0 <= m < row_events(s, i, j).len() ==> (#[trigger] row_events(s, i, j)[m])
            .entity1 != row_events(s, i, j)[m].entity2,
    decreases s.len() - j,
{
    if j < s.len() {
        lemma_row_distinct(s, i, j + 1);
        let head = if s[i].collider is Some && s[j].collider is Some && overlap(s[i], s[j]) {
            seq![CollisionEvent { entity1: s[i].id, entity2: s[j].id }]
        } else {
            Seq::<CollisionEvent>::empty()
        };
        assert(row_events(s, i, j) == head + row_events(s, i, j + 1));
        assert forall|m: int| 0 <= m < row_events(s, i, j).len() implies (#[trigger] row_events(
            s,
            i,
            j,
        )[m]).entity1 != row_events(s, i, j)[m].entity2 by {
            if m < head.len() {
                assert(row_events(s, i, j)[m] == head[0]);
                assert(s[i].id < s[j].id);
            } else {
                assert(row_events(s, i, j)[m] == row_events(s, i, j + 1)[m - head.len()]);
            }
        }
    }
}

/// Law: the broad phase never reports an entity colliding with itself —
/// every emitted event pairs two distinct identities.
pub proof fn lemma_no_self_collision(s: Seq<EntityRecord>, i: int)
    requires
        forall|x: int, y: int| 0 <= x < y < s.len() ==> (#[trigger] s[x].id) < (#[trigger] s[y].id),
        0 <= i <= s.len(),
    ensures
        forall|m: int| 0 <= m < collisions_spec(s, i).len() ==> (#[trigger] collisions_spec(s, i)[m])
            .entity1 != collisions_spec(s, i)[m].entity2,
    decreases s.len() - i,
{
    if i < s.len() {
        lemma_row_distinct(s, i, i + 1);
        lemma_no_self_collision(s, i + 1);
        let row = row_events(s, i, i + 1);
        assert forall|m: int| 0 <= m < collisions_spec(s, i).len() implies (
        #[trigger] collisions_spec(s, i)[m]).entity1 != collisions_spec(s, i)[m].entity2 by {
            if m < row.len() {
                assert(collisions_spec(s, i)[m] == row[m]);
            } else {
                assert(collisions_spec(s, i)[m] == collisions_spec(s, i + 1)[m - row.len()]);
            }
        }
    }
}

} // verus!
