//! Explicit typed entity storage.
//!
//! The world owns a list of entity records ordered by strictly increasing
//! id; ids are never reused.  Each record carries the optional components the
//! systems read and write.  Despawning an absent id is a silent no-op, and
//! recursive despawn removes an entity together with every live descendant
//! (an entity's parent always has a smaller id, so descendant chains are
//! well-founded).

use vstd::prelude::*;
use crate::constants::UNIT;
use crate::geom::{Vec2i, in_pos_range, COORD_LIMIT, VEL_LIMIT};
use crate::poly_path::PolyPath;
use crate::shared::{Health, Dead};
use crate::physics::{Velocity, Momentum, Collider};
use crate::enemy::Enemy;
use crate::player::{Player, PlayerProjectile};
use crate::world::Debris;

verus! {

/// One entity: its id, optional parent link, spatial state and components.
#[derive(Clone, Debug)]
pub struct EntityRecord {
    /// Unique identity, assigned by the world at spawn time.
    pub id: u64,
    /// Owning entity, if any; always spawned earlier (smaller id).
    pub parent: Option<u64>,
    /// Centre position.
    pub position: Vec2i,
    /// Scale attribute; the broad phase uses it as the half-extent of the
    /// entity's bounding box.
    pub scale: i64,
    /// Velocity in sub-units per second.
    pub velocity: Option<Velocity>,
    /// Steering momentum (player input smoothing).
    pub momentum: Option<Momentum>,
    /// Marker: participates in broad-phase collision.
    pub collider: Option<Collider>,
    /// Hit points.
    pub health: Option<Health>,
    /// Enemy role and type.
    pub enemy: Option<Enemy>,
    /// Player role.
    pub player: Option<Player>,
    /// Player projectile role.
    pub projectile: Option<PlayerProjectile>,
    /// Debris role.
    pub debris: Option<Debris>,
    /// Tombstone marker.
    pub dead: Option<Dead>,
    /// Path constraint for path-bound entities.
    pub path: Option<PolyPath>,
}

/// Range and structural conditions on a single record.
pub open spec fn entity_wf(e: EntityRecord) -> bool {
    &&& in_pos_range(e.position)
    &&& 0 <= e.scale <= COORD_LIMIT
    &&& (match e.velocity {
        Some(v) => -VEL_LIMIT <= v.0.x <= VEL_LIMIT && -VEL_LIMIT <= v.0.y <= VEL_LIMIT,
        None => true,
    })
    &&& (match e.momentum {
        Some(m) => -UNIT <= m.0.x <= UNIT && -UNIT <= m.0.y <= UNIT,
        None => true,
    })
    &&& (match e.health {
        Some(h) => h.0 >= 1,
        None => true,
    })
    &&& (match e.parent {
        Some(p) => p < e.id,
        None => true,
    })
    &&& (match e.path {
        Some(p) => p.wf(),
        None => true,
    })
}

/// The record with its id replaced.
pub open spec fn with_id(e: EntityRecord, id: u64) -> EntityRecord {
    EntityRecord { id, ..e }
}

/// Index of the record with identity `id`, scanning from `i`; -1 if absent.
pub open spec fn find_from(s: Seq<EntityRecord>, id: u64, i: int) -> int
    decreases s.len() - i,
{
    if i < 0 || i >= s.len() {
        -1
    } else if s[i].id == id {
        i
    } else {
        find_from(s, id, i + 1)
    }
}

/// Index of the record with identity `id`; -1 if absent.
pub open spec fn find(s: Seq<EntityRecord>, id: u64) -> int {
    find_from(s, id, 0)
}

/// The sequence after a plain despawn of `id` (no-op when absent).
pub open spec fn remove_id(s: Seq<EntityRecord>, id: u64) -> Seq<EntityRecord> {
    if find(s, id) < 0 {
        s
    } else {
        s.remove(find(s, id))
    }
}

/// Entity at index `i` dies with root `root`: it is the root itself, or its
/// parent is an earlier doomed entity.
pub open spec fn doomed(s: Seq<EntityRecord>, root: u64, i: int) -> bool
    decreases i,
{
    if i < 0 || i >= s.len() {
        false
    } else {
        s[i].id == root || (match s[i].parent {
            Some(p) => exists|j: int| 0 <= j < i && (#[trigger] s[j].id) == p && doomed(s, root, j),
            None => false,
        })
    }
}

/// The sequence after a recursive despawn rooted at `root`, keeping the
/// records from index `i` on that are not doomed.
pub open spec fn remove_doomed(s: Seq<EntityRecord>, root: u64, i: int) -> Seq<EntityRecord>
    decreases s.len() - i,
{
    if i < 0 || i >= s.len() {
        Seq::empty()
    } else if doomed(s, root, i) {
        remove_doomed(s, root, i + 1)
    } else {
        seq![s[i]] + remove_doomed(s, root, i + 1)
    }
}

/// The sequence after recursive despawns of each of `ids`, in order,
/// starting with the despawn of `ids[k]`.
pub open spec fn despawn_all(s: Seq<EntityRecord>, ids: Seq<u64>, k: int) -> Seq<EntityRecord>
    decreases ids.len() - k,
{
    if k < 0 || k >= ids.len() {
        s
    } else {
        despawn_all(remove_doomed(s, ids[k], 0), ids, k + 1)
    }
}

/// The sequence after plain despawns of each of `ids`, in order, starting
/// with the despawn of `ids[k]`.
pub open spec fn remove_ids(s: Seq<EntityRecord>, ids: Seq<u64>, k: int) -> Seq<EntityRecord>
    decreases ids.len() - k,
{
    if k < 0 || k >= ids.len() {
        s
    } else {
        remove_ids(remove_id(s, ids[k]), ids, k + 1)
    }
}

/// `find_from` lands on an actual occurrence, or there is none.
pub proof fn lemma_find_from_props(s: Seq<EntityRecord>, id: u64, i: int)
    requires
        0 <= i <= s.len(),
    ensures
        find_from(s, id, i) >= 0 ==> i <= find_from(s, id, i) < s.len()
            && s[find_from(s, id, i)].id == id
            && (forall|k: int| i <= k < find_from(s, id, i) ==> (#[trigger] s[k].id) != id),
        find_from(s, id, i) < 0 ==> forall|k: int| i <= k < s.len() ==> (#[trigger] s[k].id) != id,
    decreases s.len() - i,
{
    if i < s.len() && s[i].id != id {
        lemma_find_from_props(s, id, i + 1);
    }
}

/// The world: an id counter and the entity records in id order.
#[derive(Clone, Debug)]
pub struct World {
    /// Next identity to assign; strictly above every live id.
    pub next_id: u64,
    /// Entity records, ordered by strictly increasing id.
    pub entities: Vec<EntityRecord>,
}

impl World {
    /// Well-formedness of the whole store.
    pub open spec fn wf(self) -> bool {
        &&& forall|i: int| 0 <= i < self.entities@.len() ==> entity_wf(#[trigger] self.entities@[i])
        &&& forall|i: int| 0 <= i < self.entities@.len() ==> (#[trigger] self.entities@[i].id)
            < self.next_id
        &&& forall|i: int, j: int| 0 <= i < j < self.entities@.len()
            ==> (#[trigger] self.entities@[i].id) < (#[trigger] self.entities@[j].id)
    }

    /// An empty world.
    pub fn new() -> (r: World)
        ensures
            r.wf(),
            r.entities@.len() == 0,
            r.next_id == 0,
    {
        World { next_id: 0, entities: Vec::new() }
    }

    /// Index of the entity with identity `id`, if it is live.
    pub fn index_of(&self, id: u64) -> (r: Option<usize>)
        ensures
            find(self.entities@, id) < 0 ==> r is None,
            find(self.entities@, id) >= 0 ==> r == Some(find(self.entities@, id) as usize),
    {
        let ghost s = self.entities@;
        let n = self.entities.len();
        let mut i: usize = 0;
        while i < n
            invariant
                s == self.entities@,
                n == s.len(),
                0 <= i <= n,
                find_from(s, id, 0) == find_from(s, id, i as int),
            decreases n - i,
        {
            if self.entities[i].id == id {
                return Some(i);
            }
            i = i + 1;
        }
        None
    }

    /// Whether the entity with identity `id` is live.
    pub fn contains(&self, id: u64) -> (r: bool)
        ensures
            r == (find(self.entities@, id) >= 0),
    {
        self.index_of(id).is_some()
    }

    /// Spawn a record: it receives the next identity and joins the world.
    pub fn spawn(&mut self, e: EntityRecord) -> (id: u64)
        requires
            old(self).wf(),
            entity_wf(with_id(e, old(self).next_id)),
            old(self).next_id < u64::MAX,
        ensures
            final(self).wf(),
            id == old(self).next_id,
            final(self).next_id == old(self).next_id + 1,
            final(self).entities@ == old(self).entities@.push(with_id(e, id)),
    {
        let id = self.next_id;
        let mut e = e;
        e.id = id;
        self.entities.push(e);
        self.next_id = self.next_id + 1;
        id
    }

    /// Despawn the entity with identity `id`; a silent no-op when absent.
    pub fn despawn(&mut self, id: u64)
        requires
            old(self).wf(),
        ensures
            final(self).wf(),
            final(self).next_id == old(self).next_id,
            final(self).entities@ == remove_id(old(self).entities@, id),
    {
        let ghost s = self.entities@;
        let n = self.entities.len();
        match self.index_of(id) {
            Some(i) => {
                proof {
                    lemma_find_from_props(s, id, 0);
                    assert(find(s, id) >= 0);
                    assert(i as int == find(s, id));
                }
                self.entities.remove(i);
            },
            None => (),
        }
    }

    /// Despawn `root` and, transitively, every live descendant; a silent
    /// no-op when `root` is absent.
    pub fn despawn_recursive(&mut self, root: u64)
        requires
            old(self).wf(),
        ensures
            final(self).wf(),
            final(self).next_id == old(self).next_id,
            final(self).entities@ == remove_doomed(old(self).entities@, root, 0),
    {
        let ghost s = old(self).entities@;
        let n = self.entities.len();
        let mut kept: Vec<EntityRecord> = Vec::new();
        let mut doomed_ids: Vec<u64> = Vec::new();
        let mut i: usize = 0;
        while i < n
            invariant
                old(self).wf(),
                s == old(self).entities@,
                self.next_id == old(self).next_id,
                n == s.len(),
                0 <= i <= n,
                self.entities@ =~= s.subrange(i as int, n as int),
                doomed_ids@ == doomed_ids_spec(s, root, i as int),
                remove_doomed(s, root, 0) == kept@ + remove_doomed(s, root, i as int),
            decreases n - i,
        {
            proof {
                assert(s.subrange(i as int, n as int)[0] == s[i as int]);
            }
            let e = self.entities.remove(0);
            proof {
                assert(e == s[i as int]);
                assert(self.entities@ =~= s.subrange(i + 1, n as int));
            }
            let ghost kept0 = kept@;
            let mut is_doomed = e.id == root;
            if !is_doomed {
                match e.parent {
                    Some(p) => {
                        is_doomed = contains_u64(&doomed_ids, p);
                        proof {
                            lemma_doomed_ids_contains(s, root, i as int, p);
                        }
                    },
                    None => (),
                }
            }
            proof {
                assert(is_doomed == doomed(s, root, i as int));
            }
            if is_doomed {
                doomed_ids.push(e.id);
                proof {
                    assert(doomed_ids_spec(s, root, i + 1) == doomed_ids_spec(s, root, i as int)
                        + seq![s[i as int].id]);
                    assert(doomed_ids@ =~= doomed_ids_spec(s, root, i + 1));
                }
            } else {
                kept.push(e);
                proof {
                    assert(doomed_ids_spec(s, root, i + 1) == doomed_ids_spec(s, root, i as int)
                        + Seq::<u64>::empty());
                    assert(doomed_ids_spec(s, root, i + 1) =~= doomed_ids@);
                }
            }
            proof {
                assert(remove_doomed(s, root, 0) == kept@ + remove_doomed(s, root, i + 1)) by {
                    if !doomed(s, root, i as int) {
                        assert(kept@ =~= kept0 + seq![s[i as int]]);
                        assert(kept0 + (seq![s[i as int]] + remove_doomed(s, root, i + 1))
                            =~= (kept0 + seq![s[i as int]]) + remove_doomed(s, root, i + 1));
                    }
                };
            }
            i = i + 1;
        }
        proof {
            assert(kept@ + remove_doomed(s, root, n as int) =~= kept@);
            assert(kept@ == remove_doomed(s, root, 0));
            assert forall|a: int, b: int| 0 <= a < b < kept@.len() implies (
            #[trigger] kept@[a].id) < (#[trigger] kept@[b].id) by {
                lemma_kept_order(s, root, 0, a, b);
            }
            assert forall|k: int| 0 <= k < kept@.len() implies entity_wf(#[trigger] kept@[k])
                && kept@[k].id < old(self).next_id by {
                lemma_kept_id_source(s, root, 0, k);
                let j = choose|j: int| 0 <= j < s.len() && remove_doomed(s, root, 0)[k] == (
                #[trigger] s[j]);
                assert(entity_wf(s[j]) && s[j].id < old(self).next_id);
            }
        }
        self.entities = kept;
    }
}

/// Identities of the doomed records among the first `i`, in record order.
pub open spec fn doomed_ids_spec(s: Seq<EntityRecord>, root: u64, i: int) -> Seq<u64>
    decreases i,
{
    if i <= 0 || i > s.len() {
        Seq::empty()
    } else if doomed(s, root, i - 1) {
        doomed_ids_spec(s, root, i - 1) + seq![s[i - 1].id]
    } else {
        doomed_ids_spec(s, root, i - 1) + Seq::empty()
    }
}

/// Membership in the doomed-id list is exactly "some earlier doomed record
/// carries this id".
pub proof fn lemma_doomed_ids_contains(s: Seq<EntityRecord>, root: u64, i: int, x: u64)
    requires
        0 <= i <= s.len(),
    ensures
        doomed_ids_spec(s, root, i).contains(x) <==> exists|j: int| 0 <= j < i
            && (#[trigger] s[j].id) == x && doomed(s, root, j),
    decreases i,
{
    if i > 0 {
        lemma_doomed_ids_contains(s, root, i - 1, x);
        let prev = doomed_ids_spec(s, root, i - 1);
        let cur = doomed_ids_spec(s, root, i);
        if doomed(s, root, i - 1) {
            assert(cur == prev + seq![s[i - 1].id]);
            if cur.contains(x) {
                let k = choose|k: int| 0 <= k < cur.len() && cur[k] == x;
                if k < prev.len() {
                    assert(prev[k] == x);
                    let j = choose|j: int| 0 <= j < i - 1 && (#[trigger] s[j].id) == x
                        && doomed(s, root, j);
                    assert(0 <= j < i && s[j].id == x && doomed(s, root, j));
                } else {
                    assert(cur[k] == s[i - 1].id);
                    assert(0 <= i - 1 < i && s[i - 1].id == x && doomed(s, root, i - 1));
                }
            }
            if exists|j: int| 0 <= j < i && (#[trigger] s[j].id) == x && doomed(s, root, j) {
                let j = choose|j: int| 0 <= j < i && (#[trigger] s[j].id) == x && doomed(
                    s,
                    root,
                    j,
                );
                if j < i - 1 {
                    assert(prev.contains(x));
                    let k = choose|k: int| 0 <= k < prev.len() && prev[k] == x;
                    assert(cur[k] == x);
                } else {
                    assert(cur[prev.len() as int] == x);
                }
            }
        } else {
            assert(cur =~= prev);
            if cur.contains(x) {
                let j = choose|j: int| 0 <= j < i - 1 && (#[trigger] s[j].id) == x && doomed(
                    s,
                    root,
                    j,
                );
                assert(0 <= j < i && s[j].id == x && doomed(s, root, j));
            }
            if exists|j: int| 0 <= j < i && (#[trigger] s[j].id) == x && doomed(s, root, j) {
                let j = choose|j: int| 0 <= j < i && (#[trigger] s[j].id) == x && doomed(
                    s,
                    root,
                    j,
                );
                assert(j < i - 1 || j == i - 1);
                assert(j != i - 1);
                assert(prev.contains(x));
            }
        }
    }
}

/// Membership scan over a vector of identities.
fn contains_u64(v: &Vec<u64>, x: u64) -> (r: bool)
    ensures
        r == v@.contains(x),
{
    let n = v.len();
    let mut i: usize = 0;
    while i < n
        invariant
            n == v@.len(),
            0 <= i <= n,
            forall|k: int| 0 <= k < i ==> v@[k] != x,
        decreases n - i,
    {
        if v[i] == x {
            proof {
                assert(v@[i as int] == x);
            }
            return true;
        }
        i = i + 1;
    }
    proof {
        assert(!v@.contains(x)) by {
            if v@.contains(x) {
                let k = choose|k: int| 0 <= k < v@.len() && v@[k] == x;
                assert(v@[k] != x);
            }
        };
    }
    false
}

/// The records kept by a recursive despawn keep their original id order.
proof fn lemma_kept_order(s: Seq<EntityRecord>, root: u64, i: int, a: int, b: int)
    requires
        0 <= i <= s.len(),
        forall|x: int, y: int| 0 <= x < y < s.len() ==> (#[trigger] s[x].id) < (#[trigger] s[y].id),
        0 <= a < b < remove_doomed(s, root, i).len(),
    ensures
        remove_doomed(s, root, i)[a].id < remove_doomed(s, root, i)[b].id,
    decreases s.len() - i,
{
    if i < s.len() {
        if doomed(s, root, i) {
            lemma_kept_order(s, root, i + 1, a, b);
        } else {
            if a == 0 {
                lemma_kept_id_source(s, root, i + 1, b - 1);
            } else {
                lemma_kept_order(s, root, i + 1, a - 1, b - 1);
            }
        }
    }
}

/// Every record kept by a recursive despawn from index `i` is a source
/// record at an index at least `i`, so its id is at least `s[i].id`.
proof fn lemma_kept_id_source(s: Seq<EntityRecord>, root: u64, i: int, k: int)
    requires
        0 <= i <= s.len(),
        forall|x: int, y: int| 0 <= x < y < s.len() ==> (#[trigger] s[x].id) < (#[trigger] s[y].id),
        0 <= k < remove_doomed(s, root, i).len(),
    ensures
        exists|j: int| i <= j < s.len() && remove_doomed(s, root, i)[k] == (#[trigger] s[j]),
        i < s.len() ==> s[i].id <= remove_doomed(s, root, i)[k].id,
    decreases s.len() - i,
{
    if i < s.len() {
        if doomed(s, root, i) {
            lemma_kept_id_source(s, root, i + 1, k);
            let j = choose|j: int| i + 1 <= j < s.len() && remove_doomed(s, root, i + 1)[k]
                == (#[trigger] s[j]);
            assert(remove_doomed(s, root, i)[k] == s[j]);
            assert(s[i].id <= s[j].id);
        } else {
            if k == 0 {
                assert(remove_doomed(s, root, i)[0] == s[i]);
            } else {
                lemma_kept_id_source(s, root, i + 1, k - 1);
                let j = choose|j: int| i + 1 <= j < s.len() && remove_doomed(s, root, i + 1)[
                    k - 1] == (#[trigger] s[j]);
                assert(remove_doomed(s, root, i)[k] == s[j]);
                assert(s[i].id < s[j].id);
            }
        }
    }
}

/// No index of `s` carries `id`, so the scan from any start finds nothing.
pub proof fn lemma_find_none(s: Seq<EntityRecord>, id: u64, i: int)
    requires
        0 <= i <= s.len(),
        forall|k: int| 0 <= k < s.len() ==> (#[trigger] s[k].id) != id,
    ensures
        find_from(s, id, i) < 0,
    decreases s.len() - i,
{
    if i < s.len() {
        lemma_find_none(s, id, i + 1);
    }
}

/// Law: despawning the same identity twice gives the same world as
/// despawning it once — the second despawn is a silent no-op.
pub proof fn lemma_despawn_idempotent(s: Seq<EntityRecord>, id: u64)
    requires
        forall|x: int, y: int| 0 <= x < y < s.len() ==> (#[trigger] s[x].id) < (#[trigger] s[y].id),
    ensures
        remove_id(remove_id(s, id), id) == remove_id(s, id),
{
    lemma_find_from_props(s, id, 0);
    let f = find(s, id);
    if f >= 0 {
        let s1 = s.remove(f);
        assert forall|k: int| 0 <= k < s1.len() implies (#[trigger] s1[k].id) != id by {
            if k < f {
                assert(s1[k] == s[k]);
            } else {
                assert(s1[k] == s[k + 1]);
                assert(s[f].id < s[k + 1].id);
            }
        }
        lemma_find_none(s1, id, 0);
    }
}

} // verus!
