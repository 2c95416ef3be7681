//! Closed-polyline paths with an arc-length cursor.
//!
//! A `PolyPath` owns an ordered list of vertices forming a closed polygon
//! (an implicit edge joins the last vertex back to the first).  The derived
//! state is the total perimeter and a cursor `distance` with
//! `0 <= distance < total_length`; `step` advances the cursor by a
//! nonnegative arc length, wrapping around the perimeter, and returns the
//! interpolated point on the edge the cursor lands on.

use vstd::prelude::*;
use vstd::arithmetic::div_mod::lemma_small_mod;
use crate::constants::UNIT;
use crate::geom::{
    Vec2i, dist, dist_spec, dist_sq, sqrt_floor, in_coord_range, in_pos_range, div_euclid_i128,
    rem_euclid_i64, COORD_LIMIT, lemma_sqrt_floor, lemma_sqrt_floor_le, lemma_sqrt_floor_unique,
    lemma_sqrt_floor_mono, lemma_mul_div_bounds,
};

verus! {

/// Most vertices a path may hold.
pub const MAX_VERTICES: usize = 1_000_000;

/// Upper bound on one edge length between in-range vertices.
pub const SEG_MAX: i64 = 2_828_427_124_747;

/// Upper bound on a well-formed path's perimeter (`MAX_VERTICES * SEG_MAX`).
pub const TOTAL_MAX: i64 = 2_828_427_124_747_000_000;

/// Largest arc-length advance accepted by a single `step` call.
pub const MAX_STEP: i64 = 6_000_000_000_000_000_000;

/// Length of the edge from `a` to `b`.
pub open spec fn seg_len(a: Vec2i, b: Vec2i) -> int {
    dist_spec(a, b)
}

/// Index of the vertex that follows `i` on the closed polyline.
pub open spec fn next_idx(n: int, i: int) -> int {
    if i + 1 == n {
        0
    } else {
        i + 1
    }
}

/// Perimeter contributed by the edges from index `i` on.
pub open spec fn tail_len(s: Seq<Vec2i>, i: int) -> int
    decreases s.len() - i,
{
    if i < 0 || i >= s.len() {
        0
    } else {
        seg_len(s[i], s[next_idx(s.len() as int, i)]) + tail_len(s, i + 1)
    }
}

/// Total perimeter of the closed polyline (0 with fewer than two vertices).
pub open spec fn total_len_spec(s: Seq<Vec2i>) -> int {
    tail_len(s, 0)
}

/// Point at distance `t` along the edge from `a` to `b` (floor arithmetic).
pub open spec fn interp(a: Vec2i, b: Vec2i, t: int) -> Vec2i {
    let l = seg_len(a, b);
    if l == 0 {
        a
    } else {
        Vec2i { x: (a.x + t * (b.x - a.x) / l) as i64, y: (a.y + t * (b.y - a.y) / l) as i64 }
    }
}

/// Point at arc length `t` along the closed polyline, walking edges from `i`.
pub open spec fn walk_from(s: Seq<Vec2i>, i: int, t: int) -> Vec2i
    decreases s.len() - i,
{
    if i < 0 || i >= s.len() {
        Vec2i { x: 0, y: 0 }
    } else {
        let a = s[i];
        let b = s[next_idx(s.len() as int, i)];
        let l = seg_len(a, b);
        if t <= l {
            interp(a, b, t)
        } else {
            walk_from(s, i + 1, t - l)
        }
    }
}

/// Point at arc length `t` from the start of the closed polyline.
pub open spec fn walk(s: Seq<Vec2i>, t: int) -> Vec2i {
    walk_from(s, 0, t)
}

/// Every vertex of `s` is within the vertex coordinate range.
pub open spec fn vertices_in_range(s: Seq<Vec2i>) -> bool {
    forall|k: int| 0 <= k < s.len() ==> in_coord_range(#[trigger] s[k])
}

/// Edge lengths between in-range vertices are nonnegative and bounded.
pub proof fn lemma_seg_len_bound(a: Vec2i, b: Vec2i)
    requires
        in_coord_range(a),
        in_coord_range(b),
    ensures
        0 <= seg_len(a, b) <= SEG_MAX,
{
    assert(0 <= dist_sq(a, b) <= 8_000_000_000_000_000_000_000_000) by (nonlinear_arith)
        requires
            dist_sq(a, b) == (b.x - a.x) * (b.x - a.x) + (b.y - a.y) * (b.y - a.y),
            -2_000_000_000_000 <= b.x - a.x <= 2_000_000_000_000,
            -2_000_000_000_000 <= b.y - a.y <= 2_000_000_000_000,
    ;
    lemma_sqrt_floor(dist_sq(a, b));
    assert(8_000_000_000_000_000_000_000_000 < (SEG_MAX + 1) * (SEG_MAX + 1)) by (nonlinear_arith)
        requires
            SEG_MAX == 2_828_427_124_747i64,
    ;
    lemma_sqrt_floor_le(dist_sq(a, b), SEG_MAX as int);
}

/// The perimeter tail is nonnegative and bounded by the remaining edge count.
pub proof fn lemma_tail_len_bounds(s: Seq<Vec2i>, i: int)
    requires
        0 <= i <= s.len(),
        vertices_in_range(s),
    ensures
        0 <= tail_len(s, i) <= (s.len() - i) * SEG_MAX,
    decreases s.len() - i,
{
    if i < s.len() {
        lemma_seg_len_bound(s[i], s[next_idx(s.len() as int, i)]);
        lemma_tail_len_bounds(s, i + 1);
    }
}

/// Each coordinate difference is bounded by the edge length.
pub proof fn lemma_component_le_seg(a: Vec2i, b: Vec2i)
    ensures
        -seg_len(a, b) <= b.x - a.x <= seg_len(a, b),
        -seg_len(a, b) <= b.y - a.y <= seg_len(a, b),
{
    let dx = b.x - a.x;
    let dy = b.y - a.y;
    let adx = if dx >= 0 { dx as int } else { -dx as int };
    let ady = if dy >= 0 { dy as int } else { -dy as int };
    assert(adx * adx <= dist_sq(a, b) && ady * ady <= dist_sq(a, b)) by (nonlinear_arith)
        requires
            dist_sq(a, b) == dx * dx + dy * dy,
            adx == (if dx >= 0 { dx as int } else { -dx as int }),
            ady == (if dy >= 0 { dy as int } else { -dy as int }),
    ;
    assert(adx * adx < (adx + 1) * (adx + 1) && ady * ady < (ady + 1) * (ady + 1))
        by (nonlinear_arith)
        requires
            adx >= 0,
            ady >= 0,
    ;
    lemma_sqrt_floor_unique(adx * adx, adx);
    lemma_sqrt_floor_unique(ady * ady, ady);
    lemma_sqrt_floor_mono(adx * adx, dist_sq(a, b));
    lemma_sqrt_floor_mono(ady * ady, dist_sq(a, b));
}

/// Walking zero arc length from the start lands on the first vertex.
pub proof fn lemma_walk_zero(s: Seq<Vec2i>)
    requires
        s.len() >= 1,
        vertices_in_range(s),
    ensures
        walk(s, 0) == s[0],
{
    let a = s[0];
    let b = s[next_idx(s.len() as int, 0)];
    lemma_seg_len_bound(a, b);
    let l = seg_len(a, b);
    if l != 0 {
        vstd::arithmetic::div_mod::lemma_div_basics(l);
        assert(0 * (b.x - a.x) == 0);
        assert(0 * (b.y - a.y) == 0);
        assert(interp(a, b, 0) == a);
    }
}

/// A closed polyline with an arc-length cursor.
#[derive(Clone, Debug)]
pub struct PolyPath {
    /// Vertices of the closed polygon, in traversal order.
    pub vertices: Vec<Vec2i>,
    /// Point at arc length `distance` along the polyline.
    pub pos: Vec2i,
    /// Perimeter of the closed polyline.
    pub total_length: i64,
    /// Current arc-length cursor, `0 <= distance < total_length`.
    pub distance: i64,
}

impl PolyPath {
    /// Well-formedness: derived fields agree with the vertex list.
    pub open spec fn wf(self) -> bool {
        &&& self.vertices@.len() <= MAX_VERTICES
        &&& vertices_in_range(self.vertices@)
        &&& 0 <= self.total_length
        &&& self.total_length == total_len_spec(self.vertices@)
        &&& 0 <= self.distance
        &&& (self.total_length > 0 ==> self.distance < self.total_length)
        &&& (self.total_length == 0 ==> self.distance == 0)
        &&& in_coord_range(self.pos)
        &&& (self.total_length > 0 ==> self.pos == walk(self.vertices@, self.distance as int))
        &&& (self.total_length == 0 && self.vertices@.len() >= 1 ==> self.pos == self.vertices@[0])
        &&& (self.vertices@.len() == 0 ==> self.pos == (Vec2i { x: 0, y: 0 }))
    }
}

/// Sum of consecutive vertex distances, wrapping from the last vertex to the first.
pub fn calculate_total_length(vertices: &Vec<Vec2i>) -> (r: i64)
    requires
        vertices@.len() <= MAX_VERTICES,
        vertices_in_range(vertices@),
    ensures
        r == total_len_spec(vertices@),
        0 <= r <= TOTAL_MAX,
{
    let ghost s = vertices@;
    let n = vertices.len();
    let mut acc: i64 = 0;
    let mut i: usize = 0;
    proof {
        lemma_tail_len_bounds(s, 0);
    }
    while i < n
        invariant
            s == vertices@,
            n == s.len() <= MAX_VERTICES,
            vertices_in_range(s),
            0 <= i <= n,
            acc + tail_len(s, i as int) == tail_len(s, 0),
            0 <= acc <= i * SEG_MAX,
        decreases n - i,
    {
        let j: usize = if i + 1 == n { 0 } else { i + 1 };
        let a = vertices[i];
        let b = vertices[j];
        proof {
            lemma_seg_len_bound(a, b);
            lemma_tail_len_bounds(s, i + 1);
        }
        let d = dist(a, b);
        acc = acc + d;
        i = i + 1;
    }
    acc
}

impl PolyPath {
    /// Build a path from its vertices: cursor 0, position at the first vertex
    /// (the origin for an empty vertex list).
    pub fn new(vertices: Vec<Vec2i>) -> (r: PolyPath)
        requires
            vertices@.len() <= MAX_VERTICES,
            vertices_in_range(vertices@),
        ensures
            r.wf(),
            r.vertices@ == vertices@,
            r.distance == 0,
            r.total_length == total_len_spec(vertices@),
            r.pos == (if vertices@.len() >= 1 { vertices@[0] } else { Vec2i { x: 0, y: 0 } }),
    {
        let total_length = calculate_total_length(&vertices);
        let mut pos = Vec2i::new(0, 0);
        if vertices.len() >= 1 {
            pos = vertices[0];
        }
        proof {
            if vertices@.len() >= 1 {
                lemma_walk_zero(vertices@);
            } else {
                assert(total_len_spec(vertices@) == 0);
            }
        }
        PolyPath { vertices, pos, total_length, distance: 0 }
    }

    /// Move the cursor to arc length `tgt` and recompute the position by
    /// walking the edges in vertex order.
    fn walk_to(&mut self, tgt: i64) -> (r: Vec2i)
        requires
            old(self).vertices@.len() <= MAX_VERTICES,
            vertices_in_range(old(self).vertices@),
            old(self).total_length == total_len_spec(old(self).vertices@),
            old(self).total_length > 0,
            0 <= tgt < old(self).total_length,
        ensures
            final(self).vertices == old(self).vertices,
            final(self).vertices@ == old(self).vertices@,
            final(self).total_length == old(self).total_length,
            final(self).distance == tgt,
            final(self).pos == walk(final(self).vertices@, tgt as int),
            in_coord_range(final(self).pos),
            r == final(self).pos,
    {
        let ghost s = old(self).vertices@;
        let n = self.vertices.len();
        proof {
            assert(n >= 1);
            lemma_tail_len_bounds(s, 0);
        }
        let mut i: usize = 0;
        let mut acc: i64 = 0;
        loop
            invariant
                *self == *old(self),
                s == self.vertices@,
                n == s.len(),
                1 <= n <= MAX_VERTICES,
                vertices_in_range(s),
                self.total_length == tail_len(s, 0),
                tail_len(s, 0) <= TOTAL_MAX,
                0 < self.total_length,
                0 <= tgt < self.total_length,
                0 <= i < n,
                0 <= acc <= tgt,
                acc + tail_len(s, i as int) == tail_len(s, 0),
                walk(s, tgt as int) == walk_from(s, i as int, tgt - acc),
            decreases n - i,
        {
            let a = self.vertices[i];
            let j: usize = if i + 1 == n { 0 } else { i + 1 };
            let b = self.vertices[j];
            proof {
                lemma_seg_len_bound(a, b);
                lemma_tail_len_bounds(s, i + 1);
            }
            let l = dist(a, b);
            if acc + l >= tgt {
                let rem = tgt - acc;
                let px: i64;
                let py: i64;
                if l == 0 {
                    px = a.x;
                    py = a.y;
                } else {
                    proof {
                        assert(
                            (rem as int) * ((b.x - a.x) as int)
                                <= 3_000_000_000_000_000_000_000_000_000
                            && (rem as int) * ((b.x - a.x) as int)
                                >= -3_000_000_000_000_000_000_000_000_000
                        ) by (nonlinear_arith)
                            requires
                                0 <= rem <= SEG_MAX,
                                -2_000_000_000_000 <= b.x - a.x <= 2_000_000_000_000,
                                SEG_MAX == 2_828_427_124_747i64,
                        ;
                        assert(
                            (rem as int) * ((b.y - a.y) as int)
                                <= 3_000_000_000_000_000_000_000_000_000
                            && (rem as int) * ((b.y - a.y) as int)
                                >= -3_000_000_000_000_000_000_000_000_000
                        ) by (nonlinear_arith)
                            requires
                                0 <= rem <= SEG_MAX,
                                -2_000_000_000_000 <= b.y - a.y <= 2_000_000_000_000,
                                SEG_MAX == 2_828_427_124_747i64,
                        ;
                        lemma_mul_div_bounds(rem as int, (b.x - a.x) as int, l as int);
                        lemma_mul_div_bounds(rem as int, (b.y - a.y) as int, l as int);
                    }
                    let qx = div_euclid_i128((rem as i128) * ((b.x as i128) - (a.x as i128)), l as i128);
                    let qy = div_euclid_i128((rem as i128) * ((b.y as i128) - (a.y as i128)), l as i128);
                    px = a.x + (qx as i64);
                    py = a.y + (qy as i64);
                }
                proof {
                    assert(walk_from(s, i as int, tgt - acc) == interp(a, b, rem as int));
                    assert(Vec2i { x: px, y: py } == interp(a, b, rem as int));
                }
                self.pos = Vec2i { x: px, y: py };
                self.distance = tgt;
                return self.pos;
            }
            proof {
                assert(i + 1 < n) by {
                    if i + 1 == n {
                        assert(tail_len(s, i as int) == seg_len(a, b) + tail_len(s, i + 1));
                        assert(tail_len(s, n as int) == 0);
                    }
                };
                assert(walk_from(s, i as int, tgt - acc) == walk_from(s, i + 1, tgt - acc - seg_len(a, b)));
            }
            acc = acc + l;
            i = i + 1;
        }
    }

    /// Recompute the perimeter from the vertices and renormalize the cursor
    /// and position (the `step(0)` resync of a freshly transformed path).
    fn reset(&mut self)
        requires
            old(self).vertices@.len() <= MAX_VERTICES,
            vertices_in_range(old(self).vertices@),
            0 <= old(self).distance,
        ensures
            final(self).wf(),
            final(self).vertices == old(self).vertices,
            final(self).vertices@ == old(self).vertices@,
            final(self).total_length == total_len_spec(final(self).vertices@),
            final(self).total_length > 0 ==> final(self).distance
                == (old(self).distance as int) % (final(self).total_length as int),
            final(self).total_length == 0 ==> final(self).distance == 0,
    {
        self.total_length = calculate_total_length(&self.vertices);
        if self.total_length == 0 {
            self.distance = 0;
            if self.vertices.len() >= 1 {
                let v0 = self.vertices[0];
                self.pos = v0;
            } else {
                self.pos = Vec2i::new(0, 0);
            }
        } else {
            let tgt = rem_euclid_i64(self.distance, self.total_length);
            self.walk_to(tgt);
        }
    }

    /// Advance the cursor by `dx >= 0`, wrapping around the perimeter, and
    /// return the point the cursor lands on.  A path with zero perimeter
    /// (fewer than two vertices, or all vertices equal) never moves.
    pub fn step(&mut self, dx: i64) -> (r: Vec2i)
        requires
            old(self).wf(),
            0 <= dx <= MAX_STEP,
        ensures
            final(self).wf(),
            final(self).vertices == old(self).vertices,
            final(self).vertices@ == old(self).vertices@,
            final(self).total_length == old(self).total_length,
            old(self).total_length == 0 ==> *final(self) == *old(self) && r == old(self).pos,
            old(self).total_length > 0 ==> {
                &&& final(self).distance == (old(self).distance + dx) % (old(self).total_length as int)
                &&& final(self).pos == walk(final(self).vertices@, final(self).distance as int)
                &&& r == final(self).pos
            },
            old(self).vertices@.len() == 1 ==> r == old(self).vertices@[0],
    {
        proof {
            lemma_tail_len_bounds(self.vertices@, 0);
            let s0 = self.vertices@;
            if s0.len() == 1 {
                assert(next_idx(1, 0) == 0);
                assert(tail_len(s0, 1) == 0);
                assert((s0[0].x - s0[0].x) * (s0[0].x - s0[0].x) == 0) by (nonlinear_arith);
                assert((s0[0].y - s0[0].y) * (s0[0].y - s0[0].y) == 0) by (nonlinear_arith);
                assert(dist_sq(s0[0], s0[0]) == 0);
                assert(seg_len(s0[0], s0[0]) == 0);
                assert(tail_len(s0, 0) == 0);
            }
        }
        if self.total_length == 0 {
            return self.pos;
        }
        let tgt = rem_euclid_i64(self.distance + dx, self.total_length);
        self.walk_to(tgt)
    }

    /// Shift every vertex by `translation`; the perimeter and cursor are
    /// unchanged and the position is recomputed on the shifted polyline.
    pub fn translate(&mut self, translation: Vec2i)
        requires
            old(self).wf(),
            forall|k: int| 0 <= k < old(self).vertices@.len() ==> ({
                let v = #[trigger] old(self).vertices@[k];
                -COORD_LIMIT <= v.x + translation.x <= COORD_LIMIT
                    && -COORD_LIMIT <= v.y + translation.y <= COORD_LIMIT
            }),
        ensures
            final(self).wf(),
            final(self).vertices@.len() == old(self).vertices@.len(),
            forall|k: int| 0 <= k < old(self).vertices@.len() ==> final(self).vertices@[k]
                == translate_pt(#[trigger] old(self).vertices@[k], translation),
            final(self).total_length == old(self).total_length,
            final(self).distance == old(self).distance,
    {
        let ghost s = old(self).vertices@;
        let n = self.vertices.len();
        let mut moved: Vec<Vec2i> = Vec::new();
        let mut i: usize = 0;
        while i < n
            invariant
                s == self.vertices@,
                *self == *old(self),
                n == s.len(),
                0 <= i <= n,
                forall|k: int| 0 <= k < s.len() ==> {
                    let v = #[trigger] s[k];
                    -COORD_LIMIT <= v.x + translation.x <= COORD_LIMIT
                        && -COORD_LIMIT <= v.y + translation.y <= COORD_LIMIT
                },
                moved@.len() == i,
                forall|k: int| 0 <= k < i ==> moved@[k] == translate_pt(#[trigger] s[k], translation),
            decreases n - i,
        {
            let v = self.vertices[i];
            moved.push(Vec2i::new(v.x + translation.x, v.y + translation.y));
            i = i + 1;
        }
        proof {
            lemma_tail_translate(s, moved@, translation, 0);
        }
        self.vertices = moved;
        proof {
            assert forall|k: int| 0 <= k < self.vertices@.len() implies in_coord_range(
                #[trigger] self.vertices@[k],
            ) by {
                assert(self.vertices@[k] == translate_pt(s[k], translation));
            }
            lemma_tail_len_bounds(s, 0);
            let t = total_len_spec(s);
            if t > 0 {
                assert(0 <= old(self).distance < t);
                lemma_small_mod(old(self).distance as nat, t as nat);
                assert((old(self).distance as int) % (t as int) == old(self).distance);
            }
        }
        self.reset();
    }
}

impl PolyPath {
    /// Multiply every vertex coordinate by `factor` sub-units per unit
    /// (scaling about the origin), then recompute the perimeter and resync.
    pub fn scale(&mut self, factor: i64)
        requires
            old(self).wf(),
            forall|k: int| 0 <= k < old(self).vertices@.len() ==> ({
                let v = #[trigger] old(self).vertices@[k];
                -COORD_LIMIT <= v.x * factor / (UNIT as int) <= COORD_LIMIT
                    && -COORD_LIMIT <= v.y * factor / (UNIT as int) <= COORD_LIMIT
            }),
        ensures
            final(self).wf(),
            final(self).vertices@.len() == old(self).vertices@.len(),
            forall|k: int| 0 <= k < old(self).vertices@.len() ==> final(self).vertices@[k]
                == scale_pt(#[trigger] old(self).vertices@[k], factor as int),
            final(self).total_length == total_len_spec(final(self).vertices@),
            final(self).total_length > 0 ==> final(self).distance
                == (old(self).distance as int) % (final(self).total_length as int),
            final(self).total_length == 0 ==> final(self).distance == 0,
    {
        let ghost s = old(self).vertices@;
        let n = self.vertices.len();
        let mut scaled: Vec<Vec2i> = Vec::new();
        let mut i: usize = 0;
        while i < n
            invariant
                s == self.vertices@,
                *self == *old(self),
                n == s.len(),
                vertices_in_range(s),
                0 <= i <= n,
                forall|k: int| 0 <= k < s.len() ==> ({
                    let v = #[trigger] s[k];
                    -COORD_LIMIT <= v.x * factor / (UNIT as int) <= COORD_LIMIT
                        && -COORD_LIMIT <= v.y * factor / (UNIT as int) <= COORD_LIMIT
                }),
                scaled@.len() == i,
                forall|k: int| 0 <= k < i ==> scaled@[k] == scale_pt(#[trigger] s[k], factor as int),
            decreases n - i,
        {
            let v = self.vertices[i];
            proof {
                assert(
                    -20_000_000_000_000_000_000_000_000_000_000
                        <= (v.x as int) * (factor as int)
                        <= 20_000_000_000_000_000_000_000_000_000_000
                    && -20_000_000_000_000_000_000_000_000_000_000
                        <= (v.y as int) * (factor as int)
                        <= 20_000_000_000_000_000_000_000_000_000_000
                ) by (nonlinear_arith)
                    requires
                        -1_000_000_000_000 <= v.x <= 1_000_000_000_000,
                        -1_000_000_000_000 <= v.y <= 1_000_000_000_000,
                        -9_223_372_036_854_775_808 <= factor <= 9_223_372_036_854_775_807,
                ;
            }
            let qx = div_euclid_i128((v.x as i128) * (factor as i128), UNIT as i128);
            let qy = div_euclid_i128((v.y as i128) * (factor as i128), UNIT as i128);
            scaled.push(Vec2i::new(qx as i64, qy as i64));
            i = i + 1;
        }
        self.vertices = scaled;
        proof {
            assert forall|k: int| 0 <= k < self.vertices@.len() implies in_coord_range(
                #[trigger] self.vertices@[k],
            ) by {
                assert(self.vertices@[k] == scale_pt(s[k], factor as int));
            }
        }
        self.reset();
    }

    /// Rotate every vertex about the origin by the rotation whose cosine and
    /// sine are `cos_a` and `sin_a` sub-units (the standard rotation matrix).
    pub fn rotate(&mut self, cos_a: i64, sin_a: i64)
        requires
            old(self).wf(),
            -(UNIT as int) <= cos_a <= UNIT as int,
            -(UNIT as int) <= sin_a <= UNIT as int,
            forall|k: int| 0 <= k < old(self).vertices@.len() ==> ({
                let v = #[trigger] old(self).vertices@[k];
                -COORD_LIMIT <= (cos_a * v.x - sin_a * v.y) / (UNIT as int) <= COORD_LIMIT
                    && -COORD_LIMIT <= (sin_a * v.x + cos_a * v.y) / (UNIT as int) <= COORD_LIMIT
            }),
        ensures
            final(self).wf(),
            final(self).vertices@.len() == old(self).vertices@.len(),
            forall|k: int| 0 <= k < old(self).vertices@.len() ==> final(self).vertices@[k]
                == rotate_pt(#[trigger] old(self).vertices@[k], cos_a as int, sin_a as int),
            final(self).total_length == total_len_spec(final(self).vertices@),
            final(self).total_length > 0 ==> final(self).distance
                == (old(self).distance as int) % (final(self).total_length as int),
            final(self).total_length == 0 ==> final(self).distance == 0,
    {
        let ghost s = old(self).vertices@;
        let n = self.vertices.len();
        let mut turned: Vec<Vec2i> = Vec::new();
        let mut i: usize = 0;
        while i < n
            invariant
                s == self.vertices@,
                *self == *old(self),
                n == s.len(),
                vertices_in_range(s),
                -(UNIT as int) <= cos_a <= UNIT as int,
                -(UNIT as int) <= sin_a <= UNIT as int,
                0 <= i <= n,
                forall|k: int| 0 <= k < s.len() ==> ({
                    let v = #[trigger] s[k];
                    -COORD_LIMIT <= (cos_a * v.x - sin_a * v.y) / (UNIT as int) <= COORD_LIMIT
                        && -COORD_LIMIT <= (sin_a * v.x + cos_a * v.y) / (UNIT as int)
                            <= COORD_LIMIT
                }),
                turned@.len() == i,
                forall|k: int| 0 <= k < i ==> turned@[k]
                    == rotate_pt(#[trigger] s[k], cos_a as int, sin_a as int),
            decreases n - i,
        {
            let v = self.vertices[i];
            proof {
                assert(
                    -2_000_000_000_000_000_000 <= (cos_a as int) * (v.x as int)
                        <= 2_000_000_000_000_000_000
                    && -2_000_000_000_000_000_000 <= (sin_a as int) * (v.y as int)
                        <= 2_000_000_000_000_000_000
                    && -2_000_000_000_000_000_000 <= (sin_a as int) * (v.x as int)
                        <= 2_000_000_000_000_000_000
                    && -2_000_000_000_000_000_000 <= (cos_a as int) * (v.y as int)
                        <= 2_000_000_000_000_000_000
                ) by (nonlinear_arith)
                    requires
                        -1_000_000_000_000 <= v.x <= 1_000_000_000_000,
                        -1_000_000_000_000 <= v.y <= 1_000_000_000_000,
                        -1_000_000 <= cos_a <= 1_000_000,
                        -1_000_000 <= sin_a <= 1_000_000,
                ;
            }
            let rx = (cos_a as i128) * (v.x as i128) - (sin_a as i128) * (v.y as i128);
            let ry = (sin_a as i128) * (v.x as i128) + (cos_a as i128) * (v.y as i128);
            let qx = div_euclid_i128(rx, UNIT as i128);
            let qy = div_euclid_i128(ry, UNIT as i128);
            turned.push(Vec2i::new(qx as i64, qy as i64));
            i = i + 1;
        }
        self.vertices = turned;
        proof {
            assert forall|k: int| 0 <= k < self.vertices@.len() implies in_coord_range(
                #[trigger] self.vertices@[k],
            ) by {
                assert(self.vertices@[k] == rotate_pt(s[k], cos_a as int, sin_a as int));
            }
        }
        self.reset();
    }

    /// Arithmetic mean of all vertices (floor per coordinate).
    pub fn center_of_mass(&self) -> (r: Vec2i)
        requires
            self.wf(),
            self.vertices@.len() >= 1,
        ensures
            r.x == sum_x(self.vertices@, 0) / (self.vertices@.len() as int),
            r.y == sum_y(self.vertices@, 0) / (self.vertices@.len() as int),
    {
        let ghost s = self.vertices@;
        let n = self.vertices.len();
        let mut ax: i64 = 0;
        let mut ay: i64 = 0;
        let mut i: usize = 0;
        proof {
            lemma_sum_bounds(s, 0);
        }
        while i < n
            invariant
                s == self.vertices@,
                n == s.len() <= MAX_VERTICES,
                vertices_in_range(s),
                0 <= i <= n,
                ax + sum_x(s, i as int) == sum_x(s, 0),
                ay + sum_y(s, i as int) == sum_y(s, 0),
                -(i as int) * (COORD_LIMIT as int) <= ax <= (i as int) * (COORD_LIMIT as int),
                -(i as int) * (COORD_LIMIT as int) <= ay <= (i as int) * (COORD_LIMIT as int),
            decreases n - i,
        {
            proof {
                lemma_sum_bounds(s, i + 1);
            }
            let v = self.vertices[i];
            ax = ax + v.x;
            ay = ay + v.y;
            i = i + 1;
        }
        let qx = div_euclid_i128(ax as i128, n as i128);
        let qy = div_euclid_i128(ay as i128, n as i128);
        proof {
            lemma_mean_in_range(ax as int, n as int);
            lemma_mean_in_range(ay as int, n as int);
        }
        Vec2i::new(qx as i64, qy as i64)
    }

    /// True when `pos` lies within one linear unit of some edge segment,
    /// by the triangle-inequality slack rule of `is_between`.
    pub fn contains(&self, pos: Vec2i) -> (r: bool)
        requires
            self.wf(),
            in_pos_range(pos),
        ensures
            r == contains_spec(self.vertices@, pos),
    {
        let ghost s = self.vertices@;
        let n = self.vertices.len();
        let mut i: usize = 0;
        while i < n
            invariant
                s == self.vertices@,
                n == s.len(),
                vertices_in_range(s),
                in_pos_range(pos),
                0 <= i <= n,
                forall|k: int| 0 <= k < i ==> !is_between_spec(
                    #[trigger] s[k],
                    s[next_idx(n as int, k)],
                    pos,
                ),
            decreases n - i,
        {
            let j: usize = if i + 1 == n { 0 } else { i + 1 };
            let a = self.vertices[i];
            let b = self.vertices[j];
            if is_between(a, b, pos) {
                proof {
                    assert(is_between_spec(s[i as int], s[next_idx(n as int, i as int)], pos));
                }
                return true;
            }
            i = i + 1;
        }
        false
    }

    /// All closed edges `(vertex, next vertex)` in traversal order.
    pub fn edges(&self) -> (r: Vec<(Vec2i, Vec2i)>)
        requires
            self.wf(),
        ensures
            r@.len() == self.vertices@.len(),
            forall|k: int| 0 <= k < self.vertices@.len() ==> r@[k] == (
                #[trigger] self.vertices@[k],
                self.vertices@[next_idx(self.vertices@.len() as int, k)],
            ),
    {
        let ghost s = self.vertices@;
        let n = self.vertices.len();
        let mut r: Vec<(Vec2i, Vec2i)> = Vec::new();
        let mut i: usize = 0;
        while i < n
            invariant
                s == self.vertices@,
                n == s.len(),
                0 <= i <= n,
                r@.len() == i,
                forall|k: int| 0 <= k < i ==> r@[k] == (
                    #[trigger] s[k],
                    s[next_idx(n as int, k)],
                ),
            decreases n - i,
        {
            let j: usize = if i + 1 == n { 0 } else { i + 1 };
            let a = self.vertices[i];
            let b = self.vertices[j];
            r.push((a, b));
            i = i + 1;
        }
        r
    }

    /// Unit direction of each edge in traversal order, in sub-units
    /// (a zero vector for a degenerate zero-length edge).
    #[verifier::rlimit(50)]
    pub fn directions(&self) -> (r: Vec<Vec2i>)
        requires
            self.wf(),
        ensures
            r@.len() == self.vertices@.len(),
            forall|k: int| 0 <= k < self.vertices@.len() ==> r@[k] == dir_spec(
                #[trigger] self.vertices@[k],
                self.vertices@[next_idx(self.vertices@.len() as int, k)],
            ),
    {
        let ghost s = self.vertices@;
        let n = self.vertices.len();
        let mut r: Vec<Vec2i> = Vec::new();
        let mut i: usize = 0;
        while i < n
            invariant
                s == self.vertices@,
                n == s.len(),
                vertices_in_range(s),
                0 <= i <= n,
                r@.len() == i,
                forall|k: int| 0 <= k < i ==> r@[k] == dir_spec(
                    #[trigger] s[k],
                    s[next_idx(n as int, k)],
                ),
            decreases n - i,
        {
            let j: usize = if i + 1 == n { 0 } else { i + 1 };
            let a = self.vertices[i];
            let b = self.vertices[j];
            let l = dist(a, b);
            if l == 0 {
                r.push(Vec2i::new(0, 0));
            } else {
                proof {
                    lemma_component_le_seg(a, b);
                    lemma_mul_div_bounds(((b.x - a.x) as int), UNIT as int, l as int);
                    lemma_mul_div_bounds(((b.y - a.y) as int), UNIT as int, l as int);
                }
                let qx = div_euclid_i128(((b.x as i128) - (a.x as i128)) * (UNIT as i128), l as i128);
                let qy = div_euclid_i128(((b.y as i128) - (a.y as i128)) * (UNIT as i128), l as i128);
                r.push(Vec2i::new(qx as i64, qy as i64));
            }
            i = i + 1;
        }
        r
    }

    /// Vector from the closest vertex (first of the minima, in vertex order)
    /// toward `pos`; `pos` itself when the path has no vertices.
    pub fn move_approx(&self, pos: Vec2i) -> (r: Vec2i)
        requires
            self.wf(),
            in_pos_range(pos),
        ensures
            self.vertices@.len() == 0 ==> r == pos,
            self.vertices@.len() >= 1 ==> ({
                let b = self.vertices@[closest_idx(self.vertices@, pos)];
                r == (Vec2i { x: (pos.x - b.x) as i64, y: (pos.y - b.y) as i64 })
            }),
    {
        let ghost s = self.vertices@;
        let n = self.vertices.len();
        if n == 0 {
            return pos;
        }
        let mut best: usize = 0;
        let mut bd: i64 = dist(self.vertices[0], pos);
        let mut i: usize = 1;
        while i < n
            invariant
                s == self.vertices@,
                n == s.len(),
                vertices_in_range(s),
                in_pos_range(pos),
                1 <= i <= n,
                0 <= best < n,
                bd == dist_spec(s[best as int], pos),
                closest_idx_from(s, pos, i as int, best as int) == closest_idx(s, pos),
            decreases n - i,
        {
            let d = dist(self.vertices[i], pos);
            if d < bd {
                best = i;
                bd = d;
            }
            i = i + 1;
        }
        let bv = self.vertices[best];
        Vec2i::new(pos.x - bv.x, pos.y - bv.y)
    }
}

/// Vertex shifted by `t` (coordinates assumed in range).
pub open spec fn translate_pt(v: Vec2i, t: Vec2i) -> Vec2i {
    Vec2i { x: (v.x + t.x) as i64, y: (v.y + t.y) as i64 }
}

/// Vertex scaled about the origin by `f` sub-units per unit.
pub open spec fn scale_pt(v: Vec2i, f: int) -> Vec2i {
    Vec2i { x: (v.x * f / (UNIT as int)) as i64, y: (v.y * f / (UNIT as int)) as i64 }
}

/// Vertex rotated about the origin by the rotation with cosine `c` and sine
/// `s` in sub-units.
pub open spec fn rotate_pt(v: Vec2i, c: int, s: int) -> Vec2i {
    Vec2i {
        x: ((c * v.x - s * v.y) / (UNIT as int)) as i64,
        y: ((s * v.x + c * v.y) / (UNIT as int)) as i64,
    }
}

/// Unit direction (in sub-units) of the edge from `a` to `b`.
pub open spec fn dir_spec(a: Vec2i, b: Vec2i) -> Vec2i {
    let l = seg_len(a, b);
    if l == 0 {
        Vec2i { x: 0, y: 0 }
    } else {
        Vec2i {
            x: ((b.x - a.x) * (UNIT as int) / l) as i64,
            y: ((b.y - a.y) * (UNIT as int) / l) as i64,
        }
    }
}

/// Approximate point-on-segment test for segment `a`-`b` and query point
/// `c`: true when `c` is within one unit of an endpoint, or the triangle
/// inequality is slack by at most one unit.
pub open spec fn is_between_spec(a: Vec2i, b: Vec2i, c: Vec2i) -> bool {
    ||| dist_spec(a, c) <= UNIT as int
    ||| dist_spec(c, b) <= UNIT as int
    ||| -(UNIT as int) <= dist_spec(a, c) + dist_spec(c, b) - dist_spec(a, b) <= UNIT as int
}

/// `pos` is within the unit tolerance of some closed edge of `s`.
pub open spec fn contains_spec(s: Seq<Vec2i>, pos: Vec2i) -> bool {
    exists|i: int| 0 <= i < s.len() && is_between_spec(
        #[trigger] s[i],
        s[next_idx(s.len() as int, i)],
        pos,
    )
}

/// Sum of the x coordinates of `s` from index `i` on.
pub open spec fn sum_x(s: Seq<Vec2i>, i: int) -> int
    decreases s.len() - i,
{
    if i < 0 || i >= s.len() {
        0
    } else {
        s[i].x + sum_x(s, i + 1)
    }
}

/// Sum of the y coordinates of `s` from index `i` on.
pub open spec fn sum_y(s: Seq<Vec2i>, i: int) -> int
    decreases s.len() - i,
{
    if i < 0 || i >= s.len() {
        0
    } else {
        s[i].y + sum_y(s, i + 1)
    }
}

/// Index of the vertex of `s` closest to `p`, scanning from `i` with current
/// best index `best` (strictly closer vertices replace the best, so ties
/// keep the earliest).
pub open spec fn closest_idx_from(s: Seq<Vec2i>, p: Vec2i, i: int, best: int) -> int
    decreases s.len() - i,
{
    if i < 0 || i >= s.len() {
        best
    } else if dist_spec(s[i], p) < dist_spec(s[best], p) {
        closest_idx_from(s, p, i + 1, i)
    } else {
        closest_idx_from(s, p, i + 1, best)
    }
}

/// Index of the vertex of `s` closest to `p` (earliest among ties).
pub open spec fn closest_idx(s: Seq<Vec2i>, p: Vec2i) -> int {
    closest_idx_from(s, p, 1, 0)
}

/// Coordinate sums are bounded by the vertex count times the range limit.
pub proof fn lemma_sum_bounds(s: Seq<Vec2i>, i: int)
    requires
        0 <= i <= s.len(),
        vertices_in_range(s),
    ensures
        -(s.len() - i) * (COORD_LIMIT as int) <= sum_x(s, i) <= (s.len() - i) * (COORD_LIMIT as int),
        -(s.len() - i) * (COORD_LIMIT as int) <= sum_y(s, i) <= (s.len() - i) * (COORD_LIMIT as int),
    decreases s.len() - i,
{
    if i < s.len() {
        lemma_sum_bounds(s, i + 1);
    }
}

/// The floor mean of a sum of `n` in-range coordinates is in range.
pub proof fn lemma_mean_in_range(sum: int, n: int)
    requires
        n >= 1,
        -n * (COORD_LIMIT as int) <= sum <= n * (COORD_LIMIT as int),
    ensures
        -(COORD_LIMIT as int) <= sum / n <= COORD_LIMIT as int,
{
    let q = sum / n;
    let r = sum % n;
    vstd::arithmetic::div_mod::lemma_fundamental_div_mod(sum, n);
    assert(-(COORD_LIMIT as int) <= q <= COORD_LIMIT as int) by (nonlinear_arith)
        requires
            sum == n * q + r,
            0 <= r < n,
            n >= 1,
            -n * 1_000_000_000_000 <= sum <= n * 1_000_000_000_000,
            COORD_LIMIT == 1_000_000_000_000i64,
    ;
}

/// The approximate point-on-segment test of `is_between_spec`, executable.
pub fn is_between(a: Vec2i, b: Vec2i, c: Vec2i) -> (r: bool)
    requires
        in_pos_range(a),
        in_pos_range(b),
        in_pos_range(c),
    ensures
        r == is_between_spec(a, b, c),
{
    let ac = dist(a, c);
    if ac <= UNIT {
        return true;
    }
    let bc = dist(c, b);
    if bc <= UNIT {
        return true;
    }
    let d = ac + bc - dist(a, b);
    (-UNIT <= d) && (d <= UNIT)
}

/// Law: translating a path by some offset and then by the opposite offset
/// restores the original path exactly (vertices, perimeter, cursor and
/// position), provided both shifts stay within the coordinate range.
pub proof fn lemma_translate_round_trip(p0: PolyPath, p1: PolyPath, p2: PolyPath, t: Vec2i, u: Vec2i)
    requires
        p0.wf(),
        p1.wf(),
        p2.wf(),
        t.x + u.x == 0,
        t.y + u.y == 0,
        forall|k: int| 0 <= k < p0.vertices@.len() ==> ({
            let v = #[trigger] p0.vertices@[k];
            -COORD_LIMIT <= v.x + t.x <= COORD_LIMIT && -COORD_LIMIT <= v.y + t.y <= COORD_LIMIT
        }),
        p1.vertices@.len() == p0.vertices@.len(),
        forall|k: int| 0 <= k < p0.vertices@.len() ==> p1.vertices@[k] == translate_pt(
            #[trigger] p0.vertices@[k],
            t,
        ),
        p1.total_length == p0.total_length,
        p1.distance == p0.distance,
        p2.vertices@.len() == p1.vertices@.len(),
        forall|k: int| 0 <= k < p1.vertices@.len() ==> p2.vertices@[k] == translate_pt(
            #[trigger] p1.vertices@[k],
            u,
        ),
        p2.total_length == p1.total_length,
        p2.distance == p1.distance,
    ensures
        p2.vertices@ =~= p0.vertices@,
        p2.total_length == p0.total_length,
        p2.distance == p0.distance,
        p2.pos == p0.pos,
{
    assert forall|k: int| 0 <= k < p0.vertices@.len() implies p2.vertices@[k]
        == #[trigger] p0.vertices@[k] by {
        let v = p0.vertices@[k];
        assert(p1.vertices@[k] == translate_pt(v, t));
        assert(p2.vertices@[k] == translate_pt(translate_pt(v, t), u));
    }
    assert(p2.vertices@ =~= p0.vertices@);
    lemma_tail_len_bounds(p0.vertices@, 0);
    if p0.total_length > 0 {
        assert(p0.pos == walk(p0.vertices@, p0.distance as int));
        assert(p2.pos == walk(p2.vertices@, p2.distance as int));
    } else if p0.vertices@.len() >= 1 {
        assert(p0.pos == p0.vertices@[0]);
        assert(p2.pos == p2.vertices@[0]);
    } else {
        assert(p0.pos == (Vec2i { x: 0, y: 0 }));
        assert(p2.pos == (Vec2i { x: 0, y: 0 }));
    }
}

/// Translation preserves every edge length, hence the whole perimeter.
pub proof fn lemma_tail_translate(s: Seq<Vec2i>, m: Seq<Vec2i>, t: Vec2i, i: int)
    requires
        0 <= i <= s.len(),
        m.len() == s.len(),
        vertices_in_range(s),
        forall|k: int| 0 <= k < s.len() ==> ({
            let v = #[trigger] s[k];
            -COORD_LIMIT <= v.x + t.x <= COORD_LIMIT && -COORD_LIMIT <= v.y + t.y <= COORD_LIMIT
        }),
        forall|k: int| 0 <= k < s.len() ==> m[k] == translate_pt(#[trigger] s[k], t),
    ensures
        tail_len(m, i) == tail_len(s, i),
    decreases s.len() - i,
{
    if i < s.len() {
        let j = next_idx(s.len() as int, i);
        assert(m[i] == translate_pt(s[i], t));
        assert(m[j] == translate_pt(s[j], t));
        assert(dist_sq(m[i], m[j]) == dist_sq(s[i], s[j]));
        lemma_tail_translate(s, m, t, i + 1);
    }
}

} // verus!
