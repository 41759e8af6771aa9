//! Proximity between a composite shape and any other shape.
//!
//! A composite shape is a spatially partitioned collection of sub-shapes,
//! indexed by a bounding-volume tree. The dispatcher answers the binary
//! proximity query — disjoint, within the margin, or intersecting — by a
//! best-first branch-and-bound search over that tree: a subtree is pruned
//! whenever the Minkowski-sum-style expansion of its bounding volume
//! against the other shape's bounding volume lies farther from the origin
//! than the query margin (a sound lower bound on every pair the subtree
//! can produce), and the exact pairwise test runs only on the leaves that
//! survive pruning. Finding an intersecting leaf short-circuits the rest
//! of the search.
//!
//! Everything is computed on squared distances, which the total order of
//! the costs and the comparison against the margin only ever need.

use vstd::prelude::*;
use crate::vec2::{Vec2, vsub, vbounded, COORD_LIMIT, lemma_mul_bound, lemma_square_monotone};
use crate::placement::Placement;

verus! {

/// The answer of a proximity query.
#[derive(Clone, Copy, PartialEq, Eq, Structural, Debug)]
pub enum Proximity {
    /// The shapes are separated by a distance greater than the margin.
    Disjoint,
    /// The shapes are separated by a positive distance no greater than the
    /// margin.
    WithinMargin,
    /// The shapes overlap or touch.
    Intersecting,
}

/// Severity of a proximity answer: an intersection dominates a
/// within-margin contact, which dominates disjointness.
pub open spec fn prox_sev(p: Proximity) -> int {
    match p {
        Proximity::Disjoint => 0,
        Proximity::WithinMargin => 1,
        Proximity::Intersecting => 2,
    }
}

/// The more severe of two proximity answers.
pub open spec fn prox_max(a: Proximity, b: Proximity) -> Proximity {
    if prox_sev(a) >= prox_sev(b) {
        a
    } else {
        b
    }
}

/// An axis-aligned bounding box, given by its two extremal corners.
#[derive(Clone, Copy, PartialEq, Eq, Structural, Debug)]
pub struct Aabb {
    /// The corner with the smallest coordinates.
    pub mins: Vec2,
    /// The corner with the largest coordinates.
    pub maxs: Vec2,
}

impl Aabb {
    /// The corners are ordered and every coordinate lies within
    /// [`COORD_LIMIT`].
    pub open spec fn wf(&self) -> bool {
        &&& vbounded(self.mins@, COORD_LIMIT as int)
        &&& vbounded(self.maxs@, COORD_LIMIT as int)
        &&& self.mins.x <= self.maxs.x
        &&& self.mins.y <= self.maxs.y
    }

    /// `self` contains `other`.
    pub open spec fn contains_box(&self, other: Aabb) -> bool {
        &&& self.mins.x <= other.mins.x
        &&& self.mins.y <= other.mins.y
        &&& other.maxs.x <= self.maxs.x
        &&& other.maxs.y <= self.maxs.y
    }

    /// Builds a box from its two corners.
    pub fn new(mins: Vec2, maxs: Vec2) -> (r: Aabb)
        ensures
            r.mins == mins,
            r.maxs == maxs,
    {
        Aabb { mins, maxs }
    }
}

/// The separation between the intervals `[amin, amax]` and `[bmin, bmax]`:
/// zero when they overlap or touch, their distance otherwise.
pub open spec fn gap(amin: int, amax: int, bmin: int, bmax: int) -> int {
    let g = if bmin - amax >= amin - bmax {
        bmin - amax
    } else {
        amin - bmax
    };
    if g >= 0 {
        g
    } else {
        0
    }
}

/// The squared euclidean distance between the boxes `a` shifted by `da` and
/// `b` shifted by `db`.
pub open spec fn box_sqdist(a: Aabb, da: (int, int), b: Aabb, db: (int, int)) -> int {
    let gx = gap(a.mins.x + da.0, a.maxs.x + da.0, b.mins.x + db.0, b.maxs.x + db.0);
    let gy = gap(a.mins.y + da.1, a.maxs.y + da.1, b.mins.y + db.1, b.maxs.y + db.1);
    gx * gx + gy * gy
}

/// The boxes `a` shifted by `da` and `b` shifted by `db` overlap or touch.
pub open spec fn boxes_touch(a: Aabb, da: (int, int), b: Aabb, db: (int, int)) -> bool {
    &&& gap(a.mins.x + da.0, a.maxs.x + da.0, b.mins.x + db.0, b.maxs.x + db.0) == 0
    &&& gap(a.mins.y + da.1, a.maxs.y + da.1, b.mins.y + db.1, b.maxs.y + db.1) == 0
}

/// The exact proximity of two placed boxes under a margin: intersecting
/// when they overlap or touch, within the margin when their distance is
/// positive but its square does not exceed the squared margin, disjoint
/// otherwise.
pub open spec fn box_prox(a: Aabb, da: (int, int), b: Aabb, db: (int, int), margin: int) -> Proximity {
    if boxes_touch(a, da, b, db) {
        Proximity::Intersecting
    } else if box_sqdist(a, da, b, db) <= margin * margin {
        Proximity::WithinMargin
    } else {
        Proximity::Disjoint
    }
}

/// The relative shift of the second placement with respect to the first:
/// the placement of the second shape seen from the first shape's local
/// frame.
pub open spec fn rel_shift(m1: Placement, m2: Placement) -> (int, int) {
    vsub(m2.translation@, m1.translation@)
}

/// The exact pairwise proximity primitive for two placed boxes. This is
/// the test the dispatcher runs on the composite leaves that survive
/// pruning.
pub fn box_box_proximity(m1: &Placement, g1: &Aabb, m2: &Placement, g2: &Aabb, margin: i64) -> (
    r: Proximity)
    requires
        m1.wf(),
        m2.wf(),
        g1.wf(),
        g2.wf(),
        0 <= margin <= COORD_LIMIT,
    ensures
        r == box_prox(*g1, (m1.translation@.0, m1.translation@.1), *g2, (m2.translation@.0,
            m2.translation@.1), margin as int),
{
    let a_min_x: i64 = g1.mins.x + m1.translation.x;
    let a_max_x: i64 = g1.maxs.x + m1.translation.x;
    let a_min_y: i64 = g1.mins.y + m1.translation.y;
    let a_max_y: i64 = g1.maxs.y + m1.translation.y;
    let b_min_x: i64 = g2.mins.x + m2.translation.x;
    let b_max_x: i64 = g2.maxs.x + m2.translation.x;
    let b_min_y: i64 = g2.mins.y + m2.translation.y;
    let b_max_y: i64 = g2.maxs.y + m2.translation.y;

    let gx: i64 = gap_exec(a_min_x, a_max_x, b_min_x, b_max_x);
    let gy: i64 = gap_exec(a_min_y, a_max_y, b_min_y, b_max_y);
    if gx == 0 && gy == 0 {
        Proximity::Intersecting
    } else {
        proof {
            lemma_mul_bound(gx as int, gx as int, 8 * COORD_LIMIT as int);
            lemma_mul_bound(gy as int, gy as int, 8 * COORD_LIMIT as int);
            lemma_mul_bound(margin as int, margin as int, COORD_LIMIT as int);
            assert((8 * COORD_LIMIT as int) * (8 * COORD_LIMIT as int) < 0x4000_0000_0000_0000)
                by (nonlinear_arith);
        }
        if gx * gx + gy * gy <= margin * margin {
            Proximity::WithinMargin
        } else {
            Proximity::Disjoint
        }
    }
}

/// The separation of two intervals, as executable code.
fn gap_exec(amin: i64, amax: i64, bmin: i64, bmax: i64) -> (r: i64)
    requires
        -8 * COORD_LIMIT <= amin <= 8 * COORD_LIMIT,
        -8 * COORD_LIMIT <= amax <= 8 * COORD_LIMIT,
        -8 * COORD_LIMIT <= bmin <= 8 * COORD_LIMIT,
        -8 * COORD_LIMIT <= bmax <= 8 * COORD_LIMIT,
    ensures
        r == gap(amin as int, amax as int, bmin as int, bmax as int),
        0 <= r <= 16 * COORD_LIMIT,
{
    let g: i64 = if bmin - amax >= amin - bmax {
        bmin - amax
    } else {
        amin - bmax
    };
    if g >= 0 {
        g
    } else {
        0
    }
}

/// A bounding-volume tree over the parts of a composite shape: an internal
/// node carries the bounding volume of everything below it, a leaf carries
/// the bounding volume of one part and that part's index.
pub enum Bvt {
    /// A leaf: the bounding volume of the part at `index`.
    Leaf {
        /// The leaf's bounding volume.
        bv: Aabb,
        /// The index of the part this leaf stands for.
        index: usize,
    },
    /// An internal node bounding both subtrees.
    Node {
        /// The node's bounding volume.
        bv: Aabb,
        /// The first subtree.
        left: Box<Bvt>,
        /// The second subtree.
        right: Box<Bvt>,
    },
}

/// The bounding volume at the root of `t`.
pub open spec fn bvt_bv(t: Bvt) -> Aabb {
    match t {
        Bvt::Leaf { bv, .. } => bv,
        Bvt::Node { bv, .. } => bv,
    }
}

/// Well-formedness of a tree over `parts`: every bounding volume is a
/// well-formed box containing the bounding volumes below it, and every
/// leaf index denotes a part whose box the leaf's volume contains.
pub open spec fn bvt_wf(t: Bvt, parts: Seq<Aabb>) -> bool
    decreases t,
{
    match t {
        Bvt::Leaf { bv, index } => {
            &&& bv.wf()
            &&& index < parts.len()
            &&& bv.contains_box(parts[index as int])
        },
        Bvt::Node { bv, left, right } => {
            &&& bv.wf()
            &&& bvt_wf(*left, parts)
            &&& bvt_wf(*right, parts)
            &&& bv.contains_box(bvt_bv(*left))
            &&& bv.contains_box(bvt_bv(*right))
        },
    }
}

/// The number of nodes of `t`.
pub open spec fn bvt_size(t: Bvt) -> nat
    decreases t,
{
    match t {
        Bvt::Leaf { .. } => 1,
        Bvt::Node { left, right, .. } => 1 + bvt_size(*left) + bvt_size(*right),
    }
}

/// `t` has a leaf for part index `i`.
pub open spec fn contains_leaf(t: Bvt, i: int) -> bool
    decreases t,
{
    match t {
        Bvt::Leaf { index, .. } => index == i,
        Bvt::Node { left, right, .. } => contains_leaf(*left, i) || contains_leaf(*right, i),
    }
}

/// `sub` is a subtree of `t`.
pub open spec fn in_tree(t: Bvt, sub: Bvt) -> bool
    decreases t,
{
    t == sub || match t {
        Bvt::Leaf { .. } => false,
        Bvt::Node { left, right, .. } => in_tree(*left, sub) || in_tree(*right, sub),
    }
}

/// `t` has a leaf for part index `i` whose own bounding volume lies within
/// the margin of the other shape's local-frame box `other` shifted by
/// `dt` — a leaf the bounding-volume pruning rule does not discard.
pub open spec fn unpruned_leaf(t: Bvt, other: Aabb, dt: (int, int), margin: int, i: int) -> bool
    decreases t,
{
    match t {
        Bvt::Leaf { bv, index } => index == i && box_sqdist(bv, (0, 0), other, dt) <= margin
            * margin,
        Bvt::Node { left, right, .. } => unpruned_leaf(*left, other, dt, margin, i)
            || unpruned_leaf(*right, other, dt, margin, i),
    }
}

/// The combined proximity of every leaf of `t` against the other shape:
/// the most severe classification an exhaustive, non-pruned pairwise scan
/// of the tree's leaves would find. The parts and the tree live in the
/// composite shape's local frame; `dt` is the other shape's shift relative
/// to that frame.
pub open spec fn tree_prox(t: Bvt, parts: Seq<Aabb>, other: Aabb, dt: (int, int), margin: int)
    -> Proximity
    decreases t,
{
    match t {
        Bvt::Leaf { index, .. } => box_prox(parts[index as int], (0, 0), other, dt, margin),
        Bvt::Node { left, right, .. } => prox_max(
            tree_prox(*left, parts, other, dt, margin),
            tree_prox(*right, parts, other, dt, margin),
        ),
    }
}

/// A composite shape: its parts' boxes in its local frame, and a
/// bounding-volume tree indexing them. Building the tree is the concern of
/// whoever assembles the shape; the dispatcher only requires it to be well
/// formed.
pub struct CompositeShape {
    /// The sub-shapes, in the composite's local frame.
    pub parts: Vec<Aabb>,
    /// The bounding-volume tree over the parts.
    pub bvt: Bvt,
}

impl CompositeShape {
    /// Every part is a well-formed box and the tree is well formed over
    /// the parts.
    pub open spec fn wf(&self) -> bool {
        &&& bvt_wf(self.bvt, self.parts@)
        &&& forall|i: int| 0 <= i < self.parts@.len() ==> (#[trigger] self.parts@[i]).wf()
    }

    /// Builds a composite shape from its parts and their tree.
    pub fn new(parts: Vec<Aabb>, bvt: Bvt) -> (r: CompositeShape)
        ensures
            r.parts == parts,
            r.bvt == bvt,
    {
        CompositeShape { parts, bvt }
    }
}

impl Bvt {
    /// The bounding volume at the root of this subtree.
    pub fn bv(&self) -> (r: &Aabb)
        ensures
            *r == bvt_bv(*self),
    {
        match self {
            Bvt::Leaf { bv, .. } => bv,
            Bvt::Node { bv, .. } => bv,
        }
    }
}

/// The cost of an internal bounding volume `bv` of the composite's tree:
/// the squared distance from the origin to the Minkowski-sum-style
/// expansion of `bv` against the other shape's local-frame box `other_ls`
/// — a cheap lower bound on the squared distance between anything inside
/// `bv` and the other shape. Returns the cost when the branch is worth
/// keeping, and nothing when the bound already exceeds the margin and the
/// branch can be pruned.
pub fn compute_bv_cost(bv: &Aabb, other_ls: &Aabb, margin: i64) -> (r: Option<i64>)
    requires
        bv.wf(),
        vbounded(other_ls.mins@, 3 * COORD_LIMIT as int),
        vbounded(other_ls.maxs@, 3 * COORD_LIMIT as int),
        0 <= margin <= COORD_LIMIT,
    ensures
        (match r {
            Some(c) => c == box_sqdist(*bv, (0, 0), *other_ls, (0, 0)) && c <= margin * margin,
            None => box_sqdist(*bv, (0, 0), *other_ls, (0, 0)) > margin * margin,
        }),
{
    // The expansion of `bv` by the reflection of `other_ls`: the box of
    // all differences between a point of `bv` and a point of `other_ls`.
    let msum_min_x: i64 = bv.mins.x - other_ls.maxs.x;
    let msum_max_x: i64 = bv.maxs.x - other_ls.mins.x;
    let msum_min_y: i64 = bv.mins.y - other_ls.maxs.y;
    let msum_max_y: i64 = bv.maxs.y - other_ls.mins.y;

    // The distance from the origin to the expansion equals the distance
    // between the two boxes, axis by axis.
    let gx: i64 = gap_exec(0, 0, msum_min_x, msum_max_x);
    let gy: i64 = gap_exec(0, 0, msum_min_y, msum_max_y);
    proof {
        lemma_mul_bound(gx as int, gx as int, 16 * COORD_LIMIT as int);
        lemma_mul_bound(gy as int, gy as int, 16 * COORD_LIMIT as int);
        lemma_mul_bound(margin as int, margin as int, COORD_LIMIT as int);
        assert((16 * COORD_LIMIT as int) * (16 * COORD_LIMIT as int) < 0x4000_0000_0000_0000)
            by (nonlinear_arith);
    }
    let distance: i64 = gx * gx + gy * gy;
    if distance <= margin * margin {
        Some(distance)
    } else {
        None
    }
}

/// The combined proximity of the subtrees in a worklist: the most severe
/// classification over every leaf below any of them.
pub open spec fn seq_prox(s: Seq<Bvt>, parts: Seq<Aabb>, other: Aabb, dt: (int, int), margin: int)
    -> Proximity
    decreases s.len(),
{
    if s.len() == 0 {
        Proximity::Disjoint
    } else {
        prox_max(
            seq_prox(s.drop_last(), parts, other, dt, margin),
            tree_prox(s.last(), parts, other, dt, margin),
        )
    }
}

/// The total number of nodes of the subtrees in a worklist.
pub open spec fn seq_size(s: Seq<Bvt>) -> nat
    decreases s.len(),
{
    if s.len() == 0 {
        0
    } else {
        seq_size(s.drop_last()) + bvt_size(s.last())
    }
}

/// Taking the more severe of two answers is commutative, and gathering
/// three answers does not depend on the order.
proof fn lemma_prox_max_algebra(x: Proximity, y: Proximity, z: Proximity)
    ensures
        prox_max(x, y) == prox_max(y, x),
        prox_max(prox_max(x, y), z) == prox_max(prox_max(x, z), y),
{
}

/// Removing the entry at `i` from a worklist splits its combined proximity
/// and its total size between the remainder and the removed subtree.
proof fn lemma_seq_remove(
    s: Seq<Bvt>,
    i: int,
    parts: Seq<Aabb>,
    other: Aabb,
    dt: (int, int),
    margin: int,
)
    requires
        0 <= i < s.len(),
    ensures
        seq_prox(s, parts, other, dt, margin) == prox_max(
            seq_prox(s.remove(i), parts, other, dt, margin),
            tree_prox(s[i], parts, other, dt, margin),
        ),
        seq_size(s.remove(i)) + bvt_size(s[i]) == seq_size(s),
    decreases s.len(),
{
    if i == s.len() - 1 {
        assert(s.remove(i) =~= s.drop_last());
    } else {
        let s2 = s.drop_last();
        lemma_seq_remove(s2, i, parts, other, dt, margin);
        assert(s.remove(i).drop_last() =~= s2.remove(i));
        assert(s.remove(i).last() == s.last());
        lemma_prox_max_algebra(
            seq_prox(s2.remove(i), parts, other, dt, margin),
            tree_prox(s[i], parts, other, dt, margin),
            tree_prox(s.last(), parts, other, dt, margin),
        );
    }
}

/// Pushing a subtree onto a worklist joins its proximity into the combined
/// answer and its node count into the total size.
proof fn lemma_seq_push(
    s: Seq<Bvt>,
    x: Bvt,
    parts: Seq<Aabb>,
    other: Aabb,
    dt: (int, int),
    margin: int,
)
    ensures
        seq_prox(s.push(x), parts, other, dt, margin) == prox_max(
            seq_prox(s, parts, other, dt, margin),
            tree_prox(x, parts, other, dt, margin),
        ),
        seq_size(s.push(x)) == seq_size(s) + bvt_size(x),
{
    assert(s.push(x).drop_last() =~= s);
    assert(s.push(x).last() == x);
}

/// Shrinking a box can only move it farther from another box.
proof fn lemma_sqdist_monotone(inner: Aabb, outer: Aabb, other: Aabb, dt: (int, int))
    requires
        outer.contains_box(inner),
    ensures
        box_sqdist(inner, (0, 0), other, dt) >= box_sqdist(outer, (0, 0), other, dt),
{
    let gi_x = gap(inner.mins.x as int, inner.maxs.x as int, other.mins.x + dt.0, other.maxs.x
        + dt.0);
    let go_x = gap(outer.mins.x as int, outer.maxs.x as int, other.mins.x + dt.0, other.maxs.x
        + dt.0);
    let gi_y = gap(inner.mins.y as int, inner.maxs.y as int, other.mins.y + dt.1, other.maxs.y
        + dt.1);
    let go_y = gap(outer.mins.y as int, outer.maxs.y as int, other.mins.y + dt.1, other.maxs.y
        + dt.1);
    assert(0 <= go_x <= gi_x);
    assert(0 <= go_y <= gi_y);
    lemma_square_monotone(go_x, gi_x);
    lemma_square_monotone(go_y, gi_y);
}

/// Soundness of the bounding-volume pruning rule: when the bounding volume
/// at the root of a well-formed subtree already lies farther from the
/// other shape's box than the margin, every leaf below it is disjoint from
/// the other shape, so the whole subtree classifies as disjoint and may be
/// discarded without being searched.
pub proof fn lemma_prune_sound(t: Bvt, parts: Seq<Aabb>, other: Aabb, dt: (int, int), margin: int)
    requires
        bvt_wf(t, parts),
        0 <= margin,
        box_sqdist(bvt_bv(t), (0, 0), other, dt) > margin * margin,
    ensures
        tree_prox(t, parts, other, dt, margin) == Proximity::Disjoint,
    decreases t,
{
    match t {
        Bvt::Leaf { bv, index } => {
            let part = parts[index as int];
            lemma_sqdist_monotone(part, bv, other, dt);
            lemma_square_monotone(0, margin);
            assert(!boxes_touch(part, (0, 0), other, dt));
        },
        Bvt::Node { bv, left, right } => {
            lemma_sqdist_monotone(bvt_bv(*left), bv, other, dt);
            lemma_sqdist_monotone(bvt_bv(*right), bv, other, dt);
            lemma_prune_sound(*left, parts, other, dt, margin);
            lemma_prune_sound(*right, parts, other, dt, margin);
        },
    }
}

/// A subtree of a well-formed tree whose own bounding volume survives the
/// pruning rule and is a leaf, is an unpruned leaf of the whole tree.
proof fn lemma_unpruned_leaf(t: Bvt, sub: Bvt, other: Aabb, dt: (int, int), margin: int, i: int)
    requires
        in_tree(t, sub),
        sub is Leaf,
        sub->Leaf_index == i,
        box_sqdist(bvt_bv(sub), (0, 0), other, dt) <= margin * margin,
    ensures
        unpruned_leaf(t, other, dt, margin, i),
    decreases t,
{
    if t == sub {
    } else {
        match t {
            Bvt::Leaf { .. } => {},
            Bvt::Node { left, right, .. } => {
                if in_tree(*left, sub) {
                    lemma_unpruned_leaf(*left, sub, other, dt, margin, i);
                } else {
                    lemma_unpruned_leaf(*right, sub, other, dt, margin, i);
                }
            },
        }
    }
}

/// The exhaustive classification is never less severe than any one leaf's:
/// if some leaf of the tree is within the margin or intersecting, the tree
/// does not classify as disjoint, and an intersecting leaf forces the
/// whole tree to classify as intersecting.
pub proof fn lemma_leaf_dominates(
    t: Bvt,
    parts: Seq<Aabb>,
    other: Aabb,
    dt: (int, int),
    margin: int,
    i: int,
)
    requires
        contains_leaf(t, i),
    ensures
        prox_sev(tree_prox(t, parts, other, dt, margin)) >= prox_sev(box_prox(parts[i], (0, 0),
            other, dt, margin)),
    decreases t,
{
    match t {
        Bvt::Leaf { .. } => {},
        Bvt::Node { left, right, .. } => {
            if contains_leaf(*left, i) {
                lemma_leaf_dominates(*left, parts, other, dt, margin, i);
            } else {
                lemma_leaf_dominates(*right, parts, other, dt, margin, i);
            }
        },
    }
}

/// The cost of a leaf standing for the part `part` of the composite: runs
/// the exact pairwise test against the other shape and maps its answer to
/// a search outcome. A disjoint part yields no candidate; a part within
/// the margin is retained as a candidate at the margin's cost; an
/// intersecting part is a candidate at cost zero, the least possible, and
/// ends the search.
pub fn compute_b_cost(m1: &Placement, part: &Aabb, m2: &Placement, g2: &Aabb, margin: i64) -> (r:
    Option<(i64, Proximity)>)
    requires
        m1.wf(),
        m2.wf(),
        part.wf(),
        g2.wf(),
        0 <= margin <= COORD_LIMIT,
    ensures
        (match box_prox(*part, (m1.translation@.0, m1.translation@.1), *g2, (m2.translation@.0,
            m2.translation@.1), margin as int) {
            Proximity::Disjoint => r is None,
            Proximity::WithinMargin => r == Some((margin, Proximity::WithinMargin)),
            Proximity::Intersecting => r == Some((0i64, Proximity::Intersecting)),
        }),
{
    match box_box_proximity(m1, part, m2, g2, margin) {
        Proximity::Disjoint => None,
        Proximity::WithinMargin => Some((margin, Proximity::WithinMargin)),
        Proximity::Intersecting => Some((0, Proximity::Intersecting)),
    }
}

/// Proximity between a composite shape and any other shape, reporting in
/// addition the indices of the parts on which the exact pairwise test ran.
/// Every reported index denotes a leaf that survived bounding-volume
/// pruning: a leaf whose subtree was pruned is never tested exactly.
pub fn composite_shape_against_any_with_visited(
    m1: &Placement,
    g1: &CompositeShape,
    m2: &Placement,
    g2: &Aabb,
    margin: i64,
) -> (r: (Proximity, Vec<usize>))
    requires
        m1.wf(),
        m2.wf(),
        g1.wf(),
        g2.wf(),
        0 <= margin <= COORD_LIMIT,
    ensures
        r.0 == tree_prox(g1.bvt, g1.parts@, *g2, rel_shift(*m1, *m2), margin as int),
        forall|j: int| 0 <= j < r.1@.len() ==> unpruned_leaf(g1.bvt, *g2, rel_shift(*m1, *m2),
            margin as int, #[trigger] r.1@[j] as int),
{
    let ghost dt = rel_shift(*m1, *m2);
    let ghost parts_s = g1.parts@;
    let ghost root = g1.bvt;
    let ghost sqm = (margin as int) * (margin as int);

    // The other shape's bounding box, transformed once into the composite
    // shape's local frame.
    let ls_m2 = m1.inverse().compose(m2);
    let ls_aabb2 = Aabb::new(
        g2.mins.add(&ls_m2.translation),
        g2.maxs.add(&ls_m2.translation),
    );

    let mut visited: Vec<usize> = Vec::new();
    let mut stack: Vec<(i64, &Bvt)> = Vec::new();
    let ghost mut gs = Seq::<Bvt>::empty();
    let mut found_within: bool = false;

    match compute_bv_cost(g1.bvt.bv(), &ls_aabb2, margin) {
        None => {
            proof {
                lemma_prune_sound(root, parts_s, *g2, dt, margin as int);
            }
            return (Proximity::Disjoint, visited);
        },
        Some(c) => {
            stack.push((c, &g1.bvt));
            proof {
                lemma_seq_push(gs, root, parts_s, *g2, dt, margin as int);
                gs = gs.push(root);
            }
        },
    }

    while stack.len() > 0
        invariant
            m1.wf(),
            m2.wf(),
            g1.wf(),
            g2.wf(),
            0 <= margin <= COORD_LIMIT,
            dt == rel_shift(*m1, *m2),
            parts_s == g1.parts@,
            root == g1.bvt,
            sqm == (margin as int) * (margin as int),
            ls_aabb2.mins@ == (g2.mins.x + dt.0, g2.mins.y + dt.1),
            ls_aabb2.maxs@ == (g2.maxs.x + dt.0, g2.maxs.y + dt.1),
            vbounded(ls_aabb2.mins@, 3 * COORD_LIMIT as int),
            vbounded(ls_aabb2.maxs@, 3 * COORD_LIMIT as int),
            stack@.len() == gs.len(),
            forall|i: int| 0 <= i < gs.len() ==> #[trigger] gs[i] == *stack@[i].1,
            forall|i: int| 0 <= i < gs.len() ==> bvt_wf(#[trigger] gs[i], parts_s),
            forall|i: int| 0 <= i < gs.len() ==> in_tree(root, #[trigger] gs[i]),
            forall|i: int| 0 <= i < gs.len() ==> box_sqdist(bvt_bv(#[trigger] gs[i]), (0, 0), *g2,
                dt) <= sqm,
            prox_max(
                if found_within {
                    Proximity::WithinMargin
                } else {
                    Proximity::Disjoint
                },
                seq_prox(gs, parts_s, *g2, dt, margin as int),
            ) == tree_prox(root, parts_s, *g2, dt, margin as int),
            forall|j: int| 0 <= j < visited@.len() ==> unpruned_leaf(root, *g2, dt, margin as int,
                #[trigger] visited@[j] as int),
        decreases seq_size(gs),
    {
        // Take the pending subtree of least cost.
        let mut best_i: usize = 0;
        let mut k: usize = 1;
        while k < stack.len()
            invariant
                stack@.len() > 0,
                best_i < stack@.len(),
                k <= stack@.len(),
            decreases stack@.len() - k,
        {
            if stack[k].0 < stack[best_i].0 {
                best_i = k;
            }
            k = k + 1;
        }

        let entry = stack.remove(best_i);
        let node: &Bvt = entry.1;
        let ghost cur = *node;
        proof {
            lemma_seq_remove(gs, best_i as int, parts_s, *g2, dt, margin as int);
            gs = gs.remove(best_i as int);
        }

        match node {
            Bvt::Leaf { bv: _bv, index } => {
                let idx: usize = *index;
                proof {
                    lemma_unpruned_leaf(root, cur, *g2, dt, margin as int, idx as int);
                }
                visited.push(idx);
                let part = g1.parts[idx];
                proof {
                    assert(box_prox(part, (m1.translation@.0, m1.translation@.1), *g2,
                        (m2.translation@.0, m2.translation@.1), margin as int) == box_prox(part,
                        (0, 0), *g2, dt, margin as int));
                    assert(tree_prox(cur, parts_s, *g2, dt, margin as int) == box_prox(part, (0,
                        0), *g2, dt, margin as int));
                }
                match compute_b_cost(m1, &part, m2, g2, margin) {
                    None => {},
                    Some((_cost, Proximity::WithinMargin)) => {
                        found_within = true;
                    },
                    Some((_cost, Proximity::Intersecting)) => {
                        return (Proximity::Intersecting, visited);
                    },
                    Some((_cost, Proximity::Disjoint)) => {
                        proof {
                            assert(false);
                        }
                    },
                }
            },
            Bvt::Node { bv: _bv, left, right } => {
                proof {
                    assert(in_tree(**left, **left));
                    assert(in_tree(**right, **right));
                    assert(in_tree(cur, **left));
                    assert(in_tree(cur, **right));
                    lemma_in_tree_trans(root, cur, **left);
                    lemma_in_tree_trans(root, cur, **right);
                    lemma_wf_bv(**left, parts_s);
                    lemma_wf_bv(**right, parts_s);
                }
                match compute_bv_cost(left.bv(), &ls_aabb2, margin) {
                    None => {
                        proof {
                            lemma_prune_sound(**left, parts_s, *g2, dt, margin as int);
                        }
                    },
                    Some(c) => {
                        stack.push((c, &**left));
                        proof {
                            lemma_seq_push(gs, **left, parts_s, *g2, dt, margin as int);
                            gs = gs.push(**left);
                        }
                    },
                }
                match compute_bv_cost(right.bv(), &ls_aabb2, margin) {
                    None => {
                        proof {
                            lemma_prune_sound(**right, parts_s, *g2, dt, margin as int);
                        }
                    },
                    Some(c) => {
                        stack.push((c, &**right));
                        proof {
                            lemma_seq_push(gs, **right, parts_s, *g2, dt, margin as int);
                            gs = gs.push(**right);
                        }
                    },
                }
                proof {
                    lemma_prox_max_algebra(
                        seq_prox(gs, parts_s, *g2, dt, margin as int),
                        tree_prox(**left, parts_s, *g2, dt, margin as int),
                        tree_prox(**right, parts_s, *g2, dt, margin as int),
                    );
                }
            },
        }
    }

    let result = if found_within {
        Proximity::WithinMargin
    } else {
        Proximity::Disjoint
    };
    (result, visited)
}

/// The bounding volume of a well-formed tree is a well-formed box.
proof fn lemma_wf_bv(t: Bvt, parts: Seq<Aabb>)
    requires
        bvt_wf(t, parts),
    ensures
        bvt_bv(t).wf(),
{
    match t {
        Bvt::Leaf { .. } => {},
        Bvt::Node { .. } => {},
    }
}

/// A subtree of a subtree of `t` is a subtree of `t`.
proof fn lemma_in_tree_trans(t: Bvt, sub: Bvt, sub2: Bvt)
    requires
        in_tree(t, sub),
        in_tree(sub, sub2),
    ensures
        in_tree(t, sub2),
    decreases t,
{
    if t == sub {
    } else {
        match t {
            Bvt::Leaf { .. } => {},
            Bvt::Node { left, right, .. } => {
                if in_tree(*left, sub) {
                    lemma_in_tree_trans(*left, sub, sub2);
                } else {
                    lemma_in_tree_trans(*right, sub, sub2);
                }
            },
        }
    }
}

/// Proximity between a composite shape (under placement `m1`) and any
/// other shape (under placement `m2`), within `margin`: exactly the most
/// severe classification an exhaustive pairwise scan of every part of the
/// composite against the other shape would find, with disjointness when
/// the search exhausts its queue without a surviving candidate.
pub fn composite_shape_against_any(
    m1: &Placement,
    g1: &CompositeShape,
    m2: &Placement,
    g2: &Aabb,
    margin: i64,
) -> (r: Proximity)
    requires
        m1.wf(),
        m2.wf(),
        g1.wf(),
        g2.wf(),
        0 <= margin <= COORD_LIMIT,
    ensures
        r == tree_prox(g1.bvt, g1.parts@, *g2, rel_shift(*m1, *m2), margin as int),
{
    let (r, _visited) = composite_shape_against_any_with_visited(m1, g1, m2, g2, margin);
    r
}

/// Proximity between any shape and a composite shape: the same query with
/// its two operands swapped, so the classification cannot depend on which
/// operand is structurally composite.
pub fn any_against_composite_shape(
    m1: &Placement,
    g1: &Aabb,
    m2: &Placement,
    g2: &CompositeShape,
    margin: i64,
) -> (r: Proximity)
    requires
        m1.wf(),
        m2.wf(),
        g1.wf(),
        g2.wf(),
        0 <= margin <= COORD_LIMIT,
    ensures
        r == tree_prox(g2.bvt, g2.parts@, *g1, rel_shift(*m2, *m1), margin as int),
{
    composite_shape_against_any(m2, g2, m1, g1, margin)
}

/// The exact proximity of two placed boxes does not depend on the operand
/// order.
pub proof fn lemma_box_prox_symmetric(a: Aabb, da: (int, int), b: Aabb, db: (int, int), margin: int)
    ensures
        box_prox(a, da, b, db, margin) == box_prox(b, db, a, da, margin),
{
}

/// No false negative: a tree holding a leaf whose part is within the
/// margin of the other shape, or intersecting it, never classifies as
/// disjoint. Together with [`lemma_prune_sound`] this is the soundness of
/// the whole branch-and-bound search: pruning discards only subtrees whose
/// every leaf is disjoint.
pub proof fn lemma_no_false_negative(
    t: Bvt,
    parts: Seq<Aabb>,
    other: Aabb,
    dt: (int, int),
    margin: int,
    i: int,
)
    requires
        contains_leaf(t, i),
        box_prox(parts[i], (0, 0), other, dt, margin) != Proximity::Disjoint,
    ensures
        tree_prox(t, parts, other, dt, margin) != Proximity::Disjoint,
{
    lemma_leaf_dominates(t, parts, other, dt, margin, i);
}

/// Short circuit: as soon as any leaf's part intersects the other shape,
/// the whole tree classifies as intersecting, whatever the other leaves
/// report.
pub proof fn lemma_short_circuit(
    t: Bvt,
    parts: Seq<Aabb>,
    other: Aabb,
    dt: (int, int),
    margin: int,
    i: int,
)
    requires
        contains_leaf(t, i),
        box_prox(parts[i], (0, 0), other, dt, margin) == Proximity::Intersecting,
    ensures
        tree_prox(t, parts, other, dt, margin) == Proximity::Intersecting,
{
    lemma_leaf_dominates(t, parts, other, dt, margin, i);
}

} // verus!
