//! The bounding-volume hierarchy: a binary tree of boxes over geometries.
//!
//! Traversal returns exactly what the brute-force fold over the tree's leaf
//! sequence returns ([`closest_hit_t`]): a node is pruned only when the slab
//! test refuses its box, and the slab test's completeness lemma shows no
//! accepted hit can hide behind a refused box.

use vstd::prelude::*;
use crate::aabb::{lemma_in_box_monotone, lemma_slab_complete, lemma_union_contains, slab_hit, Aabb};
use crate::fixed::{T_MAX, MAX_COORD, SCALE};
use crate::geometry::{closest_hit_t, lemma_closest_append, lemma_closest_none, lemma_closest_singleton,
    lemma_closest_in_range, lemma_hit_t_shape, Geometry};
use crate::hit::{record_spec, HitRecord};
use crate::ray::Ray;
use crate::vec3::Vec3;

verus! {

/// A tree of geometries: internal nodes carry the box of everything below.
#[derive(Debug)]
pub enum BvhTree {
    Empty,
    Leaf(Geometry),
    Node { bbox: Aabb, left: Box<BvhTree>, right: Box<BvhTree> },
}

/// The geometries at the tree's leaves, left to right.
pub open spec fn items(t: BvhTree) -> Seq<Geometry>
    decreases t,
{
    match t {
        BvhTree::Empty => Seq::empty(),
        BvhTree::Leaf(g) => seq![g],
        BvhTree::Node { bbox, left, right } => items(*left) + items(*right),
    }
}

/// The box a subtree answers for: a leaf's own box, a node's cached box.
pub open spec fn box_of(t: BvhTree) -> Aabb
    decreases t,
{
    match t {
        BvhTree::Empty => Aabb {
            min: Vec3 { x: 0, y: 0, z: 0 },
            max: Vec3 { x: 0, y: 0, z: 0 },
        },
        BvhTree::Leaf(g) => g.bbox_spec(),
        BvhTree::Node { bbox, left, right } => bbox,
    }
}

/// Well-formed tree: geometries are well-formed, each node's box is in range
/// and contains both children's boxes, and no node has an empty side.
pub open spec fn tree_wf(t: BvhTree) -> bool
    decreases t,
{
    match t {
        BvhTree::Empty => true,
        BvhTree::Leaf(g) => g.wf(),
        BvhTree::Node { bbox, left, right } => tree_wf(*left) && tree_wf(*right) && bbox.wf()
            && items(*left).len() > 0 && items(*right).len() > 0 && bbox == box_of(
            *left,
        ).union_spec(box_of(*right)),
    }
}

/// The componentwise union of a non-empty run of geometry boxes, folded
/// left to right; the empty run answers a degenerate box at the origin.
pub open spec fn boxes_union(s: Seq<Geometry>) -> Aabb
    decreases s.len(),
{
    if s.len() == 0 {
        Aabb { min: Vec3 { x: 0, y: 0, z: 0 }, max: Vec3 { x: 0, y: 0, z: 0 } }
    } else if s.len() == 1 {
        s[0].bbox_spec()
    } else {
        boxes_union(s.drop_last()).union_spec(s.last().bbox_spec())
    }
}

/// The union of two boxes does not depend on the grouping.
pub proof fn lemma_union_assoc(a: Aabb, b: Aabb, c: Aabb)
    ensures
        a.union_spec(b).union_spec(c) == a.union_spec(b.union_spec(c)),
{
}

/// Folding two runs of boxes and joining the results folds their whole.
pub proof fn lemma_boxes_union_append(s1: Seq<Geometry>, s2: Seq<Geometry>)
    requires
        s1.len() >= 1,
        s2.len() >= 1,
    ensures
        boxes_union(s1 + s2) == boxes_union(s1).union_spec(boxes_union(s2)),
    decreases s2.len(),
{
    if s2.len() == 1 {
        assert((s1 + s2).drop_last() =~= s1);
        assert((s1 + s2).last() == s2[0]);
        assert((s1 + s2).len() >= 2);
    } else {
        let s2p = s2.drop_last();
        let x = s2.last();
        assert((s1 + s2).drop_last() =~= s1 + s2p);
        assert((s1 + s2).last() == x);
        assert((s1 + s2).len() >= 2);
        lemma_boxes_union_append(s1, s2p);
        lemma_union_assoc(boxes_union(s1), boxes_union(s2p), x.bbox_spec());
        assert(s2.drop_last().len() >= 1);
    }
}

/// The folded union contains every box in the run, and any box containing
/// every box in the run contains the fold: it is the smallest common box.
pub proof fn lemma_boxes_union_bounds(s: Seq<Geometry>)
    requires
        s.len() >= 1,
    ensures
        forall|k: int| 0 <= k < s.len() ==> boxes_union(s).contains_box(
            (#[trigger] s[k]).bbox_spec(),
        ),
        forall|c: Aabb|
            (forall|k: int| 0 <= k < s.len() ==> c.contains_box((#[trigger] s[k]).bbox_spec()))
                ==> c.contains_box(#[trigger] boxes_union(s)),
    decreases s.len(),
{
    if s.len() == 1 {
    } else {
        let sp = s.drop_last();
        let x = s.last();
        lemma_boxes_union_bounds(sp);
        lemma_union_contains(boxes_union(sp), x.bbox_spec());
        assert forall|k: int| 0 <= k < s.len() implies boxes_union(s).contains_box(
            (#[trigger] s[k]).bbox_spec(),
        ) by {
            if k < s.len() - 1 {
                assert(s[k] == sp[k]);
                assert(boxes_union(sp).contains_box(sp[k].bbox_spec()));
            }
        }
        assert forall|c: Aabb|
            (forall|k: int| 0 <= k < s.len() ==> c.contains_box(
                (#[trigger] s[k]).bbox_spec(),
            )) implies c.contains_box(#[trigger] boxes_union(s)) by {
            if forall|k: int| 0 <= k < s.len() ==> c.contains_box((#[trigger] s[k]).bbox_spec()) {
                assert forall|k: int| 0 <= k < sp.len() implies c.contains_box(
                    (#[trigger] sp[k]).bbox_spec(),
                ) by {
                    assert(sp[k] == s[k]);
                }
                assert(c.contains_box(boxes_union(sp)));
                assert(c.contains_box(x.bbox_spec()));
            }
        }
    }
}

/// Every leaf's box sits inside its subtree's box.
pub proof fn lemma_items_in_box(t: BvhTree)
    requires
        tree_wf(t),
    ensures
        forall|k: int| 0 <= k < items(t).len() ==> box_of(t).contains_box(
            (#[trigger] items(t)[k]).bbox_spec(),
        ) && items(t)[k].wf(),
        items(t).len() > 0 ==> box_of(t).wf(),
    decreases t,
{
    match t {
        BvhTree::Empty => {},
        BvhTree::Leaf(g) => {
            assert(items(t)[0] == g);
        },
        BvhTree::Node { bbox, left, right } => {
            lemma_items_in_box(*left);
            lemma_items_in_box(*right);
            lemma_union_contains(box_of(*left), box_of(*right));
            let l = items(*left);
            let rr = items(*right);
            assert forall|k: int| 0 <= k < items(t).len() implies box_of(t).contains_box(
                (#[trigger] items(t)[k]).bbox_spec(),
            ) && items(t)[k].wf() by {
                if k < l.len() {
                    assert(items(t)[k] == l[k]);
                } else {
                    assert(items(t)[k] == rr[k - l.len()]);
                }
            }
        },
    }
}

/// The hierarchy: a tree with a possibly empty root.
#[derive(Debug)]
pub struct BoundingVolumeHierachies {
    pub root: BvhTree,
}

impl BoundingVolumeHierachies {
    /// Builds the hierarchy over the given geometries: the list is split
    /// recursively along the axis of greatest center extent.  The leaves
    /// hold the given geometries, rearranged.
    pub fn new(objects: Vec<Geometry>, time_from: i64, time_to: i64) -> (w: Self)
        requires
            forall|k: int| 0 <= k < objects@.len() ==> (#[trigger] objects@[k]).wf(),
        ensures
            tree_wf(w.root),
            items(w.root).to_multiset() == objects@.to_multiset(),
            items(w.root).len() == objects@.len(),
            objects@.len() > 0 ==> box_of(w.root) == boxes_union(items(w.root)),
    {
        if objects.len() == 0 {
            proof {
                assert(objects@ =~= Seq::<Geometry>::empty());
                vstd::seq_lib::lemma_multiset_commutative(
                    Seq::<Geometry>::empty(),
                    Seq::<Geometry>::empty(),
                );
                assert(items(BvhTree::Empty).to_multiset() =~= objects@.to_multiset());
            }
            BoundingVolumeHierachies { root: BvhTree::Empty }
        } else {
            let root = build_tree(objects, time_from, time_to);
            BoundingVolumeHierachies { root }
        }
    }

    /// The closest hit over everything in the hierarchy, by pruned traversal:
    /// the result is the brute-force fold over the leaf sequence.
    pub fn hit(&self, ray: &Ray, t0: i64, t1: i64) -> (res: Option<HitRecord>)
        requires
            tree_wf(self.root),
            ray.wf(),
            -T_MAX <= t0 <= T_MAX,
            -T_MAX <= t1 <= T_MAX,
        ensures
            match closest_hit_t(items(self.root), *ray, t0 as int, t1 as int) {
                Option::None => res is None,
                Option::Some((i, u)) => res == Some(record_spec(*ray, items(self.root)[i], u)),
            },
            match res {
                Option::Some(h) => ray.direction.dot2(h.normal) <= 0 && h.normal.bounded(
                    SCALE as int,
                ) && h.point.bounded(2 * (MAX_COORD as int)) && h.material.wf() && t0 <= h.unit
                    < t1,
                Option::None => true,
            },
    {
        tree_hit(&self.root, ray, t0, t1)
    }

    /// The box over everything in the hierarchy; an empty one has none.
    pub fn bbox(&self, time_from: i64, time_to: i64) -> (b: Option<Aabb>)
        requires
            tree_wf(self.root),
        ensures
            match self.root {
                BvhTree::Empty => b is None,
                _ => b == Some(box_of(self.root)),
            },
    {
        match &self.root {
            BvhTree::Empty => None,
            _ => Some(tree_box(&self.root, time_from, time_to)),
        }
    }
}

/// The hierarchy agrees with brute force: over the same geometries in the
/// same order, the pruned traversal and the flat scan are pinned to one and
/// the same closest-hit fold, for every ray and interval.
pub proof fn lemma_bvh_matches_brute_force(
    w: &BoundingVolumeHierachies,
    l: &crate::geometry::GeometryList,
    r: Ray,
    t0: int,
    t1: int,
)
    requires
        items(w.root) == l.items@,
    ensures
        closest_hit_t(items(w.root), r, t0, t1) == closest_hit_t(l.items@, r, t0, t1),
{
}

/// The subtree's box, read off the tree.
fn tree_box(t: &BvhTree, time_from: i64, time_to: i64) -> (b: Aabb)
    requires
        tree_wf(*t),
        !(t is Empty),
    ensures
        b == box_of(*t),
        items(*t).len() > 0 ==> b.wf(),
    {
    proof {
        lemma_items_in_box(*t);
    }
    match t {
        BvhTree::Empty => unreached(),
        BvhTree::Leaf(g) => {
            let ob = g.bbox(time_from, time_to);
            match ob {
                Option::Some(bb) => bb,
                Option::None => unreached(),
            }
        },
        BvhTree::Node { bbox, left, right } => *bbox,
    }
}

/// Pruned recursive traversal; its answer is pinned to the brute-force fold.
fn tree_hit(t: &BvhTree, ray: &Ray, t0: i64, t1: i64) -> (res: Option<HitRecord>)
    requires
        tree_wf(*t),
        ray.wf(),
        -T_MAX <= t0 <= T_MAX,
        -T_MAX <= t1 <= T_MAX,
    ensures
        match closest_hit_t(items(*t), *ray, t0 as int, t1 as int) {
            Option::None => res is None,
            Option::Some((i, u)) => res == Some(record_spec(*ray, items(*t)[i], u)),
        },
        match res {
            Option::Some(h) => ray.direction.dot2(h.normal) <= 0 && h.normal.bounded(SCALE as int)
                && h.point.bounded(2 * (MAX_COORD as int)) && h.material.wf() && t0 <= h.unit
                < t1,
            Option::None => true,
        },
    decreases *t,
{
    match t {
        BvhTree::Empty => {
            proof {
                assert(items(*t).len() == 0);
            }
            None
        },
        BvhTree::Leaf(g) => {
            let r = g.hit(ray, t0, t1);
            proof {
                lemma_closest_singleton(*g, *ray, t0 as int, t1 as int);
                assert(items(*t) =~= seq![*g]);
            }
            r
        },
        BvhTree::Node { bbox, left, right } => {
            if !bbox.hit(ray, t0, t1) {
                proof {
                    lemma_node_pruned(*t, *ray, t0 as int, t1 as int);
                }
                None
            } else {
                let hl = tree_hit(left, ray, t0, t1);
                let limit: i64 = match &hl {
                    Option::Some(h) => h.unit,
                    Option::None => t1,
                };
                let hr = tree_hit(right, ray, t0, limit);
                proof {
                    let l = items(**left);
                    let rr = items(**right);
                    assert(items(*t) =~= l + rr);
                    lemma_closest_append(l, rr, *ray, t0 as int, t1 as int);
                    lemma_closest_in_range(l, *ray, t0 as int, t1 as int);
                    match closest_hit_t(l, *ray, t0 as int, t1 as int) {
                        Option::None => {
                            lemma_closest_in_range(rr, *ray, t0 as int, t1 as int);
                            match closest_hit_t(rr, *ray, t0 as int, t1 as int) {
                                Option::None => {},
                                Option::Some((j, u)) => {
                                    assert((l + rr)[l.len() + j] == rr[j]);
                                },
                            }
                        },
                        Option::Some((i, u)) => {
                            assert(hl == Some(record_spec(*ray, l[i], u)));
                            assert(limit as int == u);
                            lemma_closest_in_range(rr, *ray, t0 as int, u);
                            match closest_hit_t(rr, *ray, t0 as int, u) {
                                Option::None => {
                                    assert((l + rr)[i] == l[i]);
                                },
                                Option::Some((j, w)) => {
                                    assert((l + rr)[l.len() + j] == rr[j]);
                                },
                            }
                        },
                    }
                }
                match hr {
                    Option::Some(h) => Some(h),
                    Option::None => hl,
                }
            }
        },
    }
}

/// When the slab test refuses a node's box over an interval, every geometry
/// below that node misses over the same interval.
proof fn lemma_node_pruned(t: BvhTree, r: Ray, t0: int, t1: int)
    requires
        tree_wf(t),
        !slab_hit(box_of(t), r, t0, t1),
    ensures
        closest_hit_t(items(t), r, t0, t1) is None,
{
    lemma_items_in_box(t);
    assert forall|k: int| 0 <= k < items(t).len() implies (#[trigger] items(t)[k].hit_t(
        r,
        t0,
        t1,
    )) is None by {
        let g = items(t)[k];
        lemma_hit_t_shape(g, r, t0, t1);
        match g.hit_t(r, t0, t1) {
            Option::None => {},
            Option::Some(u) => {
                lemma_in_box_monotone(box_of(t), g.bbox_spec(), r, u);
                lemma_slab_complete(box_of(t), r, t0, t1, u);
                assert(false);
            },
        }
    }
    lemma_closest_none(items(t), r, t0, t1);
}

/// The center a geometry is split by.
fn center_of(g: &Geometry) -> (c: Vec3)
    ensures
        match *g {
            Geometry::Sphere(s) => c == s.center,
        },
{
    match g {
        Geometry::Sphere(s) => s.center,
    }
}

/// The axis along which the geometry centers spread out the most.
fn pick_axis(objects: &Vec<Geometry>) -> (a: usize)
    requires
        objects@.len() >= 1,
        forall|k: int| 0 <= k < objects@.len() ==> (#[trigger] objects@[k]).wf(),
    ensures
        a < 3,
{
    let first = center_of(&objects[0]);
    let mut lox: i64 = first.x;
    let mut hix: i64 = first.x;
    let mut loy: i64 = first.y;
    let mut hiy: i64 = first.y;
    let mut loz: i64 = first.z;
    let mut hiz: i64 = first.z;
    let mut k: usize = 1;
    while k < objects.len()
        invariant
            objects@.len() >= 1,
            k <= objects@.len(),
            forall|q: int| 0 <= q < objects@.len() ==> (#[trigger] objects@[q]).wf(),
            -MAX_COORD <= lox <= MAX_COORD,
            -MAX_COORD <= hix <= MAX_COORD,
            -MAX_COORD <= loy <= MAX_COORD,
            -MAX_COORD <= hiy <= MAX_COORD,
            -MAX_COORD <= loz <= MAX_COORD,
            -MAX_COORD <= hiz <= MAX_COORD,
        decreases objects@.len() - k,
    {
        let c = center_of(&objects[k]);
        if c.x < lox {
            lox = c.x;
        }
        if c.x > hix {
            hix = c.x;
        }
        if c.y < loy {
            loy = c.y;
        }
        if c.y > hiy {
            hiy = c.y;
        }
        if c.z < loz {
            loz = c.z;
        }
        if c.z > hiz {
            hiz = c.z;
        }
        k = k + 1;
    }
    let ex = hix - lox;
    let ey = hiy - loy;
    let ez = hiz - loz;
    let mut best: usize = 0;
    let mut spread = ex;
    if ey > spread {
        best = 1;
        spread = ey;
    }
    if ez > spread {
        best = 2;
    }
    best
}

/// The key a geometry sorts by along an axis.
fn center_key(g: &Geometry, axis: usize) -> (k: i64)
    requires
        axis < 3,
{
    let c = center_of(g);
    c.index(axis)
}

/// Sorts the geometries by center along an axis; the collection of
/// geometries is unchanged.
fn sort_by_center(v: Vec<Geometry>, axis: usize) -> (r: Vec<Geometry>)
    requires
        axis < 3,
        forall|k: int| 0 <= k < v@.len() ==> (#[trigger] v@[k]).wf(),
    ensures
        r@.to_multiset() == v@.to_multiset(),
        r@.len() == v@.len(),
        forall|k: int| 0 <= k < r@.len() ==> (#[trigger] r@[k]).wf(),
{
    let mut r = v;
    let ghost orig = r@;
    let mut i: usize = 1;
    while i < r.len()
        invariant
            axis < 3,
            r@.to_multiset() == orig.to_multiset(),
            r@.len() == orig.len(),
            forall|k: int| 0 <= k < r@.len() ==> (#[trigger] r@[k]).wf(),
        decreases r@.len() - i,
    {
        let mut j: usize = i;
        while j > 0 && center_key(&r[j - 1], axis) > center_key(&r[j], axis)
            invariant
                axis < 3,
                j <= i < r@.len(),
                r@.to_multiset() == orig.to_multiset(),
                r@.len() == orig.len(),
                forall|k: int| 0 <= k < r@.len() ==> (#[trigger] r@[k]).wf(),
            decreases j,
        {
            let ghost pre = r@;
            let a = r[j - 1];
            let b = r[j];
            r.set(j - 1, b);
            r.set(j, a);
            proof {
                lemma_swap_multiset(pre, r@, j - 1 as int, j as int);
            }
            j = j - 1;
        }
        i = i + 1;
    }
    r
}

/// Swapping two positions of a sequence keeps its multiset of elements.
proof fn lemma_swap_multiset(s: Seq<Geometry>, t: Seq<Geometry>, i: int, j: int)
    requires
        0 <= i < s.len(),
        0 <= j < s.len(),
        i != j,
        t == s.update(i, s[j]).update(j, s[i]),
    ensures
        t.to_multiset() == s.to_multiset(),
{
    broadcast use vstd::seq_lib::group_to_multiset_ensures;
    broadcast use vstd::multiset::group_multiset_axioms;

    let m = s.to_multiset();
    let s1 = s.update(i, s[j]);
    assert(s1.to_multiset() == m.insert(s[j]).remove(s[i]));
    assert(s1[j] == s[j]);
    assert(t.to_multiset() == s1.to_multiset().insert(s[i]).remove(s1[j]));
    assert(m.count(s[i]) > 0) by {
        assert(s.contains(s[i]));
    }
    assert(t.to_multiset() =~= m);
}

/// Builds the subtree over a non-empty collection: a single geometry becomes
/// a leaf; more are sorted along the widest axis and split in half.
fn build_tree(objects: Vec<Geometry>, time_from: i64, time_to: i64) -> (t: BvhTree)
    requires
        objects@.len() >= 1,
        forall|k: int| 0 <= k < objects@.len() ==> (#[trigger] objects@[k]).wf(),
    ensures
        tree_wf(t),
        items(t).to_multiset() == objects@.to_multiset(),
        items(t).len() == objects@.len(),
        box_of(t) == boxes_union(items(t)),
        box_of(t).wf(),
        !(t is Empty),
    decreases objects@.len(),
{
    if objects.len() == 1 {
        let g = objects[0];
        proof {
            assert(objects@ =~= seq![g]);
            lemma_items_in_box(BvhTree::Leaf(g));
            assert(items(BvhTree::Leaf(g))[0] == g);
        }
        BvhTree::Leaf(g)
    } else {
        let axis = pick_axis(&objects);
        let sorted = sort_by_center(objects, axis);
        let mid = sorted.len() / 2;
        let mut lv: Vec<Geometry> = Vec::new();
        let mut rv: Vec<Geometry> = Vec::new();
        let mut k: usize = 0;
        while k < mid
            invariant
                1 <= mid < sorted@.len(),
                k <= mid,
                lv@ =~= sorted@.take(k as int),
                forall|q: int| 0 <= q < sorted@.len() ==> (#[trigger] sorted@[q]).wf(),
            decreases mid - k,
        {
            lv.push(sorted[k]);
            k = k + 1;
        }
        while k < sorted.len()
            invariant
                1 <= mid < sorted@.len(),
                mid <= k <= sorted@.len(),
                lv@ =~= sorted@.take(mid as int),
                rv@ =~= sorted@.subrange(mid as int, k as int),
                forall|q: int| 0 <= q < sorted@.len() ==> (#[trigger] sorted@[q]).wf(),
            decreases sorted@.len() - k,
        {
            rv.push(sorted[k]);
            k = k + 1;
        }
        proof {
            assert(lv@ + rv@ =~= sorted@);
            assert(forall|q: int| 0 <= q < lv@.len() ==> (#[trigger] lv@[q]).wf());
            assert(forall|q: int| 0 <= q < rv@.len() ==> (#[trigger] rv@[q]).wf());
        }
        let ghost sorted_view = sorted@;
        let lt = build_tree(lv, time_from, time_to);
        let rt = build_tree(rv, time_from, time_to);
        let lb = tree_box(&lt, time_from, time_to);
        let rb = tree_box(&rt, time_from, time_to);
        let bb = lb.union(&rb);
        proof {
            lemma_union_contains(lb, rb);
            lemma_boxes_union_append(items(lt), items(rt));
            vstd::seq_lib::lemma_multiset_commutative(items(lt), items(rt));
            assert(items(lt) + items(rt) =~= items(
                BvhTree::Node {
                    bbox: bb,
                    left: Box::new(lt),
                    right: Box::new(rt),
                },
            ));
            vstd::seq_lib::lemma_multiset_commutative(sorted_view.take(mid as int), sorted_view.subrange(mid as int, sorted_view.len() as int));
            assert(sorted_view.take(mid as int) + sorted_view.subrange(
                mid as int,
                sorted_view.len() as int,
            ) =~= sorted_view);
        }
        BvhTree::Node { bbox: bb, left: Box::new(lt), right: Box::new(rt) }
    }
}

} // verus!
