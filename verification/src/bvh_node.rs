use vstd::prelude::*;
use crate::aabb::{lemma_hit_monotone, AABB};
use crate::hittable::{lemma_hit_narrow, lemma_hit_record_props, HitRecord, Hittable};
use crate::hittable_list::{cached_box_ok, HittableList};
use crate::interval::Interval;
use crate::rat::{lemma_rat_le_trans, TInterval};
use crate::ray::Ray;
use crate::vec3::{Axis, COORD_LIMIT};

verus! {

/// Every primitive of the arena is well-formed.
pub open spec fn arena_wf(arena: Seq<Hittable>) -> bool {
    forall|i: int| 0 <= i < arena.len() ==> (#[trigger] arena[i]).wf()
}

/// Some position of the window `[lo, hi)` of `s` holds `u`.
pub open spec fn window_has(s: Seq<usize>, lo: int, hi: int, u: usize) -> bool {
    exists|k: int| lo <= k < hi && s[k] == u
}

/// `result` is the nearest hit of the ray among the primitives of the arena
/// named by `idxs`, over the closed parameter range.
pub open spec fn is_nearest_hit_among(
    arena: Seq<Hittable>,
    idxs: Seq<usize>,
    ray: Ray,
    ray_t: TInterval,
    result: Option<HitRecord>,
) -> bool {
    match result {
        None => forall|k: int|
            0 <= k < idxs.len() ==> (#[trigger] arena[idxs[k] as int].spec_hit(ray, ray_t))
                is None,
        Some(rec) => {
            &&& exists|k: int|
                0 <= k < idxs.len() && (#[trigger] arena[idxs[k] as int].spec_hit(ray, ray_t))
                    == Some(rec)
            &&& forall|k: int|
                0 <= k < idxs.len() ==> (match #[trigger] arena[idxs[k] as int].spec_hit(ray,
                    ray_t) {
                    Some(other) => rec.t.spec_le(other.t),
                    None => true,
                })
        },
    }
}

/// One side of a node: a further subtree, or one primitive of the arena.
pub enum BVHChild {
    Node(Box<BVHNode>),
    Leaf(usize),
}

/// A binary bounding-volume node over an arena of primitives. Leaves name
/// primitives by index; every node caches a box enclosing everything below.
pub struct BVHNode {
    pub left: BVHChild,
    pub right: BVHChild,
    pub bounding_box: AABB,
}

impl BVHChild {
    /// The indices of the primitives below.
    pub open spec fn idxs(self) -> Seq<usize>
        decreases self,
    {
        match self {
            BVHChild::Leaf(i) => seq![i],
            BVHChild::Node(n) => n.idxs(),
        }
    }

    /// The box that pruning below this child relies on.
    pub open spec fn bbox(self, arena: Seq<Hittable>) -> AABB {
        match self {
            BVHChild::Leaf(i) => arena[i as int].spec_bbox(),
            BVHChild::Node(n) => n.bounding_box,
        }
    }

    pub open spec fn wf(self, arena: Seq<Hittable>) -> bool
        decreases self,
    {
        match self {
            BVHChild::Leaf(i) => i < arena.len(),
            BVHChild::Node(n) => n.wf(arena),
        }
    }
}

impl BVHNode {
    pub open spec fn idxs(self) -> Seq<usize>
        decreases self,
    {
        self.left.idxs() + self.right.idxs()
    }

    pub open spec fn wf(self, arena: Seq<Hittable>) -> bool
        decreases self,
    {
        &&& self.left.wf(arena)
        &&& self.right.wf(arena)
        &&& self.bounding_box.wf()
        &&& cached_box_ok(self.bounding_box)
        &&& self.bounding_box.encloses(self.left.bbox(arena))
        &&& self.bounding_box.encloses(self.right.bbox(arena))
        &&& self.bounding_box.x == Interval::spec_pad(Interval::spec_union(
            self.left.bbox(arena).x, self.right.bbox(arena).x))
        &&& self.bounding_box.y == Interval::spec_pad(Interval::spec_union(
            self.left.bbox(arena).y, self.right.bbox(arena).y))
        &&& self.bounding_box.z == Interval::spec_pad(Interval::spec_union(
            self.left.bbox(arena).z, self.right.bbox(arena).z))
    }
}

/// The box of a child encloses the cached box of every primitive below it.
proof fn lemma_child_covered(c: BVHChild, arena: Seq<Hittable>, k: int)
    requires
        c.wf(arena),
        0 <= k < c.idxs().len(),
    ensures
        c.idxs()[k] < arena.len(),
        c.bbox(arena).encloses(arena[c.idxs()[k] as int].spec_bbox()),
    decreases c,
{
    match c {
        BVHChild::Leaf(_) => {},
        BVHChild::Node(n) => {
            lemma_node_covered(*n, arena, k);
        },
    }
}

/// The box of a node encloses the cached box of every primitive below it.
proof fn lemma_node_covered(n: BVHNode, arena: Seq<Hittable>, k: int)
    requires
        n.wf(arena),
        0 <= k < n.idxs().len(),
    ensures
        n.idxs()[k] < arena.len(),
        n.bounding_box.encloses(arena[n.idxs()[k] as int].spec_bbox()),
    decreases n,
{
    let li = n.left.idxs();
    if k < li.len() {
        assert(n.idxs()[k] == li[k]);
        lemma_child_covered(n.left, arena, k);
    } else {
        assert(n.idxs()[k] == n.right.idxs()[k - li.len()]);
        lemma_child_covered(n.right, arena, k - li.len());
    }
}

impl BVHChild {
    /// The nearest hit among the primitives below this child.
    fn hit(&self, arena: &Vec<Hittable>, ray: &Ray, ray_t: &TInterval) -> (r: Option<HitRecord>)
        requires
            self.wf(arena@),
            arena_wf(arena@),
            ray.in_bounds(COORD_LIMIT as int),
            ray_t.wf(),
        ensures
            is_nearest_hit_among(arena@, self.idxs(), *ray, *ray_t, r),
        decreases *self,
    {
        match self {
            BVHChild::Leaf(i) => {
                let res = arena[*i].hit(ray, ray_t);
                proof {
                    let idxs = self.idxs();
                    assert(idxs.len() == 1 && idxs[0] == *i);
                    match res {
                        None => {
                            assert forall|k: int| 0 <= k < idxs.len() implies (
                            #[trigger] arena@[idxs[k] as int].spec_hit(*ray, *ray_t)) is None by {}
                        },
                        Some(rec) => {
                            assert(arena@[idxs[0] as int].spec_hit(*ray, *ray_t) == Some(rec));
                        },
                    }
                }
                res
            },
            BVHChild::Node(n) => n.hit(arena, ray, ray_t),
        }
    }
}

impl BVHNode {
    /// The nearest hit among the primitives below this node: prune when the
    /// ray misses the node's box; otherwise search the left side over the
    /// full range, then the right side with the range's upper end shrunk to
    /// the left hit, so the right side can only report a closer hit.
    pub fn hit(&self, arena: &Vec<Hittable>, ray: &Ray, ray_t: &TInterval) -> (r: Option<
        HitRecord,
    >)
        requires
            self.wf(arena@),
            arena_wf(arena@),
            ray.in_bounds(COORD_LIMIT as int),
            ray_t.wf(),
        ensures
            is_nearest_hit_among(arena@, self.idxs(), *ray, *ray_t, r),
        decreases *self,
    {
        let ghost ii = self.idxs();
        let ghost li = self.left.idxs();
        let ghost ri = self.right.idxs();
        if !self.bounding_box.hit(ray, ray_t) {
            proof {
                assert forall|k: int| 0 <= k < ii.len() implies (
                #[trigger] arena@[ii[k] as int].spec_hit(*ray, *ray_t)) is None by {
                    lemma_node_covered(*self, arena@, k);
                    assert(arena@[ii[k] as int].wf());
                    if let Some(rec) = arena@[ii[k] as int].spec_hit(*ray, *ray_t) {
                        lemma_hit_record_props(arena@[ii[k] as int], *ray, *ray_t, rec);
                        assert(arena@[ii[k] as int].spec_bbox().spec_hit(*ray, *ray_t));
                        lemma_hit_monotone(self.bounding_box, arena@[ii[k] as int].spec_bbox(),
                            *ray, *ray_t);
                    }
                }
            }
            return None;
        }
        let left_res = self.left.hit(arena, ray, ray_t);
        let shrunk: TInterval = match &left_res {
            Some(rec) => {
                proof {
                    let k = choose|k: int|
                        0 <= k < li.len() && (#[trigger] arena@[li[k] as int].spec_hit(*ray,
                            *ray_t)) == Some(*rec);
                    lemma_child_covered(self.left, arena@, k);
                    assert(arena@[li[k] as int].wf());
                    lemma_hit_record_props(arena@[li[k] as int], *ray, *ray_t, *rec);
                }
                TInterval::new(ray_t.min, rec.t)
            },
            None => *ray_t,
        };
        let right_res = self.right.hit(arena, ray, &shrunk);
        let result = match right_res {
            Some(r2) => Some(r2),
            None => left_res,
        };
        proof {
            assert(shrunk.min == ray_t.min);
            assert(shrunk.wf());
            assert(shrunk.max.spec_le(ray_t.max));
            assert forall|k: int| 0 <= k < ii.len() implies ii[k] < arena@.len()
                && arena@[ii[k] as int].wf() by {
                lemma_node_covered(*self, arena@, k);
            }
            match result {
                Some(r2) => {
                    if right_res is Some {
                        // the winning hit came from the right side, within the
                        // shrunk range: it is also a hit of the full range
                        let k = choose|k: int|
                            0 <= k < ri.len() && (#[trigger] arena@[ri[k] as int].spec_hit(*ray,
                                shrunk)) == Some(r2);
                        lemma_child_covered(self.right, arena@, k);
                        assert(arena@[ri[k] as int].wf());
                        lemma_hit_record_props(arena@[ri[k] as int], *ray, shrunk, r2);
                        lemma_hit_narrow(arena@[ri[k] as int], *ray, *ray_t, shrunk);
                        assert(ii[li.len() + k] == ri[k]);
                        assert(arena@[ii[li.len() + k] as int].spec_hit(*ray, *ray_t) == Some(r2));
                        lemma_rat_le_trans(r2.t, shrunk.max, ray_t.max);
                    } else {
                        // the left hit stands: the shrunk range's upper end is
                        // its parameter
                        let k = choose|k: int|
                            0 <= k < li.len() && (#[trigger] arena@[li[k] as int].spec_hit(*ray,
                                *ray_t)) == Some(r2);
                        assert(ii[k] == li[k]);
                        assert(arena@[ii[k] as int].spec_hit(*ray, *ray_t) == Some(r2));
                    }
                    assert forall|k: int| 0 <= k < ii.len() implies (
                    match #[trigger] arena@[ii[k] as int].spec_hit(*ray, *ray_t) {
                        Some(other) => r2.t.spec_le(other.t),
                        None => true,
                    }) by {
                        if let Some(other) = arena@[ii[k] as int].spec_hit(*ray, *ray_t) {
                            lemma_hit_record_props(arena@[ii[k] as int], *ray, *ray_t, other);
                            lemma_hit_narrow(arena@[ii[k] as int], *ray, *ray_t, shrunk);
                            if k < li.len() {
                                assert(ii[k] == li[k]);
                                assert(arena@[li[k] as int].spec_hit(*ray, *ray_t) == Some(other));
                                match left_res {
                                    Some(rec_l) => {
                                        assert(rec_l.t.spec_le(other.t));
                                        if right_res is Some {
                                            // r2.t <= shrunk.max == rec_l.t <= other.t
                                            lemma_rat_le_trans(r2.t, rec_l.t, other.t);
                                        }
                                    },
                                    None => {},
                                }
                            } else {
                                let kr = k - li.len();
                                assert(ii[k] == ri[kr]);
                                assert(arena@[ri[kr] as int].spec_hit(*ray, *ray_t) == Some(
                                other));
                                if other.t.spec_le(shrunk.max) {
                                    assert(arena@[ri[kr] as int].spec_hit(*ray, shrunk) == Some(
                                    other));
                                } else {
                                    // other lies beyond the shrunk range's end,
                                    // which the winner is below
                                    assert(shrunk.max.spec_le(other.t));
                                    if right_res is Some {
                                        lemma_rat_le_trans(r2.t, shrunk.max, other.t);
                                    } else {
                                        assert(r2.t == shrunk.max);
                                    }
                                }
                            }
                        }
                    }
                },
                None => {
                    assert forall|k: int| 0 <= k < ii.len() implies (
                    #[trigger] arena@[ii[k] as int].spec_hit(*ray, *ray_t)) is None by {
                        if let Some(other) = arena@[ii[k] as int].spec_hit(*ray, *ray_t) {
                            lemma_hit_record_props(arena@[ii[k] as int], *ray, *ray_t, other);
                            lemma_hit_narrow(arena@[ii[k] as int], *ray, *ray_t, shrunk);
                            if k < li.len() {
                                assert(ii[k] == li[k]);
                                assert(arena@[li[k] as int].spec_hit(*ray, *ray_t) == Some(other));
                            } else {
                                let kr = k - li.len();
                                assert(ii[k] == ri[kr]);
                                // both sides reported nothing, and the shrunk
                                // range equals the full one here
                                assert(shrunk == *ray_t);
                                assert(arena@[ri[kr] as int].spec_hit(*ray, shrunk) == Some(
                                other));
                            }
                        }
                    }
                },
            }
        }
        result
    }
}

/// For a fixed scene and ray, the hierarchy and the brute-force linear scan
/// agree: the tree (whose leaves hold exactly the scene's indices, as
/// `from_hittable_list` ensures) reports a hit exactly when the flat scan
/// does, and both report the same nearest parameter.
pub proof fn lemma_bvh_matches_linear_scan(
    objects: Seq<Hittable>,
    idxs: Seq<usize>,
    ray: Ray,
    ray_t: TInterval,
    bvh_result: Option<HitRecord>,
    scan_result: Option<HitRecord>,
)
    requires
        objects.len() <= usize::MAX,
        forall|u: usize| #[trigger] idxs.contains(u) <==> (u as int) < objects.len(),
        is_nearest_hit_among(objects, idxs, ray, ray_t, bvh_result),
        crate::hittable_list::is_nearest_hit(objects, ray, ray_t, scan_result),
    ensures
        bvh_result is Some <==> scan_result is Some,
        (match (bvh_result, scan_result) {
            (Some(a), Some(b)) => a.t.spec_eq(b.t),
            _ => true,
        }),
{
    match bvh_result {
        None => {
            if let Some(b) = scan_result {
                let i = choose|i: int|
                    0 <= i < objects.len() && (#[trigger] objects[i].spec_hit(ray, ray_t))
                        == Some(b);
                let u = i as usize;
                assert(idxs.contains(u));
                let k = choose|k: int| 0 <= k < idxs.len() && idxs[k] == u;
                assert(objects[idxs[k] as int].spec_hit(ray, ray_t) is None);
                assert(false);
            }
        },
        Some(a) => {
            let k = choose|k: int|
                0 <= k < idxs.len() && (#[trigger] objects[idxs[k] as int].spec_hit(ray, ray_t))
                    == Some(a);
            let i = idxs[k];
            assert(idxs.contains(i));
            match scan_result {
                None => {
                    assert(objects[i as int].spec_hit(ray, ray_t) is None);
                    assert(false);
                },
                Some(b) => {
                    let ib = choose|ib: int|
                        0 <= ib < objects.len() && (#[trigger] objects[ib].spec_hit(ray, ray_t))
                            == Some(b);
                    let ub = ib as usize;
                    assert(idxs.contains(ub));
                    let kb = choose|kb: int| 0 <= kb < idxs.len() && idxs[kb] == ub;
                    assert(objects[idxs[kb] as int].spec_hit(ray, ray_t) == Some(b));
                    assert(a.t.spec_le(b.t));
                    assert(objects[i as int].spec_hit(ray, ray_t) == Some(a));
                    assert(b.t.spec_le(a.t));
                },
            }
        },
    }
}

/// When no two distinct primitives are hit at exactly the same parameter,
/// the hierarchy and the brute-force linear scan return the very same record
/// (with a tie, each may return either of the coincident primitives' records;
/// the parameters still agree).
pub proof fn lemma_bvh_scan_agree_unique(
    objects: Seq<Hittable>,
    idxs: Seq<usize>,
    ray: Ray,
    ray_t: TInterval,
    bvh_result: Option<HitRecord>,
    scan_result: Option<HitRecord>,
)
    requires
        objects.len() <= usize::MAX,
        forall|u: usize| #[trigger] idxs.contains(u) <==> (u as int) < objects.len(),
        is_nearest_hit_among(objects, idxs, ray, ray_t, bvh_result),
        crate::hittable_list::is_nearest_hit(objects, ray, ray_t, scan_result),
        forall|i: int, j: int|
            #![trigger objects[i].spec_hit(ray, ray_t), objects[j].spec_hit(ray, ray_t)]
            0 <= i < j < objects.len() ==> (match (objects[i].spec_hit(ray, ray_t),
            objects[j].spec_hit(ray, ray_t)) {
                (Some(ri), Some(rj)) => !ri.t.spec_eq(rj.t),
                _ => true,
            }),
    ensures
        bvh_result == scan_result,
{
    lemma_bvh_matches_linear_scan(objects, idxs, ray, ray_t, bvh_result, scan_result);
    match (bvh_result, scan_result) {
        (Some(a), Some(b)) => {
            let k = choose|k: int|
                0 <= k < idxs.len() && (#[trigger] objects[idxs[k] as int].spec_hit(ray, ray_t))
                    == Some(a);
            assert(idxs.contains(idxs[k]));
            let ia = idxs[k] as int;
            let ib = choose|ib: int|
                0 <= ib < objects.len() && (#[trigger] objects[ib].spec_hit(ray, ray_t)) == Some(
                b);
            assert(a.t.spec_eq(b.t));
            if ia != ib {
                assert(objects[ia].spec_hit(ray, ray_t) == Some(a));
                assert(objects[ib].spec_hit(ray, ray_t) == Some(b));
                assert(false);
            }
        },
        _ => {},
    }
}

/// What a window of a sequence holds splits at any midpoint.
proof fn lemma_window_split(s: Seq<usize>, lo: int, mid: int, hi: int, u: usize)
    requires
        0 <= lo <= mid <= hi <= s.len(),
    ensures
        window_has(s, lo, hi, u) <==> (window_has(s, lo, mid, u) || window_has(s, mid, hi, u)),
{
    if window_has(s, lo, hi, u) {
        let k = choose|k: int| lo <= k < hi && s[k] == u;
        if k < mid {
            assert(window_has(s, lo, mid, u));
        } else {
            assert(window_has(s, mid, hi, u));
        }
    }
    if window_has(s, lo, mid, u) {
        let k = choose|k: int| lo <= k < mid && s[k] == u;
        assert(window_has(s, lo, hi, u));
    }
    if window_has(s, mid, hi, u) {
        let k = choose|k: int| mid <= k < hi && s[k] == u;
        assert(window_has(s, lo, hi, u));
    }
}

/// Windows of two sequences that agree pointwise hold the same values.
proof fn lemma_window_pointwise(s1: Seq<usize>, s2: Seq<usize>, lo: int, hi: int, u: usize)
    requires
        0 <= lo <= hi <= s1.len(),
        hi <= s2.len(),
        forall|k: int| lo <= k < hi ==> s1[k] == s2[k],
    ensures
        window_has(s1, lo, hi, u) <==> window_has(s2, lo, hi, u),
{
    if window_has(s1, lo, hi, u) {
        let k = choose|k: int| lo <= k < hi && s1[k] == u;
        assert(s2[k] == u);
    }
    if window_has(s2, lo, hi, u) {
        let k = choose|k: int| lo <= k < hi && s2[k] == u;
        assert(s1[k] == u);
    }
}

/// Exchanging two positions inside a window leaves what it holds unchanged.
proof fn lemma_swap_window(s: Seq<usize>, lo: int, hi: int, a: int, b: int, u: usize)
    requires
        0 <= lo <= a < hi,
        lo <= b < hi,
        hi <= s.len(),
    ensures
        window_has(s.update(a, s[b]).update(b, s[a]), lo, hi, u) <==> window_has(s, lo, hi, u),
{
    let s2 = s.update(a, s[b]).update(b, s[a]);
    if window_has(s2, lo, hi, u) {
        let k = choose|k: int| lo <= k < hi && s2[k] == u;
        if k == b {
            assert(s[a] == u);
        } else if k == a {
            assert(s[b] == u);
        } else {
            assert(s[k] == u);
        }
        assert(window_has(s, lo, hi, u));
    }
    if window_has(s, lo, hi, u) {
        let k = choose|k: int| lo <= k < hi && s[k] == u;
        if k == a {
            assert(s2[b] == u);
        } else if k == b {
            if a == b {
                assert(s2[b] == u);
            } else {
                assert(s2[a] == u);
            }
        } else {
            assert(s2[k] == u);
        }
        assert(window_has(s2, lo, hi, u));
    }
}

/// Exchanging two positions leaves the sequence's multiset unchanged.
proof fn lemma_swap_multiset(s: Seq<usize>, a: int, b: int)
    requires
        0 <= a < s.len(),
        0 <= b < s.len(),
    ensures
        s.update(a, s[b]).update(b, s[a]).to_multiset() == s.to_multiset(),
{
    let s1 = s.update(a, s[b]);
    vstd::seq_lib::to_multiset_update(s, a, s[b]);
    vstd::seq_lib::to_multiset_update(s1, b, s[a]);
    s.to_multiset_ensures();
    s1.to_multiset_ensures();
    assert(s.contains(s[a]));
    assert(s.contains(s[b]));
    assert(s1[b] == s[b]);
    assert(s1.update(b, s[a]).to_multiset() =~= s.to_multiset());
}

/// What a concatenation holds is what either part holds.
proof fn lemma_concat_contains(a: Seq<usize>, b: Seq<usize>, u: usize)
    ensures
        (a + b).contains(u) <==> (a.contains(u) || b.contains(u)),
{
    if (a + b).contains(u) {
        let k = choose|k: int| 0 <= k < (a + b).len() && (a + b)[k] == u;
        if k < a.len() {
            assert(a[k] == u);
        } else {
            assert(b[k - a.len()] == u);
        }
    }
    if a.contains(u) {
        let k = choose|k: int| 0 <= k < a.len() && a[k] == u;
        assert((a + b)[k] == u);
    }
    if b.contains(u) {
        let k = choose|k: int| 0 <= k < b.len() && b[k] == u;
        assert((a + b)[k + a.len()] == u);
    }
}

/// The lower end of a primitive's box along the split axis: the sort key of
/// the construction.
pub open spec fn sort_key(objects: Seq<Hittable>, idx: usize, axis: Axis) -> int {
    objects[idx as int].spec_bbox().spec_axis_interval(axis).min as int
}

fn box_min_key(objects: &Vec<Hittable>, idx: usize, axis: Axis) -> (r: i64)
    requires
        idx < objects@.len(),
    ensures
        r == sort_key(objects@, idx, axis),
{
    objects[idx].bounding_box().axis_interval(axis).min
}

/// Order the window of `indices` by the primitives' box minimum along the
/// split axis, selecting the least remaining key each round. Equal keys may
/// land in either order; the window keeps exactly the indices it had.
fn sort_range(objects: &Vec<Hittable>, indices: &mut Vec<usize>, lo: usize, hi: usize, axis: Axis)
    requires
        lo <= hi <= old(indices)@.len(),
        forall|k: int|
            0 <= k < old(indices)@.len() ==> (#[trigger] old(indices)@[k]) < objects@.len(),
    ensures
        final(indices)@.len() == old(indices)@.len(),
        forall|k: int|
            0 <= k < old(indices)@.len() && !(lo <= k < hi) ==> final(indices)@[k] == old(
                indices)@[k],
        forall|k: int|
            0 <= k < final(indices)@.len() ==> (#[trigger] final(indices)@[k]) < objects@.len(),
        forall|u: usize|
            #[trigger] window_has(final(indices)@, lo as int, hi as int, u) <==> window_has(
                old(indices)@, lo as int, hi as int, u),
        final(indices)@.to_multiset() == old(indices)@.to_multiset(),
        forall|j: int, k: int|
            lo <= j < k < hi ==> #[trigger] sort_key(objects@, final(indices)@[j], axis)
                <= #[trigger] sort_key(objects@, final(indices)@[k], axis),
{
    let mut a: usize = lo;
    while a < hi
        invariant
            lo <= a <= hi,
            hi <= indices@.len(),
            indices@.len() == old(indices)@.len(),
            forall|k: int|
                0 <= k < old(indices)@.len() && !(lo <= k < hi) ==> indices@[k] == old(
                    indices)@[k],
            forall|k: int| 0 <= k < indices@.len() ==> (#[trigger] indices@[k]) < objects@.len(),
            forall|u: usize|
                #[trigger] window_has(indices@, lo as int, hi as int, u) <==> window_has(
                    old(indices)@, lo as int, hi as int, u),
            indices@.to_multiset() == old(indices)@.to_multiset(),
            forall|j: int, k: int|
                lo <= j < k < a ==> #[trigger] sort_key(objects@, indices@[j], axis)
                    <= #[trigger] sort_key(objects@, indices@[k], axis),
            forall|j: int, k: int|
                lo <= j < a && a <= k < hi ==> #[trigger] sort_key(objects@, indices@[j], axis)
                    <= #[trigger] sort_key(objects@, indices@[k], axis),
        decreases hi - a,
    {
        let mut b: usize = a + 1;
        let mut m: usize = a;
        while b < hi
            invariant
                lo <= a < hi,
                a < b <= hi + 1,
                b <= hi,
                a <= m < b,
                hi <= indices@.len(),
                forall|k: int| 0 <= k < indices@.len() ==> (#[trigger] indices@[k])
                    < objects@.len(),
                forall|j: int|
                    a <= j < b ==> sort_key(objects@, indices@[m as int], axis)
                        <= #[trigger] sort_key(objects@, indices@[j], axis),
            decreases hi - b,
        {
            let ib: usize = indices[b];
            let im: usize = indices[m];
            if box_min_key(objects, ib, axis) < box_min_key(objects, im, axis) {
                m = b;
            }
            b += 1;
        }
        let ghost before = indices@;
        let va: usize = indices[a];
        let vm: usize = indices[m];
        indices[a] = vm;
        indices[m] = va;
        proof {
            assert(indices@ =~= before.update(a as int, before[m as int]).update(m as int,
                before[a as int]));
            lemma_swap_multiset(before, a as int, m as int);
            assert forall|u: usize|
                #[trigger] window_has(indices@, lo as int, hi as int, u) <==> window_has(
                    old(indices)@, lo as int, hi as int, u) by {
                lemma_swap_window(before, lo as int, hi as int, a as int, m as int, u);
                assert(window_has(before, lo as int, hi as int, u) <==> window_has(old(indices)@,
                    lo as int, hi as int, u));
            }
            // the selected minimum now heads the unsorted window, so both
            // the sorted prefix and the separation grow by one position
            assert forall|j: int, k: int|
                lo <= j < a + 1 && a + 1 <= k < hi implies #[trigger] sort_key(objects@,
                indices@[j], axis) <= #[trigger] sort_key(objects@, indices@[k], axis) by {
                if k == m {
                    assert(indices@[k] == before[a as int]);
                } else {
                    assert(indices@[k] == before[k]);
                }
                if j < a {
                    assert(indices@[j] == before[j]);
                } else {
                    assert(indices@[j] == before[m as int]);
                }
            }
            assert forall|j: int, k: int|
                lo <= j < k < a + 1 implies #[trigger] sort_key(objects@, indices@[j], axis)
                    <= #[trigger] sort_key(objects@, indices@[k], axis) by {
                if k == a as int {
                    assert(indices@[j] == before[j]);
                    assert(indices@[k] == before[m as int]);
                }
            }
        }
        a += 1;
    }
}

/// The union box of the primitives named by a window of `indices`.
#[verifier::rlimit(50)]
fn union_box(objects: &Vec<Hittable>, indices: &Vec<usize>, lo: usize, hi: usize) -> (r: AABB)
    requires
        arena_wf(objects@),
        lo <= hi <= indices@.len(),
        forall|k: int| 0 <= k < indices@.len() ==> (#[trigger] indices@[k]) < objects@.len(),
    ensures
        cached_box_ok(r),
{
    let mut bbox: AABB = AABB::empty();
    let mut k: usize = lo;
    while k < hi
        invariant
            lo <= k <= hi,
            hi <= indices@.len(),
            arena_wf(objects@),
            forall|j: int| 0 <= j < indices@.len() ==> (#[trigger] indices@[j]) < objects@.len(),
            cached_box_ok(bbox),
        decreases hi - k,
    {
        let idx: usize = indices[k];
        proof {
            assert(objects@[idx as int].wf());
        }
        bbox = AABB::from_bounding_box(&bbox, objects[idx].bounding_box());
        k += 1;
    }
    bbox
}

impl BVHNode {
    /// The degenerate one-primitive node: both children are that primitive,
    /// so traversal needs no leaf special case.
    #[verifier::rlimit(50)]
    fn build_single(objects: &Vec<Hittable>, i: usize) -> (r: BVHNode)
        requires
            arena_wf(objects@),
            i < objects@.len(),
        ensures
            r.wf(objects@),
            r.idxs() == seq![i, i],
            r.bounding_box.in_bounds((COORD_LIMIT + 2) as int),
    {
        proof {
            assert(objects@[i as int].wf());
        }
        let node_box: AABB = AABB::from_bounding_box(objects[i].bounding_box(),
            objects[i].bounding_box());
        let node = BVHNode {
            left: BVHChild::Leaf(i),
            right: BVHChild::Leaf(i),
            bounding_box: node_box,
        };
        proof {
            assert(node.idxs() =~= seq![i, i]);
        }
        node
    }

    /// A node holding exactly the primitives `a` (left) and `b` (right).
    #[verifier::rlimit(100)]
    #[verifier::spinoff_prover]
    fn make_pair(objects: &Vec<Hittable>, a: usize, b: usize) -> (r: BVHNode)
        requires
            arena_wf(objects@),
            a < objects@.len(),
            b < objects@.len(),
        ensures
            r.wf(objects@),
            r.idxs() == seq![a, b],
            r.bounding_box.in_bounds((COORD_LIMIT + 2) as int),
    {
        proof {
            assert(objects@[a as int].wf());
            assert(objects@[b as int].wf());
        }
        let box_a: &AABB = objects[a].bounding_box();
        let box_b: &AABB = objects[b].bounding_box();
        let node_box: AABB = AABB::from_bounding_box(box_a, box_b);
        proof {
            assert(node_box.x.spec_size() >= 1);
            assert(node_box.y.spec_size() >= 1);
            assert(node_box.z.spec_size() >= 1);
            assert(node_box.in_bounds((COORD_LIMIT + 2) as int));
            assert(cached_box_ok(node_box));
        }
        let node = BVHNode {
            left: BVHChild::Leaf(a),
            right: BVHChild::Leaf(b),
            bounding_box: node_box,
        };
        proof {
            assert(node.idxs() =~= seq![a, b]);
        }
        node
    }

    /// A node of two primitives, ordered by the box comparator on `axis`:
    /// the smaller box minimum goes left.
    fn build_pair(objects: &Vec<Hittable>, i0: usize, i1: usize, axis: Axis) -> (r: BVHNode)
        requires
            arena_wf(objects@),
            i0 < objects@.len(),
            i1 < objects@.len(),
        ensures
            r.wf(objects@),
            r.idxs() == seq![i0, i1] || r.idxs() == seq![i1, i0],
            r.bounding_box.in_bounds((COORD_LIMIT + 2) as int),
    {
        if box_min_key(objects, i0, axis) <= box_min_key(objects, i1, axis) {
            Self::make_pair(objects, i0, i1)
        } else {
            Self::make_pair(objects, i1, i0)
        }
    }

    /// Build a subtree over the window `[lo, hi)` of `indices`: one index
    /// duplicates into both children, two are ordered by the box comparator,
    /// more are ordered along the union box's longest axis and split at the
    /// middle. The window is reordered in place; the subtree holds exactly
    /// the window's indices.
    #[verifier::rlimit(100)]
    fn build_range(objects: &Vec<Hittable>, indices: &mut Vec<usize>, lo: usize, hi: usize) -> (r:
        BVHNode)
        requires
            arena_wf(objects@),
            lo < hi <= old(indices)@.len(),
            forall|k: int|
                0 <= k < old(indices)@.len() ==> (#[trigger] old(indices)@[k]) < objects@.len(),
        ensures
            r.wf(objects@),
            final(indices)@.len() == old(indices)@.len(),
            forall|k: int|
                0 <= k < old(indices)@.len() && !(lo <= k < hi) ==> final(indices)@[k] == old(
                    indices)@[k],
            forall|k: int|
                0 <= k < final(indices)@.len() ==> (#[trigger] final(indices)@[k])
                    < objects@.len(),
            forall|u: usize|
                #[trigger] r.idxs().contains(u) <==> window_has(old(indices)@, lo as int,
                    hi as int, u),
            final(indices)@.to_multiset() == old(indices)@.to_multiset(),
            r.bounding_box.in_bounds((COORD_LIMIT + 2) as int),
        decreases hi - lo,
    {
        let bbox: AABB = union_box(objects, indices, lo, hi);
        let axis: Axis = bbox.longest_axis();
        let span: usize = hi - lo;
        if span == 1 {
            let i: usize = indices[lo];
            let node: BVHNode = Self::build_single(objects, i);
            proof {
                assert forall|u: usize|
                    #[trigger] node.idxs().contains(u) <==> window_has(old(indices)@, lo as int,
                        hi as int, u) by {
                    if node.idxs().contains(u) {
                        assert(old(indices)@[lo as int] == u);
                        assert(window_has(old(indices)@, lo as int, hi as int, u));
                    }
                    if window_has(old(indices)@, lo as int, hi as int, u) {
                        let j = choose|j: int| lo <= j < hi && old(indices)@[j] == u;
                        assert(u == i);
                        assert(node.idxs()[0] == u);
                    }
                }
            }
            node
        } else if span == 2 {
            let i0: usize = indices[lo];
            let i1: usize = indices[lo + 1];
            let node: BVHNode = Self::build_pair(objects, i0, i1, axis);
            proof {
                assert forall|u: usize|
                    #[trigger] node.idxs().contains(u) <==> window_has(old(indices)@, lo as int,
                        hi as int, u) by {
                    if node.idxs().contains(u) {
                        assert(u == i0 || u == i1);
                        if u == i0 {
                            assert(old(indices)@[lo as int] == u);
                        } else {
                            assert(old(indices)@[lo + 1 as int] == u);
                        }
                        assert(window_has(old(indices)@, lo as int, hi as int, u));
                    }
                    if window_has(old(indices)@, lo as int, hi as int, u) {
                        let j = choose|j: int| lo <= j < hi && old(indices)@[j] == u;
                        assert(u == i0 || u == i1);
                        if node.idxs() == seq![i0, i1] {
                            assert(node.idxs()[0] == i0 && node.idxs()[1] == i1);
                        } else {
                            assert(node.idxs()[0] == i1 && node.idxs()[1] == i0);
                        }
                    }
                }
            }
            node
        } else {
            sort_range(objects, indices, lo, hi, axis);
            let ghost s1 = indices@;
            let mid: usize = lo + span / 2;
            let left_node: BVHNode = Self::build_range(objects, indices, lo, mid);
            let ghost s2 = indices@;
            let right_node: BVHNode = Self::build_range(objects, indices, mid, hi);
            let node_box: AABB = AABB::from_bounding_box(&left_node.bounding_box,
                &right_node.bounding_box);
            let node = BVHNode {
                left: BVHChild::Node(Box::new(left_node)),
                right: BVHChild::Node(Box::new(right_node)),
                bounding_box: node_box,
            };
            proof {
                assert forall|u: usize|
                    #[trigger] node.idxs().contains(u) <==> window_has(old(indices)@, lo as int,
                        hi as int, u) by {
                    assert(node.left.idxs() == left_node.idxs());
                    assert(node.right.idxs() == right_node.idxs());
                    lemma_concat_contains(left_node.idxs(), right_node.idxs(), u);
                    assert(left_node.idxs().contains(u) <==> window_has(s1, lo as int, mid as int,
                        u));
                    assert(right_node.idxs().contains(u) <==> window_has(s2, mid as int, hi as int,
                        u));
                    lemma_window_pointwise(s2, s1, mid as int, hi as int, u);
                    lemma_window_split(s1, lo as int, mid as int, hi as int, u);
                    assert(window_has(s1, lo as int, hi as int, u) <==> window_has(old(indices)@,
                        lo as int, hi as int, u));
                }
            }
            node
        }
    }

    /// Build a tree over every index of the slice, reordering it in place.
    pub fn from_slice(objects: &Vec<Hittable>, indices: &mut Vec<usize>) -> (r: BVHNode)
        requires
            arena_wf(objects@),
            1 <= old(indices)@.len(),
            forall|k: int|
                0 <= k < old(indices)@.len() ==> (#[trigger] old(indices)@[k]) < objects@.len(),
        ensures
            r.wf(objects@),
            forall|u: usize| #[trigger] r.idxs().contains(u) <==> old(indices)@.contains(u),
            final(indices)@.len() == old(indices)@.len(),
            final(indices)@.to_multiset() == old(indices)@.to_multiset(),
            forall|u: usize| #[trigger] final(indices)@.contains(u) <==> old(indices)@.contains(
                u),
    {
        let n: usize = indices.len();
        let node: BVHNode = Self::build_range(objects, indices, 0, n);
        proof {
            assert forall|u: usize|
                #[trigger] node.idxs().contains(u) <==> old(indices)@.contains(u) by {
                assert(node.idxs().contains(u) <==> window_has(old(indices)@, 0, n as int, u));
            }
            assert forall|u: usize|
                #[trigger] indices@.contains(u) <==> old(indices)@.contains(u) by {
                indices@.to_multiset_ensures();
                old(indices)@.to_multiset_ensures();
                assert(indices@.contains(u) <==> indices@.to_multiset().count(u) > 0);
                assert(old(indices)@.contains(u) <==> old(indices)@.to_multiset().count(u) > 0);
            }
        }
        node
    }

    /// Build a tree over every primitive of a collection.
    pub fn from_hittable_list(list: &HittableList) -> (r: BVHNode)
        requires
            list.wf(),
            1 <= list.objects@.len(),
        ensures
            r.wf(list.objects@),
            forall|u: usize| #[trigger] r.idxs().contains(u) <==> (u as int) < list.objects@.len(),
    {
        let n: usize = list.objects.len();
        let mut indices: Vec<usize> = Vec::new();
        let mut k: usize = 0;
        while k < n
            invariant
                k <= n,
                indices@.len() == k,
                forall|j: int| 0 <= j < k ==> indices@[j] == j,
            decreases n - k,
        {
            indices.push(k);
            k += 1;
        }
        let ghost init = indices@;
        let node: BVHNode = Self::from_slice(&list.objects, &mut indices);
        proof {
            assert forall|u: usize|
                #[trigger] node.idxs().contains(u) <==> (u as int) < list.objects@.len() by {
                if (u as int) < list.objects@.len() {
                    assert(init[u as int] == u);
                    assert(init.contains(u));
                }
                if init.contains(u) {
                    let j = choose|j: int| 0 <= j < init.len() && init[j] == u;
                    assert(init[j] == j);
                }
            }
        }
        node
    }
}

} // verus!
