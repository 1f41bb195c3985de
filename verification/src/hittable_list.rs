use vstd::prelude::*;
use crate::aabb::AABB;
use crate::hittable::{lemma_hit_narrow, lemma_hit_record_props, HitRecord, Hittable};
use crate::interval::{Interval, INTERVAL_LIMIT};
use crate::rat::{lemma_rat_le_trans, TInterval};
use crate::ray::Ray;
use crate::vec3::COORD_LIMIT;

verus! {

/// `result` is the nearest hit of the ray among `objects` over the range:
/// absent exactly when no object is hit; otherwise the record of some hit
/// object whose parameter is least among all hit objects.
pub open spec fn is_nearest_hit(
    objects: Seq<Hittable>,
    ray: Ray,
    ray_t: TInterval,
    result: Option<HitRecord>,
) -> bool {
    match result {
        None => forall|i: int|
            0 <= i < objects.len() ==> (#[trigger] objects[i].spec_hit(ray, ray_t)) is None,
        Some(rec) => {
            &&& exists|i: int|
                0 <= i < objects.len() && (#[trigger] objects[i].spec_hit(ray, ray_t)) == Some(rec)
            &&& forall|i: int|
                0 <= i < objects.len() ==> (match #[trigger] objects[i].spec_hit(ray, ray_t) {
                    Some(other) => rec.t.spec_le(other.t),
                    None => true,
                })
        },
    }
}

/// A cached box is either still the empty sentinel or a box of positive
/// thickness near the coordinate grid.
pub open spec fn cached_box_ok(b: AABB) -> bool {
    ||| b == (AABB {
        x: Interval { min: (INTERVAL_LIMIT - 2) as i64, max: (-(INTERVAL_LIMIT - 2)) as i64 },
        y: Interval { min: (INTERVAL_LIMIT - 2) as i64, max: (-(INTERVAL_LIMIT - 2)) as i64 },
        z: Interval { min: (INTERVAL_LIMIT - 2) as i64, max: (-(INTERVAL_LIMIT - 2)) as i64 },
    })
    ||| {
        &&& b.in_bounds((COORD_LIMIT + 2) as int)
        &&& b.x.spec_size() >= 1
        &&& b.y.spec_size() >= 1
        &&& b.z.spec_size() >= 1
    }
}

/// A flat collection of primitives with a cached union bounding box.
pub struct HittableList {
    pub objects: Vec<Hittable>,
    pub bounding_box: AABB,
}

impl HittableList {
    pub open spec fn spec_bbox(self) -> AABB {
        self.bounding_box
    }

    pub open spec fn wf(self) -> bool {
        &&& forall|i: int| 0 <= i < self.objects@.len() ==> (#[trigger] self.objects@[i]).wf()
        &&& cached_box_ok(self.bounding_box)
        &&& forall|i: int|
            0 <= i < self.objects@.len() ==> self.bounding_box.encloses(
                (#[trigger] self.objects@[i]).spec_bbox())
    }

    pub fn new() -> (r: HittableList)
        ensures
            r.objects@.len() == 0,
            r.wf(),
    {
        HittableList { objects: Vec::new(), bounding_box: AABB::empty() }
    }

    pub fn from_object(object: Hittable) -> (r: HittableList)
        requires
            object.wf(),
        ensures
            r.wf(),
            r.objects@ == seq![object],
    {
        let mut list = HittableList::new();
        list.add(object);
        proof {
            assert(list.objects@ =~= seq![object]);
        }
        list
    }

    /// Drop every object; the cached box keeps its last value.
    pub fn clear(&mut self)
        requires
            old(self).wf(),
        ensures
            final(self).wf(),
            final(self).objects@.len() == 0,
    {
        self.objects.clear();
    }

    /// Append an object; the cached box becomes exactly the padded union of
    /// the old cached box and the object's box.
    pub fn add(&mut self, object: Hittable)
        requires
            old(self).wf(),
            object.wf(),
        ensures
            final(self).wf(),
            final(self).objects@ == old(self).objects@.push(object),
            final(self).bounding_box.x == Interval::spec_pad(Interval::spec_union(
                old(self).bounding_box.x, object.spec_bbox().x)),
            final(self).bounding_box.y == Interval::spec_pad(Interval::spec_union(
                old(self).bounding_box.y, object.spec_bbox().y)),
            final(self).bounding_box.z == Interval::spec_pad(Interval::spec_union(
                old(self).bounding_box.z, object.spec_bbox().z)),
    {
        self.bounding_box = AABB::from_bounding_box(&self.bounding_box, object.bounding_box());
        self.objects.push(object);
        proof {
            assert forall|i: int| 0 <= i < self.objects@.len() implies self.bounding_box.encloses(
                (#[trigger] self.objects@[i]).spec_bbox()) by {
                if i < self.objects@.len() - 1 {
                    assert(old(self).bounding_box.encloses(self.objects@[i].spec_bbox()));
                }
            }
        }
    }

    pub fn bounding_box(&self) -> (r: &AABB)
        ensures
            r == self.spec_bbox(),
    {
        &self.bounding_box
    }

    /// The nearest hit among the collection's objects: scan them in order,
    /// shrinking the upper end of the query range to each hit found.
    pub fn hit(&self, ray: &Ray, ray_t: &TInterval) -> (r: Option<HitRecord>)
        requires
            self.wf(),
            ray.in_bounds(COORD_LIMIT as int),
            ray_t.wf(),
        ensures
            is_nearest_hit(self.objects@, *ray, *ray_t, r),
    {
        let mut hit_rec: Option<HitRecord> = None;
        let mut closest: TInterval = *ray_t;
        let n: usize = self.objects.len();
        let mut i: usize = 0;
        while i < n
            invariant
                n == self.objects@.len(),
                i <= n,
                self.wf(),
                ray.in_bounds(COORD_LIMIT as int),
                ray_t.wf(),
                closest.wf(),
                closest.min == ray_t.min,
                closest.max.spec_le(ray_t.max),
                (match hit_rec {
                    None => closest == *ray_t && (forall|j: int|
                        0 <= j < i ==> (#[trigger] self.objects@[j].spec_hit(*ray, *ray_t))
                            is None),
                    Some(rec) => {
                        &&& closest.max == rec.t
                        &&& exists|j: int|
                            0 <= j < i && (#[trigger] self.objects@[j].spec_hit(*ray, *ray_t))
                                == Some(rec)
                        &&& forall|j: int|
                            0 <= j < i ==> (match #[trigger] self.objects@[j].spec_hit(*ray,
                                *ray_t) {
                                Some(other) => rec.t.spec_le(other.t),
                                None => true,
                            })
                    },
                }),
            decreases n - i,
        {
            let obj: &Hittable = &self.objects[i];
            proof {
                assert(self.objects@[i as int].wf());
            }
            let res: Option<HitRecord> = obj.hit(ray, &closest);
            proof {
                lemma_hit_narrow(self.objects@[i as int], *ray, *ray_t, closest);
                if let Some(r2) = res {
                    lemma_hit_record_props(self.objects@[i as int], *ray, closest, r2);
                    lemma_rat_le_trans(r2.t, closest.max, ray_t.max);
                    if let Some(rec) = hit_rec {
                        assert forall|j: int| 0 <= j < i + 1 implies (
                        match #[trigger] self.objects@[j].spec_hit(*ray, *ray_t) {
                            Some(other) => r2.t.spec_le(other.t),
                            None => true,
                        }) by {
                            if j < i {
                                match self.objects@[j].spec_hit(*ray, *ray_t) {
                                    Some(other) => {
                                        lemma_hit_record_props(self.objects@[j], *ray, *ray_t,
                                            other);
                                        lemma_rat_le_trans(r2.t, rec.t, other.t);
                                    },
                                    None => {},
                                }
                            }
                        }
                    }
                }
            }
            match res {
                Some(r2) => {
                    closest = TInterval::new(ray_t.min, r2.t);
                    hit_rec = Some(r2);
                },
                None => {
                    proof {
                        if let Some(rec) = hit_rec {
                            if let Some(other) = self.objects@[i as int].spec_hit(*ray, *ray_t) {
                                assert(rec.t.spec_le(other.t));
                            }
                        }
                    }
                },
            }
            i += 1;
        }
        hit_rec
    }
}

} // verus!
