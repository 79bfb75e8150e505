//! The scene aggregate: anything intersectable, and an ordered collection
//! of such surfaces that answers with the closest hit among its members.

use vstd::prelude::*;

use crate::hit::{rec_wf, HitRecV, HitRecord};
use crate::ray::{ray_wf, Ray, RayV, T_FAR};
use crate::sphere::{sphere_hit_spec, sphere_wf, Sphere};

verus! {

/// A surface that can be intersected. The variant set is closed; a sphere
/// is the one primitive, and the scene list answers the same protocol.
#[derive(Clone, Copy)]
pub enum Hittable {
    Sphere(Sphere),
}

/// The member surface is well-formed.
pub open spec fn hittable_wf(h: Hittable) -> bool {
    match h {
        Hittable::Sphere(s) => sphere_wf(s@),
    }
}

/// What intersecting one surface returns.
pub open spec fn obj_hit_spec(h: Hittable, r: RayV, t_min: int, t_max: int) -> Option<HitRecV> {
    match h {
        Hittable::Sphere(s) => sphere_hit_spec(s@, r, t_min, t_max),
    }
}

impl Hittable {
    /// Intersect one surface.
    pub fn hit(&self, ray: &Ray, t_min: i64, t_max: i64) -> (res: Option<HitRecord>)
        requires
            hittable_wf(*self),
            ray_wf(ray@),
            0 <= t_min,
            t_max <= T_FAR,
        ensures
            match res {
                Some(h) => {
                    &&& Some(h@) == obj_hit_spec(*self, ray@, t_min as int, t_max as int)
                    &&& rec_wf(h@)
                    &&& t_min <= h@.t <= t_max
                },
                None => obj_hit_spec(*self, ray@, t_min as int, t_max as int) is None,
            },
    {
        match self {
            Hittable::Sphere(s) => s.hit(ray, t_min, t_max),
        }
    }
}

/// The closest hit among the members of a list, scanning front to back;
/// on an exact tie the earlier member wins.
pub open spec fn list_hit_spec(
    objs: Seq<Hittable>,
    r: RayV,
    t_min: int,
    t_max: int,
) -> Option<HitRecV>
    decreases objs.len(),
{
    if objs.len() <= 0 {
        None
    } else {
        let prev = list_hit_spec(objs.drop_last(), r, t_min, t_max);
        let cur = obj_hit_spec(objs.last(), r, t_min, t_max);
        match cur {
            Some(c) => match prev {
                Some(p) => if c.t < p.t {
                    Some(c)
                } else {
                    Some(p)
                },
                None => Some(c),
            },
            None => prev,
        }
    }
}

/// Every member of the list is well-formed.
pub open spec fn list_wf(objs: Seq<Hittable>) -> bool {
    forall|i: int| 0 <= i < objs.len() ==> hittable_wf(#[trigger] objs[i])
}

/// An ordered collection of surfaces; the scene owns its members.
pub struct HitList {
    pub objects: Vec<Hittable>,
}

impl HitList {
    pub fn new() -> (r: HitList)
        ensures
            r.objects@.len() == 0,
    {
        HitList { objects: Vec::new() }
    }

    pub fn clear(&mut self)
        ensures
            final(self).objects@.len() == 0,
    {
        self.objects.clear();
    }

    pub fn add(&mut self, obj: Hittable)
        ensures
            final(self).objects@ == old(self).objects@.push(obj),
    {
        self.objects.push(obj);
    }

    /// The closest hit among all members within `[t_min, t_max]`, if any.
    pub fn hit(&self, ray: &Ray, t_min: i64, t_max: i64) -> (res: Option<HitRecord>)
        requires
            list_wf(self.objects@),
            ray_wf(ray@),
            0 <= t_min,
            t_max <= T_FAR,
        ensures
            match res {
                Some(h) => {
                    &&& Some(h@) == list_hit_spec(
                        self.objects@,
                        ray@,
                        t_min as int,
                        t_max as int,
                    )
                    &&& rec_wf(h@)
                    &&& t_min <= h@.t <= t_max
                },
                None => list_hit_spec(self.objects@, ray@, t_min as int, t_max as int) is None,
            },
    {
        let mut best: Option<HitRecord> = None;
        let mut i: usize = 0;
        while i < self.objects.len()
            invariant
                i <= self.objects@.len(),
                list_wf(self.objects@),
                ray_wf(ray@),
                0 <= t_min,
                t_max <= T_FAR,
                match best {
                    Some(h) => {
                        &&& Some(h@) == list_hit_spec(
                            self.objects@.take(i as int),
                            ray@,
                            t_min as int,
                            t_max as int,
                        )
                        &&& rec_wf(h@)
                        &&& t_min <= h@.t <= t_max
                    },
                    None => list_hit_spec(
                        self.objects@.take(i as int),
                        ray@,
                        t_min as int,
                        t_max as int,
                    ) is None,
                },
            decreases self.objects@.len() - i,
        {
            let cur = self.objects[i].hit(ray, t_min, t_max);
            proof {
                assert(self.objects@.take(i as int + 1).drop_last() =~= self.objects@.take(
                    i as int,
                ));
                assert(self.objects@.take(i as int + 1).last() == self.objects@[i as int]);
            }
            match cur {
                Some(c) => {
                    match best {
                        Some(b) => {
                            if c.t < b.t {
                                best = Some(c);
                            }
                        },
                        None => {
                            best = Some(c);
                        },
                    }
                },
                None => {},
            }
            i = i + 1;
        }
        proof {
            assert(self.objects@.take(self.objects@.len() as int) =~= self.objects@);
        }
        best
    }
}

/// The aggregate returns the closest member hit: where the list answers
/// with a record, no member intersects at a smaller parameter, and the
/// record is one member's answer; where the list answers nothing, no
/// member intersects at all.
pub proof fn lemma_list_hit_closest(objs: Seq<Hittable>, r: RayV, t_min: int, t_max: int)
    ensures
        match list_hit_spec(objs, r, t_min, t_max) {
            Some(h) => {
                &&& forall|i: int|
                    0 <= i < objs.len() ==> match #[trigger] obj_hit_spec(objs[i], r, t_min, t_max) {
                        Some(o) => h.t <= o.t,
                        None => true,
                    }
                &&& exists|i: int|
                    0 <= i < objs.len() && obj_hit_spec(objs[i], r, t_min, t_max) == Some(h)
            },
            None => forall|i: int|
                0 <= i < objs.len() ==> (#[trigger] obj_hit_spec(objs[i], r, t_min, t_max))
                    is None,
        },
    decreases objs.len(),
{
    if objs.len() > 0 {
        lemma_list_hit_closest(objs.drop_last(), r, t_min, t_max);
        assert(forall|i: int|
            0 <= i < objs.len() - 1 ==> objs.drop_last()[i] == #[trigger] objs[i]);
        let prev = list_hit_spec(objs.drop_last(), r, t_min, t_max);
        let cur = obj_hit_spec(objs.last(), r, t_min, t_max);
        match list_hit_spec(objs, r, t_min, t_max) {
            Some(h) => {
                if prev is Some && (cur is None || prev.unwrap().t <= cur.unwrap().t) {
                    let j = choose|j: int|
                        0 <= j < objs.len() - 1 && obj_hit_spec(objs.drop_last()[j], r, t_min, t_max)
                            == Some(h);
                    assert(obj_hit_spec(objs[j], r, t_min, t_max) == Some(h));
                } else {
                    assert(obj_hit_spec(objs[objs.len() - 1], r, t_min, t_max) == Some(h));
                }
            },
            None => {},
        }
    }
}

} // verus!
