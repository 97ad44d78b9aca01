//! The scene: a list of spheres that answers with the nearest hit.

use crate::hittable::HitRecord;
use crate::hittable::Hittable;
use crate::interval::Interval;
use crate::material::Material;
use crate::ray::Ray;
use crate::scalar::Scalar;
use crate::sphere::lemma_hit_shrink;
use crate::sphere::Sphere;
use vstd::prelude::*;

verus! {

pub struct HittableList {
    pub objects: Vec<Sphere>,
}

/// The nearer of two hits; the first where both are equally near.
pub open spec fn closer(first: Option<HitRecord>, second: Option<HitRecord>) -> Option<HitRecord> {
    match (first, second) {
        (Some(a), Some(b)) => if b.t@ < a.t@ {
            second
        } else {
            first
        },
        (Some(a), None) => first,
        (None, _) => second,
    }
}

/// The upper bound that is left for the search once `best` is found.
pub open spec fn limit(best: Option<HitRecord>, ray_t: Interval) -> Scalar {
    match best {
        Some(h) => h.t,
        None => ray_t.max,
    }
}

/// The nearest hit of the ray `r` among `objects`, found as the scan finds it:
/// each sphere is tried within what is left of the range `ray_t` below the
/// best hit so far.
pub open spec fn scan(objects: Seq<Sphere>, r: Ray, ray_t: Interval) -> Option<HitRecord>
    decreases objects.len(),
{
    if objects.len() == 0 {
        None
    } else {
        let best = scan(objects.drop_last(), r, ray_t);
        closer(
            best,
            objects.last().hit_spec(r, Interval { min: ray_t.min, max: limit(best, ray_t) }),
        )
    }
}

impl HittableList {
    pub fn new() -> (r: HittableList)
        ensures
            r.objects@ == Seq::<Sphere>::empty(),
            r.wf(),
    {
        HittableList { objects: Vec::new() }
    }

    pub fn clear(&mut self)
        ensures
            final(self).objects@ == Seq::<Sphere>::empty(),
            final(self).wf(),
    {
        self.objects.clear();
    }

    pub fn add(&mut self, object: Sphere)
        ensures
            final(self).objects@ == old(self).objects@.push(object),
            old(self).wf() && object.wf() ==> final(self).wf(),
    {
        self.objects.push(object);
    }
}

impl Hittable for HittableList {
    open spec fn wf(&self) -> bool {
        forall|i: int| 0 <= i < self.objects@.len() ==> (#[trigger] self.objects@[i]).wf()
    }

    open spec fn hit_spec(&self, r: Ray, ray_t: Interval) -> Option<HitRecord> {
        scan(self.objects@, r, ray_t)
    }

    fn hit(&self, r: &Ray, ray_t: Interval) -> (res: Option<HitRecord>)
        ensures
            nearest_among(self.objects@, *r, ray_t, res),
    {
        let mut hit_anything: Option<HitRecord> = None;
        let mut closest_so_far = ray_t.max;
        let mut i: usize = 0;
        while i < self.objects.len()
            invariant
                0 <= i <= self.objects@.len(),
                self.wf(),
                r.directed(),
                hit_anything == scan(self.objects@.take(i as int), *r, ray_t),
                closest_so_far == limit(hit_anything, ray_t),
                hit_anything matches Some(h) ==> ray_t.contains_spec(h.t) && h.mat.wf(),
            decreases self.objects@.len() - i,
        {
            assert(self.objects@.take(i + 1).drop_last() == self.objects@.take(i as int));
            if let Some(hit) = self.objects[i].hit(r, Interval::new(ray_t.min, closest_so_far)) {
                let nearer = match hit_anything {
                    Some(best) => hit.t.raw < best.t.raw,
                    None => true,
                };
                if nearer {
                    closest_so_far = hit.t;
                    hit_anything = Some(hit);
                }
            }
            i = i + 1;
        }
        assert(self.objects@.take(i as int) == self.objects@);
        proof {
            lemma_scan_nearest(self.objects@, *r, ray_t);
        }
        hit_anything
    }
}

/// Whether two results lie equally far along the ray.
pub open spec fn same_distance(first: Option<HitRecord>, second: Option<HitRecord>) -> bool {
    match (first, second) {
        (Some(a), Some(b)) => a.t == b.t,
        (None, None) => true,
        _ => false,
    }
}

/// Whether `res` is a nearest hit of the ray `r` among `objects` within
/// `ray_t`: the hit of one of the spheres within the range, with no sphere hit
/// nearer, or nothing where no sphere is hit.
pub open spec fn nearest_among(
    objects: Seq<Sphere>,
    r: Ray,
    ray_t: Interval,
    res: Option<HitRecord>,
) -> bool {
    match res {
        Some(h) => {
            &&& ray_t.contains_spec(h.t)
            &&& exists|i: int|
                0 <= i < objects.len() && (#[trigger] objects[i]).hit_spec(r, ray_t) == Some(h)
            &&& forall|j: int|
                0 <= j < objects.len() ==> ((#[trigger] objects[j]).hit_spec(
                    r,
                    ray_t,
                ) matches Some(g) ==> h.t@ <= g.t@)
        },
        None => forall|j: int|
            0 <= j < objects.len() ==> (#[trigger] objects[j]).hit_spec(r, ray_t) is None,
    }
}

/// The scan finds a nearest hit.
pub proof fn lemma_scan_nearest(objects: Seq<Sphere>, r: Ray, ray_t: Interval)
    requires
        r.directed(),
    ensures
        nearest_among(objects, r, ray_t, scan(objects, r, ray_t)),
    decreases objects.len(),
{
    if objects.len() > 0 {
        let front = objects.drop_last();
        let last = objects.last();
        lemma_scan_nearest(front, r, ray_t);
        let best = scan(front, r, ray_t);
        lemma_hit_shrink(last, r, ray_t, limit(best, ray_t));
        assert(forall|j: int| 0 <= j < front.len() ==> front[j] == objects[j]);
        assert(objects[objects.len() - 1] == last);
        match scan(objects, r, ray_t) {
            Some(h) => {
                if best == Some(h) {
                    let i = choose|i: int|
                        0 <= i < front.len() && (#[trigger] front[i]).hit_spec(r, ray_t) == Some(h);
                    assert(objects[i].hit_spec(r, ray_t) == Some(h));
                } else {
                    assert(last.hit_spec(r, ray_t) == Some(h));
                }
                assert forall|j: int| 0 <= j < objects.len() implies ((
                #[trigger] objects[j]).hit_spec(r, ray_t) matches Some(g) ==> h.t@ <= g.t@) by {
                    if j < front.len() {
                        assert(front[j] == objects[j]);
                    }
                }
            },
            None => {
                assert forall|j: int| 0 <= j < objects.len() implies (
                #[trigger] objects[j]).hit_spec(r, ray_t) is None by {
                    if j < front.len() {
                        assert(front[j] == objects[j]);
                    }
                }
            },
        }
    }
}

/// Two scenes that hold the same spheres, in whatever order and number, are
/// hit equally far along every ray.
pub proof fn lemma_scan_order(first: Seq<Sphere>, second: Seq<Sphere>, r: Ray, ray_t: Interval)
    requires
        r.directed(),
        forall|i: int| 0 <= i < first.len() ==> second.contains(#[trigger] first[i]),
        forall|i: int| 0 <= i < second.len() ==> first.contains(#[trigger] second[i]),
    ensures
        same_distance(scan(first, r, ray_t), scan(second, r, ray_t)),
{
    lemma_scan_nearest(first, r, ray_t);
    lemma_scan_nearest(second, r, ray_t);
    match scan(first, r, ray_t) {
        Some(h) => {
            let i = choose|i: int|
                0 <= i < first.len() && (#[trigger] first[i]).hit_spec(r, ray_t) == Some(h);
            assert(second.contains(first[i]));
            let j = choose|j: int| 0 <= j < second.len() && second[j] == first[i];
            assert(second[j].hit_spec(r, ray_t) == Some(h));
        },
        None => {},
    }
    match scan(second, r, ray_t) {
        Some(h) => {
            let i = choose|i: int|
                0 <= i < second.len() && (#[trigger] second[i]).hit_spec(r, ray_t) == Some(h);
            assert(first.contains(second[i]));
            let j = choose|j: int| 0 <= j < first.len() && first[j] == second[i];
            assert(first[j].hit_spec(r, ray_t) == Some(h));
        },
        None => {},
    }
}

/// The scan over two spheres returns the nearer of their two hits, and the
/// first sphere's where both are equally near.
pub proof fn lemma_pair(a: Sphere, b: Sphere, r: Ray, ray_t: Interval)
    requires
        r.directed(),
    ensures
        scan(seq![a, b], r, ray_t) == closer(a.hit_spec(r, ray_t), b.hit_spec(r, ray_t)),
{
    let both = seq![a, b];
    assert(both.drop_last() == seq![a]);
    assert(seq![a].drop_last() == Seq::<Sphere>::empty());
    assert(both.last() == b);
    assert(seq![a].last() == a);
    reveal_with_fuel(scan, 3);
    assert(Interval { min: ray_t.min, max: ray_t.max } == ray_t);
    let first = scan(seq![a], r, ray_t);
    assert(first == a.hit_spec(r, ray_t));
    lemma_hit_shrink(a, r, ray_t, ray_t.max);
    lemma_hit_shrink(b, r, ray_t, limit(first, ray_t));
}

/// The order of two spheres in the scene does not change how far the nearest
/// hit lies, and changes the hit itself only where both spheres are hit
/// equally far along the ray.
pub proof fn lemma_pair_order(a: Sphere, b: Sphere, r: Ray, ray_t: Interval)
    requires
        r.directed(),
    ensures
        same_distance(scan(seq![a, b], r, ray_t), scan(seq![b, a], r, ray_t)),
        !(a.hit_spec(r, ray_t) is Some && same_distance(
            a.hit_spec(r, ray_t),
            b.hit_spec(r, ray_t),
        )) ==> scan(seq![a, b], r, ray_t) == scan(seq![b, a], r, ray_t),
{
    lemma_pair(a, b, r, ray_t);
    lemma_pair(b, a, r, ray_t);
}

} // verus!
