//! Spheres, and the scene that picks the nearest hit among its objects.

use crate::materials::Material;
use crate::rays::{share, HitGeometry, HitResult, Hittable, Ray};
use crate::scalar::Scalar;
use crate::vecmath::Vector3;
use std::rc::Rc;
use vstd::prelude::*;

verus! {

/// What solving a ray against a sphere yields. With `a = d.d`,
/// `b = (o - c).d` and `c = (o - c).(o - c) - r*r` the ray parameter of a
/// common point satisfies `a*t*t + 2*b*t + c = 0`; `discriminant` is
/// `b*b - a*c`, `near` is the hit at the smaller root and `far` the hit at
/// the larger. Where the discriminant is not positive the two hits mean
/// nothing and are not looked at.
#[derive(Clone, Copy, Debug)]
pub struct Crossings {
    pub discriminant: Scalar,
    pub near: HitGeometry,
    pub far: HitGeometry,
}

pub struct Sphere<M: Material> {
    pub centre: Vector3,
    pub radius: Scalar,
    pub material: Rc<M>,
}

impl<M: Material> Sphere<M> {
    pub fn new(centre: Vector3, radius: Scalar, material: Rc<M>) -> (sphere: Self)
        ensures
            sphere.centre == centre,
            sphere.radius == radius,
            sphere.material == material,
    {
        Sphere { centre, radius, material }
    }

    /// The hit that the sphere reports in the window from `t_min` to
    /// `t_max`. A ray that misses or only grazes the sphere (discriminant
    /// not positive) hits nothing. Otherwise the near crossing is taken if
    /// it lies strictly inside the window, else the far crossing if that one
    /// does, else nothing.
    pub open spec fn hit_spec(&self, crossings: Crossings, t_min: Scalar, t_max: Scalar) -> Option<HitResult<M>> {
        if !crossings.discriminant.gt_spec(Scalar::zero_spec()) {
            None
        } else if crossings.near.t.within(t_min, t_max) {
            Some(HitResult { geometry: crossings.near, material: self.material })
        } else if crossings.far.t.within(t_min, t_max) {
            Some(HitResult { geometry: crossings.far, material: self.material })
        } else {
            None
        }
    }

    /// Decides the hit from the solved quadratic.
    pub fn hit(&self, crossings: &Crossings, t_min: Scalar, t_max: Scalar) -> (r: Option<HitResult<M>>)
        ensures
            r == self.hit_spec(*crossings, t_min, t_max),
            r matches Some(h) ==> h.geometry.t.within(t_min, t_max),
    {
        if !crossings.discriminant.gt(Scalar::zero()) {
            None
        } else if t_min.lt(crossings.near.t) && crossings.near.t.lt(t_max) {
            Some(HitResult { geometry: crossings.near, material: share(&self.material) })
        } else if t_min.lt(crossings.far.t) && crossings.far.t.lt(t_max) {
            Some(HitResult { geometry: crossings.far, material: share(&self.material) })
        } else {
            None
        }
    }
}

/// A sphere reports nothing when neither crossing lies beyond the start of
/// the window, as when the whole sphere is behind the ray.
pub proof fn lemma_crossings_behind_are_missed<M: Material>(
    sphere: &Sphere<M>,
    crossings: Crossings,
    t_min: Scalar,
    t_max: Scalar,
)
    requires
        !t_min.lt_spec(crossings.near.t),
        !t_min.lt_spec(crossings.far.t),
    ensures
        sphere.hit_spec(crossings, t_min, t_max) is None,
{
}

/// Of the best hit so far and one more candidate, the one to keep: the
/// candidate only if it is strictly closer, so that of two hits at the same
/// distance the earlier stays.
pub open spec fn nearer_spec<M: Material>(best: Option<HitResult<M>>, candidate: Option<HitResult<M>>) -> Option<
    HitResult<M>,
> {
    match (best, candidate) {
        (Some(b), Some(c)) => if c.geometry.t.lt_spec(b.geometry.t) {
            Some(c)
        } else {
            Some(b)
        },
        (None, c) => c,
        (b, None) => b,
    }
}

/// The nearest of a sequence of candidate hits, the earliest among equals.
pub open spec fn nearest<M: Material>(hits: Seq<Option<HitResult<M>>>) -> Option<HitResult<M>>
    decreases hits.len(),
{
    if hits.len() == 0 {
        None
    } else {
        nearer_spec(nearest(hits.drop_last()), hits.last())
    }
}

/// Of the best hit so far and one more candidate, the one to keep.
pub fn nearer<M: Material>(best: Option<HitResult<M>>, candidate: Option<HitResult<M>>) -> (r: Option<
    HitResult<M>,
>)
    ensures
        r == nearer_spec(best, candidate),
{
    match (best, candidate) {
        (Some(b), Some(c)) => if c.geometry.t.lt(b.geometry.t) {
            Some(c)
        } else {
            Some(b)
        },
        (None, c) => c,
        (b, None) => b,
    }
}

/// No candidate hit has a parameter that is NaN.
pub open spec fn all_numbers<M: Material>(hits: Seq<Option<HitResult<M>>>) -> bool {
    forall|i: int| 0 <= i < hits.len() ==> (#[trigger] hits[i] matches Some(h) ==> !h.geometry.t.is_nan_spec())
}

/// Candidate `k` is a hit, no candidate is strictly closer, and every hit
/// before it is strictly farther.
pub open spec fn wins<M: Material>(hits: Seq<Option<HitResult<M>>>, k: int) -> bool {
    &&& 0 <= k < hits.len()
    &&& hits[k] is Some
    &&& forall|j: int|
        0 <= j < hits.len() ==> (#[trigger] hits[j] matches Some(h) ==> !h.geometry.t.lt_spec(
            hits[k]->0.geometry.t,
        ))
    &&& forall|j: int|
        0 <= j < k ==> (#[trigger] hits[j] matches Some(h) ==> hits[k]->0.geometry.t.lt_spec(h.geometry.t))
}

/// `r` is the hit with the smallest parameter among `hits`, the first of
/// them where several share it, and nothing where there is no hit at all.
pub open spec fn is_nearest<M: Material>(hits: Seq<Option<HitResult<M>>>, r: Option<HitResult<M>>) -> bool {
    match r {
        None => forall|i: int| 0 <= i < hits.len() ==> #[trigger] hits[i] is None,
        Some(w) => exists|k: int| wins(hits, k) && hits[k] == Some(w),
    }
}

/// Keeping the nearer of two, candidate after candidate, ends with the hit
/// of globally smallest parameter, the first such.
pub proof fn lemma_nearest_is_first_minimum<M: Material>(hits: Seq<Option<HitResult<M>>>)
    requires
        all_numbers(hits),
    ensures
        is_nearest(hits, nearest(hits)),
    decreases hits.len(),
{
    if hits.len() > 0 {
        let init = hits.drop_last();
        let last = hits.len() - 1;
        assert forall|i: int| 0 <= i < init.len() implies (#[trigger] init[i] matches Some(h)
            ==> !h.geometry.t.is_nan_spec()) by {
            assert(init[i] == hits[i]);
        }
        lemma_nearest_is_first_minimum(init);
        let before = nearest(init);
        assert forall|j: int| 0 <= j < last implies #[trigger] hits[j] == init[j] by {}
        match (before, hits[last]) {
            (Some(b), Some(c)) => {
                let k = choose|k: int| wins(init, k) && init[k] == Some(b);
                assert(hits[k] == Some(b));
                if c.geometry.t.lt_spec(b.geometry.t) {
                    assert(wins(hits, last)) by {
                        assert forall|j: int| 0 <= j < last implies (#[trigger] hits[j] matches Some(h)
                            ==> c.geometry.t.lt_spec(h.geometry.t)) by {
                            assert(hits[j] == init[j]);
                        }
                    }
                } else {
                    assert(wins(hits, k)) by {
                        assert forall|j: int| 0 <= j < hits.len() implies (#[trigger] hits[j] matches Some(h)
                            ==> !h.geometry.t.lt_spec(b.geometry.t)) by {
                            if j < last {
                                assert(hits[j] == init[j]);
                            }
                        }
                        assert forall|j: int| 0 <= j < k implies (#[trigger] hits[j] matches Some(h)
                            ==> b.geometry.t.lt_spec(h.geometry.t)) by {
                            assert(hits[j] == init[j]);
                        }
                    }
                }
            },
            (None, Some(c)) => {
                assert(wins(hits, last)) by {
                    assert forall|j: int| 0 <= j < last implies #[trigger] hits[j] is None by {
                        assert(hits[j] == init[j]);
                    }
                }
            },
            (Some(b), None) => {
                let k = choose|k: int| wins(init, k) && init[k] == Some(b);
                assert(hits[k] == Some(b));
                assert(wins(hits, k)) by {
                    assert forall|j: int| 0 <= j < hits.len() implies (#[trigger] hits[j] matches Some(h)
                        ==> !h.geometry.t.lt_spec(b.geometry.t)) by {
                        if j < last {
                            assert(hits[j] == init[j]);
                        }
                    }
                    assert forall|j: int| 0 <= j < k implies (#[trigger] hits[j] matches Some(h)
                        ==> b.geometry.t.lt_spec(h.geometry.t)) by {
                        assert(hits[j] == init[j]);
                    }
                }
            },
            (None, None) => {
                assert forall|i: int| 0 <= i < hits.len() implies #[trigger] hits[i] is None by {
                    if i < last {
                        assert(hits[i] == init[i]);
                    }
                }
            },
        }
    }
}

/// Among candidates none of which is NaN only one result is the nearest.
pub proof fn lemma_nearest_is_unique<M: Material>(
    hits: Seq<Option<HitResult<M>>>,
    r1: Option<HitResult<M>>,
    r2: Option<HitResult<M>>,
)
    requires
        all_numbers(hits),
        is_nearest(hits, r1),
        is_nearest(hits, r2),
    ensures
        r1 == r2,
{
    match (r1, r2) {
        (Some(w1), Some(w2)) => {
            let k1 = choose|k: int| wins(hits, k) && hits[k] == Some(w1);
            let k2 = choose|k: int| wins(hits, k) && hits[k] == Some(w2);
            assert(hits[k1] is Some && hits[k2] is Some);
            assert(k1 == k2);
        },
        (Some(w1), None) => {
            let k1 = choose|k: int| wins(hits, k) && hits[k] == Some(w1);
            assert(hits[k1] is None);
        },
        (None, Some(w2)) => {
            let k2 = choose|k: int| wins(hits, k) && hits[k] == Some(w2);
            assert(hits[k2] is None);
        },
        (None, None) => {},
    }
}

/// Without the winner the nearest is the next nearest: the first minimum of
/// the candidates that are left, no closer than the winner was, and nothing
/// exactly when no other candidate is a hit.
pub proof fn lemma_nearest_without_winner<M: Material>(hits: Seq<Option<HitResult<M>>>, k: int)
    requires
        all_numbers(hits),
        wins(hits, k),
    ensures
        is_nearest(hits.remove(k), nearest(hits.remove(k))),
        nearest(hits.remove(k)) matches Some(n) ==> !n.geometry.t.lt_spec(hits[k]->0.geometry.t),
        nearest(hits.remove(k)) is None <==> (forall|j: int|
            0 <= j < hits.len() && j != k ==> #[trigger] hits[j] is None),
{
    let rest = hits.remove(k);
    assert forall|i: int| 0 <= i < rest.len() implies (#[trigger] rest[i] matches Some(h)
        ==> !h.geometry.t.is_nan_spec()) by {
        if i < k {
            assert(rest[i] == hits[i]);
        } else {
            assert(rest[i] == hits[i + 1]);
        }
    }
    lemma_nearest_is_first_minimum(rest);
    match nearest(rest) {
        Some(n) => {
            let m = choose|m: int| wins(rest, m) && rest[m] == Some(n);
            let j = if m < k {
                m
            } else {
                m + 1
            };
            assert(hits[j] == Some(n));
            assert(j != k);
        },
        None => {
            assert forall|j: int| 0 <= j < hits.len() && j != k implies #[trigger] hits[j] is None by {
                if j < k {
                    assert(rest[j] == hits[j]);
                } else {
                    assert(rest[j - 1] == hits[j]);
                }
            }
        },
    }
}

/// The order of the candidates does not change how far the nearest hit is:
/// two sequences that hold the same candidates, each as often, have a
/// nearest hit together or not at all, at the same distance. (Which of
/// several hits at that distance is kept does depend on the order.)
pub proof fn lemma_nearest_ignores_order<M: Material>(
    hits: Seq<Option<HitResult<M>>>,
    shuffled: Seq<Option<HitResult<M>>>,
)
    requires
        all_numbers(hits),
        hits.to_multiset() == shuffled.to_multiset(),
    ensures
        nearest(hits) is None <==> nearest(shuffled) is None,
        nearest(hits) is Some ==> nearest(hits)->0.geometry.t.rank() == nearest(shuffled)->0.geometry.t.rank(),
{
    hits.to_multiset_ensures();
    shuffled.to_multiset_ensures();
    assert forall|j: int| 0 <= j < shuffled.len() implies (#[trigger] shuffled[j] matches Some(h)
        ==> !h.geometry.t.is_nan_spec()) by {
        assert(shuffled.contains(shuffled[j]));
        assert(shuffled.to_multiset().count(shuffled[j]) > 0);
        assert(hits.to_multiset().count(shuffled[j]) > 0);
        assert(hits.contains(shuffled[j]));
        let i = choose|i: int| 0 <= i < hits.len() && hits[i] == shuffled[j];
        assert(hits[i] == shuffled[j]);
    }
    lemma_nearest_is_first_minimum(hits);
    lemma_nearest_is_first_minimum(shuffled);
    match (nearest(hits), nearest(shuffled)) {
        (Some(x), Some(y)) => {
            let k = choose|k: int| wins(hits, k) && hits[k] == Some(x);
            let m = choose|m: int| wins(shuffled, m) && shuffled[m] == Some(y);
            assert(hits.contains(hits[k]));
            assert(hits.to_multiset().count(Some(x)) > 0);
            assert(shuffled.to_multiset().count(Some(x)) > 0);
            assert(shuffled.contains(Some(x)));
            let j = choose|j: int| 0 <= j < shuffled.len() && shuffled[j] == Some(x);
            assert(shuffled[j] == Some(x));
            assert(shuffled.contains(shuffled[m]));
            assert(shuffled.to_multiset().count(Some(y)) > 0);
            assert(hits.to_multiset().count(Some(y)) > 0);
            assert(hits.contains(Some(y)));
            let i = choose|i: int| 0 <= i < hits.len() && hits[i] == Some(y);
            assert(hits[i] == Some(y));
        },
        (Some(x), None) => {
            let k = choose|k: int| wins(hits, k) && hits[k] == Some(x);
            assert(hits.contains(hits[k]));
            assert(hits.to_multiset().count(Some(x)) > 0);
            assert(shuffled.to_multiset().count(Some(x)) > 0);
            assert(shuffled.contains(Some(x)));
            let j = choose|j: int| 0 <= j < shuffled.len() && shuffled[j] == Some(x);
            assert(shuffled[j] is None);
        },
        (None, Some(y)) => {
            let m = choose|m: int| wins(shuffled, m) && shuffled[m] == Some(y);
            assert(shuffled.contains(shuffled[m]));
            assert(shuffled.to_multiset().count(Some(y)) > 0);
            assert(hits.to_multiset().count(Some(y)) > 0);
            assert(hits.contains(Some(y)));
            let i = choose|i: int| 0 <= i < hits.len() && hits[i] == Some(y);
            assert(hits[i] is None);
        },
        (None, None) => {},
    }
}

/// An ordered collection of objects, itself something a ray can hit.
pub struct HittableList<H: Hittable> {
    hittables: Vec<H>,
}

impl<H: Hittable> View for HittableList<H> {
    type V = Seq<H>;

    closed spec fn view(&self) -> Seq<H> {
        self.hittables@
    }
}

impl<H: Hittable> HittableList<H> {
    pub fn new() -> (list: Self)
        ensures
            list@ == Seq::<H>::empty(),
    {
        HittableList { hittables: Vec::new() }
    }

    pub fn add(&mut self, hittable: H)
        ensures
            final(self)@ == old(self)@.push(hittable),
    {
        self.hittables.push(hittable)
    }

    /// `hits` holds, object by object, something that the object's `hit`
    /// may return for this ray and window.
    pub open spec fn outcomes(
        &self,
        ray: Ray,
        t_min: Scalar,
        t_max: Scalar,
        hits: Seq<Option<HitResult<H::Surface>>>,
    ) -> bool {
        &&& hits.len() == self@.len()
        &&& forall|i: int|
            0 <= i < hits.len() ==> call_ensures(H::hit, (&self@[i], ray, t_min, t_max), #[trigger] hits[i])
    }

    /// `r` is the nearest of what the objects report for this ray and
    /// window: the hit of smallest parameter, that of the earliest object
    /// where several share it, and nothing where no object reports a hit.
    pub open spec fn hit_outcome(
        &self,
        ray: Ray,
        t_min: Scalar,
        t_max: Scalar,
        r: Option<HitResult<H::Surface>>,
    ) -> bool {
        exists|hits: Seq<Option<HitResult<H::Surface>>>|
            self.outcomes(ray, t_min, t_max, hits) && is_nearest(hits, r) && r == nearest(hits)
    }

    /// What the objects report lies in the window, so none of it is NaN.
    pub proof fn lemma_outcomes_in_window(
        &self,
        ray: Ray,
        t_min: Scalar,
        t_max: Scalar,
        hits: Seq<Option<HitResult<H::Surface>>>,
    )
        requires
            self.outcomes(ray, t_min, t_max, hits),
        ensures
            all_numbers(hits),
            forall|i: int|
                0 <= i < hits.len() ==> (#[trigger] hits[i] matches Some(h) ==> h.geometry.t.within(t_min, t_max)),
    {
    }

    /// Taking the object with the nearest hit out of a scene leaves the
    /// next nearest hit: `rest` is `self` without object `k`, whose hit won
    /// among `hits`. Then what is left of `hits` is what the objects of
    /// `rest` report, and `rest` reports the nearest of those, which is no
    /// closer than the hit that won, and nothing if no other object was hit.
    pub proof fn lemma_scene_without_nearest(
        &self,
        rest: &HittableList<H>,
        k: int,
        ray: Ray,
        t_min: Scalar,
        t_max: Scalar,
        hits: Seq<Option<HitResult<H::Surface>>>,
    )
        requires
            self.outcomes(ray, t_min, t_max, hits),
            wins(hits, k),
            rest@ == self@.remove(k),
        ensures
            rest.outcomes(ray, t_min, t_max, hits.remove(k)),
            rest.hit_outcome(ray, t_min, t_max, nearest(hits.remove(k))),
            nearest(hits.remove(k)) matches Some(n) ==> !n.geometry.t.lt_spec(hits[k]->0.geometry.t),
            nearest(hits.remove(k)) is None <==> (forall|j: int|
                0 <= j < hits.len() && j != k ==> #[trigger] hits[j] is None),
    {
        self.lemma_outcomes_in_window(ray, t_min, t_max, hits);
        lemma_nearest_without_winner(hits, k);
        let left = hits.remove(k);
        assert forall|i: int| 0 <= i < left.len() implies call_ensures(
            H::hit,
            (&rest@[i], ray, t_min, t_max),
            #[trigger] left[i],
        ) by {
            if i < k {
                assert(left[i] == hits[i] && rest@[i] == self@[i]);
            } else {
                assert(left[i] == hits[i + 1] && rest@[i] == self@[i + 1]);
            }
        }
        assert(rest.outcomes(ray, t_min, t_max, left));
    }
}

impl<H: Hittable> Hittable for HittableList<H> {
    type Surface = H::Surface;

    /// Asks every object for its hit in the same window and keeps the
    /// nearest.
    fn hit(&self, ray: Ray, t_min: Scalar, t_max: Scalar) -> (r: Option<HitResult<H::Surface>>)
        ensures
            self.hit_outcome(ray, t_min, t_max, r),
    {
        let mut best: Option<HitResult<H::Surface>> = None;
        let ghost mut hits: Seq<Option<HitResult<H::Surface>>> = Seq::empty();
        let mut i: usize = 0;
        while i < self.hittables.len()
            invariant
                i <= self.hittables.len(),
                hits.len() == i,
                forall|j: int|
                    0 <= j < i ==> call_ensures(H::hit, (&self@[j], ray, t_min, t_max), #[trigger] hits[j]),
                best == nearest(hits),
                best matches Some(h) ==> h.geometry.t.within(t_min, t_max),
            decreases self.hittables.len() - i,
        {
            let candidate = self.hittables[i].hit(ray, t_min, t_max);
            proof {
                let ghost before = hits;
                hits = hits.push(candidate);
                assert(hits.drop_last() == before);
            }
            best = nearer(best, candidate);
            i += 1;
        }
        proof {
            assert(self.outcomes(ray, t_min, t_max, hits));
            self.lemma_outcomes_in_window(ray, t_min, t_max, hits);
            lemma_nearest_is_first_minimum(hits);
        }
        best
    }
}

} // verus!
