//! Following a ray through the scene, bounce by bounce.
//!
//! The colour that a ray brings back is the colour at the end of its path,
//! multiplied channel by channel with the attenuation of each bounce, last
//! bounce first. This module decides the path; the products are arithmetic
//! and belong to the caller.

use crate::geometry::HittableList;
use crate::materials::{Material, ScatterResult};
use crate::rays::{HitGeometry, HitResult, Hittable, Ray};
use crate::scalar::Scalar;
use crate::vecmath::Vector3;
use vstd::prelude::*;

verus! {

/// The number of bounces after which a path is cut off.
pub const MAX_DEPTH: i32 = 50;

/// The pattern of 1e35, the far end of the window in which hits are looked for.
pub const T_MAX_BITS: u32 = 0x799a_130c;

/// The near end of the window in which hits are looked for: 0.0.
pub open spec fn t_min_spec() -> Scalar {
    Scalar::zero_spec()
}

/// The far end of the window in which hits are looked for: 1e35.
pub open spec fn t_max_spec() -> Scalar {
    Scalar { bits: T_MAX_BITS }
}

pub fn t_min() -> (t: Scalar)
    ensures
        t == t_min_spec(),
{
    Scalar::zero()
}

pub fn t_max() -> (t: Scalar)
    ensures
        t == t_max_spec(),
{
    Scalar::from_bits(T_MAX_BITS)
}

/// How a path ends.
#[derive(Clone, Copy, Debug)]
pub enum PathEnd {
    /// The ray hit nothing and left the scene: it sees the background in
    /// its direction.
    Escaped(Ray),
    /// A surface absorbed the ray: black.
    Absorbed,
    /// The ray hit a surface with no bounce left: black.
    Exhausted,
}

/// The path of one ray: its bounces in the order in which they happened,
/// and its end.
pub struct Path {
    pub bounces: Vec<ScatterResult>,
    pub end: PathEnd,
}

impl Path {
    /// The factors of the colour that the path brings back, in the order in
    /// which the colour at its end is multiplied by them: the attenuation of
    /// the last bounce first, that of the first bounce last.
    pub open spec fn factors_spec(self) -> Seq<Vector3> {
        Seq::new(self.bounces@.len(), |i: int| self.bounces@[self.bounces@.len() - 1 - i].attenuation)
    }

    /// The factors of the colour that the path brings back, the attenuation
    /// of the last bounce first.
    pub fn factors(&self) -> (factors: Vec<Vector3>)
        ensures
            factors@ == self.factors_spec(),
    {
        let mut factors: Vec<Vector3> = Vec::new();
        let mut i: usize = self.bounces.len();
        while i > 0
            invariant
                i <= self.bounces@.len(),
                factors@.len() == self.bounces@.len() - i,
                forall|j: int|
                    0 <= j < factors@.len() ==> factors@[j] == self.bounces@[self.bounces@.len() - 1 - j].attenuation,
            decreases i,
        {
            i -= 1;
            factors.push(self.bounces[i].attenuation);
        }
        factors
    }
}

/// What follows a look for the nearest hit.
pub enum Step<M: Material> {
    /// Nothing was hit.
    Escape,
    /// Something was hit, and no bounce is left.
    Exhaust,
    /// This was hit, and its material is asked to scatter.
    Scatter(HitResult<M>),
}

/// What follows a look for the nearest hit at `depth` bounces.
pub open spec fn after_hit_spec<M: Material>(hit: Option<HitResult<M>>, depth: int) -> Step<M> {
    match hit {
        None => Step::Escape,
        Some(h) => if depth < MAX_DEPTH {
            Step::Scatter(h)
        } else {
            Step::Exhaust
        },
    }
}

/// What follows a look for the nearest hit at `depth` bounces.
pub fn after_hit<M: Material>(hit: Option<HitResult<M>>, depth: i32) -> (step: Step<M>)
    ensures
        step == after_hit_spec(hit, depth as int),
{
    match hit {
        None => Step::Escape,
        Some(h) => if depth < MAX_DEPTH {
            Step::Scatter(h)
        } else {
            Step::Exhaust
        },
    }
}

/// The ray that a path follows after `i` bounces.
pub open spec fn ray_at(first: Ray, bounces: Seq<ScatterResult>, i: int) -> Ray {
    if i <= 0 {
        first
    } else {
        bounces[i - 1].scattered_ray
    }
}

/// `hit` was found at `depth` bounces along `ray`, a bounce was left, and
/// `outcome` is something that the material of the hit may make of `ray`
/// there.
pub open spec fn scattered<M: Material>(
    hit: Option<HitResult<M>>,
    depth: int,
    ray: Ray,
    outcome: Option<ScatterResult>,
) -> bool {
    after_hit_spec(hit, depth) matches Step::Scatter(h) && call_ensures(
        M::scatter,
        (&*h.material, ray, &h.geometry),
        outcome,
    )
}

/// A path whose last look, at `depth` bounces along `ray`, found `hit`
/// ends in `end`.
pub open spec fn ended<M: Material>(hit: Option<HitResult<M>>, depth: int, ray: Ray, end: PathEnd) -> bool {
    match after_hit_spec(hit, depth) {
        Step::Escape => end == PathEnd::Escaped(ray),
        Step::Exhaust => end == PathEnd::Exhausted,
        Step::Scatter(h) => end == PathEnd::Absorbed && scattered(hit, depth, ray, None),
    }
}

/// `hits` holds what each look along `path` found, and accounts for every
/// bounce of the path and for its end. The look after `i` bounces goes
/// along the ray that bounce `i - 1` left (the first along `ray`), in the
/// window from 0.0 to 1e35, and stands at depth `depth + i`.
pub open spec fn explains<H: Hittable>(
    world: &HittableList<H>,
    ray: Ray,
    depth: int,
    path: Path,
    hits: Seq<Option<HitResult<H::Surface>>>,
) -> bool {
    let n = path.bounces@.len() as int;
    &&& hits.len() == n + 1
    &&& forall|i: int|
        0 <= i <= n ==> world.hit_outcome(ray_at(ray, path.bounces@, i), t_min_spec(), t_max_spec(), #[trigger] hits[i])
    &&& forall|i: int|
        0 <= i < n ==> scattered(#[trigger] hits[i], depth + i, ray_at(ray, path.bounces@, i), Some(path.bounces@[i]))
    &&& ended(hits[n], depth + n, ray_at(ray, path.bounces@, n), path.end)
}

/// `path` is a path that `ray` may take through `world` from `depth`
/// bounces on: every bounce is what the material of the nearest hit made of
/// the ray before it, and the path ends where nothing is hit, where the
/// material absorbs, or where no bounce is left.
pub open spec fn follows<H: Hittable>(world: &HittableList<H>, ray: Ray, depth: int, path: Path) -> bool {
    exists|hits: Seq<Option<HitResult<H::Surface>>>| explains(world, ray, depth, path, hits)
}

/// Materials of kind `M` absorb whatever reaches them.
pub open spec fn always_absorbs<M: Material>() -> bool {
    forall|material: &M, ray: Ray, hit: &HitGeometry, outcome: Option<ScatterResult>|
        call_ensures(M::scatter, (material, ray, hit), outcome) ==> outcome is None
}

/// The looks along a path never go deeper than `MAX_DEPTH`: a path that
/// starts at a depth that is not negative has at most `MAX_DEPTH` bounces,
/// so at most `MAX_DEPTH + 1` looks for a hit. A path ends exhausted only
/// at that depth, and absorbed only before it.
pub proof fn lemma_path_is_bounded<H: Hittable>(world: &HittableList<H>, ray: Ray, depth: int, path: Path)
    requires
        follows(world, ray, depth, path),
    ensures
        path.bounces@.len() == 0 || depth + path.bounces@.len() <= MAX_DEPTH,
        depth >= 0 ==> path.bounces@.len() + 1 <= MAX_DEPTH + 1,
        depth >= MAX_DEPTH ==> path.bounces@.len() == 0 && !(path.end is Absorbed),
        path.end is Exhausted ==> depth + path.bounces@.len() >= MAX_DEPTH,
        path.end is Absorbed ==> depth + path.bounces@.len() < MAX_DEPTH,
{
    let hits = choose|hits: Seq<Option<HitResult<H::Surface>>>| explains(world, ray, depth, path, hits);
    let n = path.bounces@.len() as int;
    if n > 0 {
        assert(scattered(hits[n - 1], depth + (n - 1), ray_at(ray, path.bounces@, n - 1), Some(path.bounces@[n - 1])));
        assert(scattered(hits[0], depth + 0, ray_at(ray, path.bounces@, 0), Some(path.bounces@[0])));
    }
}

/// A ray that hits nothing has the shortest path: no bounce, and the ray
/// itself leaves the scene.
pub proof fn lemma_miss_escapes<H: Hittable>(world: &HittableList<H>, ray: Ray, depth: int, path: Path)
    requires
        follows(world, ray, depth, path),
        forall|r: Option<HitResult<H::Surface>>| world.hit_outcome(ray, t_min_spec(), t_max_spec(), r) ==> r is None,
    ensures
        path.bounces@.len() == 0,
        path.end == PathEnd::Escaped(ray),
{
    let hits = choose|hits: Seq<Option<HitResult<H::Surface>>>| explains(world, ray, depth, path, hits);
    assert(world.hit_outcome(ray_at(ray, path.bounces@, 0), t_min_spec(), t_max_spec(), hits[0]));
    if path.bounces@.len() > 0 {
        assert(scattered(hits[0], depth + 0, ray_at(ray, path.bounces@, 0), Some(path.bounces@[0])));
    }
}

/// In a scene whose materials all absorb, no path has a bounce: the first
/// hit ends it, in black. A path that escapes there never hit anything.
pub proof fn lemma_absorbing_scene_is_dark<H: Hittable>(world: &HittableList<H>, ray: Ray, depth: int, path: Path)
    requires
        follows(world, ray, depth, path),
        always_absorbs::<H::Surface>(),
    ensures
        path.bounces@.len() == 0,
        path.end is Escaped ==> path.end == PathEnd::Escaped(ray),
{
    let hits = choose|hits: Seq<Option<HitResult<H::Surface>>>| explains(world, ray, depth, path, hits);
    if path.bounces@.len() > 0 {
        assert(scattered(hits[0], depth + 0, ray_at(ray, path.bounces@, 0), Some(path.bounces@[0])));
    }
}

/// Follows `ray` through `world`. `depth` is the number of bounces already
/// behind the ray; a path started at 0 has at most `MAX_DEPTH` bounces.
///
/// The nearest hit is looked for in the window from 0.0 to 1e35. Where
/// there is none the ray escapes. Where there is one and `MAX_DEPTH`
/// bounces are behind the ray, the path is exhausted. Otherwise the
/// material of the hit is asked to scatter: if it declines, the ray is
/// absorbed; if not, the bounce joins the path, which goes on along the
/// scattered ray, one level deeper.
pub fn trace<H: Hittable>(ray: Ray, world: &HittableList<H>, depth: i32) -> (path: Path)
    ensures
        follows(world, ray, depth as int, path),
        path.bounces@.len() == 0 || depth + path.bounces@.len() <= MAX_DEPTH,
        depth >= 0 ==> path.bounces@.len() + 1 <= MAX_DEPTH + 1,
{
    let mut bounces: Vec<ScatterResult> = Vec::new();
    let mut current = ray;
    let mut level = depth;
    let ghost mut hits: Seq<Option<HitResult<H::Surface>>> = Seq::empty();
    loop
        invariant
            current == ray_at(ray, bounces@, bounces@.len() as int),
            level == depth + bounces@.len(),
            hits.len() == bounces@.len(),
            bounces@.len() == 0 || level <= MAX_DEPTH,
            forall|i: int|
                0 <= i < hits.len() ==> world.hit_outcome(
                    ray_at(ray, bounces@, i),
                    t_min_spec(),
                    t_max_spec(),
                    #[trigger] hits[i],
                ),
            forall|i: int|
                0 <= i < hits.len() ==> scattered(
                    #[trigger] hits[i],
                    depth + i,
                    ray_at(ray, bounces@, i),
                    Some(bounces@[i]),
                ),
        decreases MAX_DEPTH - level,
    {
        let hit = world.hit(current, t_min(), t_max());
        let ghost found = hit;
        let end = match after_hit(hit, level) {
            Step::Escape => PathEnd::Escaped(current),
            Step::Exhaust => PathEnd::Exhausted,
            Step::Scatter(h) => match h.material.scatter(current, &h.geometry) {
                None => PathEnd::Absorbed,
                Some(bounce) => {
                    proof {
                        let ghost before = bounces@;
                        let ghost after = before.push(bounce);
                        hits = hits.push(found);
                        assert forall|i: int| 0 <= i < hits.len() implies ray_at(ray, after, i) == ray_at(
                            ray,
                            before,
                            i,
                        ) by {}
                    }
                    bounces.push(bounce);
                    current = bounce.scattered_ray;
                    level = level + 1;
                    continue ;
                },
            },
        };
        let path = Path { bounces, end };
        proof {
            assert(explains(world, ray, depth as int, path, hits.push(found)));
        }
        return path;
    }
}

} // verus!
