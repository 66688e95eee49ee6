//! The path estimator: which surface a ray meets first, and how the colour
//! of a ray follows from the colours further along its path.
//!
//! The arithmetic is handed in as functions. A [`Geometry`] holds that of
//! the intersection test. A [`Shading`] holds the rest: `scatter` applies the
//! material of the surface that was hit, `attenuate` multiplies a colour into
//! another, `background` gives the colour of the sky along a ray. What this
//! module states holds of whatever these functions return.
use vstd::prelude::*;
use crate::ray::{Intersection, Ray};
use crate::scalar::{Scalar, INFINITY_BITS};
use crate::sphere::{Geometry, Roots, Sphere, Surface};
use crate::vec3::{black, Vec3};

verus! {

/// The nearest parameter at which a hit counts: 0.001. Anything nearer is
/// the ray meeting the surface that it has just left.
pub const T_MIN_BITS: u32 = 0x3A83_126F;

/// The arithmetic of shading.
pub struct Shading<S, A, B> {
    /// Scatters a ray at an intersection: `scatter(ray, intersection)` gives
    /// whether the light goes on, its attenuation, and the ray along which
    /// it goes on.
    pub scatter: S,
    /// Multiplies an attenuation into a colour: `attenuate(attenuation,
    /// colour)`.
    pub attenuate: A,
    /// The colour of the sky along a ray: `background(ray)`.
    pub background: B,
}

/// The far end of the window in which sphere `i` is tested: the parameter of
/// the latest hit among the spheres before it, positive infinity where none
/// of them was hit.
pub open spec fn window<'a>(seen: Seq<Option<Intersection<'a>>>, i: int) -> Scalar
    decreases i,
{
    if i <= 0 {
        Scalar { bits: INFINITY_BITS }
    } else {
        match seen[i - 1] {
            Some(h) => h.t,
            None => window(seen, i - 1),
        }
    }
}

/// The latest hit among the first `i` of `seen`.
pub open spec fn latest<'a>(seen: Seq<Option<Intersection<'a>>>, i: int) -> Option<
    Intersection<'a>,
>
    decreases i,
{
    if i <= 0 {
        None
    } else {
        match seen[i - 1] {
            Some(h) => Some(h),
            None => latest(seen, i - 1),
        }
    }
}

/// `solved` and `seen` are what one pass over the scene may find: for each
/// sphere in turn the solutions of its quadratic, and the answer of its test
/// in the window from 0.001 to the latest hit before it.
pub open spec fn scanned<'a, Q: Fn(&Sphere, &Ray) -> Roots, P: Fn(&Sphere, &Ray, Scalar) -> Surface>(
    geometry: Geometry<Q, P>,
    r: Ray,
    world: &'a Vec<Sphere>,
    solved: Seq<Roots>,
    seen: Seq<Option<Intersection<'a>>>,
) -> bool {
    &&& solved.len() == world.len()
    &&& seen.len() == world.len()
    &&& forall|i: int|
        0 <= i < world.len() ==> (#[trigger] world[i]).answers(
            geometry,
            r,
            solved[i],
            Scalar { bits: T_MIN_BITS },
            window(seen, i),
            seen[i],
        )
}

/// `found` is what a pass over the scene may return: the latest hit of a
/// pass in which every sphere is tested in a window that ends at the latest
/// hit before it.
pub open spec fn closest<'a, Q: Fn(&Sphere, &Ray) -> Roots, P: Fn(&Sphere, &Ray, Scalar) -> Surface>(
    geometry: Geometry<Q, P>,
    r: Ray,
    world: &'a Vec<Sphere>,
    found: Option<Intersection<'a>>,
) -> bool {
    exists|solved: Seq<Roots>, seen: Seq<Option<Intersection<'a>>>| #[trigger]
        scanned(geometry, r, world, solved, seen) && found == latest(seen, world.len() as int)
}

/// Returns the closest intersection of the ray with the scene, if any: every
/// sphere is tested once, in order, for a hit no nearer than 0.001 and no
/// farther than the nearest hit so far.
pub fn closest_intersection<
    'a,
    Q: Fn(&Sphere, &Ray) -> Roots,
    P: Fn(&Sphere, &Ray, Scalar) -> Surface,
>(r: &Ray, world: &'a Vec<Sphere>, geometry: &Geometry<Q, P>) -> (found: Option<Intersection<'a>>)
    requires
        forall|i: int| 0 <= i < world.len() ==> call_requires(geometry.roots, (&world[i], r)),
        forall|i: int, t: Scalar|
            0 <= i < world.len() ==> call_requires(geometry.surface, (&world[i], r, t)),
    ensures
        closest(*geometry, *r, world, found),
{
    let mut found: Option<Intersection<'a>> = None;
    let mut closest_so_far = Scalar::infinity();
    let ghost mut solved: Seq<Roots> = Seq::empty();
    let ghost mut seen: Seq<Option<Intersection<'a>>> = Seq::empty();
    let mut i: usize = 0;
    while i < world.len()
        invariant
            i <= world.len(),
            solved.len() == i,
            seen.len() == i,
            found == latest(seen, i as int),
            closest_so_far == window(seen, i as int),
            forall|k: int| 0 <= k < world.len() ==> call_requires(geometry.roots, (&world[k], r)),
            forall|k: int, t: Scalar|
                0 <= k < world.len() ==> call_requires(geometry.surface, (&world[k], r, t)),
            forall|k: int|
                0 <= k < i ==> (#[trigger] world[k]).answers(
                    *geometry,
                    *r,
                    solved[k],
                    Scalar { bits: T_MIN_BITS },
                    window(seen, k),
                    seen[k],
                ),
        decreases world.len() - i,
    {
        let sphere = &world[i];
        let answer = sphere.hit(r, Scalar::from_bits(T_MIN_BITS), closest_so_far, geometry);
        proof {
            let roots = choose|roots: Roots| #[trigger]
                sphere.answers(
                    *geometry,
                    *r,
                    roots,
                    Scalar { bits: T_MIN_BITS },
                    closest_so_far,
                    answer,
                );
            let before = seen;
            solved = solved.push(roots);
            seen = seen.push(answer);
            assert forall|k: int| 0 <= k < i + 1 implies (#[trigger] world[k]).answers(
                *geometry,
                *r,
                solved[k],
                Scalar { bits: T_MIN_BITS },
                window(seen, k),
                seen[k],
            ) by {
                lemma_window_of_prefix(before, seen, k);
            }
            lemma_window_of_prefix(before, seen, i as int);
        }
        if let Some(intersection) = answer {
            closest_so_far = intersection.t;
            found = Some(intersection);
        }
        i += 1;
    }
    proof {
        assert(scanned(*geometry, *r, world, solved, seen));
    }
    found
}

/// `color` is what the estimator may return for the ray `r` with `depth`
/// bounces left: black with no bounce left, otherwise what shading gives for
/// a closest intersection of the ray with the scene.
pub open spec fn colored<
    'a,
    Q: Fn(&Sphere, &Ray) -> Roots,
    P: Fn(&Sphere, &Ray, Scalar) -> Surface,
    S: Fn(&Ray, &Intersection<'a>) -> (bool, Vec3, Ray),
    A: Fn(Vec3, Vec3) -> Vec3,
    B: Fn(&Ray) -> Vec3,
>(
    geometry: Geometry<Q, P>,
    shading: Shading<S, A, B>,
    r: Ray,
    world: &'a Vec<Sphere>,
    depth: int,
    color: Vec3,
) -> bool
    decreases depth, 1int,
{
    if depth <= 0 {
        color == black()
    } else {
        exists|found: Option<Intersection<'a>>| #[trigger]
            closest(geometry, r, world, found) && shaded(
                geometry,
                shading,
                r,
                world,
                depth,
                found,
                color,
            )
    }
}

/// `color` is what shading may give for the ray `r` with `depth` bounces
/// left, of which at least one, when the closest intersection is `found`.
///
/// Where the ray meets nothing, it is what `background` gives for the ray.
/// Where it meets a surface, `scatter` gives its outcome: whether the light
/// goes on, an attenuation, and the ray along which it goes on. Light that
/// does not go on is absorbed, and the colour is black. Else the colour is
/// what `attenuate` makes of the attenuation and of a colour of the new ray
/// with one bounce less.
pub open spec fn shaded<
    'a,
    Q: Fn(&Sphere, &Ray) -> Roots,
    P: Fn(&Sphere, &Ray, Scalar) -> Surface,
    S: Fn(&Ray, &Intersection<'a>) -> (bool, Vec3, Ray),
    A: Fn(Vec3, Vec3) -> Vec3,
    B: Fn(&Ray) -> Vec3,
>(
    geometry: Geometry<Q, P>,
    shading: Shading<S, A, B>,
    r: Ray,
    world: &'a Vec<Sphere>,
    depth: int,
    found: Option<Intersection<'a>>,
    color: Vec3,
) -> bool
    decreases depth, 0int,
{
    depth > 0 && match found {
        None => call_ensures(shading.background, (&r,), color),
        Some(h) => exists|outcome: (bool, Vec3, Ray)| #[trigger]
            call_ensures(shading.scatter, (&r, &h), outcome) && if outcome.0 {
                exists|inner: Vec3|
                    colored(geometry, shading, outcome.2, world, depth - 1, inner)
                        && #[trigger] call_ensures(shading.attenuate, (outcome.1, inner), color)
            } else {
                color == black()
            },
    }
}

/// Estimates the colour that arrives along the ray `r`, following its path
/// through the scene for at most `depth` bounces.
pub fn ray_color<
    'a,
    Q: Fn(&Sphere, &Ray) -> Roots,
    P: Fn(&Sphere, &Ray, Scalar) -> Surface,
    S: Fn(&Ray, &Intersection<'a>) -> (bool, Vec3, Ray),
    A: Fn(Vec3, Vec3) -> Vec3,
    B: Fn(&Ray) -> Vec3,
>(
    r: Ray,
    world: &'a Vec<Sphere>,
    depth: i32,
    geometry: &Geometry<Q, P>,
    shading: &Shading<S, A, B>,
) -> (color: Vec3)
    requires
        forall|i: int, ray: Ray|
            0 <= i < world.len() ==> call_requires(geometry.roots, (&world[i], &ray)),
        forall|i: int, ray: Ray, t: Scalar|
            0 <= i < world.len() ==> call_requires(geometry.surface, (&world[i], &ray, t)),
        forall|ray: Ray, h: Intersection<'a>| call_requires(shading.scatter, (&ray, &h)),
        forall|a: Vec3, b: Vec3| call_requires(shading.attenuate, (a, b)),
        forall|ray: Ray| call_requires(shading.background, (&ray,)),
    ensures
        colored(*geometry, *shading, r, world, depth as int, color),
        depth <= 0 ==> color == black(),
    decreases depth,
{
    if depth <= 0 {
        return Vec3::zero();
    }
    let found = closest_intersection(&r, world, geometry);
    if let Some(intersection) = found {
        let outcome = (shading.scatter)(&r, &intersection);
        let (scattered, attenuation, ray) = outcome;
        if scattered {
            let inner = ray_color(ray, world, depth - 1, geometry, shading);
            let color = (shading.attenuate)(attenuation, inner);
            proof {
                assert(call_ensures(shading.scatter, (&r, &intersection), outcome));
                assert(shaded(*geometry, *shading, r, world, depth as int, found, color));
            }
            return color;
        } else {
            proof {
                assert(call_ensures(shading.scatter, (&r, &intersection), outcome));
                assert(shaded(*geometry, *shading, r, world, depth as int, found, black()));
            }
            return Vec3::zero();
        }
    }
    let color = (shading.background)(&r);
    proof {
        assert(shaded(*geometry, *shading, r, world, depth as int, found, color));
    }
    color
}

/// The solutions are numbers, and the nearer one is not beyond the farther.
pub open spec fn in_order(roots: Roots) -> bool {
    &&& !roots.discriminant.nan()
    &&& !roots.near.nan()
    &&& !roots.far.nan()
    &&& !roots.far.less(roots.near)
}

/// The parameter at which a sphere alone would be hit: the choice in the
/// whole window from 0.001 to infinity.
pub open spec fn alone(roots: Roots) -> Option<Scalar> {
    roots.chosen(Scalar { bits: T_MIN_BITS }, Scalar { bits: INFINITY_BITS })
}

/// The pass returns the nearest hit of the scene, though every sphere is
/// tested only up to the nearest hit before it. Let the solutions of every
/// sphere be numbers in order. Then the hit that the pass returns is one
/// that some sphere alone would give, and no sphere alone would give a
/// nearer one; and the pass returns a hit whenever some sphere alone would
/// give one.
pub proof fn lemma_closest_is_nearest<
    'a,
    Q: Fn(&Sphere, &Ray) -> Roots,
    P: Fn(&Sphere, &Ray, Scalar) -> Surface,
>(
    geometry: Geometry<Q, P>,
    r: Ray,
    world: &'a Vec<Sphere>,
    solved: Seq<Roots>,
    seen: Seq<Option<Intersection<'a>>>,
)
    requires
        scanned(geometry, r, world, solved, seen),
        forall|i: int| 0 <= i < solved.len() ==> in_order(#[trigger] solved[i]),
    ensures
        latest(seen, world.len() as int) matches Some(h) ==> exists|i: int|
            0 <= i < solved.len() && alone(#[trigger] solved[i]) == Some(h.t),
        forall|i: int|
            0 <= i < solved.len() && alone(#[trigger] solved[i]) is Some ==> {
                &&& latest(seen, world.len() as int) is Some
                &&& !alone(solved[i])->0.less(latest(seen, world.len() as int)->0.t)
            },
{
    assert forall|k: int| 0 <= k < solved.len() implies follows(solved, seen, k) by {
        assert(world[k].answers(
            geometry,
            r,
            solved[k],
            Scalar { bits: T_MIN_BITS },
            window(seen, k),
            seen[k],
        ));
    }
    lemma_windows_narrow(solved, seen, world.len() as int);
}

/// The answer for sphere `k` is a hit exactly where a parameter is chosen
/// in its window, and then at that parameter.
spec fn follows<'a>(solved: Seq<Roots>, seen: Seq<Option<Intersection<'a>>>, k: int) -> bool {
    match solved[k].chosen(Scalar { bits: T_MIN_BITS }, window(seen, k)) {
        None => seen[k] is None,
        Some(t) => seen[k] is Some && seen[k]->0.t == t,
    }
}

/// After `n` spheres the window ends at the least of the parameters that the
/// spheres alone would give.
proof fn lemma_windows_narrow<'a>(
    solved: Seq<Roots>,
    seen: Seq<Option<Intersection<'a>>>,
    n: int,
)
    requires
        0 <= n <= solved.len(),
        n <= seen.len(),
        forall|k: int| 0 <= k < n ==> in_order(#[trigger] solved[k]),
        forall|k: int| 0 <= k < n ==> follows(solved, seen, k),
    ensures
        !window(seen, n).nan(),
        latest(seen, n) matches Some(h) ==> h.t == window(seen, n) && exists|i: int|
            0 <= i < n && alone(#[trigger] solved[i]) == Some(h.t),
        latest(seen, n) is None ==> window(seen, n) == (Scalar { bits: INFINITY_BITS }),
        forall|i: int|
            0 <= i < n && alone(#[trigger] solved[i]) is Some ==> {
                &&& latest(seen, n) is Some
                &&& !alone(solved[i])->0.less(window(seen, n))
            },
    decreases n,
{
    if n > 0 {
        lemma_windows_narrow(solved, seen, n - 1);
        assert(in_order(solved[n - 1]));
        assert(follows(solved, seen, n - 1));
        if let Some(h) = latest(seen, n) {
            if seen[n - 1] is Some {
                assert(alone(solved[n - 1]) == Some(h.t));
            } else {
                let i = choose|i: int|
                    0 <= i < n - 1 && alone(#[trigger] solved[i]) == Some(h.t);
                assert(alone(solved[i]) == Some(h.t));
            }
        }
        assert forall|i: int| 0 <= i < n && alone(#[trigger] solved[i]) is Some implies {
            &&& latest(seen, n) is Some
            &&& !alone(solved[i])->0.less(window(seen, n))
        } by {
            if i < n - 1 {
                assert(!alone(solved[i])->0.less(window(seen, n - 1)));
            }
        }
    }
}

/// A ray that misses every sphere gets exactly the colour of the
/// background, whatever the scene holds. The ray misses a sphere when the
/// sphere alone would not be hit, however its quadratic is solved.
pub proof fn lemma_miss_is_background<
    'a,
    Q: Fn(&Sphere, &Ray) -> Roots,
    P: Fn(&Sphere, &Ray, Scalar) -> Surface,
    S: Fn(&Ray, &Intersection<'a>) -> (bool, Vec3, Ray),
    A: Fn(Vec3, Vec3) -> Vec3,
    B: Fn(&Ray) -> Vec3,
>(
    geometry: Geometry<Q, P>,
    shading: Shading<S, A, B>,
    r: Ray,
    world: &'a Vec<Sphere>,
    depth: int,
    color: Vec3,
)
    requires
        depth > 0,
        colored(geometry, shading, r, world, depth, color),
        forall|i: int, roots: Roots|
            0 <= i < world.len() && #[trigger] call_ensures(geometry.roots, (&world[i], &r), roots)
                ==> alone(roots) is None,
    ensures
        call_ensures(shading.background, (&r,), color),
{
    let found = choose|found: Option<Intersection<'a>>| #[trigger]
        closest(geometry, r, world, found) && shaded(
            geometry,
            shading,
            r,
            world,
            depth,
            found,
            color,
        );
    let (solved, seen) = choose|solved: Seq<Roots>, seen: Seq<Option<Intersection<'a>>>| #[trigger]
        scanned(geometry, r, world, solved, seen) && found == latest(seen, world.len() as int);
    assert forall|i: int| 0 <= i < seen.len() implies seen[i] is None by {
        assert(world[i].answers(
            geometry,
            r,
            solved[i],
            Scalar { bits: T_MIN_BITS },
            window(seen, i),
            seen[i],
        ));
        assert(alone(solved[i]) is None);
    }
    lemma_nothing_seen(seen, world.len() as int);
}

/// A pass that meets nothing returns nothing.
proof fn lemma_nothing_seen<'a>(seen: Seq<Option<Intersection<'a>>>, n: int)
    requires
        n <= seen.len(),
        forall|i: int| 0 <= i < n ==> seen[i] is None,
    ensures
        latest(seen, n) is None,
    decreases n,
{
    if n > 0 {
        lemma_nothing_seen(seen, n - 1);
    }
}

/// The window of a sphere and the latest hit before it depend only on what
/// was seen before it.
proof fn lemma_window_of_prefix<'a>(
    a: Seq<Option<Intersection<'a>>>,
    b: Seq<Option<Intersection<'a>>>,
    i: int,
)
    requires
        i <= a.len(),
        i <= b.len(),
        forall|k: int| 0 <= k < i ==> a[k] == b[k],
    ensures
        window(a, i) == window(b, i),
        latest(a, i) == latest(b, i),
    decreases i,
{
    if i > 0 {
        lemma_window_of_prefix(a, b, i - 1);
    }
}

} // verus!
