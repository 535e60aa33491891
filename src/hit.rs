//! The choice of the nearest surface along a ray.
//!
//! Distances reach this module as order keys: for two distances `a` and `b`
//! with keys `ka` and `kb`, `a < b` exactly when `ka < kb`. Sphere hits are
//! listed in scene order; a sphere that the ray misses has no key.
use vstd::prelude::*;

verus! {

/// The surface that a ray sees first.
#[derive(Debug, Clone, Copy, PartialEq, Eq, Structural)]
pub enum Nearest {
    /// The sphere at this index in scene order.
    Sphere(usize),
    /// The checkerboard plane.
    Plane,
}

/// Sphere `i` is the one a ray meets first among the spheres: it is hit at the
/// least key, and no sphere before it in scene order is hit at that key.
pub open spec fn first_nearest_sphere(keys: Seq<Option<u32>>, i: int) -> bool {
    &&& 0 <= i < keys.len()
    &&& keys[i] is Some
    &&& forall|j: int|
        0 <= j < keys.len() && #[trigger] keys[j] is Some ==> keys[i]->Some_0 <= keys[j]->Some_0
    &&& forall|j: int| 0 <= j < i ==> #[trigger] keys[j] != keys[i]
}

/// The plane is hit below `cutoff` and strictly nearer than every sphere hit.
pub open spec fn plane_in_front(keys: Seq<Option<u32>>, plane: Option<u32>, cutoff: u32) -> bool {
    &&& plane matches Some(p)
    &&& plane->Some_0 < cutoff
    &&& forall|j: int|
        0 <= j < keys.len() && #[trigger] keys[j] is Some ==> plane->Some_0 < keys[j]->Some_0
}

/// The first sphere met is well defined: at most one sphere has that property,
/// so the nearest hit does not depend on anything but the keys and their order.
pub proof fn lemma_first_nearest_unique(keys: Seq<Option<u32>>, i: int, j: int)
    requires
        first_nearest_sphere(keys, i),
        first_nearest_sphere(keys, j),
    ensures
        i == j,
{
    assert(keys[i]->Some_0 <= keys[j]->Some_0);
    assert(keys[j]->Some_0 <= keys[i]->Some_0);
    assert(keys[i] == keys[j]);
}

/// Picks the sphere a ray meets first among those hit at a key below `far`:
/// the one at the least key, the first in scene order on ties.
pub fn nearest_sphere(sphere_keys: &Vec<Option<u32>>, far: u32) -> (r: Option<usize>)
    ensures
        r matches Some(i) ==> first_nearest_sphere(sphere_keys@, i as int)
            && sphere_keys@[i as int]->Some_0 < far,
        r is None <==> forall|j: int|
            0 <= j < sphere_keys@.len() && #[trigger] sphere_keys@[j] is Some ==> sphere_keys@[j]->Some_0
                >= far,
{
    let n = sphere_keys.len();
    let mut best: Option<usize> = None;
    let mut best_key: u32 = far;
    for i in 0..n
        invariant
            n == sphere_keys@.len(),
            best matches Some(b) ==> {
                &&& b < i
                &&& sphere_keys@[b as int] == Some(best_key)
                &&& best_key < far
                &&& forall|j: int| 0 <= j < b ==> #[trigger] sphere_keys@[j] != Some(best_key)
            },
            best is None ==> best_key == far,
            forall|j: int|
                0 <= j < i && #[trigger] sphere_keys@[j] is Some ==> best_key
                    <= sphere_keys@[j]->Some_0,
    {
        if let Some(k) = sphere_keys[i] {
            if k < best_key {
                best = Some(i);
                best_key = k;
            }
        }
    }
    best
}

/// Picks the surface a ray meets first, from the keys of its sphere hits in
/// scene order and of its plane hit. The plane wins only when strictly nearer
/// than every sphere; among spheres at equal keys the first in scene order
/// wins. Nothing is seen when the nearest hit lies at or beyond `cutoff`.
pub fn nearest_surface(sphere_keys: &Vec<Option<u32>>, plane_key: Option<u32>, cutoff: u32) -> (r:
    Option<Nearest>)
    ensures
        r == Some(Nearest::Plane) <==> plane_in_front(sphere_keys@, plane_key, cutoff),
        r matches Some(Nearest::Sphere(i)) ==> {
            &&& first_nearest_sphere(sphere_keys@, i as int)
            &&& sphere_keys@[i as int]->Some_0 < cutoff
            &&& !plane_in_front(sphere_keys@, plane_key, cutoff)
        },
        r is None <==> !plane_in_front(sphere_keys@, plane_key, cutoff) && forall|j: int|
            0 <= j < sphere_keys@.len() && #[trigger] sphere_keys@[j] is Some ==> sphere_keys@[j]->Some_0
                >= cutoff,
{
    let best = nearest_sphere(sphere_keys, cutoff);
    let plane_wins = match (plane_key, best) {
        (Some(p), Some(b)) => match sphere_keys[b] {
            Some(k) => p < k,
            None => false,
        },
        (Some(p), None) => p < cutoff,
        (None, _) => false,
    };
    proof {
        if let Some(b) = best {
            assert(first_nearest_sphere(sphere_keys@, b as int));
        }
    }
    if plane_wins {
        Some(Nearest::Plane)
    } else {
        match best {
            Some(b) => Some(Nearest::Sphere(b)),
            None => None,
        }
    }
}

} // verus!
