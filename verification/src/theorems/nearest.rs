//! The nearest hit of a ray in a scene.
use crate::ray::RayModel;
use crate::scene::{
    hit_of, is_nearest, is_nearest_among, lemma_nearer_transitive, misses_all, misses_first,
};
use crate::triangle::{lemma_hit_has_positive_denominator, TriangleModel};
use vstd::prelude::*;

verus! {

/// At most one triangle of a scene is the nearest that a ray hits.
pub proof fn lemma_nearest_is_unique(triangles: Seq<TriangleModel>, ray: RayModel, i: int, k: int)
    requires
        is_nearest(triangles, ray, i),
        is_nearest(triangles, ray, k),
    ensures
        i == k,
{
    if i < k {
        assert(hit_of(triangles, ray, k).unwrap().nearer_than(hit_of(triangles, ray, i).unwrap()));
    } else if k < i {
        assert(hit_of(triangles, ray, i).unwrap().nearer_than(hit_of(triangles, ray, k).unwrap()));
    }
}

/// Among the first `count` triangles of a scene, of which the ray hits at least
/// one, one is the nearest hit.
pub proof fn lemma_nearest_among_exists(triangles: Seq<TriangleModel>, ray: RayModel, count: int)
    -> (i: int)
    requires
        0 <= count <= triangles.len(),
        !misses_first(triangles, ray, count),
    ensures
        is_nearest_among(triangles, ray, i, count),
    decreases count,
{
    let last = count - 1;
    if misses_first(triangles, ray, last) {
        assert(hit_of(triangles, ray, last) is Some);
        last
    } else {
        let best = lemma_nearest_among_exists(triangles, ray, last);
        let best_hit = hit_of(triangles, ray, best).unwrap();
        lemma_hit_has_positive_denominator(triangles[best], ray);
        if hit_of(triangles, ray, last) is Some && hit_of(triangles, ray, last).unwrap().nearer_than(
            best_hit,
        ) {
            let new_hit = hit_of(triangles, ray, last).unwrap();
            lemma_hit_has_positive_denominator(triangles[last], ray);
            assert forall|j: int|
                0 <= j < count && (#[trigger] hit_of(triangles, ray, j)) is Some implies !hit_of(
                triangles,
                ray,
                j,
            ).unwrap().nearer_than(new_hit) by {
                if j < last {
                    let other = hit_of(triangles, ray, j).unwrap();
                    if other.nearer_than(new_hit) {
                        lemma_hit_has_positive_denominator(triangles[j], ray);
                        lemma_nearer_transitive(other, new_hit, best_hit);
                    }
                }
            }
            assert forall|j: int|
                0 <= j < last && (#[trigger] hit_of(triangles, ray, j)) is Some implies new_hit.nearer_than(
            hit_of(triangles, ray, j).unwrap()) by {
                let other = hit_of(triangles, ray, j).unwrap();
                lemma_hit_has_positive_denominator(triangles[j], ray);
                lemma_nearer_transitive(new_hit, best_hit, other);
            }
            last
        } else {
            best
        }
    }
}

/// A ray that hits some triangle of a scene has a nearest hit.
pub proof fn lemma_nearest_exists(triangles: Seq<TriangleModel>, ray: RayModel)
    requires
        !misses_all(triangles, ray),
    ensures
        exists|i: int| is_nearest(triangles, ray, i),
{
    let i = lemma_nearest_among_exists(triangles, ray, triangles.len() as int);
    assert(is_nearest(triangles, ray, i));
}

/// No two triangles of the scene are hit at the same ray parameter.
pub open spec fn hits_at_distinct_parameters(triangles: Seq<TriangleModel>, ray: RayModel) -> bool {
    forall|i: int, j: int|
        0 <= i < j < triangles.len() && (#[trigger] hit_of(triangles, ray, i)) is Some && (
        #[trigger] hit_of(triangles, ray, j)) is Some ==> !hit_of(
            triangles,
            ray,
            i,
        ).unwrap().as_near_as(hit_of(triangles, ray, j).unwrap())
}

/// The nearest hit does not depend on the order of the triangles: in two scenes
/// that hold the same triangles in different orders, the nearest hits of a ray
/// lie at the same ray parameter, and where no two triangles are hit at the same
/// parameter, it is the same triangle that is hit.
pub proof fn lemma_nearest_hit_ignores_order(
    first: Seq<TriangleModel>,
    second: Seq<TriangleModel>,
    ray: RayModel,
    i: int,
    k: int,
)
    requires
        first.to_multiset() == second.to_multiset(),
        is_nearest(first, ray, i),
        is_nearest(second, ray, k),
    ensures
        hit_of(first, ray, i).unwrap().as_near_as(hit_of(second, ray, k).unwrap()),
        hits_at_distinct_parameters(first, ray) ==> first[i] == second[k],
{
    first.to_multiset_ensures();
    second.to_multiset_ensures();
    assert(second.contains(second[k]));
    assert(second.to_multiset().count(second[k]) > 0);
    assert(first.to_multiset().count(second[k]) > 0);
    assert(first.contains(second[k]));
    let j = choose|j: int| 0 <= j < first.len() && first[j] == second[k];
    assert(first.contains(first[i]));
    assert(first.to_multiset().count(first[i]) > 0);
    assert(second.to_multiset().count(first[i]) > 0);
    assert(second.contains(first[i]));
    let m = choose|m: int| 0 <= m < second.len() && second[m] == first[i];
    let near = hit_of(first, ray, i).unwrap();
    let other = hit_of(second, ray, k).unwrap();
    assert(hit_of(first, ray, j) == Some(other));
    assert(hit_of(second, ray, m) == Some(near));
    assert(!other.nearer_than(near));
    assert(!near.nearer_than(other));
    if hits_at_distinct_parameters(first, ray) {
        if i < j {
            assert(!hit_of(first, ray, i).unwrap().as_near_as(hit_of(first, ray, j).unwrap()));
        } else if j < i {
            assert(!hit_of(first, ray, j).unwrap().as_near_as(hit_of(first, ray, i).unwrap()));
            assert(other.as_near_as(near)) by (nonlinear_arith)
                requires
                    near.as_near_as(other),
            ;
        }
    }
}

} // verus!
