//! Scenes: the triangles a ray is tested against, and the nearest hit among them.
use crate::grid::{DENOM_MAX, NUMER_MAX};
use crate::ray::{Ray, RayModel};
use crate::triangle::{
    intersection, lemma_hit_has_positive_denominator, models, Hit, HitModel, Triangle,
    TriangleModel,
};
use crate::vector::lemma_product_bound;
use vstd::prelude::*;

verus! {

/// The intersection of `ray` with the triangle at index `i`.
pub open spec fn hit_of(triangles: Seq<TriangleModel>, ray: RayModel, i: int) -> Option<HitModel> {
    intersection(triangles[i], ray)
}

/// Among the first `count` triangles, the one at index `i` is hit by `ray`, no
/// other is hit strictly nearer, and every one before it is hit strictly farther
/// or not at all.
pub open spec fn is_nearest_among(
    triangles: Seq<TriangleModel>,
    ray: RayModel,
    i: int,
    count: int,
) -> bool {
    &&& 0 <= i < count <= triangles.len()
    &&& hit_of(triangles, ray, i) is Some
    &&& forall|j: int|
        0 <= j < count && (#[trigger] hit_of(triangles, ray, j)) is Some ==> !hit_of(
            triangles,
            ray,
            j,
        ).unwrap().nearer_than(hit_of(triangles, ray, i).unwrap())
    &&& forall|j: int|
        0 <= j < i && (#[trigger] hit_of(triangles, ray, j)) is Some ==> hit_of(
            triangles,
            ray,
            i,
        ).unwrap().nearer_than(hit_of(triangles, ray, j).unwrap())
}

/// The triangle at index `i` is the nearest that `ray` hits: its ray parameter is
/// the least among all hits, and where several triangles are hit at that same
/// least parameter, it is the first of them.
pub open spec fn is_nearest(triangles: Seq<TriangleModel>, ray: RayModel, i: int) -> bool {
    is_nearest_among(triangles, ray, i, triangles.len() as int)
}

/// `ray` hits none of the first `count` triangles.
pub open spec fn misses_first(triangles: Seq<TriangleModel>, ray: RayModel, count: int) -> bool {
    forall|j: int| 0 <= j < count ==> (#[trigger] hit_of(triangles, ray, j)) is None
}

/// `ray` hits no triangle.
pub open spec fn misses_all(triangles: Seq<TriangleModel>, ray: RayModel) -> bool {
    misses_first(triangles, ray, triangles.len() as int)
}

/// Fractions with positive denominators are ordered transitively: what is
/// strictly nearer than a hit is strictly nearer than everything that hit is not
/// farther than.
pub proof fn lemma_nearer_transitive(a: HitModel, b: HitModel, c: HitModel)
    requires
        a.denom > 0,
        b.denom > 0,
        c.denom > 0,
        a.nearer_than(b),
        !c.nearer_than(b),
    ensures
        a.nearer_than(c),
{
    assert(a.numer * c.denom < c.numer * a.denom) by (nonlinear_arith)
        requires
            a.denom > 0,
            b.denom > 0,
            c.denom > 0,
            a.numer * b.denom < b.numer * a.denom,
            c.numer * b.denom >= b.numer * c.denom,
    {
        assert((a.numer * b.denom) * c.denom < (b.numer * a.denom) * c.denom);
        assert((c.numer * b.denom) * a.denom >= (b.numer * c.denom) * a.denom);
        assert((a.numer * c.denom) * b.denom < (c.numer * a.denom) * b.denom);
    }
}

/// The nearest hit of a ray in a scene, with the index of the triangle hit.
#[derive(Clone, Copy, Debug, PartialEq, Eq, Structural)]
pub struct SceneHit {
    pub index: usize,
    pub hit: Hit,
}

/// The triangles visible to the raycaster, in a fixed order.
#[derive(Clone, Debug)]
pub struct Scene {
    pub triangles: Vec<Triangle>,
}

impl View for Scene {
    type V = Seq<TriangleModel>;

    open spec fn view(&self) -> Seq<TriangleModel> {
        models(self.triangles@)
    }
}

/// Whether `a` lies strictly nearer than `b`.
fn is_nearer(a: &Hit, b: &Hit) -> (nearer: bool)
    requires
        a@.in_bounds(),
        b@.in_bounds(),
    ensures
        nearer == a@.nearer_than(b@),
{
    proof {
        lemma_product_bound(a.numer as int, b.denom as int, NUMER_MAX as int, DENOM_MAX as int);
        lemma_product_bound(b.numer as int, a.denom as int, NUMER_MAX as int, DENOM_MAX as int);
    }
    a.numer * b.denom < b.numer * a.denom
}

impl Scene {
    /// A scene of the given triangles.
    pub fn new(triangles: Vec<Triangle>) -> (scene: Scene)
        ensures
            scene.triangles == triangles,
    {
        Scene { triangles }
    }

    /// The nearest intersection of `ray` with the triangles of the scene.
    ///
    /// Every triangle is tested. The result is `None` exactly when the ray hits
    /// none of them; otherwise it names the triangle hit at the least ray
    /// parameter, the first such triangle where several share that parameter.
    pub fn intersect_scene(&self, ray: &Ray) -> (result: Option<SceneHit>)
        ensures
            match result {
                Some(found) => {
                    &&& is_nearest(self@, ray@, found.index as int)
                    &&& hit_of(self@, ray@, found.index as int) == Some(found.hit@)
                },
                None => misses_all(self@, ray@),
            },
    {
        let mut best: Option<SceneHit> = None;
        let mut i: usize = 0;
        while i < self.triangles.len()
            invariant
                i <= self.triangles.len(),
                self@.len() == self.triangles.len(),
                match best {
                    Some(found) => {
                        &&& is_nearest_among(self@, ray@, found.index as int, i as int)
                        &&& hit_of(self@, ray@, found.index as int) == Some(found.hit@)
                        &&& found.hit@.in_bounds()
                    },
                    None => misses_first(self@, ray@, i as int),
                },
            decreases self.triangles.len() - i,
        {
            let candidate: Option<Hit> = self.triangles[i].intersects_ray(ray);
            assert(self@[i as int] == self.triangles@[i as int]@);
            match candidate {
                Some(hit) => {
                    match best {
                        Some(found) => {
                            if is_nearer(&hit, &found.hit) {
                                proof {
                                    assert forall|j: int|
                                        0 <= j < i + 1 && (#[trigger] hit_of(
                                            self@,
                                            ray@,
                                            j,
                                        )) is Some implies !hit_of(
                                        self@,
                                        ray@,
                                        j,
                                    ).unwrap().nearer_than(hit@) by {
                                        if j < i {
                                            let other = hit_of(self@, ray@, j).unwrap();
                                            if other.nearer_than(hit@) {
                                                lemma_hit_has_positive_denominator(
                                                    self@[j],
                                                    ray@,
                                                );
                                                lemma_nearer_transitive(other, hit@, found.hit@);
                                            }
                                        }
                                    }
                                    assert forall|j: int|
                                        0 <= j < i && (#[trigger] hit_of(
                                            self@,
                                            ray@,
                                            j,
                                        )) is Some implies hit@.nearer_than(
                                        hit_of(self@, ray@, j).unwrap(),
                                    ) by {
                                        let other = hit_of(self@, ray@, j).unwrap();
                                        lemma_hit_has_positive_denominator(self@[j], ray@);
                                        lemma_nearer_transitive(hit@, found.hit@, other);
                                    }
                                }
                                best = Some(SceneHit { index: i, hit });
                            }
                        },
                        None => {
                            best = Some(SceneHit { index: i, hit });
                        },
                    }
                },
                None => {},
            }
            i += 1;
        }
        best
    }
}

} // verus!
