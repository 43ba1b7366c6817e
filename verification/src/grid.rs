//! The fixed-point grid on which all geometry lives.
use vstd::prelude::*;

verus! {

/// Grid steps per world unit: a coordinate `c` stands for the length `c / UNIT`.
pub const UNIT: i128 = 1000;

/// Largest magnitude of a coordinate of a vertex, a ray origin or a ray direction.
///
/// The bound keeps every intermediate of the intersection test inside `i128`.
pub const COORD_MAX: i128 = 65_536;

/// Largest magnitude of a component of a face normal: `8 * COORD_MAX * COORD_MAX`,
/// which the cross product of two edges between grid points cannot exceed.
pub const NORMAL_MAX: i128 = 34_359_738_368;

/// The parallelism threshold is `1 / EPSILON_INVERSE`: a ray counts as parallel to
/// a plane when the dot product of the plane's unit normal with the ray's
/// direction, in world units, is smaller in magnitude than one hundredth.
pub const EPSILON_INVERSE: i128 = 100;

/// Largest denominator of a ray parameter: `3 * NORMAL_MAX * COORD_MAX`, the
/// bound on the dot product of a face normal with a ray direction.
pub const DENOM_MAX: i128 = 6_755_399_441_055_744;

/// Largest numerator of a ray parameter: `6 * NORMAL_MAX * COORD_MAX`, the bound
/// on the dot product of a face normal with the difference of two grid points.
pub const NUMER_MAX: i128 = 13_510_798_882_111_488;

/// Largest magnitude of a coordinate of an intersection point scaled by the
/// denominator of its ray parameter: `COORD_MAX * (DENOM_MAX + NUMER_MAX)`.
pub const POINT_MAX: i128 = 1_328_165_573_307_087_716_352;

/// Largest magnitude of a component of a camera rotation.
pub const ROTATION_MAX: i128 = 1_000_000;

/// The bounds are what their descriptions say, and the largest intermediate of
/// the intersection test, the dot product of a normal with the cross product of
/// an edge and a scaled vector from a vertex to a plane point, fits `i128`.
pub proof fn lemma_bounds_fit()
    ensures
        NORMAL_MAX == 8 * COORD_MAX * COORD_MAX,
        DENOM_MAX == 3 * NORMAL_MAX * COORD_MAX,
        NUMER_MAX == 6 * NORMAL_MAX * COORD_MAX,
        POINT_MAX == COORD_MAX * (DENOM_MAX + NUMER_MAX),
        3 * (NORMAL_MAX * (2 * ((2 * COORD_MAX) * (POINT_MAX + COORD_MAX * DENOM_MAX))))
            <= i128::MAX,
{
    assert(POINT_MAX + COORD_MAX * DENOM_MAX == 1_770_887_431_076_116_955_136);
    assert(2 * ((2 * COORD_MAX) * 1_770_887_431_076_116_955_136)
        == 464_227_514_732_017_603_087_171_584);
    assert(3 * (NORMAL_MAX * 464_227_514_732_017_603_087_171_584)
        == 47_852_207_848_256_971_424_537_054_170_092_404_736);
}

} // verus!
