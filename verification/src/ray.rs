//! Rays: an origin on the grid and a direction in grid steps per unit of the
//! ray parameter.
use crate::grid::COORD_MAX;
use crate::vector::{IntVector, Vector3};
use vstd::prelude::*;

verus! {

/// The model of a [`Ray`]: the points `origin + t * direction` for `t >= 0`.
pub struct RayModel {
    pub origin: IntVector,
    pub direction: IntVector,
}

impl RayModel {
    /// Origin and direction both have coordinates of magnitude at most
    /// [`COORD_MAX`].
    pub open spec fn on_grid(self) -> bool {
        self.origin.within(COORD_MAX as int) && self.direction.within(COORD_MAX as int)
    }
}

/// A ray on the grid. The direction need not have unit length: the ray parameter
/// `t` of a point counts multiples of the direction as given.
#[derive(Clone, Copy, Debug, PartialEq, Eq)]
pub struct Ray {
    origin: Vector3,
    direction: Vector3,
}

impl View for Ray {
    type V = RayModel;

    closed spec fn view(&self) -> RayModel {
        RayModel { origin: self.origin@, direction: self.direction@ }
    }
}

impl Ray {
    #[verifier::type_invariant]
    spec fn well_formed(self) -> bool {
        self@.on_grid()
    }

    /// The ray from `origin` along `direction`, or `None` when either lies
    /// outside the grid.
    pub fn new(origin: Vector3, direction: Vector3) -> (ray: Option<Ray>)
        ensures
            ray is Some <==> (RayModel { origin: origin@, direction: direction@ }).on_grid(),
            ray matches Some(r) ==> r@ == (RayModel { origin: origin@, direction: direction@ }),
    {
        if origin.is_within(COORD_MAX) && direction.is_within(COORD_MAX) {
            Some(Ray { origin, direction })
        } else {
            None
        }
    }

    pub fn origin(&self) -> (origin: Vector3)
        ensures
            origin@ == self@.origin,
            self@.on_grid(),
    {
        proof {
            use_type_invariant(self);
        }
        self.origin
    }

    pub fn direction(&self) -> (direction: Vector3)
        ensures
            direction@ == self@.direction,
            self@.on_grid(),
    {
        proof {
            use_type_invariant(self);
        }
        self.direction
    }
}

} // verus!
