//! What holds of the library for all inputs, beyond the contracts of its
//! functions.
pub mod barycentric;
pub mod degenerate;
pub mod intersection;
pub mod nearest;
