//! Indexes the discovered cells of a partially explored rectangular grid by
//! the kind of resource they hold, and answers two spatial queries over that
//! index: the discovered cell of a given kind nearest to a reference point,
//! and the discovered cell of a given kind holding the largest amount, with
//! ties broken by distance to the reference point.

pub mod coordinates;
pub mod errors;
pub mod laws;
pub mod tool;
