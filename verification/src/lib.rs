//! Progress-tracking core: named entity collections on two axes
//! (maps with zones, abilities with usages), a four-axis cursor that
//! addresses one cell of the cross product, and a sparse progress
//! matrix keyed by resolved names.

pub mod laws;
pub mod ops;
pub mod render;
pub mod model;
pub mod selection;
