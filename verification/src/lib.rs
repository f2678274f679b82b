//! The bulk-rename event of the data distribution service: a batch of
//! source-to-destination path renames made in one tab, in a borrowed and an
//! owned form, and the single-pass cursor that hands an owned batch to the
//! scripting runtime pair by pair.

pub mod bulk;
pub mod changes;
pub mod iter;
pub mod lua;
mod model;
pub mod renames;
pub mod steps;
pub mod url;
