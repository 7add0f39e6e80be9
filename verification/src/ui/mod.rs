//! What the window shows and what its controls do.

pub mod actions;
pub mod figures;
pub mod host;
pub mod laws;
pub mod rows;
