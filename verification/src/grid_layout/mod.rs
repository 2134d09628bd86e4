//! Arranging compiled measure blocks into systems on a grid.
pub mod click_targets;
pub mod layout;
pub mod types;
