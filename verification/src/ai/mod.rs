//! Decisions of non-player crafts

pub mod actions;
pub mod in_range;
pub mod planning;
pub mod requirement;
pub mod task;

pub use requirement::Requirement;
pub use task::TaskLabel;
