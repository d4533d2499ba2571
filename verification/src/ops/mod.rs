//! Operations on a whole bibliography.

pub mod bibligraphy;
pub mod preprocessor;
