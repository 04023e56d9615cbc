//! Selecting an autonomous route from a handheld controller with a small
//! proportional-font text screen.

pub mod text;
pub mod picker;
pub mod route;
pub mod selector;
