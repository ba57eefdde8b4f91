//! Markers that tell MongoDB clients apart.
pub mod mongo_mark;
