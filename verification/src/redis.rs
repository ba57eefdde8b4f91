//! Markers that tell Redis connection pools apart.
pub mod redis_mark;
pub mod redis_mode;
