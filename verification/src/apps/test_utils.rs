pub mod control;
pub mod model;
