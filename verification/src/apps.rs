//! The service's handlers, reduced to the decisions they make.
pub mod system;
pub mod test_utils;
pub mod user;
