pub mod model;
pub mod req;
pub mod resp;
