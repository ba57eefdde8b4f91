pub mod req;
pub mod res;
