//! Verified core of a small web service: an LRU-K cache, response codes,
//! request-size admission, token claims and the user-management rules.
pub mod apps;
pub mod email;
pub mod extension;
pub mod extract;
pub mod global;
pub mod jwt;
pub mod lru_k;
pub mod mongo;
pub mod rc;
pub mod redis;
pub mod response;
pub mod tracing;
