//! An LRU-K cache: entries are admitted to the cache only after their K-th
//! access, and both the admission history and the cache evict the least
//! recently used entry when they grow past their capacity.
pub mod linked_list;
pub mod model;
pub use linked_list::{LinkedList, Node};
pub mod cache;
pub use cache::LRUKCache;
