use vstd::prelude::*;

verus! {

/// Stores a byte under a key in the LRU-2 cache.
pub struct PutLru2CacheReq {
    pub key: String,
    pub value: u8,
}

/// Reads a key from the LRU-2 cache.
pub struct GetLru2CacheReq {
    pub key: String,
}

/// Reads a key from Redis.
pub struct GetRedisReq {
    pub key: String,
}

/// Stores a string under a key in Redis.
pub struct PutRedisReq {
    pub key: String,
    pub value: String,
}

/// Stores a string under a key in MongoDB.
pub struct PutMongoDBReq {
    pub key: String,
    pub value: String,
}

/// Finds a key in MongoDB.
pub struct FindMongoDBReq {
    pub key: String,
}

} // verus!
