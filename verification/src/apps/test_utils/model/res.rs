use vstd::prelude::*;

verus! {

/// A value read from the LRU-2 cache.
pub struct GetLru2CacheRes {
    pub key: String,
    pub value: u8,
}

/// A value read from Redis.
pub struct GetRedisRes {
    pub key: String,
    pub value: String,
}

/// A value found in MongoDB.
pub struct FindMongoDBRes {
    pub key: String,
    pub value: String,
}

} // verus!
