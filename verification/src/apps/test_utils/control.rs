use vstd::prelude::*;
use crate::lru_k::LRUKCache;
use crate::response::{ErrCode, Meta};
use super::model::req::{GetLru2CacheReq, PutLru2CacheReq};
use super::model::res::GetLru2CacheRes;

verus! {

/// Stores the requested byte in the LRU-2 cache.
pub fn put_lru_2_cache(req: PutLru2CacheReq, cache: &mut LRUKCache<u8>) -> (r: Result<(), Meta>)
    requires
        old(cache).wf(),
    ensures
        final(cache).wf(),
        final(cache)@ == old(cache)@.put(req.key@, req.value),
        r is Ok,
{
    cache.put(req.key, req.value);
    Ok(())
}

/// Reads the requested key from the LRU-2 cache; a miss answers the default
/// metadata.
pub fn get_lru2_cache(req: GetLru2CacheReq, cache: &mut LRUKCache<u8>) -> (r: Result<
    GetLru2CacheRes,
    Meta,
>)
    requires
        old(cache).wf(),
    ensures
        final(cache).wf(),
        final(cache)@ == old(cache)@.get(req.key@).0,
        match old(cache)@.get(req.key@).1 {
            Some(v) => r is Ok && r->Ok_0.key == req.key && r->Ok_0.value == v,
            None => r is Err && r->Err_0.err_code == ErrCode::Success && r->Err_0.err_message@
                == Seq::<char>::empty(),
        },
{
    match cache.get(&req.key) {
        Some(value) => {
            let value = *value;
            Ok(GetLru2CacheRes { key: req.key, value })
        },
        None => Err(Meta::default()),
    }
}

} // verus!
