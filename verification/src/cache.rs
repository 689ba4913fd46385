use crate::errors::AssetarioError;
use vstd::prelude::*;

verus! {

/// The bucket that holds the cache.
pub const CACHE_BUCKET: &'static str = "selma-solutions-assetario";

/// The HTTP status of a successful object store request.
pub const HTTP_OK: u16 = 200;

/// Cached GraphQL answers in the object store.
pub struct Cache;

impl Cache {
    /// Object key under which the tree with the given id is cached:
    /// `demo/assetario/cache/{id}.json`.
    pub fn path(id: &str) -> (res: String)
        ensures
            res@ == "demo/assetario/cache/"@ + id@ + ".json"@,
    {
        let mut res = String::from_str("demo/assetario/cache/");
        res.append(id);
        res.append(".json");
        res
    }

    /// The outcome of storing a tree, from the status code of the upload: stored
    /// when the store answered 200, a cache error otherwise.
    pub fn stored(code: u16) -> (res: Result<(), AssetarioError>)
        ensures
            code == HTTP_OK ==> res == Ok::<(), AssetarioError>(()),
            code != HTTP_OK ==> res == Err::<(), AssetarioError>(AssetarioError::CacheError),
    {
        if code != HTTP_OK {
            return Err(AssetarioError::CacheError);
        }
        Ok(())
    }

    /// What a lookup found, from the body and the status code of the download: the
    /// body when the store answered 200, nothing otherwise.
    pub fn found(content: Vec<u8>, code: u16) -> (res: Option<Vec<u8>>)
        ensures
            code == HTTP_OK ==> res == Some(content),
            code != HTTP_OK ==> res is None,
    {
        if code == HTTP_OK {
            Some(content)
        } else {
            None
        }
    }
}

} // verus!
