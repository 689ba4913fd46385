use assetario::cache::Cache;
use assetario::errors::AssetarioError;

#[test]
fn path_of_tree() {
    assert_eq!(Cache::path("tree"), "demo/assetario/cache/tree.json");
    assert_eq!(Cache::path("Texas-all"), "demo/assetario/cache/Texas-all.json");
}

#[test]
fn stored_only_on_200() {
    assert_eq!(Cache::stored(200), Ok(()));
    assert_eq!(Cache::stored(404), Err(AssetarioError::CacheError));
    assert_eq!(Cache::stored(500), Err(AssetarioError::CacheError));
}

#[test]
fn found_only_on_200() {
    assert_eq!(Cache::found(b"[]".to_vec(), 200), Some(b"[]".to_vec()));
    assert_eq!(Cache::found(b"nope".to_vec(), 404), None);
}
