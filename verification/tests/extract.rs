use assetario::errors::AssetarioError;
use assetario::extract::{Extractor, CITIES_CSV, SIMPLE_MAPS_ZIP_PATH};

#[test]
fn download_progress_adds_up() {
    assert_eq!(Extractor::downloaded(0, Some(1024)), Ok(1024));
    assert_eq!(Extractor::downloaded(1024, Some(100)), Ok(1124));
    assert_eq!(Extractor::downloaded(7, Some(0)), Ok(7));
}

#[test]
fn broken_download_piece() {
    assert_eq!(Extractor::downloaded(1024, None), Err(AssetarioError::InvalidDataInStream));
}

#[test]
fn archive_names() {
    assert_eq!(SIMPLE_MAPS_ZIP_PATH, "/tmp/simplemaps.zip");
    assert_eq!(CITIES_CSV, "uscities.csv");
}
