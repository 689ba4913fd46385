use crate::errors::AssetarioError;
use vstd::prelude::*;

verus! {

/// Where the downloaded archive is kept between runs.
pub const SIMPLE_MAPS_ZIP_PATH: &'static str = "/tmp/simplemaps.zip";

/// Where the archive is downloaded from (a copy of the data set, whose own site asks
/// for a captcha).
pub const SIMPLE_MAPS_URL: &'static str = "https://selma-solutions-assetario.s3.eu-central-1.amazonaws.com/demo/assetario/simplemaps.zip";

/// The file of the archive that holds the cities.
pub const CITIES_CSV: &'static str = "uscities.csv";

/// Gets the cities of the data set.
#[derive(Default)]
pub struct Extractor;

impl Extractor {
    /// One piece of the download: a chunk of `len` bytes adds `len` to the bytes
    /// downloaded so far; a piece that could not be read ends the download with
    /// `InvalidDataInStream`.
    pub fn downloaded(progress: usize, chunk: Option<usize>) -> (res: Result<usize, AssetarioError>)
        requires
            chunk matches Some(len) ==> progress + len <= usize::MAX,
        ensures
            match chunk {
                Some(len) => res == Ok::<usize, AssetarioError>((progress + len) as usize),
                None => res == Err::<usize, AssetarioError>(AssetarioError::InvalidDataInStream),
            },
    {
        match chunk {
            Some(len) => Ok(progress + len),
            None => Err(AssetarioError::InvalidDataInStream),
        }
    }
}

} // verus!
