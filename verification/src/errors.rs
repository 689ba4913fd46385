use vstd::prelude::*;

verus! {

/// What can go wrong while loading the data and serving it.
#[derive(Debug, Clone, Copy, PartialEq, Eq, Structural)]
pub enum AssetarioError {
    CannotDownloadData,
    InvalidZipFile,
    CannotCreateZipFile,
    InvalidDataInStream,
    CannotWriteToZip,
    CannotReadFromZip,
    CacheError,
    DynamoDBError,
}

/// The text that describes each error.
pub open spec fn error_message(e: AssetarioError) -> Seq<char> {
    match e {
        AssetarioError::CannotDownloadData => "Cannot download data from simple maps"@,
        AssetarioError::InvalidZipFile => "ZIP file is invalid"@,
        AssetarioError::CannotCreateZipFile => "ZIP file cannot be created"@,
        AssetarioError::InvalidDataInStream => "Invalid data in stream"@,
        AssetarioError::CannotWriteToZip => "Cannot write to zip file"@,
        AssetarioError::CannotReadFromZip => "Cannot read from zip file"@,
        AssetarioError::CacheError => "Cache error"@,
        AssetarioError::DynamoDBError => "DynamoDB error"@,
    }
}

impl AssetarioError {
    /// The text that describes the error.
    pub fn message(&self) -> (res: &'static str)
        ensures
            res@ == error_message(*self),
    {
        match self {
            AssetarioError::CannotDownloadData => "Cannot download data from simple maps",
            AssetarioError::InvalidZipFile => "ZIP file is invalid",
            AssetarioError::CannotCreateZipFile => "ZIP file cannot be created",
            AssetarioError::InvalidDataInStream => "Invalid data in stream",
            AssetarioError::CannotWriteToZip => "Cannot write to zip file",
            AssetarioError::CannotReadFromZip => "Cannot read from zip file",
            AssetarioError::CacheError => "Cache error",
            AssetarioError::DynamoDBError => "DynamoDB error",
        }
    }
}

} // verus!
