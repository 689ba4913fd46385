use assetario::errors::AssetarioError;

#[test]
fn messages() {
    assert_eq!(AssetarioError::CannotDownloadData.message(), "Cannot download data from simple maps");
    assert_eq!(AssetarioError::InvalidZipFile.message(), "ZIP file is invalid");
    assert_eq!(AssetarioError::CannotCreateZipFile.message(), "ZIP file cannot be created");
    assert_eq!(AssetarioError::InvalidDataInStream.message(), "Invalid data in stream");
    assert_eq!(AssetarioError::CannotWriteToZip.message(), "Cannot write to zip file");
    assert_eq!(AssetarioError::CannotReadFromZip.message(), "Cannot read from zip file");
    assert_eq!(AssetarioError::CacheError.message(), "Cache error");
    assert_eq!(AssetarioError::DynamoDBError.message(), "DynamoDB error");
}
