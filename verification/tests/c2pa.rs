use c2pa_font_handler::c2pa::{ContentCredentialRecord, UpdateContentCredentialRecord, UpdateType};
use c2pa_font_handler::error::FontIoError;
use c2pa_font_handler::sfnt::table::c2pa::TableC2PA;

#[test]
fn test_record_getters() {
    let record = ContentCredentialRecord::default();
    assert_eq!(record.major_version(), 0);
    assert_eq!(record.minor_version(), 1);
    assert_eq!(record.active_manifest_uri(), None,);
    assert!(record.content_credential().is_none());
}

#[test]
fn test_record_builder() {
    let result = ContentCredentialRecord::builder()
        .with_version(0, 1)
        .with_active_manifest_uri("http://example.com/manifest".to_owned())
        .with_content_credential(vec![1, 2, 3, 4])
        .build();
    println!("{:?}", result);
    assert!(result.is_ok());
    let record = result.unwrap();
    if let ContentCredentialRecord {
        major_version: 0,
        minor_version: 1,
        active_manifest_uri: Some(uri),
        content_credential: Some(credential),
    } = record
    {
        assert_eq!(uri, "http://example.com/manifest".to_string());
        assert_eq!(credential, vec![1u8, 2u8, 3u8, 4u8]);
    } else {
        panic!("Record does not match expected values");
    }
}

#[test]
fn test_record_builder_default() {
    let result = ContentCredentialRecord::builder().build();
    assert!(result.is_ok());
    let record = result.unwrap();
    if let ContentCredentialRecord {
        major_version: 0,
        minor_version: 1,
        active_manifest_uri: None,
        content_credential: None,
    } = record
    {
    } else {
        panic!("Record does not match expected values");
    }
}

#[test]
fn test_record_builder_invalid_major_version() {
    let result = ContentCredentialRecord::builder()
        .with_version(4, 4)
        .with_active_manifest_uri("http://example.com/manifest".to_owned())
        .with_content_credential(vec![1, 2, 3, 4])
        .build();
    assert!(result.is_err());
}

#[test]
fn test_record_builder_invalid_minor_version() {
    let result = ContentCredentialRecord::builder()
        .with_version(1, 5)
        .with_active_manifest_uri("http://example.com/manifest".to_owned())
        .with_content_credential(vec![1, 2, 3, 4])
        .build();
    assert!(result.is_err());
}

#[test]
fn test_record_builder_invalid_minor_version_with_valid_major() {
    let result = ContentCredentialRecord::builder()
        .with_version(0, 0)
        .with_active_manifest_uri("http://example.com/manifest".to_owned())
        .with_content_credential(vec![1, 2, 3, 4])
        .build();
    assert!(result.is_err());
    let error = result.err().unwrap();
    assert!(matches!(error, FontIoError::InvalidC2paMinorVersion(0)));
}

#[test]
fn test_update_record_removed_items() {
    let update_record = UpdateContentCredentialRecord::builder()
        .without_active_manifest_uri()
        .without_content_credentials()
        .build();
    assert!(matches!(
        update_record,
        UpdateContentCredentialRecord {
            active_manifest_uri: Some(UpdateType::Remove),
            content_credential: Some(UpdateType::Remove),
        }
    ));
}

#[test]
fn test_update_record_updated_items() {
    let mut update_record = UpdateContentCredentialRecord::builder()
        .with_active_manifest_uri("http://example.com/manifest".to_owned())
        .with_content_credential(vec![1, 2, 3, 4])
        .build();
    assert!(matches!(
        update_record.take_active_manifest_uri(),
        Some(UpdateType::Update(uri)) if uri == "http://example.com/manifest"
    ));
    assert!(update_record.take_active_manifest_uri().is_none());
    assert!(matches!(
        update_record.take_content_credential(),
        Some(UpdateType::Update(credential)) if credential == vec![1, 2, 3, 4]
    ));
    assert!(update_record.take_content_credential().is_none());
}

#[test]
fn record_from_table_copies_the_table() {
    let table = TableC2PA {
        major_version: 0,
        minor_version: 1,
        active_manifest_uri: Some("uri".to_string()),
        manifest_store: Some(vec![1, 2]),
    };
    let record = ContentCredentialRecord::try_from(&table).unwrap();
    assert_eq!(record.active_manifest_uri(), Some("uri"));
    assert_eq!(record.content_credential(), Some(&[1u8, 2u8][..]));
}

#[test]
fn record_from_table_of_unsupported_version_fails() {
    let table = TableC2PA {
        major_version: 1,
        minor_version: 0,
        active_manifest_uri: None,
        manifest_store: None,
    };
    let err = ContentCredentialRecord::try_from(&table).err().unwrap();
    assert!(matches!(err, FontIoError::InvalidC2paMajorVersion(1)));
}
