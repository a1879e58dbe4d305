use wraith_names::registry::names_error_from_metadata;
use wraith_names::{
    validate_metadata_entry, validate_text_record, validate_text_records, MetadataEntry,
    MetadataError, NamesError, TextRecords,
};

fn text(s: &str) -> Vec<u8> {
    s.as_bytes().to_vec()
}

#[test]
fn test_metadata_entry_validation_accepts_opt_in_fields() {
    let mut text_records = TextRecords::new();
    text_records.set(text("avatar"), text("https://example.com/avatar.png"));
    text_records.set(text("twitter"), text("@wraithprotocol"));

    let metadata = MetadataEntry { text_records, content_hash: [9u8; 32] };

    assert_eq!(validate_metadata_entry(&metadata), Ok(()));
}

#[test]
fn test_metadata_key_limit_is_enforced() {
    let key = text("a");
    let value = text("x");

    let long_key = text("012345678901234567890123456789012345678901234567890123456789012345");
    assert_eq!(validate_text_record(&key, &value), Ok(()));
    assert_eq!(validate_text_record(&long_key, &value), Err(MetadataError::MetadataKeyTooLong));
}

#[test]
fn test_metadata_total_limit_is_enforced() {
    let mut text_records = TextRecords::new();

    text_records.set(
        text("description"),
        text("012345678901234567890123456789012345678901234567890123456789012345"),
    );
    text_records.set(
        text("avatar"),
        text("012345678901234567890123456789012345678901234567890123456789012345"),
    );

    assert_eq!(validate_text_records(&text_records), Err(MetadataError::MetadataTotalTooLong));
}

// --- further cases ---

#[test]
fn adding_a_record_keeps_a_rejection() {
    let mut records = TextRecords::new();
    records.set(text("k"), vec![b'v'; 300]);
    assert_eq!(validate_text_records(&records), Err(MetadataError::MetadataValueTooLong));
    records.set(text("a"), text("fine"));
    assert!(validate_text_records(&records).is_err());

    let mut big = TextRecords::new();
    for i in 0..5u8 {
        big.set(vec![b'a' + i; 5], vec![b'v'; 205]);
    }
    assert_eq!(validate_text_records(&big), Err(MetadataError::MetadataTotalTooLong));
    big.set(text("zz"), Vec::new());
    assert_eq!(validate_text_records(&big), Err(MetadataError::MetadataTotalTooLong));
}

#[test]
fn record_limits_are_inclusive() {
    assert_eq!(validate_text_record(&vec![b'k'; 64], &vec![b'v'; 256]), Ok(()));
    assert_eq!(
        validate_text_record(&vec![b'k'; 65], &vec![b'v'; 300]),
        Err(MetadataError::MetadataKeyTooLong)
    );
    assert_eq!(
        validate_text_record(&vec![b'k'; 64], &vec![b'v'; 257]),
        Err(MetadataError::MetadataValueTooLong)
    );
}

#[test]
fn total_limit_is_inclusive() {
    let mut records = TextRecords::new();
    // 4 records of 32 bytes each: exactly 128.
    for i in 0..4u8 {
        records.set(vec![b'a' + i; 6], vec![b'v'; 26]);
    }
    assert_eq!(validate_text_records(&records), Ok(()));
    records.set(text("z"), Vec::new());
    assert_eq!(validate_text_records(&records), Err(MetadataError::MetadataTotalTooLong));
}

#[test]
fn records_are_kept_and_checked_in_key_order() {
    let mut records = TextRecords::new();
    records.set(text("zeta"), vec![b'v'; 300]);
    records.set(vec![b'a'; 70], text("x"));
    records.set(text("mid"), text("1"));
    records.set(text("mid"), text("2"));
    assert_eq!(records.len(), 3);
    let (k0, _) = records.entry(0);
    let (k1, v1) = records.entry(1);
    let (k2, _) = records.entry(2);
    assert_eq!(k0, &vec![b'a'; 70]);
    assert_eq!(k1, &text("mid"));
    assert_eq!(v1, &text("2"));
    assert_eq!(k2, &text("zeta"));
    // The key-too-long record sorts first, so its error is the one reported.
    assert_eq!(validate_text_records(&records), Err(MetadataError::MetadataKeyTooLong));
}

#[test]
fn prefix_sorts_first() {
    let mut records = TextRecords::new();
    records.set(text("ab"), text("1"));
    records.set(text("a"), text("2"));
    records.set(text("b"), text("3"));
    assert_eq!(records.entry(0).0, &text("a"));
    assert_eq!(records.entry(1).0, &text("ab"));
    assert_eq!(records.entry(2).0, &text("b"));
}

#[test]
fn metadata_errors_map_to_names_errors() {
    assert_eq!(names_error_from_metadata(MetadataError::MetadataKeyTooLong), NamesError::MetadataKeyTooLong);
    assert_eq!(names_error_from_metadata(MetadataError::MetadataValueTooLong), NamesError::MetadataValueTooLong);
    assert_eq!(names_error_from_metadata(MetadataError::MetadataRecordTooLong), NamesError::MetadataRecordTooLong);
    assert_eq!(names_error_from_metadata(MetadataError::MetadataTotalTooLong), NamesError::MetadataTotalTooLong);
    assert_eq!(names_error_from_metadata(MetadataError::MetadataNotFound), NamesError::MetadataNotFound);
    assert_eq!(MetadataError::MetadataKeyTooLong.code(), 101);
    assert_eq!(MetadataError::MetadataNotFound.code(), 105);
}
