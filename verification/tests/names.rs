use soroban_sdk::Env;
use wraith_names::{MetadataEntry, NamesError, TextRecords, WraithNamesContract};

fn owner(tag: u8) -> Vec<u8> {
    let mut v = b"GOWNER".to_vec();
    v.push(tag);
    v
}

fn text(s: &str) -> Vec<u8> {
    s.as_bytes().to_vec()
}

fn registered(env: &Env, who: &Vec<u8>, name: &str, byte: u8) -> (WraithNamesContract, Vec<u8>) {
    let mut reg = WraithNamesContract::new();
    let meta = vec![byte; 64];
    assert_eq!(reg.register(env, who, &text(name), &meta), Ok(()));
    (reg, meta)
}

#[test]
fn test_register_and_resolve() {
    let env = Env::default();
    let mut reg = WraithNamesContract::new();
    let owner = owner(1);
    let name = text("alice");
    let meta = vec![42u8; 64];

    reg.register(&env, &owner, &name, &meta).unwrap();

    let resolved = reg.resolve(&env, &name).unwrap();
    assert_eq!(resolved, meta);
}

#[test]
fn test_name_taken() {
    let env = Env::default();
    let mut reg = WraithNamesContract::new();
    let owner1 = owner(1);
    let owner2 = owner(2);
    let name = text("bob");
    let meta1 = vec![1u8; 64];
    let meta2 = vec![2u8; 64];

    reg.register(&env, &owner1, &name, &meta1).unwrap();
    let result = reg.register(&env, &owner2, &name, &meta2);
    assert_eq!(result, Err(NamesError::NameTaken));
}

#[test]
fn test_name_of_reverse() {
    let env = Env::default();
    let mut reg = WraithNamesContract::new();
    let owner = owner(1);
    let name = text("charlie");
    let meta = vec![99u8; 64];

    reg.register(&env, &owner, &name, &meta).unwrap();

    let found_name = reg.name_of(&env, &meta).unwrap();
    assert_eq!(found_name, name);
}

#[test]
fn test_release() {
    let env = Env::default();
    let mut reg = WraithNamesContract::new();
    let owner1 = owner(1);
    let name = text("dave");
    let meta = vec![88u8; 64];

    reg.register(&env, &owner1, &name, &meta).unwrap();
    reg.release(&env, &owner1, &name).unwrap();

    let result = reg.resolve(&env, &name);
    assert_eq!(result, Err(NamesError::NameNotFound));

    // Can re-register after release
    let owner2 = owner(2);
    let meta2 = vec![77u8; 64];
    reg.register(&env, &owner2, &name, &meta2).unwrap();
    assert_eq!(reg.resolve(&env, &name), Ok(meta2));
}

#[test]
fn test_invalid_name() {
    let env = Env::default();
    let mut reg = WraithNamesContract::new();
    let owner = owner(1);
    let meta = vec![1u8; 64];

    // Too short
    let result = reg.register(&env, &owner, &text("ab"), &meta);
    assert_eq!(result, Err(NamesError::NameTooShort));

    // Invalid chars
    let result = reg.register(&env, &owner, &text("Alice"), &meta);
    assert_eq!(result, Err(NamesError::InvalidNameCharacter));
}

#[test]
fn test_set_and_get_metadata() {
    let env = Env::default();
    let owner = owner(1);
    let (mut reg, _meta) = registered(&env, &owner, "eve", 1);
    let name = text("eve");

    let mut text_records = TextRecords::new();
    text_records.set(text("avatar"), text("https://example.com/avatar.png"));
    text_records.set(text("twitter"), text("@wraithprotocol"));

    let metadata = MetadataEntry { text_records: text_records.clone(), content_hash: [9u8; 32] };

    reg.set_metadata(&env, &owner, &name, metadata).unwrap();

    let stored = reg.get_metadata(&env, &name).unwrap();
    assert_eq!(stored.text_records, text_records);
    assert_eq!(stored.content_hash, [9u8; 32]);
}

#[test]
fn test_set_metadata_not_owner() {
    let env = Env::default();
    let owner = owner(1);
    let attacker = owner_of_attacker();
    let (mut reg, _meta) = registered(&env, &owner, "mallory", 2);

    let metadata = MetadataEntry { text_records: TextRecords::new(), content_hash: [0u8; 32] };

    let result = reg.set_metadata(&env, &attacker, &text("mallory"), metadata);
    assert_eq!(result, Err(NamesError::NotOwner));
}

fn owner_of_attacker() -> Vec<u8> {
    owner(66)
}

#[test]
fn test_set_metadata_key_too_long() {
    let env = Env::default();
    let owner = owner(1);
    let (mut reg, _meta) = registered(&env, &owner, "frank", 3);

    // Key of 66 bytes (MAX 64) → should fail
    let long_key = text("012345678901234567890123456789012345678901234567890123456789012345");
    let mut text_records = TextRecords::new();
    text_records.set(long_key, text("x"));

    let metadata = MetadataEntry { text_records, content_hash: [0u8; 32] };

    let result = reg.set_metadata(&env, &owner, &text("frank"), metadata);
    assert_eq!(result, Err(NamesError::MetadataKeyTooLong));
}

#[test]
fn test_set_metadata_value_too_long() {
    let env = Env::default();
    let owner = owner(1);
    let (mut reg, _meta) = registered(&env, &owner, "grace", 4);

    // Value exactly 257 bytes (MAX 256) → should fail
    let long_value = text(&"x".repeat(257));
    let mut text_records = TextRecords::new();
    text_records.set(text("avatar"), long_value);

    let metadata = MetadataEntry { text_records, content_hash: [0u8; 32] };

    let result = reg.set_metadata(&env, &owner, &text("grace"), metadata);
    assert_eq!(result, Err(NamesError::MetadataValueTooLong));
}

#[test]
fn test_set_metadata_total_too_long() {
    let env = Env::default();
    let owner = owner(1);
    let (mut reg, _meta) = registered(&env, &owner, "heidi", 5);

    let mut text_records = TextRecords::new();
    // 5 records each 210 bytes (key=5, value=205) = 1050 total, over the total limit
    // Each record stays under the 256-byte per-value limit
    text_records.set(text("key00"), text(&"v".repeat(205)));
    text_records.set(text("key01"), text(&"v".repeat(205)));
    text_records.set(text("key02"), text(&"v".repeat(205)));
    text_records.set(text("key03"), text(&"v".repeat(205)));
    text_records.set(text("key04"), text(&"v".repeat(205)));

    let metadata = MetadataEntry { text_records, content_hash: [0u8; 32] };

    let result = reg.set_metadata(&env, &owner, &text("heidi"), metadata);
    assert_eq!(result, Err(NamesError::MetadataTotalTooLong));
}

#[test]
fn test_get_metadata_not_found() {
    let env = Env::default();
    let owner = owner(1);
    let (reg, _meta) = registered(&env, &owner, "ivan", 6);

    // Name exists but no metadata set
    let result = reg.get_metadata(&env, &text("ivan"));
    assert_eq!(result, Err(NamesError::MetadataNotFound));
}

#[test]
fn test_get_metadata_unregistered_name() {
    let env = Env::default();
    let reg = WraithNamesContract::new();

    let result = reg.get_metadata(&env, &text("nobody"));
    assert_eq!(result, Err(NamesError::NameNotFound));
}

#[test]
fn test_metadata_cleaned_on_release() {
    let env = Env::default();
    let owner = owner(1);
    let (mut reg, _meta) = registered(&env, &owner, "judy", 7);
    let name = text("judy");

    let mut text_records = TextRecords::new();
    text_records.set(text("avatar"), text("https://example.com/pic.jpg"));
    let metadata = MetadataEntry { text_records, content_hash: [0u8; 32] };

    reg.set_metadata(&env, &owner, &name, metadata).unwrap();

    // Verify metadata exists
    let stored = reg.get_metadata(&env, &name).unwrap();
    assert_eq!(stored.text_records.len(), 1);

    // Release should clean metadata
    reg.release(&env, &owner, &name).unwrap();

    // After release, get_metadata should return NameNotFound (name is gone)
    let result = reg.get_metadata(&env, &name);
    assert_eq!(result, Err(NamesError::NameNotFound));
}

#[test]
fn test_hot_path_unchanged_after_metadata() {
    let env = Env::default();
    let owner = owner(1);
    let (mut reg, meta) = registered(&env, &owner, "karen", 8);
    let name = text("karen");

    // Set metadata
    let metadata = MetadataEntry { text_records: TextRecords::new(), content_hash: [0u8; 32] };
    reg.set_metadata(&env, &owner, &name, metadata).unwrap();

    // Hot path: resolve still works
    let resolved = reg.resolve(&env, &name).unwrap();
    assert_eq!(resolved, meta);

    // Hot path: name_of still works
    let found_name = reg.name_of(&env, &meta).unwrap();
    assert_eq!(found_name, name);
}

// --- further cases ---

#[test]
fn hash_name_is_the_sha256_of_the_name() {
    let env = Env::default();
    let h = WraithNamesContract::hash_name(&env, &text("abc"));
    let expected: [u8; 32] = [
        0xba, 0x78, 0x16, 0xbf, 0x8f, 0x01, 0xcf, 0xea, 0x41, 0x41, 0x40, 0xde, 0x5d, 0xae, 0x22,
        0x23, 0xb0, 0x03, 0x61, 0xa3, 0x96, 0x17, 0x7a, 0x9c, 0xb4, 0x10, 0xff, 0x61, 0xf2, 0x00,
        0x15, 0xad,
    ];
    assert_eq!(h, expected.to_vec());
}

#[test]
fn name_length_limits() {
    let env = Env::default();
    assert_eq!(WraithNamesContract::validate_name(&env, &text("abc")), Ok(()));
    assert_eq!(WraithNamesContract::validate_name(&env, &text(&"z".repeat(32))), Ok(()));
    assert_eq!(
        WraithNamesContract::validate_name(&env, &text(&"z".repeat(33))),
        Err(NamesError::NameTooLong)
    );
    assert_eq!(WraithNamesContract::validate_name(&env, &text("")), Err(NamesError::NameTooShort));
    assert_eq!(WraithNamesContract::validate_name(&env, &text("a0z9")), Ok(()));
    assert_eq!(
        WraithNamesContract::validate_name(&env, &text("al-ce")),
        Err(NamesError::InvalidNameCharacter)
    );
    // Length is checked before the characters.
    assert_eq!(WraithNamesContract::validate_name(&env, &text("A")), Err(NamesError::NameTooShort));
}

#[test]
fn register_checks_name_before_meta_address() {
    let env = Env::default();
    let mut reg = WraithNamesContract::new();
    let who = owner(1);
    assert_eq!(
        reg.register(&env, &who, &text("Bad"), &vec![1u8; 63]),
        Err(NamesError::InvalidNameCharacter)
    );
    assert_eq!(
        reg.register(&env, &who, &text("good"), &vec![1u8; 63]),
        Err(NamesError::InvalidMetaAddress)
    );
    assert_eq!(
        reg.register(&env, &who, &text("good"), &vec![1u8; 65]),
        Err(NamesError::InvalidMetaAddress)
    );
    assert_eq!(reg.resolve(&env, &text("good")), Err(NamesError::NameNotFound));
}

#[test]
fn update_moves_the_reverse_lookup() {
    let env = Env::default();
    let who = owner(1);
    let (mut reg, old_meta) = registered(&env, &who, "lena", 10);
    let new_meta = vec![11u8; 64];
    assert_eq!(reg.update(&env, &who, &text("lena"), &new_meta), Ok(()));
    assert_eq!(reg.resolve(&env, &text("lena")), Ok(new_meta.clone()));
    assert_eq!(reg.name_of(&env, &new_meta), Ok(text("lena")));
    assert_eq!(reg.name_of(&env, &old_meta), Err(NamesError::NameNotFound));
}

#[test]
fn repeated_update_changes_nothing() {
    let env = Env::default();
    let who = owner(1);
    let (mut reg, _old) = registered(&env, &who, "sami", 19);
    let new_meta = vec![20u8; 64];
    assert_eq!(reg.update(&env, &who, &text("sami"), &new_meta), Ok(()));
    assert_eq!(reg.update(&env, &who, &text("sami"), &new_meta), Ok(()));
    assert_eq!(reg.resolve(&env, &text("sami")), Ok(new_meta.clone()));
    assert_eq!(reg.name_of(&env, &new_meta), Ok(text("sami")));
}

#[test]
fn update_refusals() {
    let env = Env::default();
    let who = owner(1);
    let (mut reg, meta) = registered(&env, &who, "mike", 12);
    assert_eq!(
        reg.update(&env, &owner(2), &text("mike"), &vec![13u8; 64]),
        Err(NamesError::NotOwner)
    );
    assert_eq!(
        reg.update(&env, &who, &text("mike"), &vec![13u8; 10]),
        Err(NamesError::InvalidMetaAddress)
    );
    assert_eq!(
        reg.update(&env, &who, &text("nope"), &vec![13u8; 64]),
        Err(NamesError::NameNotFound)
    );
    // A meta-address that is not 64 bytes is refused before the name is looked at.
    assert_eq!(
        reg.update(&env, &who, &text(&"n".repeat(40)), &vec![13u8; 10]),
        Err(NamesError::InvalidMetaAddress)
    );
    assert_eq!(reg.resolve(&env, &text("mike")), Ok(meta.clone()));
    assert_eq!(reg.name_of(&env, &meta), Ok(text("mike")));
}

#[test]
fn release_refusals_leave_the_name() {
    let env = Env::default();
    let who = owner(1);
    let (mut reg, meta) = registered(&env, &who, "nina", 14);
    assert_eq!(reg.release(&env, &owner(2), &text("nina")), Err(NamesError::NotOwner));
    assert_eq!(reg.release(&env, &who, &text("nobody")), Err(NamesError::NameNotFound));
    assert_eq!(reg.resolve(&env, &text("nina")), Ok(meta));
}

#[test]
fn released_name_gets_no_old_metadata() {
    let env = Env::default();
    let who = owner(1);
    let (mut reg, _meta) = registered(&env, &who, "olga", 15);
    let md = MetadataEntry { text_records: TextRecords::new(), content_hash: [1u8; 32] };
    reg.set_metadata(&env, &who, &text("olga"), md).unwrap();
    reg.release(&env, &who, &text("olga")).unwrap();
    reg.register(&env, &owner(2), &text("olga"), &vec![16u8; 64]).unwrap();
    assert_eq!(reg.get_metadata(&env, &text("olga")), Err(NamesError::MetadataNotFound));
}

#[test]
fn shared_meta_address_leads_to_latest_name() {
    let env = Env::default();
    let who = owner(1);
    let (mut reg, meta) = registered(&env, &who, "pete", 17);
    reg.register(&env, &who, &text("quinn"), &meta).unwrap();
    assert_eq!(reg.name_of(&env, &meta), Ok(text("quinn")));
    assert_eq!(reg.resolve(&env, &text("pete")), Ok(meta.clone()));
    // Releasing the earlier name drops the shared reverse entry too.
    reg.release(&env, &who, &text("pete")).unwrap();
    assert_eq!(reg.name_of(&env, &meta), Err(NamesError::NameNotFound));
}

#[test]
fn long_name_has_no_metadata() {
    let env = Env::default();
    let who = owner(1);
    let (reg, _meta) = registered(&env, &who, "rosa", 18);
    assert_eq!(
        reg.get_metadata(&env, &text(&"r".repeat(40))),
        Err(NamesError::NameNotFound)
    );
}

#[test]
fn metadata_on_unregistered_name() {
    let env = Env::default();
    let mut reg = WraithNamesContract::new();
    let md = MetadataEntry { text_records: TextRecords::new(), content_hash: [1u8; 32] };
    assert_eq!(
        reg.set_metadata(&env, &owner(1), &text("ghost"), md),
        Err(NamesError::NameNotFound)
    );
}

#[test]
fn error_codes() {
    assert_eq!(NamesError::NameTaken.code(), 1);
    assert_eq!(NamesError::NotOwner.code(), 7);
    assert_eq!(NamesError::MetadataKeyTooLong.code(), 50);
    assert_eq!(NamesError::MetadataNotFound.code(), 54);
}
