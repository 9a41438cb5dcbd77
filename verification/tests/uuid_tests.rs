use session_auth::uuid_v4;

#[test]
fn test_generate_uuid_v4_length() {
    let uuid = uuid_v4();
    // The UUID should be 36 characters long (32 hex characters + 4 dashes)
    assert_eq!(uuid.len(), 36, "UUID length is incorrect");
}

#[test]
fn test_generate_uuid_v4_format() {
    let uuid = uuid_v4();

    // Ensure the UUID has the correct hyphen placement
    assert_eq!(&uuid[8..9], "-", "First dash is misplaced");
    assert_eq!(&uuid[13..14], "-", "Second dash is misplaced");
    assert_eq!(&uuid[18..19], "-", "Third dash is misplaced");
    assert_eq!(&uuid[23..24], "-", "Fourth dash is misplaced");
}

#[test]
fn test_generate_uuid_v4_version() {
    let uuid = uuid_v4();

    // The version number should be '4', which is the 13th character (index 12)
    assert_eq!(&uuid[14..15], "4", "UUID version is not 4");
}

#[test]
fn test_generate_uuid_v4_variant() {
    let uuid = uuid_v4();

    // The variant is defined by the 17th character (index 16).
    // It must be one of the following: 8, 9, a, or b.
    let variant_char = &uuid[19..20];
    assert!(
        variant_char == "8" || variant_char == "9" || variant_char == "a" || variant_char == "b",
        "UUID variant is not RFC4122 compliant"
    );
}

#[test]
fn uuid_v4_identifiers_are_fresh() {
    let a = uuid_v4();
    let b = uuid_v4();
    assert_ne!(a, b);
}
