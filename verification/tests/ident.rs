use sm_action::ident::SecretId;

#[test]
fn parse_reads_hyphenated_text() {
    let id = SecretId::parse("a1a2a3a4-b1b2-c1c2-d1d2-d3d4d5d6d7d8").unwrap();
    assert_eq!(id.value, 0xa1a2a3a4b1b2c1c2d1d2d3d4d5d6d7d8u128);
}

#[test]
fn parse_agrees_with_uuid() {
    let text = "91ba3f10-a9a2-4795-bacf-0eee2d39a074";
    let id = SecretId::parse(text).unwrap();
    assert_eq!(id.value, uuid::Uuid::parse_str(text).unwrap().as_u128());
    assert_eq!(id.value, 0x91ba3f10a9a24795bacf0eee2d39a074u128);
}

#[test]
fn parse_ignores_case() {
    let lower = SecretId::parse("bfd7aa33-54f2-487b-bbbf-4a69b49fdc0d").unwrap();
    let upper = SecretId::parse("BFD7AA33-54F2-487B-BBBF-4A69B49FDC0D").unwrap();
    assert_eq!(lower, upper);
}

#[test]
fn parse_reads_text_without_hyphens() {
    let id = SecretId::parse("bfd7aa3354f2487bbbbf4a69b49fdc0d").unwrap();
    assert_eq!(id.value, 0xbfd7aa3354f2487bbbbf4a69b49fdc0du128);
}

#[test]
fn parse_refuses_what_is_no_identifier() {
    for text in ["", "not-a-uuid", "91ba3f10-a9a2-4795-bacf-0eee2d39a07", "91ba3f10-a9a2-4795-bacf-0eee2d39a07g", " 91ba3f10-a9a2-4795-bacf-0eee2d39a074"] {
        assert!(SecretId::parse(text).is_err(), "{text:?}");
    }
}

#[test]
fn parse_error_carries_the_message() {
    let message = SecretId::parse("not-a-uuid").unwrap_err();
    assert_eq!(message, uuid::Uuid::parse_str("not-a-uuid").unwrap_err().to_string());
    assert!(!message.is_empty());
}

#[test]
fn to_text_is_hyphenated_lower_case() {
    let id = SecretId { value: 0xa1a2a3a4b1b2c1c2d1d2d3d4d5d6d7d8u128 };
    assert_eq!(id.to_text(), "a1a2a3a4-b1b2-c1c2-d1d2-d3d4d5d6d7d8");
    let zero = SecretId { value: 0 };
    assert_eq!(zero.to_text(), "00000000-0000-0000-0000-000000000000");
    let small = SecretId { value: 0x1f };
    assert_eq!(small.to_text(), "00000000-0000-0000-0000-00000000001f");
    let all = SecretId { value: u128::MAX };
    assert_eq!(all.to_text(), "ffffffff-ffff-ffff-ffff-ffffffffffff");
}

#[test]
fn to_text_then_parse_gives_the_identifier_back() {
    for value in [0u128, 1, 0x91ba3f10a9a24795bacf0eee2d39a074, u128::MAX] {
        let id = SecretId { value };
        assert_eq!(SecretId::parse(&id.to_text()).unwrap(), id);
    }
}

#[test]
fn parse_then_to_text_gives_lower_case_back() {
    let id = SecretId::parse("BFD7AA33-54F2-487B-BBBF-4A69B49FDC0D").unwrap();
    assert_eq!(id.to_text(), "bfd7aa33-54f2-487b-bbbf-4a69b49fdc0d");
}
