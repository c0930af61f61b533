use sm_action::correlate::{correlate, SecretRecord};
use sm_action::ident::SecretId;
use sm_action::mapping::SecretMapping;
use sm_action::parse::parse_secret_input;

fn record(value: u128, secret: &str) -> SecretRecord {
    SecretRecord { id: SecretId { value }, value: secret.to_string() }
}

fn pairs(mapping: &SecretMapping, records: &Vec<SecretRecord>) -> Vec<(String, String)> {
    correlate(mapping, records).into_iter().map(|s| (s.name, s.value)).collect()
}

fn mapping_of(entries: &[(u128, &str)]) -> SecretMapping {
    let mut mapping = SecretMapping::new();
    for (value, name) in entries {
        mapping.insert(SecretId { value: *value }, name.to_string());
    }
    mapping
}

#[test]
fn record_for_unrequested_identifier_is_dropped() {
    let mapping = mapping_of(&[(1, "ONE")]);
    assert_eq!(pairs(&mapping, &vec![record(2, "stray")]), Vec::<(String, String)>::new());
}

#[test]
fn records_are_resolved_in_their_order() {
    let mapping = mapping_of(&[(1, "ONE"), (2, "TWO"), (3, "THREE")]);
    let records = vec![record(3, "c"), record(9, "x"), record(1, "a"), record(2, "b\nb")];
    assert_eq!(
        pairs(&mapping, &records),
        vec![
            ("THREE".to_string(), "c".to_string()),
            ("ONE".to_string(), "a".to_string()),
            ("TWO".to_string(), "b\nb".to_string()),
        ]
    );
}

#[test]
fn identifier_without_record_gives_nothing() {
    let mapping = mapping_of(&[(1, "ONE"), (2, "TWO")]);
    assert_eq!(pairs(&mapping, &vec![record(2, "b")]), vec![("TWO".to_string(), "b".to_string())]);
    assert_eq!(pairs(&mapping, &Vec::new()), Vec::<(String, String)>::new());
}

#[test]
fn repeated_record_is_resolved_each_time() {
    let mapping = mapping_of(&[(1, "ONE")]);
    assert_eq!(
        pairs(&mapping, &vec![record(1, "a"), record(1, "b")]),
        vec![("ONE".to_string(), "a".to_string()), ("ONE".to_string(), "b".to_string())]
    );
}

#[test]
fn empty_mapping_resolves_nothing() {
    let mapping = SecretMapping::new();
    assert!(correlate(&mapping, &vec![record(1, "a"), record(2, "b")]).is_empty());
}

#[test]
fn parsed_input_is_joined_with_records() {
    let parsed = parse_secret_input(vec![
        "91ba3f10-a9a2-4795-bacf-0eee2d39a074 > ONE".to_string(),
        "bfd7aa33-54f2-487b-bbbf-4a69b49fdc0d > TWO".to_string(),
    ]);
    let records = vec![
        record(0xbfd7aa3354f2487bbbbf4a69b49fdc0d, "second"),
        record(0x91ba3f10a9a24795bacf0eee2d39a074, "first"),
        record(0x00000000000000000000000000000001, "other"),
    ];
    assert_eq!(
        pairs(&parsed.mapping, &records),
        vec![("TWO".to_string(), "second".to_string()), ("ONE".to_string(), "first".to_string())]
    );
}
