use sm_action::ident::SecretId;
use sm_action::mapping::SecretMapping;

#[test]
fn new_mapping_is_empty() {
    let mapping = SecretMapping::new();
    assert_eq!(mapping.len(), 0);
    assert!(mapping.is_empty());
    assert_eq!(mapping.get(&SecretId { value: 7 }), None);
    assert!(!mapping.contains(&SecretId { value: 7 }));
}

#[test]
fn insert_hands_back_the_previous_name() {
    let mut mapping = SecretMapping::with_capacity(2);
    let id = SecretId { value: 7 };
    assert_eq!(mapping.insert(id, "A".to_string()), None);
    assert_eq!(mapping.insert(id, "B".to_string()), Some("A".to_string()));
    assert_eq!(mapping.len(), 1);
    assert!(!mapping.is_empty());
    assert!(mapping.contains(&id));
    assert_eq!(mapping.get(&id), Some(&"B".to_string()));
}

#[test]
fn ids_lists_each_identifier_once() {
    let mut mapping = SecretMapping::new();
    for value in [3u128, 1, 2, 3, 1] {
        mapping.insert(SecretId { value }, format!("N{value}"));
    }
    let mut ids: Vec<u128> = mapping.ids().iter().map(|id| id.value).collect();
    ids.sort();
    assert_eq!(ids, vec![1, 2, 3]);
    assert_eq!(mapping.len(), 3);
}
