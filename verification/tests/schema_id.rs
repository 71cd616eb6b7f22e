use rcgenmsg::schema_id::{schema_id_from_digest, schema_identifier};

#[test]
fn identifier_of_namespace_and_name() {
    assert_eq!(schema_identifier("sensor_msgs", "BatteryInfo"), "0xd49e83bd5ce1aec0");
}

#[test]
fn identifier_is_the_same_on_every_call() {
    let first = schema_identifier("sensor_msgs", "BatteryInfo");
    let second = schema_identifier("sensor_msgs", "BatteryInfo");
    assert_eq!(first, second);
}

#[test]
fn identifier_with_empty_namespace() {
    assert_eq!(schema_identifier("", "BatteryInfo"), "0xa2135b0e3f9f1cb0");
}

#[test]
fn identifier_of_empty_names() {
    assert_eq!(schema_identifier("", ""), "0xc501c091b0366d76");
}

#[test]
fn identifier_hashes_utf8_bytes() {
    assert_eq!(schema_identifier("ns", "Ünï"), "0xf49645e0a959128f");
}

#[test]
fn identifier_depends_on_both_parts() {
    assert_ne!(schema_identifier("a", "b"), schema_identifier("b", "a"));
    assert_eq!(schema_identifier("a", "b"), "0xbb0bcf9744a9101d");
}

#[test]
fn identifier_of_long_names() {
    let namespace = "a".repeat(100);
    let name = "B".repeat(100);
    assert_eq!(schema_identifier(&namespace, &name), "0xab126f828f95c877");
}

#[test]
fn identifier_is_a_hexadecimal_literal() {
    for (namespace, name) in [("", ""), ("a", "b"), ("sensor_msgs", "BatteryInfo"), ("x", "")] {
        let id = schema_identifier(namespace, name);
        assert_eq!(id.len(), 18);
        assert!(id.starts_with("0x"));
        assert!(id[2..].chars().all(|c| matches!(c, '0'..='9' | 'a'..='f')));
        assert!(matches!(id.as_bytes()[2], b'8'..=b'9' | b'a'..=b'f'));
    }
}

#[test]
fn identifier_has_top_bit_set() {
    let digest = [0u8; 16];
    assert_eq!(schema_id_from_digest(&digest), "0x8000000000000000");
}

#[test]
fn identifier_keeps_first_eight_bytes() {
    let digest = [
        0x01, 0x23, 0x45, 0x67, 0x89, 0xab, 0xcd, 0xef, 0xff, 0xff, 0xff, 0xff, 0xff, 0xff, 0xff,
        0xff,
    ];
    assert_eq!(schema_id_from_digest(&digest), "0x8123456789abcdef");
}

#[test]
fn identifier_leaves_a_set_top_bit() {
    let digest = [0xf0u8, 0x0f, 0xa5, 0x5a, 0x00, 0x10, 0x09, 0x9a];
    assert_eq!(schema_id_from_digest(&digest), "0xf00fa55a0010099a");
}
