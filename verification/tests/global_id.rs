use xiss::global_id::index_to_css_identifier;

#[test]
fn id_to_string_0() {
    assert_eq!(index_to_css_identifier(0), "a");
}

#[test]
fn id_to_string_1() {
    assert_eq!(index_to_css_identifier(1), "b");
}

#[test]
fn id_to_string_51() {
    assert_eq!(index_to_css_identifier(51), "Z");
}

#[test]
fn id_to_string_52() {
    assert_eq!(index_to_css_identifier(52), "aa");
}

#[test]
fn id_to_string_53() {
    assert_eq!(index_to_css_identifier(53), "ab");
}

#[test]
fn id_to_string_54() {
    assert_eq!(index_to_css_identifier(54), "ac");
}

#[test]
fn id_to_string_103() {
    assert_eq!(index_to_css_identifier(103), "aZ");
}

#[test]
fn test_id_to_string_104() {
    assert_eq!(index_to_css_identifier(104), "a0");
}

#[test]
fn id_to_string_115() {
    assert_eq!(index_to_css_identifier(115), "a-");
}

#[test]
fn id_to_string_116() {
    assert_eq!(index_to_css_identifier(116), "ba");
}

#[test]
fn single_letters_come_first() {
    let letters = "abcdefghijklmnopqrstuvwxyzABCDEFGHIJKLMNOPQRSTUVWXYZ";
    for (i, c) in letters.chars().enumerate() {
        assert_eq!(index_to_css_identifier(i as u64), c.to_string());
    }
}

#[test]
fn identifiers_are_css_identifiers_and_distinct() {
    let mut seen = std::collections::HashSet::new();
    for i in 0..20000u64 {
        let id = index_to_css_identifier(i);
        let mut chars = id.chars();
        let first = chars.next().unwrap();
        assert!(first.is_ascii_alphabetic());
        assert!(chars.all(|c| c.is_ascii_alphanumeric() || c == '_' || c == '-'));
        assert!(seen.insert(id));
    }
}

#[test]
fn identifiers_grow_by_length() {
    assert_eq!(index_to_css_identifier(52 + 52 * 64 - 1), "Z-");
    assert_eq!(index_to_css_identifier(52 + 52 * 64), "aaa");
    assert_eq!(index_to_css_identifier(52 + 52 * 64 + 52 * 64 * 64 - 1), "Z--");
    assert_eq!(index_to_css_identifier(52 + 52 * 64 + 52 * 64 * 64), "aaaa");
    assert_eq!(index_to_css_identifier(13_847_860), "aaaaa");
    assert_eq!(index_to_css_identifier(u64::MAX).len(), 11);
}
