use anytomd::xml_io::resolve_reference;

fn resolve(name: &str) -> String {
    let chars: Vec<char> = name.chars().collect();
    resolve_reference(&chars).into_iter().collect()
}

#[test]
fn test_resolve_reference_predefined_entities() {
    assert_eq!(resolve("lt"), "<");
    assert_eq!(resolve("gt"), ">");
    assert_eq!(resolve("amp"), "&");
    assert_eq!(resolve("apos"), "'");
    assert_eq!(resolve("quot"), "\"");
    assert_eq!(resolve("nbsp"), "");
}

#[test]
fn test_resolve_reference_character_references() {
    assert_eq!(resolve("#65"), "A");
    assert_eq!(resolve("#x41"), "A");
    assert_eq!(resolve("#x1F600"), "\u{1F600}");
    assert_eq!(resolve("#0"), "");
    assert_eq!(resolve("#xD800"), "");
    assert_eq!(resolve("#+65"), "");
    assert_eq!(resolve("#X41"), "");
}
