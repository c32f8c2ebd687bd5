use chennix::normalizer::Normalizer;

fn mapping() -> Vec<(String, (i64, String))> {
    vec![
        ("deepseek-v3".into(), (1, "deepseek-v3".into())),
        ("gpt-4".into(), (2, "gpt-4".into())),
    ]
}

#[test]
fn test_resolve_canonical_name() {
    let mut n = Normalizer::new();
    n.reload(mapping());

    let r = n.resolve("deepseek-v3");
    assert_eq!(r, Some((1, "deepseek-v3".to_string())));

    // case-insensitive
    let r = n.resolve("DEEPSEEK-V3");
    assert_eq!(r, Some((1, "deepseek-v3".to_string())));
}

#[test]
fn test_resolve_canonical_only() {
    let mut n = Normalizer::new();
    n.reload(mapping());

    // canonical names resolve
    assert!(n.resolve("deepseek-v3").is_some());
    assert!(n.resolve("gpt-4").is_some());

    let r = n.resolve("GPT-4");
    assert_eq!(r, Some((2, "gpt-4".to_string())));
}

#[test]
fn test_resolve_unknown_returns_none() {
    let mut n = Normalizer::new();
    n.reload(mapping());

    assert!(n.resolve("sonnet-4").is_none());
    // empty / whitespace
    assert!(n.resolve("").is_none());
    assert!(n.resolve("   ").is_none());
}

#[test]
fn test_resolve_before_reload_returns_none() {
    // A fresh normalizer has no mapping; any name is unknown.
    let n = Normalizer::new();
    assert!(n.resolve("gpt-4").is_none());
}

#[test]
fn test_reload_replaces_entire_mapping() {
    let mut n = Normalizer::new();
    n.reload(mapping());
    assert!(n.resolve("gpt-4").is_some());

    // reload with a totally different (smaller) map: old entries must vanish
    n.reload(vec![("sonnet".into(), (10, "sonnet".into()))]);

    assert!(n.resolve("gpt-4").is_none());
    assert_eq!(n.resolve("sonnet"), Some((10, "sonnet".to_string())));
}

#[test]
fn names_are_compared_in_small_letters_and_without_white_space() {
    let mut n = Normalizer::default();
    n.reload(vec![("  GPT-4o ".into(), (3, "GPT-4o".into())), ("ÄRGER".into(), (4, "ÄRGER".into()))]);
    assert_eq!(n.resolve("\tgpt-4O\n"), Some((3, "GPT-4o".to_string())));
    assert_eq!(n.resolve("ärger"), Some((4, "ÄRGER".to_string())));
    assert_eq!(n.resolve("gpt 4o"), None);
}

#[test]
fn a_later_name_replaces_an_earlier_one() {
    let mut n = Normalizer::new();
    n.reload(vec![
        ("a".into(), (1, "first".into())),
        ("A ".into(), (2, "second".into())),
        (" ".into(), (3, "nothing".into())),
    ]);
    assert_eq!(n.resolve("a"), Some((2, "second".to_string())));
    assert_eq!(n.resolve(" "), None);
    assert_eq!(n.resolve_key(&"a".to_string()), Some((2, "second".to_string())));
    assert_eq!(n.resolve_key(&"A".to_string()), None);
    assert_eq!(n.resolve_key(&String::new()), None);
}
