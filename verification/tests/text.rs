use moget::text::{chars_of, copy_opt, ends_with, last_index, same, split_once, trim};

#[test]
fn split_once_cuts_at_the_first() {
    let cut = |text| split_once(text, ':');
    assert_eq!(cut("a:b:c"), Some(("a".to_string(), "b:c".to_string())));
    assert_eq!(cut(":"), Some((String::new(), String::new())));
    assert_eq!(cut("é:ü"), Some(("é".to_string(), "ü".to_string())));
    assert_eq!(cut("abc"), None);
    assert_eq!(cut(""), None);
}

#[test]
fn trim_is_that_of_str() {
    for text in ["", " ", "a", " a ", "\t a b\u{3000}\n", "\u{85}x\u{a0}", "\u{200b}y\u{2028}", "\u{1f}z"] {
        assert_eq!(trim(text), text.trim());
    }
    for code in 0..0x3100u32 {
        let text = format!("{}x", char::from_u32(code).unwrap());
        assert_eq!(trim(&text), text.trim());
    }
}

#[test]
fn ends_with_compares_characters() {
    assert!(ends_with("/a.json", ".json"));
    assert!(ends_with(".json", ".json"));
    assert!(!ends_with("json", ".json"));
    assert!(!ends_with("/a.JSON", ".json"));
    assert!(ends_with("x", ""));
    assert!(ends_with("é", "é"));
}

#[test]
fn last_index_counts_characters() {
    assert_eq!(last_index("é/é/é", '/'), Some(3));
    assert_eq!(last_index("abc", '/'), None);
    assert_eq!(last_index("", '/'), None);
    assert_eq!(last_index("/", '/'), Some(0));
}

#[test]
fn small_operations() {
    assert_eq!(chars_of("aé"), vec!['a', 'é']);
    assert!(same("a", "a"));
    assert!(!same("a", "A"));
    assert_eq!(copy_opt(&Some("a".to_string())), Some("a".to_string()));
    assert_eq!(copy_opt(&None), None);
}
