use moget::url::{join, join_opt, parse, path, query};

#[test]
fn urls_are_written_out() {
    assert_eq!(parse("HTTP://Example.com"), Ok("http://example.com/".to_string()));
    assert_eq!(parse("example"), Err("relative URL without a base".to_string()));
}

#[test]
fn references_are_resolved() {
    let base = "http://example.com/a/b.m3u8?x=1";
    assert_eq!(join(base, "c.ts"), Ok("http://example.com/a/c.ts".to_string()));
    assert_eq!(join(base, "/c.ts"), Ok("http://example.com/c.ts".to_string()));
    assert_eq!(join(base, "../c.ts"), Ok("http://example.com/c.ts".to_string()));
    assert_eq!(join(base, "https://other/"), Ok("https://other/".to_string()));
    assert_eq!(join(base, "http://["), Err("invalid IPv6 address".to_string()));
    assert_eq!(join("b", "c"), parse("b"));
}

#[test]
fn missing_references_stay_missing() {
    assert_eq!(join_opt("http://a/", &None), None);
    assert_eq!(
        join_opt("http://a/", &Some("b".to_string())),
        Some(Ok("http://a/b".to_string()))
    );
}

#[test]
fn parts_of_urls() {
    assert_eq!(path("http://a/b/c.json?d#e"), Ok("/b/c.json".to_string()));
    assert_eq!(path("mailto:a@b"), Ok("a@b".to_string()));
    assert_eq!(path("nothing"), parse("nothing"));
    assert_eq!(query("http://a/b?c=1&d"), Ok(Some("c=1&d".to_string())));
    assert_eq!(query("http://a/b"), Ok(None));
    assert_eq!(query("nothing"), Err("relative URL without a base".to_string()));
}
