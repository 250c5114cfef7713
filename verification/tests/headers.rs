use moget::headers::{build_headers, HeaderError};
use reqwest::header::HeaderMap;

fn lines(lines: &[&str]) -> Vec<String> {
    lines.iter().map(|line| line.to_string()).collect()
}

fn sent(map: &HeaderMap) -> Vec<(String, String)> {
    let mut all: Vec<(String, String)> = map
        .iter()
        .map(|(k, v)| (k.as_str().to_string(), String::from_utf8(v.as_bytes().to_vec()).unwrap()))
        .collect();
    all.sort();
    all
}

fn pair(name: &str, value: &str) -> (String, String) {
    (name.to_string(), value.to_string())
}

#[test]
fn no_lines_no_headers() {
    assert!(build_headers(&Vec::new(), &None).unwrap().is_empty());
}

#[test]
fn names_and_values_are_trimmed() {
    let map = build_headers(&lines(&["  X-Name :  a: b  ", "Referer:http://x/"]), &None).unwrap();
    assert_eq!(sent(&map), vec![pair("referer", "http://x/"), pair("x-name", "a: b")]);
}

#[test]
fn lines_without_colon_are_passed_over() {
    let map = build_headers(&lines(&["nothing", "", "A: 1"]), &None).unwrap();
    assert_eq!(sent(&map), vec![pair("a", "1")]);
}

#[test]
fn last_line_decides() {
    let map = build_headers(&lines(&["A: 1", "B: 2", "a: 3"]), &None).unwrap();
    assert_eq!(sent(&map), vec![pair("a", "3"), pair("b", "2")]);
}

#[test]
fn given_cookie_is_sent() {
    let cookie = Some(" a=b ".to_string());
    let map = build_headers(&lines(&["Cookie: c=d", "A: 1"]), &cookie).unwrap();
    assert_eq!(sent(&map), vec![pair("a", "1"), pair("cookie", " a=b ")]);
}

#[test]
fn values_may_be_empty_or_foreign() {
    let map = build_headers(&lines(&["A:", "B: é\tü"]), &None).unwrap();
    assert_eq!(sent(&map), vec![pair("a", ""), pair("b", "é\tü")]);
}

#[test]
fn wrong_names_are_reported() {
    let error = |line: &str| build_headers(&lines(&[line]), &None).unwrap_err();
    assert_eq!(error(" a b : c"), HeaderError::Name(" a b ".to_string()));
    assert_eq!(error(": c"), HeaderError::Name(String::new()));
    assert_eq!(error("é: c"), HeaderError::Name("é".to_string()));
    let long = "a".repeat(65536);
    assert_eq!(error(&format!("{long}: c")), HeaderError::Name(long.clone()));
    assert!(build_headers(&lines(&[&format!("{}: c", &long[1..])]), &None).is_ok());
}

#[test]
fn every_token_character_is_a_name() {
    for code in 0..256u32 {
        let c = char::from_u32(code).unwrap();
        let token = c.is_ascii_alphanumeric() || "!#$%&'*+-.^_`|~".contains(c);
        let line = format!("x{c}x: 1");
        assert_eq!(build_headers(&lines(&[&line]), &None).is_ok(), token || c == ':', "{code}");
    }
}

#[test]
fn wrong_values_are_reported() {
    let error = |line: &str| build_headers(&lines(&[line]), &None).unwrap_err();
    assert_eq!(error("a: b\nc"), HeaderError::Value(" b\nc".to_string()));
    assert_eq!(error("a: \u{7f}"), HeaderError::Value(" \u{7f}".to_string()));
    assert_eq!(
        build_headers(&Vec::new(), &Some("a\0b".to_string())).unwrap_err(),
        HeaderError::Cookie("a\0b".to_string())
    );
}

#[test]
fn first_wrong_line_is_reported() {
    let error = build_headers(&lines(&["A: 1", "b: \n\u{1}", "c d: 1"]), &None).unwrap_err();
    assert_eq!(error, HeaderError::Value(" \n\u{1}".to_string()));
}

#[test]
fn there_is_room_for_many() {
    let all: Vec<String> = (0..6553).map(|i| format!("h{i}: {i}")).collect();
    let map = build_headers(&all, &Some("c".to_string())).unwrap();
    assert_eq!(map.len(), 6554);
    assert_eq!(map["h6000"], "6000");
}

#[test]
fn many_lines_of_few_names_fit() {
    let all: Vec<String> = (0..30000).map(|i| format!("h{}: {i}", i % 7)).collect();
    let map = build_headers(&all, &None).unwrap();
    assert_eq!(map.len(), 7);
    assert_eq!(map["h0"], "29995");
}

#[test]
fn too_many_do_not_fit() {
    let all: Vec<String> = (0..30000).map(|i| format!("h{i}: {i}")).collect();
    assert_eq!(build_headers(&all, &None).unwrap_err(), HeaderError::TooMany);
}
