use moget::command::{
    detect, ffmpeg_args, output_name, path_output_name, suggest, Arg, DetectError, Protocol,
};

#[test]
fn address_suggests_the_protocol() {
    assert_eq!(detect(Protocol::Auto, "http://a/b.json?c=d"), Ok(Protocol::Vimeo));
    assert_eq!(detect(Protocol::Auto, "http://a/b.m3u8#c"), Ok(Protocol::Hls));
    assert_eq!(detect(Protocol::Auto, "http://a/b?c.json"), Err(DetectError::Unknown));
    assert_eq!(
        detect(Protocol::Auto, "b.json"),
        Err(DetectError::Url("relative URL without a base".to_string()))
    );
    assert_eq!(suggest("/.json"), Some(Protocol::Vimeo));
    assert_eq!(suggest("/a.json.m3u8"), Some(Protocol::Hls));
    assert_eq!(suggest("/a.mp4"), None);
}

#[test]
fn given_protocol_is_used() {
    assert_eq!(detect(Protocol::Hls, "http://a/b.json"), Ok(Protocol::Hls));
    assert_eq!(detect(Protocol::Vimeo, "no address"), Ok(Protocol::Vimeo));
    assert_eq!(Protocol::default(), Protocol::Auto);
}

#[test]
fn output_is_named_after_the_address() {
    let name = |url| output_name(url).unwrap();
    assert_eq!(name("http://a/b/c.m3u8?d=e.f"), Some("c.mp4".to_string()));
    assert_eq!(name("http://a/b/c"), Some("c.mp4".to_string()));
    assert_eq!(name("http://a/b/"), Some(String::new()));
    assert_eq!(name("http://a"), Some(String::new()));
    assert_eq!(name("data:text"), None);
    assert_eq!(output_name("c.m3u8"), Err("relative URL without a base".to_string()));
}

#[test]
fn extension_is_replaced() {
    for name in ["a", "a.b", "a.b.c", ".a", ".a.b", "...", "a.", "", ".", "..", "..a.b", "é.ü"] {
        let expected = std::path::Path::new(name).with_extension("mp4");
        assert_eq!(path_output_name(&format!("/x/{name}")), expected.to_str().unwrap());
        assert_eq!(path_output_name(name), expected.to_str().unwrap());
    }
}

fn text(text: &str) -> Arg<String> {
    Arg::Text(text.to_string())
}

#[test]
fn arguments_of_the_muxer() {
    assert_eq!(ffmpeg_args(0, &None, false), vec![text("-codec"), text("copy"), Arg::Output]);
    assert_eq!(
        ffmpeg_args(2, &Some("1:00".to_string()), true),
        vec![
            text("-i"),
            Arg::File(0),
            text("-i"),
            Arg::File(1),
            text("-codec"),
            text("copy"),
            text("-ss"),
            text("1:00"),
            text("-movflags"),
            text("faststart"),
            Arg::Output,
        ]
    );
}
