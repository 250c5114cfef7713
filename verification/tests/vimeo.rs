use moget::vimeo::{
    decode_segment, Clip, Media, MediaLinks, ResolveError, Segment, Source, UrlParams,
};

fn media(name: &str, bitrate: u32) -> Media {
    Media {
        base_url: format!("{name}/"),
        bitrate,
        init_segment: "aW5pdA==".to_string(),
        index_segment: None,
        segments: vec![Segment { url: "1.m4s".to_string() }, Segment { url: "2.m4s".to_string() }],
    }
}

fn clip(video: Option<Vec<Media>>, audio: Option<Vec<Media>>) -> Clip {
    Clip { clip_id: "clip-1".to_string(), base_url: "../base/".to_string(), video, audio }
}

fn names(list: Vec<&Media>) -> Vec<&str> {
    list.into_iter().map(|media| media.base_url.as_str()).collect()
}

fn url(path: &str) -> Source<String> {
    Source::Url(format!("http://example.com/{path}"))
}

fn base64(data: &str) -> Source<String> {
    Source::Base64(data.to_string())
}

#[test]
fn best_and_worst_renditions() {
    let clip = clip(
        Some(vec![media("v2", 2), media("v1", 1), media("v3", 3)]),
        Some(vec![media("a1", 1), media("a2", 2)]),
    );
    assert_eq!(clip.best_video().unwrap().base_url, "v3/");
    assert_eq!(clip.worst_video().unwrap().base_url, "v1/");
    assert_eq!(clip.best_audio().unwrap().base_url, "a2/");
    assert_eq!(clip.worst_audio().unwrap().base_url, "a1/");
    assert_eq!(names(clip.iter(false)), vec!["v3/", "a2/"]);
    assert_eq!(names(clip.iter(true)), vec!["v1/", "a1/"]);
}

#[test]
fn last_best_and_first_worst_of_equals() {
    let streams = vec![media("a", 5), media("b", 5), media("c", 5)];
    assert_eq!(Media::best_of(&streams).unwrap().base_url, "c/");
    assert_eq!(Media::worst_of(&streams).unwrap().base_url, "a/");
}

#[test]
fn missing_renditions() {
    assert!(clip(None, Some(vec![])).iter(false).is_empty());
    assert!(Media::best_of(&vec![]).is_none());
    assert!(Media::worst_of(&vec![]).is_none());
    let silent = clip(Some(vec![media("v", 1)]), None);
    assert!(silent.best_audio().is_none());
    assert!(silent.worst_audio().is_none());
    assert_eq!(names(silent.iter(true)), vec!["v/"]);
    let sound = clip(None, Some(vec![media("a", 1)]));
    assert!(sound.best_video().is_none());
    assert!(sound.worst_video().is_none());
    assert_eq!(names(sound.iter(false)), vec!["a/"]);
}

#[test]
fn stream_with_written_init() {
    let sources = media("m", 1).resolve("http://example.com/b/", true);
    assert_eq!(
        sources,
        Ok(vec![base64("aW5pdA=="), url("b/m/1.m4s"), url("b/m/2.m4s")])
    );
}

#[test]
fn stream_with_linked_init_and_index() {
    let mut media = media("m", 1);
    media.init_segment = "init.mp4".to_string();
    media.index_segment = Some("index.mp4".to_string());
    assert_eq!(
        media.resolve("http://example.com/b/", false),
        Ok(vec![url("b/m/init.mp4"), url("b/m/index.mp4"), url("b/m/1.m4s"), url("b/m/2.m4s")])
    );
}

#[test]
fn parts_that_lead_nowhere() {
    let bad = || "http://[".to_string();
    let why = || "invalid IPv6 address".to_string();
    let resolve = |media: &Media, base64| media.resolve("http://example.com/", base64);

    let mut all = media("m", 1);
    all.base_url = bad();
    assert_eq!(resolve(&all, true), Err(ResolveError::Media(bad(), why())));

    let mut all = media("m", 1);
    all.init_segment = bad();
    all.index_segment = Some(bad());
    all.segments.push(Segment { url: bad() });
    assert_eq!(resolve(&all, false), Err(ResolveError::Init(bad(), why())));
    assert_eq!(resolve(&all, true), Err(ResolveError::Index(bad(), why())));
    all.index_segment = None;
    assert_eq!(resolve(&all, true), Err(ResolveError::Segment(bad(), why())));

    let mut clip = clip(Some(vec![all]), None);
    assert_eq!(
        clip.resolve("http://example.com/", false, true),
        Err(ResolveError::Segment(bad(), why()))
    );
    clip.base_url = bad();
    assert_eq!(
        clip.resolve("http://example.com/", false, true),
        Err(ResolveError::Clip(bad(), why()))
    );
}

#[test]
fn every_choice_is_resolved() {
    let clip = clip(
        Some(vec![media("v1", 1), media("v2", 2)]),
        Some(vec![media("a1", 1), media("a2", 2)]),
    );
    let streams = |worst| clip.resolve("http://example.com/x/y/master.json", worst, true);
    assert_eq!(
        streams(false),
        Ok(vec![
            vec![base64("aW5pdA=="), url("x/base/v2/1.m4s"), url("x/base/v2/2.m4s")],
            vec![base64("aW5pdA=="), url("x/base/a2/1.m4s"), url("x/base/a2/2.m4s")],
        ])
    );
    assert_eq!(streams(true).unwrap()[0][1], url("x/base/v1/1.m4s"));
}

#[test]
fn linked_parts() {
    let links = MediaLinks {
        init: Ok("I".to_string()),
        index: None,
        segments: vec![Ok("A".to_string()), Err("why".to_string())],
    };
    assert_eq!(
        media("m", 1).resolve_linked(&links, false),
        Err(ResolveError::Segment("2.m4s".to_string(), "why".to_string()))
    );
    let links = MediaLinks {
        init: Err("why".to_string()),
        index: None,
        segments: vec![Ok("A".to_string()), Ok("B".to_string())],
    };
    assert_eq!(
        media("m", 1).resolve_linked(&links, true),
        Ok(vec![
            base64("aW5pdA=="),
            Source::Url("A".to_string()),
            Source::Url("B".to_string())
        ])
    );
    assert_eq!(
        media("m", 1).resolve_linked(&links, false),
        Err(ResolveError::Init("aW5pdA==".to_string(), "why".to_string()))
    );
}

#[test]
fn written_segments_are_decoded() {
    assert_eq!(decode_segment("aGVsbG8="), Ok(b"hello".to_vec()));
    assert_eq!(decode_segment(""), Ok(Vec::new()));
    assert!(decode_segment("aGVsbG8").is_err());
    assert!(decode_segment("a-_b").is_err());
}

#[test]
fn parameters_of_the_address() {
    assert_eq!(UrlParams::default(), UrlParams { query_string_ranges: 1, base64_init: 1 });
    assert!(UrlParams::default().has_base64_init());
    assert!(!UrlParams { query_string_ranges: 1, base64_init: 0 }.has_base64_init());
    assert!(!UrlParams { query_string_ranges: 1, base64_init: 2 }.has_base64_init());
}

#[test]
fn output_is_named_after_the_clip() {
    assert_eq!(clip(None, None).output_name(), "clip-1.mp4");
}
