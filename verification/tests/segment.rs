use moget::hls::iv::IvError;
use moget::hls::playlist::{Key, KeyMethod, MediaPlaylist, MediaSegment};
use moget::hls::segment::{
    resolve_key, resolve_key_link, resolve_linked_segments, resolve_segments, segment_links,
    Segment, SegmentError, SegmentLinks,
};

const BASE: &str = "http://example.com/v/list.m3u8";
const IV: &str = "0x000102030405060708090a0b0c0d0e0f";

fn some(text: &str) -> Option<String> {
    Some(text.to_string())
}

fn aes(uri: Option<&str>, iv: Option<&str>) -> Key<String> {
    Key {
        method: KeyMethod::AES128,
        uri: uri.map(|uri| uri.to_string()),
        iv: iv.map(|iv| iv.to_string()),
    }
}

fn clear() -> Key<String> {
    Key { method: KeyMethod::Clear, uri: None, iv: None }
}

fn piece(uri: &str, key: Option<Key<String>>, map: Option<&str>) -> MediaSegment<String> {
    MediaSegment { uri: uri.to_string(), key, map: map.map(|map| map.to_string()) }
}

fn playlist(media_sequence: u64, segments: Vec<MediaSegment<String>>) -> MediaPlaylist {
    MediaPlaylist { target_duration: 0, media_sequence, segments, end_list: false }
}

fn key_iv() -> Option<(String, Vec<u8>)> {
    Some(("http://example.com/v/key".to_string(), (0..16).collect()))
}

fn at(seq: u64, name: &str, key_iv: Option<(String, Vec<u8>)>) -> Segment<String, Vec<u8>> {
    Segment { seq, url: format!("http://example.com/v/{name}"), key_iv }
}

#[test]
fn keys_are_resolved() {
    assert_eq!(resolve_key(BASE, &aes(Some("key"), Some(IV))), Ok(key_iv()));
    assert_eq!(resolve_key(BASE, &clear()), Ok(None));
}

#[test]
fn errors_of_keys() {
    assert_eq!(resolve_key(BASE, &aes(None, None)), Err(SegmentError::KeyUriMissing));
    assert_eq!(
        resolve_key(BASE, &aes(Some("http://["), None)),
        Err(SegmentError::KeyUri("http://[".to_string(), "invalid IPv6 address".to_string()))
    );
    assert_eq!(resolve_key(BASE, &aes(Some("key"), None)), Err(SegmentError::IvMissing));
    assert_eq!(
        resolve_key(BASE, &aes(Some("key"), Some("0x"))),
        Err(SegmentError::Iv(IvError::Length))
    );
    assert_eq!(
        resolve_key(BASE, &Key { method: KeyMethod::SampleAES, uri: some("key"), iv: some(IV) }),
        Err(SegmentError::Method("SAMPLE-AES".to_string()))
    );
    assert_eq!(
        resolve_key(BASE, &Key { method: KeyMethod::Other("X".to_string()), uri: None, iv: None }),
        Err(SegmentError::Method("X".to_string()))
    );
}

#[test]
fn linked_keys() {
    let key = aes(Some("key"), Some(IV));
    assert_eq!(
        resolve_key_link(&key, &Some(Ok("u".to_string()))),
        Ok(Some(("u".to_string(), (0..16).collect())))
    );
    assert_eq!(
        resolve_key_link(&key, &Some(Err("why".to_string()))),
        Err(SegmentError::KeyUri("key".to_string(), "why".to_string()))
    );
    assert_eq!(resolve_key_link(&key, &None), Err(SegmentError::KeyUriMissing));
}

#[test]
fn links_of_a_segment() {
    let links = segment_links(BASE, &piece("a", Some(aes(Some("key"), None)), Some("http://[")));
    assert_eq!(
        links,
        SegmentLinks {
            key: Some(Ok("http://example.com/v/key".to_string())),
            map: Some(Err("invalid IPv6 address".to_string())),
            uri: Ok("http://example.com/v/a".to_string()),
        }
    );
    let links = segment_links(BASE, &piece("a", Some(clear()), None));
    assert_eq!(links.key, None);
    assert_eq!(links.map, None);
}

#[test]
fn segments_are_numbered() {
    let list = playlist(7, vec![piece("a", None, None), piece("b", None, None)]);
    assert_eq!(
        resolve_segments(BASE, &list, None),
        Ok(vec![at(7, "a", None), at(8, "b", None)])
    );
}

#[test]
fn initialisation_section_comes_first() {
    let list = playlist(7, vec![piece("a", None, Some("init")), piece("b", None, None)]);
    assert_eq!(
        resolve_segments(BASE, &list, None),
        Ok(vec![at(7, "init", None), at(7, "a", None), at(8, "b", None)])
    );
}

#[test]
fn key_stays_in_force() {
    let list = playlist(
        0,
        vec![
            piece("a", None, None),
            piece("b", Some(aes(Some("key"), Some(IV))), Some("init")),
            piece("c", None, None),
            piece("d", Some(clear()), None),
            piece("e", None, None),
        ],
    );
    assert_eq!(
        resolve_segments(BASE, &list, None),
        Ok(vec![
            at(0, "a", None),
            at(1, "init", key_iv()),
            at(1, "b", key_iv()),
            at(2, "c", key_iv()),
            at(3, "d", None),
            at(4, "e", None),
        ])
    );
}

#[test]
fn old_segments_are_passed_over_with_their_keys() {
    let list = playlist(
        5,
        vec![
            piece("a", Some(aes(None, None)), Some("http://[")),
            piece("b", Some(aes(Some("key"), Some(IV))), None),
            piece("c", None, None),
        ],
    );
    assert_eq!(resolve_segments(BASE, &list, Some(6)), Ok(vec![at(7, "c", None)]));
    assert_eq!(resolve_segments(BASE, &list, Some(7)), Ok(vec![]));
    assert_eq!(resolve_segments(BASE, &list, Some(5)).unwrap().len(), 2);
    assert_eq!(resolve_segments(BASE, &list, Some(4)), Err(SegmentError::KeyUriMissing));
}

#[test]
fn first_error_is_reported() {
    let bad = || Err(SegmentError::Url("invalid IPv6 address".to_string()));
    let list = playlist(0, vec![piece("http://[", None, None), piece("b", Some(aes(None, None)), None)]);
    assert_eq!(resolve_segments(BASE, &list, None), bad());
    let list = playlist(0, vec![piece("a", None, Some("http://["))]);
    assert_eq!(resolve_segments(BASE, &list, None), bad());
    let list = playlist(0, vec![piece("http://[", Some(aes(None, None)), None)]);
    assert_eq!(resolve_segments(BASE, &list, None), Err(SegmentError::KeyUriMissing));
}

#[test]
fn numbers_run_out() {
    let list = playlist(u64::MAX - 1, vec![piece("a", None, None), piece("b", None, None)]);
    assert_eq!(resolve_segments(BASE, &list, None), Err(SegmentError::Overflow));
    let list = playlist(u64::MAX - 1, vec![piece("a", None, None)]);
    assert_eq!(resolve_segments(BASE, &list, None), Ok(vec![at(u64::MAX - 1, "a", None)]));
}

#[test]
fn linked_segments() {
    let list = playlist(3, vec![piece("a", Some(aes(Some("key"), Some(IV))), Some("m"))]);
    let links = vec![SegmentLinks {
        key: Some(Ok("K".to_string())),
        map: Some(Ok("M".to_string())),
        uri: Ok("U".to_string()),
    }];
    let key: Option<(String, Vec<u8>)> = Some(("K".to_string(), (0..16).collect()));
    assert_eq!(
        resolve_linked_segments(&list, &links, None),
        Ok(vec![
            Segment::new(3, "M".to_string(), &key),
            Segment::new(3, "U".to_string(), &key),
        ])
    );
}
