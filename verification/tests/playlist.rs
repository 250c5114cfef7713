use moget::hls::playlist::{
    parse_media_playlist, parse_playlist, AlternativeMedia, Key, KeyMethod, MasterPlaylist,
    MediaPlaylist, MediaSegment, ParseError, Playlist, VariantStream,
};

const MEDIA: &str = "#EXTM3U
#EXT-X-VERSION:7
#EXT-X-TARGETDURATION:6
#EXT-X-MEDIA-SEQUENCE:41
#EXT-X-KEY:METHOD=AES-128,URI=\"key.bin\",IV=0x0123456789ABCDEF0123456789ABCDEF
#EXT-X-MAP:URI=\"init.mp4\"
#EXTINF:5.5,
a.m4s
#EXT-X-KEY:METHOD=NONE,IV=0x00
#EXTINF:6,
b.m4s
#EXT-X-KEY:METHOD=SAMPLE-AES,URI=\"x\"
#EXTINF:6,
c.m4s
#EXT-X-KEY:METHOD=ROT13
#EXTINF:6,
d.m4s
#EXT-X-ENDLIST
";

const MASTER: &str = "#EXTM3U
#EXT-X-MEDIA:TYPE=AUDIO,GROUP-ID=\"sound\",NAME=\"English\",DEFAULT=YES,AUTOSELECT=YES,URI=\"en.m3u8\"
#EXT-X-MEDIA:TYPE=AUDIO,GROUP-ID=\"sound\",NAME=\"Deutsch\",URI=\"de.m3u8\"
#EXT-X-STREAM-INF:BANDWIDTH=1000,AUDIO=\"sound\",VIDEO=\"picture\"
low.m3u8
#EXT-X-I-FRAME-STREAM-INF:BANDWIDTH=9000,URI=\"frames.m3u8\"
";

fn some(text: &str) -> Option<String> {
    Some(text.to_string())
}

fn segment(uri: &str, key: Option<Key<String>>, map: Option<String>) -> MediaSegment<String> {
    MediaSegment { uri: uri.to_string(), key, map }
}

fn key(method: KeyMethod<String>, uri: Option<String>, iv: Option<String>) -> Option<Key<String>> {
    Some(Key { method, uri, iv })
}

fn expected_media() -> MediaPlaylist {
    MediaPlaylist {
        target_duration: 6.0f32.to_bits(),
        media_sequence: 41,
        segments: vec![
            segment(
                "a.m4s",
                key(
                    KeyMethod::AES128,
                    some("key.bin"),
                    some("0x0123456789ABCDEF0123456789ABCDEF"),
                ),
                some("init.mp4"),
            ),
            segment("b.m4s", key(KeyMethod::Clear, None, some("0x00")), None),
            segment("c.m4s", key(KeyMethod::SampleAES, some("x"), None), None),
            segment("d.m4s", key(KeyMethod::Other("ROT13".to_string()), None, None), None),
        ],
        end_list: true,
    }
}

fn alternative(uri: &str, marked: bool) -> AlternativeMedia<String> {
    AlternativeMedia {
        uri: some(uri),
        group_id: "sound".to_string(),
        default: marked,
        autoselect: marked,
    }
}

#[test]
fn media_playlist_is_read() {
    assert_eq!(parse_media_playlist(MEDIA.as_bytes()), Ok(expected_media()));
}

#[test]
fn kinds_are_told_apart() {
    assert_eq!(
        parse_playlist(MEDIA.as_bytes()),
        Ok(Playlist::MediaPlaylist(expected_media()))
    );
    assert_eq!(
        parse_playlist(MASTER.as_bytes()),
        Ok(Playlist::MasterPlaylist(MasterPlaylist {
            variants: vec![
                VariantStream {
                    is_i_frame: false,
                    uri: "low.m3u8".to_string(),
                    bandwidth: 1000,
                    audio: some("sound"),
                    video: some("picture"),
                },
                VariantStream {
                    is_i_frame: true,
                    uri: "frames.m3u8".to_string(),
                    bandwidth: 9000,
                    audio: None,
                    video: None,
                },
            ],
            alternatives: vec![alternative("en.m3u8", true), alternative("de.m3u8", false)],
        }))
    );
}

#[test]
fn live_playlist_has_no_end() {
    let text = MEDIA.replace("#EXT-X-ENDLIST\n", "");
    assert!(!parse_media_playlist(text.as_bytes()).unwrap().end_list);
}

#[test]
fn other_bytes_are_no_playlist() {
    assert_eq!(parse_playlist(b"<html>"), Err(ParseError));
    assert_eq!(parse_media_playlist(b"<html>"), Err(ParseError));
    assert_eq!(parse_media_playlist(b""), Err(ParseError));
}
