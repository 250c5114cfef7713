use moget::hls::playlist::{
    MasterPlaylist, MediaPlaylist, MediaSegment, Playlist, VariantStream,
};
use moget::hls::segment::{Segment, SegmentError};
use moget::hls::stream::{
    open_playlist, open_streams, resolve_playlist, Action, Event, ResolveError, SegmentStream,
    Step,
};

const URL: &str = "http://example.com/v/list.m3u8";

type Done = Step<Segment<String, Vec<u8>>, SegmentError<String>>;

fn playlist(media_sequence: u64, names: &[&str], end_list: bool) -> MediaPlaylist {
    MediaPlaylist {
        target_duration: 4.5f32.to_bits(),
        media_sequence,
        segments: names
            .iter()
            .map(|name| MediaSegment { uri: name.to_string(), key: None, map: None })
            .collect(),
        end_list,
    }
}

fn segment(seq: u64, name: &str) -> Segment<String, Vec<u8>> {
    Segment { seq, url: format!("http://example.com/v/{name}"), key_iv: None }
}

fn hands_out(seq: u64, name: &str, progress: u64) -> Done {
    Step { action: Action::Yield(segment(seq, name)), progress }
}

fn step(action: Action<Segment<String, Vec<u8>>, SegmentError<String>>) -> Done {
    Step { action, progress: 0 }
}

#[test]
fn complete_playlist() {
    let mut stream = SegmentStream::new(URL.to_string());
    assert_eq!(stream.url(), URL);
    assert_eq!(stream.step(Event::Poll), step(Action::Request));
    assert_eq!(stream.step(Event::Poll), step(Action::Wait));
    assert_eq!(stream.step(Event::Woke), step(Action::Wait));
    assert_eq!(stream.receive(&playlist(3, &["a", "b"], true)), hands_out(3, "a", 0));
    assert_eq!(stream.step(Event::Poll), hands_out(4, "b", 0));
    assert_eq!(stream.step(Event::Poll), step(Action::End));
    assert_eq!(stream.step(Event::Poll), step(Action::End));
}

#[test]
fn live_playlist() {
    let mut stream = SegmentStream::new(URL.to_string());
    assert_eq!(stream.set_progress_bar(), 0);
    assert_eq!(stream.step(Event::Poll), step(Action::Request));
    assert_eq!(stream.receive(&playlist(0, &["a", "b"], false)), hands_out(0, "a", 2));
    assert_eq!(stream.step(Event::Poll), hands_out(1, "b", 0));
    assert_eq!(stream.step(Event::Poll), step(Action::Request));
    // Nothing new: wait for the target duration.
    assert_eq!(
        stream.receive(&playlist(0, &["a", "b"], false)),
        step(Action::Sleep(4.5f32.to_bits()))
    );
    assert_eq!(stream.step(Event::Poll), step(Action::Wait));
    assert_eq!(stream.step(Event::Woke), step(Action::Request));
    // The window has moved on.
    assert_eq!(stream.receive(&playlist(1, &["b", "c", "d"], true)), hands_out(2, "c", 2));
    assert_eq!(stream.step(Event::Poll), hands_out(3, "d", 0));
    assert_eq!(stream.step(Event::Poll), step(Action::End));
}

#[test]
fn complete_playlist_without_news_ends_after_a_wait() {
    let mut stream = SegmentStream::new(URL.to_string());
    assert_eq!(stream.step(Event::Poll), step(Action::Request));
    assert_eq!(
        stream.receive(&playlist(0, &[], true)),
        step(Action::Sleep(4.5f32.to_bits()))
    );
    assert_eq!(stream.step(Event::Woke), step(Action::End));
}

#[test]
fn failures_are_reported() {
    let mut stream = SegmentStream::new(URL.to_string());
    assert_eq!(stream.step(Event::Poll), step(Action::Request));
    assert_eq!(
        stream.step(Event::Failed("why".to_string())),
        step(Action::Fail(SegmentError::Request("why".to_string())))
    );
    assert_eq!(
        stream.receive_bytes(b"<html>"),
        step(Action::Fail(SegmentError::Playlist))
    );
    assert_eq!(
        stream.receive(&playlist(0, &["http://["], true)),
        step(Action::Fail(SegmentError::Url("invalid IPv6 address".to_string())))
    );
    // After a playlist that cannot be used another is asked for.
    assert_eq!(stream.step(Event::Poll), step(Action::Request));
}

#[test]
fn bytes_are_read() {
    let mut stream = SegmentStream::new(URL.to_string());
    assert_eq!(stream.step(Event::Poll), step(Action::Request));
    let text = "#EXTM3U\n#EXT-X-TARGETDURATION:2\n#EXT-X-MEDIA-SEQUENCE:9\n#EXTINF:2,\na.ts\n";
    assert_eq!(stream.receive_bytes(text.as_bytes()), hands_out(9, "a.ts", 0));
    assert_eq!(stream.step(Event::Poll), step(Action::Request));
    assert_eq!(stream.receive_bytes(text.as_bytes()), step(Action::Sleep(2.0f32.to_bits())));
}

#[test]
fn unreadable_bytes_fail_only_where_asked_for() {
    let mut stream = SegmentStream::new(URL.to_string());
    assert_eq!(stream.feed_playlist(&playlist(0, &["a"], false)), Ok(1));
    assert_eq!(stream.receive_bytes(b"<html>"), hands_out(0, "a", 0));
    assert_eq!(stream.receive_bytes(b"<html>"), step(Action::Request));
    assert_eq!(stream.receive_bytes(b"<html>"), step(Action::Fail(SegmentError::Playlist)));
    assert_eq!(
        stream.receive(&playlist(0, &["a"], false)),
        step(Action::Sleep(4.5f32.to_bits()))
    );
    assert_eq!(stream.receive_bytes(b"<html>"), step(Action::Wait));
    assert_eq!(stream.step(Event::Woke), step(Action::Request));
}

#[test]
fn segments_that_were_fed_are_counted() {
    let mut stream = SegmentStream::new(URL.to_string());
    assert_eq!(stream.feed_playlist(&playlist(0, &["a", "b"], false)), Ok(2));
    assert_eq!(stream.set_progress_bar(), 2);
    assert_eq!(stream.step(Event::Poll), hands_out(0, "a", 0));
    assert_eq!(stream.step(Event::Poll), hands_out(1, "b", 0));
    assert_eq!(stream.step(Event::Poll), step(Action::Request));
    assert_eq!(stream.receive(&playlist(2, &["c"], true)), hands_out(2, "c", 1));
    assert_eq!(stream.set_progress_bar(), 3);
}

#[test]
fn resolved_segments_are_accepted() {
    let mut stream = SegmentStream::new(URL.to_string());
    assert_eq!(stream.accept(Ok(vec![segment(5, "x")]), true), Ok(1));
    assert_eq!(stream.accept(Err(SegmentError::IvMissing), false), Err(SegmentError::IvMissing));
    assert_eq!(stream.step(Event::Poll), hands_out(5, "x", 0));
    assert_eq!(stream.step(Event::Poll), step(Action::End));
}

#[test]
fn no_segment_is_lost_or_doubled() {
    let windows: [(u64, &[&str], bool); 5] = [
        (0, &["0", "1", "2"], false),
        (1, &["1", "2"], false),
        (2, &["2", "3", "4", "5"], false),
        (5, &["5", "6"], false),
        (6, &["6", "7"], true),
    ];
    let mut stream = SegmentStream::new(URL.to_string());
    let mut window = 0;
    let mut out = Vec::new();
    let mut next = stream.step(Event::Poll);
    loop {
        next = match next.action {
            Action::Request => {
                let (first, names, end) = windows[window];
                window += 1;
                stream.receive(&playlist(first, names, end))
            }
            Action::Sleep(_) => stream.step(Event::Woke),
            Action::Yield(segment) => {
                out.push(segment.seq);
                assert_eq!(segment.url, format!("http://example.com/v/{}", segment.seq));
                stream.step(Event::Poll)
            }
            Action::End => break,
            other => panic!("{other:?}"),
        };
    }
    assert_eq!(out, vec![0, 1, 2, 3, 4, 5, 6, 7]);
}

fn variant(uri: &str) -> VariantStream<String> {
    VariantStream {
        is_i_frame: false,
        uri: uri.to_string(),
        bandwidth: 1,
        audio: None,
        video: None,
    }
}

#[test]
fn master_playlist_leads_to_new_streams() {
    let master = Playlist::MasterPlaylist(MasterPlaylist {
        variants: vec![variant("low.m3u8")],
        alternatives: vec![],
    });
    let mut streams = resolve_playlist(URL, &master, false).ok().unwrap();
    assert_eq!(streams.len(), 1);
    assert_eq!(streams[0].url(), "http://example.com/v/low.m3u8");
    assert_eq!(streams[0].step(Event::Poll), step(Action::Request));
}

#[test]
fn quality_is_as_asked_for() {
    let mut high = variant("high.m3u8");
    high.bandwidth = 9;
    let master = Playlist::MasterPlaylist(MasterPlaylist {
        variants: vec![high, variant("low.m3u8")],
        alternatives: vec![],
    });
    let opened = |worst| {
        let streams = resolve_playlist(URL, &master, worst).ok().unwrap();
        assert_eq!(streams.len(), 1);
        streams[0].url().to_string()
    };
    assert_eq!(opened(true), "http://example.com/v/low.m3u8");
    assert_eq!(opened(false), "http://example.com/v/high.m3u8");

    let text = "#EXTM3U\n#EXT-X-STREAM-INF:BANDWIDTH=1\na.m3u8\n#EXT-X-STREAM-INF:BANDWIDTH=2\nb.m3u8\n";
    let opened = |worst| {
        let streams = open_playlist(URL, text.as_bytes(), worst).unwrap().ok().unwrap();
        streams[0].url().to_string()
    };
    assert_eq!(opened(true), "http://example.com/v/a.m3u8");
    assert_eq!(opened(false), "http://example.com/v/b.m3u8");
}

#[test]
fn media_playlist_is_its_own_stream() {
    let media = Playlist::MediaPlaylist(playlist(0, &["a"], true));
    let mut streams = resolve_playlist(URL, &media, false).ok().unwrap();
    assert_eq!(streams.len(), 1);
    assert_eq!(streams[0].url(), URL);
    assert_eq!(streams[0].step(Event::Poll), hands_out(0, "a", 0));
    assert_eq!(streams[0].step(Event::Poll), step(Action::End));
}

#[test]
fn playlists_that_cannot_be_resolved() {
    let master = |variants| {
        Playlist::MasterPlaylist(MasterPlaylist { variants, alternatives: vec![] })
    };
    assert_eq!(resolve_playlist(URL, &master(vec![]), false).err(), Some(ResolveError::NoVariant));
    assert_eq!(
        resolve_playlist(URL, &master(vec![variant("http://[")]), false).err(),
        Some(ResolveError::Url("invalid IPv6 address".to_string()))
    );
    let media = Playlist::MediaPlaylist(playlist(u64::MAX, &["a"], true));
    assert_eq!(
        resolve_playlist(URL, &media, false).err(),
        Some(ResolveError::Segment(SegmentError::Overflow))
    );
}

#[test]
fn streams_are_opened() {
    let links = vec![Ok("http://a/".to_string()), Ok("http://b/".to_string())];
    let streams = open_streams(&links).ok().unwrap();
    let urls: Vec<&str> = streams.iter().map(|stream| stream.url()).collect();
    assert_eq!(urls, vec!["http://a/", "http://b/"]);
    let links = vec![Ok("http://a/".to_string()), Err("1".to_string()), Err("2".to_string())];
    assert_eq!(open_streams(&links).err(), Some(ResolveError::Url("1".to_string())));
}

#[test]
fn bytes_are_opened() {
    let text = "#EXTM3U\n#EXT-X-STREAM-INF:BANDWIDTH=1\na.m3u8\n";
    let streams = open_playlist(URL, text.as_bytes(), false).unwrap().ok().unwrap();
    assert_eq!(streams[0].url(), "http://example.com/v/a.m3u8");
    let text = "#EXTM3U\n#EXT-X-TARGETDURATION:2\n#EXTINF:2,\na.ts\n#EXT-X-ENDLIST\n";
    let mut streams = open_playlist(URL, text.as_bytes(), false).unwrap().ok().unwrap();
    assert_eq!(streams[0].step(Event::Poll), hands_out(0, "a.ts", 0));
    assert!(open_playlist(URL, b"<html>", true).is_none());
}
