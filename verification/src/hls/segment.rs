//! Segments to download, as a media playlist names them.
//!
//! Where a type has a parameter `T`, it is text: `String` in running code, `Seq<char>` in
//! specifications.

use crate::hls::iv::{self, IvError};
use crate::hls::playlist::{Key, KeyMethod, MediaPlaylist, MediaPlaylistView, MediaSegment};
use crate::text;
use crate::url;
use vstd::prelude::*;
use vstd::utf8::*;

verus! {

/// A file to download, and how it is encrypted: where the key is and the initialisation
/// vector. `B` is bytes: `Vec<u8>` in running code, `Seq<u8>` in specifications.
#[derive(Debug, PartialEq, Eq)]
pub struct Segment<T, B> {
    pub seq: u64,
    pub url: T,
    pub key_iv: Option<(T, B)>,
}

/// Why the segments of a playlist cannot be downloaded.
#[derive(Debug, PartialEq, Eq)]
pub enum SegmentError<T> {
    /// An encrypted segment does not say where its key is.
    KeyUriMissing,
    /// Where the key is said to be, and why that is no URL.
    KeyUri(T, T),
    /// An encrypted segment has no initialisation vector.
    IvMissing,
    /// The initialisation vector cannot be read.
    Iv(IvError<T>),
    /// The encryption method is not supported.
    Method(T),
    /// Why the URI of a segment or of an initialisation section is no URL.
    Url(T),
    /// The segments have no numbers left, or are too many to count.
    Overflow,
    /// The playlist could not be read.
    Playlist,
    /// The playlist could not be downloaded, and why.
    Request(T),
}

/// What the URIs of one segment lead to, each of them a URL or why it is none. Those of the
/// key and of the initialisation section are there where the segment has them.
#[derive(Debug, PartialEq, Eq)]
pub struct SegmentLinks<T> {
    pub key: Option<Result<T, T>>,
    pub map: Option<Result<T, T>>,
    pub uri: Result<T, T>,
}

/// Where a key is and the initialisation vector, in specifications.
pub type KeyIvView = Option<(Seq<char>, Seq<u8>)>;

/// A segment in specifications.
pub type SegmentView = Segment<Seq<char>, Seq<u8>>;

/// An error in specifications.
pub type SegmentErrorView = SegmentError<Seq<char>>;

/// The view of a key and initialisation vector.
pub open spec fn key_iv_view(key_iv: Option<(String, Vec<u8>)>) -> KeyIvView {
    match key_iv {
        Some((url, iv)) => Some((url@, iv@)),
        None => None,
    }
}

impl View for Segment<String, Vec<u8>> {
    type V = SegmentView;

    open spec fn view(&self) -> SegmentView {
        Segment { seq: self.seq, url: self.url@, key_iv: key_iv_view(self.key_iv) }
    }
}

impl View for SegmentError<String> {
    type V = SegmentErrorView;

    open spec fn view(&self) -> SegmentErrorView {
        match self {
            SegmentError::KeyUriMissing => SegmentError::KeyUriMissing,
            SegmentError::KeyUri(uri, cause) => SegmentError::KeyUri(uri@, cause@),
            SegmentError::IvMissing => SegmentError::IvMissing,
            SegmentError::Iv(e) => SegmentError::Iv(e@),
            SegmentError::Method(method) => SegmentError::Method(method@),
            SegmentError::Url(cause) => SegmentError::Url(cause@),
            SegmentError::Overflow => SegmentError::Overflow,
            SegmentError::Playlist => SegmentError::Playlist,
            SegmentError::Request(cause) => SegmentError::Request(cause@),
        }
    }
}

/// The view of a link that may be missing.
pub open spec fn opt_link(link: Option<Result<String, String>>) -> Option<
    Result<Seq<char>, Seq<char>>,
> {
    match link {
        Some(link) => Some(text::text_result(link)),
        None => None,
    }
}

impl View for SegmentLinks<String> {
    type V = SegmentLinks<Seq<char>>;

    open spec fn view(&self) -> SegmentLinks<Seq<char>> {
        SegmentLinks {
            key: opt_link(self.key),
            map: opt_link(self.map),
            uri: text::text_result(self.uri),
        }
    }
}

/// The views of segments.
pub open spec fn segment_views(segments: Seq<Segment<String, Vec<u8>>>) -> Seq<SegmentView> {
    segments.map_values(|segment: Segment<String, Vec<u8>>| segment@)
}

/// The view of what resolving segments gives.
pub open spec fn segments_view(
    segments: Result<Vec<Segment<String, Vec<u8>>>, SegmentError<String>>,
) -> Result<Seq<SegmentView>, SegmentErrorView> {
    match segments {
        Ok(segments) => Ok(segment_views(segments@)),
        Err(e) => Err(e@),
    }
}

impl Segment<String, Vec<u8>> {
    /// A segment that is encrypted with a copy of `key_iv`.
    pub fn new(seq: u64, url: String, key_iv: &Option<(String, Vec<u8>)>) -> (segment: Self)
        ensures
            segment@ == (Segment { seq, url: url@, key_iv: key_iv_view(*key_iv) }),
    {
        let key_iv = match key_iv {
            Some((url, iv)) => {
                let iv_copy = iv.clone();
                assert(iv_copy@ =~= iv@);
                Some((url.clone(), iv_copy))
            },
            None => None,
        };
        Segment { seq, url, key_iv }
    }
}

/// What a key means. `link` is what its URI leads to.
pub open spec fn key_meaning(
    key: Key<Seq<char>>,
    link: Option<Result<Seq<char>, Seq<char>>>,
) -> Result<KeyIvView, SegmentErrorView> {
    match key.method {
        KeyMethod::AES128 => match (key.uri, link) {
            (Some(uri), Some(Err(cause))) => Err(SegmentError::KeyUri(uri, cause)),
            (Some(uri), Some(Ok(url))) => match key.iv {
                Some(text) => match iv::iv_of(encode_utf8(text)) {
                    Ok(bytes) => Ok(Some((url, bytes))),
                    Err(e) => Err(SegmentError::Iv(e)),
                },
                None => Err(SegmentError::IvMissing),
            },
            _ => Err(SegmentError::KeyUriMissing),
        },
        KeyMethod::Clear => Ok(None),
        KeyMethod::SampleAES => Err(SegmentError::Method("SAMPLE-AES"@)),
        KeyMethod::Other(method) => Err(SegmentError::Method(method)),
    }
}

/// The view of what a key means.
pub open spec fn key_result(
    key_iv: Result<Option<(String, Vec<u8>)>, SegmentError<String>>,
) -> Result<KeyIvView, SegmentErrorView> {
    match key_iv {
        Ok(key_iv) => Ok(key_iv_view(key_iv)),
        Err(e) => Err(e@),
    }
}

/// What a key means, where `link` is what its URI leads to.
pub fn resolve_key_link(key: &Key<String>, link: &Option<Result<String, String>>) -> (key_iv:
    Result<Option<(String, Vec<u8>)>, SegmentError<String>>)
    ensures
        key_result(key_iv) == key_meaning(key@, opt_link(*link)),
{
    match &key.method {
        KeyMethod::AES128 => match (&key.uri, link) {
            (Some(uri), Some(Err(cause))) => Err(SegmentError::KeyUri(uri.clone(), cause.clone())),
            (Some(_), Some(Ok(url))) => match &key.iv {
                Some(text) => match iv::parse_iv(text.as_str()) {
                    Ok(bytes) => Ok(Some((url.clone(), bytes))),
                    Err(e) => Err(SegmentError::Iv(e)),
                },
                None => Err(SegmentError::IvMissing),
            },
            _ => Err(SegmentError::KeyUriMissing),
        },
        KeyMethod::Clear => Ok(None),
        KeyMethod::SampleAES => Err(SegmentError::Method("SAMPLE-AES".to_owned())),
        KeyMethod::Other(method) => Err(SegmentError::Method(method.clone())),
    }
}

/// What an optional reference leads to.
pub open spec fn opt_joined(base: Seq<char>, input: Option<Seq<char>>) -> Option<
    Result<Seq<char>, Seq<char>>,
> {
    match input {
        Some(input) => Some(url::url_joined(base, input)),
        None => None,
    }
}

/// Resolves a key in a playlist at the URL `base`.
pub fn resolve_key(base: &str, key: &Key<String>) -> (key_iv: Result<
    Option<(String, Vec<u8>)>,
    SegmentError<String>,
>)
    ensures
        key_result(key_iv) == key_meaning(key@, opt_joined(base@, key@.uri)),
{
    let link = url::join_opt(base, &key.uri);
    resolve_key_link(key, &link)
}

/// What the URIs of a segment lead to in a playlist at the URL `base`.
pub open spec fn links_of(base: Seq<char>, segment: MediaSegment<Seq<char>>) -> SegmentLinks<
    Seq<char>,
> {
    SegmentLinks {
        key: match segment.key {
            Some(key) => opt_joined(base, key.uri),
            None => None,
        },
        map: opt_joined(base, segment.map),
        uri: url::url_joined(base, segment.uri),
    }
}

/// Resolves the URIs of a segment in a playlist at the URL `base`.
pub fn segment_links(base: &str, segment: &MediaSegment<String>) -> (links: SegmentLinks<String>)
    ensures
        links@ == links_of(base@, segment@),
{
    let key = match &segment.key {
        Some(key) => url::join_opt(base, &key.uri),
        None => None,
    };
    SegmentLinks {
        key,
        map: url::join_opt(base, &segment.map),
        uri: url::join(base, segment.uri.as_str()),
    }
}

/// The segments so far and the key in force, or what went wrong.
pub type Progress = Result<(Seq<SegmentView>, KeyIvView), SegmentErrorView>;

/// What one segment of a playlist, with the number `seq`, adds. Segments up to the number
/// `after` are passed over with their keys. An initialisation section comes before its
/// segment and has its number.
pub open spec fn add_segment(
    done: Seq<SegmentView>,
    key_iv: KeyIvView,
    segment: MediaSegment<Seq<char>>,
    links: SegmentLinks<Seq<char>>,
    seq: int,
    after: Option<u64>,
) -> Progress {
    if seq >= u64::MAX {
        Err(SegmentError::Overflow)
    } else if after is Some && seq <= after->0 {
        Ok((done, key_iv))
    } else {
        let key_iv = match segment.key {
            Some(key) => key_meaning(key, links.key),
            None => Ok(key_iv),
        };
        match (key_iv, links.map, links.uri) {
            (Err(e), _, _) => Err(e),
            (_, Some(Err(cause)), _) => Err(SegmentError::Url(cause)),
            (_, _, Err(cause)) => Err(SegmentError::Url(cause)),
            (Ok(key_iv), map, Ok(url)) => {
                let start = match map {
                    Some(Ok(map)) => done.push(Segment { seq: seq as u64, url: map, key_iv }),
                    _ => done,
                };
                Ok((start.push(Segment { seq: seq as u64, url, key_iv }), key_iv))
            },
        }
    }
}

/// What the first `n` segments of a playlist come to.
pub open spec fn resolved(
    segments: Seq<MediaSegment<Seq<char>>>,
    links: Seq<SegmentLinks<Seq<char>>>,
    first: u64,
    after: Option<u64>,
    n: nat,
) -> Progress
    decreases n,
{
    if n == 0 {
        Ok((seq![], None))
    } else {
        match resolved(segments, links, first, after, (n - 1) as nat) {
            Err(e) => Err(e),
            Ok((done, key_iv)) => add_segment(
                done,
                key_iv,
                segments[n - 1],
                links[n - 1],
                first + n - 1,
                after,
            ),
        }
    }
}

/// The segments that a playlist adds after the number `after`.
pub open spec fn resolved_segments(
    playlist: MediaPlaylistView,
    links: Seq<SegmentLinks<Seq<char>>>,
    after: Option<u64>,
) -> Result<Seq<SegmentView>, SegmentErrorView> {
    match resolved(
        playlist.segments,
        links,
        playlist.media_sequence,
        after,
        playlist.segments.len(),
    ) {
        Ok((segments, _)) => Ok(segments),
        Err(e) => Err(e),
    }
}

/// What goes wrong first is what is reported.
proof fn lemma_first_error_stays(
    segments: Seq<MediaSegment<Seq<char>>>,
    links: Seq<SegmentLinks<Seq<char>>>,
    first: u64,
    after: Option<u64>,
    n: nat,
    m: nat,
)
    requires
        n <= m,
    ensures
        resolved(segments, links, first, after, n) matches Err(e) ==> resolved(
            segments,
            links,
            first,
            after,
            m,
        ) == Progress::Err(e),
    decreases m,
{
    if n < m {
        lemma_first_error_stays(segments, links, first, after, n, (m - 1) as nat);
    }
}

/// The views of the links of segments.
pub open spec fn link_views(links: Seq<SegmentLinks<String>>) -> Seq<SegmentLinks<Seq<char>>> {
    links.map_values(|links: SegmentLinks<String>| links@)
}

/// The segments that a playlist adds after the number `after`, where `links` are what the
/// URIs of its segments lead to.
pub fn resolve_linked_segments(
    playlist: &MediaPlaylist,
    links: &Vec<SegmentLinks<String>>,
    after: Option<u64>,
) -> (segments: Result<Vec<Segment<String, Vec<u8>>>, SegmentError<String>>)
    requires
        links.len() == playlist.segments.len(),
    ensures
        segments_view(segments) == resolved_segments(playlist@, link_views(links@), after),
{
    let ghost all = playlist@.segments;
    let ghost all_links = link_views(links@);
    let first = playlist.media_sequence;
    let mut done: Vec<Segment<String, Vec<u8>>> = Vec::new();
    let mut key_iv: Option<(String, Vec<u8>)> = None;
    let mut i: usize = 0;
    assert(segment_views(done@) == Seq::<SegmentView>::empty());
    while i < playlist.segments.len()
        invariant
            i <= playlist.segments.len() == links.len(),
            all == playlist@.segments,
            all_links == link_views(links@),
            first == playlist.media_sequence,
            resolved(all, all_links, first, after, i as nat) == Progress::Ok(
                (segment_views(done@), key_iv_view(key_iv)),
            ),
        decreases playlist.segments.len() - i,
    {
        let segment = &playlist.segments[i];
        let link = &links[i];
        let ghost before = segment_views(done@);
        proof {
            assert(all[i as int] == segment@);
            assert(all_links[i as int] == link@);
            lemma_first_error_stays(all, all_links, first, after, (i + 1) as nat, all.len());
        }
        if u64::MAX - first <= i as u64 {
            return Err(SegmentError::Overflow);
        }
        let seq: u64 = first + i as u64;
        let skip = match after {
            Some(after) => seq <= after,
            None => false,
        };
        if !skip {
            if let Some(key) = &segment.key {
                match resolve_key_link(key, &link.key) {
                    Ok(resolved) => {
                        key_iv = resolved;
                    },
                    Err(e) => {
                        return Err(e);
                    },
                }
            }
            match &link.map {
                Some(Ok(url)) => {
                    done.push(Segment::new(seq, url.clone(), &key_iv));
                    assert(segment_views(done@) == before.push(done@.last()@));
                },
                Some(Err(cause)) => {
                    return Err(SegmentError::Url(cause.clone()));
                },
                None => {},
            }
            let ghost middle = segment_views(done@);
            match &link.uri {
                Ok(url) => {
                    done.push(Segment::new(seq, url.clone(), &key_iv));
                    assert(segment_views(done@) == middle.push(done@.last()@));
                },
                Err(cause) => {
                    return Err(SegmentError::Url(cause.clone()));
                },
            }
        }
        i = i + 1;
    }
    Ok(done)
}

/// What the URIs of all segments lead to.
pub open spec fn all_links(base: Seq<char>, segments: Seq<MediaSegment<Seq<char>>>) -> Seq<
    SegmentLinks<Seq<char>>,
> {
    segments.map_values(|segment: MediaSegment<Seq<char>>| links_of(base, segment))
}

/// The segments that a playlist at the URL `base` adds after the number `after`.
pub fn resolve_segments(base: &str, playlist: &MediaPlaylist, after: Option<u64>) -> (segments:
    Result<Vec<Segment<String, Vec<u8>>>, SegmentError<String>>)
    ensures
        segments_view(segments) == resolved_segments(
            playlist@,
            all_links(base@, playlist@.segments),
            after,
        ),
{
    let mut links: Vec<SegmentLinks<String>> = Vec::new();
    let mut i: usize = 0;
    while i < playlist.segments.len()
        invariant
            i == links.len(),
            i <= playlist.segments.len(),
            forall|j: int|
                0 <= j < i ==> #[trigger] links@[j]@ == links_of(
                    base@,
                    playlist.segments@[j]@,
                ),
        decreases playlist.segments.len() - i,
    {
        links.push(segment_links(base, &playlist.segments[i]));
        i = i + 1;
    }
    assert(link_views(links@) == all_links(base@, playlist@.segments));
    resolve_linked_segments(playlist, &links, after)
}

/// Segments are in the order of their numbers.
pub open spec fn in_order(segments: Seq<SegmentView>) -> bool {
    forall|i: int, j: int|
        0 <= i <= j < segments.len() ==> (#[trigger] segments[i]).seq <= (
        #[trigger] segments[j]).seq
}

/// All segments have numbers above `after`.
pub open spec fn all_after(segments: Seq<SegmentView>, after: Option<u64>) -> bool {
    forall|i: int|
        0 <= i < segments.len() ==> (after is Some ==> after->0 < (#[trigger] segments[i]).seq)
}

/// A playlist adds segments in the order of their numbers, none that was there before, and
/// none with a number that the playlist does not have.
pub proof fn law_only_new_segments_in_order(
    segments: Seq<MediaSegment<Seq<char>>>,
    links: Seq<SegmentLinks<Seq<char>>>,
    first: u64,
    after: Option<u64>,
    n: nat,
)
    ensures
        resolved(segments, links, first, after, n) matches Ok((done, _)) ==> {
            &&& in_order(done)
            &&& all_after(done, after)
            &&& forall|i: int|
                0 <= i < done.len() ==> first <= (#[trigger] done[i]).seq < first + n
        },
    decreases n,
{
    if n > 0 {
        law_only_new_segments_in_order(segments, links, first, after, (n - 1) as nat);
    }
}

/// Every segment of a playlist with a number above `after` is among those that it adds, at
/// the URL that its URI leads to, and so is the initialisation section that it sets.
pub proof fn law_no_new_segment_is_lost(
    segments: Seq<MediaSegment<Seq<char>>>,
    links: Seq<SegmentLinks<Seq<char>>>,
    first: u64,
    after: Option<u64>,
    n: nat,
    k: int,
)
    requires
        0 <= k < n,
        after is Some ==> after->0 < first + k,
    ensures
        resolved(segments, links, first, after, n) matches Ok((done, _)) ==> {
            &&& exists|i: int|
                0 <= i < done.len() && (#[trigger] done[i]).seq == first + k && links[k].uri == Ok::<
                    Seq<char>,
                    Seq<char>,
                >(done[i].url)
            &&& links[k].map is Some ==> exists|i: int|
                0 <= i < done.len() && (#[trigger] done[i]).seq == first + k && links[k].map
                    == Some(Ok::<Seq<char>, Seq<char>>(done[i].url))
        },
    decreases n,
{
    if let Ok((done, _)) = resolved(segments, links, first, after, n) {
        let (before, _) = resolved(segments, links, first, after, (n - 1) as nat)->Ok_0;
        assert(forall|i: int| 0 <= i < before.len() ==> done[i] == before[i]);
        if k < n - 1 {
            law_no_new_segment_is_lost(segments, links, first, after, (n - 1) as nat, k);
            let i = choose|i: int|
                0 <= i < before.len() && (#[trigger] before[i]).seq == first + k && links[k].uri
                    == Ok::<Seq<char>, Seq<char>>(before[i].url);
            assert(done[i] == before[i]);
            if links[k].map is Some {
                let j = choose|j: int|
                    0 <= j < before.len() && (#[trigger] before[j]).seq == first + k
                        && links[k].map == Some(Ok::<Seq<char>, Seq<char>>(before[j].url));
                assert(done[j] == before[j]);
            }
        } else {
            assert(done.last().seq == first + k);
            if links[k].map is Some {
                assert(done[done.len() - 2].seq == first + k);
            }
        }
    }
}

/// Where no segment sets a key, nothing is encrypted.
pub proof fn law_without_keys_nothing_is_encrypted(
    segments: Seq<MediaSegment<Seq<char>>>,
    links: Seq<SegmentLinks<Seq<char>>>,
    first: u64,
    after: Option<u64>,
    n: nat,
)
    requires
        n <= segments.len(),
        forall|i: int| 0 <= i < segments.len() ==> (#[trigger] segments[i]).key is None,
    ensures
        resolved(segments, links, first, after, n) matches Ok((done, key_iv)) ==> key_iv is None
            && forall|i: int| 0 <= i < done.len() ==> (#[trigger] done[i]).key_iv is None,
    decreases n,
{
    if n > 0 {
        law_without_keys_nothing_is_encrypted(segments, links, first, after, (n - 1) as nat);
    }
}

/// A segment that sets no key is encrypted with the key that is in force, and leaves it in
/// force.
pub proof fn law_key_stays_in_force(
    segments: Seq<MediaSegment<Seq<char>>>,
    links: Seq<SegmentLinks<Seq<char>>>,
    first: u64,
    after: Option<u64>,
    n: nat,
)
    requires
        n < segments.len(),
        segments[n as int].key is None,
        after is Some ==> after->0 < first + n,
        resolved(segments, links, first, after, n) is Ok,
    ensures
        resolved(segments, links, first, after, n + 1) matches Ok((done, key_iv)) ==> {
            &&& done.len() > 0
            &&& done.last().key_iv == key_iv
            &&& resolved(segments, links, first, after, n)->Ok_0.1 == key_iv
        },
{
}

/// A segment that sets a key is encrypted with that key, which is in force from then on.
pub proof fn law_new_key_comes_into_force(
    segments: Seq<MediaSegment<Seq<char>>>,
    links: Seq<SegmentLinks<Seq<char>>>,
    first: u64,
    after: Option<u64>,
    n: nat,
)
    requires
        n < segments.len(),
        segments[n as int].key is Some,
        after is Some ==> after->0 < first + n,
    ensures
        resolved(segments, links, first, after, n + 1) matches Ok((done, key_iv)) ==> {
            &&& done.len() > 0
            &&& done.last().key_iv == key_iv
            &&& key_meaning(segments[n as int].key->0, links[n as int].key) == Ok::<
                KeyIvView,
                SegmentErrorView,
            >(key_iv)
        },
{
}

/// What a key comes to, method by method. AES-128 takes the URL that the URI of the key
/// leads to and the initialisation vector that is written; the first of them that is missing
/// or wrong is the error. Where segments are clear nothing is needed, and no other method is
/// supported.
pub proof fn law_meaning_of_keys(key: Key<Seq<char>>, link: Option<Result<Seq<char>, Seq<char>>>)
    ensures
        key.method is Clear ==> key_meaning(key, link) == Ok::<KeyIvView, SegmentErrorView>(None),
        key.method is SampleAES ==> key_meaning(key, link) == Err::<KeyIvView, SegmentErrorView>(
            SegmentError::Method("SAMPLE-AES"@),
        ),
        key.method matches KeyMethod::Other(name) ==> key_meaning(key, link) == Err::<
            KeyIvView,
            SegmentErrorView,
        >(SegmentError::Method(name)),
        key.method is AES128 && (key.uri is None || link is None) ==> key_meaning(key, link)
            == Err::<KeyIvView, SegmentErrorView>(SegmentError::KeyUriMissing),
        key.method is AES128 && key.uri is Some ==> (link matches Some(Err(cause)) ==> key_meaning(
            key,
            link,
        ) == Err::<KeyIvView, SegmentErrorView>(SegmentError::KeyUri(key.uri->0, cause))),
        key.method is AES128 && key.uri is Some && key.iv is None ==> (link matches Some(Ok(_))
            ==> key_meaning(key, link) == Err::<KeyIvView, SegmentErrorView>(
            SegmentError::IvMissing,
        )),
        key.method is AES128 && key.uri is Some && key.iv is Some ==> (link matches Some(Ok(url))
            ==> match iv::iv_of(encode_utf8(key.iv->0)) {
            Ok(bytes) => key_meaning(key, link) == Ok::<KeyIvView, SegmentErrorView>(
                Some((url, bytes)),
            ),
            Err(e) => key_meaning(key, link) == Err::<KeyIvView, SegmentErrorView>(
                SegmentError::Iv(e),
            ),
        }),
{
}

/// Every URI in a playlist is resolved at the URL of the playlist, the key and the
/// initialisation section like the segment itself, and whatever the others are.
pub proof fn law_uris_are_resolved_at_the_playlist(
    base: Seq<char>,
    segments: Seq<MediaSegment<Seq<char>>>,
    k: int,
)
    requires
        0 <= k < segments.len(),
    ensures
        all_links(base, segments).len() == segments.len(),
        all_links(base, segments)[k] == links_of(base, segments[k]),
        links_of(base, segments[k]).uri == url::url_joined(base, segments[k].uri),
        match segments[k].map {
            Some(map) => links_of(base, segments[k]).map == Some(url::url_joined(base, map)),
            None => links_of(base, segments[k]).map is None,
        },
        segments[k].key is None ==> links_of(base, segments[k]).key is None,
        segments[k].key matches Some(key) ==> match key.uri {
            Some(uri) => links_of(base, segments[k]).key == Some(url::url_joined(base, uri)) && (
            opt_joined(base, key.uri) == Some(url::url_joined(base, uri))),
            None => links_of(base, segments[k]).key is None && opt_joined(base, key.uri) is None,
        },
{
}

/// Whether the segment at `k` has a number above `after`.
pub open spec fn is_new(first: u64, after: Option<u64>, k: int) -> bool {
    after is Some ==> after->0 < first + k
}

/// The last of the new segments up to `k` that sets a key.
pub open spec fn key_setter(
    segments: Seq<MediaSegment<Seq<char>>>,
    first: u64,
    after: Option<u64>,
    k: int,
) -> Option<int>
    decreases k + 1,
{
    if k < 0 {
        None
    } else if is_new(first, after, k) && segments[k].key is Some {
        Some(k)
    } else {
        key_setter(segments, first, after, k - 1)
    }
}

/// The key in force at `k`.
pub open spec fn key_in_force(
    segments: Seq<MediaSegment<Seq<char>>>,
    links: Seq<SegmentLinks<Seq<char>>>,
    first: u64,
    after: Option<u64>,
    k: int,
) -> KeyIvView {
    match key_setter(segments, first, after, k) {
        Some(j) => key_meaning(segments[j].key->0, links[j].key)->Ok_0,
        None => None,
    }
}

/// What the segment at `k` is downloaded as: nothing if it is not new, else itself, behind
/// its initialisation section if it has one.
pub open spec fn share(
    segments: Seq<MediaSegment<Seq<char>>>,
    links: Seq<SegmentLinks<Seq<char>>>,
    first: u64,
    after: Option<u64>,
    k: int,
) -> Seq<SegmentView> {
    let seq = (first + k) as u64;
    let key_iv = key_in_force(segments, links, first, after, k);
    if !is_new(first, after, k) {
        seq![]
    } else if links[k].map is Some {
        seq![
            Segment { seq, url: links[k].map->0->Ok_0, key_iv },
            Segment { seq, url: links[k].uri->Ok_0, key_iv },
        ]
    } else {
        seq![Segment { seq, url: links[k].uri->Ok_0, key_iv }]
    }
}

/// What is wrong with the segment at `k`, looking at its number, its key, its initialisation
/// section and itself in turn.
pub open spec fn fault(
    segments: Seq<MediaSegment<Seq<char>>>,
    links: Seq<SegmentLinks<Seq<char>>>,
    first: u64,
    after: Option<u64>,
    k: int,
) -> Option<SegmentErrorView> {
    if first + k >= u64::MAX {
        Some(SegmentError::Overflow)
    } else if !is_new(first, after, k) {
        None
    } else if segments[k].key is Some && key_meaning(
        segments[k].key->0,
        links[k].key,
    ) is Err {
        Some(key_meaning(segments[k].key->0, links[k].key)->Err_0)
    } else if links[k].map is Some && links[k].map->0 is Err {
        Some(SegmentError::Url(links[k].map->0->Err_0))
    } else if links[k].uri is Err {
        Some(SegmentError::Url(links[k].uri->Err_0))
    } else {
        None
    }
}

/// The shares of the first `n` segments.
pub open spec fn shares(
    segments: Seq<MediaSegment<Seq<char>>>,
    links: Seq<SegmentLinks<Seq<char>>>,
    first: u64,
    after: Option<u64>,
    n: nat,
) -> Seq<Seq<SegmentView>> {
    Seq::new(n, |k: int| share(segments, links, first, after, k))
}

/// What a playlist adds is what each of its segments is downloaded as, one behind the other
/// and nothing else, as long as nothing is wrong with any of them.
pub proof fn law_playlist_adds_the_shares_of_its_segments(
    playlist: MediaPlaylistView,
    links: Seq<SegmentLinks<Seq<char>>>,
    after: Option<u64>,
)
    requires
        forall|k: int|
            0 <= k < playlist.segments.len() ==> (#[trigger] fault(
                playlist.segments,
                links,
                playlist.media_sequence,
                after,
                k,
            )) is None,
    ensures
        resolved_segments(playlist, links, after) == Ok::<Seq<SegmentView>, SegmentErrorView>(
            shares(
                playlist.segments,
                links,
                playlist.media_sequence,
                after,
                playlist.segments.len(),
            ).flatten(),
        ),
{
    lemma_resolved_shares(
        playlist.segments,
        links,
        playlist.media_sequence,
        after,
        playlist.segments.len(),
    );
}

/// The first segment with which something is wrong decides what goes wrong.
pub proof fn law_first_fault_is_reported(
    playlist: MediaPlaylistView,
    links: Seq<SegmentLinks<Seq<char>>>,
    after: Option<u64>,
    k: int,
)
    requires
        0 <= k < playlist.segments.len(),
        forall|j: int|
            0 <= j < k ==> (#[trigger] fault(
                playlist.segments,
                links,
                playlist.media_sequence,
                after,
                j,
            )) is None,
        fault(playlist.segments, links, playlist.media_sequence, after, k) is Some,
    ensures
        resolved_segments(playlist, links, after) == Err::<Seq<SegmentView>, SegmentErrorView>(
            fault(playlist.segments, links, playlist.media_sequence, after, k)->0,
        ),
{
    let first = playlist.media_sequence;
    lemma_resolved_shares(playlist.segments, links, first, after, k as nat);
    lemma_first_error_stays(
        playlist.segments,
        links,
        first,
        after,
        (k + 1) as nat,
        playlist.segments.len(),
    );
}

proof fn lemma_resolved_shares(
    segments: Seq<MediaSegment<Seq<char>>>,
    links: Seq<SegmentLinks<Seq<char>>>,
    first: u64,
    after: Option<u64>,
    n: nat,
)
    requires
        forall|k: int| 0 <= k < n ==> (#[trigger] fault(segments, links, first, after, k)) is None,
    ensures
        resolved(segments, links, first, after, n) == Progress::Ok(
            (
                shares(segments, links, first, after, n).flatten(),
                key_in_force(segments, links, first, after, n - 1),
            ),
        ),
    decreases n,
{
    let all = shares(segments, links, first, after, n);
    if n == 0 {
        assert(all.flatten() =~= Seq::<SegmentView>::empty());
    } else {
        let k = n - 1;
        lemma_resolved_shares(segments, links, first, after, k as nat);
        let before = shares(segments, links, first, after, k as nat);
        let mine = share(segments, links, first, after, k);
        assert(all =~= before.push(mine));
        before.lemma_flatten_push(mine);
        assert(fault(segments, links, first, after, k) is None);
        let done = before.flatten();
        let (now, key_iv) = add_segment(
            done,
            key_in_force(segments, links, first, after, k - 1),
            segments[k],
            links[k],
            first + k,
            after,
        )->Ok_0;
        assert(key_iv == key_in_force(segments, links, first, after, k));
        assert(now =~= done + mine);
    }
}

/// A segment that sets an AES-128 key is encrypted with the key at what the URI of the key
/// means at the URL of the playlist, whatever its own URI is, and with the vector that is
/// written there; and so is its initialisation section.
pub proof fn law_keys_are_found_at_the_playlist(
    base: Seq<char>,
    playlist: MediaPlaylistView,
    after: Option<u64>,
    k: int,
)
    requires
        0 <= k < playlist.segments.len(),
        is_new(playlist.media_sequence, after, k),
        playlist.segments[k].key is Some,
        playlist.segments[k].key->0.method is AES128,
        resolved_segments(playlist, all_links(base, playlist.segments), after) is Ok,
    ensures
        ({
            let segment = playlist.segments[k];
            let done = resolved_segments(
                playlist,
                all_links(base, playlist.segments),
                after,
            )->Ok_0;
            &&& segment.key->0.uri is Some && segment.key->0.iv is Some
            &&& exists|i: int|
                0 <= i < done.len() && (#[trigger] done[i]).seq == playlist.media_sequence + k
                    && url::url_joined(base, segment.uri) == Ok::<_, Seq<char>>(done[i].url)
            &&& forall|i: int|
                0 <= i < done.len() && (#[trigger] done[i]).seq == playlist.media_sequence + k ==> {
                    &&& done[i].key_iv matches Some((at, bytes))
                    &&& url::url_joined(base, segment.key->0.uri->0) == Ok::<_, Seq<char>>(at)
                    &&& iv::iv_of(encode_utf8(segment.key->0.iv->0)) == Ok::<
                        _,
                        IvError<Seq<char>>,
                    >(bytes)
                }
        }),
{
    let links = all_links(base, playlist.segments);
    law_no_new_segment_is_lost(
        playlist.segments,
        links,
        playlist.media_sequence,
        after,
        playlist.segments.len(),
        k,
    );
    lemma_keys_by_number(
        playlist.segments,
        links,
        playlist.media_sequence,
        after,
        playlist.segments.len(),
        k,
    );
}

proof fn lemma_keys_by_number(
    segments: Seq<MediaSegment<Seq<char>>>,
    links: Seq<SegmentLinks<Seq<char>>>,
    first: u64,
    after: Option<u64>,
    n: nat,
    k: int,
)
    requires
        0 <= k < n,
        is_new(first, after, k),
        segments[k].key is Some,
        resolved(segments, links, first, after, n) is Ok,
    ensures
        key_meaning(segments[k].key->0, links[k].key) is Ok,
        forall|i: int|
            #![trigger resolved(segments, links, first, after, n)->Ok_0.0[i]]
            0 <= i < resolved(segments, links, first, after, n)->Ok_0.0.len() && resolved(
                segments,
                links,
                first,
                after,
                n,
            )->Ok_0.0[i].seq == first + k ==> resolved(
                segments,
                links,
                first,
                after,
                n,
            )->Ok_0.0[i].key_iv == key_meaning(segments[k].key->0, links[k].key)->Ok_0,
    decreases n,
{
    let m = (n - 1) as nat;
    let before = resolved(segments, links, first, after, m)->Ok_0.0;
    let done = resolved(segments, links, first, after, n)->Ok_0.0;
    law_only_new_segments_in_order(segments, links, first, after, m);
    assert(forall|i: int| 0 <= i < before.len() ==> done[i] == before[i]);
    if k < m {
        lemma_keys_by_number(segments, links, first, after, m, k);
    }
}

/// In specifications a segment is what it is.
pub proof fn law_segments_are_seen_whole(segments: Seq<Segment<String, Vec<u8>>>, i: int)
    requires
        0 <= i < segments.len(),
    ensures
        segment_views(segments).len() == segments.len(),
        segment_views(segments)[i].seq == segments[i].seq,
        segment_views(segments)[i].url == segments[i].url@,
        segment_views(segments)[i].key_iv is Some <==> segments[i].key_iv is Some,
        segments[i].key_iv matches Some((url, bytes)) ==> segment_views(segments)[i].key_iv == Some(
            (url@, bytes@),
        ),
{
}

/// In specifications the outcome of resolving segments is what it is.
pub proof fn law_outcomes_are_seen_whole(
    segments: Result<Vec<Segment<String, Vec<u8>>>, SegmentError<String>>,
    key_iv: Result<Option<(String, Vec<u8>)>, SegmentError<String>>,
)
    ensures
        segments matches Ok(list) ==> segments_view(segments) == Ok::<_, SegmentErrorView>(
            segment_views(list@),
        ),
        segments matches Err(e) ==> segments_view(segments) == Err::<Seq<SegmentView>, _>(e@),
        key_iv matches Ok(None) ==> key_result(key_iv) == Ok::<KeyIvView, SegmentErrorView>(None),
        key_iv matches Ok(Some((url, bytes))) ==> key_result(key_iv) == Ok::<
            KeyIvView,
            SegmentErrorView,
        >(Some((url@, bytes@))),
        key_iv matches Err(e) ==> key_result(key_iv) == Err::<KeyIvView, _>(e@),
{
}

/// In specifications an error is what it is.
pub proof fn law_errors_are_seen_whole(e: SegmentError<String>)
    ensures
        match e {
            SegmentError::KeyUriMissing => e@ is KeyUriMissing,
            SegmentError::KeyUri(uri, cause) => e@ == SegmentErrorView::KeyUri(uri@, cause@),
            SegmentError::IvMissing => e@ is IvMissing,
            SegmentError::Iv(IvError::Length) => e@ == SegmentErrorView::Iv(IvError::Length),
            SegmentError::Iv(IvError::Prefix(found)) => e@ == SegmentErrorView::Iv(
                IvError::Prefix(found@),
            ),
            SegmentError::Iv(IvError::Digit) => e@ == SegmentErrorView::Iv(IvError::Digit),
            SegmentError::Iv(IvError::SplitChar) => e@ == SegmentErrorView::Iv(
                IvError::SplitChar,
            ),
            SegmentError::Method(method) => e@ == SegmentErrorView::Method(method@),
            SegmentError::Url(cause) => e@ == SegmentErrorView::Url(cause@),
            SegmentError::Overflow => e@ is Overflow,
            SegmentError::Playlist => e@ is Playlist,
            SegmentError::Request(cause) => e@ == SegmentErrorView::Request(cause@),
        },
{
}

/// In specifications the links of a segment are what they are.
pub proof fn law_links_are_seen_whole(links: Seq<SegmentLinks<String>>, i: int)
    requires
        0 <= i < links.len(),
    ensures
        link_views(links).len() == links.len(),
        link_views(links)[i].uri == text::text_result(links[i].uri),
        link_views(links)[i].key is Some <==> links[i].key is Some,
        links[i].key is Some ==> link_views(links)[i].key->0 == text::text_result(links[i].key->0),
        link_views(links)[i].map is Some <==> links[i].map is Some,
        links[i].map is Some ==> link_views(links)[i].map->0 == text::text_result(links[i].map->0),
{
}

} // verus!
