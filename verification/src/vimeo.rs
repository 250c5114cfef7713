//! Clips that are described in JSON: which streams to take, and what they are made of.

use crate::text;
use crate::url;
use base64::prelude::{Engine, BASE64_STANDARD};
use vstd::prelude::*;

verus! {

/// A clip.
pub struct Clip {
    pub clip_id: String,
    pub base_url: String,
    pub video: Option<Vec<Media>>,
    pub audio: Option<Vec<Media>>,
}

/// One rendition of the picture or of the sound.
pub struct Media {
    pub base_url: String,
    pub bitrate: u32,
    pub init_segment: String,
    pub index_segment: Option<String>,
    pub segments: Vec<Segment>,
}

/// A piece of a rendition.
pub struct Segment {
    pub url: String,
}

/// What the address of a clip says about how the clip is described.
#[derive(Debug, PartialEq, Eq)]
pub struct UrlParams {
    pub query_string_ranges: u8,
    pub base64_init: u8,
}

impl Default for UrlParams {
    fn default() -> (params: Self)
        ensures
            params.query_string_ranges == 1,
            params.base64_init == 1,
    {
        UrlParams { query_string_ranges: 1, base64_init: 1 }
    }
}

impl UrlParams {
    /// The initialisation segment is written into the description itself.
    pub fn has_base64_init(&self) -> (yes: bool)
        ensures
            yes == (self.base64_init == 1),
    {
        self.base64_init == 1
    }
}

/// Where a piece of a stream comes from. `T` is text: `String` in running code,
/// `Seq<char>` in specifications.
#[derive(Debug, PartialEq, Eq)]
pub enum Source<T> {
    /// The file at this URL.
    Url(T),
    /// These bytes, in Base64.
    Base64(T),
}

/// Why a stream cannot be downloaded. Each is a part of the description and why it is no
/// URL. `T` is text.
#[derive(Debug, PartialEq, Eq)]
pub enum ResolveError<T> {
    /// The base of the clip.
    Clip(T, T),
    /// The base of the rendition.
    Media(T, T),
    /// The initialisation segment.
    Init(T, T),
    /// The index.
    Index(T, T),
    /// A segment.
    Segment(T, T),
}

impl View for Source<String> {
    type V = Source<Seq<char>>;

    open spec fn view(&self) -> Source<Seq<char>> {
        match self {
            Source::Url(url) => Source::Url(url@),
            Source::Base64(data) => Source::Base64(data@),
        }
    }
}

impl View for ResolveError<String> {
    type V = ResolveError<Seq<char>>;

    open spec fn view(&self) -> ResolveError<Seq<char>> {
        match self {
            ResolveError::Clip(part, cause) => ResolveError::Clip(part@, cause@),
            ResolveError::Media(part, cause) => ResolveError::Media(part@, cause@),
            ResolveError::Init(part, cause) => ResolveError::Init(part@, cause@),
            ResolveError::Index(part, cause) => ResolveError::Index(part@, cause@),
            ResolveError::Segment(part, cause) => ResolveError::Segment(part@, cause@),
        }
    }
}

/// A rendition in specifications.
pub struct MediaView {
    pub base_url: Seq<char>,
    pub bitrate: u32,
    pub init_segment: Seq<char>,
    pub index_segment: Option<Seq<char>>,
    pub segments: Seq<Seq<char>>,
}

impl View for Media {
    type V = MediaView;

    open spec fn view(&self) -> MediaView {
        MediaView {
            base_url: self.base_url@,
            bitrate: self.bitrate,
            init_segment: self.init_segment@,
            index_segment: text::opt_text(self.index_segment),
            segments: self.segments@.map_values(|segment: Segment| segment.url@),
        }
    }
}

/// A clip in specifications.
pub struct ClipView {
    pub clip_id: Seq<char>,
    pub base_url: Seq<char>,
    pub video: Option<Seq<MediaView>>,
    pub audio: Option<Seq<MediaView>>,
}

/// The views of renditions.
pub open spec fn media_views(streams: Seq<Media>) -> Seq<MediaView> {
    streams.map_values(|media: Media| media@)
}

/// The views of renditions that may be missing.
pub open spec fn opt_streams(streams: Option<Vec<Media>>) -> Option<Seq<MediaView>> {
    match streams {
        Some(streams) => Some(media_views(streams@)),
        None => None,
    }
}

impl View for Clip {
    type V = ClipView;

    open spec fn view(&self) -> ClipView {
        ClipView {
            clip_id: self.clip_id@,
            base_url: self.base_url@,
            video: opt_streams(self.video),
            audio: opt_streams(self.audio),
        }
    }
}

/// No rendition has a higher bitrate than the one at `i`, and none after it has as high a
/// one.
pub open spec fn is_best(streams: Seq<MediaView>, i: int) -> bool {
    &&& 0 <= i < streams.len()
    &&& forall|j: int|
        0 <= j < streams.len() ==> (#[trigger] streams[j]).bitrate <= streams[i].bitrate && (j > i
            ==> streams[j].bitrate < streams[i].bitrate)
}

/// No rendition has a lower bitrate than the one at `i`, and none before it has as low a
/// one.
pub open spec fn is_worst(streams: Seq<MediaView>, i: int) -> bool {
    &&& 0 <= i < streams.len()
    &&& forall|j: int|
        0 <= j < streams.len() ==> (#[trigger] streams[j]).bitrate >= streams[i].bitrate && (j < i
            ==> streams[j].bitrate > streams[i].bitrate)
}

/// The best rendition.
pub open spec fn best(streams: Seq<MediaView>) -> Option<MediaView> {
    if streams.len() > 0 {
        Some(streams[choose|i: int| is_best(streams, i)])
    } else {
        None
    }
}

/// The worst rendition.
pub open spec fn worst(streams: Seq<MediaView>) -> Option<MediaView> {
    if streams.len() > 0 {
        Some(streams[choose|i: int| is_worst(streams, i)])
    } else {
        None
    }
}

/// The rendition to take.
pub open spec fn chosen(streams: Option<Seq<MediaView>>, take_worst: bool) -> Option<MediaView> {
    match streams {
        Some(streams) => if take_worst {
            worst(streams)
        } else {
            best(streams)
        },
        None => None,
    }
}

/// The view of a rendition that may be missing.
pub open spec fn opt_media(media: Option<&Media>) -> Option<MediaView> {
    match media {
        Some(media) => Some(media@),
        None => None,
    }
}

/// No rendition or one.
pub open spec fn listed(media: Option<MediaView>) -> Seq<MediaView> {
    match media {
        Some(media) => seq![media],
        None => seq![],
    }
}

/// The renditions of a clip to take, the picture first.
pub open spec fn taken(clip: ClipView, take_worst: bool) -> Seq<MediaView> {
    listed(chosen(clip.video, take_worst)) + listed(chosen(clip.audio, take_worst))
}

impl Clip {
    /// The picture with the highest bitrate.
    pub fn best_video(&self) -> (media: Option<&Media>)
        ensures
            opt_media(media) == chosen(self@.video, false),
    {
        match &self.video {
            Some(streams) => Media::best_of(streams),
            None => None,
        }
    }

    /// The picture with the lowest bitrate.
    pub fn worst_video(&self) -> (media: Option<&Media>)
        ensures
            opt_media(media) == chosen(self@.video, true),
    {
        match &self.video {
            Some(streams) => Media::worst_of(streams),
            None => None,
        }
    }

    /// The sound with the highest bitrate.
    pub fn best_audio(&self) -> (media: Option<&Media>)
        ensures
            opt_media(media) == chosen(self@.audio, false),
    {
        match &self.audio {
            Some(streams) => Media::best_of(streams),
            None => None,
        }
    }

    /// The sound with the lowest bitrate.
    pub fn worst_audio(&self) -> (media: Option<&Media>)
        ensures
            opt_media(media) == chosen(self@.audio, true),
    {
        match &self.audio {
            Some(streams) => Media::worst_of(streams),
            None => None,
        }
    }

    /// The renditions to take, the picture first: the worst or the best of each.
    pub fn iter(&self, worst: bool) -> (list: Vec<&Media>)
        ensures
            list@.map_values(|media: &Media| media@) == taken(self@, worst),
    {
        let (video, audio) = if worst {
            (self.worst_video(), self.worst_audio())
        } else {
            (self.best_video(), self.best_audio())
        };
        let mut list: Vec<&Media> = Vec::new();
        if let Some(media) = video {
            list.push(media);
        }
        if let Some(media) = audio {
            list.push(media);
        }
        assert(list@.map_values(|media: &Media| media@) == taken(self@, worst));
        list
    }

    /// The name of the file to write where none is given.
    pub fn output_name(&self) -> (name: String)
        ensures
            name@ == self@.clip_id + ".mp4"@,
    {
        self.clip_id.clone().concat(".mp4")
    }

    /// The sources of each rendition to take of the clip that is described at
    /// `master_url`.
    pub fn resolve(&self, master_url: &str, worst: bool, base64_init: bool) -> (streams: Result<
        Vec<Vec<Source<String>>>,
        ResolveError<String>,
    >)
        ensures
            streams_view(streams) == streams_of(self@, master_url@, worst, base64_init),
    {
        let base = match url::join(master_url, self.base_url.as_str()) {
            Ok(base) => base,
            Err(cause) => {
                return Err(ResolveError::Clip(self.base_url.clone(), cause));
            },
        };
        let list = self.iter(worst);
        let ghost all = taken(self@, worst);
        let mut streams: Vec<Vec<Source<String>>> = Vec::new();
        let mut i: usize = 0;
        assert(all_sources(streams@) == Seq::<Seq<Source<Seq<char>>>>::empty());
        while i < list.len()
            invariant
                i <= list.len(),
                all == taken(self@, worst),
                list@.map_values(|media: &Media| media@) == all,
                url::url_joined(master_url@, self@.base_url) == Ok::<_, Seq<char>>(base@),
                resolved_all(all, base@, base64_init, i as nat) == StreamsView::Ok(
                    all_sources(streams@),
                ),
            decreases list.len() - i,
        {
            let ghost before = all_sources(streams@);
            proof {
                assert(all[i as int] == list@[i as int]@);
                lemma_first_bad_stream(all, base@, base64_init, (i + 1) as nat, all.len());
            }
            match list[i].resolve(base.as_str(), base64_init) {
                Ok(sources) => {
                    streams.push(sources);
                    assert(all_sources(streams@) == before.push(source_views(sources@)));
                },
                Err(e) => {
                    return Err(e);
                },
            }
            i = i + 1;
        }
        Ok(streams)
    }
}

/// The sources of several renditions in specifications.
pub type StreamsView = Result<Seq<Seq<Source<Seq<char>>>>, ResolveError<Seq<char>>>;

/// The views of the sources of several renditions.
pub open spec fn all_sources(streams: Seq<Vec<Source<String>>>) -> Seq<Seq<Source<Seq<char>>>> {
    streams.map_values(|sources: Vec<Source<String>>| source_views(sources@))
}

/// The view of the sources of several renditions or of an error.
pub open spec fn streams_view(
    streams: Result<Vec<Vec<Source<String>>>, ResolveError<String>>,
) -> StreamsView {
    match streams {
        Ok(streams) => Ok(all_sources(streams@)),
        Err(e) => Err(e@),
    }
}

/// The sources of the first `n` of several renditions, or what is wrong with the first bad
/// one.
pub open spec fn resolved_all(
    list: Seq<MediaView>,
    clip_url: Seq<char>,
    base64_init: bool,
    n: nat,
) -> StreamsView
    decreases n,
{
    if n == 0 {
        Ok(seq![])
    } else {
        match (
            resolved_all(list, clip_url, base64_init, (n - 1) as nat),
            sources_of(list[n - 1], clip_url, base64_init),
        ) {
            (Err(e), _) => Err(e),
            (Ok(_), Err(e)) => Err(e),
            (Ok(streams), Ok(sources)) => Ok(streams.push(sources)),
        }
    }
}

/// The sources of each rendition to take of the clip that is described at `master_url`.
pub open spec fn streams_of(
    clip: ClipView,
    master_url: Seq<char>,
    take_worst: bool,
    base64_init: bool,
) -> StreamsView {
    match url::url_joined(master_url, clip.base_url) {
        Ok(base) => resolved_all(
            taken(clip, take_worst),
            base,
            base64_init,
            taken(clip, take_worst).len(),
        ),
        Err(cause) => Err(ResolveError::Clip(clip.base_url, cause)),
    }
}

proof fn lemma_first_bad_stream(
    list: Seq<MediaView>,
    clip_url: Seq<char>,
    base64_init: bool,
    n: nat,
    m: nat,
)
    requires
        n <= m,
    ensures
        resolved_all(list, clip_url, base64_init, n) matches Err(e) ==> resolved_all(
            list,
            clip_url,
            base64_init,
            m,
        ) == StreamsView::Err(e),
    decreases m,
{
    if n < m {
        lemma_first_bad_stream(list, clip_url, base64_init, n, (m - 1) as nat);
    }
}

/// What the parts of a rendition lead to, each of them a URL or why it is none. The index
/// is there where the rendition has one. `T` is text and `L` a list of results.
pub struct MediaLinks<T, L> {
    pub init: Result<T, T>,
    pub index: Option<Result<T, T>>,
    pub segments: L,
}

/// The parts of a rendition in specifications.
pub type MediaLinksView = MediaLinks<Seq<char>, Seq<Result<Seq<char>, Seq<char>>>>;

/// The outcome of resolving a rendition in specifications.
pub type SourcesView = Result<Seq<Source<Seq<char>>>, ResolveError<Seq<char>>>;

impl View for MediaLinks<String, Vec<Result<String, String>>> {
    type V = MediaLinksView;

    open spec fn view(&self) -> MediaLinksView {
        MediaLinks {
            init: text::text_result(self.init),
            index: match self.index {
                Some(index) => Some(text::text_result(index)),
                None => None,
            },
            segments: text::text_results(self.segments@),
        }
    }
}

/// The views of sources.
pub open spec fn source_views(sources: Seq<Source<String>>) -> Seq<Source<Seq<char>>> {
    sources.map_values(|source: Source<String>| source@)
}

/// The view of sources or of an error.
pub open spec fn sources_view(
    sources: Result<Vec<Source<String>>, ResolveError<String>>,
) -> SourcesView {
    match sources {
        Ok(sources) => Ok(source_views(sources@)),
        Err(e) => Err(e@),
    }
}

/// The initialisation segment and the index.
pub open spec fn head_sources(
    media: MediaView,
    links: MediaLinksView,
    base64_init: bool,
) -> SourcesView {
    let init = if base64_init {
        Ok(Source::Base64(media.init_segment))
    } else {
        match links.init {
            Ok(url) => Ok(Source::Url(url)),
            Err(cause) => Err(ResolveError::Init(media.init_segment, cause)),
        }
    };
    match (init, media.index_segment, links.index) {
        (Err(e), _, _) => Err(e),
        (Ok(init), Some(index), Some(Err(cause))) => Err(ResolveError::Index(index, cause)),
        (Ok(init), Some(index), Some(Ok(url))) => Ok(seq![init, Source::Url(url)]),
        (Ok(init), _, _) => Ok(seq![init]),
    }
}

/// The initialisation segment, the index and the first `n` segments, in this order, or the
/// first of them that leads nowhere.
pub open spec fn linked_sources(
    media: MediaView,
    links: MediaLinksView,
    base64_init: bool,
    n: nat,
) -> SourcesView
    decreases n,
{
    if n == 0 {
        head_sources(media, links, base64_init)
    } else {
        match (
            linked_sources(media, links, base64_init, (n - 1) as nat),
            links.segments[n - 1],
        ) {
            (Err(e), _) => Err(e),
            (Ok(_), Err(cause)) => Err(ResolveError::Segment(media.segments[n - 1], cause)),
            (Ok(sources), Ok(url)) => Ok(sources.push(Source::Url(url))),
        }
    }
}

/// What the parts of a rendition whose base is `base` lead to.
pub open spec fn links_of(media: MediaView, base: Seq<char>) -> MediaLinksView {
    MediaLinks {
        init: url::url_joined(base, media.init_segment),
        index: match media.index_segment {
            Some(index) => Some(url::url_joined(base, index)),
            None => None,
        },
        segments: media.segments.map_values(|segment: Seq<char>| url::url_joined(base, segment)),
    }
}

/// The sources of a rendition of the clip at `clip_url`.
pub open spec fn sources_of(
    media: MediaView,
    clip_url: Seq<char>,
    base64_init: bool,
) -> SourcesView {
    match url::url_joined(clip_url, media.base_url) {
        Ok(base) => linked_sources(
            media,
            links_of(media, base),
            base64_init,
            media.segments.len(),
        ),
        Err(cause) => Err(ResolveError::Media(media.base_url, cause)),
    }
}

proof fn lemma_first_bad_link(
    media: MediaView,
    links: MediaLinksView,
    base64_init: bool,
    n: nat,
    m: nat,
)
    requires
        n <= m,
    ensures
        linked_sources(media, links, base64_init, n) matches Err(e) ==> linked_sources(
            media,
            links,
            base64_init,
            m,
        ) == SourcesView::Err(e),
    decreases m,
{
    if n < m {
        lemma_first_bad_link(media, links, base64_init, n, (m - 1) as nat);
    }
}

impl Media {
    /// The rendition with the highest bitrate, the last of several.
    pub fn best_of(streams: &Vec<Media>) -> (found: Option<&Media>)
        ensures
            opt_media(found) == best(media_views(streams@)),
    {
        let ghost all = media_views(streams@);
        if streams.len() == 0 {
            return None;
        }
        let mut at: usize = 0;
        let mut i: usize = 1;
        while i < streams.len()
            invariant
                at < i <= streams.len(),
                all == media_views(streams@),
                forall|j: int|
                    0 <= j < i ==> (#[trigger] all[j]).bitrate <= all[at as int].bitrate && (j > at
                        ==> all[j].bitrate < all[at as int].bitrate),
            decreases streams.len() - i,
        {
            assert(all[i as int] == streams@[i as int]@);
            assert(all[at as int] == streams@[at as int]@);
            if streams[at].bitrate <= streams[i].bitrate {
                at = i;
            }
            i = i + 1;
        }
        proof {
            assert(is_best(all, at as int));
            let other = choose|k: int| is_best(all, k);
            assert(all[other].bitrate <= all[at as int].bitrate);
            assert(all[at as int].bitrate <= all[other].bitrate);
        }
        Some(&streams[at])
    }

    /// The rendition with the lowest bitrate, the first of several.
    pub fn worst_of(streams: &Vec<Media>) -> (found: Option<&Media>)
        ensures
            opt_media(found) == worst(media_views(streams@)),
    {
        let ghost all = media_views(streams@);
        if streams.len() == 0 {
            return None;
        }
        let mut at: usize = 0;
        let mut i: usize = 1;
        while i < streams.len()
            invariant
                at < i <= streams.len(),
                all == media_views(streams@),
                forall|j: int|
                    0 <= j < i ==> (#[trigger] all[j]).bitrate >= all[at as int].bitrate && (j < at
                        ==> all[j].bitrate > all[at as int].bitrate),
            decreases streams.len() - i,
        {
            assert(all[i as int] == streams@[i as int]@);
            assert(all[at as int] == streams@[at as int]@);
            if streams[i].bitrate < streams[at].bitrate {
                at = i;
            }
            i = i + 1;
        }
        proof {
            assert(is_worst(all, at as int));
            let other = choose|k: int| is_worst(all, k);
            assert(all[other].bitrate <= all[at as int].bitrate);
            assert(all[at as int].bitrate <= all[other].bitrate);
        }
        Some(&streams[at])
    }

    /// The sources of a rendition, where `links` are what its parts lead to.
    pub fn resolve_linked(
        &self,
        links: &MediaLinks<String, Vec<Result<String, String>>>,
        base64_init: bool,
    ) -> (sources: Result<Vec<Source<String>>, ResolveError<String>>)
        requires
            links.segments.len() == self.segments.len(),
            links.index is Some <==> self.index_segment is Some,
        ensures
            sources_view(sources) == linked_sources(
                self@,
                links@,
                base64_init,
                self.segments@.len(),
            ),
    {
        let ghost media = self@;
        let ghost parts = links@;
        let mut sources: Vec<Source<String>> = Vec::new();
        proof {
            lemma_first_bad_link(media, parts, base64_init, 0, self.segments@.len());
        }
        if base64_init {
            sources.push(Source::Base64(self.init_segment.clone()));
        } else {
            match &links.init {
                Ok(url) => {
                    sources.push(Source::Url(url.clone()));
                },
                Err(cause) => {
                    return Err(ResolveError::Init(self.init_segment.clone(), cause.clone()));
                },
            }
        }
        assert(source_views(sources@) == seq![sources@[0]@]);
        if let Some(index) = &self.index_segment {
            match &links.index {
                Some(Ok(url)) => {
                    sources.push(Source::Url(url.clone()));
                    assert(source_views(sources@) == seq![sources@[0]@, sources@[1]@]);
                },
                Some(Err(cause)) => {
                    return Err(ResolveError::Index(index.clone(), cause.clone()));
                },
                None => {},
            }
        }
        let mut i: usize = 0;
        while i < self.segments.len()
            invariant
                i <= self.segments.len() == links.segments.len(),
                media == self@,
                parts == links@,
                linked_sources(media, parts, base64_init, i as nat) == SourcesView::Ok(
                    source_views(sources@),
                ),
            decreases self.segments.len() - i,
        {
            let ghost before = source_views(sources@);
            proof {
                assert(parts.segments[i as int] == text::text_result(links.segments@[i as int]));
                assert(media.segments[i as int] == self.segments@[i as int].url@);
                lemma_first_bad_link(
                    media,
                    parts,
                    base64_init,
                    (i + 1) as nat,
                    self.segments@.len(),
                );
            }
            match &links.segments[i] {
                Ok(url) => {
                    sources.push(Source::Url(url.clone()));
                    assert(source_views(sources@) == before.push(sources@.last()@));
                },
                Err(cause) => {
                    return Err(
                        ResolveError::Segment(self.segments[i].url.clone(), cause.clone()),
                    );
                },
            }
            i = i + 1;
        }
        Ok(sources)
    }

    /// The sources of a rendition of the clip at `clip_url`, in the order in which they
    /// make up the stream.
    pub fn resolve(&self, clip_url: &str, base64_init: bool) -> (sources: Result<
        Vec<Source<String>>,
        ResolveError<String>,
    >)
        ensures
            sources_view(sources) == sources_of(self@, clip_url@, base64_init),
    {
        let base = match url::join(clip_url, self.base_url.as_str()) {
            Ok(base) => base,
            Err(cause) => {
                return Err(ResolveError::Media(self.base_url.clone(), cause));
            },
        };
        let base_url = base.as_str();
        let mut segments: Vec<Result<String, String>> = Vec::new();
        let mut i: usize = 0;
        while i < self.segments.len()
            invariant
                i == segments.len(),
                i <= self.segments.len(),
                forall|j: int|
                    0 <= j < i ==> text::text_result(#[trigger] segments@[j]) == url::url_joined(
                        base_url@,
                        self.segments@[j].url@,
                    ),
            decreases self.segments.len() - i,
        {
            segments.push(url::join(base_url, self.segments[i].url.as_str()));
            i = i + 1;
        }
        let links = MediaLinks {
            init: url::join(base_url, self.init_segment.as_str()),
            index: url::join_opt(base_url, &self.index_segment),
            segments,
        };
        assert(links@.segments == links_of(self@, base@).segments);
        assert(links@ == links_of(self@, base@));
        self.resolve_linked(&links, base64_init)
    }
}

/// What the text means in Base64: bytes, or why it means none.
pub uninterp spec fn base64_decoded(data: Seq<char>) -> Result<Seq<u8>, Seq<char>>;

/// Calls `decode` on `BASE64_STANDARD`. The contract claims that the bytes and the message
/// of an error depend on the text alone.
#[verifier::external_body]
fn decode_base64(data: &str) -> (bytes: Result<Vec<u8>, String>)
    ensures
        match bytes {
            Ok(bytes) => base64_decoded(data@) == Ok::<_, Seq<char>>(bytes@),
            Err(cause) => base64_decoded(data@) == Err::<Seq<u8>, _>(cause@),
        },
{
    BASE64_STANDARD.decode(data).map_err(|e| e.to_string())
}

/// The bytes of a segment that is written in Base64, or why the text is not Base64.
pub fn decode_segment(data: &str) -> (bytes: Result<Vec<u8>, String>)
    ensures
        match bytes {
            Ok(bytes) => base64_decoded(data@) == Ok::<_, Seq<char>>(bytes@),
            Err(cause) => base64_decoded(data@) == Err::<Seq<u8>, _>(cause@),
        },
{
    decode_base64(data)
}

/// Where there is a rendition, the best has the highest bitrate of all and the worst the
/// lowest, and both are among them.
pub proof fn law_best_and_worst(streams: Seq<MediaView>, i: int)
    requires
        0 <= i < streams.len(),
    ensures
        best(streams) matches Some(high) && streams.contains(high) && streams[i].bitrate
            <= high.bitrate,
        worst(streams) matches Some(low) && streams.contains(low) && low.bitrate
            <= streams[i].bitrate,
{
    lemma_some_is_best(streams);
    lemma_some_is_worst(streams);
}

proof fn lemma_some_is_best(streams: Seq<MediaView>)
    requires
        streams.len() > 0,
    ensures
        exists|i: int| is_best(streams, i),
    decreases streams.len(),
{
    let last = streams.len() - 1;
    if last == 0 {
        assert(is_best(streams, 0));
    } else {
        let rest = streams.take(last);
        lemma_some_is_best(rest);
        let k = choose|k: int| is_best(rest, k);
        assert(forall|j: int| 0 <= j < last ==> rest[j] == #[trigger] streams[j]);
        if streams[last].bitrate >= streams[k].bitrate {
            assert(is_best(streams, last));
        } else {
            assert(is_best(streams, k));
        }
    }
}

proof fn lemma_some_is_worst(streams: Seq<MediaView>)
    requires
        streams.len() > 0,
    ensures
        exists|i: int| is_worst(streams, i),
    decreases streams.len(),
{
    let last = streams.len() - 1;
    if last == 0 {
        assert(is_worst(streams, 0));
    } else {
        let rest = streams.take(last);
        lemma_some_is_worst(rest);
        let k = choose|k: int| is_worst(rest, k);
        assert(forall|j: int| 0 <= j < last ==> rest[j] == #[trigger] streams[j]);
        if streams[last].bitrate < streams[k].bitrate {
            assert(is_worst(streams, last));
        } else {
            assert(is_worst(streams, k));
        }
    }
}

/// A stream is made up of its initialisation segment, its index where it has one, and all
/// its segments in their order. Only the initialisation segment can be written into the
/// description, and it is where that is said.
pub proof fn law_stream_is_complete_and_in_order(
    media: MediaView,
    links: MediaLinksView,
    base64_init: bool,
    n: nat,
)
    requires
        n <= media.segments.len() == links.segments.len(),
        links.index is Some <==> media.index_segment is Some,
    ensures
        linked_sources(media, links, base64_init, n) matches Ok(sources) ==> {
            let head: int = if media.index_segment is Some {
                2
            } else {
                1
            };
            &&& sources.len() == head + n
            &&& if base64_init {
                sources[0] == Source::Base64(media.init_segment)
            } else {
                links.init matches Ok(url) && sources[0] == Source::Url(url)
            }
            &&& head == 2 ==> (links.index matches Some(Ok(url)) && sources[1] == Source::Url(url))
            &&& forall|i: int|
                0 <= i < n ==> (#[trigger] links.segments[i] matches Ok(url) && sources[head + i]
                    == Source::Url(url))
        },
    decreases n,
{
    if n > 0 {
        law_stream_is_complete_and_in_order(media, links, base64_init, (n - 1) as nat);
    }
}

/// A clip with a picture or a sound gives at most one stream of each, and all that are
/// chosen are resolved.
pub proof fn law_every_choice_is_resolved(
    clip: ClipView,
    master_url: Seq<char>,
    take_worst: bool,
    base64_init: bool,
)
    ensures
        taken(clip, take_worst).len() <= 2,
        streams_of(clip, master_url, take_worst, base64_init) matches Ok(streams) ==> streams.len()
            == taken(clip, take_worst).len(),
{
    if let Ok(base) = url::url_joined(master_url, clip.base_url) {
        lemma_resolved_len(
            taken(clip, take_worst),
            base,
            base64_init,
            taken(clip, take_worst).len(),
        );
    }
}

proof fn lemma_resolved_len(
    list: Seq<MediaView>,
    clip_url: Seq<char>,
    base64_init: bool,
    n: nat,
)
    ensures
        resolved_all(list, clip_url, base64_init, n) matches Ok(streams) ==> streams.len() == n,
    decreases n,
{
    if n > 0 {
        lemma_resolved_len(list, clip_url, base64_init, (n - 1) as nat);
    }
}

/// Which rendition is the best and which the worst: the last of those with the highest
/// bitrate, and the first of those with the lowest. Without renditions there is neither.
pub proof fn law_which_is_best_and_which_is_worst(streams: Seq<MediaView>, i: int)
    requires
        0 <= i < streams.len(),
    ensures
        (forall|j: int|
            0 <= j < streams.len() ==> (#[trigger] streams[j]).bitrate <= streams[i].bitrate && (j
                > i ==> streams[j].bitrate < streams[i].bitrate)) ==> best(streams) == Some(
            streams[i],
        ),
        (forall|j: int|
            0 <= j < streams.len() ==> streams[i].bitrate <= (#[trigger] streams[j]).bitrate && (j
                < i ==> streams[i].bitrate < streams[j].bitrate)) ==> worst(streams) == Some(
            streams[i],
        ),
        best(Seq::empty()) is None,
        worst(Seq::empty()) is None,
{
    if is_best(streams, i) {
        let k = choose|k: int| is_best(streams, k);
        assert(streams[i].bitrate <= streams[k].bitrate && streams[k].bitrate
            <= streams[i].bitrate);
    }
    if is_worst(streams, i) {
        let k = choose|k: int| is_worst(streams, k);
        assert(streams[i].bitrate <= streams[k].bitrate && streams[k].bitrate
            <= streams[i].bitrate);
    }
}

/// Of a clip one picture and one sound are taken, the picture first, each the best of its
/// own, or the worst where that is asked for. What a clip does not have is not taken.
pub proof fn law_picture_and_sound_are_taken(clip: ClipView, take_worst: bool)
    ensures
        ({
            let picture = match clip.video {
                Some(streams) => if take_worst {
                    worst(streams)
                } else {
                    best(streams)
                },
                None => None,
            };
            let sound = match clip.audio {
                Some(streams) => if take_worst {
                    worst(streams)
                } else {
                    best(streams)
                },
                None => None,
            };
            &&& taken(clip, take_worst) == match (picture, sound) {
                (Some(picture), Some(sound)) => seq![picture, sound],
                (Some(picture), None) => seq![picture],
                (None, Some(sound)) => seq![sound],
                (None, None) => seq![],
            }
            &&& chosen(clip.video, take_worst) == picture
            &&& chosen(clip.audio, take_worst) == sound
        }),
{
    let picture = chosen(clip.video, take_worst);
    let sound = chosen(clip.audio, take_worst);
    match (picture, sound) {
        (Some(picture), Some(sound)) => assert(taken(clip, take_worst) =~= seq![picture, sound]),
        (Some(picture), None) => assert(taken(clip, take_worst) =~= seq![picture]),
        (None, Some(sound)) => assert(taken(clip, take_worst) =~= seq![sound]),
        (None, None) => assert(taken(clip, take_worst) =~= seq![]),
    }
}

/// The parts of a rendition are resolved at the base of the rendition, each for itself.
pub proof fn law_parts_are_resolved_at_the_base(media: MediaView, base: Seq<char>)
    ensures
        links_of(media, base).init == url::url_joined(base, media.init_segment),
        match media.index_segment {
            Some(index) => links_of(media, base).index == Some(url::url_joined(base, index)),
            None => links_of(media, base).index is None,
        },
        links_of(media, base).segments.len() == media.segments.len(),
        forall|i: int|
            0 <= i < media.segments.len() ==> #[trigger] links_of(media, base).segments[i]
                == url::url_joined(base, media.segments[i]),
{
}

/// The initialisation segment is in order: it is written into the description, or leads
/// somewhere.
pub open spec fn init_is_fine(links: MediaLinksView, base64_init: bool) -> bool {
    base64_init || links.init is Ok
}

/// The index is in order: there is none, or it leads somewhere.
pub open spec fn index_is_fine(links: MediaLinksView) -> bool {
    links.index is Some ==> links.index->0 is Ok
}

/// A rendition resolves where all of its parts lead somewhere; where it does not, the first
/// part that leads nowhere is reported, with why.
pub proof fn law_first_bad_part_is_reported(
    media: MediaView,
    links: MediaLinksView,
    base64_init: bool,
)
    requires
        media.segments.len() == links.segments.len(),
        links.index is Some <==> media.index_segment is Some,
    ensures
        match linked_sources(media, links, base64_init, media.segments.len()) {
            Ok(_) => {
                &&& init_is_fine(links, base64_init)
                &&& index_is_fine(links)
                &&& forall|i: int| 0 <= i < links.segments.len() ==> #[trigger] links.segments[i] is Ok
            },
            Err(ResolveError::Init(part, cause)) => {
                &&& !base64_init
                &&& part == media.init_segment
                &&& links.init == Err::<Seq<char>, _>(cause)
            },
            Err(ResolveError::Index(part, cause)) => {
                &&& init_is_fine(links, base64_init)
                &&& media.index_segment == Some(part)
                &&& links.index == Some(Err::<Seq<char>, _>(cause))
            },
            Err(ResolveError::Segment(part, cause)) => {
                &&& init_is_fine(links, base64_init)
                &&& index_is_fine(links)
                &&& exists|i: int|
                    {
                        &&& 0 <= i < links.segments.len()
                        &&& #[trigger] links.segments[i] == Err::<Seq<char>, _>(cause)
                        &&& media.segments[i] == part
                        &&& forall|j: int| 0 <= j < i ==> #[trigger] links.segments[j] is Ok
                    }
            },
            Err(_) => false,
        },
{
    lemma_first_bad_part(media, links, base64_init, media.segments.len());
}

proof fn lemma_first_bad_part(
    media: MediaView,
    links: MediaLinksView,
    base64_init: bool,
    n: nat,
)
    requires
        n <= media.segments.len() == links.segments.len(),
        links.index is Some <==> media.index_segment is Some,
    ensures
        match linked_sources(media, links, base64_init, n) {
            Ok(_) => {
                &&& init_is_fine(links, base64_init)
                &&& index_is_fine(links)
                &&& forall|i: int| 0 <= i < n ==> #[trigger] links.segments[i] is Ok
            },
            Err(ResolveError::Init(part, cause)) => {
                &&& !base64_init
                &&& part == media.init_segment
                &&& links.init == Err::<Seq<char>, _>(cause)
            },
            Err(ResolveError::Index(part, cause)) => {
                &&& init_is_fine(links, base64_init)
                &&& media.index_segment == Some(part)
                &&& links.index == Some(Err::<Seq<char>, _>(cause))
            },
            Err(ResolveError::Segment(part, cause)) => {
                &&& init_is_fine(links, base64_init)
                &&& index_is_fine(links)
                &&& exists|i: int|
                    {
                        &&& 0 <= i < n
                        &&& #[trigger] links.segments[i] == Err::<Seq<char>, _>(cause)
                        &&& media.segments[i] == part
                        &&& forall|j: int| 0 <= j < i ==> #[trigger] links.segments[j] is Ok
                    }
            },
            Err(_) => false,
        },
    decreases n,
{
    if n > 0 {
        lemma_first_bad_part(media, links, base64_init, (n - 1) as nat);
        assert(links.segments[n - 1] is Ok || links.segments[n - 1] is Err);
    }
}

/// A rendition is looked for at its base, which is what its own base means at the URL of the
/// clip. There, it is made up of all of its parts, in order and at what each means at that
/// base; the initialisation segment is the text itself exactly where that is said.
pub proof fn law_rendition_is_made_up_of_its_parts(
    media: MediaView,
    clip_url: Seq<char>,
    base64_init: bool,
)
    ensures
        match url::url_joined(clip_url, media.base_url) {
            Err(cause) => sources_of(media, clip_url, base64_init) == SourcesView::Err(
                ResolveError::Media(media.base_url, cause),
            ),
            Ok(base) => {
                &&& sources_of(media, clip_url, base64_init) == linked_sources(
                    media,
                    links_of(media, base),
                    base64_init,
                    media.segments.len(),
                )
                &&& sources_of(media, clip_url, base64_init) matches Ok(sources) ==> {
                    let head: int = if media.index_segment is Some {
                        2
                    } else {
                        1
                    };
                    &&& sources.len() == head + media.segments.len()
                    &&& base64_init ==> sources[0] == Source::Base64(media.init_segment)
                    &&& !base64_init ==> (url::url_joined(base, media.init_segment) matches Ok(url)
                        && sources[0] == Source::Url(url))
                    &&& media.index_segment matches Some(index) ==> (url::url_joined(
                        base,
                        index,
                    ) matches Ok(url) && sources[1] == Source::Url(url))
                    &&& forall|i: int|
                        0 <= i < media.segments.len() ==> (url::url_joined(
                            base,
                            #[trigger] media.segments[i],
                        ) matches Ok(url) && sources[head + i] == Source::Url(url))
                }
            },
        },
{
    if let Ok(base) = url::url_joined(clip_url, media.base_url) {
        let links = links_of(media, base);
        law_parts_are_resolved_at_the_base(media, base);
        law_stream_is_complete_and_in_order(media, links, base64_init, media.segments.len());
        if let Ok(sources) = sources_of(media, clip_url, base64_init) {
            let head: int = if media.index_segment is Some {
                2
            } else {
                1
            };
            assert forall|i: int| 0 <= i < media.segments.len() implies (url::url_joined(
                base,
                #[trigger] media.segments[i],
            ) matches Ok(url) && sources[head + i] == Source::Url(url)) by {
                assert(links.segments[i] == url::url_joined(base, media.segments[i]));
            }
        }
    }
}

/// The streams of a clip are the sources of the renditions that are taken, one for each and
/// in their order, with the initialisation segments written or linked as is said, and the
/// base of the clip being what it means at the URL of the description. The first rendition
/// that does not resolve is what goes wrong.
pub proof fn law_each_stream_is_a_rendition(
    clip: ClipView,
    master_url: Seq<char>,
    take_worst: bool,
    base64_init: bool,
)
    ensures
        match (
            url::url_joined(master_url, clip.base_url),
            streams_of(clip, master_url, take_worst, base64_init),
        ) {
            (Err(cause), outcome) => outcome == StreamsView::Err(
                ResolveError::Clip(clip.base_url, cause),
            ),
            (Ok(base), Ok(streams)) => {
                let list = taken(clip, take_worst);
                &&& streams.len() == list.len()
                &&& forall|i: int|
                    0 <= i < list.len() ==> sources_of(#[trigger] list[i], base, base64_init)
                        == SourcesView::Ok(streams[i])
            },
            (Ok(base), Err(e)) => {
                let list = taken(clip, take_worst);
                exists|i: int|
                    {
                        &&& 0 <= i < list.len()
                        &&& sources_of(#[trigger] list[i], base, base64_init) == SourcesView::Err(e)
                        &&& forall|j: int|
                            0 <= j < i ==> sources_of(#[trigger] list[j], base, base64_init) is Ok
                    }
            },
        },
{
    if let Ok(base) = url::url_joined(master_url, clip.base_url) {
        let list = taken(clip, take_worst);
        lemma_each_is_resolved(list, base, base64_init, list.len());
    }
}

proof fn lemma_each_is_resolved(
    list: Seq<MediaView>,
    base: Seq<char>,
    base64_init: bool,
    n: nat,
)
    requires
        n <= list.len(),
    ensures
        match resolved_all(list, base, base64_init, n) {
            Ok(streams) => {
                &&& streams.len() == n
                &&& forall|i: int|
                    0 <= i < n ==> sources_of(#[trigger] list[i], base, base64_init)
                        == SourcesView::Ok(streams[i])
            },
            Err(e) => exists|i: int|
                {
                    &&& 0 <= i < n
                    &&& sources_of(#[trigger] list[i], base, base64_init) == SourcesView::Err(e)
                    &&& forall|j: int|
                        0 <= j < i ==> sources_of(#[trigger] list[j], base, base64_init) is Ok
                },
        },
    decreases n,
{
    if n > 0 {
        lemma_each_is_resolved(list, base, base64_init, (n - 1) as nat);
        let last = list[n - 1];
    }
}

/// In specifications sources and errors are what they are, and none is left out or added.
pub proof fn law_sources_are_seen_whole(
    sources: Seq<Source<String>>,
    i: int,
    streams: Seq<Vec<Source<String>>>,
    e: ResolveError<String>,
)
    requires
        0 <= i < sources.len(),
    ensures
        source_views(sources).len() == sources.len(),
        match sources[i] {
            Source::Url(url) => source_views(sources)[i] == Source::Url(url@),
            Source::Base64(data) => source_views(sources)[i] == Source::Base64(data@),
        },
        all_sources(streams).len() == streams.len(),
        forall|k: int|
            0 <= k < streams.len() ==> #[trigger] all_sources(streams)[k] == source_views(
                streams[k]@,
            ),
        match e {
            ResolveError::Clip(part, cause) => e@ == ResolveError::Clip(part@, cause@),
            ResolveError::Media(part, cause) => e@ == ResolveError::Media(part@, cause@),
            ResolveError::Init(part, cause) => e@ == ResolveError::Init(part@, cause@),
            ResolveError::Index(part, cause) => e@ == ResolveError::Index(part@, cause@),
            ResolveError::Segment(part, cause) => e@ == ResolveError::Segment(part@, cause@),
        },
{
}

/// In specifications outcomes are what they are.
pub proof fn law_outcomes_are_seen_whole(
    sources: Result<Vec<Source<String>>, ResolveError<String>>,
    streams: Result<Vec<Vec<Source<String>>>, ResolveError<String>>,
    media: Option<&Media>,
)
    ensures
        sources matches Ok(list) ==> sources_view(sources) == SourcesView::Ok(source_views(list@)),
        sources matches Err(e) ==> sources_view(sources) == SourcesView::Err(e@),
        streams matches Ok(list) ==> streams_view(streams) == StreamsView::Ok(all_sources(list@)),
        streams matches Err(e) ==> streams_view(streams) == StreamsView::Err(e@),
        media is Some <==> opt_media(media) is Some,
        media is Some ==> opt_media(media)->0 == media->0@,
{
}

/// In specifications clips and renditions are what they are.
pub proof fn law_clips_are_seen_whole(clip: Clip, media: Media)
    ensures
        clip@.clip_id == clip.clip_id@,
        clip@.base_url == clip.base_url@,
        clip@.video is Some <==> clip.video is Some,
        clip.video is Some ==> clip@.video->0 == media_views(clip.video->0@),
        clip@.audio is Some <==> clip.audio is Some,
        clip.audio is Some ==> clip@.audio->0 == media_views(clip.audio->0@),
        clip.video is Some ==> clip@.video->0.len() == clip.video->0@.len() && forall|i: int|
            0 <= i < clip.video->0@.len() ==> #[trigger] clip@.video->0[i] == clip.video->0@[i]@,
        clip.audio is Some ==> clip@.audio->0.len() == clip.audio->0@.len() && forall|i: int|
            0 <= i < clip.audio->0@.len() ==> #[trigger] clip@.audio->0[i] == clip.audio->0@[i]@,
        media@.base_url == media.base_url@,
        media@.bitrate == media.bitrate,
        media@.init_segment == media.init_segment@,
        media@.index_segment is Some <==> media.index_segment is Some,
        media.index_segment is Some ==> media@.index_segment->0 == media.index_segment->0@,
        media@.segments.len() == media.segments@.len(),
        forall|i: int|
            0 <= i < media.segments@.len() ==> #[trigger] media@.segments[i]
                == media.segments@[i].url@,
{
}

/// In specifications the links of a rendition are what they are.
pub proof fn law_links_are_seen_whole(links: MediaLinks<String, Vec<Result<String, String>>>)
    ensures
        links@.init == text::text_result(links.init),
        links@.index is Some <==> links.index is Some,
        links.index is Some ==> links@.index->0 == text::text_result(links.index->0),
        links@.segments == text::text_results(links.segments@),
{
}

} // verus!
