//! The segments of one stream, in order, from playlists that are fetched until the last.

use crate::hls::playlist::{self, MediaPlaylist, Playlist, PlaylistView};
use crate::hls::segment::{self, Segment, SegmentError, SegmentErrorView, SegmentView};
use crate::hls::variant;
use crate::text;
use crate::url;
use std::collections::VecDeque;
use vstd::prelude::*;

verus! {

/// What a stream waits for.
#[derive(Debug, Clone, Copy, PartialEq, Eq)]
pub enum Phase {
    /// Nothing.
    Idle,
    /// Time to pass before the playlist is fetched again.
    Sleeping,
    /// The playlist.
    Requesting,
}

/// What has happened. `T` is text and `R` the outcome of resolving segments.
pub enum Event<T, R> {
    /// The next segment is asked for.
    Poll,
    /// The time to wait has passed.
    Woke,
    /// The playlist could not be fetched, and why.
    Failed(T),
    /// The playlist has come, and these are its new segments.
    Fetched { resolved: R, end_list: bool, target_duration: u32 },
}

/// What to do next. `S` is a segment and `E` an error.
#[derive(Debug, PartialEq, Eq)]
pub enum Action<S, E> {
    /// Wait for what was started before.
    Wait,
    /// Download this segment.
    Yield(S),
    /// Give up.
    Fail(E),
    /// Stop: there are no more segments.
    End,
    /// Wait for this many seconds, the bits of a single precision number.
    Sleep(u32),
    /// Fetch the playlist.
    Request,
}

/// What to do next, and by how much there is more to do than was known.
#[derive(Debug, PartialEq, Eq)]
pub struct Step<S, E> {
    pub action: Action<S, E>,
    pub progress: u64,
}

/// What resolving segments gives, in running code.
pub type Resolved = Result<Vec<Segment<String, Vec<u8>>>, SegmentError<String>>;

/// What resolving segments gives, in specifications.
pub type ResolvedView = Result<Seq<SegmentView>, SegmentErrorView>;

/// An event in specifications.
pub type EventView = Event<Seq<char>, ResolvedView>;

/// An action in specifications.
pub type ActionView = Action<SegmentView, SegmentErrorView>;

/// A step in specifications.
pub type StepView = Step<SegmentView, SegmentErrorView>;

impl View for Event<String, Resolved> {
    type V = EventView;

    open spec fn view(&self) -> EventView {
        match self {
            Event::Poll => Event::Poll,
            Event::Woke => Event::Woke,
            Event::Failed(cause) => Event::Failed(cause@),
            Event::Fetched { resolved, end_list, target_duration } => Event::Fetched {
                resolved: segment::segments_view(*resolved),
                end_list: *end_list,
                target_duration: *target_duration,
            },
        }
    }
}

impl View for Action<Segment<String, Vec<u8>>, SegmentError<String>> {
    type V = ActionView;

    open spec fn view(&self) -> ActionView {
        match self {
            Action::Wait => Action::Wait,
            Action::Yield(segment) => Action::Yield(segment@),
            Action::Fail(e) => Action::Fail(e@),
            Action::End => Action::End,
            Action::Sleep(duration) => Action::Sleep(*duration),
            Action::Request => Action::Request,
        }
    }
}

impl View for Step<Segment<String, Vec<u8>>, SegmentError<String>> {
    type V = StepView;

    open spec fn view(&self) -> StepView {
        Step { action: self.action@, progress: self.progress }
    }
}

/// The state of a stream in specifications.
pub struct StreamView {
    /// Where the playlist is.
    pub url: Seq<char>,
    pub phase: Phase,
    /// The playlist that came last was complete.
    pub end_list: bool,
    /// The segments of the playlist that came last, without those that were handed out.
    pub pending: Option<Seq<SegmentView>>,
    /// The number of the segment that was handed out last.
    pub seq: Option<u64>,
    /// How many segments have come.
    pub len: u64,
    /// Somebody watches how much there is to do.
    pub watched: bool,
}

/// A stream of segments.
pub struct SegmentStream {
    url: String,
    phase: Phase,
    end_list: bool,
    pending: Option<VecDeque<Segment<String, Vec<u8>>>>,
    seq: Option<u64>,
    len: u64,
    watched: bool,
}

impl View for SegmentStream {
    type V = StreamView;

    closed spec fn view(&self) -> StreamView {
        StreamView {
            url: self.url@,
            phase: self.phase,
            end_list: self.end_list,
            pending: match self.pending {
                Some(pending) => Some(segment::segment_views(pending@)),
                None => None,
            },
            seq: self.seq,
            len: self.len,
            watched: self.watched,
        }
    }
}

/// A stream of which nothing is known but where its playlist is.
pub open spec fn new_stream(url: Seq<char>) -> StreamView {
    StreamView {
        url,
        phase: Phase::Idle,
        end_list: false,
        pending: None,
        seq: None,
        len: 0,
        watched: false,
    }
}

/// The state after the new segments of a playlist have come, and how many they are. A
/// playlist that cannot be used leaves the state as it was.
pub open spec fn accepted(stream: StreamView, resolved: ResolvedView, end_list: bool) -> (
    StreamView,
    Result<u64, SegmentErrorView>,
) {
    match resolved {
        Ok(segments) => if stream.len + segments.len() > u64::MAX {
            (stream, Err(SegmentError::Overflow))
        } else {
            (
                StreamView {
                    end_list,
                    pending: Some(segments),
                    len: (stream.len + segments.len()) as u64,
                    ..stream
                },
                Ok(segments.len() as u64),
            )
        },
        Err(e) => (stream, Err(e)),
    }
}

/// What a stream that waits for nothing does: it hands out the next segment; when there is
/// none it ends if the playlist was complete, and asks for the playlist again if not.
pub open spec fn advanced(stream: StreamView) -> (StreamView, ActionView) {
    match stream.pending {
        Some(pending) => if pending.len() > 0 {
            (
                StreamView {
                    pending: Some(pending.skip(1)),
                    seq: Some(pending[0].seq),
                    ..stream
                },
                Action::Yield(pending[0]),
            )
        } else if stream.end_list {
            (stream, Action::End)
        } else {
            (StreamView { pending: None, phase: Phase::Requesting, ..stream }, Action::Request)
        },
        None => (StreamView { phase: Phase::Requesting, ..stream }, Action::Request),
    }
}

/// How much the display of what there is to do grows.
pub open spec fn growth(stream: StreamView, count: u64) -> u64 {
    if stream.watched {
        count
    } else {
        0
    }
}

/// What a stream does when something happens. After a playlist without new segments it
/// waits for the target duration.
pub open spec fn stepped(stream: StreamView, event: EventView) -> (StreamView, StepView) {
    match (stream.phase, event) {
        (Phase::Sleeping, Event::Woke) => {
            let (next, action) = advanced(StreamView { phase: Phase::Idle, ..stream });
            (next, Step { action, progress: 0 })
        },
        (Phase::Requesting, Event::Failed(cause)) => (
            stream,
            Step { action: Action::Fail(SegmentError::Request(cause)), progress: 0 },
        ),
        (Phase::Requesting, Event::Fetched { resolved, end_list, target_duration }) => {
            let (fed, count) = accepted(
                StreamView { phase: Phase::Idle, ..stream },
                resolved,
                end_list,
            );
            match count {
                Err(e) => (fed, Step { action: Action::Fail(e), progress: 0 }),
                Ok(count) => if count == 0 {
                    (
                        StreamView { phase: Phase::Sleeping, ..fed },
                        Step { action: Action::Sleep(target_duration), progress: 0 },
                    )
                } else {
                    let (next, action) = advanced(fed);
                    (next, Step { action, progress: growth(stream, count) })
                },
            }
        },
        (Phase::Idle, _) => {
            let (next, action) = advanced(stream);
            (next, Step { action, progress: 0 })
        },
        _ => (stream, Step { action: Action::Wait, progress: 0 }),
    }
}

/// What a playlist adds to a stream.
pub open spec fn resolved_for(
    stream: StreamView,
    playlist: playlist::MediaPlaylistView,
) -> ResolvedView {
    segment::resolved_segments(
        playlist,
        segment::all_links(stream.url, playlist.segments),
        stream.seq,
    )
}

/// The event that a playlist comes.
pub open spec fn fetched(stream: StreamView, playlist: playlist::MediaPlaylistView) -> EventView {
    Event::Fetched {
        resolved: resolved_for(stream, playlist),
        end_list: playlist.end_list,
        target_duration: playlist.target_duration,
    }
}

/// The view of a count or an error.
pub open spec fn count_view(count: Result<u64, SegmentError<String>>) -> Result<
    u64,
    SegmentErrorView,
> {
    match count {
        Ok(count) => Ok(count),
        Err(e) => Err(e@),
    }
}

impl SegmentStream {
    /// A stream whose playlist is at `url`.
    pub fn new(url: String) -> (stream: Self)
        ensures
            stream@ == new_stream(url@),
    {
        SegmentStream {
            url,
            phase: Phase::Idle,
            end_list: false,
            pending: None,
            seq: None,
            len: 0,
            watched: false,
        }
    }

    /// Where the playlist is.
    pub fn url(&self) -> (url: &str)
        ensures
            url@ == self@.url,
    {
        self.url.as_str()
    }

    /// From now on, steps say by how much there is more to do. Says how much is known
    /// already.
    pub fn set_progress_bar(&mut self) -> (len: u64)
        ensures
            len == old(self)@.len,
            final(self)@ == (StreamView { watched: true, ..old(self)@ }),
    {
        self.watched = true;
        self.len
    }

    /// Takes over the new segments of a playlist.
    pub fn accept(&mut self, resolved: Resolved, end_list: bool) -> (count: Result<
        u64,
        SegmentError<String>,
    >)
        ensures
            (final(self)@, count_view(count)) == accepted(
                old(self)@,
                segment::segments_view(resolved),
                end_list,
            ),
    {
        match resolved {
            Ok(segments) => {
                let count: u64 = segments.len() as u64;
                if count > u64::MAX - self.len {
                    return Err(SegmentError::Overflow);
                }
                let queue = queue_of(segments);
                self.len = self.len + count;
                self.end_list = end_list;
                self.pending = Some(queue);
                Ok(count)
            },
            Err(e) => Err(e),
        }
    }

    /// Takes over what a playlist adds to the stream, and says how many segments that are.
    pub fn feed_playlist(&mut self, playlist: &MediaPlaylist) -> (count: Result<
        u64,
        SegmentError<String>,
    >)
        ensures
            (final(self)@, count_view(count)) == accepted(
                old(self)@,
                resolved_for(old(self)@, playlist@),
                playlist.end_list,
            ),
    {
        let resolved = segment::resolve_segments(self.url.as_str(), playlist, self.seq);
        self.accept(resolved, playlist.end_list)
    }

    fn advance(&mut self) -> (action: Action<Segment<String, Vec<u8>>, SegmentError<String>>)
        ensures
            (final(self)@, action@) == advanced(old(self)@),
    {
        match self.pending.take() {
            Some(mut pending) => {
                let ghost all = pending@;
                match pending.pop_front() {
                    Some(segment) => {
                        assert(segment::segment_views(pending@) == segment::segment_views(
                            all,
                        ).skip(1));
                        self.seq = Some(segment.seq);
                        self.pending = Some(pending);
                        Action::Yield(segment)
                    },
                    None => {
                        assert(segment::segment_views(all).len() == 0);
                        if self.end_list {
                            self.pending = Some(pending);
                            Action::End
                        } else {
                            self.phase = Phase::Requesting;
                            Action::Request
                        }
                    },
                }
            },
            None => {
                self.phase = Phase::Requesting;
                Action::Request
            },
        }
    }

    /// Goes on after something has happened.
    pub fn step(&mut self, event: Event<String, Resolved>) -> (step: Step<
        Segment<String, Vec<u8>>,
        SegmentError<String>,
    >)
        ensures
            (final(self)@, step@) == stepped(old(self)@, event@),
    {
        match (self.phase, event) {
            (Phase::Sleeping, Event::Woke) => {
                self.phase = Phase::Idle;
                let action = self.advance();
                Step { action, progress: 0 }
            },
            (Phase::Requesting, Event::Failed(cause)) => Step {
                action: Action::Fail(SegmentError::Request(cause)),
                progress: 0,
            },
            (Phase::Requesting, Event::Fetched { resolved, end_list, target_duration }) => {
                self.phase = Phase::Idle;
                match self.accept(resolved, end_list) {
                    Err(e) => Step { action: Action::Fail(e), progress: 0 },
                    Ok(count) => if count == 0 {
                        self.phase = Phase::Sleeping;
                        Step { action: Action::Sleep(target_duration), progress: 0 }
                    } else {
                        let progress: u64 = if self.watched {
                            count
                        } else {
                            0
                        };
                        let action = self.advance();
                        Step { action, progress }
                    },
                }
            },
            (Phase::Idle, _) => {
                let action = self.advance();
                Step { action, progress: 0 }
            },
            _ => Step { action: Action::Wait, progress: 0 },
        }
    }

    /// Goes on after the playlist has come.
    pub fn receive(&mut self, playlist: &MediaPlaylist) -> (step: Step<
        Segment<String, Vec<u8>>,
        SegmentError<String>,
    >)
        ensures
            (final(self)@, step@) == stepped(old(self)@, fetched(old(self)@, playlist@)),
    {
        let resolved = segment::resolve_segments(self.url.as_str(), playlist, self.seq);
        self.step(
            Event::Fetched {
                resolved,
                end_list: playlist.end_list,
                target_duration: playlist.target_duration,
            },
        )
    }

    /// Goes on after the bytes of the playlist have come. Bytes that cannot be read are a
    /// failure where the playlist was asked for, and nothing elsewhere.
    pub fn receive_bytes(&mut self, bytes: &[u8]) -> (step: Step<
        Segment<String, Vec<u8>>,
        SegmentError<String>,
    >)
        ensures
            match playlist::media_playlist_of(bytes@) {
                Some(playlist) => (final(self)@, step@) == stepped(
                    old(self)@,
                    fetched(old(self)@, playlist),
                ),
                None => if old(self)@.phase == Phase::Requesting {
                    final(self)@ == old(self)@ && step@ == (Step {
                        action: ActionView::Fail(SegmentError::Playlist),
                        progress: 0,
                    })
                } else {
                    (final(self)@, step@) == stepped(old(self)@, Event::Poll)
                },
            },
    {
        match playlist::parse_media_playlist(bytes) {
            Ok(playlist) => self.receive(&playlist),
            Err(_) => match self.phase {
                Phase::Requesting => Step {
                    action: Action::Fail(SegmentError::Playlist),
                    progress: 0,
                },
                _ => self.step(Event::Poll),
            },
        }
    }
}

/// The same segments in a queue.
fn queue_of(segments: Vec<Segment<String, Vec<u8>>>) -> (queue: VecDeque<
    Segment<String, Vec<u8>>,
>)
    ensures
        queue@ == segments@,
{
    let ghost all = segments@;
    let mut segments = segments;
    let mut queue: VecDeque<Segment<String, Vec<u8>>> = VecDeque::new();
    assert(segments@ + queue@ == all);
    loop
        invariant
            segments@ + queue@ == all,
        ensures
            queue@ == all,
        decreases segments@.len(),
    {
        let ghost before = segments@ + queue@;
        match segments.pop() {
            Some(segment) => {
                queue.push_front(segment);
                assert(segments@ + queue@ == before);
            },
            None => {
                assert(segments@ + queue@ == queue@);
                break;
            },
        }
    }
    queue
}

/// Why a playlist cannot be downloaded. `T` is text.
#[derive(Debug, PartialEq, Eq)]
pub enum ResolveError<T> {
    /// No variant shows moving pictures.
    NoVariant,
    /// Why the URI of a stream is no URL.
    Url(T),
    /// The segments cannot be downloaded.
    Segment(SegmentError<T>),
}

impl View for ResolveError<String> {
    type V = ResolveError<Seq<char>>;

    open spec fn view(&self) -> ResolveError<Seq<char>> {
        match self {
            ResolveError::NoVariant => ResolveError::NoVariant,
            ResolveError::Url(cause) => ResolveError::Url(cause@),
            ResolveError::Segment(e) => ResolveError::Segment(e@),
        }
    }
}

/// The streams whose playlists are at the first `n` of `links`.
pub open spec fn streams_at(links: Seq<Result<Seq<char>, Seq<char>>>, n: nat) -> Result<
    Seq<StreamView>,
    ResolveError<Seq<char>>,
>
    decreases n,
{
    if n == 0 {
        Ok(seq![])
    } else {
        match (streams_at(links, (n - 1) as nat), links[n - 1]) {
            (Err(e), _) => Err(e),
            (Ok(_), Err(cause)) => Err(ResolveError::Url(cause)),
            (Ok(streams), Ok(url)) => Ok(streams.push(new_stream(url))),
        }
    }
}

/// The streams of a playlist at `url`: those that a master playlist leads to, of the worst
/// quality if that is asked for, or the one of a media playlist, with its segments.
pub open spec fn streams_of(url: Seq<char>, playlist: PlaylistView, worst: bool) -> Result<
    Seq<StreamView>,
    ResolveError<Seq<char>>,
> {
    match playlist {
        PlaylistView::MasterPlaylist(playlist) => match variant::selected_uris(playlist, worst) {
            None => Err(ResolveError::NoVariant),
            Some(uris) => streams_at(
                uris.map_values(|uri: Seq<char>| url::url_joined(url, uri)),
                uris.len(),
            ),
        },
        PlaylistView::MediaPlaylist(playlist) => {
            let stream = new_stream(url);
            match accepted(stream, resolved_for(stream, playlist), playlist.end_list) {
                (fed, Ok(_)) => Ok(seq![fed]),
                (_, Err(e)) => Err(ResolveError::Segment(e)),
            }
        },
    }
}

/// The view of streams or of an error.
pub open spec fn streams_view(
    streams: Result<Vec<SegmentStream>, ResolveError<String>>,
) -> Result<Seq<StreamView>, ResolveError<Seq<char>>> {
    match streams {
        Ok(streams) => Ok(streams@.map_values(|stream: SegmentStream| stream@)),
        Err(e) => Err(e@),
    }
}

proof fn lemma_first_bad_link(links: Seq<Result<Seq<char>, Seq<char>>>, n: nat, m: nat)
    requires
        n <= m,
    ensures
        streams_at(links, n) matches Err(e) ==> streams_at(links, m) == Err::<
            Seq<StreamView>,
            _,
        >(e),
    decreases m,
{
    if n < m {
        lemma_first_bad_link(links, n, (m - 1) as nat);
    }
}

/// The streams whose playlists are at `links`, or why one of them is no URL.
pub fn open_streams(links: &Vec<Result<String, String>>) -> (streams: Result<
    Vec<SegmentStream>,
    ResolveError<String>,
>)
    ensures
        streams_view(streams) == streams_at(text::text_results(links@), links@.len()),
{
    let ghost all = text::text_results(links@);
    let mut streams: Vec<SegmentStream> = Vec::new();
    let mut i: usize = 0;
    assert(streams@.map_values(|stream: SegmentStream| stream@) == Seq::<StreamView>::empty());
    while i < links.len()
        invariant
            i <= links.len(),
            all == text::text_results(links@),
            streams_at(all, i as nat) == Ok::<_, ResolveError<Seq<char>>>(
                streams@.map_values(|stream: SegmentStream| stream@),
            ),
        decreases links.len() - i,
    {
        let ghost before = streams@.map_values(|stream: SegmentStream| stream@);
        proof {
            assert(all[i as int] == text::text_result(links@[i as int]));
            lemma_first_bad_link(all, (i + 1) as nat, all.len());
        }
        match &links[i] {
            Ok(url) => {
                streams.push(SegmentStream::new(url.clone()));
                assert(streams@.map_values(|stream: SegmentStream| stream@) == before.push(
                    streams@.last()@,
                ));
            },
            Err(cause) => {
                return Err(ResolveError::Url(cause.clone()));
            },
        }
        i = i + 1;
    }
    Ok(streams)
}

/// The streams of a playlist at `url`, of the worst quality where it offers several and
/// `worst` says so, else of the best.
pub fn resolve_playlist(url: &str, playlist: &Playlist, worst: bool) -> (streams: Result<
    Vec<SegmentStream>,
    ResolveError<String>,
>)
    ensures
        streams_view(streams) == streams_of(url@, playlist@, worst),
{
    match playlist {
        Playlist::MasterPlaylist(playlist) => match variant::select_uris(playlist, worst) {
            None => Err(ResolveError::NoVariant),
            Some(uris) => {
                let mut links: Vec<Result<String, String>> = Vec::new();
                let mut i: usize = 0;
                while i < uris.len()
                    invariant
                        i == links.len(),
                        i <= uris.len(),
                        forall|j: int|
                            0 <= j < i ==> text::text_result(#[trigger] links@[j])
                                == url::url_joined(url@, uris@[j]@),
                    decreases uris.len() - i,
                {
                    links.push(url::join(url, uris[i].as_str()));
                    i = i + 1;
                }
                assert(text::text_results(links@) == variant::texts(uris@).map_values(
                    |uri: Seq<char>| url::url_joined(url@, uri),
                ));
                open_streams(&links)
            },
        },
        Playlist::MediaPlaylist(playlist) => {
            let mut stream = SegmentStream::new(url.to_owned());
            match stream.feed_playlist(playlist) {
                Ok(_) => {
                    let mut streams: Vec<SegmentStream> = Vec::new();
                    streams.push(stream);
                    assert(streams@.map_values(|stream: SegmentStream| stream@) == seq![stream@]);
                    Ok(streams)
                },
                Err(e) => Err(ResolveError::Segment(e)),
            }
        },
    }
}

/// The streams of the playlist `bytes` at `url`. Nothing, where the bytes are no playlist.
pub fn open_playlist(url: &str, bytes: &[u8], worst: bool) -> (streams: Option<
    Result<Vec<SegmentStream>, ResolveError<String>>,
>)
    ensures
        match streams {
            Some(streams) => playlist::playlist_of(bytes@) matches Some(playlist)
                && streams_view(streams) == streams_of(url@, playlist, worst),
            None => playlist::playlist_of(bytes@) is None,
        },
{
    match playlist::parse_playlist(bytes) {
        Ok(playlist) => Some(resolve_playlist(url, &playlist, worst)),
        Err(_) => None,
    }
}

/// The segments that are left are in order, and none comes before the one that was handed
/// out last.
pub open spec fn well_ordered(stream: StreamView) -> bool {
    stream.pending matches Some(pending) ==> {
        &&& segment::in_order(pending)
        &&& stream.seq matches Some(seq) ==> forall|i: int|
            0 <= i < pending.len() ==> seq <= (#[trigger] pending[i]).seq
    }
}

/// The segments that an event brings are in order and new to the stream.
pub open spec fn brings_new_segments(stream: StreamView, event: EventView) -> bool {
    event matches Event::Fetched { resolved: Ok(segments), .. } ==> segment::in_order(segments)
        && segment::all_after(segments, stream.seq)
}

/// Segments are handed out in the order of their numbers, whatever happens.
pub proof fn law_segments_come_in_order(stream: StreamView, event: EventView)
    requires
        well_ordered(stream),
        brings_new_segments(stream, event),
    ensures
        well_ordered(stepped(stream, event).0),
        stepped(stream, event).1.action matches Action::Yield(segment) ==> {
            &&& stepped(stream, event).0.seq == Some(segment.seq)
            &&& stream.seq matches Some(seq) ==> seq <= segment.seq
        },
        !(stepped(stream, event).1.action is Yield) ==> stepped(stream, event).0.seq == stream.seq,
{
}

/// A playlist that comes brings segments in order that are new to the stream, so that the
/// first of them has a higher number than any that was handed out.
pub proof fn law_playlists_bring_new_segments(
    stream: StreamView,
    playlist: playlist::MediaPlaylistView,
)
    ensures
        brings_new_segments(stream, fetched(stream, playlist)),
        stream.phase == Phase::Requesting && stepped(
            stream,
            fetched(stream, playlist),
        ).1.action is Yield && stream.seq is Some ==> stream.seq->0 < stepped(
            stream,
            fetched(stream, playlist),
        ).1.action->Yield_0.seq,
{
    segment::law_only_new_segments_in_order(
        playlist.segments,
        segment::all_links(stream.url, playlist.segments),
        playlist.media_sequence,
        stream.seq,
        playlist.segments.len(),
    );
}

/// A new stream, and one that was fed a playlist, is well ordered and waits for nothing.
pub proof fn law_streams_start_well_ordered(
    url: Seq<char>,
    playlist: playlist::MediaPlaylistView,
)
    ensures
        well_ordered(new_stream(url)),
        settled(new_stream(url)),
        settled(
            accepted(
                new_stream(url),
                resolved_for(new_stream(url), playlist),
                playlist.end_list,
            ).0,
        ),
        well_ordered(
            accepted(
                new_stream(url),
                resolved_for(new_stream(url), playlist),
                playlist.end_list,
            ).0,
        ),
{
    law_playlists_bring_new_segments(new_stream(url), playlist);
}

/// A stream that has ended stays ended.
pub proof fn law_end_is_final(stream: StreamView, event: EventView, later: EventView)
    requires
        stepped(stream, event).1.action is End,
    ensures
        stepped(stepped(stream, event).0, later).1.action is End,
        stepped(stepped(stream, event).0, later).0 == stepped(stream, event).0,
{
}

/// A stream ends only after a complete playlist, all of whose segments were handed out.
pub proof fn law_end_means_complete(stream: StreamView, event: EventView)
    requires
        stepped(stream, event).1.action is End,
    ensures
        stepped(stream, event).0.end_list,
        stepped(stream, event).0.pending matches Some(pending) && pending.len() == 0,
{
}

/// A stream waits before it asks again exactly where a playlist brought nothing new, and it
/// waits for the target duration.
pub proof fn law_waits_when_nothing_is_new(stream: StreamView, event: EventView)
    ensures
        stepped(stream, event).1.action is Sleep <==> stream.phase == Phase::Requesting && (
        event matches Event::Fetched { resolved: Ok(segments), .. } && segments.len() == 0),
        stepped(stream, event).1.action matches Action::Sleep(duration) ==> event
            is Fetched && duration == event->target_duration,
{
}

/// While somebody watches, the steps account for every segment that comes.
pub proof fn law_progress_counts_every_segment(stream: StreamView, event: EventView)
    requires
        stream.watched,
    ensures
        stepped(stream, event).0.watched,
        stepped(stream, event).0.len == stream.len + stepped(stream, event).1.progress,
{
}

/// The segments that are left.
pub open spec fn rest(stream: StreamView) -> Seq<SegmentView> {
    match stream.pending {
        Some(pending) => pending,
        None => seq![],
    }
}

/// The segments that come with an event.
pub open spec fn arrivals(stream: StreamView, event: EventView) -> Seq<SegmentView> {
    match (stream.phase, event) {
        (Phase::Requesting, Event::Fetched { resolved: Ok(segments), .. }) => if stream.len
            + segments.len() > u64::MAX {
            seq![]
        } else {
            segments
        },
        _ => seq![],
    }
}

/// The segment that is handed out, if it is one.
pub open spec fn handed_out(action: ActionView) -> Seq<SegmentView> {
    match action {
        Action::Yield(segment) => seq![segment],
        _ => seq![],
    }
}

/// A stream waits for time to pass, or for a playlist, only when all segments were handed
/// out.
pub open spec fn settled(stream: StreamView) -> bool {
    stream.phase != Phase::Idle ==> rest(stream).len() == 0
}

/// What the first `n` events do to a stream: the state after them, the segments that came,
/// and those that were handed out.
pub open spec fn ran(stream: StreamView, events: Seq<EventView>, n: nat) -> (
    StreamView,
    Seq<SegmentView>,
    Seq<SegmentView>,
)
    decreases n,
{
    if n == 0 {
        (stream, seq![], seq![])
    } else {
        let (before, came, out) = ran(stream, events, (n - 1) as nat);
        let (after, step) = stepped(before, events[n - 1]);
        (
            after,
            came + arrivals(before, events[n - 1]),
            out + handed_out(step.action),
        )
    }
}

/// Whatever happens, every segment that comes is handed out once and in its turn: those
/// that were handed out and those that are left are the ones that have come, in their order.
pub proof fn law_no_segment_is_lost_or_doubled(
    stream: StreamView,
    events: Seq<EventView>,
    n: nat,
)
    requires
        settled(stream),
        n <= events.len(),
    ensures
        settled(ran(stream, events, n).0),
        rest(stream) + ran(stream, events, n).1 == ran(stream, events, n).2 + rest(
            ran(stream, events, n).0,
        ),
    decreases n,
{
    if n == 0 {
        assert(rest(stream) + seq![] == Seq::<SegmentView>::empty() + rest(stream));
    } else {
        law_no_segment_is_lost_or_doubled(stream, events, (n - 1) as nat);
        let (before, came, out) = ran(stream, events, (n - 1) as nat);
        let event = events[n - 1];
        let (after, step) = stepped(before, event);
        lemma_step_keeps_segments(before, event);
        assert((rest(stream) + came) + arrivals(before, event) == rest(stream) + (came + arrivals(
            before,
            event,
        )));
        assert((out + rest(before)) + arrivals(before, event) == out + (rest(before) + arrivals(
            before,
            event,
        )));
        assert(out + (handed_out(step.action) + rest(after)) == (out + handed_out(step.action))
            + rest(after));
    }
}

proof fn lemma_step_keeps_segments(stream: StreamView, event: EventView)
    requires
        settled(stream),
    ensures
        settled(stepped(stream, event).0),
        rest(stream) + arrivals(stream, event) == handed_out(stepped(stream, event).1.action)
            + rest(stepped(stream, event).0),
{
    let (after, step) = stepped(stream, event);
    assert(rest(stream) + arrivals(stream, event) =~= handed_out(step.action) + rest(after));
}

/// Over any events, the segments that are handed out are in the order of their numbers, as
/// long as each playlist brings segments in order that are new to the stream.
pub proof fn law_runs_hand_out_in_order(stream: StreamView, events: Seq<EventView>, n: nat)
    requires
        well_ordered(stream),
        n <= events.len(),
        forall|i: int|
            0 <= i < n ==> brings_new_segments(
                ran(stream, events, i as nat).0,
                #[trigger] events[i],
            ),
    ensures
        segment::in_order(ran(stream, events, n).2),
        well_ordered(ran(stream, events, n).0),
        ran(stream, events, n).2.len() > 0 ==> ran(stream, events, n).0.seq == Some(
            ran(stream, events, n).2.last().seq,
        ),
    decreases n,
{
    if n > 0 {
        law_runs_hand_out_in_order(stream, events, (n - 1) as nat);
        let before = ran(stream, events, (n - 1) as nat).0;
        let out = ran(stream, events, (n - 1) as nat).2;
        let now = ran(stream, events, n).2;
        assert(brings_new_segments(before, events[n - 1]));
        law_segments_come_in_order(before, events[n - 1]);
        let action = stepped(before, events[n - 1]).1.action;
        assert(now == out + handed_out(action));
        if let Action::Yield(segment) = action {
            assert(now =~= out.push(segment));
            assert forall|i: int, j: int| 0 <= i <= j < now.len() implies (#[trigger] now[i]).seq
                <= (#[trigger] now[j]).seq by {
                if i < out.len() {
                    assert(out[i].seq <= out.last().seq);
                }
            }
        } else {
            assert(now =~= out);
        }
    }
}

/// Asking `n` times for the next segment: the state after it, and what was to be done.
pub open spec fn polled(stream: StreamView, n: nat) -> (StreamView, Seq<ActionView>)
    decreases n,
{
    if n == 0 {
        (stream, seq![])
    } else {
        let (before, actions) = polled(stream, (n - 1) as nat);
        let (after, step) = stepped(before, Event::Poll);
        (after, actions.push(step.action))
    }
}

/// All segments that have come are handed out, one at each request and in their order. Then
/// the stream ends if the playlist was complete, and asks for the playlist again if not.
pub proof fn law_all_segments_are_handed_out(stream: StreamView, pending: Seq<SegmentView>)
    requires
        stream.phase == Phase::Idle,
        stream.pending == Some(pending),
    ensures
        polled(stream, pending.len()).1 == pending.map_values(
            |segment: SegmentView| ActionView::Yield(segment),
        ),
        stepped(polled(stream, pending.len()).0, Event::Poll).1.action == (if stream.end_list {
            ActionView::End
        } else {
            ActionView::Request
        }),
{
    lemma_polled(stream, pending, pending.len());
    assert(pending.take(pending.len() as int) == pending);
}

proof fn lemma_polled(stream: StreamView, pending: Seq<SegmentView>, n: nat)
    requires
        stream.phase == Phase::Idle,
        stream.pending == Some(pending),
        n <= pending.len(),
    ensures
        polled(stream, n).1 == pending.take(n as int).map_values(
            |segment: SegmentView| ActionView::Yield(segment),
        ),
        polled(stream, n).0.pending == Some(pending.skip(n as int)),
        polled(stream, n).0.phase == Phase::Idle,
        polled(stream, n).0.end_list == stream.end_list,
    decreases n,
{
    if n == 0 {
        assert(pending.skip(0) == pending);
        assert(polled(stream, 0).1 == pending.take(0).map_values(
            |segment: SegmentView| ActionView::Yield(segment),
        ));
    } else {
        lemma_polled(stream, pending, (n - 1) as nat);
        assert(pending.skip(n - 1).skip(1) == pending.skip(n as int));
        assert(pending.skip(n - 1)[0] == pending[n - 1]);
        assert(polled(stream, n).1 == pending.take(n as int).map_values(
            |segment: SegmentView| ActionView::Yield(segment),
        ));
    }
}

/// A master playlist leads to one stream or two, none of which has any segments yet.
pub proof fn law_master_playlists_lead_to_new_streams(
    url: Seq<char>,
    playlist: playlist::MasterPlaylistView,
    worst: bool,
)
    ensures
        streams_of(url, PlaylistView::MasterPlaylist(playlist), worst) matches Ok(streams) ==> {
            &&& 1 <= streams.len() <= 2
            &&& forall|i: int|
                0 <= i < streams.len() ==> #[trigger] streams[i] == new_stream(streams[i].url)
        },
{
    variant::law_one_or_two_streams(playlist, worst);
    if let Some(uris) = variant::selected_uris(playlist, worst) {
        lemma_streams_are_new(
            uris.map_values(|uri: Seq<char>| url::url_joined(url, uri)),
            uris.len(),
        );
    }
}

/// A master playlist without alternatives leads to the stream of one variant: the one of
/// lowest bandwidth where the worst is asked for, and of highest where not.
pub proof fn law_quality_is_as_asked_for(
    url: Seq<char>,
    playlist: playlist::MasterPlaylistView,
    worst: bool,
    i: int,
)
    requires
        playlist.alternatives.len() == 0,
        variant::is_chosen_variant(playlist.variants, worst, i),
    ensures
        streams_of(url, PlaylistView::MasterPlaylist(playlist), worst) == match url::url_joined(
            url,
            playlist.variants[i].uri,
        ) {
            Ok(at) => Ok::<_, ResolveError<Seq<char>>>(seq![new_stream(at)]),
            Err(cause) => Err(ResolveError::Url(cause)),
        },
{
    variant::law_variant_without_alternatives(playlist, worst, i);
    let uris = seq![playlist.variants[i].uri];
    let links = uris.map_values(|uri: Seq<char>| url::url_joined(url, uri));
    reveal_with_fuel(streams_at, 2);
    assert(links[0] == url::url_joined(url, playlist.variants[i].uri));
    if let Ok(at) = links[0] {
        assert(streams_at(links, 1)->Ok_0 =~= seq![new_stream(at)]);
    }
}

proof fn lemma_streams_are_new(links: Seq<Result<Seq<char>, Seq<char>>>, n: nat)
    ensures
        streams_at(links, n) matches Ok(streams) ==> {
            &&& streams.len() == n
            &&& forall|i: int|
                0 <= i < streams.len() ==> #[trigger] streams[i] == new_stream(streams[i].url)
        },
    decreases n,
{
    if n > 0 {
        lemma_streams_are_new(links, (n - 1) as nat);
    }
}

/// A playlist that is accepted says whether more will come, also where it brings no new
/// segment: the stream is complete exactly where the playlist is. Its segments are those to
/// hand out next, and they are counted. Nothing else of the stream changes. A playlist that
/// cannot be used, or that brings more segments than can be counted, changes nothing.
pub proof fn law_playlist_says_whether_more_will_come(
    stream: StreamView,
    resolved: ResolvedView,
    end_list: bool,
)
    ensures
        ({
            let (after, count) = accepted(stream, resolved, end_list);
            &&& after.url == stream.url
            &&& after.phase == stream.phase
            &&& after.seq == stream.seq
            &&& after.watched == stream.watched
            &&& count is Ok <==> (resolved matches Ok(segments) && stream.len + segments.len()
                <= u64::MAX)
            &&& count is Ok ==> {
                &&& after.end_list == end_list
                &&& after.pending == Some(resolved->Ok_0)
                &&& count->Ok_0 == resolved->Ok_0.len()
                &&& after.len == stream.len + resolved->Ok_0.len()
            }
            &&& count is Err ==> {
                &&& after == stream
                &&& count->Err_0 == (if resolved is Err {
                    resolved->Err_0
                } else {
                    SegmentError::Overflow
                })
            }
        }),
{
}

/// A stream that waits after a playlist without new segments ends when it wakes if that
/// playlist was complete, and asks for the playlist again if it was not, whatever the
/// playlists before it were.
pub proof fn law_complete_playlist_without_news_ends_the_stream(
    stream: StreamView,
    end_list: bool,
    target_duration: u32,
)
    requires
        stream.phase == Phase::Requesting,
    ensures
        ({
            let nothing = Event::Fetched { resolved: Ok(seq![]), end_list, target_duration };
            let (asleep, wait) = stepped(stream, nothing);
            let (awake, step) = stepped(asleep, Event::Woke);
            &&& wait.action == ActionView::Sleep(target_duration)
            &&& step.action == (if end_list {
                ActionView::End
            } else {
                ActionView::Request
            })
            &&& awake.phase == (if end_list {
                Phase::Idle
            } else {
                Phase::Requesting
            })
        }),
{
}

/// A stream that waits for nothing, or for no longer, goes on with the segments that are to
/// hand out: the first of them is handed out and is gone. Where there is none left, it ends
/// if the playlist that came last was complete, and asks for the playlist if not.
pub proof fn law_goes_on_with_the_next_segment(stream: StreamView, event: EventView)
    requires
        stream.phase == Phase::Idle || (stream.phase == Phase::Sleeping && event is Woke),
    ensures
        ({
            let (after, step) = stepped(stream, event);
            &&& step.progress == 0
            &&& after.url == stream.url
            &&& after.end_list == stream.end_list
            &&& after.len == stream.len
            &&& after.watched == stream.watched
            &&& if rest(stream).len() > 0 {
                &&& step.action == ActionView::Yield(rest(stream)[0])
                &&& after.seq == Some(rest(stream)[0].seq)
                &&& after.pending == Some(rest(stream).skip(1))
                &&& after.phase == Phase::Idle
            } else {
                &&& after.seq == stream.seq
                &&& if stream.pending is Some && stream.end_list {
                    &&& step.action is End
                    &&& after.pending == stream.pending
                    &&& after.phase == Phase::Idle
                } else {
                    &&& step.action is Request
                    &&& after.pending is None
                    &&& after.phase == Phase::Requesting
                }
            }
        }),
{
}

/// The first new segment of a playlist that was asked for is handed out at once, the others
/// follow, and all of them are new work for whoever watches.
pub proof fn law_new_segments_are_handed_out_at_once(
    stream: StreamView,
    segments: Seq<SegmentView>,
    end_list: bool,
    target_duration: u32,
)
    requires
        stream.phase == Phase::Requesting,
        segments.len() > 0,
        stream.len + segments.len() <= u64::MAX,
    ensures
        ({
            let (after, step) = stepped(
                stream,
                Event::Fetched { resolved: Ok(segments), end_list, target_duration },
            );
            &&& step.action == ActionView::Yield(segments[0])
            &&& step.progress == (if stream.watched {
                segments.len()
            } else {
                0
            })
            &&& after == (StreamView {
                url: stream.url,
                phase: Phase::Idle,
                end_list,
                pending: Some(segments.skip(1)),
                seq: Some(segments[0].seq),
                len: (stream.len + segments.len()) as u64,
                watched: stream.watched,
            })
        }),
{
}

/// What goes wrong is reported as it is. A request that failed is still the one that is
/// waited for; after a playlist that cannot be used the stream waits for nothing.
pub proof fn law_failures_are_reported(
    stream: StreamView,
    cause: Seq<char>,
    e: SegmentErrorView,
    end_list: bool,
    target_duration: u32,
)
    requires
        stream.phase == Phase::Requesting,
    ensures
        stepped(stream, Event::Failed(cause)) == (
            stream,
            Step {
                action: ActionView::Fail(SegmentError::Request(cause)),
                progress: 0,
            },
        ),
        stepped(stream, Event::Fetched { resolved: Err(e), end_list, target_duration }) == (
            StreamView { phase: Phase::Idle, ..stream },
            Step { action: ActionView::Fail(e), progress: 0 },
        ),
{
}

/// Only what is waited for ends a wait: anything else changes nothing.
pub proof fn law_waits_for_what_was_started(stream: StreamView, event: EventView)
    requires
        stream.phase == Phase::Sleeping && !(event is Woke) || stream.phase == Phase::Requesting
            && (event is Poll || event is Woke),
    ensures
        stepped(stream, event) == (stream, Step { action: ActionView::Wait, progress: 0 }),
{
}

/// A playlist that comes is looked at as the stream's own: its URIs are resolved at the URL
/// of the stream, and what has been handed out is passed over.
pub proof fn law_playlists_are_resolved_for_the_stream(
    stream: StreamView,
    playlist: playlist::MediaPlaylistView,
)
    ensures
        fetched(stream, playlist) == (Event::<Seq<char>, ResolvedView>::Fetched {
            resolved: segment::resolved_segments(
                playlist,
                segment::all_links(stream.url, playlist.segments),
                stream.seq,
            ),
            end_list: playlist.end_list,
            target_duration: playlist.target_duration,
        }),
        resolved_for(stream, playlist) == segment::resolved_segments(
            playlist,
            segment::all_links(stream.url, playlist.segments),
            stream.seq,
        ),
{
}

/// A master playlist gives one stream for each URI that is selected, in their order: a new
/// one, at what the URI means at the URL of the playlist.
pub proof fn law_every_selected_uri_is_a_stream(
    url: Seq<char>,
    playlist: playlist::MasterPlaylistView,
    worst: bool,
)
    requires
        streams_of(url, PlaylistView::MasterPlaylist(playlist), worst) is Ok,
    ensures
        variant::selected_uris(playlist, worst) matches Some(uris) && {
            let streams = streams_of(url, PlaylistView::MasterPlaylist(playlist), worst)->Ok_0;
            &&& streams.len() == uris.len()
            &&& forall|i: int|
                0 <= i < uris.len() ==> {
                    &&& url::url_joined(url, #[trigger] uris[i]) is Ok
                    &&& streams[i].url == url::url_joined(url, uris[i])->Ok_0
                    &&& streams[i].phase == Phase::Idle
                    &&& streams[i].pending is None
                    &&& streams[i].seq is None
                    &&& streams[i].len == 0
                    &&& !streams[i].end_list
                    &&& !streams[i].watched
                }
        },
{
    let uris = variant::selected_uris(playlist, worst)->0;
    let links = uris.map_values(|uri: Seq<char>| url::url_joined(url, uri));
    lemma_streams_at_links(links, uris.len());
    assert forall|i: int| 0 <= i < uris.len() implies links[i] == url::url_joined(
        url,
        #[trigger] uris[i],
    ) by {}
    let streams = streams_at(links, uris.len())->Ok_0;
    assert forall|i: int| 0 <= i < uris.len() implies {
        &&& url::url_joined(url, #[trigger] uris[i]) is Ok
        &&& streams[i] == new_stream(url::url_joined(url, uris[i])->Ok_0)
    } by {
        assert(links[i] is Ok);
    }
}

/// A master playlist fails where nothing can be selected, or with the first selected URI
/// that is no URL, and nowhere else.
pub proof fn law_master_playlists_fail_at_the_first_bad_uri(
    url: Seq<char>,
    playlist: playlist::MasterPlaylistView,
    worst: bool,
)
    ensures
        variant::selected_uris(playlist, worst) is None ==> streams_of(
            url,
            PlaylistView::MasterPlaylist(playlist),
            worst,
        ) == Err::<Seq<StreamView>, ResolveError<Seq<char>>>(ResolveError::NoVariant),
        variant::selected_uris(playlist, worst) matches Some(uris) ==> (streams_of(
            url,
            PlaylistView::MasterPlaylist(playlist),
            worst,
        ) matches Err(e) ==> exists|i: int|
            {
                &&& 0 <= i < uris.len()
                &&& url::url_joined(url, #[trigger] uris[i]) is Err
                &&& e == ResolveError::Url(url::url_joined(url, uris[i])->Err_0)
                &&& forall|j: int| 0 <= j < i ==> url::url_joined(url, #[trigger] uris[j]) is Ok
            }),
{
    if let Some(uris) = variant::selected_uris(playlist, worst) {
        let links = uris.map_values(|uri: Seq<char>| url::url_joined(url, uri));
        if let Err(e) = streams_at(links, uris.len()) {
            lemma_streams_at_links(links, uris.len());
            let i = choose|i: int|
                {
                    &&& 0 <= i < uris.len()
                    &&& (#[trigger] links[i]) is Err
                    &&& e == ResolveError::Url(links[i]->Err_0)
                    &&& forall|j: int| 0 <= j < i ==> (#[trigger] links[j]) is Ok
                };
            assert(links[i] == url::url_joined(url, uris[i]));
            assert forall|j: int| 0 <= j < i implies url::url_joined(
                url,
                #[trigger] uris[j],
            ) is Ok by {
                assert(links[j] is Ok);
            }
        }
    }
}

/// Links lead to streams, one for each and in their order; where one leads nowhere, the
/// first such is reported.
pub proof fn law_every_link_is_a_stream(links: Seq<Result<Seq<char>, Seq<char>>>)
    ensures
        match streams_at(links, links.len()) {
            Ok(streams) => {
                &&& streams.len() == links.len()
                &&& forall|i: int|
                    0 <= i < links.len() ==> (#[trigger] links[i]) is Ok && streams[i]
                        == new_stream(links[i]->Ok_0)
            },
            Err(e) => exists|i: int|
                {
                    &&& 0 <= i < links.len()
                    &&& (#[trigger] links[i]) is Err
                    &&& e == ResolveError::Url(links[i]->Err_0)
                    &&& forall|j: int| 0 <= j < i ==> (#[trigger] links[j]) is Ok
                },
        },
{
    lemma_streams_at_links(links, links.len());
}

proof fn lemma_streams_at_links(links: Seq<Result<Seq<char>, Seq<char>>>, n: nat)
    requires
        n <= links.len(),
    ensures
        match streams_at(links, n) {
            Ok(streams) => {
                &&& streams.len() == n
                &&& forall|i: int|
                    0 <= i < n ==> (#[trigger] links[i]) is Ok && streams[i] == new_stream(
                        links[i]->Ok_0,
                    )
            },
            Err(e) => exists|i: int|
                {
                    &&& 0 <= i < n
                    &&& (#[trigger] links[i]) is Err
                    &&& e == ResolveError::Url(links[i]->Err_0)
                    &&& forall|j: int| 0 <= j < i ==> (#[trigger] links[j]) is Ok
                },
        },
    decreases n,
{
    if n > 0 {
        lemma_streams_at_links(links, (n - 1) as nat);
        if streams_at(links, (n - 1) as nat) is Ok && links[n - 1] is Err {
            assert(links[n - 1] is Err);
        }
    }
}

/// A media playlist is a stream of its own, at its own URL, that starts with all of its
/// segments and is complete where the playlist is. It fails where its segments do.
pub proof fn law_media_playlist_is_a_stream(
    url: Seq<char>,
    playlist: playlist::MediaPlaylistView,
    worst: bool,
)
    ensures
        match segment::resolved_segments(
            playlist,
            segment::all_links(url, playlist.segments),
            None,
        ) {
            Ok(segments) => segments.len() <= u64::MAX ==> streams_of(
                url,
                PlaylistView::MediaPlaylist(playlist),
                worst,
            ) == Ok::<_, ResolveError<Seq<char>>>(
                seq![
                    StreamView {
                        url,
                        phase: Phase::Idle,
                        end_list: playlist.end_list,
                        pending: Some(segments),
                        seq: None,
                        len: segments.len() as u64,
                        watched: false,
                    },
                ],
            ),
            Err(e) => streams_of(url, PlaylistView::MediaPlaylist(playlist), worst) == Err::<
                Seq<StreamView>,
                _,
            >(ResolveError::Segment(e)),
        },
{
}

/// In specifications steps, events and outcomes are what they are.
pub proof fn law_steps_are_seen_whole(
    step: Step<Segment<String, Vec<u8>>, SegmentError<String>>,
    event: Event<String, Resolved>,
    count: Result<u64, SegmentError<String>>,
)
    ensures
        step@.progress == step.progress,
        match step.action {
            Action::Wait => step@.action is Wait,
            Action::Yield(segment) => step@.action == ActionView::Yield(segment@),
            Action::Fail(e) => step@.action == ActionView::Fail(e@),
            Action::End => step@.action is End,
            Action::Sleep(duration) => step@.action == ActionView::Sleep(duration),
            Action::Request => step@.action is Request,
        },
        match event {
            Event::Poll => event@ is Poll,
            Event::Woke => event@ is Woke,
            Event::Failed(cause) => event@ == EventView::Failed(cause@),
            Event::Fetched { resolved, end_list, target_duration } => event@ == (
            EventView::Fetched {
                resolved: segment::segments_view(resolved),
                end_list,
                target_duration,
            }),
        },
        count matches Ok(n) ==> count_view(count) == Ok::<_, SegmentErrorView>(n),
        count matches Err(e) ==> count_view(count) == Err::<u64, _>(e@),
{
}

/// In specifications no stream is left out or added.
pub proof fn law_streams_are_seen_whole(
    streams: Result<Vec<SegmentStream>, ResolveError<String>>,
)
    ensures
        match streams {
            Ok(list) => streams_view(streams) matches Ok(seen) && seen.len() == list@.len()
                && forall|i: int| 0 <= i < list@.len() ==> #[trigger] seen[i] == list@[i]@,
            Err(ResolveError::NoVariant) => streams_view(streams) == Err::<
                Seq<StreamView>,
                ResolveError<Seq<char>>,
            >(ResolveError::NoVariant),
            Err(ResolveError::Url(cause)) => streams_view(streams) == Err::<Seq<StreamView>, _>(
                ResolveError::Url(cause@),
            ),
            Err(ResolveError::Segment(e)) => streams_view(streams) == Err::<Seq<StreamView>, _>(
                ResolveError::Segment(e@),
            ),
        },
{
}

/// A playlist that brings more segments than can be counted is a failure like any other.
pub proof fn law_too_many_segments_are_a_failure(
    stream: StreamView,
    segments: Seq<SegmentView>,
    end_list: bool,
    target_duration: u32,
)
    requires
        stream.phase == Phase::Requesting,
        stream.len + segments.len() > u64::MAX,
        segments.len() > 0,
    ensures
        stepped(stream, Event::Fetched { resolved: Ok(segments), end_list, target_duration }) == (
            StreamView { phase: Phase::Idle, ..stream },
            Step { action: ActionView::Fail(SegmentError::Overflow), progress: 0 },
        ),
{
}

/// Whatever happens, a stream stays where it is and stays watched or not; it counts what
/// comes and nothing else; where it stands moves only with a segment that is handed out; and
/// whether more will come is said only by a playlist that was asked for and can be used.
pub proof fn law_steps_change_nothing_else(stream: StreamView, event: EventView)
    ensures
        ({
            let (after, step) = stepped(stream, event);
            &&& after.url == stream.url
            &&& after.watched == stream.watched
            &&& after.len == stream.len + arrivals(stream, event).len()
            &&& step.progress == (if stream.watched {
                arrivals(stream, event).len()
            } else {
                0
            })
            &&& match step.action {
                Action::Yield(segment) => after.seq == Some(segment.seq),
                _ => after.seq == stream.seq,
            }
            &&& match event {
                Event::Fetched { resolved: Ok(segments), end_list, .. } => after.end_list == (if stream.phase
                    == Phase::Requesting && stream.len + segments.len() <= u64::MAX {
                    end_list
                } else {
                    stream.end_list
                }),
                _ => after.end_list == stream.end_list,
            }
        }),
{
}

} // verus!
