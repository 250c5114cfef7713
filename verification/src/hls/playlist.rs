//! Playlists: what of them matters for a download, and how they are read.
//!
//! Where a type has a parameter `T`, it is text: `String` in running code, `Seq<char>` in
//! specifications.

use crate::text;
use vstd::prelude::*;

verus! {

/// How segments are encrypted.
#[derive(Debug, PartialEq, Eq)]
pub enum KeyMethod<T> {
    /// Not at all.
    Clear,
    /// AES-128 in CBC mode.
    AES128,
    /// Single samples are encrypted.
    SampleAES,
    /// Another method, by its name.
    Other(T),
}

/// The key of the segments that follow.
#[derive(Debug, PartialEq, Eq)]
pub struct Key<T> {
    pub method: KeyMethod<T>,
    pub uri: Option<T>,
    pub iv: Option<T>,
}

/// A segment of a media playlist. The key and the URI of the initialisation section are
/// there where they are set anew.
#[derive(Debug, PartialEq, Eq)]
pub struct MediaSegment<T> {
    pub uri: T,
    pub key: Option<Key<T>>,
    pub map: Option<T>,
}

/// A list of segments.
#[derive(Debug, PartialEq, Eq)]
pub struct MediaPlaylist {
    /// The longest duration of a segment in seconds, as the bits of a single precision
    /// number.
    pub target_duration: u32,
    /// The number of the first segment.
    pub media_sequence: u64,
    pub segments: Vec<MediaSegment<String>>,
    /// No segment will be added.
    pub end_list: bool,
}

/// One rendition of the content.
#[derive(Debug, PartialEq, Eq)]
pub struct VariantStream<T> {
    pub is_i_frame: bool,
    pub uri: T,
    pub bandwidth: u64,
    /// The group of alternatives for sound.
    pub audio: Option<T>,
    /// The group of alternatives for the picture.
    pub video: Option<T>,
}

/// A rendition that belongs to a group.
#[derive(Debug, PartialEq, Eq)]
pub struct AlternativeMedia<T> {
    pub uri: Option<T>,
    pub group_id: T,
    pub default: bool,
    pub autoselect: bool,
}

/// A list of renditions.
#[derive(Debug, PartialEq, Eq)]
pub struct MasterPlaylist {
    pub variants: Vec<VariantStream<String>>,
    pub alternatives: Vec<AlternativeMedia<String>>,
}

/// A playlist of either kind.
#[derive(Debug, PartialEq, Eq)]
pub enum Playlist {
    MasterPlaylist(MasterPlaylist),
    MediaPlaylist(MediaPlaylist),
}

/// A media playlist in specifications.
pub struct MediaPlaylistView {
    pub target_duration: u32,
    pub media_sequence: u64,
    pub segments: Seq<MediaSegment<Seq<char>>>,
    pub end_list: bool,
}

/// A master playlist in specifications.
pub struct MasterPlaylistView {
    pub variants: Seq<VariantStream<Seq<char>>>,
    pub alternatives: Seq<AlternativeMedia<Seq<char>>>,
}

/// A playlist in specifications.
pub enum PlaylistView {
    MasterPlaylist(MasterPlaylistView),
    MediaPlaylist(MediaPlaylistView),
}

impl View for KeyMethod<String> {
    type V = KeyMethod<Seq<char>>;

    open spec fn view(&self) -> KeyMethod<Seq<char>> {
        match self {
            KeyMethod::Clear => KeyMethod::Clear,
            KeyMethod::AES128 => KeyMethod::AES128,
            KeyMethod::SampleAES => KeyMethod::SampleAES,
            KeyMethod::Other(name) => KeyMethod::Other(name@),
        }
    }
}

impl View for Key<String> {
    type V = Key<Seq<char>>;

    open spec fn view(&self) -> Key<Seq<char>> {
        Key {
            method: self.method@,
            uri: text::opt_text(self.uri),
            iv: text::opt_text(self.iv),
        }
    }
}

impl View for MediaSegment<String> {
    type V = MediaSegment<Seq<char>>;

    open spec fn view(&self) -> MediaSegment<Seq<char>> {
        MediaSegment {
            uri: self.uri@,
            key: match self.key {
                Some(key) => Some(key@),
                None => None,
            },
            map: text::opt_text(self.map),
        }
    }
}

impl View for MediaPlaylist {
    type V = MediaPlaylistView;

    open spec fn view(&self) -> MediaPlaylistView {
        MediaPlaylistView {
            target_duration: self.target_duration,
            media_sequence: self.media_sequence,
            segments: self.segments@.map_values(|segment: MediaSegment<String>| segment@),
            end_list: self.end_list,
        }
    }
}

impl View for VariantStream<String> {
    type V = VariantStream<Seq<char>>;

    open spec fn view(&self) -> VariantStream<Seq<char>> {
        VariantStream {
            is_i_frame: self.is_i_frame,
            uri: self.uri@,
            bandwidth: self.bandwidth,
            audio: text::opt_text(self.audio),
            video: text::opt_text(self.video),
        }
    }
}

impl View for AlternativeMedia<String> {
    type V = AlternativeMedia<Seq<char>>;

    open spec fn view(&self) -> AlternativeMedia<Seq<char>> {
        AlternativeMedia {
            uri: text::opt_text(self.uri),
            group_id: self.group_id@,
            default: self.default,
            autoselect: self.autoselect,
        }
    }
}

impl View for MasterPlaylist {
    type V = MasterPlaylistView;

    open spec fn view(&self) -> MasterPlaylistView {
        MasterPlaylistView {
            variants: self.variants@.map_values(|variant: VariantStream<String>| variant@),
            alternatives: self.alternatives@.map_values(|alt: AlternativeMedia<String>| alt@),
        }
    }
}

impl View for Playlist {
    type V = PlaylistView;

    open spec fn view(&self) -> PlaylistView {
        match self {
            Playlist::MasterPlaylist(playlist) => PlaylistView::MasterPlaylist(playlist@),
            Playlist::MediaPlaylist(playlist) => PlaylistView::MediaPlaylist(playlist@),
        }
    }
}

/// The bytes are no playlist of the kind that was asked for.
#[derive(Debug, Clone, Copy, PartialEq, Eq)]
pub struct ParseError;

/// What reading `bytes` as a media playlist gives.
pub uninterp spec fn media_playlist_of(bytes: Seq<u8>) -> Option<MediaPlaylistView>;

/// What reading `bytes` as a playlist of either kind gives: nothing where they are none, a
/// master playlist, or the finding that they are a media playlist.
pub uninterp spec fn master_playlist_of(bytes: Seq<u8>) -> Option<Option<MasterPlaylistView>>;

/// Calls `m3u8_rs::parse_media_playlist`. The contract claims that what it finds depends on
/// the bytes alone.
#[verifier::external_body]
fn read_media_playlist(bytes: &[u8]) -> (playlist: Option<MediaPlaylist>)
    ensures
        match playlist {
            Some(playlist) => media_playlist_of(bytes@) == Some(playlist@),
            None => media_playlist_of(bytes@) is None,
        },
{
    match m3u8_rs::parse_media_playlist(bytes) {
        Ok((_, p)) => Some(MediaPlaylist {
            target_duration: p.target_duration.to_bits(), media_sequence: p.media_sequence, end_list: p.end_list,
            segments: p.segments.into_iter().map(|s| MediaSegment { uri: s.uri, map: s.map.map(|m| m.uri), key: s.key.map(|k| Key {
                method: match k.method {
                    m3u8_rs::KeyMethod::None => KeyMethod::Clear,
                    m3u8_rs::KeyMethod::AES128 => KeyMethod::AES128,
                    m3u8_rs::KeyMethod::SampleAES => KeyMethod::SampleAES,
                    m3u8_rs::KeyMethod::Other(name) => KeyMethod::Other(name),
                }, uri: k.uri, iv: k.iv }) }).collect(),
        }),
        Err(_) => None,
    }
}

/// Calls `m3u8_rs::parse_playlist`, which tells the two kinds apart by their tags. The
/// contract claims that the kind and the content of a master playlist depend on the bytes
/// alone, and that bytes found to be a media playlist can be read as one:
/// `m3u8_rs::parse_playlist` hands them to `m3u8_rs::parse_media_playlist`.
#[verifier::external_body]
fn read_master_playlist(bytes: &[u8]) -> (playlist: Option<Option<MasterPlaylist>>)
    ensures
        match playlist {
            Some(Some(playlist)) => master_playlist_of(bytes@) == Some(Some(playlist@)),
            Some(None) => master_playlist_of(bytes@) == Some(None::<MasterPlaylistView>)
                && media_playlist_of(bytes@) is Some,
            None => master_playlist_of(bytes@) is None,
        },
{
    match m3u8_rs::parse_playlist(bytes) {
        Ok((_, m3u8_rs::Playlist::MasterPlaylist(p))) => Some(Some(MasterPlaylist {
            variants: p.variants.into_iter().map(|v| VariantStream {
                is_i_frame: v.is_i_frame, uri: v.uri, bandwidth: v.bandwidth, audio: v.audio, video: v.video,
            }).collect(),
            alternatives: p.alternatives.into_iter().map(|a| AlternativeMedia {
                uri: a.uri, group_id: a.group_id, default: a.default, autoselect: a.autoselect,
            }).collect(),
        })),
        Ok((_, m3u8_rs::Playlist::MediaPlaylist(_))) => Some(None),
        Err(_) => None,
    }
}

/// What `bytes` are as a playlist.
pub open spec fn playlist_of(bytes: Seq<u8>) -> Option<PlaylistView> {
    match master_playlist_of(bytes) {
        Some(Some(playlist)) => Some(PlaylistView::MasterPlaylist(playlist)),
        Some(None) => Some(PlaylistView::MediaPlaylist(media_playlist_of(bytes)->0)),
        None => None,
    }
}

/// Reads a playlist of either kind.
pub fn parse_playlist(bytes: &[u8]) -> (playlist: Result<Playlist, ParseError>)
    ensures
        match playlist {
            Ok(playlist) => playlist_of(bytes@) == Some(playlist@),
            Err(_) => playlist_of(bytes@) is None,
        },
{
    match read_master_playlist(bytes) {
        Some(Some(playlist)) => Ok(Playlist::MasterPlaylist(playlist)),
        Some(None) => match read_media_playlist(bytes) {
            Some(playlist) => Ok(Playlist::MediaPlaylist(playlist)),
            None => Err(ParseError),
        },
        None => Err(ParseError),
    }
}

/// Reads a media playlist.
pub fn parse_media_playlist(bytes: &[u8]) -> (playlist: Result<MediaPlaylist, ParseError>)
    ensures
        match playlist {
            Ok(playlist) => media_playlist_of(bytes@) == Some(playlist@),
            Err(_) => media_playlist_of(bytes@) is None,
        },
{
    match read_media_playlist(bytes) {
        Some(playlist) => Ok(playlist),
        None => Err(ParseError),
    }
}

/// What the bytes are found to be is what is read: a master playlist, a media playlist, or
/// nothing.
pub proof fn law_playlists_are_as_found(bytes: Seq<u8>)
    ensures
        master_playlist_of(bytes) matches Some(Some(playlist)) ==> playlist_of(bytes) == Some(
            PlaylistView::MasterPlaylist(playlist),
        ),
        master_playlist_of(bytes) matches Some(None) ==> (media_playlist_of(bytes) matches Some(
            playlist,
        ) ==> playlist_of(bytes) == Some(PlaylistView::MediaPlaylist(playlist))),
        master_playlist_of(bytes) is None ==> playlist_of(bytes) is None,
{
}

/// In specifications a media playlist has the segments that it has.
pub proof fn law_media_playlists_are_seen_whole(playlist: MediaPlaylist, i: int)
    requires
        0 <= i < playlist.segments@.len(),
    ensures
        playlist@.target_duration == playlist.target_duration,
        playlist@.media_sequence == playlist.media_sequence,
        playlist@.end_list == playlist.end_list,
        playlist@.segments.len() == playlist.segments@.len(),
        ({
            let segment = playlist.segments@[i];
            let seen = playlist@.segments[i];
            &&& seen.uri == segment.uri@
            &&& seen.map is Some <==> segment.map is Some
            &&& segment.map is Some ==> seen.map->0 == segment.map->0@
            &&& seen.key is Some <==> segment.key is Some
            &&& segment.key matches Some(key) ==> {
                &&& seen.key->0.uri is Some <==> key.uri is Some
                &&& key.uri is Some ==> seen.key->0.uri->0 == key.uri->0@
                &&& seen.key->0.iv is Some <==> key.iv is Some
                &&& key.iv is Some ==> seen.key->0.iv->0 == key.iv->0@
                &&& match key.method {
                    KeyMethod::Clear => seen.key->0.method == KeyMethod::<Seq<char>>::Clear,
                    KeyMethod::AES128 => seen.key->0.method == KeyMethod::<Seq<char>>::AES128,
                    KeyMethod::SampleAES => seen.key->0.method == KeyMethod::<
                        Seq<char>,
                    >::SampleAES,
                    KeyMethod::Other(name) => seen.key->0.method == KeyMethod::Other(name@),
                }
            }
        }),
{
}

/// In specifications a master playlist has the variants and alternatives that it has.
pub proof fn law_master_playlists_are_seen_whole(playlist: MasterPlaylist)
    ensures
        playlist@.variants.len() == playlist.variants@.len(),
        playlist@.alternatives.len() == playlist.alternatives@.len(),
        forall|i: int|
            #![trigger playlist.variants@[i]]
            #![trigger playlist@.variants[i]]
            0 <= i < playlist.variants@.len() ==> {
                let variant = playlist.variants@[i];
                let seen = playlist@.variants[i];
                &&& seen.is_i_frame == variant.is_i_frame
                &&& seen.uri == variant.uri@
                &&& seen.bandwidth == variant.bandwidth
                &&& seen.audio is Some <==> variant.audio is Some
                &&& variant.audio is Some ==> seen.audio->0 == variant.audio->0@
                &&& seen.video is Some <==> variant.video is Some
                &&& variant.video is Some ==> seen.video->0 == variant.video->0@
            },
        forall|i: int|
            #![trigger playlist.alternatives@[i]]
            #![trigger playlist@.alternatives[i]]
            0 <= i < playlist.alternatives@.len() ==> {
                let alt = playlist.alternatives@[i];
                let seen = playlist@.alternatives[i];
                &&& seen.uri is Some <==> alt.uri is Some
                &&& alt.uri is Some ==> seen.uri->0 == alt.uri->0@
                &&& seen.group_id == alt.group_id@
                &&& seen.default == alt.default
                &&& seen.autoselect == alt.autoselect
            },
{
}

} // verus!
