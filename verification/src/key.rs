//! What makes two tracks the same recording.

use vstd::prelude::*;

use crate::text;

verus! {

/// What identifies a recording: its tags in normal form, its exact file size,
/// its duration to the second, and its track and disc numbers.
#[derive(Debug)]
pub struct TrackKey {
    pub artist: String,
    pub album: String,
    pub title: String,
    pub size: u64,
    pub duration_seconds: u32,
    pub track_number: u32,
    pub disc_number: u32,
}

/// The contents of a [`TrackKey`].
pub struct Identity {
    pub artist: Seq<char>,
    pub album: Seq<char>,
    pub title: Seq<char>,
    pub size: u64,
    pub duration_seconds: u32,
    pub track_number: u32,
    pub disc_number: u32,
}

impl View for TrackKey {
    type V = Identity;

    open spec fn view(&self) -> Identity {
        Identity {
            artist: self.artist@,
            album: self.album@,
            title: self.title@,
            size: self.size,
            duration_seconds: self.duration_seconds,
            track_number: self.track_number,
            disc_number: self.disc_number,
        }
    }
}

impl Clone for TrackKey {
    fn clone(&self) -> (copy: TrackKey)
        ensures
            copy == *self,
    {
        TrackKey {
            artist: self.artist.clone(),
            album: self.album.clone(),
            title: self.title.clone(),
            size: self.size,
            duration_seconds: self.duration_seconds,
            track_number: self.track_number,
            disc_number: self.disc_number,
        }
    }
}

impl PartialEq for TrackKey {
    fn eq(&self, other: &TrackKey) -> (same: bool) {
        self.size == other.size && self.duration_seconds == other.duration_seconds
            && self.track_number == other.track_number && self.disc_number == other.disc_number
            && self.title == other.title && self.album == other.album && self.artist
            == other.artist
    }
}

impl Eq for TrackKey {

}

impl vstd::std_specs::cmp::PartialEqSpecImpl for TrackKey {
    open spec fn obeys_eq_spec() -> bool {
        true
    }

    open spec fn eq_spec(&self, other: &TrackKey) -> bool {
        self@ == other@
    }
}

/// A tag in normal form: its words with single spaces between them, in small
/// letters.
pub open spec fn normal_tag(value: Seq<char>) -> Seq<char> {
    text::lowered(text::spaced(text::words(value)))
}

/// A playlist's name in normal form: trimmed, in small letters.
pub open spec fn normal_name(value: Seq<char>) -> Seq<char> {
    text::lowered(text::trimmed(value))
}

/// A duration in whole seconds, half a second and more rounded up; the addition
/// stops at the largest value that the milliseconds can have.
pub open spec fn rounded_seconds(milliseconds: u32) -> u32 {
    if milliseconds + 500 > u32::MAX {
        u32::MAX / 1000
    } else {
        ((milliseconds + 500) / 1000) as u32
    }
}

/// The identity that tags and measurements give a recording. The track artist
/// counts; the album artist stands in only where there is no track artist.
pub open spec fn identity_of(
    album_artist: Seq<char>,
    artist: Seq<char>,
    album: Seq<char>,
    title: Seq<char>,
    size: u64,
    duration_ms: u32,
    track_number: u32,
    disc_number: u32,
) -> Identity {
    Identity {
        artist: normal_tag(
            if text::is_blank(artist) {
                album_artist
            } else {
                artist
            },
        ),
        album: normal_tag(album),
        title: normal_tag(title),
        size,
        duration_seconds: rounded_seconds(duration_ms),
        track_number,
        disc_number,
    }
}

/// A tag in normal form.
pub fn normalize_tag(value: &str) -> (normal: String)
    ensures
        normal@ == normal_tag(value@),
{
    let squeezed = text::squeeze(value);
    text::to_lowercase(squeezed.as_str())
}

/// A playlist's name in normal form.
pub fn normalize_playlist_name(value: &str) -> (normal: String)
    ensures
        normal@ == normal_name(value@),
{
    let short = text::trim(value);
    text::to_lowercase(short.as_str())
}

/// The key of a recording with these tags and measurements.
pub fn metadata_key(
    album_artist: &str,
    artist: &str,
    album: &str,
    title: &str,
    size: u64,
    duration_ms: u32,
    track_number: u32,
    disc_number: u32,
) -> (key: TrackKey)
    ensures
        key@ == identity_of(
            album_artist@,
            artist@,
            album@,
            title@,
            size,
            duration_ms,
            track_number,
            disc_number,
        ),
{
    // The track artist identifies the recording. The album artist is grouping
    // metadata that can differ on compilations, and some devices drop it when
    // they rewrite a track, so it is no more than a fallback.
    let effective_artist = if text::blank(artist) {
        album_artist
    } else {
        artist
    };
    TrackKey {
        artist: normalize_tag(effective_artist),
        album: normalize_tag(album),
        title: normalize_tag(title),
        size,
        duration_seconds: duration_ms.saturating_add(500) / 1_000,
        track_number,
        disc_number,
    }
}

} // verus!
