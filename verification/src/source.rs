//! Local tracks: what their tags, files and neighbours tell of them.

use vstd::prelude::*;

use crate::database::{MediaKind, Metadata, Track};
use crate::key::{metadata_key, TrackKey};
use crate::path::FilePath;
use crate::text;

verus! {

/// A picture in a tag.
#[derive(Debug)]
pub struct Picture {
    pub front_cover: bool,
    pub data: Vec<u8>,
}

/// What an MP3's tag holds.
#[derive(Debug)]
pub struct Tag {
    pub title: Option<String>,
    pub artist: Option<String>,
    pub album: Option<String>,
    pub album_artist: Option<String>,
    pub genre: Option<String>,
    pub comment: Option<String>,
    pub year: Option<u32>,
    pub track: Option<u32>,
    pub track_total: Option<u32>,
    pub disk: Option<u32>,
    pub disk_total: Option<u32>,
    pub pictures: Vec<Picture>,
}

/// What was read from an MP3 file and of it.
#[derive(Debug)]
pub struct AudioFile {
    /// The tag of the kind that MP3 files usually have.
    pub primary_tag: Option<Tag>,
    /// The first tag of any kind.
    pub first_tag: Option<Tag>,
    pub duration_ms: u128,
    pub audio_bitrate: Option<u32>,
    pub sample_rate: Option<u32>,
    pub size: u64,
    /// When the file was last modified, in seconds since 1970, where that is
    /// known and not before.
    pub modified: Option<u64>,
}

/// Cover art, and where it comes from.
#[derive(Debug)]
pub struct Artwork {
    pub data: Vec<u8>,
    pub source: String,
}

/// A local track.
#[derive(Debug)]
pub struct SourceTrack {
    pub path: FilePath,
    pub metadata: Metadata,
    pub artwork: Option<Artwork>,
}

/// The tag that counts: the usual one, or else the first.
pub open spec fn chosen_tag(file: AudioFile) -> Option<Tag> {
    if file.primary_tag is Some {
        file.primary_tag
    } else {
        file.first_tag
    }
}

/// A text trimmed, or the fallback where nothing is left of it.
pub open spec fn filled(value: Option<String>, fallback: Seq<char>) -> Seq<char> {
    match value {
        Some(s) => if text::is_blank(s@) {
            fallback
        } else {
            text::trimmed(s@)
        },
        None => fallback,
    }
}

/// The title of a file whose tag has none: the file's name without its
/// extension.
pub open spec fn fallback_title(path: FilePath) -> Seq<char> {
    match path.stem() {
        Some(stem) => if stem.len() > 0 {
            stem
        } else {
            "Unknown Title"@
        },
        None => "Unknown Title"@,
    }
}

/// A number, or zero.
pub open spec fn or_zero(value: Option<u32>) -> u32 {
    match value {
        Some(n) => n,
        None => 0,
    }
}

/// What the metadata takes from the tag, or has where there is none.
pub open spec fn tag_gives(tag: Option<Tag>, path: FilePath, metadata: Metadata) -> bool {
    match tag {
        Some(tag) => {
            &&& metadata.title@ == filled(tag.title, fallback_title(path))
            &&& metadata.artist@ == filled(tag.artist, "Unknown Artist"@)
            &&& metadata.album@ == filled(tag.album, "Unknown Album"@)
            &&& metadata.album_artist@ == filled(tag.album_artist, Seq::empty())
            &&& metadata.genre@ == filled(tag.genre, Seq::empty())
            &&& metadata.comment@ == filled(tag.comment, Seq::empty())
            &&& metadata.year == or_zero(tag.year)
            &&& metadata.track_number == or_zero(tag.track)
            &&& metadata.track_total == or_zero(tag.track_total)
            &&& metadata.disc_number == or_zero(tag.disk)
            &&& metadata.disc_total == or_zero(tag.disk_total)
        },
        None => {
            &&& metadata.title@ == fallback_title(path)
            &&& metadata.artist@ == "Unknown Artist"@
            &&& metadata.album@ == "Unknown Album"@
            &&& metadata.album_artist@ == Seq::<char>::empty()
            &&& metadata.genre@ == Seq::<char>::empty()
            &&& metadata.comment@ == Seq::<char>::empty()
            &&& metadata.year == 0
            &&& metadata.track_number == 0
            &&& metadata.track_total == 0
            &&& metadata.disc_number == 0
            &&& metadata.disc_total == 0
        },
    }
}

/// What the metadata takes from the file itself.
pub open spec fn file_gives(file: AudioFile, metadata: Metadata) -> bool {
    &&& metadata.size == file.size
    &&& metadata.modified_at == match file.modified {
        Some(seconds) => if seconds > i64::MAX {
            i64::MAX as int
        } else {
            seconds as int
        },
        None => 0int,
    }
    &&& metadata.duration_ms == if file.duration_ms > u32::MAX {
        u32::MAX as int
    } else {
        file.duration_ms as int
    }
    &&& metadata.bitrate_kbps == or_zero(file.audio_bitrate)
    &&& metadata.sample_rate_hz == or_zero(file.sample_rate)
    &&& metadata.media_kind == MediaKind::Music
}

/// The picture that counts: the first front cover, or else the first picture.
pub open spec fn cover_index(pictures: Seq<Picture>) -> int {
    if exists|i: int| 0 <= i < pictures.len() && (#[trigger] pictures[i]).front_cover {
        choose|i: int|
            0 <= i < pictures.len() && (#[trigger] pictures[i]).front_cover && forall|j: int|
                0 <= j < i ==> !(#[trigger] pictures[j]).front_cover
    } else {
        0
    }
}

/// The embedded picture, where the tag has one with anything in it.
pub open spec fn embedded_picture(tag: Option<Tag>) -> Option<Seq<u8>> {
    match tag {
        Some(tag) => if tag.pictures@.len() > 0 && tag.pictures@[cover_index(
            tag.pictures@,
        )].data@.len() > 0 {
            Some(tag.pictures@[cover_index(tag.pictures@)].data@)
        } else {
            None
        },
        None => None,
    }
}

fn text_or(value: &Option<String>, fallback: &str) -> (chosen: String)
    ensures
        chosen@ == filled(*value, fallback@),
{
    match value {
        Some(s) => if text::blank(s.as_str()) {
            fallback.to_owned()
        } else {
            text::trim(s.as_str())
        },
        None => fallback.to_owned(),
    }
}

fn number_or_zero(value: Option<u32>) -> (number: u32)
    ensures
        number == or_zero(value),
{
    match value {
        Some(n) => n,
        None => 0,
    }
}

fn find_cover(pictures: &Vec<Picture>) -> (at: usize)
    requires
        pictures@.len() > 0,
    ensures
        at < pictures@.len(),
        at == cover_index(pictures@),
{
    let mut i: usize = 0;
    while i < pictures.len()
        invariant
            i <= pictures@.len(),
            forall|j: int| 0 <= j < i ==> !(#[trigger] pictures@[j]).front_cover,
        decreases pictures@.len() - i,
    {
        if pictures[i].front_cover {
            proof {
                let found = cover_index(pictures@);
                assert(pictures@[i as int].front_cover);
                assert(0 <= found < pictures@.len() && pictures@[found].front_cover && forall|j: int|
                    0 <= j < found ==> !(#[trigger] pictures@[j]).front_cover);
            }
            return i;
        }
        i += 1;
    }
    0
}

/// A local track made of its path and of what was read from its file; cover art
/// is taken from the tag alone.
pub fn read_source_track(path: FilePath, file: &AudioFile) -> (track: SourceTrack)
    ensures
        track.path == path,
        tag_gives(chosen_tag(*file), path, track.metadata),
        file_gives(*file, track.metadata),
        match embedded_picture(chosen_tag(*file)) {
            Some(data) => track.artwork matches Some(artwork) && artwork.data@ == data
                && artwork.source@ == "embedded in "@ + path.shown@,
            None => track.artwork is None,
        },
{
    let tag: &Option<Tag> = if file.primary_tag.is_some() {
        &file.primary_tag
    } else {
        &file.first_tag
    };
    let title_from_name: String = match path.file_stem() {
        Some(stem) => if stem.as_str().is_empty() {
            "Unknown Title".to_owned()
        } else {
            stem
        },
        None => "Unknown Title".to_owned(),
    };
    let duration_ms: u32 = if file.duration_ms > u32::MAX as u128 {
        u32::MAX
    } else {
        file.duration_ms as u32
    };
    let modified_at: i64 = match file.modified {
        Some(seconds) => if seconds > i64::MAX as u64 {
            i64::MAX
        } else {
            seconds as i64
        },
        None => 0,
    };
    let mut metadata = Metadata {
        title: title_from_name,
        album: "Unknown Album".to_owned(),
        artist: "Unknown Artist".to_owned(),
        album_artist: String::new(),
        genre: String::new(),
        comment: String::new(),
        size: file.size,
        modified_at,
        duration_ms,
        bitrate_kbps: number_or_zero(file.audio_bitrate),
        sample_rate_hz: number_or_zero(file.sample_rate),
        year: 0,
        track_number: 0,
        track_total: 0,
        disc_number: 0,
        disc_total: 0,
        media_kind: MediaKind::Music,
    };
    let mut artwork: Option<Artwork> = None;
    if let Some(tag) = tag {
        metadata.title = text_or(&tag.title, metadata.title.as_str());
        metadata.artist = text_or(&tag.artist, "Unknown Artist");
        metadata.album = text_or(&tag.album, "Unknown Album");
        metadata.album_artist = text_or(&tag.album_artist, metadata.album_artist.as_str());
        metadata.genre = text_or(&tag.genre, metadata.genre.as_str());
        metadata.comment = text_or(&tag.comment, metadata.comment.as_str());
        metadata.year = number_or_zero(tag.year);
        metadata.track_number = number_or_zero(tag.track);
        metadata.track_total = number_or_zero(tag.track_total);
        metadata.disc_number = number_or_zero(tag.disk);
        metadata.disc_total = number_or_zero(tag.disk_total);
        if tag.pictures.len() > 0 {
            let picture = &tag.pictures[find_cover(&tag.pictures)];
            if picture.data.len() > 0 {
                let mut source = "embedded in ".to_owned();
                source.append(path.shown.as_str());
                artwork = Some(
                    Artwork { data: vstd::slice::slice_to_vec(picture.data.as_slice()), source },
                );
            }
        }
    }
    SourceTrack { path, metadata, artwork }
}

/// The track with its cover art: what its tag holds, or else what was found in a
/// file next to it, if anything.
pub fn with_external_artwork(track: SourceTrack, external: Option<Artwork>) -> (whole: SourceTrack)
    ensures
        whole.path == track.path,
        whole.metadata == track.metadata,
        whole.artwork == if track.artwork is Some {
            track.artwork
        } else {
            external
        },
{
    if track.artwork.is_some() {
        track
    } else {
        SourceTrack { path: track.path, metadata: track.metadata, artwork: external }
    }
}

/// The names of files that hold the cover art of the tracks next to them, the
/// most wanted first.
pub open spec fn cover_names() -> Seq<Seq<char>> {
    seq![
        "cover.jpg"@,
        "cover.jpeg"@,
        "cover.png"@,
        "folder.jpg"@,
        "folder.jpeg"@,
        "folder.png"@,
        "front.jpg"@,
        "front.jpeg"@,
        "front.png"@,
    ]
}

/// The last file whose name in small letters is `wanted`, among the first `n`.
pub open spec fn last_named(names: Seq<String>, wanted: Seq<char>, n: int) -> Option<int>
    decreases n,
{
    if n <= 0 {
        None
    } else if text::lowered(names[n - 1]@) == wanted {
        Some(n - 1)
    } else {
        last_named(names, wanted, n - 1)
    }
}

/// The file that holds the cover art: the one with the most wanted name, from
/// the name at index `rank` on.
pub open spec fn cover_file(names: Seq<String>, rank: int) -> Option<int>
    decreases cover_names().len() - rank,
{
    if rank < 0 || rank >= cover_names().len() {
        None
    } else {
        match last_named(names, cover_names()[rank], names.len() as int) {
            Some(i) => Some(i),
            None => cover_file(names, rank + 1),
        }
    }
}

fn cover_name(rank: usize) -> (name: &'static str)
    requires
        rank < 9,
    ensures
        name@ == cover_names()[rank as int],
{
    if rank == 0 {
        "cover.jpg"
    } else if rank == 1 {
        "cover.jpeg"
    } else if rank == 2 {
        "cover.png"
    } else if rank == 3 {
        "folder.jpg"
    } else if rank == 4 {
        "folder.jpeg"
    } else if rank == 5 {
        "folder.png"
    } else if rank == 6 {
        "front.jpg"
    } else if rank == 7 {
        "front.jpeg"
    } else {
        "front.png"
    }
}

/// Picks the file with the cover art from the names of the files next to a
/// track.
pub fn read_external_artwork(names: &Vec<String>) -> (chosen: Option<usize>)
    ensures
        chosen matches Some(i) ==> cover_file(names@, 0) == Some(i as int),
        chosen is None ==> cover_file(names@, 0) is None,
{
    let mut lowered: Vec<String> = Vec::new();
    let mut i: usize = 0;
    while i < names.len()
        invariant
            i <= names@.len(),
            lowered@.len() == i,
            forall|j: int| 0 <= j < i ==> (#[trigger] lowered@[j])@ == text::lowered(names@[j]@),
        decreases names@.len() - i,
    {
        lowered.push(text::to_lowercase(names[i].as_str()));
        i += 1;
    }
    let mut rank: usize = 0;
    while rank < 9
        invariant
            rank <= 9,
            cover_names().len() == 9,
            lowered@.len() == names@.len(),
            forall|j: int|
                0 <= j < names@.len() ==> (#[trigger] lowered@[j])@ == text::lowered(names@[j]@),
            cover_file(names@, 0) == cover_file(names@, rank as int),
        decreases 9 - rank,
    {
        let wanted = cover_name(rank).to_owned();
        let mut n: usize = lowered.len();
        while n > 0
            invariant
                n <= lowered@.len(),
                lowered@.len() == names@.len(),
                forall|j: int|
                    0 <= j < names@.len() ==> (#[trigger] lowered@[j])@ == text::lowered(
                        names@[j]@,
                    ),
                0 <= rank < 9,
                cover_names().len() == 9,
                wanted@ == cover_names()[rank as int],
                cover_file(names@, 0) == cover_file(names@, rank as int),
                last_named(names@, wanted@, names@.len() as int) == last_named(
                    names@,
                    wanted@,
                    n as int,
                ),
            decreases n,
        {
            assert(lowered@[n - 1]@ == text::lowered(names@[n - 1]@));
            if lowered[n - 1] == wanted {
                return Some(n - 1);
            }
            n -= 1;
        }
        rank += 1;
    }
    None
}

/// The identity of a local track.
pub open spec fn source_identity(source: SourceTrack) -> crate::key::Identity {
    crate::key::identity_of(
        source.metadata.album_artist@,
        source.metadata.artist@,
        source.metadata.album@,
        source.metadata.title@,
        source.metadata.size,
        source.metadata.duration_ms,
        source.metadata.track_number,
        source.metadata.disc_number,
    )
}

/// The identity of a track on the device.
pub open spec fn existing_identity(track: Track) -> crate::key::Identity {
    crate::key::identity_of(
        track.album_artist@,
        track.artist@,
        track.album@,
        track.title@,
        track.size,
        track.duration_ms,
        track.track_number,
        track.disc_number,
    )
}

/// The key of a local track.
pub fn source_key(source: &SourceTrack) -> (key: TrackKey)
    ensures
        key@ == source_identity(*source),
{
    metadata_key(
        source.metadata.album_artist.as_str(),
        source.metadata.artist.as_str(),
        source.metadata.album.as_str(),
        source.metadata.title.as_str(),
        source.metadata.size,
        source.metadata.duration_ms,
        source.metadata.track_number,
        source.metadata.disc_number,
    )
}

/// The key of a track on the device.
pub fn existing_key(track: &Track) -> (key: TrackKey)
    ensures
        key@ == existing_identity(*track),
{
    metadata_key(
        track.album_artist.as_str(),
        track.artist.as_str(),
        track.album.as_str(),
        track.title.as_str(),
        track.size,
        track.duration_ms,
        track.track_number,
        track.disc_number,
    )
}

} // verus!
