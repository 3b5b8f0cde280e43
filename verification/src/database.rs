//! The library of a device as it was read, and the changes queued for it.

use vstd::prelude::*;

use crate::path::FilePath;
use crate::text;

verus! {

/// How a device keeps its library.
#[derive(Clone, Copy, Debug, PartialEq, Eq, Structural)]
pub enum BackendKind {
    Binary,
    SqliteWithBinaryCompanion,
    Other,
}

/// How a device wants its library signed.
#[derive(Clone, Copy, Debug, PartialEq, Eq, Structural)]
pub enum ChecksumKind {
    Hash58,
    HashAb,
    Other,
}

/// What kind of media a track is.
#[derive(Clone, Copy, Debug, PartialEq, Eq, Structural)]
pub enum MediaKind {
    Music,
    Podcast,
    Other,
}

/// A known device model.
#[derive(Debug)]
pub struct DeviceProfile {
    pub key: String,
    pub display_name: String,
    pub checksum: ChecksumKind,
    pub backend: BackendKind,
    pub artwork: bool,
}

/// The tags and measurements of a track that is to be added.
#[derive(Debug)]
pub struct Metadata {
    pub title: String,
    pub album: String,
    pub artist: String,
    pub album_artist: String,
    pub genre: String,
    pub comment: String,
    pub size: u64,
    pub modified_at: i64,
    pub duration_ms: u32,
    pub bitrate_kbps: u32,
    pub sample_rate_hz: u32,
    pub year: u32,
    pub track_number: u32,
    pub track_total: u32,
    pub disc_number: u32,
    pub disc_total: u32,
    pub media_kind: MediaKind,
}

impl Clone for Metadata {
    fn clone(&self) -> (copy: Metadata)
        ensures
            copy == *self,
    {
        Metadata {
            title: self.title.clone(),
            album: self.album.clone(),
            artist: self.artist.clone(),
            album_artist: self.album_artist.clone(),
            genre: self.genre.clone(),
            comment: self.comment.clone(),
            size: self.size,
            modified_at: self.modified_at,
            duration_ms: self.duration_ms,
            bitrate_kbps: self.bitrate_kbps,
            sample_rate_hz: self.sample_rate_hz,
            year: self.year,
            track_number: self.track_number,
            track_total: self.track_total,
            disc_number: self.disc_number,
            disc_total: self.disc_total,
            media_kind: self.media_kind,
        }
    }
}

/// A track's persistent number on the device.
#[derive(Clone, Copy, Debug, PartialEq, Eq, Hash, Structural)]
pub struct TrackHandle(pub u64);

/// A playlist's persistent number on the device.
#[derive(Clone, Copy, Debug, PartialEq, Eq, Hash, Structural)]
pub struct PlaylistHandle(pub u64);

/// A track on the device.
#[derive(Debug)]
pub struct Track {
    pub handle: TrackHandle,
    pub path: FilePath,
    /// The library lists the track, but its file is gone.
    pub media_missing: bool,
    pub title: String,
    pub album: String,
    pub artist: String,
    pub album_artist: String,
    pub size: u64,
    pub duration_ms: u32,
    pub track_number: u32,
    pub disc_number: u32,
    pub has_artwork: bool,
    pub media_kind: MediaKind,
}

/// A playlist on the device.
#[derive(Debug)]
pub struct Playlist {
    pub handle: PlaylistHandle,
    pub name: String,
    pub tracks: Vec<TrackHandle>,
    pub is_hidden: bool,
    pub is_smart: bool,
}

/// A track as the device's library records it.
#[derive(Debug)]
pub struct LibraryTrack {
    pub id: u64,
    /// The recorded location, below the mount point.
    pub location: FilePath,
    /// The file that the location leads to, or why it leads to none.
    pub file: Result<FilePath, String>,
    pub title: String,
    pub album: String,
    pub artist: String,
    pub album_artist: String,
    pub size: u64,
    pub duration_ms: u32,
    pub track_number: u32,
    pub disc_number: u32,
    pub has_artwork: bool,
    pub media_kind: MediaKind,
}

/// A device's library.
#[derive(Debug)]
pub struct Library {
    pub tracks: Vec<LibraryTrack>,
    pub playlists: Vec<Playlist>,
}

/// A device as it was found.
#[derive(Debug)]
pub struct Device {
    pub profile: Option<DeviceProfile>,
    pub firewire_guid: bool,
    /// Nothing where the device's library cannot be read.
    pub library: Option<Library>,
    /// The numbers of the tracks whose files are gone, or why that could not be
    /// found out.
    pub missing_media: Result<Vec<u64>, String>,
}

/// A track addition in the form in which an edit takes it.
#[derive(Debug)]
pub struct TrackToAdd {
    pub source_path: FilePath,
    pub title: String,
    pub artist: Option<String>,
    pub album: Option<String>,
    pub album_artist: Option<String>,
    pub genre: Option<String>,
    pub composer: Option<String>,
    pub year: u32,
    pub track_number: u32,
    pub total_tracks: u32,
    pub disc_number: u32,
    pub total_discs: u32,
    pub bitrate: u32,
    pub sample_rate: u32,
    pub length_ms: u32,
    /// Whether the track counts as part of a compilation.
    pub compilation: bool,
    pub media_kind: MediaKind,
    /// Whether the track takes the cover art of other tracks of its album.
    pub reuse_album_art: bool,
}

/// Cover art that is handed over in a file of its own.
#[derive(Debug)]
pub struct ArtworkFile {
    /// The file's name, new for each picture.
    pub name: String,
    pub data: Vec<u8>,
}

/// One call that an edit of the device's library takes.
#[derive(Debug)]
#[allow(inconsistent_fields)]
pub enum EditStep {
    /// From here on, the media file of a track that is removed is deleted.
    DeleteMedia,
    RemoveTrack(u64),
    AddTrack { addition: TrackToAdd, artwork: Option<ArtworkFile> },
    /// Gives a track that is there cover art; its audio stays as it is.
    SetArtwork { id: u64, artwork: ArtworkFile },
    CreatePlaylist { name: String, tracks: Vec<u64> },
    RenamePlaylist { id: u64, name: String },
    SetPlaylistTracks { id: u64, tracks: Vec<u64> },
    DeletePlaylist(u64),
}

/// Why the library could not be read or a change could not be queued.
#[derive(Debug)]
pub enum DatabaseError {
    /// The device's library cannot be read at all.
    NoReadAdapter,
    /// Which files are gone could not be found out.
    Audit(String),
    /// There is no library to read from.
    NoLibrary,
    /// A track's location leads to no file.
    TrackPath(String),
    /// The track is not in the library.
    TrackAbsent,
    /// The file to add is no regular file.
    NotAFile(String),
    /// A playlist needs a name.
    EmptyPlaylistName,
    /// The playlist is absent, hidden or smart, and cannot be updated.
    PlaylistNotUpdatable,
    /// The playlist is absent, hidden or smart, and cannot be deleted.
    PlaylistNotDeletable,
    /// The edit session that would make the changes could not be started.
    NoSession(String),
}

/// What is known of a track on the device.
pub struct TrackFacts {
    pub handle: TrackHandle,
    pub path: Seq<Seq<u8>>,
    pub shown: Seq<char>,
    pub media_missing: bool,
    pub title: Seq<char>,
    pub album: Seq<char>,
    pub artist: Seq<char>,
    pub album_artist: Seq<char>,
    pub size: u64,
    pub duration_ms: u32,
    pub track_number: u32,
    pub disc_number: u32,
    pub has_artwork: bool,
    pub media_kind: MediaKind,
}

impl View for Track {
    type V = TrackFacts;

    open spec fn view(&self) -> TrackFacts {
        TrackFacts {
            handle: self.handle,
            path: self.path.parts(),
            shown: self.path.shown@,
            media_missing: self.media_missing,
            title: self.title@,
            album: self.album@,
            artist: self.artist@,
            album_artist: self.album_artist@,
            size: self.size,
            duration_ms: self.duration_ms,
            track_number: self.track_number,
            disc_number: self.disc_number,
            has_artwork: self.has_artwork,
            media_kind: self.media_kind,
        }
    }
}

/// The track that a record stands for. Where the file is gone, the recorded
/// location stands for it.
pub open spec fn track_of(record: LibraryTrack, media_missing: bool) -> TrackFacts {
    let path = if media_missing {
        record.location
    } else {
        record.file->Ok_0
    };
    TrackFacts {
        handle: TrackHandle(record.id),
        path: path.parts(),
        shown: path.shown@,
        media_missing,
        title: record.title@,
        album: record.album@,
        artist: record.artist@,
        album_artist: record.album_artist@,
        size: record.size,
        duration_ms: record.duration_ms,
        track_number: record.track_number,
        disc_number: record.disc_number,
        has_artwork: record.has_artwork,
        media_kind: record.media_kind,
    }
}

/// The text without white space at its ends, where anything is left of it.
pub open spec fn text_if_any(value: Seq<char>) -> Option<Seq<char>> {
    if text::is_blank(value) {
        None
    } else {
        Some(text::trimmed(value))
    }
}

/// The contents of an optional text.
pub open spec fn view_of(value: Option<String>) -> Option<Seq<char>> {
    match value {
        Some(s) => Some(s@),
        None => None,
    }
}

/// The contents of optional bytes.
pub open spec fn bytes_view(value: Option<Vec<u8>>) -> Option<Seq<u8>> {
    match value {
        Some(b) => Some(b@),
        None => None,
    }
}

/// The text without white space at its ends, where anything is left of it.
pub fn non_empty(value: &str) -> (kept: Option<String>)
    ensures
        view_of(kept) == text_if_any(value@),
{
    if text::blank(value) {
        None
    } else {
        Some(text::trim(value))
    }
}

/// Refuses a name without anything but white space.
pub fn validate_playlist_name(name: &str) -> (checked: Result<(), DatabaseError>)
    ensures
        checked is Ok <==> !text::is_blank(name@),
        checked matches Err(e) ==> e == DatabaseError::EmptyPlaylistName,
{
    if text::blank(name) {
        Err(DatabaseError::EmptyPlaylistName)
    } else {
        Ok(())
    }
}

/// The model whose libraries take playlists and podcasts although they are not
/// binary.
pub open spec fn is_nano_7g(profile_key: Seq<char>) -> bool {
    profile_key == "nano-7g"@
}

/// Whether playlists can be written for a device of this model and library
/// format.
pub fn profile_supports_playlists(profile_key: &str, backend: BackendKind) -> (supported: bool)
    ensures
        supported == (backend == BackendKind::Binary || is_nano_7g(profile_key@)),
{
    backend == BackendKind::Binary || text::same_text(profile_key, "nano-7g")
}

struct PendingAdd {
    source: FilePath,
    metadata: Metadata,
    artwork: Option<Vec<u8>>,
}

/// One queued change.
enum PendingChange {
    Remove(u64),
    Add(PendingAdd),
    SetArtwork { id: u64, artwork: Vec<u8> },
    CreatePlaylist { name: String, tracks: Vec<u64> },
    UpdatePlaylist { id: u64, name: String, tracks: Vec<u64> },
    DeletePlaylist(u64),
}

/// A queued change, as contracts speak of it.
#[allow(inconsistent_fields)]
pub enum Change {
    Remove(u64),
    Add {
        source: Seq<Seq<u8>>,
        shown: Seq<char>,
        metadata: Metadata,
        artwork: Option<Seq<u8>>,
    },
    SetArtwork { id: u64, artwork: Seq<u8> },
    CreatePlaylist { name: Seq<char>, tracks: Seq<u64> },
    UpdatePlaylist { id: u64, name: Seq<char>, tracks: Seq<u64> },
    DeletePlaylist(u64),
}

impl View for PendingChange {
    type V = Change;

    closed spec fn view(&self) -> Change {
        match *self {
            PendingChange::Remove(id) => Change::Remove(id),
            PendingChange::Add(add) => Change::Add {
                source: add.source.parts(),
                shown: add.source.shown@,
                metadata: add.metadata,
                artwork: bytes_view(add.artwork),
            },
            PendingChange::SetArtwork { id, artwork } => Change::SetArtwork {
                id,
                artwork: artwork@,
            },
            PendingChange::CreatePlaylist { name, tracks } => Change::CreatePlaylist {
                name: name@,
                tracks: tracks@,
            },
            PendingChange::UpdatePlaylist { id, name, tracks } => Change::UpdatePlaylist {
                id,
                name: name@,
                tracks: tracks@,
            },
            PendingChange::DeletePlaylist(id) => Change::DeletePlaylist(id),
        }
    }
}

/// A track addition, as contracts speak of it.
pub struct Addition {
    pub source: Seq<Seq<u8>>,
    pub shown: Seq<char>,
    pub title: Seq<char>,
    pub artist: Option<Seq<char>>,
    pub album: Option<Seq<char>>,
    pub album_artist: Option<Seq<char>>,
    pub genre: Option<Seq<char>>,
    pub composer: Option<Seq<char>>,
    pub year: u32,
    pub track_number: u32,
    pub total_tracks: u32,
    pub disc_number: u32,
    pub total_discs: u32,
    pub bitrate: u32,
    pub sample_rate: u32,
    pub length_ms: u32,
    pub compilation: bool,
    pub media_kind: MediaKind,
    pub reuse_album_art: bool,
}

impl View for TrackToAdd {
    type V = Addition;

    open spec fn view(&self) -> Addition {
        Addition {
            source: self.source_path.parts(),
            shown: self.source_path.shown@,
            title: self.title@,
            artist: view_of(self.artist),
            album: view_of(self.album),
            album_artist: view_of(self.album_artist),
            genre: view_of(self.genre),
            composer: view_of(self.composer),
            year: self.year,
            track_number: self.track_number,
            total_tracks: self.total_tracks,
            disc_number: self.disc_number,
            total_discs: self.total_discs,
            bitrate: self.bitrate,
            sample_rate: self.sample_rate,
            length_ms: self.length_ms,
            compilation: self.compilation,
            media_kind: self.media_kind,
            reuse_album_art: self.reuse_album_art,
        }
    }
}

/// The addition of a file with these tags: of the tags other than the title,
/// those with nothing but white space in them are left out. It names no composer,
/// is no part of a compilation, and takes no cover art from its album.
pub open spec fn addition_of(
    source: Seq<Seq<u8>>,
    shown: Seq<char>,
    metadata: Metadata,
) -> Addition {
    Addition {
        source,
        shown,
        title: metadata.title@,
        artist: text_if_any(metadata.artist@),
        album: text_if_any(metadata.album@),
        album_artist: text_if_any(metadata.album_artist@),
        genre: text_if_any(metadata.genre@),
        composer: None,
        year: metadata.year,
        track_number: metadata.track_number,
        total_tracks: metadata.track_total,
        disc_number: metadata.disc_number,
        total_discs: metadata.disc_total,
        bitrate: metadata.bitrate_kbps,
        sample_rate: metadata.sample_rate_hz,
        length_ms: metadata.duration_ms,
        compilation: false,
        media_kind: metadata.media_kind,
        reuse_album_art: false,
    }
}

/// A call of an edit, as contracts speak of it; a picture is given by the name
/// of its file and its contents.
#[allow(inconsistent_fields)]
pub enum Edit {
    DeleteMedia,
    RemoveTrack(u64),
    AddTrack { addition: Addition, artwork: Option<(Seq<char>, Seq<u8>)> },
    SetArtwork { id: u64, artwork: (Seq<char>, Seq<u8>) },
    CreatePlaylist { name: Seq<char>, tracks: Seq<u64> },
    RenamePlaylist { id: u64, name: Seq<char> },
    SetPlaylistTracks { id: u64, tracks: Seq<u64> },
    DeletePlaylist(u64),
}

impl View for EditStep {
    type V = Edit;

    open spec fn view(&self) -> Edit {
        match *self {
            EditStep::DeleteMedia => Edit::DeleteMedia,
            EditStep::RemoveTrack(id) => Edit::RemoveTrack(id),
            EditStep::AddTrack { addition, artwork } => Edit::AddTrack {
                addition: addition@,
                artwork: match artwork {
                    Some(file) => Some((file.name@, file.data@)),
                    None => None,
                },
            },
            EditStep::SetArtwork { id, artwork } => Edit::SetArtwork {
                id,
                artwork: (artwork.name@, artwork.data@),
            },
            EditStep::CreatePlaylist { name, tracks } => Edit::CreatePlaylist {
                name: name@,
                tracks: tracks@,
            },
            EditStep::RenamePlaylist { id, name } => Edit::RenamePlaylist { id, name: name@ },
            EditStep::SetPlaylistTracks { id, tracks } => Edit::SetPlaylistTracks {
                id,
                tracks: tracks@,
            },
            EditStep::DeletePlaylist(id) => Edit::DeletePlaylist(id),
        }
    }
}

/// The calls, as contracts speak of them.
pub open spec fn edits(steps: Seq<EditStep>) -> Seq<Edit> {
    steps.map_values(|step: EditStep| step@)
}

/// The number after `sequence`; after the largest comes zero.
pub open spec fn next_number(sequence: u64) -> u64 {
    if sequence == u64::MAX {
        0
    } else {
        (sequence + 1) as u64
    }
}

/// The number of the last picture file once the change has been made, where it
/// was `sequence` before.
pub open spec fn number_after(change: Change, sequence: u64) -> u64 {
    match change {
        Change::Add { artwork: Some(_), .. } => next_number(sequence),
        Change::SetArtwork { .. } => next_number(sequence),
        _ => sequence,
    }
}

/// The number of the last picture file once all changes have been made.
pub open spec fn number_after_all(changes: Seq<Change>, sequence: u64) -> u64
    decreases changes.len(),
{
    if changes.len() == 0 {
        sequence
    } else {
        number_after(changes.last(), number_after_all(changes.drop_last(), sequence))
    }
}

/// The name of a picture file: it holds the process and a running number.
pub open spec fn artwork_file_name(process_id: u32, sequence: u64) -> Seq<char> {
    "copyPod-"@ + text::decimal(process_id as nat) + "-"@ + text::decimal(sequence as nat)
        + ".art"@
}

/// The calls that make one change.
pub open spec fn edits_for(change: Change, sequence: u64, process_id: u32) -> Seq<Edit> {
    match change {
        Change::Remove(id) => seq![Edit::RemoveTrack(id)],
        Change::Add { source, shown, metadata, artwork } => seq![
            Edit::AddTrack {
                addition: addition_of(source, shown, metadata),
                artwork: match artwork {
                    Some(data) => Some(
                        (artwork_file_name(process_id, next_number(sequence)), data),
                    ),
                    None => None,
                },
            },
        ],
        Change::SetArtwork { id, artwork } => seq![
            Edit::SetArtwork {
                id,
                artwork: (artwork_file_name(process_id, next_number(sequence)), artwork),
            },
        ],
        Change::CreatePlaylist { name, tracks } => seq![Edit::CreatePlaylist { name, tracks }],
        Change::UpdatePlaylist { id, name, tracks } => seq![
            Edit::RenamePlaylist { id, name },
            Edit::SetPlaylistTracks { id, tracks },
        ],
        Change::DeletePlaylist(id) => seq![Edit::DeletePlaylist(id)],
    }
}

/// The calls that make the changes, in the order in which they were queued.
pub open spec fn edits_for_all(changes: Seq<Change>, sequence: u64, process_id: u32) -> Seq<Edit>
    decreases changes.len(),
{
    if changes.len() == 0 {
        Seq::empty()
    } else {
        edits_for_all(changes.drop_last(), sequence, process_id) + edits_for(
            changes.last(),
            number_after_all(changes.drop_last(), sequence),
            process_id,
        )
    }
}

/// The calls of an edit session that makes the changes: the files of removed
/// tracks are to be deleted, and then come the changes. Where there are none, there
/// is no session.
pub open spec fn session_edits(changes: Seq<Change>, sequence: u64, process_id: u32) -> Seq<Edit> {
    if changes.len() == 0 {
        Seq::empty()
    } else {
        seq![Edit::DeleteMedia] + edits_for_all(changes, sequence, process_id)
    }
}

/// A device's library with the changes queued for it.
pub struct Database {
    device: Device,
    pending: Vec<PendingChange>,
    artwork_sequence: u64,
}

/// Whether the device's library has a track of this number.
pub open spec fn has_track(device: Device, handle: TrackHandle) -> bool {
    device.library matches Some(library) && exists|i: int|
        0 <= i < library.tracks@.len() && (#[trigger] library.tracks@[i]).id == handle.0
}

/// Whether the device's library has a playlist of this number that is neither
/// hidden nor smart.
pub open spec fn has_editable_playlist(device: Device, handle: PlaylistHandle) -> bool {
    device.library matches Some(library) && exists|i: int|
        0 <= i < library.playlists@.len() && {
            &&& (#[trigger] library.playlists@[i]).handle == handle
            &&& !library.playlists@[i].is_hidden
            &&& !library.playlists@[i].is_smart
        }
}

/// The numbers of the tracks.
pub open spec fn numbers_of(tracks: Seq<TrackHandle>) -> Seq<u64> {
    tracks.map_values(|track: TrackHandle| track.0)
}

fn track_numbers(tracks: &Vec<TrackHandle>) -> (numbers: Vec<u64>)
    ensures
        numbers@ == numbers_of(tracks@),
{
    let mut numbers: Vec<u64> = Vec::new();
    let mut i: usize = 0;
    while i < tracks.len()
        invariant
            i <= tracks@.len(),
            numbers@ == numbers_of(tracks@.take(i as int)),
        decreases tracks@.len() - i,
    {
        numbers.push(tracks[i].0);
        i += 1;
        assert(numbers@ =~= numbers_of(tracks@.take(i as int)));
    }
    assert(tracks@.take(i as int) =~= tracks@);
    numbers
}

impl Database {
    /// The device as it was last read.
    pub closed spec fn device(self) -> Device {
        self.device
    }

    /// The changes queued so far.
    pub closed spec fn queued(self) -> Seq<Change> {
        self.pending@.map_values(|change: PendingChange| change@)
    }

    /// The number of the last picture file.
    pub closed spec fn sequence(self) -> u64 {
        self.artwork_sequence
    }

    /// Takes up a device whose library can be read.
    pub fn open(device: Device) -> (opened: Result<Database, DatabaseError>)
        ensures
            opened is Ok <==> device.library is Some,
            opened matches Ok(database) ==> {
                &&& database.device() == device
                &&& database.queued() == Seq::<Change>::empty()
                &&& database.sequence() == 0
            },
            opened matches Err(e) ==> e == DatabaseError::NoReadAdapter,
    {
        if device.library.is_none() {
            return Err(DatabaseError::NoReadAdapter);
        }
        let database = Database { device, pending: Vec::new(), artwork_sequence: 0 };
        assert(database.queued() =~= Seq::<Change>::empty());
        Ok(database)
    }

    /// The device's model, for the user.
    pub fn description(&self) -> (name: String)
        ensures
            name@ == match self.device().profile {
                Some(profile) => profile.display_name@,
                None => "unknown iPod"@,
            },
    {
        match &self.device.profile {
            Some(profile) => profile.display_name.clone(),
            None => "unknown iPod".to_owned(),
        }
    }

    /// Whether the device's library is signed with its FireWire GUID.
    pub fn requires_firewire_guid(&self) -> (required: bool)
        ensures
            required == (self.device().profile matches Some(profile) && (profile.checksum
                == ChecksumKind::Hash58 || profile.checksum == ChecksumKind::HashAb)),
    {
        match &self.device.profile {
            Some(profile) => profile.checksum == ChecksumKind::Hash58 || profile.checksum
                == ChecksumKind::HashAb,
            None => false,
        }
    }

    /// Whether the device can store cover art.
    pub fn supports_artwork(&self) -> (supported: bool)
        ensures
            supported == (self.device().profile matches Some(profile) && profile.artwork),
    {
        match &self.device.profile {
            Some(profile) => profile.artwork,
            None => false,
        }
    }

    /// Whether podcasts can be written for the device.
    pub fn supports_podcasts(&self) -> (supported: bool)
        ensures
            supported == (self.device().profile matches Some(profile) && is_nano_7g(profile.key@)),
    {
        match &self.device.profile {
            Some(profile) => text::same_text(profile.key.as_str(), "nano-7g"),
            None => false,
        }
    }

    /// Whether playlists can be written for the device.
    pub fn supports_playlists(&self) -> (supported: bool)
        ensures
            supported == (self.device().profile matches Some(profile) && (profile.backend
                == BackendKind::Binary || is_nano_7g(profile.key@))),
    {
        match &self.device.profile {
            Some(profile) => profile_supports_playlists(profile.key.as_str(), profile.backend),
            None => false,
        }
    }

    /// Whether the device's FireWire GUID is known.
    pub fn has_firewire_guid(&self) -> (known: bool)
        ensures
            known == self.device().firewire_guid,
    {
        self.device.firewire_guid
    }

    /// How many tracks the library lists.
    pub fn track_count(&self) -> (count: usize)
        ensures
            count == match self.device().library {
                Some(library) => library.tracks@.len(),
                None => 0,
            },
    {
        match &self.device.library {
            Some(library) => library.tracks.len(),
            None => 0,
        }
    }

    fn is_listed(&self, track: TrackHandle) -> (present: bool)
        ensures
            present == has_track(self.device(), track),
    {
        let mut present: bool = false;
        if let Some(library) = &self.device.library {
            let mut i: usize = 0;
            while i < library.tracks.len()
                invariant
                    i <= library.tracks@.len(),
                    present == exists|j: int|
                        0 <= j < i && (#[trigger] library.tracks@[j]).id == track.0,
                decreases library.tracks@.len() - i,
            {
                if library.tracks[i].id == track.0 {
                    present = true;
                }
                i += 1;
            }
        }
        present
    }

    /// Queues cover art for a track that is there; its audio stays as it is.
    pub fn set_artwork(&mut self, track: TrackHandle, artwork: &Vec<u8>) -> (queued: Result<
        (),
        DatabaseError,
    >)
        ensures
            final(self).device() == old(self).device(),
            final(self).sequence() == old(self).sequence(),
            queued is Ok <==> has_track(old(self).device(), track),
            queued is Ok ==> final(self).queued() == old(self).queued().push(
                Change::SetArtwork { id: track.0, artwork: artwork@ },
            ),
            queued matches Err(e) ==> e == DatabaseError::TrackAbsent,
            queued is Err ==> final(self).queued() == old(self).queued(),
    {
        if !self.is_listed(track) {
            return Err(DatabaseError::TrackAbsent);
        }
        let change = PendingChange::SetArtwork {
            id: track.0,
            artwork: vstd::slice::slice_to_vec(artwork.as_slice()),
        };
        let ghost shown = change@;
        self.pending.push(change);
        assert(self.queued() =~= old(self).queued().push(shown));
        Ok(())
    }

    /// Queues the removal of a track.
    pub fn remove_track(&mut self, track: TrackHandle) -> (queued: Result<(), DatabaseError>)
        ensures
            final(self).device() == old(self).device(),
            final(self).sequence() == old(self).sequence(),
            queued is Ok <==> has_track(old(self).device(), track),
            queued is Ok ==> final(self).queued() == old(self).queued().push(
                Change::Remove(track.0),
            ),
            queued matches Err(e) ==> e == DatabaseError::TrackAbsent,
            queued is Err ==> final(self).queued() == old(self).queued(),
    {
        if !self.is_listed(track) {
            return Err(DatabaseError::TrackAbsent);
        }
        self.pending.push(PendingChange::Remove(track.0));
        assert(self.queued() =~= old(self).queued().push(Change::Remove(track.0)));
        Ok(())
    }

    /// Queues the addition of a file; `is_file` says whether it is a regular
    /// file.
    pub fn add_track(
        &mut self,
        source: &FilePath,
        is_file: bool,
        metadata: &Metadata,
        artwork: Option<&Vec<u8>>,
    ) -> (queued: Result<(), DatabaseError>)
        ensures
            final(self).device() == old(self).device(),
            final(self).sequence() == old(self).sequence(),
            queued is Ok <==> is_file,
            queued is Ok ==> final(self).queued() == old(self).queued().push(
                Change::Add {
                    source: source.parts(),
                    shown: source.shown@,
                    metadata: *metadata,
                    artwork: match artwork {
                        Some(data) => Some(data@),
                        None => None,
                    },
                },
            ),
            queued matches Err(e) ==> e == DatabaseError::NotAFile(source.shown),
            queued is Err ==> final(self).queued() == old(self).queued(),
    {
        if !is_file {
            return Err(DatabaseError::NotAFile(source.shown.clone()));
        }
        let copied: Option<Vec<u8>> = match artwork {
            Some(data) => Some(vstd::slice::slice_to_vec(data.as_slice())),
            None => None,
        };
        let change = PendingChange::Add(
            PendingAdd { source: source.clone(), metadata: metadata.clone(), artwork: copied },
        );
        let ghost shown = change@;
        self.pending.push(change);
        assert(self.queued() =~= old(self).queued().push(shown));
        Ok(())
    }

    /// Queues a new standard playlist.
    pub fn create_playlist(&mut self, name: &str, tracks: &Vec<TrackHandle>) -> (queued: Result<
        (),
        DatabaseError,
    >)
        ensures
            final(self).device() == old(self).device(),
            final(self).sequence() == old(self).sequence(),
            queued is Ok <==> !text::is_blank(name@),
            queued is Ok ==> final(self).queued() == old(self).queued().push(
                Change::CreatePlaylist { name: name@, tracks: numbers_of(tracks@) },
            ),
            queued matches Err(e) ==> e == DatabaseError::EmptyPlaylistName,
            queued is Err ==> final(self).queued() == old(self).queued(),
    {
        if let Err(e) = validate_playlist_name(name) {
            return Err(e);
        }
        let change = PendingChange::CreatePlaylist {
            name: name.to_owned(),
            tracks: track_numbers(tracks),
        };
        let ghost shown = change@;
        self.pending.push(change);
        assert(self.queued() =~= old(self).queued().push(shown));
        Ok(())
    }

    fn is_editable(&self, playlist: PlaylistHandle) -> (editable: bool)
        ensures
            editable == has_editable_playlist(self.device(), playlist),
    {
        let mut editable: bool = false;
        if let Some(library) = &self.device.library {
            let mut i: usize = 0;
            while i < library.playlists.len()
                invariant
                    i <= library.playlists@.len(),
                    editable == exists|j: int|
                        0 <= j < i && {
                            &&& (#[trigger] library.playlists@[j]).handle == playlist
                            &&& !library.playlists@[j].is_hidden
                            &&& !library.playlists@[j].is_smart
                        },
                decreases library.playlists@.len() - i,
            {
                let existing = &library.playlists[i];
                if existing.handle == playlist && !existing.is_hidden && !existing.is_smart {
                    editable = true;
                }
                i += 1;
            }
        }
        editable
    }

    /// Queues a new name and new tracks for a standard playlist.
    pub fn update_playlist(
        &mut self,
        playlist: PlaylistHandle,
        name: &str,
        tracks: &Vec<TrackHandle>,
    ) -> (queued: Result<(), DatabaseError>)
        ensures
            final(self).device() == old(self).device(),
            final(self).sequence() == old(self).sequence(),
            queued is Ok <==> !text::is_blank(name@) && has_editable_playlist(
                old(self).device(),
                playlist,
            ),
            queued is Ok ==> final(self).queued() == old(self).queued().push(
                Change::UpdatePlaylist {
                    id: playlist.0,
                    name: name@,
                    tracks: numbers_of(tracks@),
                },
            ),
            queued is Err ==> final(self).queued() == old(self).queued(),
            queued matches Err(e) ==> e == if text::is_blank(name@) {
                DatabaseError::EmptyPlaylistName
            } else {
                DatabaseError::PlaylistNotUpdatable
            },
    {
        if let Err(e) = validate_playlist_name(name) {
            return Err(e);
        }
        if !self.is_editable(playlist) {
            return Err(DatabaseError::PlaylistNotUpdatable);
        }
        let change = PendingChange::UpdatePlaylist {
            id: playlist.0,
            name: name.to_owned(),
            tracks: track_numbers(tracks),
        };
        let ghost shown = change@;
        self.pending.push(change);
        assert(self.queued() =~= old(self).queued().push(shown));
        Ok(())
    }

    /// Queues the deletion of a standard playlist; its tracks stay.
    pub fn delete_playlist(&mut self, playlist: PlaylistHandle) -> (queued: Result<
        (),
        DatabaseError,
    >)
        ensures
            final(self).device() == old(self).device(),
            final(self).sequence() == old(self).sequence(),
            queued is Ok <==> has_editable_playlist(old(self).device(), playlist),
            queued is Ok ==> final(self).queued() == old(self).queued().push(
                Change::DeletePlaylist(playlist.0),
            ),
            queued matches Err(e) ==> e == DatabaseError::PlaylistNotDeletable,
            queued is Err ==> final(self).queued() == old(self).queued(),
    {
        if !self.is_editable(playlist) {
            return Err(DatabaseError::PlaylistNotDeletable);
        }
        self.pending.push(PendingChange::DeletePlaylist(playlist.0));
        assert(self.queued() =~= old(self).queued().push(Change::DeletePlaylist(playlist.0)));
        Ok(())
    }
}

/// Whether a record can be read: its file is there, or is known to be gone.
pub open spec fn is_readable(record: LibraryTrack, missing: Seq<u64>) -> bool {
    missing.contains(record.id) || record.file is Ok
}

/// What reading the tracks of a device gives: a track for every record, or the
/// first thing that stands in the way.
pub open spec fn reads_as(device: Device, read: Result<Vec<Track>, DatabaseError>) -> bool {
    match (device.missing_media, device.library) {
        (Err(cause), _) => read == Err::<Vec<Track>, DatabaseError>(DatabaseError::Audit(cause)),
        (Ok(_), None) => read == Err::<Vec<Track>, DatabaseError>(DatabaseError::NoLibrary),
        (Ok(missing), Some(library)) => match read {
            Ok(tracks) => {
                &&& tracks@.len() == library.tracks@.len()
                &&& forall|i: int|
                    0 <= i < tracks@.len() ==> {
                        &&& is_readable(library.tracks@[i], missing@)
                        &&& (#[trigger] tracks@[i])@ == track_of(
                            library.tracks@[i],
                            missing@.contains(library.tracks@[i].id),
                        )
                    }
            },
            Err(e) => exists|i: int|
                0 <= i < library.tracks@.len() && {
                    &&& !is_readable(#[trigger] library.tracks@[i], missing@)
                    &&& forall|j: int|
                        0 <= j < i ==> is_readable(#[trigger] library.tracks@[j], missing@)
                    &&& e == DatabaseError::TrackPath(library.tracks@[i].file->Err_0)
                },
        },
    }
}

fn holds(numbers: &Vec<u64>, wanted: u64) -> (held: bool)
    ensures
        held == numbers@.contains(wanted),
{
    let mut i: usize = 0;
    while i < numbers.len()
        invariant
            i <= numbers@.len(),
            forall|j: int| 0 <= j < i ==> numbers@[j] != wanted,
        decreases numbers@.len() - i,
    {
        if numbers[i] == wanted {
            return true;
        }
        i += 1;
    }
    false
}

fn track_from(record: &LibraryTrack, path: FilePath, media_missing: bool) -> (track: Track)
    ensures
        track.handle == TrackHandle(record.id),
        track.path == path,
        track.media_missing == media_missing,
        track.title == record.title,
        track.album == record.album,
        track.artist == record.artist,
        track.album_artist == record.album_artist,
        track.size == record.size,
        track.duration_ms == record.duration_ms,
        track.track_number == record.track_number,
        track.disc_number == record.disc_number,
        track.has_artwork == record.has_artwork,
        track.media_kind == record.media_kind,
{
    Track {
        handle: TrackHandle(record.id),
        path,
        media_missing,
        title: record.title.clone(),
        album: record.album.clone(),
        artist: record.artist.clone(),
        album_artist: record.album_artist.clone(),
        size: record.size,
        duration_ms: record.duration_ms,
        track_number: record.track_number,
        disc_number: record.disc_number,
        has_artwork: record.has_artwork,
        media_kind: record.media_kind,
    }
}

fn addition_from(source: FilePath, metadata: &Metadata) -> (addition: TrackToAdd)
    ensures
        addition@ == addition_of(source.parts(), source.shown@, *metadata),
{
    TrackToAdd {
        source_path: source,
        title: metadata.title.clone(),
        artist: non_empty(metadata.artist.as_str()),
        album: non_empty(metadata.album.as_str()),
        album_artist: non_empty(metadata.album_artist.as_str()),
        genre: non_empty(metadata.genre.as_str()),
        composer: None,
        year: metadata.year,
        track_number: metadata.track_number,
        total_tracks: metadata.track_total,
        disc_number: metadata.disc_number,
        total_discs: metadata.disc_total,
        bitrate: metadata.bitrate_kbps,
        sample_rate: metadata.sample_rate_hz,
        length_ms: metadata.duration_ms,
        compilation: false,
        media_kind: metadata.media_kind,
        reuse_album_art: false,
    }
}

fn artwork_name(process_id: u32, sequence: u64) -> (name: String)
    ensures
        name@ == artwork_file_name(process_id, sequence),
{
    let mut name = "copyPod-".to_owned();
    name.append(text::number(process_id as u64).as_str());
    name.append("-");
    name.append(text::number(sequence).as_str());
    name.append(".art");
    name
}

impl Database {
    /// The tracks of the library.
    pub fn tracks(&self) -> (read: Result<Vec<Track>, DatabaseError>)
        ensures
            reads_as(self.device(), read),
    {
        let missing = match &self.device.missing_media {
            Ok(missing) => missing,
            Err(cause) => return Err(DatabaseError::Audit(cause.clone())),
        };
        let library = match &self.device.library {
            Some(library) => library,
            None => return Err(DatabaseError::NoLibrary),
        };
        let mut tracks: Vec<Track> = Vec::new();
        let mut i: usize = 0;
        while i < library.tracks.len()
            invariant
                self.device().missing_media == Ok::<Vec<u64>, String>(*missing),
                self.device().library == Some(*library),
                i <= library.tracks@.len(),
                tracks@.len() == i,
                forall|j: int| 0 <= j < i ==> is_readable(#[trigger] library.tracks@[j], missing@),
                forall|j: int|
                    0 <= j < i ==> (#[trigger] tracks@[j])@ == track_of(
                        library.tracks@[j],
                        missing@.contains(library.tracks@[j].id),
                    ),
            decreases library.tracks@.len() - i,
        {
            let record = &library.tracks[i];
            let media_missing = holds(missing, record.id);
            let path: FilePath = if media_missing {
                record.location.clone()
            } else {
                match &record.file {
                    Ok(file) => file.clone(),
                    Err(cause) => {
                        proof {
                            assert(!is_readable(library.tracks@[i as int], missing@));
                        }
                        return Err(DatabaseError::TrackPath(cause.clone()));
                    },
                }
            };
            let track = track_from(record, path, media_missing);
            assert(track@ == track_of(*record, media_missing));
            tracks.push(track);
            i += 1;
        }
        Ok(tracks)
    }

    /// The playlists of the library.
    pub fn playlists(&self) -> (read: Result<&Vec<Playlist>, DatabaseError>)
        ensures
            match self.device().library {
                Some(library) => read == Ok::<&Vec<Playlist>, DatabaseError>(&library.playlists),
                None => read == Err::<&Vec<Playlist>, DatabaseError>(DatabaseError::NoLibrary),
            },
    {
        match &self.device.library {
            Some(library) => Ok(&library.playlists),
            None => Err(DatabaseError::NoLibrary),
        }
    }

    /// Whether nothing is queued, so that there is nothing to write.
    pub fn is_clean(&self) -> (clean: bool)
        ensures
            clean == (self.queued().len() == 0),
    {
        self.pending.len() == 0
    }

    /// Empties the queue and gives the calls of the session that makes its changes;
    /// `session` says whether the edit session that takes them was started, or
    /// why not. Where it was not, the changes stay queued. Where nothing is
    /// queued, there is nothing to start a session for.
    pub fn write(&mut self, process_id: u32, session: Result<(), String>) -> (written: Result<
        Vec<EditStep>,
        DatabaseError,
    >)
        ensures
            final(self).device() == old(self).device(),
            written is Err <==> old(self).queued().len() > 0 && session is Err,
            written matches Err(e) ==> {
                &&& e == DatabaseError::NoSession(session->Err_0)
                &&& final(self).queued() == old(self).queued()
                &&& final(self).sequence() == old(self).sequence()
            },
            written matches Ok(steps) ==> {
                &&& edits(steps@) == session_edits(
                    old(self).queued(),
                    old(self).sequence(),
                    process_id,
                )
                &&& final(self).queued() == Seq::<Change>::empty()
                &&& final(self).sequence() == number_after_all(
                    old(self).queued(),
                    old(self).sequence(),
                )
            },
    {
        if !self.is_clean() {
            if let Err(cause) = session {
                return Err(DatabaseError::NoSession(cause));
            }
        }
        Ok(self.take_steps(process_id))
    }

    fn take_steps(&mut self, process_id: u32) -> (steps: Vec<EditStep>)
        ensures
            final(self).device() == old(self).device(),
            final(self).queued() == Seq::<Change>::empty(),
            final(self).sequence() == number_after_all(old(self).queued(), old(self).sequence()),
            edits(steps@) == session_edits(old(self).queued(), old(self).sequence(), process_id),
    {
        let ghost changes = self.queued();
        let ghost start = self.sequence();
        let mut pending: Vec<PendingChange> = Vec::new();
        std::mem::swap(&mut pending, &mut self.pending);
        assert(self.queued() =~= Seq::<Change>::empty());
        let mut sequence: u64 = self.artwork_sequence;
        let mut steps: Vec<EditStep> = Vec::new();
        if pending.len() > 0 {
            steps.push(EditStep::DeleteMedia);
        }
        let ghost opening = edits(steps@);
        assert(opening =~= if changes.len() == 0 {
            Seq::<Edit>::empty()
        } else {
            seq![Edit::DeleteMedia]
        });
        assert(opening =~= opening + edits_for_all(changes.take(0), start, process_id));
        for change in it: pending
            invariant
                it.seq() == pending@,
                changes == pending@.map_values(|change: PendingChange| change@),
                sequence == number_after_all(changes.take(it.index() as int), start),
                edits(steps@) == opening + edits_for_all(
                    changes.take(it.index() as int),
                    start,
                    process_id,
                ),
        {
            let ghost n = it.index() as int;
            let ghost before = steps@;
            proof {
                assert(changes.take(n + 1).drop_last() =~= changes.take(n));
                assert(changes.take(n + 1).last() == change@);
            }
            let ghost number = sequence;
            match change {
                PendingChange::Remove(id) => {
                    steps.push(EditStep::RemoveTrack(id));
                },
                PendingChange::Add(add) => {
                    let artwork = match add.artwork {
                        Some(data) => {
                            sequence = sequence.wrapping_add(1);
                            Some(ArtworkFile { name: artwork_name(process_id, sequence), data })
                        },
                        None => None,
                    };
                    let addition = addition_from(add.source, &add.metadata);
                    steps.push(EditStep::AddTrack { addition, artwork });
                },
                PendingChange::SetArtwork { id, artwork } => {
                    sequence = sequence.wrapping_add(1);
                    let file = ArtworkFile {
                        name: artwork_name(process_id, sequence),
                        data: artwork,
                    };
                    steps.push(EditStep::SetArtwork { id, artwork: file });
                },
                PendingChange::CreatePlaylist { name, tracks } => {
                    steps.push(EditStep::CreatePlaylist { name, tracks });
                },
                PendingChange::UpdatePlaylist { id, name, tracks } => {
                    steps.push(EditStep::RenamePlaylist { id, name });
                    steps.push(EditStep::SetPlaylistTracks { id, tracks });
                },
                PendingChange::DeletePlaylist(id) => {
                    steps.push(EditStep::DeletePlaylist(id));
                },
            }
            assert(edits(steps@) =~= edits(before) + edits_for(change@, number, process_id));
            assert(edits(steps@) =~= opening + edits_for_all(
                changes.take(n + 1),
                start,
                process_id,
            ));
        }
        assert(changes.take(changes.len() as int) =~= changes);
        assert(edits(steps@) =~= session_edits(changes, start, process_id));
        self.artwork_sequence = sequence;
        steps
    }

    /// Takes up the device as it is after its library was rewritten.
    pub fn refresh(&mut self, device: Device)
        ensures
            final(self).device() == device,
            final(self).queued() == old(self).queued(),
            final(self).sequence() == old(self).sequence(),
    {
        self.device = device;
    }
}

} // verus!
