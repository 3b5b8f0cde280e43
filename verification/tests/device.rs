use copypod::database::{
    non_empty, profile_supports_playlists, validate_playlist_name, BackendKind, ChecksumKind,
    Database, DatabaseError, Device, DeviceProfile, EditStep, Library, LibraryTrack, MediaKind,
    Metadata, Playlist, PlaylistHandle, TrackHandle,
};
use copypod::path::FilePath;

fn path(text: &str) -> FilePath {
    let components = text.split('/').map(|part| part.as_bytes().to_vec()).collect();
    FilePath { components, shown: text.to_owned() }
}

fn profile(key: &str, checksum: ChecksumKind, backend: BackendKind, artwork: bool) -> DeviceProfile {
    DeviceProfile {
        key: key.to_owned(),
        display_name: format!("iPod {key}"),
        checksum,
        backend,
        artwork,
    }
}

fn record(id: u64, title: &str) -> LibraryTrack {
    LibraryTrack {
        id,
        location: path("mnt/gone.mp3"),
        file: Ok(path("mnt/there.mp3")),
        title: title.to_owned(),
        album: "Album".to_owned(),
        artist: "Artist".to_owned(),
        album_artist: "Various".to_owned(),
        size: 10,
        duration_ms: 20,
        track_number: 3,
        disc_number: 4,
        has_artwork: true,
        media_kind: MediaKind::Podcast,
    }
}

fn playlist(id: u64, name: &str) -> Playlist {
    Playlist {
        handle: PlaylistHandle(id),
        name: name.to_owned(),
        tracks: vec![TrackHandle(1)],
        is_hidden: false,
        is_smart: false,
    }
}

fn device(profile: Option<DeviceProfile>) -> Device {
    Device {
        profile,
        firewire_guid: false,
        library: Some(Library {
            tracks: vec![record(1, "One"), record(2, "Two")],
            playlists: vec![playlist(7, "Mix")],
        }),
        missing_media: Ok(vec![2]),
    }
}

fn open(device: Device) -> Database {
    match Database::open(device) {
        Ok(database) => database,
        Err(error) => panic!("{}", error.message()),
    }
}

fn metadata() -> Metadata {
    Metadata {
        title: " Song ".to_owned(),
        album: " Album ".to_owned(),
        artist: "Artist".to_owned(),
        album_artist: "  ".to_owned(),
        genre: String::new(),
        comment: "not stored".to_owned(),
        size: 10,
        modified_at: 11,
        duration_ms: 12,
        bitrate_kbps: 13,
        sample_rate_hz: 14,
        year: 15,
        track_number: 16,
        track_total: 17,
        disc_number: 18,
        disc_total: 19,
        media_kind: MediaKind::Music,
    }
}

/// The calls that make the queued changes; before them, the files of removed tracks
/// are said to be deleted.
fn written(database: &mut Database, process_id: u32) -> Vec<EditStep> {
    let mut steps = database.write(process_id, Ok(())).unwrap();
    assert!(matches!(steps.remove(0), EditStep::DeleteMedia));
    steps
}

#[test]
fn enables_qualified_playlist_backends() {
    assert!(profile_supports_playlists("nano-3g", BackendKind::Binary));
    assert!(profile_supports_playlists(
        "nano-7g",
        BackendKind::SqliteWithBinaryCompanion
    ));
    assert!(!profile_supports_playlists(
        "future-sqlite-device",
        BackendKind::SqliteWithBinaryCompanion
    ));
}

#[test]
fn device_without_library_is_refused() {
    let mut bare = device(None);
    bare.library = None;
    match Database::open(bare) {
        Ok(_) => panic!("there is nothing to read"),
        Err(error) => assert_eq!(
            error.message(),
            "libopod does not yet have a read adapter for this device profile"
        ),
    }
}

#[test]
fn profile_tells_what_a_device_can_do() {
    let nano = open(device(Some(profile(
        "nano-7g",
        ChecksumKind::HashAb,
        BackendKind::SqliteWithBinaryCompanion,
        true,
    ))));
    assert_eq!(nano.description(), "iPod nano-7g");
    assert!(nano.requires_firewire_guid());
    assert!(nano.supports_artwork());
    assert!(nano.supports_podcasts());
    assert!(nano.supports_playlists());
    assert!(!nano.has_firewire_guid());
    assert_eq!(nano.track_count(), 2);

    let classic =
        open(device(Some(profile("classic", ChecksumKind::Hash58, BackendKind::Binary, false))));
    assert!(classic.requires_firewire_guid());
    assert!(!classic.supports_artwork());
    assert!(!classic.supports_podcasts());
    assert!(classic.supports_playlists());

    let other = open(device(Some(profile("x", ChecksumKind::Other, BackendKind::Other, true))));
    assert!(!other.requires_firewire_guid());
    assert!(!other.supports_playlists());

    let unknown = open(device(None));
    assert_eq!(unknown.description(), "unknown iPod");
    assert!(!unknown.requires_firewire_guid());
    assert!(!unknown.supports_artwork());
    assert!(!unknown.supports_podcasts());
    assert!(!unknown.supports_playlists());
}

#[test]
fn missing_files_are_marked() {
    let tracks = open(device(None)).tracks().unwrap();
    assert_eq!(tracks.len(), 2);
    assert_eq!(tracks[0].handle, TrackHandle(1));
    assert!(!tracks[0].media_missing);
    assert_eq!(tracks[0].path.shown, "mnt/there.mp3");
    assert_eq!(tracks[0].title, "One");
    assert_eq!(tracks[0].artist, "Artist");
    assert_eq!(tracks[0].album, "Album");
    assert_eq!(tracks[0].album_artist, "Various");
    assert_eq!((tracks[0].size, tracks[0].duration_ms), (10, 20));
    assert_eq!((tracks[0].track_number, tracks[0].disc_number), (3, 4));
    assert!(tracks[0].has_artwork);
    assert_eq!(tracks[0].media_kind, MediaKind::Podcast);
    assert!(tracks[1].media_missing);
    assert_eq!(tracks[1].path.shown, "mnt/gone.mp3");
}

#[test]
fn failed_audit_stops_reading() {
    let mut unknown = device(None);
    unknown.missing_media = Err("I/O error".to_owned());
    let error = open(unknown).tracks().unwrap_err();
    assert_eq!(error.message(), "audit iPod media references: I/O error");
}

#[test]
fn file_that_is_found_nowhere_stops_reading() {
    let mut broken = device(None);
    if let Some(library) = &mut broken.library {
        library.tracks[0].file = Err("outside the device".to_owned());
        library.tracks[1].file = Err("known to be gone".to_owned());
    }
    let error = open(broken).tracks().unwrap_err();
    assert!(matches!(error, DatabaseError::TrackPath(_)));
    assert_eq!(error.message(), "outside the device");
}

#[test]
fn refreshed_device_may_have_no_library() {
    let mut database = open(device(None));
    let mut bare = device(None);
    bare.library = None;
    database.refresh(bare);
    assert_eq!(database.track_count(), 0);
    let message = "libopod has no readable library for this device";
    assert_eq!(database.tracks().unwrap_err().message(), message);
    assert_eq!(database.playlists().unwrap_err().message(), message);
    assert!(database.remove_track(TrackHandle(1)).is_err());
    assert!(database.delete_playlist(PlaylistHandle(7)).is_err());
}

#[test]
fn playlists_are_as_the_library_has_them() {
    let database = open(device(None));
    let playlists = database.playlists().unwrap();
    assert_eq!(playlists.len(), 1);
    assert_eq!(playlists[0].name, "Mix");
    assert_eq!(playlists[0].handle, PlaylistHandle(7));
}

#[test]
fn only_known_tracks_are_removed() {
    let mut database = open(device(None));
    assert!(database.is_clean());
    let error = database.remove_track(TrackHandle(3)).unwrap_err();
    assert_eq!(error.message(), "track is not present in the opened library");
    assert!(database.is_clean());
    database.remove_track(TrackHandle(2)).unwrap();
    assert!(!database.is_clean());
    let steps = written(&mut database, 1);
    assert_eq!(steps.len(), 1);
    assert!(matches!(steps[0], EditStep::RemoveTrack(2)));
    assert!(database.is_clean());
    assert!(database.write(1, Ok(())).unwrap().is_empty());
}

#[test]
fn files_of_removed_tracks_are_deleted() {
    let mut database = open(device(None));
    database.remove_track(TrackHandle(1)).unwrap();
    database.remove_track(TrackHandle(2)).unwrap();
    let steps = database.write(1, Ok(())).unwrap();
    assert_eq!(steps.len(), 3);
    assert!(matches!(steps[0], EditStep::DeleteMedia));
    assert!(matches!(steps[1], EditStep::RemoveTrack(1)));
    assert!(matches!(steps[2], EditStep::RemoveTrack(2)));
}

#[test]
fn only_regular_files_are_added() {
    let mut database = open(device(None));
    let error = database.add_track(&path("x.mp3"), false, &metadata(), None).unwrap_err();
    assert_eq!(error.message(), "track source is not a regular file: x.mp3");
    assert!(database.is_clean());
}

#[test]
fn additions_leave_out_blank_tags() {
    let mut database = open(device(None));
    database.add_track(&path("m/x.mp3"), true, &metadata(), None).unwrap();
    let mut steps = written(&mut database, 1);
    assert_eq!(steps.len(), 1);
    let EditStep::AddTrack { addition, artwork } = steps.remove(0) else {
        panic!("a track is added");
    };
    assert!(artwork.is_none());
    assert_eq!(addition.source_path.shown, "m/x.mp3");
    assert_eq!(addition.title, " Song ");
    assert_eq!(addition.artist.as_deref(), Some("Artist"));
    assert_eq!(addition.album.as_deref(), Some("Album"));
    assert_eq!(addition.album_artist, None);
    assert_eq!(addition.genre, None);
    assert_eq!(addition.composer, None);
    assert!(!addition.compilation && !addition.reuse_album_art);
    assert_eq!((addition.length_ms, addition.bitrate, addition.sample_rate), (12, 13, 14));
    assert_eq!((addition.year, addition.track_number, addition.total_tracks), (15, 16, 17));
    assert_eq!((addition.disc_number, addition.total_discs), (18, 19));
    assert_eq!(addition.media_kind, MediaKind::Music);
}

fn picture_names(steps: &[EditStep]) -> Vec<String> {
    steps
        .iter()
        .filter_map(|step| match step {
            EditStep::AddTrack { artwork: Some(file), .. } => Some(file.name.clone()),
            _ => None,
        })
        .collect()
}

#[test]
fn pictures_are_numbered_through() {
    let mut database = open(device(None));
    let art = vec![1, 2, 3];
    database.add_track(&path("a.mp3"), true, &metadata(), Some(&art)).unwrap();
    database.add_track(&path("b.mp3"), true, &metadata(), None).unwrap();
    database.add_track(&path("c.mp3"), true, &metadata(), Some(&art)).unwrap();
    let steps = written(&mut database, 42);
    assert_eq!(picture_names(&steps), ["copyPod-42-1.art", "copyPod-42-2.art"]);
    let EditStep::AddTrack { artwork: Some(file), .. } = &steps[0] else {
        panic!("a picture comes along");
    };
    assert_eq!(file.data, art);
    database.add_track(&path("d.mp3"), true, &metadata(), Some(&art)).unwrap();
    assert_eq!(picture_names(&written(&mut database, 42)), ["copyPod-42-3.art"]);
}

#[test]
fn artwork_is_set_on_tracks_that_are_there() {
    let mut database = open(device(None));
    let art = vec![1, 2, 3];
    let error = database.set_artwork(TrackHandle(9), &art).unwrap_err();
    assert_eq!(error.message(), "track is not present in the opened library");
    assert!(database.is_clean());
    database.set_artwork(TrackHandle(2), &art).unwrap();
    database.add_track(&path("a.mp3"), true, &metadata(), Some(&art)).unwrap();
    let steps = written(&mut database, 42);
    assert_eq!(steps.len(), 2);
    assert!(matches!(&steps[0],
        EditStep::SetArtwork { id: 2, artwork }
            if artwork.name == "copyPod-42-1.art" && artwork.data == art));
    assert_eq!(picture_names(&steps), ["copyPod-42-2.art"]);
}

#[test]
fn changes_stay_queued_where_no_session_is_started() {
    let mut database = open(device(None));
    let art = vec![1];
    assert!(database.write(1, Err("busy".to_owned())).unwrap().is_empty());
    database.set_artwork(TrackHandle(2), &art).unwrap();
    database.remove_track(TrackHandle(1)).unwrap();
    let error = database.write(1, Err("busy".to_owned())).unwrap_err();
    assert_eq!(error.message(), "libopod could not start an edit session: busy");
    assert!(!database.is_clean());
    let steps = written(&mut database, 1);
    assert_eq!(steps.len(), 2);
    assert!(matches!(&steps[0],
        EditStep::SetArtwork { artwork, .. } if artwork.name == "copyPod-1-1.art"));
    assert!(database.is_clean());
}

#[test]
fn changes_are_made_in_the_order_in_which_they_were_queued() {
    let mut database = open(device(None));
    database.create_playlist("New", &vec![TrackHandle(2), TrackHandle(1)]).unwrap();
    database.remove_track(TrackHandle(1)).unwrap();
    database.update_playlist(PlaylistHandle(7), "Renamed", &vec![TrackHandle(2)]).unwrap();
    database.delete_playlist(PlaylistHandle(7)).unwrap();
    let steps = written(&mut database, 1);
    assert_eq!(steps.len(), 5);
    match &steps[0] {
        EditStep::CreatePlaylist { name, tracks } => {
            assert_eq!(name, "New");
            assert_eq!(tracks, &[2, 1]);
        }
        _ => panic!("the playlist comes first"),
    }
    assert!(matches!(steps[1], EditStep::RemoveTrack(1)));
    assert!(matches!(&steps[2], EditStep::RenamePlaylist { id: 7, name } if name == "Renamed"));
    assert!(matches!(&steps[3], EditStep::SetPlaylistTracks { id: 7, tracks } if tracks == &[2]));
    assert!(matches!(steps[4], EditStep::DeletePlaylist(7)));
}

#[test]
fn writing_in_two_parts_gives_the_same_calls() {
    let art = vec![9];
    let mut once = open(device(None));
    let mut twice = open(device(None));
    for database in [&mut once, &mut twice] {
        database.add_track(&path("a.mp3"), true, &metadata(), Some(&art)).unwrap();
        database.remove_track(TrackHandle(1)).unwrap();
    }
    let mut parts = written(&mut twice, 5);
    for database in [&mut once, &mut twice] {
        database.add_track(&path("b.mp3"), true, &metadata(), Some(&art)).unwrap();
        database.delete_playlist(PlaylistHandle(7)).unwrap();
    }
    parts.extend(written(&mut twice, 5));
    assert_eq!(format!("{:?}", written(&mut once, 5)), format!("{parts:?}"));
}

#[test]
fn hidden_and_smart_playlists_are_left_alone() {
    for (hidden, smart) in [(true, false), (false, true)] {
        let mut guarded = device(None);
        if let Some(library) = &mut guarded.library {
            library.playlists[0].is_hidden = hidden;
            library.playlists[0].is_smart = smart;
        }
        let mut database = open(guarded);
        let error =
            database.update_playlist(PlaylistHandle(7), "Mix", &Vec::new()).unwrap_err();
        assert_eq!(
            error.message(),
            "playlist is absent, hidden, or smart and cannot be updated"
        );
        let error = database.delete_playlist(PlaylistHandle(7)).unwrap_err();
        assert_eq!(
            error.message(),
            "playlist is absent, hidden, or smart and cannot be deleted"
        );
        assert!(database.is_clean());
    }
}

#[test]
fn playlists_on_a_device_need_a_name() {
    let mut database = open(device(None));
    let message = "playlist name must not be empty";
    assert_eq!(database.create_playlist(" \t", &Vec::new()).unwrap_err().message(), message);
    assert_eq!(
        database.update_playlist(PlaylistHandle(7), "", &Vec::new()).unwrap_err().message(),
        message
    );
    assert!(validate_playlist_name("\u{2003}").is_err());
    assert!(validate_playlist_name(" x ").is_ok());
    assert!(database.is_clean());
}

#[test]
fn blank_texts_are_left_out() {
    assert_eq!(non_empty("  x y "), Some("x y".to_owned()));
    assert_eq!(non_empty(" \n "), None);
    assert_eq!(non_empty(""), None);
}
