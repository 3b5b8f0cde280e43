use copypod::database::{
    Database, Device, EditStep, Library, LibraryTrack, MediaKind, Metadata, Playlist,
    PlaylistHandle, Track, TrackHandle,
};
use copypod::key::metadata_key;
use copypod::path::FilePath;
use copypod::plan::{make_plan, make_playlist_plan};
use copypod::playlist::SourcePlaylist;
use copypod::report::{
    count_plans, describe_artwork, describe_existing, describe_removal, describe_source,
    done_summary, found_summary, plan_summary, print_plan, print_playlist_changes,
    print_playlist_plan, report_plans, scanning_notice, step_line,
};
use copypod::source::{existing_key, source_key, Artwork, SourceTrack};
use copypod::sync::{
    apply_playlist_plan, ignores_artwork, plan_sync, queue_copy, queue_step,
    resolve_playlist_handles, sync_steps, PlaylistSyncError, StepError, SyncStep, TrackTable,
};

fn path(text: &str) -> FilePath {
    let components = text.split('/').map(|part| part.as_bytes().to_vec()).collect();
    FilePath { components, shown: text.to_owned() }
}

fn source(title: &str, artwork: bool) -> SourceTrack {
    SourceTrack {
        path: path(&format!("m/{title}.mp3")),
        metadata: Metadata {
            title: title.to_owned(),
            album: "Album".to_owned(),
            artist: "Artist".to_owned(),
            album_artist: String::new(),
            genre: String::new(),
            comment: String::new(),
            size: 100,
            modified_at: 0,
            duration_ms: 1_000,
            bitrate_kbps: 0,
            sample_rate_hz: 0,
            year: 0,
            track_number: 0,
            track_total: 0,
            disc_number: 0,
            disc_total: 0,
            media_kind: MediaKind::Music,
        },
        artwork: if artwork {
            Some(Artwork { data: vec![5], source: "m/cover.jpg".to_owned() })
        } else {
            None
        },
    }
}

fn track(id: u64, title: &str) -> Track {
    Track {
        handle: TrackHandle(id),
        path: path(&format!("ipod/{id}.mp3")),
        media_missing: false,
        title: title.to_owned(),
        album: "ALBUM ".to_owned(),
        artist: " artist".to_owned(),
        album_artist: "Someone".to_owned(),
        size: 100,
        duration_ms: 1_200,
        track_number: 0,
        disc_number: 0,
        has_artwork: false,
        media_kind: MediaKind::Music,
    }
}

fn handles(tracks: &[&Track]) -> Vec<u64> {
    tracks.iter().map(|track| track.handle.0).collect()
}

fn titles(sources: &[&SourceTrack]) -> Vec<String> {
    sources.iter().map(|source| source.metadata.title.clone()).collect()
}

fn database(tracks: &[Track], playlists: Vec<Playlist>) -> Database {
    let records = tracks
        .iter()
        .map(|track| LibraryTrack {
            id: track.handle.0,
            location: track.path.clone(),
            file: Ok(track.path.clone()),
            title: track.title.clone(),
            album: track.album.clone(),
            artist: track.artist.clone(),
            album_artist: track.album_artist.clone(),
            size: track.size,
            duration_ms: track.duration_ms,
            track_number: track.track_number,
            disc_number: track.disc_number,
            has_artwork: track.has_artwork,
            media_kind: track.media_kind,
        })
        .collect();
    let device = Device {
        profile: None,
        firewire_guid: false,
        library: Some(Library { tracks: records, playlists }),
        missing_media: Ok(Vec::new()),
    };
    match Database::open(device) {
        Ok(database) => database,
        Err(error) => panic!("{}", error.message()),
    }
}

/// The calls that make the queued changes; before them, the files of removed tracks
/// are said to be deleted.
fn written(database: &mut Database, process_id: u32) -> Vec<EditStep> {
    let mut steps = database.write(process_id, Ok(())).unwrap();
    assert!(matches!(steps.remove(0), EditStep::DeleteMedia));
    steps
}

#[test]
fn tracks_are_kept_deleted_or_copied() {
    let sources = vec![source("One", false), source("Two", false)];
    let existing = vec![track(1, "Strange"), track(2, "two"), track(3, "TWO")];
    let (kept, deleted, copied) = make_plan(&sources, &existing);
    assert_eq!(kept.len(), 1);
    assert_eq!(kept[0].existing.handle, TrackHandle(2));
    assert_eq!(kept[0].source.metadata.title, "Two");
    assert_eq!(handles(&deleted), [1, 3]);
    assert_eq!(titles(&copied), ["One"]);
    assert_eq!(source_key(kept[0].source), existing_key(kept[0].existing));
}

#[test]
fn missing_media_is_copied_anew() {
    let sources = vec![source("One", false)];
    let mut gone = track(1, "One");
    gone.media_missing = true;
    let mut obsolete = track(2, "Obsolete");
    obsolete.media_missing = true;
    let existing = vec![gone, obsolete];
    let (kept, deleted, copied) = make_plan(&sources, &existing);
    assert!(kept.is_empty());
    assert_eq!(handles(&deleted), [1, 2]);
    assert_eq!(titles(&copied), ["One"]);

    let mut gone = track(1, "One");
    gone.media_missing = true;
    let existing = vec![gone, track(2, "One")];
    let (kept, deleted, copied) = make_plan(&sources, &existing);
    assert_eq!(kept.len(), 1);
    assert_eq!(handles(&deleted), [1]);
    assert!(copied.is_empty());
}

#[test]
fn synchronized_device_needs_no_change() {
    let sources = vec![source("One", false), source("Two", false)];
    let existing = vec![track(2, "Two"), track(1, "One")];
    let (kept, deleted, copied) = make_plan(&sources, &existing);
    assert_eq!(kept.len(), 2);
    assert!(deleted.is_empty());
    assert!(copied.is_empty());
    let (nothing, none) = (Vec::new(), Vec::new());
    let (kept, deleted, copied) = make_plan(&nothing, &none);
    assert!(kept.is_empty() && deleted.is_empty() && copied.is_empty());
}

#[test]
fn added_track_is_recognized_as_its_source() {
    let mut local = source(" Song  title", false);
    local.metadata.album_artist = " Various ".to_owned();
    local.metadata.artist = "\tSome  One ".to_owned();
    let mut database = database(&[], Vec::new());
    queue_copy(&mut database, &local, true, false).unwrap();
    let EditStep::AddTrack { addition, .. } = written(&mut database, 1).remove(0) else {
        panic!("a track is added");
    };
    let stored = metadata_key(
        &addition.album_artist.unwrap_or_default(),
        &addition.artist.unwrap_or_default(),
        &addition.album.unwrap_or_default(),
        &addition.title,
        local.metadata.size,
        addition.length_ms,
        addition.track_number,
        addition.disc_number,
    );
    assert_eq!(stored, source_key(&local));
}

#[test]
fn dropped_album_artist_makes_no_difference() {
    let mut local = source("Song", false);
    local.metadata.album_artist = "Various".to_owned();
    let mut stored = track(1, "Song");
    stored.album_artist = String::new();
    assert_eq!(source_key(&local), existing_key(&stored));
    let (sources, existing) = (vec![local], vec![stored]);
    let (kept, deleted, copied) = make_plan(&sources, &existing);
    assert_eq!(kept.len(), 1);
    assert!(deleted.is_empty() && copied.is_empty());
}

#[test]
fn interrupted_synchronization_is_finished() {
    let sources = vec![source("One", false), source("Two", false), source("Three", false)];
    let before = vec![track(1, "Old"), track(2, "Two")];
    let (_, deleted, copied) = make_plan(&sources, &before);
    assert_eq!(handles(&deleted), [1]);
    assert_eq!(titles(&copied), ["One", "Three"]);
    let after = vec![track(2, "Two"), track(3, "One")];
    let (kept, deleted, copied) = make_plan(&sources, &after);
    assert_eq!(kept.len(), 2);
    assert!(deleted.is_empty());
    assert_eq!(titles(&copied), ["Three"]);
}

#[test]
fn device_becomes_a_mirror_of_the_sources() {
    let sources = vec![source("One", true), source("Two", false), source("Three", false)];
    let mut gone = track(5, "Three");
    gone.media_missing = true;
    let existing =
        vec![track(1, "Old"), track(2, "One"), track(3, "Two"), track(4, "Two"), gone];
    let plan = plan_sync(&sources, &existing, true);
    let mut database = database(&existing, Vec::new());
    for step in sync_steps(
        false,
        plan.deleted.len(),
        plan.artwork_updates.len(),
        plan.copied.len(),
        false,
    ) {
        queue_step(&mut database, &plan, step, true).unwrap();
    }

    let mut held: Vec<(Option<u64>, String)> = existing
        .iter()
        .map(|track| (Some(track.handle.0), format!("{:?}", existing_key(track))))
        .collect();
    for step in written(&mut database, 1) {
        match step {
            EditStep::RemoveTrack(id) => held.retain(|(number, _)| *number != Some(id)),
            EditStep::AddTrack { addition, .. } => {
                let key = metadata_key(
                    &addition.album_artist.unwrap_or_default(),
                    &addition.artist.unwrap_or_default(),
                    &addition.album.unwrap_or_default(),
                    &addition.title,
                    100,
                    addition.length_ms,
                    addition.track_number,
                    addition.disc_number,
                );
                held.push((None, format!("{key:?}")));
            }
            EditStep::SetArtwork { id, .. } => assert_eq!(id, 2),
            _ => panic!("there are no playlists"),
        }
    }
    let mut found: Vec<String> = held.into_iter().map(|(_, key)| key).collect();
    let mut wanted: Vec<String> =
        sources.iter().map(|source| format!("{:?}", source_key(source))).collect();
    found.sort();
    wanted.sort();
    assert_eq!(found, wanted);
}

#[test]
fn every_track_that_was_read_can_be_removed() {
    let mut database = database(&[track(1, "One"), track(2, "Two")], Vec::new());
    for track in database.tracks().unwrap() {
        database.remove_track(track.handle).unwrap();
    }
    assert_eq!(written(&mut database, 1).len(), 2);
}

#[test]
fn missing_artwork_is_added_where_it_can_be_stored() {
    let sources = vec![source("One", true), source("Two", true), source("Three", false)];
    let mut with_art = track(2, "Two");
    with_art.has_artwork = true;
    let existing = vec![track(1, "One"), with_art, track(3, "Three")];
    let plan = plan_sync(&sources, &existing, true);
    assert_eq!(plan.artwork_updates, vec![0]);
    assert!(!ignores_artwork(&plan.kept, &plan.copied, true));
    let plan = plan_sync(&sources, &existing, false);
    assert!(plan.artwork_updates.is_empty());
    assert!(ignores_artwork(&plan.kept, &plan.copied, false));
    let plain = vec![source("Three", false)];
    let plan = plan_sync(&plain, &existing, false);
    assert!(!ignores_artwork(&plan.kept, &plan.copied, false));
    let copies = vec![source("New", true)];
    let plan = plan_sync(&copies, &existing, false);
    assert!(ignores_artwork(&plan.kept, &plan.copied, false));
}

#[test]
fn removals_come_before_additions_and_playlists_last() {
    assert_eq!(
        sync_steps(false, 2, 1, 1, true),
        vec![
            SyncStep::Delete(0),
            SyncStep::Delete(1),
            SyncStep::FinishDeletions,
            SyncStep::AddArtwork(0),
            SyncStep::Copy(0),
            SyncStep::FinishCopies,
            SyncStep::WritePlaylists,
        ]
    );
    assert_eq!(
        sync_steps(false, 0, 0, 0, false),
        vec![SyncStep::FinishDeletions, SyncStep::FinishCopies]
    );
}

#[test]
fn dry_run_has_no_steps() {
    assert!(sync_steps(true, 3, 3, 3, true).is_empty());
}

#[test]
fn steps_queue_their_changes() {
    let sources = vec![source("Art", true), source("New", true)];
    let existing = vec![track(1, "Old"), track(2, "Art")];
    let plan = plan_sync(&sources, &existing, true);
    let mut database = database(&existing, Vec::new());
    for step in sync_steps(false, 1, 1, 1, false) {
        queue_step(&mut database, &plan, step, true).unwrap();
    }
    let steps = written(&mut database, 1);
    assert_eq!(steps.len(), 3);
    assert!(matches!(steps[0], EditStep::RemoveTrack(1)));
    assert!(matches!(&steps[1],
        EditStep::SetArtwork { id: 2, artwork } if artwork.data == [5]));
    assert!(matches!(&steps[2],
        EditStep::AddTrack { addition, artwork: Some(_) } if addition.title == "New"));
}

#[test]
fn artwork_is_added_without_copying_the_audio() {
    let sources = vec![source("Art", true)];
    let existing = vec![track(2, "Art")];
    let plan = plan_sync(&sources, &existing, true);
    assert!(plan.deleted.is_empty() && plan.copied.is_empty());
    for is_file in [false, true] {
        let mut database = database(&existing, Vec::new());
        queue_step(&mut database, &plan, SyncStep::AddArtwork(0), is_file).unwrap();
        let steps = written(&mut database, 9);
        assert_eq!(steps.len(), 1);
        assert!(matches!(&steps[0],
            EditStep::SetArtwork { id: 2, artwork }
                if artwork.data == [5] && artwork.name == "copyPod-9-1.art"));
    }
}

#[test]
fn no_artwork_is_queued_where_it_cannot_be_stored() {
    let sources = vec![source("New", true)];
    let existing = Vec::new();
    let plan = plan_sync(&sources, &existing, false);
    let mut database = database(&existing, Vec::new());
    queue_step(&mut database, &plan, SyncStep::Copy(0), true).unwrap();
    let steps = written(&mut database, 1);
    assert!(matches!(steps[0], EditStep::AddTrack { artwork: None, .. }));
}

#[test]
fn steps_fail_with_the_track_they_are_for() {
    let sources = vec![source("Art", true), source("New", true)];
    let existing = vec![track(1, "Old"), track(2, "Art")];
    let plan = plan_sync(&sources, &existing, true);
    let mut empty = database(&[], Vec::new());
    let error = queue_step(&mut empty, &plan, SyncStep::Delete(0), true).unwrap_err();
    assert!(matches!(error, StepError::Delete { .. }));
    assert_eq!(
        error.message(),
        "failed to delete ipod/1.mp3: track is not present in the opened library"
    );
    let error = queue_step(&mut empty, &plan, SyncStep::AddArtwork(0), true).unwrap_err();
    assert_eq!(
        error.message(),
        "failed to add artwork for m/Art.mp3: track is not present in the opened library"
    );
    let error = queue_step(&mut empty, &plan, SyncStep::Copy(0), false).unwrap_err();
    assert_eq!(
        error.message(),
        "failed to copy m/New.mp3; rerun copyPod to retry: \
         track source is not a regular file: m/New.mp3"
    );
    assert!(empty.is_clean());
}

fn list(name: &str, titles: &[&str]) -> SourcePlaylist {
    SourcePlaylist {
        name: name.to_owned(),
        path: path(&format!("p/{name}.m3u")),
        tracks: titles.iter().map(|title| source_key(&source(title, false))).collect(),
    }
}

fn on_device(id: u64, name: &str, tracks: &[u64]) -> Playlist {
    Playlist {
        handle: PlaylistHandle(id),
        name: name.to_owned(),
        tracks: tracks.iter().map(|id| TrackHandle(*id)).collect(),
        is_hidden: false,
        is_smart: false,
    }
}

fn names(lists: &[&SourcePlaylist]) -> Vec<String> {
    lists.iter().map(|list| list.name.clone()).collect()
}

#[test]
fn playlists_are_kept_created_or_updated() {
    let tracks = vec![track(1, "One"), track(2, "Two")];
    let sources = vec![
        list("Kept", &["One", "Two"]),
        list("Renamed", &["One"]),
        list("Reordered", &["Two", "One"]),
        list("New", &["One"]),
        list("Unknown", &["One"]),
    ];
    let existing = vec![
        on_device(10, "Kept", &[1, 2]),
        on_device(11, "RENAMED", &[1]),
        on_device(12, "Reordered", &[1, 2]),
        on_device(13, "Unrelated", &[1]),
        on_device(14, "Unknown", &[99]),
    ];
    let plan = make_playlist_plan(&sources, &existing, &tracks);
    assert_eq!(names(&plan.kept), ["Kept"]);
    assert_eq!(names(&plan.created), ["New"]);
    let updated: Vec<(String, u64)> =
        plan.updated.iter().map(|entry| (entry.source.name.clone(), entry.handle.0)).collect();
    assert_eq!(
        updated,
        [("Renamed".to_owned(), 11), ("Reordered".to_owned(), 12), ("Unknown".to_owned(), 14)]
    );
    assert!(plan.obsolete.is_empty());
}

#[test]
fn hidden_and_smart_playlists_are_not_taken() {
    let sources = vec![list("Mix", &[])];
    let mut hidden = on_device(1, "Mix", &[]);
    hidden.is_hidden = true;
    let mut smart = on_device(2, "Mix", &[]);
    smart.is_smart = true;
    let existing = vec![hidden, smart];
    let plan = make_playlist_plan(&sources, &existing, &Vec::new());
    assert_eq!(names(&plan.created), ["Mix"]);
    assert!(plan.updated.is_empty());
}

#[test]
fn no_playlist_is_taken_twice() {
    let sources = vec![list("Mix", &[]), list("MIX", &[]), list("mix ", &[])];
    let existing = vec![on_device(1, "Mix", &[]), on_device(2, "mix", &[])];
    let plan = make_playlist_plan(&sources, &existing, &Vec::new());
    assert_eq!(names(&plan.kept), ["Mix"]);
    assert_eq!(plan.updated.len(), 1);
    assert_eq!(plan.updated[0].handle, PlaylistHandle(2));
    assert_eq!(names(&plan.created), ["mix "]);
}

#[test]
fn prefixed_copies_are_obsolete() {
    let sources = vec![list("Mix", &[])];
    let mut smart = on_device(4, "000 Mix", &[]);
    smart.is_smart = true;
    let existing = vec![
        on_device(1, "000 mix", &[]),
        on_device(2, "Mix", &[]),
        on_device(3, "000 Other", &[]),
        smart,
    ];
    let plan = make_playlist_plan(&sources, &existing, &Vec::new());
    assert_eq!(names(&plan.kept), ["Mix"]);
    assert_eq!(plan.obsolete.len(), 1);
    assert_eq!(plan.obsolete[0].handle, PlaylistHandle(1));
}

#[test]
fn playlist_that_is_taken_is_not_obsolete() {
    let sources = vec![list("Mix", &[]), list("000 Mix", &[])];
    let existing = vec![on_device(1, "000 Mix", &[])];
    let plan = make_playlist_plan(&sources, &existing, &Vec::new());
    assert_eq!(names(&plan.created), ["Mix"]);
    assert_eq!(names(&plan.kept), ["000 Mix"]);
    assert!(plan.obsolete.is_empty());
}

#[test]
fn playlist_plans_are_carried_out() {
    let tracks = vec![track(1, "One"), track(2, "Two")];
    let sources = vec![list("New", &["Two", "One"]), list("Mix", &["Two"])];
    let existing = vec![on_device(7, "mix", &[1]), on_device(8, "000 New", &[])];
    let mut database = database(
        &tracks,
        vec![on_device(7, "mix", &[1]), on_device(8, "000 New", &[])],
    );
    let plan = make_playlist_plan(&sources, &existing, &tracks);
    apply_playlist_plan(&mut database, &plan, &TrackTable::new(&tracks)).unwrap();
    let steps = written(&mut database, 1);
    assert_eq!(steps.len(), 4);
    assert!(matches!(&steps[0],
        EditStep::CreatePlaylist { name, tracks } if name == "New" && tracks == &[2, 1]));
    assert!(matches!(&steps[1], EditStep::RenamePlaylist { id: 7, name } if name == "Mix"));
    assert!(matches!(&steps[2], EditStep::SetPlaylistTracks { id: 7, tracks } if tracks == &[2]));
    assert!(matches!(steps[3], EditStep::DeletePlaylist(8)));

    let after = vec![on_device(7, "Mix", &[2]), on_device(9, "New", &[2, 1])];
    let again = make_playlist_plan(&sources, &after, &tracks);
    assert_eq!(again.kept.len(), 2);
    assert!(again.created.is_empty() && again.updated.is_empty() && again.obsolete.is_empty());
}

#[test]
fn unsynchronized_tracks_stop_a_playlist() {
    let tracks = vec![track(1, "One")];
    let wanted = list("Mix", &["One", "Two"]);
    let error = resolve_playlist_handles(&wanted, &TrackTable::new(&tracks)).unwrap_err();
    assert!(matches!(error, PlaylistSyncError::NotSynchronized { .. }));
    assert_eq!(
        error.message(),
        "playlist p/Mix.m3u contains a track that was not synchronized"
    );
    let both = vec![track(1, "One"), track(2, "Two"), track(3, "One")];
    assert_eq!(
        resolve_playlist_handles(&wanted, &TrackTable::new(&both)).unwrap(),
        vec![TrackHandle(3), TrackHandle(2)]
    );
}

#[test]
fn playlists_that_cannot_be_queued_are_named() {
    let tracks = Vec::new();
    let mut database = database(&[], Vec::new());
    let table = TrackTable::new(&tracks);

    let blank = vec![list(" ", &[])];
    let nothing = Vec::new();
    let plan = make_playlist_plan(&blank, &nothing, &tracks);
    let error = apply_playlist_plan(&mut database, &plan, &table).unwrap_err();
    assert_eq!(error.message(), "failed to create playlist  : playlist name must not be empty");

    let sources = vec![list("Mix", &[])];
    let existing = vec![on_device(7, "mix", &[])];
    let plan = make_playlist_plan(&sources, &existing, &tracks);
    let error = apply_playlist_plan(&mut database, &plan, &table).unwrap_err();
    assert_eq!(
        error.message(),
        "failed to update playlist Mix: \
         playlist is absent, hidden, or smart and cannot be updated"
    );

    let existing = vec![on_device(7, "000 Mix", &[])];
    let plan = make_playlist_plan(&sources, &existing, &tracks);
    let error = apply_playlist_plan(&mut database, &plan, &table).unwrap_err();
    assert_eq!(
        error.message(),
        "failed to delete playlist 000 Mix: \
         playlist is absent, hidden, or smart and cannot be deleted"
    );
    assert_eq!(written(&mut database, 1).len(), 1);
}

#[test]
fn tracks_are_described() {
    let mut old = track(1, "Old");
    assert_eq!(describe_existing(&old), " artist — Old (ipod/1.mp3)");
    old.artist = String::new();
    old.title = String::new();
    assert_eq!(describe_existing(&old), "Unknown Artist — 1 (ipod/1.mp3)");
    old.path = FilePath { components: Vec::new(), shown: "?".to_owned() };
    assert_eq!(describe_existing(&old), "Unknown Artist — Unknown Title (?)");
    old.media_missing = true;
    assert_eq!(describe_removal(&old), "missing media: Unknown Artist — Unknown Title (?)");
    let local = source("New", true);
    assert_eq!(describe_source(&local), "Artist — New (m/New.mp3)");
    assert_eq!(describe_artwork(&local), "Artist — New (m/cover.jpg)");
}

#[test]
fn plan_is_shown_line_by_line() {
    let sources = vec![source("Art", true), source("New", false)];
    let mut gone = track(3, "Gone");
    gone.media_missing = true;
    let existing = vec![track(1, "Old"), track(2, "Art"), gone];
    let plan = plan_sync(&sources, &existing, true);
    assert_eq!(
        print_plan(&plan),
        [
            "-  artist — Old (ipod/1.mp3)",
            "- missing media:  artist — Gone (ipod/3.mp3)",
            "+ Artist — New (m/New.mp3)",
            "~ artwork: Artist — Art (m/cover.jpg)",
        ]
    );
    assert_eq!(
        step_line(&plan, SyncStep::Delete(0)).unwrap(),
        "DELETE  artist — Old (ipod/1.mp3)"
    );
    assert_eq!(
        step_line(&plan, SyncStep::AddArtwork(0)).unwrap(),
        "ART    Artist — Art (m/cover.jpg)"
    );
    assert_eq!(
        step_line(&plan, SyncStep::Copy(0)).unwrap(),
        "COPY   Artist — New (m/New.mp3)"
    );
    assert_eq!(step_line(&plan, SyncStep::FinishCopies), None);
}

#[test]
fn playlist_plan_is_shown_line_by_line() {
    let sources = vec![list("New", &[]), list("Mix", &[])];
    let existing = vec![on_device(1, "mix", &[]), on_device(2, "000 New", &[])];
    let plan = make_playlist_plan(&sources, &existing, &Vec::new());
    assert_eq!(
        print_playlist_plan(&plan),
        [
            "+ playlist: New (p/New.m3u)",
            "~ playlist: Mix (p/Mix.m3u)",
            "- playlist: 000 New",
        ]
    );
    assert_eq!(
        print_playlist_changes(&plan),
        ["PLAYLIST + New (p/New.m3u)", "PLAYLIST ~ Mix (p/Mix.m3u)", "PLAYLIST - 000 New"]
    );
}

#[test]
fn plans_are_reported_before_anything_is_done() {
    let sources = vec![source("New", true)];
    let existing = vec![track(1, "Old")];
    let lists = vec![list("Mix", &[])];
    let nothing = Vec::new();
    let playlists = make_playlist_plan(&lists, &nothing, &existing);
    let plan = plan_sync(&sources, &existing, false);
    let counts = count_plans(&plan, &playlists);
    let all = [
        "Plan: keep 0, delete 1, copy 1, add artwork to 0; \
         keep 0 playlist(s), create 1, update 0.",
        "       (embedded artwork ignored: this device cannot store cover art)",
        "-  artist — Old (ipod/1.mp3)",
        "+ Artist — New (m/New.mp3)",
        "+ playlist: Mix (p/Mix.m3u)",
        "Dry run: no files or database entries were changed.",
    ];
    assert_eq!(report_plans(&plan, &playlists, counts, true), all);
    assert_eq!(report_plans(&plan, &playlists, counts, false), all[..5]);
    let plan = plan_sync(&sources, &existing, true);
    assert_eq!(report_plans(&plan, &playlists, counts, false).len(), 4);
}

#[test]
fn summaries_count_everything() {
    assert_eq!(scanning_notice(2, 0), "Scanning 2 source folder(s)…");
    assert_eq!(
        scanning_notice(0, 3),
        "Scanning 0 source folder(s) and 3 playlist source(s)…"
    );
    assert_eq!(found_summary(3, 0, 1), "Found 3 unique MP3 file(s) and 1 M3U playlist(s).");
    assert_eq!(
        found_summary(12, 10, 0),
        "Found 12 unique MP3 file(s) (10 duplicate(s) ignored) and 0 M3U playlist(s)."
    );
    let sources = vec![source("Art", true), source("New", false)];
    let existing = vec![track(1, "Old"), track(2, "Art")];
    let plan = plan_sync(&sources, &existing, true);
    let lists = vec![list("New", &[]), list("Mix", &[])];
    let lists_there = vec![on_device(1, "mix", &[]), on_device(2, "000 New", &[])];
    let playlists = make_playlist_plan(&lists, &lists_there, &Vec::new());
    let mut counts = count_plans(&plan, &playlists);
    assert_eq!(
        plan_summary(counts),
        "Plan: keep 1, delete 1, copy 1, add artwork to 1; \
         keep 0 playlist(s), create 1, update 1, delete 1."
    );
    counts.playlists_deleted = 0;
    assert_eq!(
        plan_summary(counts),
        "Plan: keep 1, delete 1, copy 1, add artwork to 1; \
         keep 0 playlist(s), create 1, update 1."
    );
    assert_eq!(
        done_summary(counts),
        "Done: kept 1, deleted 1, copied 1, added artwork to 1; \
         created 1 playlist(s), updated 1. Unmount/eject the iPod before unplugging it."
    );
}
