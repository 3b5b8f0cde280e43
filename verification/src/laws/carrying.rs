//! What is queued for a device and handed to it, in terms of the plans.

use vstd::prelude::*;

use crate::database::{
    Addition, Change, Database, DatabaseError, Device, Edit, EditStep, LibraryTrack, Metadata,
    PlaylistHandle, Track, TrackHandle,
};
use crate::laws::finding::ends_like_a_playlist;
use crate::laws::reading::is_core_of;
use crate::path::FilePath;
use crate::plan::PlaylistPlan;
use crate::playlist::SourcePlaylist;
use crate::report::{count_plans, report_plans, SyncCounts};
use crate::setup::{validate_libraries, validate_playlists, PathProbe, SetupError};
use crate::sync::{
    resolve_playlist_handles, sync_steps, PlaylistSyncError, StepError, SyncPlan, SyncStep,
    TrackTable,
};
use crate::text;

verus! {

/// A dry run has no steps. Any other run removes every track that is to go and commits
/// that, then adds cover art and tracks, every one of them, and commits those, and then
/// writes the playlists where there are any.
pub proof fn law_steps_come_in_order(
    dry_run: bool,
    deleted: usize,
    artwork: usize,
    copied: usize,
    playlists: bool,
    steps: Vec<SyncStep>,
)
    requires
        call_ensures(sync_steps, (dry_run, deleted, artwork, copied, playlists), steps),
    ensures
        dry_run ==> steps@.len() == 0,
        !dry_run ==> {
            let d = deleted as int;
            let a = artwork as int;
            let c = copied as int;
            &&& steps@.len() == d + a + c + 2 + (if playlists { 1int } else { 0int })
            &&& forall|i: int| 0 <= i < d ==> #[trigger] steps@[i] == SyncStep::Delete(i as usize)
            &&& steps@[d] == SyncStep::FinishDeletions
            &&& forall|i: int|
                0 <= i < a ==> #[trigger] steps@[d + 1 + i] == SyncStep::AddArtwork(i as usize)
            &&& forall|i: int|
                0 <= i < c ==> #[trigger] steps@[d + 1 + a + i] == SyncStep::Copy(i as usize)
            &&& steps@[d + 1 + a + c] == SyncStep::FinishCopies
            &&& playlists ==> steps@[d + a + c + 2] == SyncStep::WritePlaylists
        },
{
}

/// Whether a number is that of a track in the device's library.
pub open spec fn is_track_number(device: Device, number: u64, i: int) -> bool {
    &&& device.library is Some
    &&& 0 <= i < device.library->Some_0.tracks@.len()
    &&& device.library->Some_0.tracks@[i].id == number
}

/// Whether a number is that of a playlist in the device's library that is neither hidden
/// nor smart.
pub open spec fn is_open_playlist_number(device: Device, handle: PlaylistHandle, i: int) -> bool {
    &&& device.library is Some
    &&& 0 <= i < device.library->Some_0.playlists@.len()
    &&& device.library->Some_0.playlists@[i].handle == handle
    &&& !device.library->Some_0.playlists@[i].is_hidden
    &&& !device.library->Some_0.playlists@[i].is_smart
}

/// The tracks that can be removed or given cover art are those in the device's library,
/// and the playlists that can be updated or deleted are those in it that are neither
/// hidden nor smart.
pub proof fn law_what_is_listed_can_be_changed(
    device: Device,
    track: TrackHandle,
    playlist: PlaylistHandle,
)
    ensures
        crate::database::has_track(device, track) <==> exists|i: int| #[trigger]
            is_track_number(device, track.0, i),
        crate::database::has_editable_playlist(device, playlist) <==> exists|i: int| #[trigger]
            is_open_playlist_number(device, playlist, i),
{
    if crate::database::has_track(device, track) {
        let library = device.library.unwrap();
        let i = choose|i: int|
            0 <= i < library.tracks@.len() && (#[trigger] library.tracks@[i]).id == track.0;
        assert(is_track_number(device, track.0, i));
    }
    if crate::database::has_editable_playlist(device, playlist) {
        let library = device.library.unwrap();
        let i = choose|i: int|
            0 <= i < library.playlists@.len() && {
                &&& (#[trigger] library.playlists@[i]).handle == playlist
                &&& !library.playlists@[i].is_hidden
                &&& !library.playlists@[i].is_smart
            };
        assert(is_open_playlist_number(device, playlist, i));
    }
}

/// A step queues the change that it stands for and nothing else: the removal of the track
/// that is to go, the cover art of the local counterpart for the track that lacks it, or
/// the local track itself, with its cover art where the device can store it. It fails
/// where the track is not there to be changed, or the local file not there to be copied.
pub proof fn law_steps_queue_their_change(
    device: Device,
    plan: SyncPlan,
    step: SyncStep,
    is_file: bool,
)
    requires
        plan.wf(),
        plan.has_step(step),
    ensures
        ({
            let outcome = crate::sync::step_outcome(device, plan, step, is_file);
            match step {
                SyncStep::Delete(i) => {
                    let track = plan.deleted@[i as int];
                    &&& outcome.1 is None <==> crate::database::has_track(device, track.handle)
                    &&& outcome.1 is None ==> outcome.0.len() == 1 && outcome.0[0]
                        == Change::Remove(track.handle.0)
                    &&& outcome.1 matches Some(error) ==> outcome.0.len() == 0 && error
                        == (StepError::Delete {
                        path: track.path.shown,
                        cause: DatabaseError::TrackAbsent,
                    })
                },
                SyncStep::AddArtwork(i) => {
                    let kept = plan.kept@[plan.artwork_updates@[i as int] as int];
                    &&& outcome.1 is None <==> crate::database::has_track(
                        device,
                        kept.existing.handle,
                    )
                    &&& outcome.1 is None ==> kept.source.artwork is Some && outcome.0 == seq![
                        Change::SetArtwork {
                            id: kept.existing.handle.0,
                            artwork: kept.source.artwork->Some_0.data@,
                        },
                    ]
                    &&& outcome.1 matches Some(error) ==> outcome.0.len() == 0 && error
                        == (StepError::AddArtwork {
                        path: kept.source.path.shown,
                        cause: DatabaseError::TrackAbsent,
                    })
                },
                SyncStep::Copy(i) => {
                    let local = plan.copied@[i as int];
                    &&& outcome.1 is None <==> is_file
                    &&& outcome.1 is None ==> outcome.0 == seq![
                        Change::Add {
                            source: local.path.parts(),
                            shown: local.path.shown@,
                            metadata: local.metadata,
                            artwork: if plan.artwork_capable && local.artwork is Some {
                                Some(local.artwork->Some_0.data@)
                            } else {
                                None
                            },
                        },
                    ]
                    &&& outcome.1 matches Some(error) ==> outcome.0.len() == 0 && error
                        == (StepError::Copy {
                        path: local.path.shown,
                        cause: DatabaseError::NotAFile(local.path.shown),
                    })
                },
                _ => outcome.0.len() == 0 && outcome.1 is None,
            }
        }),
{
}

/// Whether a text is handed over as it should be: without white space at its ends, and not
/// at all where there is nothing else in it.
pub open spec fn is_handed_over(value: Seq<char>, handed: Option<Seq<char>>) -> bool {
    &&& handed is Some <==> exists|i: int|
        0 <= i < value.len() && !text::is_white(#[trigger] value[i])
    &&& handed matches Some(short) ==> is_core_of(value, short)
}

proof fn lemma_handed_over(value: Seq<char>)
    ensures
        is_handed_over(value, crate::database::text_if_any(value)),
{
    crate::laws::reading::law_trimming_leaves_the_core(value);
    if !text::is_blank(value) {
        let i = choose|i: int| 0 <= i < value.len() && !text::is_white(#[trigger] value[i]);
        assert(!text::is_white(value[i]));
    }
}

/// Whether an addition carries all that is known of a track: its file, its title as it is,
/// its other texts where there are any, and its numbers. It names no composer, is no part
/// of a compilation, and takes no cover art from its album.
pub open spec fn carries(
    addition: Addition,
    source: Seq<Seq<u8>>,
    shown: Seq<char>,
    metadata: Metadata,
) -> bool {
    &&& addition.source == source
    &&& addition.shown == shown
    &&& addition.title == metadata.title@
    &&& is_handed_over(metadata.artist@, addition.artist)
    &&& is_handed_over(metadata.album@, addition.album)
    &&& is_handed_over(metadata.album_artist@, addition.album_artist)
    &&& is_handed_over(metadata.genre@, addition.genre)
    &&& addition.composer is None
    &&& addition.year == metadata.year
    &&& addition.track_number == metadata.track_number
    &&& addition.total_tracks == metadata.track_total
    &&& addition.disc_number == metadata.disc_number
    &&& addition.total_discs == metadata.disc_total
    &&& addition.bitrate == metadata.bitrate_kbps
    &&& addition.sample_rate == metadata.sample_rate_hz
    &&& addition.length_ms == metadata.duration_ms
    &&& !addition.compilation
    &&& addition.media_kind == metadata.media_kind
    &&& !addition.reuse_album_art
}

/// The next number of a picture file: one more, or zero after the largest.
pub open spec fn one_more(sequence: u64) -> int {
    if sequence == 0xffff_ffff_ffff_ffff {
        0
    } else {
        sequence + 1
    }
}

/// Each change takes the call, or the two calls, that it stands for, with all that it
/// holds. A picture goes into a file named after the process and the next number.
pub proof fn law_changes_take_their_calls(change: Change, sequence: u64, process_id: u32)
    ensures
        ({
            let calls = crate::database::edits_for(change, sequence, process_id);
            let number = crate::database::number_after(change, sequence);
            let file = crate::database::artwork_file_name(process_id, one_more(sequence) as u64);
            match change {
                Change::Remove(id) => calls == seq![Edit::RemoveTrack(id)] && number == sequence,
                Change::Add { source, shown, metadata, artwork } => {
                    &&& calls.len() == 1
                    &&& calls[0] is AddTrack
                    &&& carries(calls[0]->AddTrack_addition, source, shown, metadata)
                    &&& artwork is None ==> calls[0]->AddTrack_artwork is None && number
                        == sequence
                    &&& artwork is Some ==> calls[0]->AddTrack_artwork == Some(
                        (file, artwork->Some_0),
                    ) && number == one_more(sequence)
                },
                Change::SetArtwork { id, artwork } => calls == seq![
                    Edit::SetArtwork { id, artwork: (file, artwork) },
                ] && number == one_more(sequence),
                Change::CreatePlaylist { name, tracks } => calls == seq![
                    Edit::CreatePlaylist { name, tracks },
                ] && number == sequence,
                Change::UpdatePlaylist { id, name, tracks } => calls == seq![
                    Edit::RenamePlaylist { id, name },
                    Edit::SetPlaylistTracks { id, tracks },
                ] && number == sequence,
                Change::DeletePlaylist(id) => calls == seq![Edit::DeletePlaylist(id)] && number
                    == sequence,
            }
        }),
{
    if let Change::Add { source, shown, metadata, artwork } = change {
        lemma_handed_over(metadata.artist@);
        lemma_handed_over(metadata.album@);
        lemma_handed_over(metadata.album_artist@);
        lemma_handed_over(metadata.genre@);
    }
}

/// A session first has the files of removed tracks deleted, and then makes every queued
/// change, in the order in which they were queued.
pub proof fn law_sessions_make_every_change(
    changes: Seq<Change>,
    last: Change,
    sequence: u64,
    process_id: u32,
)
    ensures
        crate::database::session_edits(Seq::empty(), sequence, process_id).len() == 0,
        crate::database::number_after_all(Seq::empty(), sequence) == sequence,
        crate::database::session_edits(seq![last], sequence, process_id) == seq![Edit::DeleteMedia]
            + crate::database::edits_for(last, sequence, process_id),
        changes.len() > 0 ==> crate::database::session_edits(
            changes.push(last),
            sequence,
            process_id,
        ) == crate::database::session_edits(changes, sequence, process_id)
            + crate::database::edits_for(
            last,
            crate::database::number_after_all(changes, sequence),
            process_id,
        ),
        crate::database::number_after_all(changes.push(last), sequence)
            == crate::database::number_after(
            last,
            crate::database::number_after_all(changes, sequence),
        ),
{
    let one = seq![last];
    let none = one.drop_last();
    assert(none =~= Seq::empty());
    assert(crate::database::edits_for_all(none, sequence, process_id) =~= Seq::empty());
    assert(crate::database::number_after_all(none, sequence) == sequence);
    assert(crate::database::edits_for_all(one, sequence, process_id)
        =~= crate::database::edits_for(last, sequence, process_id));
    let more = changes.push(last);
    assert(more.drop_last() =~= changes);
    if changes.len() > 0 {
        assert(crate::database::session_edits(more, sequence, process_id)
            =~= crate::database::session_edits(changes, sequence, process_id)
            + crate::database::edits_for(
            last,
            crate::database::number_after_all(changes, sequence),
            process_id,
        ));
    }
}

/// Whether a track is what the library records of it. Where its file is gone, its recorded
/// location stands for the file.
pub open spec fn is_as_recorded(track: Track, record: LibraryTrack, gone: bool) -> bool {
    &&& track.handle.0 == record.id
    &&& track.media_missing == gone
    &&& gone ==> track.path.parts() == record.location.parts() && track.path.shown@
        == record.location.shown@
    &&& !gone ==> (record.file matches Ok(file) && track.path.parts() == file.parts()
        && track.path.shown@ == file.shown@)
    &&& track.title@ == record.title@
    &&& track.album@ == record.album@
    &&& track.artist@ == record.artist@
    &&& track.album_artist@ == record.album_artist@
    &&& track.size == record.size
    &&& track.duration_ms == record.duration_ms
    &&& track.track_number == record.track_number
    &&& track.disc_number == record.disc_number
    &&& track.has_artwork == record.has_artwork
    &&& track.media_kind == record.media_kind
}

/// Whether this is the first record whose file is neither there nor known to be gone.
pub open spec fn is_first_lost(records: Seq<LibraryTrack>, missing: Seq<u64>, i: int) -> bool {
    &&& 0 <= i < records.len()
    &&& records[i].file is Err
    &&& !missing.contains(records[i].id)
    &&& forall|j: int|
        0 <= j < i ==> (#[trigger] records[j]).file is Ok || missing.contains(records[j].id)
}

/// The tracks of a device are those that its library records, all of them and in order,
/// each as it is recorded, and those whose files are gone are told. They are read unless
/// that is not known, there is no library, or a file is neither there nor known to be gone.
pub proof fn law_tracks_are_read_as_recorded(
    database: &Database,
    read: Result<Vec<Track>, DatabaseError>,
)
    requires
        call_ensures(Database::tracks, (database,), read),
    ensures
        read matches Ok(tracks) ==> {
            &&& database.device().missing_media matches Ok(missing)
                && database.device().library matches Some(library) && {
                &&& tracks@.len() == library.tracks@.len()
                &&& forall|i: int|
                    0 <= i < tracks@.len() ==> is_as_recorded(
                        #[trigger] tracks@[i],
                        library.tracks@[i],
                        missing@.contains(library.tracks@[i].id),
                    )
            }
        },
        database.device().missing_media matches Err(cause) ==> read == Err::<
            Vec<Track>,
            DatabaseError,
        >(DatabaseError::Audit(cause)),
        database.device().missing_media is Ok && database.device().library is None ==> read == Err::<
            Vec<Track>,
            DatabaseError,
        >(DatabaseError::NoLibrary),
        read is Err && database.device().missing_media is Ok && database.device().library is Some
            ==> exists|i: int| #[trigger]
            is_first_lost(
                database.device().library->Some_0.tracks@,
                database.device().missing_media->Ok_0@,
                i,
            ) && read == Err::<Vec<Track>, DatabaseError>(
                DatabaseError::TrackPath(
                    database.device().library->Some_0.tracks@[i].file->Err_0,
                ),
            ),
{
    if let Ok(tracks) = read {
        let missing = database.device().missing_media->Ok_0;
        let library = database.device().library->Some_0;
        assert forall|i: int| 0 <= i < tracks@.len() implies is_as_recorded(
            #[trigger] tracks@[i],
            library.tracks@[i],
            missing@.contains(library.tracks@[i].id),
        ) by {
            let record = library.tracks@[i];
            let facts = tracks@[i]@;
            assert(crate::database::is_readable(record, missing@));
            assert(facts == crate::database::track_of(record, missing@.contains(record.id)));
            assert(facts.handle == tracks@[i].handle);
        }
    } else if database.device().missing_media is Ok && database.device().library is Some {
        let missing = database.device().missing_media->Ok_0;
        let library = database.device().library->Some_0;
        let i = choose|i: int|
            0 <= i < library.tracks@.len() && {
                &&& !crate::database::is_readable(#[trigger] library.tracks@[i], missing@)
                &&& forall|j: int|
                    0 <= j < i ==> crate::database::is_readable(
                        #[trigger] library.tracks@[j],
                        missing@,
                    )
                &&& read->Err_0 == DatabaseError::TrackPath(library.tracks@[i].file->Err_0)
            };
        assert forall|j: int| 0 <= j < i implies (#[trigger] library.tracks@[j]).file is Ok
            || missing@.contains(library.tracks@[j].id) by {
            assert(crate::database::is_readable(library.tracks@[j], missing@));
        }
        assert(is_first_lost(library.tracks@, missing@, i));
    }
}

/// Whether a number is that of the last track on the device that is this recording.
pub open spec fn is_number_of(
    tracks: Seq<Track>,
    handle: TrackHandle,
    recording: crate::key::Identity,
) -> bool {
    exists|t: int|
        0 <= t < tracks.len() && (#[trigger] tracks[t]).handle == handle
            && crate::source::existing_identity(tracks[t]) == recording && forall|u: int|
            t < u < tracks.len() ==> crate::source::existing_identity(#[trigger] tracks[u])
                != recording
}

proof fn lemma_handle_of(tracks: Seq<Track>, wanted: crate::key::Identity)
    ensures
        match crate::sync::handle_of(tracks, wanted) {
            Some(handle) => is_number_of(tracks, handle, wanted),
            None => forall|t: int|
                0 <= t < tracks.len() ==> crate::source::existing_identity(#[trigger] tracks[t])
                    != wanted,
        },
{
    let ids = crate::plan::existing_identities(tracks);
    crate::index::lemma_last_of(ids, wanted);
    match crate::index::last_of(ids, wanted) {
        Some(t) => {
            assert(ids[t] == crate::source::existing_identity(tracks[t]));
            assert forall|u: int| t < u < tracks.len() implies crate::source::existing_identity(
                #[trigger] tracks[u],
            ) != wanted by {
                assert(ids[u] == crate::source::existing_identity(tracks[u]));
            }
        },
        None => {
            assert forall|t: int| 0 <= t < tracks.len() implies crate::source::existing_identity(
                #[trigger] tracks[t],
            ) != wanted by {
                assert(ids[t] == crate::source::existing_identity(tracks[t]));
            }
        },
    }
}

proof fn lemma_handles_of(tracks: Seq<Track>, source: SourcePlaylist)
    ensures
        match crate::sync::handles_of(tracks, source) {
            Some(handles) => {
                &&& handles.len() == source.tracks@.len()
                &&& forall|k: int|
                    0 <= k < handles.len() ==> is_number_of(
                        tracks,
                        #[trigger] handles[k],
                        source.tracks@[k]@,
                    )
            },
            None => exists|k: int|
                0 <= k < source.tracks@.len() && !is_on_device(
                    tracks,
                    (#[trigger] source.tracks@[k])@,
                ),
        },
{
    match crate::sync::handles_of(tracks, source) {
        Some(handles) => {
            assert forall|k: int| 0 <= k < handles.len() implies is_number_of(
                tracks,
                #[trigger] handles[k],
                source.tracks@[k]@,
            ) by {
                assert(crate::sync::handle_of(tracks, source.tracks@[k]@) is Some);
                lemma_handle_of(tracks, source.tracks@[k]@);
            }
        },
        None => {
            let k = choose|k: int|
                0 <= k < source.tracks@.len() && crate::sync::handle_of(
                    tracks,
                    (#[trigger] source.tracks@[k])@,
                ) is None;
            lemma_handle_of(tracks, source.tracks@[k]@);
        },
    }
}

/// The tracks of a local playlist are found on the device, all of them and in order, unless
/// one of its recordings is not there.
pub proof fn law_playlist_tracks_are_found(
    source: &SourcePlaylist,
    table: &TrackTable<'_>,
    handles: Result<Vec<TrackHandle>, PlaylistSyncError>,
)
    requires
        call_ensures(resolve_playlist_handles, (source, table), handles),
    ensures
        handles matches Ok(numbers) ==> numbers@.len() == source.tracks@.len() && forall|k: int|
            0 <= k < numbers@.len() ==> is_number_of(
                table.tracks(),
                #[trigger] numbers@[k],
                source.tracks@[k]@,
            ),
        handles is Err ==> exists|k: int|
            0 <= k < source.tracks@.len() && !is_on_device(
                table.tracks(),
                (#[trigger] source.tracks@[k])@,
            ),
{
    lemma_handles_of(table.tracks(), *source);
}

/// Whether a list holds the numbers of a local playlist's tracks on the device, in order.
pub open spec fn are_its_numbers(
    tracks: Seq<Track>,
    source: SourcePlaylist,
    numbers: Seq<u64>,
) -> bool {
    &&& numbers.len() == source.tracks@.len()
    &&& forall|k: int|
        0 <= k < numbers.len() ==> is_number_of(
            tracks,
            TrackHandle(#[trigger] numbers[k]),
            source.tracks@[k]@,
        )
}

proof fn lemma_numbers(tracks: Seq<Track>, source: SourcePlaylist)
    requires
        crate::sync::handles_of(tracks, source) is Some,
    ensures
        are_its_numbers(
            tracks,
            source,
            crate::database::numbers_of(crate::sync::handles_of(tracks, source).unwrap()),
        ),
{
    lemma_handles_of(tracks, source);
    let handles = crate::sync::handles_of(tracks, source).unwrap();
    let numbers = crate::database::numbers_of(handles);
    assert forall|k: int| 0 <= k < numbers.len() implies is_number_of(
        tracks,
        TrackHandle(#[trigger] numbers[k]),
        source.tracks@[k]@,
    ) by {
        assert(TrackHandle(numbers[k]) == handles[k]);
    }
}

/// A playlist plan is queued whole, where nothing fails: first every new playlist, then
/// every update of one that is there, each with the local playlist's name and tracks in
/// order, and then every deletion.
pub proof fn law_playlist_plans_are_queued_whole(
    device: Device,
    tracks: Seq<Track>,
    plan: PlaylistPlan,
)
    requires
        ({
            let outcomes = crate::sync::plan_outcomes(device, tracks, plan);
            forall|i: int| 0 <= i < outcomes.len() ==> (#[trigger] outcomes[i]) is Ok
        }),
    ensures
        ({
            let outcomes = crate::sync::plan_outcomes(device, tracks, plan);
            let changes = crate::sync::successes(outcomes, outcomes.len() as int);
            let c = plan.created@.len() as int;
            let u = plan.updated@.len() as int;
            &&& changes.len() == c + u + plan.obsolete@.len()
            &&& forall|i: int|
                0 <= i < c ==> (#[trigger] changes[i] matches Change::CreatePlaylist {
                    name,
                    tracks: numbers,
                } && name == plan.created@[i].name@ && are_its_numbers(
                    tracks,
                    *plan.created@[i],
                    numbers,
                ))
            &&& forall|i: int|
                0 <= i < u ==> (#[trigger] changes[c + i] matches Change::UpdatePlaylist {
                    id,
                    name,
                    tracks: numbers,
                } && id == plan.updated@[i].handle.0 && name == plan.updated@[i].source.name@
                    && are_its_numbers(tracks, *plan.updated@[i].source, numbers))
            &&& forall|i: int|
                0 <= i < plan.obsolete@.len() ==> #[trigger] changes[c + u + i]
                    == Change::DeletePlaylist(plan.obsolete@[i].handle.0)
        }),
{
    let outcomes = crate::sync::plan_outcomes(device, tracks, plan);
    let changes = crate::sync::successes(outcomes, outcomes.len() as int);
    let c = plan.created@.len() as int;
    let u = plan.updated@.len() as int;
    assert forall|i: int| 0 <= i < c implies (#[trigger] changes[i] matches Change::CreatePlaylist {
        name,
        tracks: numbers,
    } && name == plan.created@[i].name@ && are_its_numbers(tracks, *plan.created@[i], numbers)) by {
        assert(outcomes[i] is Ok);
        assert(outcomes[i] == crate::sync::creation(tracks, *plan.created@[i]));
        lemma_numbers(tracks, *plan.created@[i]);
    }
    assert forall|i: int| 0 <= i < u implies (
    #[trigger] changes[c + i] matches Change::UpdatePlaylist { id, name, tracks: numbers } && id
        == plan.updated@[i].handle.0 && name == plan.updated@[i].source.name@ && are_its_numbers(
        tracks,
        *plan.updated@[i].source,
        numbers,
    )) by {
        assert(outcomes[c + i] is Ok);
        assert(outcomes[c + i] == crate::sync::revision(device, tracks, plan.updated@[i]));
        lemma_numbers(tracks, *plan.updated@[i].source);
    }
    assert forall|i: int| 0 <= i < plan.obsolete@.len() implies #[trigger] changes[c + u + i]
        == Change::DeletePlaylist(plan.obsolete@[i].handle.0) by {
        assert(outcomes[c + u + i] is Ok);
        assert(outcomes[c + u + i] == crate::sync::deletion(device, *plan.obsolete@[i]));
    }
}

/// Whether nothing stands in the way of queueing a playlist plan: every local playlist in it
/// has a name and its recordings on the device, and every playlist that it updates or deletes
/// is there to be changed.
pub open spec fn can_be_queued(device: Device, tracks: Seq<Track>, plan: PlaylistPlan) -> bool {
    &&& forall|i: int|
        0 <= i < plan.created@.len() ==> is_ready(tracks, *(#[trigger] plan.created@[i]))
    &&& forall|i: int|
        0 <= i < plan.updated@.len() ==> is_ready(tracks, *(#[trigger] plan.updated@[i]).source)
            && crate::database::has_editable_playlist(device, plan.updated@[i].handle)
    &&& forall|i: int|
        0 <= i < plan.obsolete@.len() ==> crate::database::has_editable_playlist(
            device,
            (#[trigger] plan.obsolete@[i]).handle,
        )
}

/// Whether a local playlist has a name, and its recordings are on the device.
pub open spec fn is_ready(tracks: Seq<Track>, source: SourcePlaylist) -> bool {
    &&& exists|i: int| 0 <= i < source.name@.len() && !text::is_white(#[trigger] source.name@[i])
    &&& forall|k: int|
        0 <= k < source.tracks@.len() ==> is_on_device(tracks, (#[trigger] source.tracks@[k])@)
}

/// Whether a track on the device is this recording.
pub open spec fn is_on_device(tracks: Seq<Track>, recording: crate::key::Identity) -> bool {
    exists|t: int|
        0 <= t < tracks.len() && crate::source::existing_identity(#[trigger] tracks[t]) == recording
}

/// A playlist plan fails exactly where something stands in its way.
pub proof fn law_playlist_plans_fail_for_a_reason(
    device: Device,
    tracks: Seq<Track>,
    plan: PlaylistPlan,
)
    ensures
        (forall|i: int|
            0 <= i < crate::sync::plan_outcomes(device, tracks, plan).len() ==> (
            #[trigger] crate::sync::plan_outcomes(device, tracks, plan)[i]) is Ok)
            <==> can_be_queued(device, tracks, plan),
{
    let outcomes = crate::sync::plan_outcomes(device, tracks, plan);
    let c = plan.created@.len() as int;
    let u = plan.updated@.len() as int;
    assert forall|i: int| 0 <= i < c implies (outcomes[i] is Ok <==> is_ready(
        tracks,
        *(#[trigger] plan.created@[i]),
    )) by {
        assert(outcomes[i] == crate::sync::creation(tracks, *plan.created@[i]));
        lemma_ready(tracks, *plan.created@[i]);
    }
    assert forall|i: int| 0 <= i < u implies (outcomes[c + i] is Ok <==> is_ready(
        tracks,
        *(#[trigger] plan.updated@[i]).source,
    ) && crate::database::has_editable_playlist(device, plan.updated@[i].handle)) by {
        assert(outcomes[c + i] == crate::sync::revision(device, tracks, plan.updated@[i]));
        lemma_ready(tracks, *plan.updated@[i].source);
    }
    assert forall|i: int| 0 <= i < plan.obsolete@.len() implies (outcomes[c + u + i] is Ok
        <==> crate::database::has_editable_playlist(
        device,
        (#[trigger] plan.obsolete@[i]).handle,
    )) by {
        assert(outcomes[c + u + i] == crate::sync::deletion(device, *plan.obsolete@[i]));
    }
    if can_be_queued(device, tracks, plan) {
        assert forall|i: int| 0 <= i < outcomes.len() implies (#[trigger] outcomes[i]) is Ok by {
            if i < c {
                assert(is_ready(tracks, *plan.created@[i]));
            } else if i < c + u {
                assert(is_ready(tracks, *plan.updated@[i - c].source));
                assert(outcomes[c + (i - c)] is Ok);
            } else {
                assert(crate::database::has_editable_playlist(
                    device,
                    plan.obsolete@[i - c - u].handle,
                ));
                assert(outcomes[c + u + (i - c - u)] is Ok);
            }
        }
    }
}

proof fn lemma_ready(tracks: Seq<Track>, source: SourcePlaylist)
    ensures
        is_ready(tracks, source) <==> !text::is_blank(source.name@) && crate::sync::handles_of(
            tracks,
            source,
        ) is Some,
{
    if !text::is_blank(source.name@) {
        let i = choose|i: int|
            0 <= i < source.name@.len() && !text::is_white(#[trigger] source.name@[i]);
        assert(!text::is_white(source.name@[i]));
    }
    lemma_handles_of(tracks, source);
    if crate::sync::handles_of(tracks, source) is Some {
        let handles = crate::sync::handles_of(tracks, source).unwrap();
        assert forall|k: int| 0 <= k < source.tracks@.len() implies is_on_device(
            tracks,
            (#[trigger] source.tracks@[k])@,
        ) by {
            assert(is_number_of(tracks, handles[k], source.tracks@[k]@));
        }
    }
}

/// Plans are counted list by list.
pub proof fn law_plans_are_counted(
    plan: &SyncPlan<'_>,
    playlists: &PlaylistPlan<'_>,
    counts: SyncCounts,
)
    requires
        call_ensures(count_plans, (plan, playlists), counts),
    ensures
        counts.kept == plan.kept@.len(),
        counts.deleted == plan.deleted@.len(),
        counts.copied == plan.copied@.len(),
        counts.artwork == plan.artwork_updates@.len(),
        counts.playlists_kept == playlists.kept@.len(),
        counts.playlists_created == playlists.created@.len(),
        counts.playlists_updated == playlists.updated@.len(),
        counts.playlists_deleted == playlists.obsolete@.len(),
{
}

/// Whether one of the lines is this text.
pub open spec fn says(lines: Seq<String>, text: Seq<char>) -> bool {
    exists|i: int| 0 <= i < lines.len() && (#[trigger] lines[i])@ == text
}

/// What is done with playlists is said before it is done, like what is done with tracks: there
/// is a line for every change, one for the whole plan, one where cover art is left out because
/// the device cannot store it, and one that says so in a dry run.
pub proof fn law_every_change_has_a_line(
    plan: &SyncPlan<'_>,
    playlists: &PlaylistPlan<'_>,
    counts: SyncCounts,
    dry_run: bool,
    lines: Vec<String>,
)
    requires
        call_ensures(report_plans, (plan, playlists, counts, dry_run), lines),
    ensures
        ({
            let left_out = !plan.artwork_capable && ((exists|i: int|
                0 <= i < plan.kept@.len() && (#[trigger] plan.kept@[i]).source.artwork is Some) || (
            exists|i: int|
                0 <= i < plan.copied@.len() && (#[trigger] plan.copied@[i]).artwork is Some));
            &&& lines@.len() == 1 + plan.deleted@.len() + plan.copied@.len()
                + plan.artwork_updates@.len() + playlists.created@.len() + playlists.updated@.len()
                + playlists.obsolete@.len() + (if left_out { 1int } else { 0int }) + (
            if dry_run { 1int } else { 0int })
            &&& dry_run ==> lines@.last()@ == "Dry run: no files or database entries were changed."@
            &&& left_out ==> says(
                lines@,
                "       (embedded artwork ignored: this device cannot store cover art)"@,
            )
        }),
        forall|i: int|
            0 <= i < playlists.created@.len() ==> says(
                lines@,
                "+ playlist: "@ + (#[trigger] playlists.created@[i]).name@ + " ("@
                    + playlists.created@[i].path.shown@ + ")"@,
            ),
        forall|i: int|
            0 <= i < playlists.updated@.len() ==> says(
                lines@,
                "~ playlist: "@ + (#[trigger] playlists.updated@[i]).source.name@ + " ("@
                    + playlists.updated@[i].source.path.shown@ + ")"@,
            ),
        forall|i: int|
            0 <= i < playlists.obsolete@.len() ==> says(
                lines@,
                "- playlist: "@ + (#[trigger] playlists.obsolete@[i]).name@,
            ),
{
    let all = crate::report::report_lines(*plan, *playlists, counts, dry_run);
    let left_out = crate::sync::leaves_out_artwork(plan.kept@, plan.copied@, plan.artwork_capable);
    let note = crate::report::line_if(
        left_out,
        "       (embedded artwork ignored: this device cannot store cover art)"@,
    );
    let changes = crate::report::plan_lines(*plan);
    let list_changes = crate::report::playlist_plan_lines(
        *playlists,
        "+ playlist: "@,
        "~ playlist: "@,
        "- playlist: "@,
    );
    let end = crate::report::line_if(
        dry_run,
        "Dry run: no files or database entries were changed."@,
    );
    let base = 1 + note.len() + changes.len();
    assert(lines@.len() == all.len());
    assert(forall|i: int| 0 <= i < lines@.len() ==> (#[trigger] lines@[i])@ == all[i]) by {
        assert forall|i: int| 0 <= i < lines@.len() implies (#[trigger] lines@[i])@ == all[i] by {
            assert(crate::report::texts(lines@)[i] == lines@[i]@);
        }
    }
    if left_out {
        assert(all[1] == note[0]);
        assert(lines@[1]@ == note[0]);
    }
    if dry_run {
        assert(all.last() == end[0]);
        assert(lines@[lines@.len() - 1]@ == end[0]);
    }
    let c = playlists.created@.len() as int;
    let u = playlists.updated@.len() as int;
    assert forall|i: int| 0 <= i < c implies says(
        lines@,
        "+ playlist: "@ + (#[trigger] playlists.created@[i]).name@ + " ("@
            + playlists.created@[i].path.shown@ + ")"@,
    ) by {
        assert(all[base + i] == list_changes[i]);
        assert(lines@[base + i]@ == list_changes[i]);
    }
    assert forall|i: int| 0 <= i < u implies says(
        lines@,
        "~ playlist: "@ + (#[trigger] playlists.updated@[i]).source.name@ + " ("@
            + playlists.updated@[i].source.path.shown@ + ")"@,
    ) by {
        assert(all[base + c + i] == list_changes[c + i]);
        assert(lines@[base + c + i]@ == list_changes[c + i]);
    }
    assert forall|i: int| 0 <= i < playlists.obsolete@.len() implies says(
        lines@,
        "- playlist: "@ + (#[trigger] playlists.obsolete@[i]).name@,
    ) by {
        assert(all[base + c + u + i] == list_changes[c + u + i]);
        assert(lines@[base + c + u + i]@ == list_changes[c + u + i]);
    }
}

/// Libraries are accepted where all of them are directories, and playlists where all of them
/// are directories or playlist files; each is then the path that was found for it.
pub proof fn law_sources_are_accepted_whole(
    libraries: &Vec<PathProbe>,
    playlists: &Vec<PathProbe>,
    folders: Result<Vec<FilePath>, SetupError>,
    places: Result<Vec<FilePath>, SetupError>,
)
    requires
        call_ensures(validate_libraries, (libraries,), folders),
        call_ensures(validate_playlists, (playlists,), places),
    ensures
        folders is Ok <==> forall|i: int|
            0 <= i < libraries@.len() ==> (#[trigger] libraries@[i]).canonical is Ok
                && libraries@[i].is_dir,
        folders matches Err(e) ==> exists|i: int|
            0 <= i < libraries@.len() && (forall|j: int|
                0 <= j < i ==> (#[trigger] libraries@[j]).canonical is Ok && libraries@[j].is_dir)
                && match (#[trigger] libraries@[i]).canonical {
                Err(cause) => e == (SetupError::LibraryMissing { path: libraries@[i].given, cause }),
                Ok(_) => !libraries@[i].is_dir && e == (SetupError::LibraryNotDirectory {
                    path: libraries@[i].given,
                }),
            },
        folders matches Ok(paths) ==> paths@.len() == libraries@.len() && forall|i: int|
            0 <= i < paths@.len() ==> (#[trigger] paths@[i]).parts()
                == libraries@[i].canonical->Ok_0.parts(),
        places is Ok <==> forall|i: int|
            0 <= i < playlists@.len() ==> (#[trigger] playlists@[i]).canonical is Ok && (
            playlists@[i].is_dir || ends_like_a_playlist(playlists@[i].canonical->Ok_0)),
        places matches Ok(paths) ==> paths@.len() == playlists@.len() && forall|i: int|
            0 <= i < paths@.len() ==> (#[trigger] paths@[i]).parts()
                == playlists@[i].canonical->Ok_0.parts(),
{
    assert forall|i: int| 0 <= i < playlists@.len() implies (crate::setup::is_playlist_source(
        #[trigger] playlists@[i],
    ) <==> playlists@[i].canonical is Ok && (playlists@[i].is_dir || ends_like_a_playlist(
        playlists@[i].canonical->Ok_0,
    ))) by {
        if playlists@[i].canonical is Ok {
            crate::laws::finding::lemma_kinds(playlists@[i].canonical->Ok_0);
        }
    }
    if folders is Err {
        let e = folders->Err_0;
        let i = choose|i: int|
            0 <= i < libraries@.len() && {
                &&& !crate::setup::is_library(#[trigger] libraries@[i])
                &&& e == crate::setup::library_error(libraries@[i])
                &&& forall|j: int|
                    0 <= j < i ==> crate::setup::is_library(#[trigger] libraries@[j])
            };
        assert(!crate::setup::is_library(libraries@[i]));
        assert forall|j: int| 0 <= j < i implies (#[trigger] libraries@[j]).canonical is Ok
            && libraries@[j].is_dir by {
            assert(crate::setup::is_library(libraries@[j]));
        }
    }
    if places is Err {
        let i = choose|i: int|
            0 <= i < playlists@.len() && !crate::setup::is_playlist_source(
                #[trigger] playlists@[i],
            );
        assert(!crate::setup::is_playlist_source(playlists@[i]));
    }
}

/// The calls of an edit are told apart by all that they hand over.
pub proof fn law_calls_hand_over_what_they_hold(step: EditStep)
    ensures
        match step {
            EditStep::DeleteMedia => step@ == Edit::DeleteMedia,
            EditStep::RemoveTrack(id) => step@ == Edit::RemoveTrack(id),
            EditStep::AddTrack { addition, artwork } => {
                let handed = step@->AddTrack_addition;
                let picture = step@->AddTrack_artwork;
                &&& step@ is AddTrack
                &&& handed.source == addition.source_path.parts()
                &&& handed.shown == addition.source_path.shown@
                &&& handed.title == addition.title@
                &&& is_same_text(handed.artist, addition.artist)
                &&& is_same_text(handed.album, addition.album)
                &&& is_same_text(handed.album_artist, addition.album_artist)
                &&& is_same_text(handed.genre, addition.genre)
                &&& is_same_text(handed.composer, addition.composer)
                &&& handed.year == addition.year
                &&& handed.track_number == addition.track_number
                &&& handed.total_tracks == addition.total_tracks
                &&& handed.disc_number == addition.disc_number
                &&& handed.total_discs == addition.total_discs
                &&& handed.bitrate == addition.bitrate
                &&& handed.sample_rate == addition.sample_rate
                &&& handed.length_ms == addition.length_ms
                &&& handed.compilation == addition.compilation
                &&& handed.media_kind == addition.media_kind
                &&& handed.reuse_album_art == addition.reuse_album_art
                &&& picture is Some <==> artwork is Some
                &&& artwork is Some ==> picture->Some_0.0 == artwork->Some_0.name@
                    && picture->Some_0.1 == artwork->Some_0.data@
            },
            EditStep::SetArtwork { id, artwork } => step@ == (Edit::SetArtwork {
                id,
                artwork: (artwork.name@, artwork.data@),
            }),
            EditStep::CreatePlaylist { name, tracks } => step@ == (Edit::CreatePlaylist {
                name: name@,
                tracks: tracks@,
            }),
            EditStep::RenamePlaylist { id, name } => step@ == (Edit::RenamePlaylist {
                id,
                name: name@,
            }),
            EditStep::SetPlaylistTracks { id, tracks } => step@ == (Edit::SetPlaylistTracks {
                id,
                tracks: tracks@,
            }),
            EditStep::DeletePlaylist(id) => step@ == Edit::DeletePlaylist(id),
        },
{
}

/// Whether two texts are the same, where there are any.
pub open spec fn is_same_text(seen: Option<Seq<char>>, held: Option<String>) -> bool {
    &&& seen is Some <==> held is Some
    &&& held is Some ==> seen->Some_0 == held->Some_0@
}

/// Steps are seen one by one and in order.
pub proof fn law_calls_are_seen_in_order(steps: Seq<EditStep>)
    ensures
        crate::database::edits(steps).len() == steps.len(),
        forall|i: int| 0 <= i < steps.len() ==> #[trigger] crate::database::edits(steps)[i] == steps[i]@,
{
}

} // verus!
