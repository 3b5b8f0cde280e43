//! The steps of a synchronization, and what each of them queues.

use vstd::prelude::*;

use crate::database::{Change, Database, DatabaseError, Playlist, Track, TrackHandle};
use crate::index::KeyIndex;
use crate::key::Identity;
use crate::plan::{make_plan, KeptTrack, PlaylistPlan, PlaylistUpdate};
use crate::playlist::SourcePlaylist;
use crate::source::{existing_key, Artwork, SourceTrack};
use crate::text;

verus! {

/// A step of a synchronization. The numbers are indexes into the plan's lists.
#[derive(Clone, Copy, Debug, PartialEq, Eq, Structural)]
pub enum SyncStep {
    /// Queue the removal of a track.
    Delete(usize),
    /// Commit what is left of the removals.
    FinishDeletions,
    /// Queue cover art for a track that has none.
    AddArtwork(usize),
    /// Queue the addition of a track.
    Copy(usize),
    /// Commit what is left of the cover art and additions.
    FinishCopies,
    /// Plan the playlists anew, now that all tracks are there, and write them.
    WritePlaylists,
}

/// The steps for lists of these lengths; none in a dry run. Removals are
/// committed before anything is added, so that the device is in order should a
/// copy fail.
pub open spec fn steps_for(
    dry_run: bool,
    deleted: nat,
    artwork: nat,
    copied: nat,
    playlists: bool,
) -> Seq<SyncStep> {
    if dry_run {
        Seq::empty()
    } else {
        Seq::new(deleted, |i: int| SyncStep::Delete(i as usize)).push(SyncStep::FinishDeletions)
            + Seq::new(artwork, |i: int| SyncStep::AddArtwork(i as usize)) + Seq::new(
            copied,
            |i: int| SyncStep::Copy(i as usize),
        ).push(SyncStep::FinishCopies) + if playlists {
            seq![SyncStep::WritePlaylists]
        } else {
            Seq::empty()
        }
    }
}

/// The steps for lists of these lengths.
pub fn sync_steps(
    dry_run: bool,
    deleted: usize,
    artwork: usize,
    copied: usize,
    playlists: bool,
) -> (steps: Vec<SyncStep>)
    ensures
        steps@ == steps_for(dry_run, deleted as nat, artwork as nat, copied as nat, playlists),
{
    let mut steps: Vec<SyncStep> = Vec::new();
    if dry_run {
        return steps;
    }
    let ghost first = Seq::new(deleted as nat, |i: int| SyncStep::Delete(i as usize));
    let mut i: usize = 0;
    while i < deleted
        invariant
            i <= deleted,
            first == Seq::new(deleted as nat, |i: int| SyncStep::Delete(i as usize)),
            steps@ == first.take(i as int),
        decreases deleted - i,
    {
        steps.push(SyncStep::Delete(i));
        i += 1;
        assert(steps@ =~= first.take(i as int));
    }
    assert(first.take(i as int) =~= first);
    steps.push(SyncStep::FinishDeletions);
    let ghost start = steps@;
    let ghost second = Seq::new(artwork as nat, |i: int| SyncStep::AddArtwork(i as usize));
    let mut i: usize = 0;
    assert(steps@ =~= start + second.take(0));
    while i < artwork
        invariant
            i <= artwork,
            second == Seq::new(artwork as nat, |i: int| SyncStep::AddArtwork(i as usize)),
            steps@ == start + second.take(i as int),
        decreases artwork - i,
    {
        steps.push(SyncStep::AddArtwork(i));
        i += 1;
        assert(steps@ =~= start + second.take(i as int));
    }
    assert(second.take(i as int) =~= second);
    let ghost middle = steps@;
    let ghost third = Seq::new(copied as nat, |i: int| SyncStep::Copy(i as usize));
    let mut i: usize = 0;
    assert(steps@ =~= middle + third.take(0));
    while i < copied
        invariant
            i <= copied,
            third == Seq::new(copied as nat, |i: int| SyncStep::Copy(i as usize)),
            steps@ == middle + third.take(i as int),
        decreases copied - i,
    {
        steps.push(SyncStep::Copy(i));
        i += 1;
        assert(steps@ =~= middle + third.take(i as int));
    }
    assert(third.take(i as int) =~= third);
    steps.push(SyncStep::FinishCopies);
    if playlists {
        steps.push(SyncStep::WritePlaylists);
    }
    assert(steps@ =~= steps_for(
        dry_run,
        deleted as nat,
        artwork as nat,
        copied as nat,
        playlists,
    ));
    steps
}

/// Whether a kept track is to get its local counterpart's cover art: it has
/// none, and the device can store it.
pub open spec fn wants_artwork(kept: KeptTrack, artwork_capable: bool) -> bool {
    artwork_capable && !kept.existing.has_artwork && kept.source.artwork is Some
}

/// The indexes below `n` of the kept tracks that are to get cover art.
pub open spec fn artwork_indexes(kept: Seq<KeptTrack>, artwork_capable: bool, n: int) -> Seq<usize>
    decreases n,
{
    if n <= 0 {
        Seq::empty()
    } else if wants_artwork(kept[n - 1], artwork_capable) {
        artwork_indexes(kept, artwork_capable, n - 1).push((n - 1) as usize)
    } else {
        artwork_indexes(kept, artwork_capable, n - 1)
    }
}

/// The kept tracks that are to get cover art, by index.
pub fn artwork_updates(kept: &Vec<KeptTrack<'_>>, artwork_capable: bool) -> (updates: Vec<usize>)
    ensures
        updates@ == artwork_indexes(kept@, artwork_capable, kept@.len() as int),
{
    let mut updates: Vec<usize> = Vec::new();
    let mut i: usize = 0;
    while i < kept.len()
        invariant
            i <= kept@.len(),
            updates@ == artwork_indexes(kept@, artwork_capable, i as int),
        decreases kept@.len() - i,
    {
        let entry = &kept[i];
        if artwork_capable && !entry.existing.has_artwork && entry.source.artwork.is_some() {
            updates.push(i);
        }
        i += 1;
    }
    updates
}

/// Whether cover art is left out because the device cannot store any.
pub open spec fn leaves_out_artwork(
    kept: Seq<KeptTrack>,
    copied: Seq<&SourceTrack>,
    artwork_capable: bool,
) -> bool {
    !artwork_capable && ((exists|i: int|
        0 <= i < kept.len() && (#[trigger] kept[i]).source.artwork is Some) || (exists|i: int|
        0 <= i < copied.len() && (#[trigger] copied[i]).artwork is Some))
}

/// Whether cover art is left out because the device cannot store any.
pub fn ignores_artwork(
    kept: &Vec<KeptTrack<'_>>,
    copied: &Vec<&SourceTrack>,
    artwork_capable: bool,
) -> (ignores: bool)
    ensures
        ignores == leaves_out_artwork(kept@, copied@, artwork_capable),
{
    if artwork_capable {
        return false;
    }
    let mut i: usize = 0;
    while i < kept.len()
        invariant
            !artwork_capable,
            i <= kept@.len(),
            forall|j: int| 0 <= j < i ==> (#[trigger] kept@[j]).source.artwork is None,
        decreases kept@.len() - i,
    {
        if kept[i].source.artwork.is_some() {
            assert(kept@[i as int].source.artwork is Some);
            return true;
        }
        i += 1;
    }
    let mut i: usize = 0;
    while i < copied.len()
        invariant
            !artwork_capable,
            i <= copied@.len(),
            forall|j: int| 0 <= j < i ==> (#[trigger] copied@[j]).artwork is None,
        decreases copied@.len() - i,
    {
        if copied[i].artwork.is_some() {
            assert(copied@[i as int].artwork is Some);
            return true;
        }
        i += 1;
    }
    false
}

/// The addition of a local track, with this cover art.
pub open spec fn addition_change(source: SourceTrack, artwork: Option<Artwork>) -> Change {
    Change::Add {
        source: source.path.parts(),
        shown: source.path.shown@,
        metadata: source.metadata,
        artwork: match artwork {
            Some(art) => Some(art.data@),
            None => None,
        },
    }
}

/// Queues a local track; its cover art comes along where the device can store
/// it. `is_file` says whether the file is still there.
pub fn queue_copy(
    database: &mut Database,
    source: &SourceTrack,
    is_file: bool,
    artwork_capable: bool,
) -> (queued: Result<(), DatabaseError>)
    ensures
        final(database).device() == old(database).device(),
        final(database).sequence() == old(database).sequence(),
        queued is Ok <==> is_file,
        queued is Ok ==> final(database).queued() == old(database).queued().push(
            addition_change(
                *source,
                if artwork_capable {
                    source.artwork
                } else {
                    None
                },
            ),
        ),
        queued matches Err(e) ==> e == DatabaseError::NotAFile(source.path.shown),
        queued is Err ==> final(database).queued() == old(database).queued(),
{
    let artwork: Option<&Vec<u8>> = match &source.artwork {
        Some(artwork) => if artwork_capable {
            Some(&artwork.data)
        } else {
            None
        },
        None => None,
    };
    database.add_track(&source.path, is_file, &source.metadata, artwork)
}

/// Why a step of a synchronization failed. The paths are as they are shown.
#[derive(Debug)]
pub enum StepError {
    Delete { path: String, cause: DatabaseError },
    AddArtwork { path: String, cause: DatabaseError },
    Copy { path: String, cause: DatabaseError },
}

/// What is to be done with the tracks.
#[derive(Debug)]
pub struct SyncPlan<'a> {
    pub kept: Vec<KeptTrack<'a>>,
    pub deleted: Vec<&'a Track>,
    pub copied: Vec<&'a SourceTrack>,
    /// The kept tracks that are to get cover art, by index.
    pub artwork_updates: Vec<usize>,
    /// Whether the device can store cover art.
    pub artwork_capable: bool,
}

impl<'a> SyncPlan<'a> {
    /// The tracks that are to get cover art are kept tracks whose local
    /// counterparts have some.
    pub open spec fn wf(self) -> bool {
        forall|k: int|
            0 <= k < self.artwork_updates@.len() ==> (#[trigger] self.artwork_updates@[k])
                < self.kept@.len() && wants_artwork(
                self.kept@[self.artwork_updates@[k] as int],
                self.artwork_capable,
            )
    }

    /// Whether the step speaks of something in the plan.
    pub open spec fn has_step(self, step: SyncStep) -> bool {
        match step {
            SyncStep::Delete(i) => i < self.deleted@.len(),
            SyncStep::AddArtwork(i) => i < self.artwork_updates@.len(),
            SyncStep::Copy(i) => i < self.copied@.len(),
            _ => true,
        }
    }

    /// The kept track that is to get cover art.
    pub open spec fn gets_artwork(self, i: int) -> KeptTrack<'a> {
        self.kept@[self.artwork_updates@[i] as int]
    }
}

proof fn lemma_artwork_indexes(kept: Seq<KeptTrack>, artwork_capable: bool, n: int)
    requires
        0 <= n <= kept.len() <= usize::MAX,
    ensures
        forall|k: int|
            0 <= k < artwork_indexes(kept, artwork_capable, n).len() ==> (#[trigger] artwork_indexes(
                kept,
                artwork_capable,
                n,
            )[k]) < n && wants_artwork(
                kept[artwork_indexes(kept, artwork_capable, n)[k] as int],
                artwork_capable,
            ),
    decreases n,
{
    if n > 0 {
        lemma_artwork_indexes(kept, artwork_capable, n - 1);
        let all = artwork_indexes(kept, artwork_capable, n);
        let earlier = artwork_indexes(kept, artwork_capable, n - 1);
        assert forall|k: int| 0 <= k < all.len() implies (#[trigger] all[k]) < n && wants_artwork(
            kept[all[k] as int],
            artwork_capable,
        ) by {
            if k < earlier.len() {
                assert(all[k] == earlier[k]);
            }
        }
    }
}

/// Plans what is to be done with the tracks on a device.
pub fn plan_sync<'a>(
    sources: &'a Vec<SourceTrack>,
    existing: &'a Vec<Track>,
    artwork_capable: bool,
) -> (plan: SyncPlan<'a>)
    ensures
        plan.wf(),
        crate::plan::are_kept(
            plan.kept@,
            sources@,
            existing@,
            crate::plan::staying(sources@, existing@, existing@.len() as int),
        ),
        crate::plan::are_at(
            plan.deleted@,
            existing@,
            crate::plan::going(sources@, existing@, existing@.len() as int),
        ),
        crate::plan::are_at(
            plan.copied@,
            sources@,
            crate::plan::coming(sources@, existing@, sources@.len() as int),
        ),
        plan.artwork_updates@ == artwork_indexes(
            plan.kept@,
            artwork_capable,
            plan.kept@.len() as int,
        ),
        plan.artwork_capable == artwork_capable,
{
    let (kept, deleted, copied) = make_plan(sources, existing);
    let artwork_updates = artwork_updates(&kept, artwork_capable);
    let count: usize = kept.len();
    proof {
        lemma_artwork_indexes(kept@, artwork_capable, count as int);
    }
    SyncPlan { kept, deleted, copied, artwork_updates, artwork_capable }
}

/// What a step comes to: the changes that it queues, and its error where it has
/// one.
pub open spec fn step_outcome(
    device: crate::database::Device,
    plan: SyncPlan,
    step: SyncStep,
    is_file: bool,
) -> (Seq<Change>, Option<StepError>) {
    match step {
        SyncStep::Delete(i) => {
            let track = *plan.deleted@[i as int];
            if crate::database::has_track(device, track.handle) {
                (seq![Change::Remove(track.handle.0)], None)
            } else {
                (
                    Seq::empty(),
                    Some(
                        StepError::Delete {
                            path: track.path.shown,
                            cause: DatabaseError::TrackAbsent,
                        },
                    ),
                )
            }
        },
        SyncStep::AddArtwork(i) => {
            let kept = plan.gets_artwork(i as int);
            if crate::database::has_track(device, kept.existing.handle) {
                (
                    seq![
                        Change::SetArtwork {
                            id: kept.existing.handle.0,
                            artwork: kept.source.artwork->Some_0.data@,
                        },
                    ],
                    None,
                )
            } else {
                (
                    Seq::empty(),
                    Some(
                        StepError::AddArtwork {
                            path: kept.source.path.shown,
                            cause: DatabaseError::TrackAbsent,
                        },
                    ),
                )
            }
        },
        SyncStep::Copy(i) => {
            let source = *plan.copied@[i as int];
            let path = source.path.shown;
            if is_file {
                (
                    seq![
                        addition_change(
                            source,
                            if plan.artwork_capable {
                                source.artwork
                            } else {
                                None
                            },
                        ),
                    ],
                    None,
                )
            } else {
                (
                    Seq::empty(),
                    Some(StepError::Copy { path, cause: DatabaseError::NotAFile(path) }),
                )
            }
        },
        _ => (Seq::empty(), None),
    }
}

/// Queues what a step stands for. `is_file` says of the local file that the step
/// copies, where it copies one, whether it is a regular file.
pub fn queue_step(
    database: &mut Database,
    plan: &SyncPlan<'_>,
    step: SyncStep,
    is_file: bool,
) -> (queued: Result<(), StepError>)
    requires
        plan.wf(),
        plan.has_step(step),
    ensures
        final(database).device() == old(database).device(),
        final(database).sequence() == old(database).sequence(),
        final(database).queued() == old(database).queued() + step_outcome(
            old(database).device(),
            *plan,
            step,
            is_file,
        ).0,
        match step_outcome(old(database).device(), *plan, step, is_file).1 {
            Some(e) => queued == Err::<(), StepError>(e),
            None => queued is Ok,
        },
{
    let ghost start = database.queued();
    let ghost device = database.device();
    let ghost changes = step_outcome(device, *plan, step, is_file).0;
    assert(start + Seq::<Change>::empty() =~= start);
    match step {
        SyncStep::Delete(i) => {
            let track = plan.deleted[i];
            match database.remove_track(track.handle) {
                Ok(_) => {},
                Err(cause) => return Err(
                    StepError::Delete { path: track.path.shown.clone(), cause },
                ),
            }
        },
        SyncStep::AddArtwork(i) => {
            let at: usize = plan.artwork_updates[i];
            let kept = &plan.kept[at];
            if let Some(artwork) = &kept.source.artwork {
                match database.set_artwork(kept.existing.handle, &artwork.data) {
                    Ok(_) => {},
                    Err(cause) => return Err(
                        StepError::AddArtwork { path: kept.source.path.shown.clone(), cause },
                    ),
                }
            }
        },
        SyncStep::Copy(i) => {
            let source = plan.copied[i];
            match queue_copy(database, source, is_file, plan.artwork_capable) {
                Ok(_) => {},
                Err(cause) => return Err(
                    StepError::Copy { path: source.path.shown.clone(), cause },
                ),
            }
        },
        _ => {},
    }
    assert(database.queued() =~= start + changes);
    Ok(())
}

/// Why a playlist could not be queued.
#[derive(Debug)]
pub enum PlaylistSyncError {
    /// The playlist in this file lists a track that the device does not have.
    NotSynchronized { path: String },
    Create { name: String, cause: DatabaseError },
    Update { name: String, cause: DatabaseError },
    Delete { name: String, cause: DatabaseError },
}

/// The number of the track with this identity; of several the last counts.
pub open spec fn handle_of(tracks: Seq<Track>, wanted: Identity) -> Option<TrackHandle> {
    match crate::index::last_of(crate::plan::existing_identities(tracks), wanted) {
        Some(i) => Some(tracks[i].handle),
        None => None,
    }
}

/// The numbers of the tracks of a playlist, where the device has them all.
pub open spec fn handles_of(tracks: Seq<Track>, source: SourcePlaylist) -> Option<
    Seq<TrackHandle>,
> {
    if forall|k: int|
        0 <= k < source.tracks@.len() ==> handle_of(
            tracks,
            (#[trigger] source.tracks@[k])@,
        ) is Some {
        Some(
            Seq::new(
                source.tracks@.len(),
                |k: int| handle_of(tracks, source.tracks@[k]@).unwrap(),
            ),
        )
    } else {
        None
    }
}

/// The tracks on the device, found by key.
pub struct TrackTable<'a> {
    tracks: &'a Vec<Track>,
    keys: KeyIndex,
}

impl<'a> TrackTable<'a> {
    /// The tracks.
    pub closed spec fn tracks(self) -> Seq<Track> {
        self.tracks@
    }

    /// What every use keeps.
    pub closed spec fn wf(self) -> bool {
        self.keys.wf() && self.keys@ == crate::plan::existing_identities(self.tracks@)
    }

    /// A table of these tracks.
    pub fn new(tracks: &'a Vec<Track>) -> (table: TrackTable<'a>)
        ensures
            table.wf(),
            table.tracks() == tracks@,
    {
        let ghost ids = crate::plan::existing_identities(tracks@);
        let mut keys = KeyIndex::new();
        let mut i: usize = 0;
        while i < tracks.len()
            invariant
                i <= tracks@.len(),
                ids == crate::plan::existing_identities(tracks@),
                keys.wf(),
                keys@ == ids.take(i as int),
            decreases tracks@.len() - i,
        {
            keys.add_key(existing_key(&tracks[i]));
            i += 1;
            assert(keys@ =~= ids.take(i as int));
        }
        assert(ids.take(i as int) =~= ids);
        TrackTable { tracks, keys }
    }
}

/// The numbers of the tracks of a playlist.
pub fn resolve_playlist_handles(
    source: &SourcePlaylist,
    table: &TrackTable<'_>,
) -> (handles: Result<Vec<TrackHandle>, PlaylistSyncError>)
    requires
        table.wf(),
    ensures
        match handles_of(table.tracks(), *source) {
            Some(numbers) => handles matches Ok(h) && h@ == numbers,
            None => handles == Err::<Vec<TrackHandle>, PlaylistSyncError>(
                PlaylistSyncError::NotSynchronized { path: source.path.shown },
            ),
        },
{
    let mut handles: Vec<TrackHandle> = Vec::new();
    let mut k: usize = 0;
    while k < source.tracks.len()
        invariant
            k <= source.tracks@.len(),
            table.wf(),
            handles@.len() == k,
            forall|j: int|
                0 <= j < k ==> handle_of(table.tracks(), (#[trigger] source.tracks@[j])@) == Some(
                    handles@[j],
                ),
        decreases source.tracks@.len() - k,
    {
        let key = &source.tracks[k];
        proof {
            crate::index::lemma_last_of(
                crate::plan::existing_identities(table.tracks()),
                key@,
            );
        }
        match table.keys.find_last(key) {
            Some(at) => handles.push(table.tracks[at].handle),
            None => {
                assert(handle_of(table.tracks(), source.tracks@[k as int]@) is None);
                return Err(PlaylistSyncError::NotSynchronized { path: source.path.shown.clone() });
            },
        }
        k += 1;
    }
    assert(handles@ =~= handles_of(table.tracks(), *source).unwrap());
    Ok(handles)
}

/// What queueing a new playlist comes to.
pub open spec fn creation(tracks: Seq<Track>, source: SourcePlaylist) -> Result<
    Change,
    PlaylistSyncError,
> {
    match handles_of(tracks, source) {
        None => Err(PlaylistSyncError::NotSynchronized { path: source.path.shown }),
        Some(handles) => if text::is_blank(source.name@) {
            Err(
                PlaylistSyncError::Create {
                    name: source.name,
                    cause: DatabaseError::EmptyPlaylistName,
                },
            )
        } else {
            Ok(
                Change::CreatePlaylist {
                    name: source.name@,
                    tracks: crate::database::numbers_of(handles),
                },
            )
        },
    }
}

/// What queueing the update of a playlist comes to.
pub open spec fn revision(
    device: crate::database::Device,
    tracks: Seq<Track>,
    update: PlaylistUpdate,
) -> Result<Change, PlaylistSyncError> {
    let source = *update.source;
    match handles_of(tracks, source) {
        None => Err(PlaylistSyncError::NotSynchronized { path: source.path.shown }),
        Some(handles) => if text::is_blank(source.name@) {
            Err(
                PlaylistSyncError::Update {
                    name: source.name,
                    cause: DatabaseError::EmptyPlaylistName,
                },
            )
        } else if !crate::database::has_editable_playlist(device, update.handle) {
            Err(
                PlaylistSyncError::Update {
                    name: source.name,
                    cause: DatabaseError::PlaylistNotUpdatable,
                },
            )
        } else {
            Ok(
                Change::UpdatePlaylist {
                    id: update.handle.0,
                    name: source.name@,
                    tracks: crate::database::numbers_of(handles),
                },
            )
        },
    }
}

/// What queueing the deletion of an obsolete playlist comes to.
pub open spec fn deletion(device: crate::database::Device, playlist: Playlist) -> Result<
    Change,
    PlaylistSyncError,
> {
    if crate::database::has_editable_playlist(device, playlist.handle) {
        Ok(Change::DeletePlaylist(playlist.handle.0))
    } else {
        Err(
            PlaylistSyncError::Delete {
                name: playlist.name,
                cause: DatabaseError::PlaylistNotDeletable,
            },
        )
    }
}

/// What each step of a playlist plan comes to: creations, updates, deletions.
pub open spec fn plan_outcomes(
    device: crate::database::Device,
    tracks: Seq<Track>,
    plan: PlaylistPlan,
) -> Seq<Result<Change, PlaylistSyncError>> {
    plan.created@.map_values(|source: &SourcePlaylist| creation(tracks, *source))
        + plan.updated@.map_values(|update: PlaylistUpdate| revision(device, tracks, update))
        + plan.obsolete@.map_values(|playlist: &Playlist| deletion(device, *playlist))
}

/// The changes that were queued before the first failure.
pub open spec fn successes(
    outcomes: Seq<Result<Change, PlaylistSyncError>>,
    n: int,
) -> Seq<Change> {
    outcomes.take(n).map_values(|outcome: Result<Change, PlaylistSyncError>| outcome->Ok_0)
}

/// Queues the creations, updates and deletions of a playlist plan, up to the
/// first that fails.
pub fn apply_playlist_plan(
    database: &mut Database,
    plan: &PlaylistPlan<'_>,
    table: &TrackTable<'_>,
) -> (applied: Result<(), PlaylistSyncError>)
    requires
        table.wf(),
    ensures
        final(database).device() == old(database).device(),
        final(database).sequence() == old(database).sequence(),
        ({
            let outcomes = plan_outcomes(old(database).device(), table.tracks(), *plan);
            match applied {
                Ok(_) => {
                    &&& forall|i: int| 0 <= i < outcomes.len() ==> (#[trigger] outcomes[i]) is Ok
                    &&& final(database).queued() == old(database).queued() + successes(
                        outcomes,
                        outcomes.len() as int,
                    )
                },
                Err(e) => exists|n: int|
                    0 <= n < outcomes.len() && {
                        &&& #[trigger] outcomes[n] == Err::<Change, PlaylistSyncError>(e)
                        &&& forall|i: int| 0 <= i < n ==> (#[trigger] outcomes[i]) is Ok
                        &&& final(database).queued() == old(database).queued() + successes(
                            outcomes,
                            n,
                        )
                    },
            }
        }),
{
    let ghost device = database.device();
    let ghost start = database.queued();
    let ghost sequence = database.sequence();
    let ghost outcomes = plan_outcomes(device, table.tracks(), *plan);
    let mut i: usize = 0;
    assert(start + successes(outcomes, 0) =~= start);
    while i < plan.created.len()
        invariant
            i <= plan.created@.len(),
            table.wf(),
            database.device() == device,
            database.sequence() == sequence,
            outcomes == plan_outcomes(device, table.tracks(), *plan),
            forall|j: int| 0 <= j < i ==> (#[trigger] outcomes[j]) is Ok,
            database.queued() == start + successes(outcomes, i as int),
            device == old(database).device(),
            start == old(database).queued(),
            sequence == old(database).sequence(),
        decreases plan.created@.len() - i,
    {
        let source = plan.created[i];
        let ghost n = i as int;
        assert(outcomes[n] == creation(table.tracks(), *source));
        let tracks = match resolve_playlist_handles(source, table) {
            Ok(tracks) => tracks,
            Err(e) => {
                assert(outcomes[n] == Err::<Change, PlaylistSyncError>(e));
                return Err(e);
            },
        };
        match database.create_playlist(source.name.as_str(), &tracks) {
            Ok(_) => {},
            Err(cause) => {
                let e = PlaylistSyncError::Create { name: source.name.clone(), cause };
                assert(outcomes[n] == Err::<Change, PlaylistSyncError>(e));
                return Err(e);
            },
        }
        assert(successes(outcomes, n + 1) =~= successes(outcomes, n).push(outcomes[n]->Ok_0));
        i += 1;
        assert(database.queued() =~= start + successes(outcomes, i as int));
    }
    let ghost base = plan.created@.len() as int;
    let mut i: usize = 0;
    while i < plan.updated.len()
        invariant
            i <= plan.updated@.len(),
            base == plan.created@.len(),
            table.wf(),
            database.device() == device,
            database.sequence() == sequence,
            outcomes == plan_outcomes(device, table.tracks(), *plan),
            forall|j: int| 0 <= j < base + i ==> (#[trigger] outcomes[j]) is Ok,
            database.queued() == start + successes(outcomes, base + i),
            device == old(database).device(),
            start == old(database).queued(),
            sequence == old(database).sequence(),
        decreases plan.updated@.len() - i,
    {
        let update = &plan.updated[i];
        let ghost n = base + i;
        assert(outcomes[n] == revision(device, table.tracks(), *update));
        let tracks = match resolve_playlist_handles(update.source, table) {
            Ok(tracks) => tracks,
            Err(e) => {
                assert(outcomes[n] == Err::<Change, PlaylistSyncError>(e));
                return Err(e);
            },
        };
        match database.update_playlist(update.handle, update.source.name.as_str(), &tracks) {
            Ok(_) => {},
            Err(cause) => {
                let e = PlaylistSyncError::Update { name: update.source.name.clone(), cause };
                assert(outcomes[n] == Err::<Change, PlaylistSyncError>(e));
                return Err(e);
            },
        }
        assert(successes(outcomes, n + 1) =~= successes(outcomes, n).push(outcomes[n]->Ok_0));
        i += 1;
        assert(database.queued() =~= start + successes(outcomes, base + i));
    }
    let ghost base = plan.created@.len() + plan.updated@.len() as int;
    let mut i: usize = 0;
    while i < plan.obsolete.len()
        invariant
            i <= plan.obsolete@.len(),
            base == plan.created@.len() + plan.updated@.len(),
            table.wf(),
            database.device() == device,
            database.sequence() == sequence,
            outcomes == plan_outcomes(device, table.tracks(), *plan),
            forall|j: int| 0 <= j < base + i ==> (#[trigger] outcomes[j]) is Ok,
            database.queued() == start + successes(outcomes, base + i),
            device == old(database).device(),
            start == old(database).queued(),
            sequence == old(database).sequence(),
        decreases plan.obsolete@.len() - i,
    {
        let playlist = plan.obsolete[i];
        let ghost n = base + i;
        assert(outcomes[n] == deletion(device, *playlist));
        match database.delete_playlist(playlist.handle) {
            Ok(_) => {},
            Err(cause) => {
                let e = PlaylistSyncError::Delete { name: playlist.name.clone(), cause };
                assert(outcomes[n] == Err::<Change, PlaylistSyncError>(e));
                return Err(e);
            },
        }
        assert(successes(outcomes, n + 1) =~= successes(outcomes, n).push(outcomes[n]->Ok_0));
        i += 1;
        assert(database.queued() =~= start + successes(outcomes, base + i));
    }
    Ok(())
}

} // verus!
