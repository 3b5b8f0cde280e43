//! What has to be done so that the device holds the local tracks and playlists.

use std::collections::HashMap;

use vstd::prelude::*;

use crate::database::{Playlist, PlaylistHandle, Track, TrackHandle};
use crate::index::KeyIndex;
use crate::key::{normalize_playlist_name, Identity};
use crate::playlist::{strip_sorting_prefix, SourcePlaylist};
use crate::source::{existing_key, source_key, SourceTrack};

verus! {

/// A track on the device, and the local track that it is.
#[derive(Debug)]
pub struct KeptTrack<'a> {
    pub existing: &'a Track,
    pub source: &'a SourceTrack,
}

/// The identities of local tracks.
pub open spec fn source_identities(sources: Seq<SourceTrack>) -> Seq<crate::key::Identity> {
    sources.map_values(|source: SourceTrack| crate::source::source_identity(source))
}

/// The identities of tracks on the device.
pub open spec fn existing_identities(existing: Seq<Track>) -> Seq<crate::key::Identity> {
    existing.map_values(|track: Track| crate::source::existing_identity(track))
}

/// Whether the track at index `e` has its file and is the recording `wanted`.
pub open spec fn provides(existing: Seq<Track>, e: int, wanted: crate::key::Identity) -> bool {
    !existing[e].media_missing && existing_identities(existing)[e] == wanted
}

/// Whether one of the first `n` tracks provides the recording.
pub open spec fn provided(existing: Seq<Track>, n: int, wanted: crate::key::Identity) -> bool {
    exists|e: int| 0 <= e < n && #[trigger] provides(existing, e, wanted)
}

/// Whether the track at index `e` stays: its file is there, it is one of the
/// local recordings, and it is the first to provide it.
pub open spec fn stays(sources: Seq<SourceTrack>, existing: Seq<Track>, e: int) -> bool {
    let identity = existing_identities(existing)[e];
    &&& !existing[e].media_missing
    &&& source_identities(sources).contains(identity)
    &&& !provided(existing, e, identity)
}

/// Whether the local track at index `s` has to be copied: nothing on the device
/// provides it.
pub open spec fn is_new(sources: Seq<SourceTrack>, existing: Seq<Track>, s: int) -> bool {
    !provided(existing, existing.len() as int, source_identities(sources)[s])
}

/// The indexes below `n` of the tracks that stay.
pub open spec fn staying(sources: Seq<SourceTrack>, existing: Seq<Track>, n: int) -> Seq<int>
    decreases n,
{
    if n <= 0 {
        Seq::empty()
    } else if stays(sources, existing, n - 1) {
        staying(sources, existing, n - 1).push(n - 1)
    } else {
        staying(sources, existing, n - 1)
    }
}

/// The indexes below `n` of the tracks that go.
pub open spec fn going(sources: Seq<SourceTrack>, existing: Seq<Track>, n: int) -> Seq<int>
    decreases n,
{
    if n <= 0 {
        Seq::empty()
    } else if stays(sources, existing, n - 1) {
        going(sources, existing, n - 1)
    } else {
        going(sources, existing, n - 1).push(n - 1)
    }
}

/// The indexes below `n` of the local tracks that have to be copied.
pub open spec fn coming(sources: Seq<SourceTrack>, existing: Seq<Track>, n: int) -> Seq<int>
    decreases n,
{
    if n <= 0 {
        Seq::empty()
    } else if is_new(sources, existing, n - 1) {
        coming(sources, existing, n - 1).push(n - 1)
    } else {
        coming(sources, existing, n - 1)
    }
}

/// The local track that a track on the device is: the last with its identity.
pub open spec fn counterpart(sources: Seq<SourceTrack>, track: Track) -> SourceTrack {
    sources[crate::index::last_of(
        source_identities(sources),
        crate::source::existing_identity(track),
    ).unwrap()]
}

/// The tracks at these indexes, each with its local counterpart.
pub open spec fn are_kept(
    kept: Seq<KeptTrack>,
    sources: Seq<SourceTrack>,
    existing: Seq<Track>,
    indexes: Seq<int>,
) -> bool {
    &&& kept.len() == indexes.len()
    &&& forall|k: int|
        0 <= k < kept.len() ==> {
            &&& *(#[trigger] kept[k]).existing == existing[indexes[k]]
            &&& *kept[k].source == counterpart(sources, existing[indexes[k]])
        }
}

/// The items at these indexes.
pub open spec fn are_at<T>(found: Seq<&T>, all: Seq<T>, indexes: Seq<int>) -> bool {
    &&& found.len() == indexes.len()
    &&& forall|k: int| 0 <= k < found.len() ==> *(#[trigger] found[k]) == all[indexes[k]]
}

/// Decides for every track on the device whether it stays or goes, and which
/// local tracks have to be copied.
pub fn make_plan<'a>(sources: &'a Vec<SourceTrack>, existing: &'a Vec<Track>) -> (plan: (
    Vec<KeptTrack<'a>>,
    Vec<&'a Track>,
    Vec<&'a SourceTrack>,
))
    ensures
        are_kept(
            plan.0@,
            sources@,
            existing@,
            staying(sources@, existing@, existing@.len() as int),
        ),
        are_at(plan.1@, existing@, going(sources@, existing@, existing@.len() as int)),
        are_at(plan.2@, sources@, coming(sources@, existing@, sources@.len() as int)),
{
    let ghost ids = source_identities(sources@);
    let mut wanted = KeyIndex::new();
    let mut matched: Vec<bool> = Vec::new();
    let mut s: usize = 0;
    while s < sources.len()
        invariant
            s <= sources@.len(),
            ids == source_identities(sources@),
            wanted.wf(),
            wanted@ == ids.take(s as int),
            matched@.len() == s,
            forall|k: int| 0 <= k < s ==> !matched@[k],
        decreases sources@.len() - s,
    {
        wanted.add_key(source_key(&sources[s]));
        matched.push(false);
        s += 1;
        assert(wanted@ =~= ids.take(s as int));
    }
    assert(ids.take(s as int) =~= ids);

    let mut kept: Vec<KeptTrack<'a>> = Vec::new();
    let mut deleted: Vec<&'a Track> = Vec::new();
    let mut e: usize = 0;
    while e < existing.len()
        invariant
            e <= existing@.len(),
            ids == source_identities(sources@),
            wanted.wf(),
            wanted@ == ids,
            matched@.len() == ids.len(),
            forall|k: int|
                0 <= k < ids.len() && crate::index::last_of(ids, #[trigger] ids[k]) == Some(k)
                    ==> matched@[k] == provided(existing@, e as int, ids[k]),
            are_kept(kept@, sources@, existing@, staying(sources@, existing@, e as int)),
            are_at(deleted@, existing@, going(sources@, existing@, e as int)),
        decreases existing@.len() - e,
    {
        let entry = &existing[e];
        let key = existing_key(entry);
        let ghost identity = existing_identities(existing@)[e as int];
        assert(identity == key@);
        let mut keep: bool = false;
        proof {
            crate::index::lemma_last_of(ids, identity);
            assert forall|w: crate::key::Identity|
                #[trigger] provided(existing@, e + 1, w) == (provided(existing@, e as int, w)
                    || provides(existing@, e as int, w)) by {
                if provided(existing@, e + 1, w) && !provides(existing@, e as int, w) {
                    let at = choose|at: int| 0 <= at < e + 1 && #[trigger] provides(existing@, at, w);
                    assert(at < e);
                }
            }
        }
        if !entry.media_missing {
            if let Some(at) = wanted.find_last(&key) {
                assert(ids[at as int] == identity);
                assert(ids.contains(identity));
                if !matched[at] {
                    matched[at] = true;
                    keep = true;
                    kept.push(KeptTrack { existing: entry, source: &sources[at] });
                }
            }
        }
        assert(keep == stays(sources@, existing@, e as int));
        if !keep {
            deleted.push(entry);
        }
        e += 1;
    }

    let mut copied: Vec<&'a SourceTrack> = Vec::new();
    let mut s: usize = 0;
    while s < sources.len()
        invariant
            s <= sources@.len(),
            ids == source_identities(sources@),
            wanted.wf(),
            wanted@ == ids,
            matched@.len() == ids.len(),
            forall|k: int|
                0 <= k < ids.len() && crate::index::last_of(ids, #[trigger] ids[k]) == Some(k)
                    ==> matched@[k] == provided(existing@, existing@.len() as int, ids[k]),
            are_at(copied@, sources@, coming(sources@, existing@, s as int)),
        decreases sources@.len() - s,
    {
        let source = &sources[s];
        let key = source_key(source);
        assert(key@ == ids[s as int]);
        proof {
            crate::index::lemma_last_of(ids, key@);
        }
        let known: bool = match wanted.find_last(&key) {
            Some(at) => {
                assert(ids[at as int] == key@);
                matched[at]
            },
            None => {
                assert(ids.contains(ids[s as int]));
                false
            },
        };
        if !known {
            copied.push(source);
        }
        s += 1;
    }
    (kept, deleted, copied)
}

/// A local playlist, and the playlist on the device that becomes it.
#[derive(Debug)]
pub struct PlaylistUpdate<'a> {
    pub source: &'a SourcePlaylist,
    pub handle: PlaylistHandle,
}

/// What is to be done with the playlists.
#[derive(Debug)]
pub struct PlaylistPlan<'a> {
    /// Local playlists that the device has as they are.
    pub kept: Vec<&'a SourcePlaylist>,
    /// Local playlists that the device does not have.
    pub created: Vec<&'a SourcePlaylist>,
    /// Local playlists that the device has with another name or other tracks.
    pub updated: Vec<PlaylistUpdate<'a>>,
    /// Copies on the device, under the sorting prefix, of local playlists.
    pub obsolete: Vec<&'a Playlist>,
}

/// Whether a playlist on the device may be touched.
pub open spec fn is_standard(playlist: Playlist) -> bool {
    !playlist.is_hidden && !playlist.is_smart
}

/// The first of the first `n` standard playlists of this name, in normal form,
/// that is not taken yet.
pub open spec fn first_free(
    existing: Seq<Playlist>,
    n: int,
    normal: Seq<char>,
    taken: Set<PlaylistHandle>,
) -> Option<int>
    decreases n,
{
    if n <= 0 {
        None
    } else {
        match first_free(existing, n - 1, normal, taken) {
            Some(p) => Some(p),
            None => if is_standard(existing[n - 1]) && !taken.contains(existing[n - 1].handle)
                && crate::key::normal_name(existing[n - 1].name@) == normal {
                Some(n - 1)
            } else {
                None
            },
        }
    }
}

/// The playlists on the device that the first `n` local playlists take.
pub open spec fn taken_by(
    sources: Seq<SourcePlaylist>,
    existing: Seq<Playlist>,
    n: int,
) -> Set<PlaylistHandle>
    decreases n,
{
    if n <= 0 {
        Set::empty()
    } else {
        let taken = taken_by(sources, existing, n - 1);
        match first_free(
            existing,
            existing.len() as int,
            crate::key::normal_name(sources[n - 1].name@),
            taken,
        ) {
            Some(p) => taken.insert(existing[p].handle),
            None => taken,
        }
    }
}

/// The playlist on the device that the local playlist at index `s` takes.
pub open spec fn match_of(
    sources: Seq<SourcePlaylist>,
    existing: Seq<Playlist>,
    s: int,
) -> Option<int> {
    first_free(
        existing,
        existing.len() as int,
        crate::key::normal_name(sources[s].name@),
        taken_by(sources, existing, s),
    )
}

/// The identity of the track of this number; of several the last counts.
pub open spec fn identity_of_handle(tracks: Seq<Track>, handle: TrackHandle) -> Option<Identity>
    decreases tracks.len(),
{
    if tracks.len() == 0 {
        None
    } else if tracks.last().handle == handle {
        Some(crate::source::existing_identity(tracks.last()))
    } else {
        identity_of_handle(tracks.drop_last(), handle)
    }
}

/// Whether the playlist on the device has the local playlist's tracks, in order.
pub open spec fn has_tracks(tracks: Seq<Track>, playlist: Playlist, source: SourcePlaylist) -> bool {
    &&& playlist.tracks@.len() == source.tracks@.len()
    &&& forall|k: int|
        0 <= k < source.tracks@.len() ==> identity_of_handle(
            tracks,
            #[trigger] playlist.tracks@[k],
        ) == Some(source.tracks@[k]@)
}

/// What becomes of a local playlist.
pub enum Fate {
    Keep,
    Create,
    Update(PlaylistHandle),
}

/// What becomes of the local playlist at index `s`.
pub open spec fn fate_of(
    sources: Seq<SourcePlaylist>,
    existing: Seq<Playlist>,
    tracks: Seq<Track>,
    s: int,
) -> Fate {
    match match_of(sources, existing, s) {
        None => Fate::Create,
        Some(p) => if existing[p].name@ == sources[s].name@ && has_tracks(
            tracks,
            existing[p],
            sources[s],
        ) {
            Fate::Keep
        } else {
            Fate::Update(existing[p].handle)
        },
    }
}

/// The local playlists below `n` that are kept.
pub open spec fn kept_lists(
    sources: Seq<SourcePlaylist>,
    existing: Seq<Playlist>,
    tracks: Seq<Track>,
    n: int,
) -> Seq<int>
    decreases n,
{
    if n <= 0 {
        Seq::empty()
    } else if fate_of(sources, existing, tracks, n - 1) is Keep {
        kept_lists(sources, existing, tracks, n - 1).push(n - 1)
    } else {
        kept_lists(sources, existing, tracks, n - 1)
    }
}

/// The local playlists below `n` that are created.
pub open spec fn created_lists(
    sources: Seq<SourcePlaylist>,
    existing: Seq<Playlist>,
    tracks: Seq<Track>,
    n: int,
) -> Seq<int>
    decreases n,
{
    if n <= 0 {
        Seq::empty()
    } else if fate_of(sources, existing, tracks, n - 1) is Create {
        created_lists(sources, existing, tracks, n - 1).push(n - 1)
    } else {
        created_lists(sources, existing, tracks, n - 1)
    }
}

/// The local playlists below `n` that are updated, each with the number of the
/// playlist that becomes it.
pub open spec fn updated_lists(
    sources: Seq<SourcePlaylist>,
    existing: Seq<Playlist>,
    tracks: Seq<Track>,
    n: int,
) -> Seq<(int, PlaylistHandle)>
    decreases n,
{
    if n <= 0 {
        Seq::empty()
    } else {
        match fate_of(sources, existing, tracks, n - 1) {
            Fate::Update(handle) => updated_lists(sources, existing, tracks, n - 1).push(
                (n - 1, handle),
            ),
            _ => updated_lists(sources, existing, tracks, n - 1),
        }
    }
}

/// Whether the playlist on the device at index `p` is the copy of a local
/// playlist under the sorting prefix, and not itself one that is taken.
pub open spec fn is_obsolete(
    sources: Seq<SourcePlaylist>,
    existing: Seq<Playlist>,
    p: int,
) -> bool {
    &&& is_standard(existing[p])
    &&& crate::playlist::has_prefix(existing[p].name@)
    &&& !taken_by(sources, existing, sources.len() as int).contains(existing[p].handle)
    &&& exists|s: int|
        0 <= s < sources.len() && crate::key::normal_name((#[trigger] sources[s]).name@)
            == crate::key::normal_name(crate::playlist::bare_name(existing[p].name@))
}

/// The playlists on the device below `n` that are obsolete.
pub open spec fn obsolete_lists(
    sources: Seq<SourcePlaylist>,
    existing: Seq<Playlist>,
    n: int,
) -> Seq<int>
    decreases n,
{
    if n <= 0 {
        Seq::empty()
    } else if is_obsolete(sources, existing, n - 1) {
        obsolete_lists(sources, existing, n - 1).push(n - 1)
    } else {
        obsolete_lists(sources, existing, n - 1)
    }
}

/// The updates of these local playlists.
pub open spec fn are_updates(
    updates: Seq<PlaylistUpdate>,
    sources: Seq<SourcePlaylist>,
    wanted: Seq<(int, PlaylistHandle)>,
) -> bool {
    &&& updates.len() == wanted.len()
    &&& forall|k: int|
        0 <= k < updates.len() ==> {
            &&& *(#[trigger] updates[k]).source == sources[wanted[k].0]
            &&& updates[k].handle == wanted[k].1
        }
}

/// The number of a track as the index of the last track that has it.
fn index_handles(tracks: &Vec<Track>) -> (index: HashMap<u64, usize>)
    ensures
        forall|number: u64| #[trigger]
            index@.contains_key(number) ==> {
                &&& index@[number] < tracks@.len()
                &&& identity_of_handle(tracks@, TrackHandle(number)) == Some(
                    crate::source::existing_identity(tracks@[index@[number] as int]),
                )
            },
        forall|number: u64|
            !#[trigger] index@.contains_key(number) ==> identity_of_handle(
                tracks@,
                TrackHandle(number),
            ) is None,
{
    broadcast use vstd::std_specs::hash::group_hash_axioms;

    let mut index: HashMap<u64, usize> = HashMap::new();
    let mut i: usize = 0;
    while i < tracks.len()
        invariant
            i <= tracks@.len(),
            forall|number: u64| #[trigger]
                index@.contains_key(number) ==> {
                    &&& index@[number] < i
                    &&& identity_of_handle(tracks@.take(i as int), TrackHandle(number)) == Some(
                        crate::source::existing_identity(tracks@[index@[number] as int]),
                    )
                },
            forall|number: u64|
                !#[trigger] index@.contains_key(number) ==> identity_of_handle(
                    tracks@.take(i as int),
                    TrackHandle(number),
                ) is None,
        decreases tracks@.len() - i,
    {
        let ghost held = index@;
        index.insert(tracks[i].handle.0, i);
        assert(tracks@.take(i + 1).drop_last() =~= tracks@.take(i as int));
        assert forall|number: u64| #[trigger] index@.contains_key(number) implies {
            &&& index@[number] < i + 1
            &&& identity_of_handle(tracks@.take(i + 1), TrackHandle(number)) == Some(
                crate::source::existing_identity(tracks@[index@[number] as int]),
            )
        } by {
            if number != tracks@[i as int].handle.0 {
                assert(held.contains_key(number));
            }
        }
        assert forall|number: u64| !#[trigger] index@.contains_key(number) implies identity_of_handle(
            tracks@.take(i + 1),
            TrackHandle(number),
        ) is None by {
            assert(!held.contains_key(number));
        }
        i += 1;
    }
    assert(tracks@.take(i as int) =~= tracks@);
    index
}

fn lists_same_tracks(
    tracks: &Vec<Track>,
    index: &HashMap<u64, usize>,
    playlist: &Playlist,
    source: &SourcePlaylist,
) -> (same: bool)
    requires
        forall|number: u64| #[trigger]
            index@.contains_key(number) ==> {
                &&& index@[number] < tracks@.len()
                &&& identity_of_handle(tracks@, TrackHandle(number)) == Some(
                    crate::source::existing_identity(tracks@[index@[number] as int]),
                )
            },
        forall|number: u64|
            !#[trigger] index@.contains_key(number) ==> identity_of_handle(
                tracks@,
                TrackHandle(number),
            ) is None,
    ensures
        same == has_tracks(tracks@, *playlist, *source),
{
    broadcast use vstd::std_specs::hash::group_hash_axioms;

    if playlist.tracks.len() != source.tracks.len() {
        return false;
    }
    let mut k: usize = 0;
    while k < source.tracks.len()
        invariant
            k <= source.tracks@.len(),
            playlist.tracks@.len() == source.tracks@.len(),
            forall|number: u64| #[trigger]
                index@.contains_key(number) ==> {
                    &&& index@[number] < tracks@.len()
                    &&& identity_of_handle(tracks@, TrackHandle(number)) == Some(
                        crate::source::existing_identity(tracks@[index@[number] as int]),
                    )
                },
            forall|number: u64|
                !#[trigger] index@.contains_key(number) ==> identity_of_handle(
                    tracks@,
                    TrackHandle(number),
                ) is None,
            forall|j: int|
                0 <= j < k ==> identity_of_handle(tracks@, #[trigger] playlist.tracks@[j]) == Some(
                    source.tracks@[j]@,
                ),
        decreases source.tracks@.len() - k,
    {
        let number: u64 = playlist.tracks[k].0;
        assert(playlist.tracks@[k as int] == TrackHandle(number));
        match index.get(&number) {
            Some(at) => {
                let key = existing_key(&tracks[*at]);
                if !(key == source.tracks[k]) {
                    assert(identity_of_handle(tracks@, playlist.tracks@[k as int]) != Some(
                        source.tracks@[k as int]@,
                    ));
                    return false;
                }
            },
            None => {
                assert(identity_of_handle(tracks@, playlist.tracks@[k as int]) is None);
                return false;
            },
        }
        k += 1;
    }
    true
}

fn holds_handle(handles: &Vec<PlaylistHandle>, wanted: PlaylistHandle) -> (held: bool)
    ensures
        held == handles@.to_set().contains(wanted),
{
    let mut i: usize = 0;
    while i < handles.len()
        invariant
            i <= handles@.len(),
            forall|j: int| 0 <= j < i ==> handles@[j] != wanted,
        decreases handles@.len() - i,
    {
        if handles[i] == wanted {
            assert(handles@.contains(wanted));
            return true;
        }
        i += 1;
    }
    false
}

/// Decides what becomes of each local playlist, and which playlists on the
/// device are obsolete copies of them. `tracks` are the tracks on the device.
pub fn make_playlist_plan<'a>(
    sources: &'a Vec<SourcePlaylist>,
    existing: &'a Vec<Playlist>,
    tracks: &Vec<Track>,
) -> (plan: PlaylistPlan<'a>)
    ensures
        are_at(
            plan.kept@,
            sources@,
            kept_lists(sources@, existing@, tracks@, sources@.len() as int),
        ),
        are_at(
            plan.created@,
            sources@,
            created_lists(sources@, existing@, tracks@, sources@.len() as int),
        ),
        are_updates(
            plan.updated@,
            sources@,
            updated_lists(sources@, existing@, tracks@, sources@.len() as int),
        ),
        are_at(
            plan.obsolete@,
            existing@,
            obsolete_lists(sources@, existing@, existing@.len() as int),
        ),
{
    let index = index_handles(tracks);
    let mut names: Vec<String> = Vec::new();
    let mut p: usize = 0;
    while p < existing.len()
        invariant
            p <= existing@.len(),
            names@.len() == p,
            forall|j: int|
                0 <= j < p ==> (#[trigger] names@[j])@ == crate::key::normal_name(
                    existing@[j].name@,
                ),
        decreases existing@.len() - p,
    {
        names.push(normalize_playlist_name(existing[p].name.as_str()));
        p += 1;
    }
    let mut kept: Vec<&'a SourcePlaylist> = Vec::new();
    let mut created: Vec<&'a SourcePlaylist> = Vec::new();
    let mut updated: Vec<PlaylistUpdate<'a>> = Vec::new();
    let mut taken: Vec<PlaylistHandle> = Vec::new();
    let mut wanted: Vec<String> = Vec::new();
    let mut s: usize = 0;
    assert(taken@.to_set() =~= Set::empty());
    while s < sources.len()
        invariant
            s <= sources@.len(),
            names@.len() == existing@.len(),
            forall|j: int|
                0 <= j < names@.len() ==> (#[trigger] names@[j])@ == crate::key::normal_name(
                    existing@[j].name@,
                ),
            forall|number: u64| #[trigger]
                index@.contains_key(number) ==> {
                    &&& index@[number] < tracks@.len()
                    &&& identity_of_handle(tracks@, TrackHandle(number)) == Some(
                        crate::source::existing_identity(tracks@[index@[number] as int]),
                    )
                },
            forall|number: u64|
                !#[trigger] index@.contains_key(number) ==> identity_of_handle(
                    tracks@,
                    TrackHandle(number),
                ) is None,
            taken@.to_set() == taken_by(sources@, existing@, s as int),
            wanted@.len() == s,
            forall|j: int|
                0 <= j < s ==> (#[trigger] wanted@[j])@ == crate::key::normal_name(
                    sources@[j].name@,
                ),
            are_at(kept@, sources@, kept_lists(sources@, existing@, tracks@, s as int)),
            are_at(created@, sources@, created_lists(sources@, existing@, tracks@, s as int)),
            are_updates(updated@, sources@, updated_lists(sources@, existing@, tracks@, s as int)),
        decreases sources@.len() - s,
    {
        let source = &sources[s];
        let normal = normalize_playlist_name(source.name.as_str());
        let ghost held = taken@.to_set();
        let mut found: Option<usize> = None;
        let mut p: usize = 0;
        while p < existing.len() && found.is_none()
            invariant
                p <= existing@.len(),
                names@.len() == existing@.len(),
                forall|j: int|
                    0 <= j < names@.len() ==> (#[trigger] names@[j])@ == crate::key::normal_name(
                        existing@[j].name@,
                    ),
                held == taken@.to_set(),
                found matches Some(at) ==> at < p && first_free(
                    existing@,
                    p as int,
                    normal@,
                    held,
                ) == Some(at as int),
                found is None ==> first_free(existing@, p as int, normal@, held) is None,
            decreases existing@.len() - p,
        {
            let playlist = &existing[p];
            assert(names@[p as int]@ == crate::key::normal_name(existing@[p as int].name@));
            if !playlist.is_hidden && !playlist.is_smart && !holds_handle(&taken, playlist.handle)
                && names[p] == normal {
                found = Some(p);
            }
            p += 1;
        }
        proof {
            if let Some(at) = found {
                lemma_first_free_stays(existing@, p as int, normal@, held);
            }
            assert(match_of(sources@, existing@, s as int) == match found {
                Some(at) => Some(at as int),
                None => None,
            });
        }
        match found {
            None => created.push(source),
            Some(at) => {
                let playlist = &existing[at];
                proof {
                    lemma_push_to_set(taken@, playlist.handle);
                }
                taken.push(playlist.handle);
                if playlist.name == source.name && lists_same_tracks(
                    tracks,
                    &index,
                    playlist,
                    source,
                ) {
                    kept.push(source);
                } else {
                    updated.push(PlaylistUpdate { source, handle: playlist.handle });
                }
            },
        }
        wanted.push(normal);
        s += 1;
    }
    let mut obsolete: Vec<&'a Playlist> = Vec::new();
    let mut p: usize = 0;
    while p < existing.len()
        invariant
            p <= existing@.len(),
            taken@.to_set() == taken_by(sources@, existing@, sources@.len() as int),
            wanted@.len() == sources@.len(),
            forall|j: int|
                0 <= j < wanted@.len() ==> (#[trigger] wanted@[j])@ == crate::key::normal_name(
                    sources@[j].name@,
                ),
            are_at(obsolete@, existing@, obsolete_lists(sources@, existing@, p as int)),
        decreases existing@.len() - p,
    {
        let playlist = &existing[p];
        let bare = strip_sorting_prefix(playlist.name.as_str());
        let ghost prefixed = crate::playlist::has_prefix(playlist.name@);
        proof {
            assert(prefixed <==> bare@ != playlist.name@) by {
                if prefixed {
                    assert(bare@.len() < playlist.name@.len());
                }
            }
        }
        let mut copy: bool = false;
        if !playlist.is_hidden && !playlist.is_smart && !(bare == playlist.name) && !holds_handle(
            &taken,
            playlist.handle,
        ) {
            let normal = normalize_playlist_name(bare.as_str());
            let mut s: usize = 0;
            while s < wanted.len()
                invariant
                    s <= wanted@.len(),
                    wanted@.len() == sources@.len(),
                    forall|j: int|
                        0 <= j < wanted@.len() ==> (#[trigger] wanted@[j])@
                            == crate::key::normal_name(sources@[j].name@),
                    copy == exists|j: int|
                        0 <= j < s && crate::key::normal_name((#[trigger] sources@[j]).name@)
                            == normal@,
                decreases wanted@.len() - s,
            {
                assert(wanted@[s as int]@ == crate::key::normal_name(sources@[s as int].name@));
                if wanted[s] == normal {
                    copy = true;
                }
                s += 1;
            }
        }
        assert(copy == is_obsolete(sources@, existing@, p as int));
        if copy {
            obsolete.push(playlist);
        }
        p += 1;
    }
    PlaylistPlan { kept, created, updated, obsolete }
}

proof fn lemma_first_free_stays(
    existing: Seq<Playlist>,
    n: int,
    normal: Seq<char>,
    taken: Set<PlaylistHandle>,
)
    requires
        0 <= n <= existing.len(),
        first_free(existing, n, normal, taken) is Some,
    ensures
        first_free(existing, existing.len() as int, normal, taken) == first_free(
            existing,
            n,
            normal,
            taken,
        ),
    decreases existing.len() - n,
{
    if n < existing.len() {
        lemma_first_free_stays(existing, n + 1, normal, taken);
    }
}

proof fn lemma_push_to_set(handles: Seq<PlaylistHandle>, handle: PlaylistHandle)
    ensures
        handles.push(handle).to_set() == handles.to_set().insert(handle),
{
    let longer = handles.push(handle);
    assert(longer[handles.len() as int] == handle);
    assert forall|h: PlaylistHandle| handles.contains(h) implies longer.contains(h) by {
        let at = choose|at: int| 0 <= at < handles.len() && handles[at] == h;
        assert(longer[at] == h);
    }
    assert(longer.to_set() =~= handles.to_set().insert(handle));
}

} // verus!
