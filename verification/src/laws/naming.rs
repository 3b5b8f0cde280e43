//! What playlists are named, and what becomes of those on a device.

use vstd::prelude::*;

use crate::database::{Playlist, Track, TrackHandle};
use crate::key::normalize_playlist_name;
use crate::index::PathKeys;
use crate::laws::finding::ends_like_a_track;
use crate::laws::matching::{are_all, lemma_are_all_next, same_letters};
use crate::laws::playlists::{named_apart, numbered_apart, takes};
use crate::laws::reading::is_core_of;
use crate::m3u::{m3u_entries, M3uEntry};
use crate::path::FilePath;
use crate::plan::{make_playlist_plan, PlaylistPlan};
use crate::playlist::{
    read_source_playlists, strip_sorting_prefix, Fault, PlaylistError, PlaylistFile,
    SourcePlaylist,
};
use crate::text;

verus! {

/// Three zeros and a space.
pub open spec fn zeros() -> Seq<char> {
    seq!['0', '0', '0', ' ']
}

proof fn lemma_prefix(name: Seq<char>)
    ensures
        crate::playlist::has_prefix(name) <==> name.len() >= 4 && name[0] == '0' && name[1] == '0'
            && name[2] == '0' && name[3] == ' ',
        crate::playlist::has_prefix(name) ==> name == zeros() + name.skip(4),
        crate::playlist::bare_name(name) == if name.len() >= 4 && name[0] == '0' && name[1] == '0'
            && name[2] == '0' && name[3] == ' ' {
            name.skip(4)
        } else {
            name
        },
{
    reveal_strlit("000 ");
    if name.len() >= 4 {
        let front = name.take(4);
        assert(front[0] == name[0] && front[1] == name[1] && front[2] == name[2] && front[3]
            == name[3]);
        if name[0] == '0' && name[1] == '0' && name[2] == '0' && name[3] == ' ' {
            assert(front =~= "000 "@);
            assert(name =~= zeros() + name.skip(4));
        }
    }
}

/// A playlist's name loses exactly the three zeros and the space that it begins with,
/// and only where it begins with them. Any other name stays as it is.
pub proof fn law_only_zeros_are_stripped(name: &str, rest: Seq<char>, bare: String)
    requires
        call_ensures(strip_sorting_prefix, (name,), bare),
    ensures
        name@ == zeros() + rest ==> bare@ == rest,
        name@.len() < 4 || name@.take(4) != zeros() ==> bare@ == name@,
        bare@ == name@ || name@ == zeros() + bare@,
{
    lemma_prefix(name@);
    if name@ == zeros() + rest {
        assert(name@[0] == '0' && name@[1] == '0' && name@[2] == '0' && name@[3] == ' ');
        assert(name@.skip(4) =~= rest);
    }
    if name@.len() >= 4 && name@[0] == '0' && name@[1] == '0' && name@[2] == '0' && name@[3]
        == ' ' {
        assert(name@.take(4) =~= zeros());
    }
}

/// The normal form of a playlist's name of ASCII characters is the name without white
/// space at its ends, without capital letters, and otherwise the same.
pub proof fn law_normal_names_are_the_same_names(
    value: &str,
    core: Seq<char>,
    normal: String,
)
    requires
        call_ensures(normalize_playlist_name, (value,), normal),
        vstd::utf8::is_ascii_chars(value@),
        is_core_of(value@, core),
    ensures
        same_letters(core, normal@),
        forall|i: int| 0 <= i < normal@.len() ==> !('A' <= #[trigger] normal@[i] && normal@[i] <= 'Z'),
{
    crate::laws::reading::lemma_one_core(value@, core);
    text::lemma_trimmed_is_ascii(value@);
    assert(normal@ == text::ascii_lowered(core));
    crate::laws::matching::lemma_lowered_letters(core);
}

/// Whether a track is the last of its number.
pub open spec fn is_last_of_its_number(tracks: Seq<Track>, t: int, handle: TrackHandle) -> bool {
    &&& 0 <= t < tracks.len()
    &&& tracks[t].handle == handle
    &&& forall|u: int| t < u < tracks.len() ==> (#[trigger] tracks[u]).handle != handle
}

/// Whether the track of this number is the recording of this key.
pub open spec fn number_is(
    tracks: Seq<Track>,
    handle: TrackHandle,
    recording: crate::key::Identity,
) -> bool {
    exists|t: int| #[trigger]
        is_last_of_its_number(tracks, t, handle) && crate::source::existing_identity(tracks[t])
            == recording
}

/// Whether a playlist on the device lists a local playlist's recordings: as many, and
/// the same at every position.
pub open spec fn lists_the_same(
    tracks: Seq<Track>,
    playlist: Playlist,
    source: SourcePlaylist,
) -> bool {
    &&& playlist.tracks@.len() == source.tracks@.len()
    &&& forall|k: int|
        0 <= k < source.tracks@.len() ==> number_is(
            tracks,
            #[trigger] playlist.tracks@[k],
            source.tracks@[k]@,
        )
}

/// Whether the playlist on the device at index `p` is the first that may be touched,
/// being neither hidden nor smart, and has the local playlist's name, in normal form.
pub open spec fn is_counterpart(
    sources: Seq<SourcePlaylist>,
    existing: Seq<Playlist>,
    s: int,
    p: int,
) -> bool {
    let normal = crate::key::normal_name(sources[s].name@);
    &&& 0 <= p < existing.len()
    &&& !existing[p].is_hidden && !existing[p].is_smart
    &&& crate::key::normal_name(existing[p].name@) == normal
    &&& forall|q: int|
        0 <= q < p && !(#[trigger] existing[q]).is_hidden && !existing[q].is_smart
            ==> crate::key::normal_name(existing[q].name@) != normal
}

/// Whether the device has a local playlist as it is: by its exact name, with its
/// recordings in order.
pub open spec fn is_up_to_date(
    sources: Seq<SourcePlaylist>,
    existing: Seq<Playlist>,
    tracks: Seq<Track>,
    s: int,
    p: int,
) -> bool {
    &&& existing[p].name@ == sources[s].name@
    &&& lists_the_same(tracks, existing[p], sources[s])
}

/// Whether a local playlist is on the device as it is.
pub open spec fn is_there(
    sources: Seq<SourcePlaylist>,
    existing: Seq<Playlist>,
    tracks: Seq<Track>,
    s: int,
) -> bool {
    exists|p: int| #[trigger]
        is_counterpart(sources, existing, s, p) && is_up_to_date(sources, existing, tracks, s, p)
}

/// Whether a local playlist is on the device, but not as it is.
pub open spec fn is_out_of_date(
    sources: Seq<SourcePlaylist>,
    existing: Seq<Playlist>,
    tracks: Seq<Track>,
    s: int,
) -> bool {
    exists|p: int| #[trigger]
        is_counterpart(sources, existing, s, p) && !is_up_to_date(sources, existing, tracks, s, p)
}

/// Whether a local playlist is not on the device.
pub open spec fn is_not_there(
    sources: Seq<SourcePlaylist>,
    existing: Seq<Playlist>,
    s: int,
) -> bool {
    forall|p: int| !#[trigger] is_counterpart(sources, existing, s, p)
}

/// Whether a playlist on the device is named like a local playlist, in normal form,
/// after three zeros and a space.
pub open spec fn is_local_after_zeros(sources: Seq<SourcePlaylist>, name: Seq<char>, s: int) -> bool {
    &&& 0 <= s < sources.len()
    &&& name.len() >= 4 && name.take(4) == zeros()
    &&& crate::key::normal_name(name.skip(4)) == crate::key::normal_name(sources[s].name@)
}

/// Whether a playlist on the device that may be touched is a copy of a local playlist
/// after three zeros and a space, and is not itself the counterpart of one.
pub open spec fn is_left_over(
    sources: Seq<SourcePlaylist>,
    existing: Seq<Playlist>,
    p: int,
) -> bool {
    &&& !existing[p].is_hidden && !existing[p].is_smart
    &&& exists|s: int| #[trigger] is_local_after_zeros(sources, existing[p].name@, s)
    &&& forall|s: int|
        0 <= s < sources.len() ==> !#[trigger] is_counterpart(sources, existing, s, p)
}

proof fn lemma_number_is(tracks: Seq<Track>, handle: TrackHandle, recording: crate::key::Identity)
    ensures
        crate::plan::identity_of_handle(tracks, handle) == Some(recording) <==> number_is(
            tracks,
            handle,
            recording,
        ),
    decreases tracks.len(),
{
    if tracks.len() > 0 {
        let last = tracks.len() - 1;
        let earlier = tracks.drop_last();
        if tracks[last].handle == handle {
            assert(is_last_of_its_number(tracks, last, handle));
            if number_is(tracks, handle, recording) {
                let t = choose|t: int| #[trigger]
                    is_last_of_its_number(tracks, t, handle)
                        && crate::source::existing_identity(tracks[t]) == recording;
                assert(t == last);
            }
        } else {
            lemma_number_is(earlier, handle, recording);
            if number_is(earlier, handle, recording) {
                let t = choose|t: int| #[trigger]
                    is_last_of_its_number(earlier, t, handle)
                        && crate::source::existing_identity(earlier[t]) == recording;
                assert forall|u: int| t < u < tracks.len() implies (#[trigger] tracks[u]).handle
                    != handle by {
                    if u < last {
                        assert(earlier[u] == tracks[u]);
                    }
                }
                assert(is_last_of_its_number(tracks, t, handle));
            }
            if number_is(tracks, handle, recording) {
                let t = choose|t: int| #[trigger]
                    is_last_of_its_number(tracks, t, handle)
                        && crate::source::existing_identity(tracks[t]) == recording;
                assert(earlier[t] == tracks[t]);
                assert forall|u: int| t < u < earlier.len() implies (#[trigger] earlier[u]).handle
                    != handle by {
                    assert(earlier[u] == tracks[u]);
                }
                assert(is_last_of_its_number(earlier, t, handle));
            }
        }
    }
}

proof fn lemma_lists_the_same(tracks: Seq<Track>, playlist: Playlist, source: SourcePlaylist)
    ensures
        crate::plan::has_tracks(tracks, playlist, source) <==> lists_the_same(
            tracks,
            playlist,
            source,
        ),
{
    assert forall|k: int| 0 <= k < source.tracks@.len() implies (
    crate::plan::identity_of_handle(tracks, #[trigger] playlist.tracks@[k]) == Some(
        source.tracks@[k]@,
    ) <==> number_is(tracks, playlist.tracks@[k], source.tracks@[k]@)) by {
        lemma_number_is(tracks, playlist.tracks@[k], source.tracks@[k]@);
    }
}

proof fn lemma_fate(
    sources: Seq<SourcePlaylist>,
    existing: Seq<Playlist>,
    tracks: Seq<Track>,
    s: int,
)
    requires
        named_apart(sources),
        numbered_apart(existing),
        0 <= s < sources.len(),
    ensures
        crate::plan::fate_of(sources, existing, tracks, s) is Keep <==> is_there(
            sources,
            existing,
            tracks,
            s,
        ),
        crate::plan::fate_of(sources, existing, tracks, s) is Create <==> is_not_there(
            sources,
            existing,
            s,
        ),
        crate::plan::fate_of(sources, existing, tracks, s) is Update <==> is_out_of_date(
            sources,
            existing,
            tracks,
            s,
        ),
        crate::plan::fate_of(sources, existing, tracks, s) matches crate::plan::Fate::Update(handle)
            ==> forall|p: int| #[trigger]
            is_counterpart(sources, existing, s, p) ==> existing[p].handle == handle,
        forall|p: int| #[trigger]
            is_counterpart(sources, existing, s, p) <==> crate::plan::match_of(
                sources,
                existing,
                s,
            ) == Some(p),
{
    crate::laws::playlists::lemma_match(sources, existing, s);
    match crate::plan::match_of(sources, existing, s) {
        Some(p) => {
            assert(is_counterpart(sources, existing, s, p));
            assert forall|q: int| #[trigger] is_counterpart(sources, existing, s, q) implies q
                == p by {
                if q < p {
                    assert(crate::plan::is_standard(existing[q]));
                }
            }
            lemma_lists_the_same(tracks, existing[p], sources[s]);
        },
        None => {
            assert forall|q: int| !#[trigger] is_counterpart(sources, existing, s, q) by {
                if is_counterpart(sources, existing, s, q) {
                    assert(crate::plan::is_standard(existing[q]));
                }
            }
        },
    }
}

proof fn lemma_lists_are_all(
    sources: Seq<SourcePlaylist>,
    existing: Seq<Playlist>,
    tracks: Seq<Track>,
    n: int,
)
    requires
        named_apart(sources),
        numbered_apart(existing),
        0 <= n <= sources.len(),
    ensures
        are_all(
            crate::plan::kept_lists(sources, existing, tracks, n),
            n,
            |s: int| is_there(sources, existing, tracks, s),
        ),
        are_all(
            crate::plan::created_lists(sources, existing, tracks, n),
            n,
            |s: int| is_not_there(sources, existing, s),
        ),
        are_all(
            crate::plan::updated_lists(sources, existing, tracks, n).map_values(
                |update: (int, crate::database::PlaylistHandle)| update.0,
            ),
            n,
            |s: int| is_out_of_date(sources, existing, tracks, s),
        ),
        forall|k: int, p: int|
            0 <= k < crate::plan::updated_lists(sources, existing, tracks, n).len()
                && #[trigger] is_counterpart(
                sources,
                existing,
                (#[trigger] crate::plan::updated_lists(sources, existing, tracks, n)[k]).0,
                p,
            ) ==> existing[p].handle == crate::plan::updated_lists(sources, existing, tracks, n)[k].1,
    decreases n,
{
    if n > 0 {
        let m = n - 1;
        lemma_lists_are_all(sources, existing, tracks, m);
        lemma_fate(sources, existing, tracks, m);
        let number = |update: (int, crate::database::PlaylistHandle)| update.0;
        let earlier = crate::plan::updated_lists(sources, existing, tracks, m);
        let all = crate::plan::updated_lists(sources, existing, tracks, n);
        lemma_are_all_next(
            crate::plan::kept_lists(sources, existing, tracks, m),
            m,
            |s: int| is_there(sources, existing, tracks, s),
        );
        lemma_are_all_next(
            crate::plan::created_lists(sources, existing, tracks, m),
            m,
            |s: int| is_not_there(sources, existing, s),
        );
        lemma_are_all_next(
            earlier.map_values(number),
            m,
            |s: int| is_out_of_date(sources, existing, tracks, s),
        );
        if let crate::plan::Fate::Update(handle) = crate::plan::fate_of(
            sources,
            existing,
            tracks,
            m,
        ) {
            assert(all.map_values(number) =~= earlier.map_values(number).push(m));
        }
        assert forall|k: int, p: int|
            0 <= k < all.len() && #[trigger] is_counterpart(
                sources,
                existing,
                (#[trigger] all[k]).0,
                p,
            ) implies existing[p].handle == all[k].1 by {
            if k < earlier.len() {
                assert(all[k] == earlier[k]);
            }
        }
    }
}

proof fn lemma_obsolete_is_left_over(
    sources: Seq<SourcePlaylist>,
    existing: Seq<Playlist>,
    p: int,
)
    requires
        named_apart(sources),
        numbered_apart(existing),
        0 <= p < existing.len(),
    ensures
        crate::plan::is_obsolete(sources, existing, p) <==> is_left_over(sources, existing, p),
{
    let name = existing[p].name@;
    let n = sources.len() as int;
    lemma_prefix(name);
    assert(crate::playlist::has_prefix(name) <==> name.len() >= 4 && name.take(4) == zeros()) by {
        if name.len() >= 4 {
            let front = name.take(4);
            assert(front[0] == name[0] && front[1] == name[1] && front[2] == name[2] && front[3]
                == name[3]);
            if crate::playlist::has_prefix(name) {
                assert(front =~= zeros());
            }
        }
    }
    if crate::playlist::has_prefix(name) {
        let bare = crate::playlist::bare_name(name);
        assert(bare == name.skip(4));
        if exists|s: int|
            0 <= s < sources.len() && crate::key::normal_name((#[trigger] sources[s]).name@)
                == crate::key::normal_name(bare) {
            let s = choose|s: int|
                0 <= s < sources.len() && crate::key::normal_name((#[trigger] sources[s]).name@)
                    == crate::key::normal_name(bare);
            assert(is_local_after_zeros(sources, name, s));
        }
        if exists|s: int| #[trigger] is_local_after_zeros(sources, name, s) {
            let s = choose|s: int| #[trigger] is_local_after_zeros(sources, name, s);
            assert(crate::key::normal_name(sources[s].name@) == crate::key::normal_name(bare));
        }
    }
    crate::laws::playlists::lemma_taken(sources, existing, n, existing[p].handle);
    if crate::plan::taken_by(sources, existing, n).contains(existing[p].handle) {
        let s = choose|s: int|
            0 <= s < n && #[trigger] takes(sources, existing, s, existing[p].handle);
        lemma_fate(sources, existing, Seq::empty(), s);
        let q = crate::plan::match_of(sources, existing, s).unwrap();
        assert(is_counterpart(sources, existing, s, q));
        assert(existing[q].handle == existing[p].handle);
        assert(q == p);
    } else {
        assert forall|s: int| 0 <= s < sources.len() implies !#[trigger] is_counterpart(
            sources,
            existing,
            s,
            p,
        ) by {
            lemma_fate(sources, existing, Seq::empty(), s);
            if is_counterpart(sources, existing, s, p) {
                assert(takes(sources, existing, s, existing[p].handle));
            }
        }
    }
}

proof fn lemma_obsolete_are_all(sources: Seq<SourcePlaylist>, existing: Seq<Playlist>, n: int)
    requires
        named_apart(sources),
        numbered_apart(existing),
        0 <= n <= existing.len(),
    ensures
        are_all(
            crate::plan::obsolete_lists(sources, existing, n),
            n,
            |p: int| is_left_over(sources, existing, p),
        ),
    decreases n,
{
    if n > 0 {
        lemma_obsolete_are_all(sources, existing, n - 1);
        lemma_obsolete_is_left_over(sources, existing, n - 1);
        lemma_are_all_next(
            crate::plan::obsolete_lists(sources, existing, n - 1),
            n - 1,
            |p: int| is_left_over(sources, existing, p),
        );
    }
}

/// Where no two local playlists have one name and no two on the device one number, a
/// plan keeps the local playlists that the device has as they are, by name and
/// recording by recording, creates those that it does not have, updates all others in
/// place, and deletes the copies after three zeros and a space: all of them, in order,
/// and nothing else. The four lists are at the indexes that are given.
pub proof fn law_playlist_plans_are_complete<'a>(
    sources: &'a Vec<SourcePlaylist>,
    existing: &'a Vec<Playlist>,
    tracks: &Vec<Track>,
    plan: PlaylistPlan<'a>,
) -> (at: (Seq<int>, Seq<int>, Seq<int>, Seq<int>))
    requires
        call_ensures(make_playlist_plan, (sources, existing, tracks), plan),
        named_apart(sources@),
        numbered_apart(existing@),
    ensures
        are_all(
            at.0,
            sources@.len() as int,
            |s: int| is_there(sources@, existing@, tracks@, s),
        ),
        at.0.len() == plan.kept@.len(),
        forall|k: int| 0 <= k < at.0.len() ==> *(#[trigger] plan.kept@[k]) == sources@[at.0[k]],
        are_all(at.1, sources@.len() as int, |s: int| is_not_there(sources@, existing@, s)),
        at.1.len() == plan.created@.len(),
        forall|k: int| 0 <= k < at.1.len() ==> *(#[trigger] plan.created@[k]) == sources@[at.1[k]],
        are_all(
            at.2,
            sources@.len() as int,
            |s: int| is_out_of_date(sources@, existing@, tracks@, s),
        ),
        at.2.len() == plan.updated@.len(),
        forall|k: int|
            0 <= k < at.2.len() ==> *(#[trigger] plan.updated@[k]).source == sources@[at.2[k]],
        forall|k: int, p: int|
            0 <= k < at.2.len() && #[trigger] is_counterpart(sources@, existing@, at.2[k], p)
                ==> (#[trigger] plan.updated@[k]).handle == existing@[p].handle,
        are_all(at.3, existing@.len() as int, |p: int| is_left_over(sources@, existing@, p)),
        at.3.len() == plan.obsolete@.len(),
        forall|k: int|
            0 <= k < at.3.len() ==> *(#[trigger] plan.obsolete@[k]) == existing@[at.3[k]],
{
    let n = sources@.len() as int;
    lemma_lists_are_all(sources@, existing@, tracks@, n);
    lemma_obsolete_are_all(sources@, existing@, existing@.len() as int);
    let updated = crate::plan::updated_lists(sources@, existing@, tracks@, n);
    let at = updated.map_values(|update: (int, crate::database::PlaylistHandle)| update.0);
    assert forall|k: int, p: int|
        0 <= k < at.len() && #[trigger] is_counterpart(sources@, existing@, at[k], p) implies (
    #[trigger] plan.updated@[k]).handle == existing@[p].handle by {
        assert(updated[k].0 == at[k]);
    }
    (
        crate::plan::kept_lists(sources@, existing@, tracks@, n),
        crate::plan::created_lists(sources@, existing@, tracks@, n),
        at,
        crate::plan::obsolete_lists(sources@, existing@, existing@.len() as int),
    )
}

/// Whether these keys give the recording at a path: the last of them for this path does.
pub open spec fn is_recording_at(
    keys: Seq<(Seq<Seq<u8>>, crate::key::Identity)>,
    parts: Seq<Seq<u8>>,
    recording: crate::key::Identity,
) -> bool {
    exists|j: int|
        0 <= j < keys.len() && #[trigger] keys[j] == (parts, recording) && forall|i: int|
            j < i < keys.len() ==> (#[trigger] keys[i]).0 != parts
}

proof fn lemma_recording_at(
    keys: Seq<(Seq<Seq<u8>>, crate::key::Identity)>,
    parts: Seq<Seq<u8>>,
)
    ensures
        match crate::index::key_for(keys, parts) {
            Some(recording) => is_recording_at(keys, parts, recording),
            None => forall|j: int| 0 <= j < keys.len() ==> (#[trigger] keys[j]).0 != parts,
        },
    decreases keys.len(),
{
    if keys.len() > 0 {
        let last = keys.len() - 1;
        let earlier = keys.drop_last();
        lemma_recording_at(earlier, parts);
        if keys[last].0 == parts {
            assert(keys[last] == (parts, keys[last].1));
        } else {
            match crate::index::key_for(keys, parts) {
                Some(recording) => {
                    let j = choose|j: int|
                        0 <= j < earlier.len() && #[trigger] earlier[j] == (parts, recording)
                            && forall|i: int|
                            j < i < earlier.len() ==> (#[trigger] earlier[i]).0 != parts;
                    assert(keys[j] == (parts, recording));
                    assert forall|i: int| j < i < keys.len() implies (#[trigger] keys[i]).0
                        != parts by {
                        if i < last {
                            assert(earlier[i] == keys[i]);
                        }
                    }
                },
                None => {
                    assert forall|j: int| 0 <= j < keys.len() implies (#[trigger] keys[j]).0
                        != parts by {
                        if j < last {
                            assert(earlier[j] == keys[j]);
                        }
                    }
                },
            }
        }
    }
}

/// A playlist that is read comes from its file: it is named after it, without three
/// zeros and a space at the beginning, and lists, entry by entry and in their order, the
/// recordings of the tracks that the entries lead to, all of them. In a playlist that was
/// asked for these are MP3 files.
pub proof fn law_playlists_come_from_their_files(
    files: &Vec<PlaylistFile>,
    keys: &PathKeys,
    read: Result<Vec<SourcePlaylist>, PlaylistError>,
    i: int,
    stem: Option<String>,
    name: &str,
    bare: String,
    bytes: &[u8],
    entries: Result<Vec<M3uEntry>, String>,
)
    requires
        call_ensures(read_source_playlists, (files, keys), read),
        read is Ok,
        0 <= i < files@.len(),
        call_ensures(FilePath::file_stem, (&files@[i].path,), stem),
        stem matches Some(s) ==> name@ == s@,
        call_ensures(strip_sorting_prefix, (name,), bare),
        files@[i].contents matches Ok(contents) ==> bytes@ == contents@,
        call_ensures(m3u_entries, (bytes,), entries),
    ensures
        read matches Ok(playlists) && {
            &&& playlists@.len() == files@.len()
            &&& stem is Some
            &&& playlists@[i].name@ == bare@
            &&& playlists@[i].path.parts() == files@[i].path.parts()
            &&& playlists@[i].path.shown@ == files@[i].path.shown@
            &&& files@[i].contents is Ok
            &&& entries matches Ok(lines) && playlists@[i].tracks@.len() == lines@.len()
            &&& forall|k: int|
                0 <= k < playlists@[i].tracks@.len() ==> {
                    &&& #[trigger] files@[i].targets@[k] matches Ok(target) && is_recording_at(
                        keys@,
                        target.parts(),
                        playlists@[i].tracks@[k]@,
                    )
                    &&& files@[i].selected ==> ends_like_a_track(files@[i].targets@[k]->Ok_0)
                }
        },
{
    let playlists = read->Ok_0;
    let facts = crate::playlist::facts_of(playlists@);
    crate::laws::files::lemma_playlists(files@, files@.len() as int, keys@, facts);
    assert(facts.len() == playlists@.len());
    assert(facts[i] == playlists@[i]@);
    let file = files@[i];
    let listed = crate::m3u::entries_of(file.contents->Ok_0@).unwrap();
    let tracks = facts[i].tracks;
    crate::laws::files::lemma_entry_tracks(file, listed, listed.len() as int, keys@, tracks);
    assert(tracks.len() == playlists@[i].tracks@.len());
    assert(listed == crate::m3u::listed(entries->Ok_0@));
    assert(listed.len() == entries->Ok_0@.len());
    assert forall|k: int| 0 <= k < playlists@[i].tracks@.len() implies {
        &&& #[trigger] files@[i].targets@[k] matches Ok(target) && is_recording_at(
            keys@,
            target.parts(),
            playlists@[i].tracks@[k]@,
        )
        &&& files@[i].selected ==> ends_like_a_track(files@[i].targets@[k]->Ok_0)
    } by {
        assert(tracks[k] == playlists@[i].tracks@[k]@);
        assert(crate::playlist::entry_track(file, listed, k, keys@) == Ok::<
            crate::key::Identity,
            crate::playlist::Fault,
        >(tracks[k]));
        let target = file.targets@[k]->Ok_0;
        lemma_recording_at(keys@, target.parts());
        crate::laws::finding::lemma_kinds(target);
    }
}

/// Whether every entry of a playlist file leads to a track whose recording is known, and
/// to an MP3 file where the playlist was asked for.
pub open spec fn leads_to_tracks(
    file: PlaylistFile,
    keys: Seq<(Seq<Seq<u8>>, crate::key::Identity)>,
) -> bool {
    forall|k: int|
        0 <= k < file.targets@.len() ==> (#[trigger] file.targets@[k] matches Ok(target) && (
        file.selected ==> ends_like_a_track(target)) && exists|j: int|
            0 <= j < keys.len() && (#[trigger] keys[j]).0 == target.parts())
}

/// Whether a playlist file has a name that can be used.
pub open spec fn has_a_name(file: PlaylistFile) -> bool {
    crate::playlist::playlist_name(file.path) matches Some(name) && text::utf16_len(name) <= 255
}

proof fn lemma_all_entries_are_tracks(
    file: PlaylistFile,
    entries: Seq<(nat, Seq<char>)>,
    n: int,
    keys: Seq<(Seq<Seq<u8>>, crate::key::Identity)>,
)
    requires
        0 <= n <= entries.len(),
        entries.len() == file.targets@.len(),
        leads_to_tracks(file, keys),
    ensures
        crate::playlist::entry_tracks(file, entries, n, keys) is Ok,
    decreases n,
{
    if n > 0 {
        lemma_all_entries_are_tracks(file, entries, n - 1, keys);
        let target = file.targets@[n - 1]->Ok_0;
        assert(file.targets@[n - 1] is Ok);
        crate::laws::finding::lemma_kinds(target);
        lemma_recording_at(keys, target.parts());
    }
}

proof fn lemma_no_other_has_the_name(files: Seq<PlaylistFile>, n: int, normal: Seq<char>)
    requires
        0 <= n <= files.len(),
        forall|i: int|
            0 <= i < n && (crate::playlist::playlist_name((#[trigger] files[i]).path) is Some)
                ==> crate::key::normal_name(
                crate::playlist::playlist_name(files[i].path).unwrap(),
            ) != normal,
    ensures
        crate::playlist::first_named(files, n, normal) is None,
    decreases n,
{
    if n > 0 {
        lemma_no_other_has_the_name(files, n - 1, normal);
        assert(files[n - 1] == files[n - 1]);
    }
}

proof fn lemma_all_files_are_playlists(
    files: Seq<PlaylistFile>,
    n: int,
    keys: Seq<(Seq<Seq<u8>>, crate::key::Identity)>,
)
    requires
        0 <= n <= files.len(),
        forall|i: int|
            0 <= i < files.len() ==> {
                &&& has_a_name(#[trigger] files[i])
                &&& crate::playlist::is_resolved(files[i])
                &&& files[i].contents matches Ok(bytes) && vstd::utf8::valid_utf8(
                    crate::laws::reading::after_mark(bytes@),
                )
                &&& leads_to_tracks(files[i], keys)
            },
        forall|i: int, j: int|
            0 <= i < j < files.len() ==> crate::key::normal_name(
                crate::playlist::playlist_name((#[trigger] files[i]).path).unwrap(),
            ) != crate::key::normal_name(
                crate::playlist::playlist_name((#[trigger] files[j]).path).unwrap(),
            ),
    ensures
        crate::playlist::playlists_in(files, n, keys) is Ok,
    decreases n,
{
    if n > 0 {
        let file = files[n - 1];
        lemma_all_files_are_playlists(files, n - 1, keys);
        assert(has_a_name(file));
        let normal = crate::key::normal_name(
            crate::playlist::playlist_name(file.path).unwrap(),
        );
        lemma_no_other_has_the_name(files, n - 1, normal);
        let bytes = file.contents->Ok_0@;
        crate::laws::reading::lemma_after_mark(bytes);
        let entries = crate::m3u::entries_of(bytes).unwrap();
        lemma_all_entries_are_tracks(file, entries, entries.len() as int, keys);
    }
}

/// Playlists are read where nothing is wrong with their files: each has a name that can
/// be used and no other has, is UTF-8, and leads to tracks.
pub proof fn law_good_playlists_are_read(
    files: &Vec<PlaylistFile>,
    keys: &PathKeys,
    read: Result<Vec<SourcePlaylist>, PlaylistError>,
)
    requires
        call_ensures(read_source_playlists, (files, keys), read),
        forall|i: int|
            0 <= i < files@.len() ==> {
                &&& has_a_name(#[trigger] files@[i])
                &&& crate::playlist::is_resolved(files@[i])
                &&& files@[i].contents matches Ok(bytes) && vstd::utf8::valid_utf8(
                    crate::laws::reading::after_mark(bytes@),
                )
                &&& leads_to_tracks(files@[i], keys@)
            },
        forall|i: int, j: int|
            0 <= i < j < files@.len() ==> crate::key::normal_name(
                crate::playlist::playlist_name((#[trigger] files@[i]).path).unwrap(),
            ) != crate::key::normal_name(
                crate::playlist::playlist_name((#[trigger] files@[j]).path).unwrap(),
            ),
    ensures
        read is Ok,
{
    lemma_all_files_are_playlists(files@, files@.len() as int, keys@);
}

/// A playlist file has a usable name where its stem, without three zeros and a space at
/// the beginning, has anything but white space in it and is not too long.
pub proof fn law_names_come_from_stems(
    file: PlaylistFile,
    stem: Option<String>,
    name: &str,
    bare: String,
)
    requires
        call_ensures(FilePath::file_stem, (&file.path,), stem),
        stem matches Some(s) ==> name@ == s@,
        call_ensures(strip_sorting_prefix, (name,), bare),
    ensures
        has_a_name(file) <==> stem is Some && (exists|i: int|
            0 <= i < bare@.len() && !text::is_white(#[trigger] bare@[i])) && text::utf16_len(bare@)
            <= 255,
        has_a_name(file) ==> crate::playlist::playlist_name(file.path) == Some(bare@),
{
    if text::is_blank(bare@) {
    } else {
        let i = choose|i: int| 0 <= i < bare@.len() && !text::is_white(#[trigger] bare@[i]);
        assert(!text::is_white(bare@[i]));
    }
}

proof fn lemma_first_bad_entry(
    file: PlaylistFile,
    entries: Seq<(nat, Seq<char>)>,
    n: int,
    keys: Seq<(Seq<Seq<u8>>, crate::key::Identity)>,
) -> (k: int)
    requires
        0 <= n <= entries.len(),
        crate::playlist::entry_tracks(file, entries, n, keys) is Err,
    ensures
        0 <= k < n,
        crate::playlist::entry_track(file, entries, k, keys) is Err,
        crate::playlist::entry_track(file, entries, k, keys)->Err_0
            == crate::playlist::entry_tracks(file, entries, n, keys)->Err_0,
        forall|j: int|
            0 <= j < k ==> crate::playlist::entry_track(file, entries, j, keys) is Ok,
    decreases n,
{
    if crate::playlist::entry_tracks(file, entries, n - 1, keys) is Err {
        lemma_first_bad_entry(file, entries, n - 1, keys)
    } else {
        let tracks = crate::playlist::entry_tracks(file, entries, n - 1, keys)->Ok_0;
        crate::laws::files::lemma_entry_tracks(file, entries, n - 1, keys, tracks);
        assert forall|j: int| 0 <= j < n - 1 implies crate::playlist::entry_track(
            file,
            entries,
            j,
            keys,
        ) is Ok by {
            assert(crate::playlist::entry_track(file, entries, j, keys) == Ok::<
                crate::key::Identity,
                Fault,
            >(tracks[j]));
        }
        n - 1
    }
}

proof fn lemma_first_bad_file(
    files: Seq<PlaylistFile>,
    n: int,
    keys: Seq<(Seq<Seq<u8>>, crate::key::Identity)>,
) -> (i: int)
    requires
        0 <= n <= files.len(),
        crate::playlist::playlists_in(files, n, keys) is Err,
    ensures
        0 <= i < n,
        crate::playlist::playlist_in(files, i, keys) is Err,
        crate::playlist::playlist_in(files, i, keys)->Err_0 == crate::playlist::playlists_in(
            files,
            n,
            keys,
        )->Err_0,
        crate::playlist::playlists_in(files, i, keys) is Ok,
    decreases n,
{
    if crate::playlist::playlists_in(files, n - 1, keys) is Err {
        lemma_first_bad_file(files, n - 1, keys)
    } else {
        n - 1
    }
}

/// Whether the entry at this index leads to a track as it should.
pub open spec fn is_good_entry(
    file: PlaylistFile,
    k: int,
    keys: Seq<(Seq<Seq<u8>>, crate::key::Identity)>,
) -> bool {
    file.targets@[k] matches Ok(target) && (file.selected ==> ends_like_a_track(target)) && exists|
        j: int,
    |
        0 <= j < keys.len() && (#[trigger] keys[j]).0 == target.parts()
}

/// Whether a fault is what is wrong with the entry at this index: it leads nowhere, to something that
/// is no MP3 file although the playlist was asked for, or to a track that is not known. It says which
/// line of which file it is.
pub open spec fn is_fault_of_entry(
    fault: Fault,
    file: PlaylistFile,
    entries: Seq<M3uEntry>,
    k: int,
    keys: Seq<(Seq<Seq<u8>>, crate::key::Identity)>,
) -> bool {
    match file.targets@[k] {
        Err(why) => fault == (Fault::Missing {
            path: file.path.shown@,
            line: entries[k].line as nat,
            entry: entries[k].text@,
            cause: why@,
        }),
        Ok(target) => if file.selected && !ends_like_a_track(target) {
            fault == (Fault::NotMp3 {
                path: file.path.shown@,
                line: entries[k].line as nat,
                target: target.shown@,
            })
        } else {
            &&& !is_good_entry(file, k, keys)
            &&& fault == (Fault::Outside {
                path: file.path.shown@,
                line: entries[k].line as nat,
                target: target.shown@,
            })
        },
    }
}

/// Playlists that are not read are refused for the first thing that is wrong: with the first file that
/// cannot be used, it is its name, a name that an earlier file has, that it cannot be read or is not
/// UTF-8, or the first entry that does not lead to a track. The index of the file is given, and that of
/// the entry.
pub proof fn law_first_fault_is_told(
    files: &Vec<PlaylistFile>,
    keys: &PathKeys,
    read: Result<Vec<SourcePlaylist>, PlaylistError>,
) -> (at: (int, int))
    requires
        call_ensures(read_source_playlists, (files, keys), read),
        read is Err,
    ensures
        0 <= at.0 < files@.len(),
        forall|i: int| 0 <= i < at.0 ==> has_a_name(#[trigger] files@[i]) && files@[i].contents is Ok,
        ({
            let file = files@[at.0];
            let path = file.path.shown@;
            let name = crate::playlist::playlist_name(file.path);
            match read->Err_0@ {
                Fault::NoName { path: p } => p == path && name is None,
                Fault::LongName { path: p } => p == path && name is Some && text::utf16_len(
                    name->Some_0,
                ) > 255,
                Fault::SameName { first, second } => second == path && name is Some && exists|i: int|
                    0 <= i < at.0 && first == (#[trigger] files@[i]).path.shown@
                        && crate::key::normal_name(
                        crate::playlist::playlist_name(files@[i].path).unwrap(),
                    ) == crate::key::normal_name(name->Some_0),
                Fault::Unreadable { path: p, cause } => p == path && has_a_name(file)
                    && file.contents is Err && cause == file.contents->Err_0@,
                Fault::NotUtf8 { path: p, cause } => p == path && has_a_name(file) && file.contents is Ok
                    && !vstd::utf8::valid_utf8(
                    crate::laws::reading::after_mark(file.contents->Ok_0@),
                ) && cause == text::decoding_fault(
                    crate::laws::reading::after_mark(file.contents->Ok_0@),
                ),
                _ => {
                    &&& has_a_name(file)
                    &&& file.contents is Ok
                    &&& forall|bytes: &[u8], entries: Result<Vec<M3uEntry>, String>|
                        bytes@ == file.contents->Ok_0@ && #[trigger] call_ensures(
                            m3u_entries,
                            (bytes,),
                            entries,
                        ) ==> entries is Ok && 0 <= at.1 < entries->Ok_0@.len() && is_fault_of_entry(
                            read->Err_0@,
                            file,
                            entries->Ok_0@,
                            at.1,
                            keys@,
                        )
                    &&& forall|k: int| 0 <= k < at.1 ==> #[trigger] is_good_entry(file, k, keys@)
                },
            }
        }),
{
    let n = files@.len() as int;
    let fault = read->Err_0@;
    let i = lemma_first_bad_file(files@, n, keys@);
    let file = files@[i];
    let facts = crate::playlist::playlists_in(files@, i, keys@)->Ok_0;
    crate::laws::files::lemma_playlists(files@, i, keys@, facts);
    assert forall|j: int| 0 <= j < i implies has_a_name(#[trigger] files@[j])
        && files@[j].contents is Ok by {
        assert(crate::playlist::playlist_in(files@, j, keys@) == Ok::<
            crate::playlist::PlaylistFacts,
            Fault,
        >(facts[j]));
    }
    let name = crate::playlist::playlist_name(file.path);
    let mut entry: int = 0;
    if name is Some && text::utf16_len(name->Some_0) <= 255 {
        let normal = crate::key::normal_name(name->Some_0);
        lemma_first_named_is(files@, i, normal);
        if crate::playlist::first_named(files@, i, normal) is None && file.contents is Ok {
            let bytes = file.contents->Ok_0@;
            crate::laws::reading::lemma_after_mark(bytes);
            if let Some(entries) = crate::m3u::entries_of(bytes) {
                entry = lemma_first_bad_entry(file, entries, entries.len() as int, keys@);
                let k = entry;
                lemma_entry_fault(file, entries, k, keys@);
                assert forall|slice: &[u8], found: Result<Vec<M3uEntry>, String>|
                    slice@ == file.contents->Ok_0@ && #[trigger] call_ensures(
                        m3u_entries,
                        (slice,),
                        found,
                    ) implies found is Ok && 0 <= k < found->Ok_0@.len() && is_fault_of_entry(
                    fault,
                    file,
                    found->Ok_0@,
                    k,
                    keys@,
                ) by {
                    let lines = found->Ok_0@;
                    assert(entries == crate::m3u::listed(lines));
                    assert(entries[k] == (lines[k].line as nat, lines[k].text@));
                    assert(entries.len() == lines.len());
                }
                assert forall|j: int| 0 <= j < k implies #[trigger] is_good_entry(file, j, keys@) by {
                    lemma_entry_fault(file, entries, j, keys@);
                }
            }
        }
    }
    (i, entry)
}

proof fn lemma_first_named_is(files: Seq<PlaylistFile>, n: int, normal: Seq<char>)
    requires
        0 <= n <= files.len(),
    ensures
        crate::playlist::first_named(files, n, normal) matches Some(i) ==> 0 <= i < n
            && crate::playlist::playlist_name(files[i].path) is Some && crate::key::normal_name(
            crate::playlist::playlist_name(files[i].path).unwrap(),
        ) == normal,
    decreases n,
{
    if n > 0 {
        lemma_first_named_is(files, n - 1, normal);
    }
}

proof fn lemma_entry_fault(
    file: PlaylistFile,
    entries: Seq<(nat, Seq<char>)>,
    k: int,
    keys: Seq<(Seq<Seq<u8>>, crate::key::Identity)>,
)
    ensures
        crate::playlist::entry_track(file, entries, k, keys) is Ok <==> is_good_entry(file, k, keys),
        file.targets@[k] is Ok ==> (file.targets@[k]->Ok_0.has_extension("mp3"@)
            <==> ends_like_a_track(file.targets@[k]->Ok_0)),
{
    if let Ok(target) = file.targets@[k] {
        crate::laws::finding::lemma_kinds(target);
        lemma_recording_at(keys, target.parts());
    }
}

/// What is wrong with a playlist file is told apart by all that is known of it.
pub proof fn law_faults_hold_what_is_known(error: PlaylistError)
    ensures
        match error {
            PlaylistError::NoName { path } => error@ == (Fault::NoName { path: path@ }),
            PlaylistError::LongName { path } => error@ == (Fault::LongName { path: path@ }),
            PlaylistError::SameName { first, second } => error@ == (Fault::SameName {
                first: first@,
                second: second@,
            }),
            PlaylistError::Unreadable { path, cause } => error@ == (Fault::Unreadable {
                path: path@,
                cause: cause@,
            }),
            PlaylistError::NotUtf8 { path, cause } => error@ == (Fault::NotUtf8 {
                path: path@,
                cause: cause@,
            }),
            PlaylistError::Missing { path, line, entry, cause } => error@ == (Fault::Missing {
                path: path@,
                line: line as nat,
                entry: entry@,
                cause: cause@,
            }),
            PlaylistError::NotMp3 { path, line, target } => error@ == (Fault::NotMp3 {
                path: path@,
                line: line as nat,
                target: target@,
            }),
            PlaylistError::Outside { path, line, target } => error@ == (Fault::Outside {
                path: path@,
                line: line as nat,
                target: target@,
            }),
        },
{
}

} // verus!
