//! Which of the files that were found count, and what they amount to.

use vstd::prelude::*;

use crate::index::{KeyIndex, PathIndex, PathKeys};
use crate::key::Identity;
use crate::path::{is_m3u, is_mp3, is_unsupported_audio, sort_paths, FilePath};
use crate::playlist::{read_source_playlists, PlaylistError, PlaylistFile, SourcePlaylist};
use crate::source::{source_key, SourceTrack};

verus! {

/// What a file is to the synchronization.
#[derive(Clone, Copy, Debug, PartialEq, Eq, Structural)]
pub enum FileKind {
    Track,
    Playlist,
    UnsupportedAudio,
    Other,
}

/// What a file is, by its extension.
pub open spec fn kind_of(path: FilePath) -> FileKind {
    if path.has_extension("mp3"@) {
        FileKind::Track
    } else if path.has_extension("m3u"@) || path.has_extension("m3u8"@) {
        FileKind::Playlist
    } else if exists|i: int|
        0 <= i < crate::path::unsupported_extensions().len() && path.has_extension(
            #[trigger] crate::path::unsupported_extensions()[i],
        ) {
        FileKind::UnsupportedAudio
    } else {
        FileKind::Other
    }
}

/// What the file is.
pub fn classify(path: &FilePath) -> (kind: FileKind)
    ensures
        kind == kind_of(*path),
{
    if is_mp3(path) {
        FileKind::Track
    } else if is_m3u(path) {
        FileKind::Playlist
    } else if is_unsupported_audio(path) {
        FileKind::UnsupportedAudio
    } else {
        FileKind::Other
    }
}

/// The indexes below `n` of the files of this kind.
pub open spec fn of_kind(files: Seq<FilePath>, kind: FileKind, n: int) -> Seq<usize>
    decreases n,
{
    if n <= 0 {
        Seq::empty()
    } else if kind_of(files[n - 1]) == kind {
        of_kind(files, kind, n - 1).push((n - 1) as usize)
    } else {
        of_kind(files, kind, n - 1)
    }
}

proof fn lemma_of_kind(files: Seq<FilePath>, kind: FileKind, n: int)
    requires
        0 <= n <= files.len(),
        files.len() <= usize::MAX,
    ensures
        forall|a: int| 0 <= a < of_kind(files, kind, n).len() ==> #[trigger] of_kind(files, kind, n)[a] < n,
        forall|a: int, b: int|
            0 <= a < b < of_kind(files, kind, n).len() ==> #[trigger] of_kind(files, kind, n)[a]
                < #[trigger] of_kind(files, kind, n)[b],
    decreases n,
{
    if n > 0 {
        lemma_of_kind(files, kind, n - 1);
        let all = of_kind(files, kind, n);
        let earlier = of_kind(files, kind, n - 1);
        assert forall|a: int| 0 <= a < all.len() implies #[trigger] all[a] < n by {
            if a < earlier.len() {
                assert(all[a] == earlier[a]);
            }
        }
        assert forall|a: int, b: int| 0 <= a < b < all.len() implies #[trigger] all[a] < #[trigger] all[b] by {
            assert(all[a] == earlier[a]);
            if b < earlier.len() {
                assert(all[b] == earlier[b]);
            }
        }
    }
}

/// The files found in the libraries, sorted out by kind. All are indexes.
#[derive(Debug)]
pub struct FileSelection {
    /// The tracks, sorted by path.
    pub tracks: Vec<usize>,
    /// The playlists, sorted by path.
    pub playlists: Vec<usize>,
    /// The audio files of other kinds, as they were found.
    pub unsupported: Vec<usize>,
}

/// Sorts out the files that were found in the libraries.
pub fn select_files(files: &Vec<FilePath>) -> (selection: FileSelection)
    ensures
        selection.tracks@.len() == of_kind(files@, FileKind::Track, files@.len() as int).len(),
        crate::path::is_sorted_order(
            files@,
            of_kind(files@, FileKind::Track, files@.len() as int),
            selection.tracks@,
        ),
        selection.playlists@.len() == of_kind(files@, FileKind::Playlist, files@.len() as int).len(),
        crate::path::is_sorted_order(
            files@,
            of_kind(files@, FileKind::Playlist, files@.len() as int),
            selection.playlists@,
        ),
        selection.unsupported@ == of_kind(
            files@,
            FileKind::UnsupportedAudio,
            files@.len() as int,
        ),
{
    let mut tracks: Vec<usize> = Vec::new();
    let mut playlists: Vec<usize> = Vec::new();
    let mut unsupported: Vec<usize> = Vec::new();
    let mut i: usize = 0;
    let len: usize = files.len();
    while i < len
        invariant
            len == files@.len(),
            i <= len,
            tracks@ == of_kind(files@, FileKind::Track, i as int),
            playlists@ == of_kind(files@, FileKind::Playlist, i as int),
            unsupported@ == of_kind(files@, FileKind::UnsupportedAudio, i as int),
        decreases len - i,
    {
        match classify(&files[i]) {
            FileKind::Track => tracks.push(i),
            FileKind::Playlist => playlists.push(i),
            FileKind::UnsupportedAudio => unsupported.push(i),
            FileKind::Other => {},
        }
        i += 1;
    }
    proof {
        lemma_of_kind(files@, FileKind::Track, len as int);
        lemma_of_kind(files@, FileKind::Playlist, len as int);
    }
    FileSelection {
        tracks: sort_paths(files, &tracks),
        playlists: sort_paths(files, &playlists),
        unsupported,
    }
}

/// A playlist file that was found among the tracks or asked for.
#[derive(Debug)]
pub struct PlaylistChoice {
    pub path: FilePath,
    pub selected: bool,
}

/// Those of the first `n` files that are playlists, in order.
pub open spec fn playlists_among(files: Seq<FilePath>, n: int) -> Seq<FilePath>
    decreases n,
{
    if n <= 0 {
        Seq::empty()
    } else if files[n - 1].has_extension("m3u"@) || files[n - 1].has_extension("m3u8"@) {
        playlists_among(files, n - 1).push(files[n - 1])
    } else {
        playlists_among(files, n - 1)
    }
}

/// Chooses the playlists among files that were asked for, or found in a directory
/// that was.
pub fn choose_playlists(files: Vec<FilePath>) -> (choices: Vec<PlaylistChoice>)
    ensures
        choice_paths(choices@) == playlists_among(files@, files@.len() as int),
        forall|i: int| 0 <= i < choices@.len() ==> (#[trigger] choices@[i]).selected,
{
    let ghost all = files@;
    let mut choices: Vec<PlaylistChoice> = Vec::new();
    assert(choice_paths(choices@) =~= Seq::empty());
    for path in it: files
        invariant
            it.seq() == all,
            choice_paths(choices@) == playlists_among(all, it.index() as int),
            forall|i: int| 0 <= i < choices@.len() ==> (#[trigger] choices@[i]).selected,
    {
        let ghost before = choice_paths(choices@);
        if is_m3u(&path) {
            choices.push(PlaylistChoice { path, selected: true });
            assert(choice_paths(choices@) =~= before.push(path));
        }
    }
    choices
}

/// The path of each choice.
pub open spec fn choice_paths(choices: Seq<PlaylistChoice>) -> Seq<FilePath> {
    choices.map_values(|choice: PlaylistChoice| choice.path)
}

/// Whether the file of choice `i` was asked for too, by one of the first `n`.
pub open spec fn asked_before(choices: Seq<PlaylistChoice>, i: int, n: int) -> bool {
    exists|j: int|
        0 <= j < n && (#[trigger] choices[j]).selected && choices[j].path.parts()
            == choices[i].path.parts()
}

/// Whether choice `i` counts. A file that was asked for counts once, and not as
/// one that was just found.
pub open spec fn counts(choices: Seq<PlaylistChoice>, i: int) -> bool {
    !asked_before(
        choices,
        i,
        if choices[i].selected {
            i
        } else {
            choices.len() as int
        },
    )
}

/// The choices below `n` that count.
pub open spec fn counting(choices: Seq<PlaylistChoice>, n: int) -> Seq<usize>
    decreases n,
{
    if n <= 0 {
        Seq::empty()
    } else if counts(choices, n - 1) {
        counting(choices, n - 1).push((n - 1) as usize)
    } else {
        counting(choices, n - 1)
    }
}

proof fn lemma_counting(choices: Seq<PlaylistChoice>, n: int)
    requires
        0 <= n <= choices.len(),
        choices.len() <= usize::MAX,
    ensures
        forall|a: int| 0 <= a < counting(choices, n).len() ==> #[trigger] counting(choices, n)[a] < n,
        forall|a: int, b: int|
            0 <= a < b < counting(choices, n).len() ==> #[trigger] counting(choices, n)[a]
                < #[trigger] counting(choices, n)[b],
    decreases n,
{
    if n > 0 {
        lemma_counting(choices, n - 1);
        let all = counting(choices, n);
        let earlier = counting(choices, n - 1);
        assert forall|a: int| 0 <= a < all.len() implies #[trigger] all[a] < n by {
            if a < earlier.len() {
                assert(all[a] == earlier[a]);
            }
        }
        assert forall|a: int, b: int| 0 <= a < b < all.len() implies #[trigger] all[a] < #[trigger] all[b] by {
            assert(all[a] == earlier[a]);
            if b < earlier.len() {
                assert(all[b] == earlier[b]);
            }
        }
    }
}

/// The playlist files that count, sorted by path. They are given by index.
pub fn order_playlists(choices: &Vec<PlaylistChoice>) -> (order: Vec<usize>)
    ensures
        order@.len() == counting(choices@, choices@.len() as int).len(),
        crate::path::is_sorted_order(
            choice_paths(choices@),
            counting(choices@, choices@.len() as int),
            order@,
        ),
{
    let len: usize = choices.len();
    let mut paths: Vec<FilePath> = Vec::new();
    let mut chosen: Vec<usize> = Vec::new();
    let mut i: usize = 0;
    while i < len
        invariant
            len == choices@.len(),
            i <= len,
            paths@.len() == i,
            forall|k: int| 0 <= k < i ==> (#[trigger] paths@[k]).parts() == choices@[k].path.parts(),
            chosen@ == counting(choices@, i as int),
        decreases len - i,
    {
        let end: usize = if choices[i].selected {
            i
        } else {
            len
        };
        let mut asked: bool = false;
        let mut j: usize = 0;
        while j < end
            invariant
                len == choices@.len(),
                i < len,
                j <= end <= len,
                asked == asked_before(choices@, i as int, j as int),
            decreases end - j,
        {
            if choices[j].selected && choices[j].path.same_file(&choices[i].path) {
                asked = true;
            }
            j += 1;
        }
        if !asked {
            chosen.push(i);
        }
        paths.push(choices[i].path.clone());
        i += 1;
    }
    proof {
        lemma_counting(choices@, len as int);
    }
    let order = sort_paths(&paths, &chosen);
    proof {
        assert forall|a: int, b: int| 0 <= a < b < order@.len() implies crate::path::sorts_before(
            choice_paths(choices@),
            #[trigger] order@[a] as int,
            #[trigger] order@[b] as int,
        ) by {
            assert(order@.contains(order@[a]));
            assert(order@.contains(order@[b]));
            assert(chosen@.contains(order@[a]) && chosen@.contains(order@[b]));
            assert(paths@[order@[a] as int].parts() == choices@[order@[a] as int].path.parts());
            assert(paths@[order@[b] as int].parts() == choices@[order@[b] as int].path.parts());
        }
    }
    order
}

/// The paths taken apart.
pub open spec fn parts_of(paths: Seq<FilePath>) -> Seq<Seq<Seq<u8>>> {
    paths.map_values(|path: FilePath| path.parts())
}

/// The paths and the target of an entry, where it is an MP3 that is not among
/// them.
pub open spec fn with_target(
    paths: Seq<Seq<Seq<u8>>>,
    target: Result<FilePath, String>,
) -> Seq<Seq<Seq<u8>>> {
    match target {
        Ok(path) => if path.has_extension("mp3"@) && !paths.contains(path.parts()) {
            paths.push(path.parts())
        } else {
            paths
        },
        Err(_) => paths,
    }
}

/// The paths and the first `n` targets.
pub open spec fn with_targets(
    paths: Seq<Seq<Seq<u8>>>,
    targets: Seq<Result<FilePath, String>>,
    n: int,
) -> Seq<Seq<Seq<u8>>>
    decreases n,
{
    if n <= 0 {
        paths
    } else {
        with_target(with_targets(paths, targets, n - 1), targets[n - 1])
    }
}

/// The paths and the targets of those of the first `n` playlists that were asked
/// for.
pub open spec fn with_playlists(
    paths: Seq<Seq<Seq<u8>>>,
    files: Seq<PlaylistFile>,
    n: int,
) -> Seq<Seq<Seq<u8>>>
    decreases n,
{
    if n <= 0 {
        paths
    } else if files[n - 1].selected {
        with_targets(
            with_playlists(paths, files, n - 1),
            files[n - 1].targets@,
            files[n - 1].targets@.len() as int,
        )
    } else {
        with_playlists(paths, files, n - 1)
    }
}

/// The tracks that are to be on the device.
#[derive(Debug)]
pub struct WantedTracks {
    pub paths: Vec<FilePath>,
    /// The indexes of the paths, sorted by path.
    pub order: Vec<usize>,
}

/// All indexes below `n`.
pub open spec fn indexes_below(n: nat) -> Seq<usize> {
    Seq::new(n, |i: int| i as usize)
}

/// Whether two paths name the same file and are shown alike.
pub open spec fn is_same(a: FilePath, b: FilePath) -> bool {
    a.parts() == b.parts() && a.shown == b.shown
}

/// Whether a path was given: it is one of the library's, or what an entry leads
/// to.
pub open spec fn is_given(
    library: Seq<FilePath>,
    files: Seq<PlaylistFile>,
    path: FilePath,
) -> bool {
    ||| exists|i: int| 0 <= i < library.len() && is_same(#[trigger] library[i], path)
    ||| exists|i: int, k: int|
        0 <= i < files.len() && 0 <= k < files[i].targets@.len() && leads_to(
            #[trigger] files[i].targets@[k],
            path,
        )
}

/// Whether an entry leads to this path.
pub open spec fn leads_to(target: Result<FilePath, String>, path: FilePath) -> bool {
    target matches Ok(found) && is_same(found, path)
}

/// The tracks of the libraries, and those that the playlists that were asked for
/// name besides.
pub fn wanted_tracks(library: &Vec<FilePath>, playlists: &Vec<PlaylistFile>) -> (wanted:
    WantedTracks)
    ensures
        parts_of(wanted.paths@) == with_playlists(
            parts_of(library@),
            playlists@,
            playlists@.len() as int,
        ),
        forall|i: int|
            0 <= i < wanted.paths@.len() ==> is_given(
                library@,
                playlists@,
                #[trigger] wanted.paths@[i],
            ),
        wanted.order@.len() == wanted.paths@.len(),
        crate::path::is_sorted_order(
            wanted.paths@,
            indexes_below(wanted.paths@.len()),
            wanted.order@,
        ),
{
    let ghost base = parts_of(library@);
    let mut index = PathIndex::new();
    let mut i: usize = 0;
    while i < library.len()
        invariant
            i <= library@.len(),
            base == parts_of(library@),
            index.wf(),
            index@ == base.take(i as int),
            forall|j: int|
                0 <= j < index.list().len() ==> is_given(
                    library@,
                    playlists@,
                    #[trigger] index.list()[j],
                ),
        decreases library@.len() - i,
    {
        let path = library[i].clone();
        assert(is_same(library@[i as int], path));
        index.insert(path);
        i += 1;
        assert(index@ =~= base.take(i as int));
    }
    assert(base.take(i as int) =~= base);
    let mut n: usize = 0;
    while n < playlists.len()
        invariant
            n <= playlists@.len(),
            index.wf(),
            index@ == with_playlists(base, playlists@, n as int),
            forall|j: int|
                0 <= j < index.list().len() ==> is_given(
                    library@,
                    playlists@,
                    #[trigger] index.list()[j],
                ),
        decreases playlists@.len() - n,
    {
        let file = &playlists[n];
        if file.selected {
            let ghost start = index@;
            let mut k: usize = 0;
            while k < file.targets.len()
                invariant
                    n < playlists@.len(),
                    *file == playlists@[n as int],
                    k <= file.targets@.len(),
                    index.wf(),
                    index@ == with_targets(start, file.targets@, k as int),
                    forall|j: int|
                        0 <= j < index.list().len() ==> is_given(
                            library@,
                            playlists@,
                            #[trigger] index.list()[j],
                        ),
                decreases file.targets@.len() - k,
            {
                if let Ok(target) = &file.targets[k] {
                    if is_mp3(target) && index.find_last(target).is_none() {
                        let path = target.clone();
                        assert(leads_to(playlists@[n as int].targets@[k as int], path));
                        index.insert(path);
                    }
                }
                k += 1;
            }
        }
        n += 1;
    }
    proof {
        crate::index::lemma_list_parts(index);
    }
    let paths = index.into_paths();
    assert(parts_of(paths@) =~= with_playlists(base, playlists@, playlists@.len() as int));
    let mut all: Vec<usize> = Vec::new();
    let mut i: usize = 0;
    while i < paths.len()
        invariant
            i <= paths@.len(),
            all@ == indexes_below(i as nat),
        decreases paths@.len() - i,
    {
        all.push(i);
        i += 1;
        assert(all@ =~= indexes_below(i as nat));
    }
    let order = sort_paths(&paths, &all);
    WantedTracks { paths, order }
}

/// The indexes below `n` of the tracks whose recording has not come before.
pub open spec fn firsts(identities: Seq<Identity>, n: int) -> Seq<int>
    decreases n,
{
    if n <= 0 {
        Seq::empty()
    } else if identities.take(n - 1).contains(identities[n - 1]) {
        firsts(identities, n - 1)
    } else {
        firsts(identities, n - 1).push(n - 1)
    }
}

/// The tracks at these indexes.
pub open spec fn tracks_at(
    found: Seq<SourceTrack>,
    all: Seq<SourceTrack>,
    indexes: Seq<int>,
) -> bool {
    &&& found.len() == indexes.len()
    &&& forall|k: int| 0 <= k < found.len() ==> #[trigger] found[k] == all[indexes[k]]
}

/// The path of each track with its identity.
pub open spec fn keyed_paths(tracks: Seq<SourceTrack>) -> Seq<(Seq<Seq<u8>>, Identity)> {
    tracks.map_values(
        |track: SourceTrack| (track.path.parts(), crate::source::source_identity(track)),
    )
}

/// The local tracks without repetitions, and the local playlists.
#[derive(Debug)]
pub struct Sources {
    pub tracks: Vec<SourceTrack>,
    pub playlists: Vec<SourcePlaylist>,
    /// How many tracks were left out because their recording had come before.
    pub duplicates: usize,
}

/// Puts together the local tracks, in the order in which they were read, and
/// the local playlists.
pub fn scan_sources(tracks: Vec<SourceTrack>, files: &Vec<PlaylistFile>) -> (scanned: Result<
    Sources,
    PlaylistError,
>)
    requires
        forall|i: int| 0 <= i < files@.len() ==> crate::playlist::is_resolved(#[trigger] files@[i]),
    ensures
        match crate::playlist::playlists_in(files@, files@.len() as int, keyed_paths(tracks@)) {
            Err(fault) => scanned matches Err(e) && e@ == fault,
            Ok(playlists) => scanned matches Ok(sources) && {
                &&& crate::playlist::facts_of(sources.playlists@) == playlists
                &&& tracks_at(
                    sources.tracks@,
                    tracks@,
                    firsts(crate::plan::source_identities(tracks@), tracks@.len() as int),
                )
                &&& sources.duplicates == tracks@.len() - sources.tracks@.len()
            },
        },
{
    let ghost all = tracks@;
    let ghost ids = crate::plan::source_identities(tracks@);
    let ghost keyed = keyed_paths(tracks@);
    let len: usize = tracks.len();
    let mut keys_by_path = PathKeys::new();
    let mut seen = KeyIndex::new();
    let mut kept: Vec<SourceTrack> = Vec::new();
    let mut duplicates: usize = 0;
    for track in it: tracks
        invariant
            it.seq() == all,
            len == all.len(),
            ids == crate::plan::source_identities(all),
            keyed == keyed_paths(all),
            keys_by_path.wf(),
            keys_by_path@ == keyed.take(it.index() as int),
            seen.wf(),
            seen@ == ids.take(it.index() as int),
            tracks_at(kept@, all, firsts(ids, it.index() as int)),
            duplicates == it.index() - kept@.len(),
    {
        let ghost n = it.index() as int;
        let key = source_key(&track);
        assert(key@ == ids[n]);
        proof {
            crate::index::lemma_last_of(seen@, key@);
            if let Some(i) = crate::index::last_of(seen@, key@) {
                assert(seen@[i] == key@);
                assert(seen@.contains(key@));
            }
        }
        let repeated = seen.find_last(&key).is_some();
        keys_by_path.insert(track.path.clone(), key.clone());
        seen.add_key(key);
        assert(keys_by_path@ =~= keyed.take(n + 1));
        assert(seen@ =~= ids.take(n + 1));
        if repeated {
            duplicates += 1;
        } else {
            kept.push(track);
        }
    }
    assert(keyed.take(len as int) =~= keyed);
    match read_source_playlists(files, &keys_by_path) {
        Ok(playlists) => Ok(Sources { tracks: kept, playlists, duplicates }),
        Err(e) => Err(e),
    }
}

} // verus!
