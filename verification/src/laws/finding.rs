//! Which of the files that were found count, and in what order.

use vstd::prelude::*;

use crate::index::PathKeys;
use crate::laws::matching::{are_all, lemma_are_all_next, same_letter};
use crate::path::{is_m3u, is_mp3, is_unsupported_audio, FilePath};
use crate::scan::{
    choose_playlists, classify, order_playlists, scan_sources, select_files, wanted_tracks,
    FileKind, FileSelection, PlaylistChoice, Sources, WantedTracks,
};
use crate::m3u::{m3u_entries, M3uEntry};
use crate::playlist::{
    entry_paths, read_source_playlists, PlaylistError, PlaylistFile, SourcePlaylist,
};
use crate::source::{read_external_artwork, SourceTrack};
use crate::text;

verus! {

/// Whether a file's name ends in a dot and this extension, with something before the
/// dot, whatever the capital and small letters.
pub open spec fn ends_in(path: FilePath, extension: Seq<char>) -> bool {
    let name = path.components@.last()@;
    let start = name.len() - extension.len();
    &&& path.components@.len() > 0
    &&& start > 1
    &&& name[start - 1] == 46
    &&& forall|i: int|
        0 <= i < extension.len() ==> same_letter(#[trigger] name[start + i] as char, extension[i])
}

/// Whether an extension is written in small letters and digits.
spec fn is_plain(extension: Seq<char>) -> bool {
    &&& extension.len() > 0
    &&& forall|i: int|
        0 <= i < extension.len() ==> ('a' <= #[trigger] extension[i] && extension[i] <= 'z') || (
        '0' <= extension[i] && extension[i] <= '9')
}

proof fn lemma_last_dot(name: Seq<u8>)
    ensures
        -1 <= crate::path::last_dot(name) < name.len(),
        crate::path::last_dot(name) >= 0 ==> name[crate::path::last_dot(name)] == 46,
        forall|i: int| crate::path::last_dot(name) < i < name.len() ==> #[trigger] name[i] != 46,
    decreases name.len(),
{
    if name.len() > 0 && name.last() != 46 {
        let rest = name.drop_last();
        lemma_last_dot(rest);
        assert forall|i: int| crate::path::last_dot(name) < i < name.len() implies #[trigger] name[i]
            != 46 by {
            if i < rest.len() {
                assert(rest[i] == name[i]);
            }
        }
    }
}

proof fn lemma_same_byte(b: u8, c: char)
    requires
        ('a' <= c && c <= 'z') || ('0' <= c && c <= '9'),
    ensures
        same_letter(b as char, c) <==> text::ascii_lower(b as char) == c,
        same_letter(b as char, c) ==> b != 46,
{
    crate::laws::matching::lemma_same_letter(b as char, c);
    assert(text::ascii_lower(c) == c);
}

proof fn lemma_ends_in(path: FilePath, wanted: Seq<char>)
    requires
        is_plain(wanted),
    ensures
        path.has_extension(wanted) <==> ends_in(path, wanted),
{
    if path.components@.len() > 0 {
        let name = path.components@.last()@;
        assert(path.parts().last() == name);
        lemma_last_dot(name);
        let dot = crate::path::last_dot(name);
        let start = name.len() - wanted.len();
        if path.has_extension(wanted) {
            let extension = name.skip(dot + 1);
            assert(dot + 1 == start);
            assert forall|i: int| 0 <= i < wanted.len() implies same_letter(
                #[trigger] name[start + i] as char,
                wanted[i],
            ) by {
                assert(extension[i] == name[start + i]);
                lemma_same_byte(extension[i], wanted[i]);
            }
        }
        if ends_in(path, wanted) {
            assert forall|i: int| start <= i < name.len() implies #[trigger] name[i] != 46 by {
                assert(same_letter(name[start + (i - start)] as char, wanted[i - start]));
                lemma_same_byte(name[i], wanted[i - start]);
            }
            assert(dot == start - 1) by {
                if dot < start - 1 {
                    assert(name[start - 1] != 46);
                }
                if dot > start - 1 {
                    assert(name[dot] != 46);
                }
            }
            let extension = name.skip(dot + 1);
            assert forall|i: int| 0 <= i < wanted.len() implies text::ascii_lower(
                #[trigger] extension[i] as char,
            ) == wanted[i] by {
                assert(extension[i] == name[start + i]);
                assert(same_letter(name[start + i] as char, wanted[i]));
                lemma_same_byte(extension[i], wanted[i]);
            }
            assert(name.len() > 2);
            assert(!crate::path::is_special(name)) by {
                assert(seq![47u8].len() == 1 && seq![46u8].len() == 1 && seq![46u8, 46u8].len()
                    == 2);
            }
            assert(crate::path::same_extension(extension, wanted));
        }
    } else {
        assert(path.parts().len() == 0);
    }
}

/// The extensions of other audio files.
pub open spec fn other_audio() -> Seq<Seq<char>> {
    seq![
        seq!['a', 'a', 'c'],
        seq!['a', 'i', 'f'],
        seq!['a', 'i', 'f', 'f'],
        seq!['a', 'l', 'a', 'c'],
        seq!['f', 'l', 'a', 'c'],
        seq!['m', '4', 'a'],
        seq!['o', 'g', 'g'],
        seq!['o', 'p', 'u', 's'],
        seq!['w', 'a', 'v'],
        seq!['w', 'm', 'a'],
    ]
}

/// Whether a file's name ends like a track's.
pub open spec fn ends_like_a_track(path: FilePath) -> bool {
    ends_in(path, seq!['m', 'p', '3'])
}

/// Whether a file's name ends like a playlist's.
pub open spec fn ends_like_a_playlist(path: FilePath) -> bool {
    ends_in(path, seq!['m', '3', 'u']) || ends_in(path, seq!['m', '3', 'u', '8'])
}

/// Whether a file's name ends like that of another audio file.
pub open spec fn ends_like_other_audio(path: FilePath) -> bool {
    exists|i: int| 0 <= i < other_audio().len() && ends_in(path, #[trigger] other_audio()[i])
}

proof fn lemma_literals()
    ensures
        "mp3"@ == seq!['m', 'p', '3'],
        "m3u"@ == seq!['m', '3', 'u'],
        "m3u8"@ == seq!['m', '3', 'u', '8'],
        is_plain("mp3"@),
        is_plain("m3u"@),
        is_plain("m3u8"@),
        crate::path::unsupported_extensions() == other_audio(),
        forall|i: int| 0 <= i < other_audio().len() ==> is_plain(#[trigger] other_audio()[i]),
{
    reveal_strlit("mp3");
    reveal_strlit("m3u");
    reveal_strlit("m3u8");
    reveal_strlit("aac");
    reveal_strlit("aif");
    reveal_strlit("aiff");
    reveal_strlit("alac");
    reveal_strlit("flac");
    reveal_strlit("m4a");
    reveal_strlit("ogg");
    reveal_strlit("opus");
    reveal_strlit("wav");
    reveal_strlit("wma");
    assert("mp3"@ =~= seq!['m', 'p', '3']);
    assert("m3u"@ =~= seq!['m', '3', 'u']);
    assert("m3u8"@ =~= seq!['m', '3', 'u', '8']);
    let all = crate::path::unsupported_extensions();
    let own = other_audio();
    assert(all[0] =~= own[0] && all[1] =~= own[1] && all[2] =~= own[2] && all[3] =~= own[3]
        && all[4] =~= own[4] && all[5] =~= own[5] && all[6] =~= own[6] && all[7] =~= own[7]
        && all[8] =~= own[8] && all[9] =~= own[9]);
    assert(all =~= own);
}

pub(crate) proof fn lemma_kinds(path: FilePath)
    ensures
        path.has_extension("mp3"@) <==> ends_like_a_track(path),
        path.has_extension("m3u"@) || path.has_extension("m3u8"@) <==> ends_like_a_playlist(path),
        (exists|i: int|
            0 <= i < crate::path::unsupported_extensions().len() && path.has_extension(
                #[trigger] crate::path::unsupported_extensions()[i],
            )) <==> ends_like_other_audio(path),
{
    lemma_literals();
    lemma_ends_in(path, "mp3"@);
    lemma_ends_in(path, "m3u"@);
    lemma_ends_in(path, "m3u8"@);
    assert forall|i: int| 0 <= i < other_audio().len() implies (path.has_extension(
        #[trigger] other_audio()[i],
    ) <==> ends_in(path, other_audio()[i])) by {
        lemma_ends_in(path, other_audio()[i]);
    }
}

/// Files are told apart by what their names end in, whatever the capital and small
/// letters: tracks, playlists, other audio files, and the rest.
pub proof fn law_files_are_told_by_their_names(
    path: &FilePath,
    track: bool,
    playlist: bool,
    other: bool,
    kind: FileKind,
)
    requires
        call_ensures(is_mp3, (path,), track),
        call_ensures(is_m3u, (path,), playlist),
        call_ensures(is_unsupported_audio, (path,), other),
        call_ensures(classify, (path,), kind),
    ensures
        track == ends_like_a_track(*path),
        playlist == ends_like_a_playlist(*path),
        other == ends_like_other_audio(*path),
        kind == if track {
            FileKind::Track
        } else if playlist {
            FileKind::Playlist
        } else if other {
            FileKind::UnsupportedAudio
        } else {
            FileKind::Other
        },
{
    lemma_kinds(*path);
}

/// Whether two byte strings first differ here, and the one comes first: it ends here, or
/// has the smaller byte.
pub open spec fn bytes_first_at(a: Seq<u8>, b: Seq<u8>, k: int) -> bool {
    &&& 0 <= k <= a.len() && k < b.len()
    &&& forall|i: int| 0 <= i < k ==> #[trigger] a[i] == b[i]
    &&& k < a.len() ==> a[k] < b[k]
}

/// Whether a byte string comes before another: it is the beginning of it, or smaller
/// in the first byte that differs.
pub open spec fn bytes_first(a: Seq<u8>, b: Seq<u8>) -> bool {
    exists|k: int| #[trigger] bytes_first_at(a, b, k)
}

/// Whether two paths first differ here, and the one comes first: it ends here, or has
/// the component that comes first.
pub open spec fn parts_first_at(a: Seq<Seq<u8>>, b: Seq<Seq<u8>>, k: int) -> bool {
    &&& 0 <= k <= a.len() && k < b.len()
    &&& forall|i: int| 0 <= i < k ==> #[trigger] a[i] == b[i]
    &&& k < a.len() ==> a[k] != b[k] && bytes_first(a[k], b[k])
}

/// Whether a path comes before another: it is the beginning of it, or comes before it
/// in the first component that differs.
pub open spec fn parts_first(a: Seq<Seq<u8>>, b: Seq<Seq<u8>>) -> bool {
    exists|k: int| #[trigger] parts_first_at(a, b, k)
}

proof fn lemma_bytes_first(a: Seq<u8>, b: Seq<u8>)
    ensures
        crate::path::bytes_before(a, b) <==> bytes_first(a, b),
    decreases a.len(),
{
    if a.len() > 0 && b.len() > 0 && a[0] == b[0] {
        lemma_bytes_first(a.drop_first(), b.drop_first());
        if bytes_first(a.drop_first(), b.drop_first()) {
            let k = choose|k: int| #[trigger]
                bytes_first_at(a.drop_first(), b.drop_first(), k);
            assert forall|i: int| 0 <= i < k + 1 implies #[trigger] a[i] == b[i] by {
                if i > 0 {
                    assert(a.drop_first()[i - 1] == b.drop_first()[i - 1]);
                }
            }
            assert(bytes_first_at(a, b, k + 1));
        }
        if bytes_first(a, b) {
            let k = choose|k: int| #[trigger] bytes_first_at(a, b, k);
            assert(k > 0);
            assert forall|i: int| 0 <= i < k - 1 implies #[trigger] a.drop_first()[i]
                == b.drop_first()[i] by {
                assert(a[i + 1] == b[i + 1]);
            }
            assert(bytes_first_at(a.drop_first(), b.drop_first(), k - 1));
        }
    } else if b.len() > 0 {
        if crate::path::bytes_before(a, b) {
            assert(bytes_first_at(a, b, 0));
        }
        if bytes_first(a, b) {
            let k = choose|k: int| #[trigger] bytes_first_at(a, b, k);
            if k > 0 {
                assert(a[0] == b[0]);
            }
        }
    }
}

proof fn lemma_parts_first(a: Seq<Seq<u8>>, b: Seq<Seq<u8>>)
    ensures
        crate::path::parts_before(a, b) <==> parts_first(a, b),
    decreases a.len(),
{
    if a.len() > 0 && b.len() > 0 {
        lemma_bytes_first(a[0], b[0]);
    }
    if a.len() > 0 && b.len() > 0 && a[0] == b[0] {
        lemma_parts_first(a.drop_first(), b.drop_first());
        if parts_first(a.drop_first(), b.drop_first()) {
            let k = choose|k: int| #[trigger]
                parts_first_at(a.drop_first(), b.drop_first(), k);
            assert forall|i: int| 0 <= i < k + 1 implies #[trigger] a[i] == b[i] by {
                if i > 0 {
                    assert(a.drop_first()[i - 1] == b.drop_first()[i - 1]);
                }
            }
            assert(parts_first_at(a, b, k + 1));
        }
        if parts_first(a, b) {
            let k = choose|k: int| #[trigger] parts_first_at(a, b, k);
            assert(k > 0);
            assert forall|i: int| 0 <= i < k - 1 implies #[trigger] a.drop_first()[i]
                == b.drop_first()[i] by {
                assert(a[i + 1] == b[i + 1]);
            }
            assert(parts_first_at(a.drop_first(), b.drop_first(), k - 1));
        }
    } else if b.len() > 0 {
        if crate::path::parts_before(a, b) {
            assert(parts_first_at(a, b, 0));
        }
        if parts_first(a, b) {
            let k = choose|k: int| #[trigger] parts_first_at(a, b, k);
            if k > 0 {
                assert(a[0] == b[0]);
            }
        }
    }
}

/// Paths are ordered component by component, and components byte by byte.
pub proof fn law_paths_are_ordered_by_component(
    one: &FilePath,
    other: &FilePath,
    less: bool,
    same: bool,
)
    requires
        call_ensures(FilePath::before, (one, other), less),
        call_ensures(FilePath::same_file, (one, other), same),
    ensures
        less == parts_first(one.parts(), other.parts()),
        same == (one.parts() == other.parts()),
{
    lemma_parts_first(one.parts(), other.parts());
}

/// Whether these are, sorted by path, all indexes below `n` for which something holds,
/// those of one path in their order.
pub open spec fn are_all_sorted(
    paths: Seq<FilePath>,
    order: Seq<usize>,
    holds: spec_fn(int) -> bool,
) -> bool {
    &&& forall|k: int|
        0 <= k < order.len() ==> (#[trigger] order[k]) < paths.len() && holds(order[k] as int)
    &&& forall|i: int| 0 <= i < paths.len() && #[trigger] holds(i) ==> order.contains(i as usize)
    &&& forall|a: int, b: int|
        0 <= a < b < order.len() ==> parts_first(
            paths[(#[trigger] order[a]) as int].parts(),
            paths[(#[trigger] order[b]) as int].parts(),
        ) || (paths[order[a] as int].parts() == paths[order[b] as int].parts() && order[a]
            < order[b])
}

proof fn lemma_sorted(
    paths: Seq<FilePath>,
    chosen: Seq<usize>,
    order: Seq<usize>,
    holds: spec_fn(int) -> bool,
)
    requires
        crate::path::is_sorted_order(paths, chosen, order),
        are_all(
            Seq::new(chosen.len(), |k: int| chosen[k] as int),
            paths.len() as int,
            holds,
        ),
        paths.len() <= usize::MAX,
    ensures
        are_all_sorted(paths, order, holds),
{
    let at = Seq::new(chosen.len(), |k: int| chosen[k] as int);
    assert forall|k: int| 0 <= k < order.len() implies (#[trigger] order[k]) < paths.len() && holds(
        order[k] as int,
    ) by {
        assert(order.contains(order[k]));
        assert(chosen.contains(order[k]));
        let j = choose|j: int| 0 <= j < chosen.len() && chosen[j] == order[k];
        assert(at[j] == order[k]);
    }
    assert forall|i: int| 0 <= i < paths.len() && #[trigger] holds(i) implies order.contains(
        i as usize,
    ) by {
        assert(at.contains(i));
        let j = choose|j: int| 0 <= j < at.len() && at[j] == i;
        assert(chosen[j] == i as usize);
        assert(chosen.contains(i as usize));
    }
    assert forall|a: int, b: int| 0 <= a < b < order.len() implies parts_first(
        paths[(#[trigger] order[a]) as int].parts(),
        paths[(#[trigger] order[b]) as int].parts(),
    ) || (paths[order[a] as int].parts() == paths[order[b] as int].parts() && order[a]
        < order[b]) by {
        assert(crate::path::sorts_before(paths, order[a] as int, order[b] as int));
        lemma_parts_first(paths[order[a] as int].parts(), paths[order[b] as int].parts());
    }
}

proof fn lemma_of_kind_are_all(files: Seq<FilePath>, kind: FileKind, n: int)
    requires
        0 <= n <= files.len() <= usize::MAX,
    ensures
        are_all(
            Seq::new(
                crate::scan::of_kind(files, kind, n).len(),
                |k: int| crate::scan::of_kind(files, kind, n)[k] as int,
            ),
            n,
            |i: int| crate::scan::kind_of(files[i]) == kind,
        ),
    decreases n,
{
    let found = crate::scan::of_kind(files, kind, n);
    let at = Seq::new(found.len(), |k: int| found[k] as int);
    if n > 0 {
        lemma_of_kind_are_all(files, kind, n - 1);
        let earlier = crate::scan::of_kind(files, kind, n - 1);
        let before = Seq::new(earlier.len(), |k: int| earlier[k] as int);
        lemma_are_all_next(before, n - 1, |i: int| crate::scan::kind_of(files[i]) == kind);
        if crate::scan::kind_of(files[n - 1]) == kind {
            assert(at =~= before.push(n - 1));
        } else {
            assert(at =~= before);
        }
    }
}

proof fn lemma_kind_of(path: FilePath)
    ensures
        crate::scan::kind_of(path) == FileKind::Track <==> ends_like_a_track(path),
        crate::scan::kind_of(path) == FileKind::Playlist <==> !ends_like_a_track(path)
            && ends_like_a_playlist(path),
        crate::scan::kind_of(path) == FileKind::UnsupportedAudio <==> !ends_like_a_track(path)
            && !ends_like_a_playlist(path) && ends_like_other_audio(path),
{
    lemma_kinds(path);
}

/// Where something holds exactly where something else does, it is the same to speak of
/// all indexes of the one or of the other.
proof fn lemma_are_all_same(
    at: Seq<int>,
    n: int,
    holds: spec_fn(int) -> bool,
    other: spec_fn(int) -> bool,
)
    requires
        are_all(at, n, holds),
        forall|i: int| 0 <= i < n ==> #[trigger] holds(i) == other(i),
    ensures
        are_all(at, n, other),
{
    assert forall|k: int| 0 <= k < at.len() implies 0 <= #[trigger] at[k] < n && other(at[k]) by {
        assert(holds(at[k]));
    }
    assert forall|i: int| 0 <= i < n && #[trigger] other(i) implies at.contains(i) by {
        assert(holds(i));
    }
}

/// Of the files in the libraries all tracks and all playlists count, sorted by path, and
/// the other audio files are all named, as they were found.
pub proof fn law_all_files_are_selected(files: &Vec<FilePath>, selection: FileSelection)
    requires
        call_ensures(select_files, (files,), selection),
        files@.len() <= usize::MAX,
    ensures
        are_all_sorted(files@, selection.tracks@, |i: int| ends_like_a_track(files@[i])),
        are_all_sorted(
            files@,
            selection.playlists@,
            |i: int| !ends_like_a_track(files@[i]) && ends_like_a_playlist(files@[i]),
        ),
        are_all(
            Seq::new(
                selection.unsupported@.len(),
                |k: int| selection.unsupported@[k] as int,
            ),
            files@.len() as int,
            |i: int|
                !ends_like_a_track(files@[i]) && !ends_like_a_playlist(files@[i])
                    && ends_like_other_audio(files@[i]),
        ),
{
    let n = files@.len() as int;
    assert forall|i: int| 0 <= i < n implies {
        &&& #[trigger] crate::scan::kind_of(files@[i]) == FileKind::Track <==> ends_like_a_track(
            files@[i],
        )
        &&& crate::scan::kind_of(files@[i]) == FileKind::Playlist <==> !ends_like_a_track(files@[i])
            && ends_like_a_playlist(files@[i])
        &&& crate::scan::kind_of(files@[i]) == FileKind::UnsupportedAudio <==> !ends_like_a_track(
            files@[i],
        ) && !ends_like_a_playlist(files@[i]) && ends_like_other_audio(files@[i])
    } by {
        lemma_kind_of(files@[i]);
    }
    lemma_of_kind_are_all(files@, FileKind::Track, n);
    lemma_of_kind_are_all(files@, FileKind::Playlist, n);
    lemma_of_kind_are_all(files@, FileKind::UnsupportedAudio, n);
    let tracks = crate::scan::of_kind(files@, FileKind::Track, n);
    let playlists = crate::scan::of_kind(files@, FileKind::Playlist, n);
    let others = crate::scan::of_kind(files@, FileKind::UnsupportedAudio, n);
    lemma_are_all_same(
        Seq::new(tracks.len(), |k: int| tracks[k] as int),
        n,
        |i: int| crate::scan::kind_of(files@[i]) == FileKind::Track,
        |i: int| ends_like_a_track(files@[i]),
    );
    lemma_are_all_same(
        Seq::new(playlists.len(), |k: int| playlists[k] as int),
        n,
        |i: int| crate::scan::kind_of(files@[i]) == FileKind::Playlist,
        |i: int| !ends_like_a_track(files@[i]) && ends_like_a_playlist(files@[i]),
    );
    lemma_are_all_same(
        Seq::new(others.len(), |k: int| others[k] as int),
        n,
        |i: int| crate::scan::kind_of(files@[i]) == FileKind::UnsupportedAudio,
        |i: int|
            !ends_like_a_track(files@[i]) && !ends_like_a_playlist(files@[i])
                && ends_like_other_audio(files@[i]),
    );
    lemma_sorted(
        files@,
        tracks,
        selection.tracks@,
        |i: int| ends_like_a_track(files@[i]),
    );
    lemma_sorted(
        files@,
        playlists,
        selection.playlists@,
        |i: int| !ends_like_a_track(files@[i]) && ends_like_a_playlist(files@[i]),
    );
}

proof fn lemma_playlists_among(files: Seq<FilePath>, n: int) -> (at: Seq<int>)
    requires
        0 <= n <= files.len(),
    ensures
        are_all(at, n, |i: int| ends_like_a_playlist(files[i])),
        crate::scan::playlists_among(files, n) == Seq::new(at.len(), |k: int| files[at[k]]),
    decreases n,
{
    if n > 0 {
        let before = lemma_playlists_among(files, n - 1);
        lemma_kinds(files[n - 1]);
        lemma_are_all_next(before, n - 1, |i: int| ends_like_a_playlist(files[i]));
        let at = if ends_like_a_playlist(files[n - 1]) {
            before.push(n - 1)
        } else {
            before
        };
        assert(crate::scan::playlists_among(files, n) =~= Seq::new(at.len(), |k: int| files[at[k]]));
        at
    } else {
        let at = Seq::<int>::empty();
        assert(crate::scan::playlists_among(files, n) =~= Seq::new(at.len(), |k: int| files[at[k]]));
        at
    }
}

/// Of the files that were asked for, all playlists are chosen, in their order, as asked
/// for. They are at the indexes that are given.
pub proof fn law_all_playlists_are_chosen(
    files: Vec<FilePath>,
    choices: Vec<PlaylistChoice>,
) -> (at: Seq<int>)
    requires
        call_ensures(choose_playlists, (files,), choices),
    ensures
        are_all(at, files@.len() as int, |i: int| ends_like_a_playlist(files@[i])),
        at.len() == choices@.len(),
        forall|k: int|
            0 <= k < at.len() ==> (#[trigger] choices@[k]).path == files@[at[k]]
                && choices@[k].selected,
{
    let at = lemma_playlists_among(files@, files@.len() as int);
    let paths = crate::scan::choice_paths(choices@);
    assert(paths.len() == choices@.len());
    assert forall|k: int| 0 <= k < at.len() implies (#[trigger] choices@[k]).path == files@[at[k]]
        && choices@[k].selected by {
        assert(paths[k] == choices@[k].path);
    }
    at
}

/// Whether a playlist file counts: the first time that it was asked for, or where it was
/// just found and never asked for.
pub open spec fn is_counted(choices: Seq<PlaylistChoice>, i: int) -> bool {
    forall|j: int|
        0 <= j < choices.len() && (#[trigger] choices[j]).selected && choices[j].path.parts()
            == choices[i].path.parts() ==> choices[i].selected && i <= j
}

proof fn lemma_counting_are_all(choices: Seq<PlaylistChoice>, n: int)
    requires
        0 <= n <= choices.len() <= usize::MAX,
    ensures
        are_all(
            Seq::new(
                crate::scan::counting(choices, n).len(),
                |k: int| crate::scan::counting(choices, n)[k] as int,
            ),
            n,
            |i: int| is_counted(choices, i),
        ),
    decreases n,
{
    let found = crate::scan::counting(choices, n);
    let at = Seq::new(found.len(), |k: int| found[k] as int);
    if n > 0 {
        let i = n - 1;
        lemma_counting_are_all(choices, i);
        let earlier = crate::scan::counting(choices, i);
        let before = Seq::new(earlier.len(), |k: int| earlier[k] as int);
        lemma_are_all_next(before, i, |i: int| is_counted(choices, i));
        if crate::scan::counts(choices, i) {
            assert forall|j: int|
                0 <= j < choices.len() && (#[trigger] choices[j]).selected
                    && choices[j].path.parts() == choices[i].path.parts() implies choices[i].selected
                && i <= j by {}
            assert(at =~= before.push(i));
        } else {
            let end = if choices[i].selected {
                i
            } else {
                choices.len() as int
            };
            assert(crate::scan::asked_before(choices, i, end));
            let j = choose|j: int|
                0 <= j < end && (#[trigger] choices[j]).selected && choices[j].path.parts()
                    == choices[i].path.parts();
            assert(choices[j].selected);
            assert(!is_counted(choices, i));
            assert(at =~= before);
        }
    }
}

/// Each playlist file counts once, sorted by path: as asked for where it was asked for.
pub proof fn law_playlist_files_count_once(choices: &Vec<PlaylistChoice>, order: Vec<usize>)
    requires
        call_ensures(order_playlists, (choices,), order),
        choices@.len() <= usize::MAX,
    ensures
        are_all_sorted(
            Seq::new(choices@.len(), |i: int| choices@[i].path),
            order@,
            |i: int| is_counted(choices@, i),
        ),
{
    let n = choices@.len() as int;
    let paths = Seq::new(choices@.len(), |i: int| choices@[i].path);
    assert(crate::scan::choice_paths(choices@) =~= paths);
    lemma_counting_are_all(choices@, n);
    lemma_sorted(
        paths,
        crate::scan::counting(choices@, n),
        order@,
        |i: int| is_counted(choices@, i),
    );
}

/// Whether an entry of a playlist that was asked for leads to the track at this path.
pub open spec fn is_asked_for(
    playlists: Seq<PlaylistFile>,
    i: int,
    k: int,
    parts: Seq<Seq<u8>>,
) -> bool {
    &&& 0 <= i < playlists.len() && playlists[i].selected
    &&& 0 <= k < playlists[i].targets@.len()
    &&& playlists[i].targets@[k] matches Ok(target) && ends_like_a_track(target)
        && target.parts() == parts
}

/// The tracks to be synchronized are those in the libraries and those that playlists
/// lead to that were asked for, wherever they are; nothing else, nothing twice that the
/// libraries have once, and all of them sorted by path.
pub proof fn law_all_tracks_are_wanted(
    library: &Vec<FilePath>,
    playlists: &Vec<PlaylistFile>,
    wanted: WantedTracks,
    parts: Seq<Seq<u8>>,
)
    requires
        call_ensures(wanted_tracks, (library, playlists), wanted),
        wanted.paths@.len() <= usize::MAX,
    ensures
        (exists|w: int| 0 <= w < wanted.paths@.len() && (#[trigger] wanted.paths@[w]).parts() == parts)
            <==> (exists|l: int| 0 <= l < library@.len() && (#[trigger] library@[l]).parts() == parts)
            || (exists|i: int, k: int| #[trigger] is_asked_for(playlists@, i, k, parts)),
        (forall|a: int, b: int|
            0 <= a < b < library@.len() ==> (#[trigger] library@[a]).parts() != (
            #[trigger] library@[b]).parts()) ==> (forall|a: int, b: int|
            0 <= a < b < wanted.paths@.len() ==> (#[trigger] wanted.paths@[a]).parts() != (
            #[trigger] wanted.paths@[b]).parts()),
        are_all_sorted(wanted.paths@, wanted.order@, |i: int| true),
{
    let n = playlists@.len() as int;
    let base = crate::scan::parts_of(library@);
    let all = crate::scan::parts_of(wanted.paths@);
    crate::laws::files::law_wanted_tracks_are_the_union(base, playlists@, n, parts);
    if all.contains(parts) {
        let w = choose|w: int| 0 <= w < all.len() && all[w] == parts;
        assert(wanted.paths@[w].parts() == parts);
    }
    if exists|w: int| 0 <= w < wanted.paths@.len() && (#[trigger] wanted.paths@[w]).parts() == parts {
        let w = choose|w: int|
            0 <= w < wanted.paths@.len() && (#[trigger] wanted.paths@[w]).parts() == parts;
        assert(all[w] == parts);
    }
    if base.contains(parts) {
        let l = choose|l: int| 0 <= l < base.len() && base[l] == parts;
        assert(library@[l].parts() == parts);
    }
    if exists|l: int| 0 <= l < library@.len() && (#[trigger] library@[l]).parts() == parts {
        let l = choose|l: int| 0 <= l < library@.len() && (#[trigger] library@[l]).parts() == parts;
        assert(base[l] == parts);
    }
    if crate::laws::files::is_named(playlists@, n, parts) {
        let (i, k) = choose|i: int, k: int|
            0 <= i < n && 0 <= k < playlists@[i].targets@.len() && playlists@[i].selected
                && crate::laws::files::leads_to(#[trigger] playlists@[i].targets@[k], parts);
        lemma_kinds(playlists@[i].targets@[k]->Ok_0);
        assert(is_asked_for(playlists@, i, k, parts));
    }
    if exists|i: int, k: int| #[trigger] is_asked_for(playlists@, i, k, parts) {
        let (i, k) = choose|i: int, k: int| #[trigger] is_asked_for(playlists@, i, k, parts);
        lemma_kinds(playlists@[i].targets@[k]->Ok_0);
        assert(crate::laws::files::leads_to(playlists@[i].targets@[k], parts));
    }
    if forall|a: int, b: int|
        0 <= a < b < library@.len() ==> (#[trigger] library@[a]).parts() != (
        #[trigger] library@[b]).parts() {
        assert(base.no_duplicates()) by {
            assert forall|a: int, b: int| 0 <= a < base.len() && 0 <= b < base.len() && a != b implies
                base[a] != base[b] by {
                assert(base[a] == library@[a].parts() && base[b] == library@[b].parts());
            }
        }
        assert forall|a: int, b: int| 0 <= a < b < wanted.paths@.len() implies (
        #[trigger] wanted.paths@[a]).parts() != (#[trigger] wanted.paths@[b]).parts() by {
            assert(all[a] == wanted.paths@[a].parts() && all[b] == wanted.paths@[b].parts());
        }
    }
    let below = crate::scan::indexes_below(wanted.paths@.len());
    let at = Seq::new(below.len(), |k: int| below[k] as int);
    assert(are_all(at, wanted.paths@.len() as int, |i: int| true)) by {
        assert forall|i: int| 0 <= i < wanted.paths@.len() implies at.contains(i) by {
            assert(at[i] == i);
        }
    }
    lemma_sorted(wanted.paths@, below, wanted.order@, |i: int| true);
}

/// Whether no earlier local track is the same recording.
pub open spec fn is_first_of_its_recording(tracks: Seq<SourceTrack>, i: int) -> bool {
    forall|j: int|
        0 <= j < i ==> crate::source::source_identity(#[trigger] tracks[j])
            != crate::source::source_identity(tracks[i])
}

proof fn lemma_firsts_are_all(tracks: Seq<SourceTrack>, n: int)
    requires
        0 <= n <= tracks.len(),
    ensures
        are_all(
            crate::scan::firsts(crate::plan::source_identities(tracks), n),
            n,
            |i: int| is_first_of_its_recording(tracks, i),
        ),
    decreases n,
{
    if n > 0 {
        let ids = crate::plan::source_identities(tracks);
        let i = n - 1;
        lemma_firsts_are_all(tracks, i);
        lemma_are_all_next(
            crate::scan::firsts(ids, i),
            i,
            |i: int| is_first_of_its_recording(tracks, i),
        );
        let earlier = ids.take(i);
        if earlier.contains(ids[i]) {
            let j = choose|j: int| 0 <= j < earlier.len() && earlier[j] == ids[i];
            assert(crate::source::source_identity(tracks[j]) == ids[j]);
            assert(!is_first_of_its_recording(tracks, i));
        } else {
            assert forall|j: int| 0 <= j < i implies crate::source::source_identity(
                #[trigger] tracks[j],
            ) != crate::source::source_identity(tracks[i]) by {
                assert(earlier[j] == ids[j]);
            }
        }
    }
}

/// Of the local tracks the first of each recording counts, in order, and the others are
/// counted as duplicates. The tracks that count are at the indexes that are given.
pub proof fn law_each_recording_counts_once(
    tracks: Vec<SourceTrack>,
    files: &Vec<PlaylistFile>,
    scanned: Result<Sources, PlaylistError>,
) -> (at: Seq<int>)
    requires
        call_ensures(scan_sources, (tracks, files), scanned),
    ensures
        are_all(at, tracks@.len() as int, |i: int| is_first_of_its_recording(tracks@, i)),
        scanned matches Ok(sources) ==> {
            &&& sources.tracks@.len() == at.len()
            &&& forall|k: int|
                0 <= k < at.len() ==> #[trigger] sources.tracks@[k] == tracks@[at[k]]
            &&& sources.duplicates == tracks@.len() - at.len()
        },
{
    lemma_firsts_are_all(tracks@, tracks@.len() as int);
    crate::scan::firsts(crate::plan::source_identities(tracks@), tracks@.len() as int)
}

/// The names of files that hold cover art, the most wanted first.
pub open spec fn wanted_covers() -> Seq<Seq<char>> {
    seq![
        "cover.jpg"@,
        "cover.jpeg"@,
        "cover.png"@,
        "folder.jpg"@,
        "folder.jpeg"@,
        "folder.png"@,
        "front.jpg"@,
        "front.jpeg"@,
        "front.png"@,
    ]
}

/// Whether the file at index `i` has, in small letters, the cover name of this rank.
pub open spec fn has_cover_name(names: Seq<String>, i: int, rank: int) -> bool {
    &&& 0 <= i < names.len()
    &&& 0 <= rank < wanted_covers().len()
    &&& text::lowered(names[i]@) == wanted_covers()[rank]
}

proof fn lemma_last_named(names: Seq<String>, wanted: Seq<char>, n: int)
    requires
        0 <= n <= names.len(),
    ensures
        match crate::source::last_named(names, wanted, n) {
            Some(i) => {
                &&& 0 <= i < n
                &&& text::lowered(names[i]@) == wanted
                &&& forall|j: int| i < j < n ==> text::lowered((#[trigger] names[j])@) != wanted
            },
            None => forall|j: int| 0 <= j < n ==> text::lowered((#[trigger] names[j])@) != wanted,
        },
    decreases n,
{
    if n > 0 {
        lemma_last_named(names, wanted, n - 1);
    }
}

proof fn lemma_cover_from(names: Seq<String>, rank: int)
    requires
        0 <= rank <= wanted_covers().len(),
        crate::source::cover_names() == wanted_covers(),
    ensures
        match crate::source::cover_file(names, rank) {
            Some(i) => exists|r: int|
                rank <= r && #[trigger] has_cover_name(names, i, r) && (forall|j: int, q: int|
                    rank <= q < r ==> !#[trigger] has_cover_name(names, j, q)) && (forall|j: int|
                    #[trigger] has_cover_name(names, j, r) ==> j <= i),
            None => forall|j: int, q: int| rank <= q ==> !#[trigger] has_cover_name(names, j, q),
        },
    decreases wanted_covers().len() - rank,
{
    if rank < wanted_covers().len() {
        lemma_last_named(names, wanted_covers()[rank], names.len() as int);
        match crate::source::last_named(names, wanted_covers()[rank], names.len() as int) {
            Some(i) => {
                assert(has_cover_name(names, i, rank));
                assert forall|j: int| #[trigger] has_cover_name(names, j, rank) implies j <= i by {}
            },
            None => {
                lemma_cover_from(names, rank + 1);
                assert forall|j: int| !#[trigger] has_cover_name(names, j, rank) by {}
                if let Some(i) = crate::source::cover_file(names, rank) {
                    let r = choose|r: int|
                        rank + 1 <= r && #[trigger] has_cover_name(names, i, r) && (forall|
                            j: int,
                            q: int,
                        |
                            rank + 1 <= q < r ==> !#[trigger] has_cover_name(names, j, q)) && (
                        forall|j: int| #[trigger] has_cover_name(names, j, r) ==> j <= i);
                    assert(has_cover_name(names, i, r));
                }
            },
        }
    }
}

/// The cover art next to a track is the file with the most wanted of the cover names, of
/// several in different letters the last. There is none only where no file has any of
/// the names. The rank of its name is given.
pub proof fn law_covers_are_found(names: &Vec<String>, chosen: Option<usize>) -> (rank: int)
    requires
        call_ensures(read_external_artwork, (names,), chosen),
    ensures
        chosen is None ==> forall|j: int, q: int| !#[trigger] has_cover_name(names@, j, q),
        chosen matches Some(i) ==> {
            &&& has_cover_name(names@, i as int, rank)
            &&& forall|j: int, q: int| q < rank ==> !#[trigger] has_cover_name(names@, j, q)
            &&& forall|j: int| #[trigger] has_cover_name(names@, j, rank) ==> j <= i
        },
{
    assert(crate::source::cover_names() =~= wanted_covers());
    lemma_cover_from(names@, 0);
    if let Some(i) = chosen {
        choose|r: int|
            0 <= r && #[trigger] has_cover_name(names@, i as int, r) && (forall|j: int, q: int|
                0 <= q < r ==> !#[trigger] has_cover_name(names@, j, q)) && (forall|j: int|
                #[trigger] has_cover_name(names@, j, r) ==> j <= i)
    } else {
        0
    }
}

/// What stands before the last dot of a file's name is its stem, where something does
/// and it is UTF-8; a name with no such dot is all stem. The root and the dotted names
/// have none.
pub proof fn law_stems_stand_before_the_last_dot(
    path: &FilePath,
    stem: Option<String>,
    before: Seq<u8>,
    after: Seq<u8>,
)
    requires
        call_ensures(FilePath::file_stem, (path,), stem),
        forall|i: int| 0 <= i < after.len() ==> #[trigger] after[i] != 46,
    ensures
        path.components@.len() == 0 ==> stem is None,
        path.components@.len() > 0 && (path.components@.last()@ == seq![47u8]
            || path.components@.last()@ == seq![46u8] || path.components@.last()@ == seq![46u8, 46u8])
            ==> stem is None,
        path.components@.len() > 0 && before.len() > 0 && path.components@.last()@ == before.push(46)
            + after && before.push(46) + after != seq![46u8, 46u8] ==> {
            &&& stem is Some <==> vstd::utf8::valid_utf8(before)
            &&& stem matches Some(s) ==> s@ == vstd::utf8::decode_utf8(before)
        },
        path.components@.len() > 0 && before.len() == 1 && path.components@.last()@ == before + after
            && before + after != seq![47u8] && before + after != seq![46u8] ==> {
            &&& stem is Some <==> vstd::utf8::valid_utf8(before + after)
            &&& stem matches Some(s) ==> s@ == vstd::utf8::decode_utf8(before + after)
        },
{
    if path.components@.len() > 0 {
        let name = path.components@.last()@;
        assert(path.parts().last() == name);
        lemma_last_dot(name);
        let dot = crate::path::last_dot(name);
        if before.len() > 0 && name == before.push(46) + after && name != seq![46u8, 46u8] {
            let n = before.len() as int;
            assert(name[n] == 46);
            assert forall|i: int| n < i < name.len() implies #[trigger] name[i] != 46 by {
                assert(name[i] == after[i - n - 1]);
            }
            assert(dot == n) by {
                if dot < n {
                    assert(name[n] != 46);
                }
                if n < dot {
                    assert(name[dot] != 46);
                }
            }
            assert(name.take(dot) =~= before);
            assert(name.len() > 1);
            assert(seq![47u8].len() == 1 && seq![46u8].len() == 1);
        }
        if before.len() == 1 && name == before + after && name != seq![47u8] && name
            != seq![46u8] {
            assert forall|i: int| 0 < i < name.len() implies #[trigger] name[i] != 46 by {
                assert(name[i] == after[i - 1]);
            }
            assert(dot <= 0) by {
                if dot > 0 {
                    assert(name[dot] != 46);
                }
            }
            if name == seq![46u8, 46u8] {
                assert(name[1] == 46);
            }
        }
    }
}

/// The local playlists are read against all local tracks, those of recordings that have come
/// before included: `keys` holds the recording of each of them with its path, in order.
pub proof fn law_playlists_may_list_any_local_track(
    tracks: Vec<SourceTrack>,
    files: &Vec<PlaylistFile>,
    scanned: Result<Sources, PlaylistError>,
    keys: &PathKeys,
    read: Result<Vec<SourcePlaylist>, PlaylistError>,
)
    requires
        call_ensures(scan_sources, (tracks, files), scanned),
        call_ensures(read_source_playlists, (files, keys), read),
        keys@.len() == tracks@.len(),
        forall|i: int|
            0 <= i < tracks@.len() ==> (#[trigger] keys@[i]).0 == tracks@[i].path.parts()
                && keys@[i].1 == crate::source::source_identity(tracks@[i]),
    ensures
        scanned is Ok <==> read is Ok,
        scanned matches Ok(sources) ==> {
            &&& sources.playlists@.len() == read->Ok_0@.len()
            &&& forall|i: int|
                0 <= i < sources.playlists@.len() ==> (#[trigger] sources.playlists@[i])@
                    == read->Ok_0@[i]@
        },
        scanned matches Err(e) ==> e@ == read->Err_0@,
{
    assert(crate::scan::keyed_paths(tracks@) =~= keys@);
    if let Ok(sources) = scanned {
        let one = crate::playlist::facts_of(sources.playlists@);
        let other = crate::playlist::facts_of(read->Ok_0@);
        assert(one == other);
        assert(one.len() == sources.playlists@.len() && other.len() == read->Ok_0@.len());
        assert forall|i: int| 0 <= i < sources.playlists@.len() implies (
        #[trigger] sources.playlists@[i])@ == read->Ok_0@[i]@ by {
            assert(one[i] == sources.playlists@[i]@ && other[i] == read->Ok_0@[i]@);
        }
    }
}

proof fn lemma_piece_len(written: Seq<u8>, drives: bool)
    ensures
        crate::path::piece_len(written, drives) <= written.len(),
        forall|i: int|
            0 <= i < crate::path::piece_len(written, drives) ==> !crate::path::is_separator(
                #[trigger] written[i],
                drives,
            ),
        crate::path::piece_len(written, drives) < written.len() ==> crate::path::is_separator(
            written[crate::path::piece_len(written, drives) as int],
            drives,
        ),
    decreases written.len(),
{
    if written.len() > 0 && !crate::path::is_separator(written[0], drives) {
        let rest = written.drop_first();
        lemma_piece_len(rest, drives);
        assert forall|i: int|
            0 <= i < crate::path::piece_len(written, drives) implies !crate::path::is_separator(
            #[trigger] written[i],
            drives,
        ) by {
            if i > 0 {
                assert(written[i] == rest[i - 1]);
            }
        }
    }
}

/// Where a path is written with a `/` in it, what stands before and what stands after the `/`
/// give their pieces each for itself. Without one, it is one piece, unless it is empty or `.`.
pub proof fn law_written_paths_fall_into_pieces(a: Seq<u8>, b: Seq<u8>, drives: bool)
    ensures
        crate::path::pieces(a.push(47) + b, drives) == crate::path::pieces(a, drives)
            + crate::path::pieces(b, drives),
        (forall|i: int| 0 <= i < a.len() ==> #[trigger] a[i] != 47 && (drives ==> a[i] != 92))
            ==> crate::path::pieces(a, drives) == if a.len() == 0 || a == seq![46u8] {
            Seq::<Seq<u8>>::empty()
        } else {
            seq![a]
        },
        drives ==> crate::path::pieces(a.push(92) + b, drives) == crate::path::pieces(a, drives)
            + crate::path::pieces(b, drives),
{
    lemma_pieces_join(a, 47, b, drives);
    if drives {
        lemma_pieces_join(a, 92, b, drives);
    }
    if forall|i: int| 0 <= i < a.len() ==> #[trigger] a[i] != 47 && (drives ==> a[i] != 92) {
        lemma_piece_len(a, drives);
        let n = crate::path::piece_len(a, drives) as int;
        assert(n == a.len()) by {
            if n < a.len() {
                assert(a[n] != 47);
            }
        }
        assert(a.take(n) =~= a);
        assert(crate::path::pieces(a, drives) =~= if a.len() == 0 || a == seq![46u8] {
            Seq::<Seq<u8>>::empty()
        } else {
            seq![a]
        });
    }
}

proof fn lemma_pieces_join(a: Seq<u8>, c: u8, b: Seq<u8>, drives: bool)
    requires
        crate::path::is_separator(c, drives),
    ensures
        crate::path::pieces(a.push(c) + b, drives) == crate::path::pieces(a, drives)
            + crate::path::pieces(b, drives),
    decreases a.len(),
{
    let whole = a.push(c) + b;
    let n = crate::path::piece_len(a, drives) as int;
    let m = crate::path::piece_len(whole, drives) as int;
    lemma_piece_len(a, drives);
    lemma_piece_len(whole, drives);
    assert(m == n) by {
        if m < n {
            assert(whole[m] == a[m]);
        }
        if n < m {
            if n < a.len() {
                assert(whole[n] == a[n]);
            } else {
                assert(whole[n] == c);
            }
        }
    }
    let piece = whole.take(n);
    assert(piece =~= a.take(n));
    if n < a.len() {
        assert(whole.skip(n + 1) =~= a.skip(n + 1).push(c) + b);
        lemma_pieces_join(a.skip(n + 1), c, b, drives);
        let rest = crate::path::pieces(a.skip(n + 1), drives);
        assert(seq![piece] + (rest + crate::path::pieces(b, drives)) =~= (seq![piece] + rest)
            + crate::path::pieces(b, drives));
    } else {
        assert(whole.skip(n + 1) =~= b);
        assert(a.take(n) =~= a);
        if a.len() > 0 {
            assert(crate::path::pieces(a, drives) =~= if piece == seq![46u8] {
                Seq::<Seq<u8>>::empty()
            } else {
                seq![piece]
            });
        } else {
            assert(crate::path::pieces(a, drives) =~= Seq::empty());
        }
        assert(crate::path::pieces(whole, drives) =~= crate::path::pieces(a, drives)
            + crate::path::pieces(b, drives));
    }
}

/// What an entry written in a playlist file leads to, where there are no drives: one that begins
/// with `/` begins at the root, any other in the directory of the file; and one that ends in `/`
/// or `/.` ends in `.`.
pub proof fn law_entries_lead_from_their_file(
    file: &FilePath,
    written: &str,
    parts: Vec<Vec<u8>>,
)
    requires
        call_ensures(FilePath::followed_path, (file, written), parts),
        file.components@.len() > 1,
        file.components@[0]@ == seq![47u8],
        file.components@.last()@ != seq![47u8],
    ensures
        ({
            let bytes = vstd::utf8::encode_utf8(written@);
            let n = bytes.len() as int;
            let start = if n > 0 && bytes[0] == 47 {
                seq![seq![47u8]]
            } else {
                file.parts().drop_last()
            };
            let end = if n > 0 && (bytes[n - 1] == 47 || (n > 1 && bytes[n - 1] == 46 && bytes[n - 2]
                == 47)) {
                seq![seq![46u8]]
            } else {
                Seq::empty()
            };
            crate::path::bytes_of(parts@) == start + crate::path::pieces(bytes, false) + end
        }),
{
    let bytes = vstd::utf8::encode_utf8(written@);
    let n = bytes.len() as int;
    assert(file.parts()[0] == file.components@[0]@);
    assert(file.parts().last() == file.components@.last()@);
    assert(!crate::path::has_drive(file.parts()));
    let start = if n > 0 && bytes[0] == 47 {
        seq![seq![47u8]]
    } else {
        file.parts().drop_last()
    };
    let middle = start + crate::path::pieces(bytes, false);
    assert(crate::path::written_parts(file.parts(), bytes) == middle);
    assert(middle.push(seq![46u8]) =~= middle + seq![seq![46u8]]);
    assert(middle =~= middle + Seq::empty());
}

/// The paths of a playlist file's entries are those that the entries are written as, one by one
/// and in order.
pub proof fn law_every_entry_has_its_path(
    path: &FilePath,
    contents: &[u8],
    paths: Option<Vec<Vec<Vec<u8>>>>,
    entries: Result<Vec<M3uEntry>, String>,
    k: int,
    written: &str,
    parts: Vec<Vec<u8>>,
)
    requires
        call_ensures(entry_paths, (path, contents), paths),
        call_ensures(m3u_entries, (contents,), entries),
        entries matches Ok(lines) ==> 0 <= k < lines@.len() && written@ == lines@[k].text@,
        call_ensures(FilePath::followed_path, (path, written), parts),
    ensures
        paths is Some <==> entries is Ok,
        entries matches Ok(lines) ==> paths->Some_0@.len() == lines@.len() && crate::path::bytes_of(
            paths->Some_0@[k]@,
        ) == crate::path::bytes_of(parts@),
{
    if let Ok(lines) = entries {
        let listed = crate::m3u::listed(lines@);
        let all = crate::playlist::parts_of_all(paths->Some_0@);
        assert(all == crate::playlist::entry_paths_of(*path, listed));
        assert(all.len() == listed.len() && listed.len() == lines@.len());
        assert(all.len() == paths->Some_0@.len());
        assert(all[k] == crate::path::bytes_of(paths->Some_0@[k]@));
        assert(listed[k].1 == written@);
    }
}

/// How long a playlist's name is: a character takes one unit, or two where it is past the first
/// 65536.
pub proof fn law_names_are_measured_in_units(value: Seq<char>, c: char)
    ensures
        text::utf16_len(Seq::empty()) == 0,
        text::utf16_len(value.push(c)) == text::utf16_len(value) + if (c as u32) < 65536 {
            1nat
        } else {
            2nat
        },
{
    assert(value.push(c).drop_last() =~= value);
}

/// Paths are compared by all of their components, byte by byte.
pub proof fn law_paths_are_their_components(path: FilePath)
    ensures
        path.parts().len() == path.components@.len(),
        forall|i: int|
            0 <= i < path.components@.len() ==> #[trigger] path.parts()[i] == path.components@[i]@,
{
}

} // verus!
