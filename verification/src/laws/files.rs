//! What holds of the files that a synchronization starts from.

use vstd::prelude::*;

use crate::key::Identity;
use crate::path::FilePath;
use crate::playlist::{Fault, PlaylistFacts, PlaylistFile};
use crate::text;

verus! {

proof fn lemma_first_named(files: Seq<PlaylistFile>, n: int, normal: Seq<char>, i: int)
    requires
        0 <= i < n <= files.len(),
        crate::playlist::playlist_name(files[i].path) matches Some(name)
            && crate::key::normal_name(name) == normal,
    ensures
        crate::playlist::first_named(files, n, normal) is Some,
    decreases n,
{
    if i < n - 1 {
        lemma_first_named(files, n - 1, normal, i);
    }
}

/// The playlists in the first files are the playlists in each of them.
pub(crate) proof fn lemma_playlists(
    files: Seq<PlaylistFile>,
    n: int,
    keys: Seq<(Seq<Seq<u8>>, Identity)>,
    playlists: Seq<PlaylistFacts>,
)
    requires
        0 <= n <= files.len(),
        crate::playlist::playlists_in(files, n, keys) == Ok::<Seq<PlaylistFacts>, Fault>(playlists),
    ensures
        playlists.len() == n,
        forall|i: int|
            0 <= i < n ==> crate::playlist::playlist_in(files, i, keys) == Ok::<
                PlaylistFacts,
                Fault,
            >(#[trigger] playlists[i]),
    decreases n,
{
    if n > 0 {
        let earlier = crate::playlist::playlists_in(files, n - 1, keys)->Ok_0;
        lemma_playlists(files, n - 1, keys, earlier);
        assert forall|i: int| 0 <= i < n implies crate::playlist::playlist_in(files, i, keys)
            == Ok::<PlaylistFacts, Fault>(#[trigger] playlists[i]) by {
            if i < n - 1 {
                assert(playlists[i] == earlier[i]);
            }
        }
    }
}

/// Every playlist that is read has a name: not a blank one, none that is longer
/// than a device takes, and none that another has, whatever the capital and
/// small letters.
pub proof fn law_playlist_names_can_be_used(
    files: Seq<PlaylistFile>,
    keys: Seq<(Seq<Seq<u8>>, Identity)>,
    playlists: Seq<PlaylistFacts>,
)
    requires
        crate::playlist::playlists_in(files, files.len() as int, keys) == Ok::<
            Seq<PlaylistFacts>,
            Fault,
        >(playlists),
    ensures
        playlists.len() == files.len(),
        forall|i: int|
            0 <= i < playlists.len() ==> !text::is_blank((#[trigger] playlists[i]).name)
                && text::utf16_len(playlists[i].name) <= 255,
        forall|i: int, j: int|
            0 <= i < j < playlists.len() ==> crate::key::normal_name(
                (#[trigger] playlists[i]).name,
            ) != crate::key::normal_name((#[trigger] playlists[j]).name),
{
    lemma_playlists(files, files.len() as int, keys, playlists);
    assert forall|i: int, j: int| 0 <= i < j < playlists.len() implies crate::key::normal_name(
        (#[trigger] playlists[i]).name,
    ) != crate::key::normal_name((#[trigger] playlists[j]).name) by {
        assert(crate::playlist::playlist_in(files, i, keys) == Ok::<PlaylistFacts, Fault>(
            playlists[i],
        ));
        assert(crate::playlist::playlist_in(files, j, keys) == Ok::<PlaylistFacts, Fault>(
            playlists[j],
        ));
        if crate::key::normal_name(playlists[i].name) == crate::key::normal_name(
            playlists[j].name,
        ) {
            lemma_first_named(files, j, crate::key::normal_name(playlists[j].name), i);
        }
    }
}

pub(crate) proof fn lemma_entry_tracks(
    file: PlaylistFile,
    entries: Seq<(nat, Seq<char>)>,
    n: int,
    keys: Seq<(Seq<Seq<u8>>, Identity)>,
    tracks: Seq<Identity>,
)
    requires
        0 <= n <= entries.len(),
        crate::playlist::entry_tracks(file, entries, n, keys) == Ok::<Seq<Identity>, Fault>(tracks),
    ensures
        tracks.len() == n,
        forall|k: int|
            0 <= k < n ==> crate::playlist::entry_track(file, entries, k, keys) == Ok::<
                Identity,
                Fault,
            >(#[trigger] tracks[k]),
    decreases n,
{
    if n > 0 {
        let earlier = crate::playlist::entry_tracks(file, entries, n - 1, keys)->Ok_0;
        lemma_entry_tracks(file, entries, n - 1, keys, earlier);
        assert forall|k: int| 0 <= k < n implies crate::playlist::entry_track(
            file,
            entries,
            k,
            keys,
        ) == Ok::<Identity, Fault>(#[trigger] tracks[k]) by {
            if k < n - 1 {
                assert(tracks[k] == earlier[k]);
            }
        }
    }
}

proof fn lemma_key_for(keys: Seq<(Seq<Seq<u8>>, Identity)>, wanted: Seq<Seq<u8>>)
    ensures
        crate::index::key_for(keys, wanted) matches Some(identity) ==> keys.contains(
            (wanted, identity),
        ),
        crate::index::key_for(keys, wanted) is None ==> forall|i: int|
            0 <= i < keys.len() ==> (#[trigger] keys[i]).0 != wanted,
    decreases keys.len(),
{
    if keys.len() > 0 {
        let earlier = keys.drop_last();
        lemma_key_for(earlier, wanted);
        assert(keys.last() == keys[keys.len() - 1]);
        if keys.last().0 != wanted {
            if let Some(identity) = crate::index::key_for(keys, wanted) {
                let i = choose|i: int| 0 <= i < earlier.len() && earlier[i] == (wanted, identity);
                assert(keys[i] == (wanted, identity));
            } else {
                assert forall|i: int| 0 <= i < keys.len() implies (#[trigger] keys[i]).0
                    != wanted by {
                    if i < earlier.len() {
                        assert(earlier[i] == keys[i]);
                    }
                }
            }
        }
    }
}

/// Every entry of a playlist that is read stands for a track: the playlist lists
/// as many tracks as its file has entries, in their order, and each is the local
/// track at the place that the entry leads to.
pub proof fn law_playlists_list_their_entries_in_order(
    files: Seq<PlaylistFile>,
    keys: Seq<(Seq<Seq<u8>>, Identity)>,
    playlists: Seq<PlaylistFacts>,
    i: int,
)
    requires
        crate::playlist::playlists_in(files, files.len() as int, keys) == Ok::<
            Seq<PlaylistFacts>,
            Fault,
        >(playlists),
        0 <= i < files.len(),
    ensures
        files[i].contents matches Ok(bytes) && crate::m3u::entries_of(bytes@) matches Some(entries)
            && {
            &&& playlists[i].tracks.len() == entries.len()
            &&& forall|k: int|
                0 <= k < entries.len() ==> (#[trigger] files[i].targets@[k] matches Ok(target)
                    && keys.contains((target.parts(), playlists[i].tracks[k])))
        },
{
    lemma_playlists(files, files.len() as int, keys, playlists);
    assert(crate::playlist::playlist_in(files, i, keys) == Ok::<PlaylistFacts, Fault>(
        playlists[i],
    ));
    let entries = crate::m3u::entries_of(files[i].contents->Ok_0@).unwrap();
    let tracks = playlists[i].tracks;
    lemma_entry_tracks(files[i], entries, entries.len() as int, keys, tracks);
    assert forall|k: int| 0 <= k < entries.len() implies (#[trigger] files[i].targets@[k] matches Ok(
        target,
    ) && keys.contains((target.parts(), tracks[k]))) by {
        assert(crate::playlist::entry_track(files[i], entries, k, keys) == Ok::<Identity, Fault>(
            tracks[k],
        ));
        lemma_key_for(keys, files[i].targets@[k]->Ok_0.parts());
    }
}

/// A playlist that was asked for lists nothing but MP3 files.
pub proof fn law_selected_playlists_list_only_mp3_files(
    files: Seq<PlaylistFile>,
    keys: Seq<(Seq<Seq<u8>>, Identity)>,
    playlists: Seq<PlaylistFacts>,
    i: int,
    k: int,
)
    requires
        crate::playlist::playlists_in(files, files.len() as int, keys) == Ok::<
            Seq<PlaylistFacts>,
            Fault,
        >(playlists),
        0 <= i < files.len(),
        files[i].selected,
        0 <= k < playlists[i].tracks.len(),
    ensures
        files[i].targets@[k] matches Ok(target) && target.has_extension("mp3"@),
{
    lemma_playlists(files, files.len() as int, keys, playlists);
    assert(crate::playlist::playlist_in(files, i, keys) == Ok::<PlaylistFacts, Fault>(
        playlists[i],
    ));
    let entries = crate::m3u::entries_of(files[i].contents->Ok_0@).unwrap();
    let tracks = playlists[i].tracks;
    lemma_entry_tracks(files[i], entries, entries.len() as int, keys, tracks);
    assert(crate::playlist::entry_track(files[i], entries, k, keys) == Ok::<Identity, Fault>(
        tracks[k],
    ));
}

/// Whether one of the first `n` playlists that were asked for names the MP3 at
/// this path.
pub open spec fn is_named(files: Seq<PlaylistFile>, n: int, parts: Seq<Seq<u8>>) -> bool {
    exists|i: int, k: int|
        0 <= i < n && 0 <= k < files[i].targets@.len() && files[i].selected && leads_to(
            #[trigger] files[i].targets@[k],
            parts,
        )
}

/// Whether an entry leads to the MP3 at this path.
pub open spec fn leads_to(target: Result<FilePath, String>, parts: Seq<Seq<u8>>) -> bool {
    target matches Ok(path) && path.has_extension("mp3"@) && path.parts() == parts
}

proof fn lemma_with_targets(
    paths: Seq<Seq<Seq<u8>>>,
    targets: Seq<Result<FilePath, String>>,
    n: int,
    parts: Seq<Seq<u8>>,
)
    requires
        0 <= n <= targets.len(),
    ensures
        crate::scan::with_targets(paths, targets, n).contains(parts) <==> paths.contains(parts) || (
        exists|k: int| 0 <= k < n && leads_to(#[trigger] targets[k], parts)),
        paths.no_duplicates() ==> crate::scan::with_targets(paths, targets, n).no_duplicates(),
    decreases n,
{
    if n > 0 {
        lemma_with_targets(paths, targets, n - 1, parts);
        let earlier = crate::scan::with_targets(paths, targets, n - 1);
        if let Ok(path) = targets[n - 1] {
            crate::laws::tracks::lemma_push_contains(earlier, path.parts(), parts);
        }
        assert(crate::scan::with_targets(paths, targets, n).contains(parts) <==> earlier.contains(
            parts,
        ) || leads_to(targets[n - 1], parts));
        if exists|k: int| 0 <= k < n - 1 && leads_to(#[trigger] targets[k], parts) {
            let k = choose|k: int| 0 <= k < n - 1 && leads_to(#[trigger] targets[k], parts);
            assert(0 <= k < n);
        }
    }
}

/// What is to be on the device is the union of what was asked for: the tracks of
/// the libraries, and the MP3 files that playlists name that were asked for;
/// nothing else, and nothing twice.
pub proof fn law_wanted_tracks_are_the_union(
    library: Seq<Seq<Seq<u8>>>,
    files: Seq<PlaylistFile>,
    n: int,
    parts: Seq<Seq<u8>>,
)
    requires
        0 <= n <= files.len(),
    ensures
        crate::scan::with_playlists(library, files, n).contains(parts) <==> library.contains(parts)
            || is_named(files, n, parts),
        library.no_duplicates() ==> crate::scan::with_playlists(
            library,
            files,
            n,
        ).no_duplicates(),
    decreases n,
{
    if n > 0 {
        law_wanted_tracks_are_the_union(library, files, n - 1, parts);
        let earlier = crate::scan::with_playlists(library, files, n - 1);
        let last = files[n - 1];
        let total = last.targets@.len() as int;
        lemma_with_targets(earlier, last.targets@, total, parts);
        if is_named(files, n - 1, parts) {
            let (i, k) = choose|i: int, k: int|
                0 <= i < n - 1 && 0 <= k < files[i].targets@.len() && files[i].selected && leads_to(
                    #[trigger] files[i].targets@[k],
                    parts,
                );
            assert(leads_to(files[i].targets@[k], parts));
            assert(is_named(files, n, parts));
        }
        if last.selected && exists|k: int| 0 <= k < total && leads_to(#[trigger] last.targets@[k], parts) {
            let k = choose|k: int| 0 <= k < total && leads_to(#[trigger] last.targets@[k], parts);
            assert(leads_to(files[n - 1].targets@[k], parts));
            assert(is_named(files, n, parts));
        }
    }
}

/// A playlist that was asked for may name MP3 files anywhere: where the wanted
/// tracks were read, each of its entries that leads to one stands for a track.
pub proof fn law_selected_playlists_may_name_any_mp3_file(
    library: Seq<Seq<Seq<u8>>>,
    files: Seq<PlaylistFile>,
    keys: Seq<(Seq<Seq<u8>>, Identity)>,
    entries: Seq<(nat, Seq<char>)>,
    i: int,
    k: int,
)
    requires
        0 <= i < files.len(),
        files[i].selected,
        entries.len() == files[i].targets@.len(),
        0 <= k < entries.len(),
        files[i].targets@[k] matches Ok(target) && target.has_extension("mp3"@),
        forall|parts: Seq<Seq<u8>>|
            crate::scan::with_playlists(library, files, files.len() as int).contains(parts)
                ==> exists|j: int| 0 <= j < keys.len() && (#[trigger] keys[j]).0 == parts,
    ensures
        crate::playlist::entry_track(files[i], entries, k, keys) is Ok,
{
    let parts = files[i].targets@[k]->Ok_0.parts();
    law_wanted_tracks_are_the_union(library, files, files.len() as int, parts);
    assert(leads_to(files[i].targets@[k], parts));
    assert(is_named(files, files.len() as int, parts));
    assert(crate::scan::with_playlists(library, files, files.len() as int).contains(parts));
    lemma_key_for(keys, parts);
}

proof fn lemma_entries(contents: Seq<char>, from: int, line: nat)
    requires
        0 <= from,
    ensures
        forall|k: int|
            0 <= k < crate::m3u::entries_from(contents, from, line).len() ==> {
                &&& (#[trigger] crate::m3u::entries_from(contents, from, line)[k]).0 >= line
                &&& crate::m3u::names_track(crate::m3u::entries_from(contents, from, line)[k].1)
            },
        forall|a: int, b: int|
            0 <= a < b < crate::m3u::entries_from(contents, from, line).len() ==> (
            #[trigger] crate::m3u::entries_from(contents, from, line)[a]).0 < (
            #[trigger] crate::m3u::entries_from(contents, from, line)[b]).0,
    decreases contents.len() + 1 - from,
{
    if from < contents.len() {
        crate::m3u::lemma_line_end(contents, from);
        let end = crate::m3u::line_end(contents, from);
        let rest = crate::m3u::entries_from(contents, end + 1, line + 1);
        let all = crate::m3u::entries_from(contents, from, line);
        lemma_entries(contents, end + 1, line + 1);
        if all.len() > rest.len() {
            assert forall|k: int| 0 <= k < all.len() implies (#[trigger] all[k]).0 >= line
                && crate::m3u::names_track(all[k].1) by {
                if k > 0 {
                    assert(all[k] == rest[k - 1]);
                }
            }
            assert forall|a: int, b: int| 0 <= a < b < all.len() implies (#[trigger] all[a]).0 < (
            #[trigger] all[b]).0 by {
                assert(all[b] == rest[b - 1]);
                if a > 0 {
                    assert(all[a] == rest[a - 1]);
                }
            }
        }
    }
}

/// Empty lines and comments of a playlist file, extended ones among them, are
/// no entries. The entries come in the order of their lines, one line each.
pub proof fn law_comments_are_no_entries(bytes: Seq<u8>, entries: Seq<(nat, Seq<char>)>)
    requires
        crate::m3u::entries_of(bytes) == Some(entries),
    ensures
        forall|k: int|
            0 <= k < entries.len() ==> {
                &&& (#[trigger] entries[k]).0 >= 1
                &&& entries[k].1.len() > 0
                &&& entries[k].1[0] != '#'
            },
        forall|a: int, b: int|
            0 <= a < b < entries.len() ==> (#[trigger] entries[a]).0 < (#[trigger] entries[b]).0,
{
    lemma_entries(vstd::utf8::decode_utf8(crate::m3u::without_mark(bytes)), 0, 1);
}

/// A byte order mark before a playlist file makes no difference.
pub proof fn law_byte_order_mark_is_ignored(bytes: Seq<u8>)
    requires
        crate::m3u::without_mark(bytes) == bytes,
    ensures
        crate::m3u::entries_of(seq![0xefu8, 0xbbu8, 0xbfu8] + bytes) == crate::m3u::entries_of(
            bytes,
        ),
{
    let marked = seq![0xefu8, 0xbbu8, 0xbfu8] + bytes;
    assert(marked.skip(3) =~= bytes);
}

/// Capital and small letters in a file's extension make no difference.
pub proof fn law_case_of_extensions_is_ignored(a: Seq<u8>, b: Seq<u8>, wanted: Seq<char>)
    requires
        a.len() == b.len(),
        forall|i: int|
            0 <= i < a.len() ==> text::ascii_lower(#[trigger] a[i] as char) == text::ascii_lower(
                b[i] as char,
            ),
    ensures
        crate::path::same_extension(a, wanted) == crate::path::same_extension(b, wanted),
{
    if crate::path::same_extension(a, wanted) {
        assert forall|i: int| 0 <= i < wanted.len() implies text::ascii_lower(
            #[trigger] b[i] as char,
        ) == wanted[i] by {
            assert(text::ascii_lower(a[i] as char) == wanted[i]);
        }
    }
    if crate::path::same_extension(b, wanted) {
        assert forall|i: int| 0 <= i < wanted.len() implies text::ascii_lower(
            #[trigger] a[i] as char,
        ) == wanted[i] by {
            assert(text::ascii_lower(b[i] as char) == wanted[i]);
        }
    }
}

proof fn lemma_last_named(names: Seq<String>, wanted: Seq<char>, n: int)
    requires
        0 <= n <= names.len(),
    ensures
        match crate::source::last_named(names, wanted, n) {
            Some(i) => 0 <= i < n && text::lowered(names[i]@) == wanted,
            None => forall|i: int| 0 <= i < n ==> text::lowered((#[trigger] names[i])@) != wanted,
        },
    decreases n,
{
    if n > 0 {
        lemma_last_named(names, wanted, n - 1);
    }
}

/// Whether the file at index `i` has the name of this rank among those that
/// cover art can have, whatever the capital and small letters.
pub open spec fn is_cover(names: Seq<String>, i: int, rank: int) -> bool {
    text::lowered(names[i]@) == crate::source::cover_names()[rank]
}

proof fn lemma_cover_file(names: Seq<String>, from: int)
    requires
        0 <= from <= crate::source::cover_names().len(),
    ensures
        match crate::source::cover_file(names, from) {
            Some(i) => 0 <= i < names.len() && exists|rank: int|
                from <= rank < crate::source::cover_names().len() && #[trigger] is_cover(
                    names,
                    i,
                    rank,
                ) && forall|j: int, r: int|
                    0 <= j < names.len() && from <= r < rank ==> !#[trigger] is_cover(names, j, r),
            None => forall|j: int, r: int|
                0 <= j < names.len() && from <= r < crate::source::cover_names().len()
                    ==> !#[trigger] is_cover(names, j, r),
        },
    decreases crate::source::cover_names().len() - from,
{
    if from < crate::source::cover_names().len() {
        lemma_last_named(names, crate::source::cover_names()[from], names.len() as int);
        lemma_cover_file(names, from + 1);
        if let Some(i) = crate::source::last_named(
            names,
            crate::source::cover_names()[from],
            names.len() as int,
        ) {
            assert(is_cover(names, i, from));
        } else if let Some(i) = crate::source::cover_file(names, from + 1) {
            let rank = choose|rank: int|
                from + 1 <= rank < crate::source::cover_names().len() && #[trigger] is_cover(
                    names,
                    i,
                    rank,
                ) && forall|j: int, r: int|
                    0 <= j < names.len() && from + 1 <= r < rank ==> !#[trigger] is_cover(
                        names,
                        j,
                        r,
                    );
            assert(is_cover(names, i, rank));
            assert forall|j: int, r: int|
                0 <= j < names.len() && from <= r < rank implies !#[trigger] is_cover(
                names,
                j,
                r,
            ) by {
                if r == from {
                    assert(text::lowered(names[j]@) != crate::source::cover_names()[from]);
                }
            }
        } else {
            assert forall|j: int, r: int|
                0 <= j < names.len() && from <= r < crate::source::cover_names().len() implies !
            #[trigger] is_cover(names, j, r) by {
                if r == from {
                    assert(text::lowered(names[j]@) != crate::source::cover_names()[from]);
                }
            }
        }
    }
}

/// The file with the cover art has the most wanted name that any file has. Where
/// there is none, no file has any of the names.
pub proof fn law_cover_file_has_the_most_wanted_name(names: Seq<String>)
    ensures
        match crate::source::cover_file(names, 0) {
            Some(i) => 0 <= i < names.len() && exists|rank: int|
                0 <= rank < crate::source::cover_names().len() && #[trigger] is_cover(
                    names,
                    i,
                    rank,
                ) && forall|j: int, r: int|
                    0 <= j < names.len() && 0 <= r < rank ==> !#[trigger] is_cover(names, j, r),
            None => forall|j: int, r: int|
                0 <= j < names.len() && 0 <= r < crate::source::cover_names().len()
                    ==> !#[trigger] is_cover(names, j, r),
        },
{
    lemma_cover_file(names, 0);
}

} // verus!
