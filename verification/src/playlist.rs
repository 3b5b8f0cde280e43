//! Local playlists: their names, and the tracks that they list.

use vstd::hash_map::StringHashMap;
use vstd::prelude::*;

use crate::index::PathKeys;
use crate::key::{normalize_playlist_name, Identity, TrackKey};
use crate::m3u::m3u_entries;
use crate::path::{is_mp3, FilePath};
use crate::text;

verus! {

/// A local playlist.
#[derive(Debug)]
pub struct SourcePlaylist {
    pub name: String,
    pub path: FilePath,
    pub tracks: Vec<TrackKey>,
}

/// A playlist file as it was found.
#[derive(Debug)]
pub struct PlaylistFile {
    pub path: FilePath,
    /// Whether the file was asked for, and not just found among the tracks.
    /// Its tracks may then be anywhere.
    pub selected: bool,
    /// What is in the file, or why it could not be read.
    pub contents: Result<Vec<u8>, String>,
    /// For each of its entries, in order, the file that its path, as
    /// [`entry_paths`] gives it, leads to, or why it leads to none.
    pub targets: Vec<Result<FilePath, String>>,
}

/// Why a playlist cannot be used. The texts are paths as they are shown.
#[derive(Debug)]
pub enum PlaylistError {
    NoName { path: String },
    LongName { path: String },
    SameName { first: String, second: String },
    Unreadable { path: String, cause: String },
    NotUtf8 { path: String, cause: String },
    Missing { path: String, line: usize, entry: String, cause: String },
    NotMp3 { path: String, line: usize, target: String },
    Outside { path: String, line: usize, target: String },
}

/// A [`PlaylistError`], as contracts speak of it.
pub enum Fault {
    NoName { path: Seq<char> },
    LongName { path: Seq<char> },
    SameName { first: Seq<char>, second: Seq<char> },
    Unreadable { path: Seq<char>, cause: Seq<char> },
    NotUtf8 { path: Seq<char>, cause: Seq<char> },
    Missing { path: Seq<char>, line: nat, entry: Seq<char>, cause: Seq<char> },
    NotMp3 { path: Seq<char>, line: nat, target: Seq<char> },
    Outside { path: Seq<char>, line: nat, target: Seq<char> },
}

impl View for PlaylistError {
    type V = Fault;

    open spec fn view(&self) -> Fault {
        match *self {
            PlaylistError::NoName { path } => Fault::NoName { path: path@ },
            PlaylistError::LongName { path } => Fault::LongName { path: path@ },
            PlaylistError::SameName { first, second } => Fault::SameName {
                first: first@,
                second: second@,
            },
            PlaylistError::Unreadable { path, cause } => Fault::Unreadable {
                path: path@,
                cause: cause@,
            },
            PlaylistError::NotUtf8 { path, cause } => Fault::NotUtf8 {
                path: path@,
                cause: cause@,
            },
            PlaylistError::Missing { path, line, entry, cause } => Fault::Missing {
                path: path@,
                line: line as nat,
                entry: entry@,
                cause: cause@,
            },
            PlaylistError::NotMp3 { path, line, target } => Fault::NotMp3 {
                path: path@,
                line: line as nat,
                target: target@,
            },
            PlaylistError::Outside { path, line, target } => Fault::Outside {
                path: path@,
                line: line as nat,
                target: target@,
            },
        }
    }
}

/// What is in a [`SourcePlaylist`].
pub struct PlaylistFacts {
    pub name: Seq<char>,
    pub path: Seq<Seq<u8>>,
    pub shown: Seq<char>,
    pub tracks: Seq<Identity>,
}

impl View for SourcePlaylist {
    type V = PlaylistFacts;

    open spec fn view(&self) -> PlaylistFacts {
        PlaylistFacts {
            name: self.name@,
            path: self.path.parts(),
            shown: self.path.shown@,
            tracks: crate::index::identities(self.tracks@),
        }
    }
}

/// The playlists, as contracts speak of them.
pub open spec fn facts_of(playlists: Seq<SourcePlaylist>) -> Seq<PlaylistFacts> {
    playlists.map_values(|playlist: SourcePlaylist| playlist@)
}

/// What some programs put before a playlist's name to sort it first.
pub open spec fn sorting_prefix() -> Seq<char> {
    "000 "@
}

/// Whether the name begins with the sorting prefix.
pub open spec fn has_prefix(name: Seq<char>) -> bool {
    name.len() >= 4 && name.take(4) == sorting_prefix()
}

/// The name without the sorting prefix.
pub open spec fn bare_name(name: Seq<char>) -> Seq<char> {
    if has_prefix(name) {
        name.skip(4)
    } else {
        name
    }
}

/// The name of the playlist in a file: the file's name without its extension
/// and the sorting prefix, where that is UTF-8 and not blank.
pub open spec fn playlist_name(path: FilePath) -> Option<Seq<char>> {
    match path.stem() {
        Some(stem) => if text::is_blank(bare_name(stem)) {
            None
        } else {
            Some(bare_name(stem))
        },
        None => None,
    }
}

/// The first of the first `n` files whose playlist has this name in normal
/// form.
pub open spec fn first_named(files: Seq<PlaylistFile>, n: int, normal: Seq<char>) -> Option<int>
    decreases n,
{
    if n <= 0 {
        None
    } else {
        match first_named(files, n - 1, normal) {
            Some(i) => Some(i),
            None => if playlist_name(files[n - 1].path) matches Some(name)
                && crate::key::normal_name(name) == normal {
                Some(n - 1)
            } else {
                None
            },
        }
    }
}

/// The track that the entry at index `k` of a file stands for.
pub open spec fn entry_track(
    file: PlaylistFile,
    entries: Seq<(nat, Seq<char>)>,
    k: int,
    keys: Seq<(Seq<Seq<u8>>, Identity)>,
) -> Result<Identity, Fault> {
    let (line, entry) = entries[k];
    match file.targets@[k] {
        Err(cause) => Err(
            Fault::Missing { path: file.path.shown@, line, entry, cause: cause@ },
        ),
        Ok(target) => if file.selected && !target.has_extension("mp3"@) {
            Err(Fault::NotMp3 { path: file.path.shown@, line, target: target.shown@ })
        } else {
            match crate::index::key_for(keys, target.parts()) {
                Some(identity) => Ok(identity),
                None => Err(
                    Fault::Outside { path: file.path.shown@, line, target: target.shown@ },
                ),
            }
        },
    }
}

/// The tracks of the first `n` entries of a file, or the first fault.
pub open spec fn entry_tracks(
    file: PlaylistFile,
    entries: Seq<(nat, Seq<char>)>,
    n: int,
    keys: Seq<(Seq<Seq<u8>>, Identity)>,
) -> Result<Seq<Identity>, Fault>
    decreases n,
{
    if n <= 0 {
        Ok(Seq::empty())
    } else {
        match entry_tracks(file, entries, n - 1, keys) {
            Err(fault) => Err(fault),
            Ok(tracks) => match entry_track(file, entries, n - 1, keys) {
                Err(fault) => Err(fault),
                Ok(track) => Ok(tracks.push(track)),
            },
        }
    }
}

/// What is wrong with the contents of a playlist file that is not UTF-8. A byte
/// order mark does not count among them.
pub open spec fn why_not_utf8(bytes: Seq<u8>) -> Seq<char> {
    text::decoding_fault(crate::m3u::without_mark(bytes))
}

/// The playlist in the file at index `n`, or the first fault with it.
pub open spec fn playlist_in(
    files: Seq<PlaylistFile>,
    n: int,
    keys: Seq<(Seq<Seq<u8>>, Identity)>,
) -> Result<PlaylistFacts, Fault> {
    let file = files[n];
    let path = file.path.shown@;
    match playlist_name(file.path) {
        None => Err(Fault::NoName { path }),
        Some(name) => if text::utf16_len(name) > 255 {
            Err(Fault::LongName { path })
        } else if let Some(i) = first_named(files, n, crate::key::normal_name(name)) {
            Err(Fault::SameName { first: files[i].path.shown@, second: path })
        } else {
            match file.contents {
                Err(cause) => Err(Fault::Unreadable { path, cause: cause@ }),
                Ok(bytes) => match crate::m3u::entries_of(bytes@) {
                    None => Err(Fault::NotUtf8 { path, cause: why_not_utf8(bytes@) }),
                    Some(entries) => match entry_tracks(file, entries, entries.len() as int, keys) {
                        Err(fault) => Err(fault),
                        Ok(tracks) => Ok(
                            PlaylistFacts { name, path: file.path.parts(), shown: path, tracks },
                        ),
                    },
                },
            }
        },
    }
}

/// The playlists in the first `n` files, or the first fault with them.
pub open spec fn playlists_in(
    files: Seq<PlaylistFile>,
    n: int,
    keys: Seq<(Seq<Seq<u8>>, Identity)>,
) -> Result<Seq<PlaylistFacts>, Fault>
    decreases n,
{
    if n <= 0 {
        Ok(Seq::empty())
    } else {
        match playlists_in(files, n - 1, keys) {
            Err(fault) => Err(fault),
            Ok(playlists) => match playlist_in(files, n - 1, keys) {
                Err(fault) => Err(fault),
                Ok(playlist) => Ok(playlists.push(playlist)),
            },
        }
    }
}

/// Whether a target is given for each entry of the file.
pub open spec fn is_resolved(file: PlaylistFile) -> bool {
    match file.contents {
        Ok(bytes) => match crate::m3u::entries_of(bytes@) {
            Some(entries) => entries.len() == file.targets@.len(),
            None => true,
        },
        Err(_) => true,
    }
}

/// The paths to follow for the entries of a playlist file: absolute ones, or ones
/// that begin in the directory that the file is in.
pub open spec fn entry_paths_of(path: FilePath, entries: Seq<(nat, Seq<char>)>) -> Seq<
    Seq<Seq<u8>>,
> {
    entries.map_values(
        |entry: (nat, Seq<char>)|
            crate::path::followed_parts(path.parts(), vstd::utf8::encode_utf8(entry.1)),
    )
}

/// The contents of several paths.
pub open spec fn parts_of_all(paths: Seq<Vec<Vec<u8>>>) -> Seq<Seq<Seq<u8>>> {
    paths.map_values(|path: Vec<Vec<u8>>| crate::path::bytes_of(path@))
}

/// The components of the paths to follow for the entries of a playlist file, in
/// order; none where the file is not UTF-8.
pub fn entry_paths(path: &FilePath, contents: &[u8]) -> (paths: Option<Vec<Vec<Vec<u8>>>>)
    ensures
        match crate::m3u::entries_of(contents@) {
            Some(entries) => paths matches Some(p) && parts_of_all(p@) == entry_paths_of(
                *path,
                entries,
            ),
            None => paths is None,
        },
{
    let entries = match m3u_entries(contents) {
        Ok(entries) => entries,
        Err(_) => return None,
    };
    let ghost named = crate::m3u::listed(entries@);
    let mut paths: Vec<Vec<Vec<u8>>> = Vec::new();
    let mut k: usize = 0;
    while k < entries.len()
        invariant
            k <= entries@.len(),
            named == crate::m3u::listed(entries@),
            parts_of_all(paths@) == entry_paths_of(*path, named.take(k as int)),
        decreases entries@.len() - k,
    {
        let ghost before = parts_of_all(paths@);
        let written = path.followed_path(entries[k].text.as_str());
        assert(named[k as int].1 == entries@[k as int].text@);
        paths.push(written);
        assert(parts_of_all(paths@) =~= before.push(crate::path::bytes_of(written@)));
        k += 1;
        assert(named.take(k as int) =~= named.take(k - 1).push(named[k - 1]));
        assert(parts_of_all(paths@) =~= entry_paths_of(*path, named.take(k as int)));
    }
    assert(named.take(k as int) =~= named);
    Some(paths)
}

/// The name without the sorting prefix.
pub fn strip_sorting_prefix(name: &str) -> (bare: String)
    ensures
        bare@ == bare_name(name@),
{
    let chars = text::chars_of(name);
    proof {
        reveal_strlit("000 ");
        assert(has_prefix(name@) <==> name@.len() >= 4 && name@[0] == '0' && name@[1] == '0'
            && name@[2] == '0' && name@[3] == ' ') by {
            if name@.len() >= 4 && name@[0] == '0' && name@[1] == '0' && name@[2] == '0'
                && name@[3] == ' ' {
                assert(name@.take(4) =~= sorting_prefix());
            }
            if has_prefix(name@) {
                assert(name@[0] == name@.take(4)[0]);
                assert(name@[1] == name@.take(4)[1]);
                assert(name@[2] == name@.take(4)[2]);
                assert(name@[3] == name@.take(4)[3]);
            }
        }
    }
    if chars.len() >= 4 && chars[0] == '0' && chars[1] == '0' && chars[2] == '0' && chars[3]
        == ' ' {
        let bare = text::substring(&chars, 4, chars.len());
        assert(bare@ =~= name@.skip(4));
        bare
    } else {
        name.to_owned()
    }
}

fn read_name(path: &FilePath) -> (name: Option<String>)
    ensures
        crate::database::view_of(name) == playlist_name(*path),
{
    match path.file_stem() {
        Some(stem) => {
            let bare = strip_sorting_prefix(stem.as_str());
            if text::blank(bare.as_str()) {
                None
            } else {
                Some(bare)
            }
        },
        None => None,
    }
}

fn read_entries(file: &PlaylistFile, keys_by_path: &PathKeys) -> (tracks: Result<
    Vec<TrackKey>,
    PlaylistError,
>)
    requires
        keys_by_path.wf(),
        is_resolved(*file),
    ensures
        match file.contents {
            Err(cause) => tracks matches Err(e) && e@ == (Fault::Unreadable {
                path: file.path.shown@,
                cause: cause@,
            }),
            Ok(bytes) => match crate::m3u::entries_of(bytes@) {
                None => tracks matches Err(e) && e@ == (Fault::NotUtf8 {
                    path: file.path.shown@,
                    cause: why_not_utf8(bytes@),
                }),
                Some(entries) => match entry_tracks(
                    *file,
                    entries,
                    entries.len() as int,
                    keys_by_path@,
                ) {
                    Err(fault) => tracks matches Err(e) && e@ == fault,
                    Ok(found) => tracks matches Ok(t) && crate::index::identities(t@) == found,
                },
            },
        },
{
    let bytes = match &file.contents {
        Ok(bytes) => bytes,
        Err(cause) => return Err(
            PlaylistError::Unreadable { path: file.path.shown.clone(), cause: cause.clone() },
        ),
    };
    let entries = match m3u_entries(bytes.as_slice()) {
        Ok(entries) => entries,
        Err(cause) => return Err(
            PlaylistError::NotUtf8 { path: file.path.shown.clone(), cause },
        ),
    };
    let ghost named = crate::m3u::listed(entries@);
    let ghost keys = keys_by_path@;
    let mut tracks: Vec<TrackKey> = Vec::new();
    assert(crate::index::identities(tracks@) =~= Seq::empty());
    let mut k: usize = 0;
    while k < entries.len()
        invariant
            k <= entries@.len(),
            keys_by_path.wf(),
            keys == keys_by_path@,
            named == crate::m3u::listed(entries@),
            file.contents == Ok::<Vec<u8>, String>(*bytes),
            crate::m3u::entries_of(bytes@) == Some(named),
            named.len() == file.targets@.len(),
            entry_tracks(*file, named, k as int, keys) == Ok::<Seq<Identity>, Fault>(
                crate::index::identities(tracks@),
            ),
        decreases entries@.len() - k,
    {
        let entry = &entries[k];
        let ghost before = crate::index::identities(tracks@);
        assert(named[k as int] == (entry.line as nat, entry.text@));
        proof {
            if entry_track(*file, named, k as int, keys) is Err {
                lemma_first_fault(*file, named, k + 1, keys);
            }
        }
        match &file.targets[k] {
            Err(cause) => {
                return Err(
                    PlaylistError::Missing {
                        path: file.path.shown.clone(),
                        line: entry.line,
                        entry: entry.text.clone(),
                        cause: cause.clone(),
                    },
                );
            },
            Ok(target) => {
                if file.selected && !is_mp3(target) {
                    return Err(
                        PlaylistError::NotMp3 {
                            path: file.path.shown.clone(),
                            line: entry.line,
                            target: target.shown.clone(),
                        },
                    );
                }
                match keys_by_path.get(target) {
                    Some(key) => {
                        tracks.push(key.clone());
                        assert(crate::index::identities(tracks@) =~= before.push(key@));
                    },
                    None => {
                        return Err(
                            PlaylistError::Outside {
                                path: file.path.shown.clone(),
                                line: entry.line,
                                target: target.shown.clone(),
                            },
                        );
                    },
                }
            },
        }
        k += 1;
    }
    Ok(tracks)
}

/// A fault with one of the first entries is the fault with all of them.
proof fn lemma_first_fault(
    file: PlaylistFile,
    entries: Seq<(nat, Seq<char>)>,
    n: int,
    keys: Seq<(Seq<Seq<u8>>, Identity)>,
)
    requires
        0 <= n <= entries.len(),
        entry_tracks(file, entries, n, keys) is Err,
    ensures
        entry_tracks(file, entries, entries.len() as int, keys) == entry_tracks(
            file,
            entries,
            n,
            keys,
        ),
    decreases entries.len() - n,
{
    if n < entries.len() {
        lemma_first_fault(file, entries, n + 1, keys);
    }
}

/// A fault with one of the first files is the fault with all of them.
proof fn lemma_first_bad_file(
    files: Seq<PlaylistFile>,
    n: int,
    keys: Seq<(Seq<Seq<u8>>, Identity)>,
)
    requires
        0 <= n <= files.len(),
        playlists_in(files, n, keys) is Err,
    ensures
        playlists_in(files, files.len() as int, keys) == playlists_in(files, n, keys),
    decreases files.len() - n,
{
    if n < files.len() {
        lemma_first_bad_file(files, n + 1, keys);
    }
}

/// Reads the playlists in these files, given the keys of the local tracks.
pub fn read_source_playlists(files: &Vec<PlaylistFile>, keys_by_path: &PathKeys) -> (read: Result<
    Vec<SourcePlaylist>,
    PlaylistError,
>)
    requires
        keys_by_path.wf(),
        forall|i: int| 0 <= i < files@.len() ==> is_resolved(#[trigger] files@[i]),
    ensures
        match playlists_in(files@, files@.len() as int, keys_by_path@) {
            Ok(playlists) => read matches Ok(r) && facts_of(r@) == playlists,
            Err(fault) => read matches Err(e) && e@ == fault,
        },
{
    let ghost keys = keys_by_path@;
    let mut seen: StringHashMap<usize> = StringHashMap::new();
    let mut playlists: Vec<SourcePlaylist> = Vec::new();
    assert(facts_of(playlists@) =~= Seq::empty());
    let mut n: usize = 0;
    while n < files.len()
        invariant
            n <= files@.len(),
            keys_by_path.wf(),
            keys == keys_by_path@,
            forall|i: int| 0 <= i < files@.len() ==> is_resolved(#[trigger] files@[i]),
            playlists_in(files@, n as int, keys) == Ok::<Seq<PlaylistFacts>, Fault>(
                facts_of(playlists@),
            ),
            forall|normal: Seq<char>| #[trigger]
                seen@.contains_key(normal) ==> first_named(files@, n as int, normal) == Some(
                    seen@[normal] as int,
                ) && seen@[normal] < n,
            forall|normal: Seq<char>|
                !#[trigger] seen@.contains_key(normal) ==> first_named(files@, n as int, normal)
                    is None,
        decreases files@.len() - n,
    {
        let file = &files[n];
        let ghost before = facts_of(playlists@);
        proof {
            if playlist_in(files@, n as int, keys) is Err {
                lemma_first_bad_file(files@, n + 1, keys);
            }
        }
        let name = match read_name(&file.path) {
            Some(name) => name,
            None => return Err(PlaylistError::NoName { path: file.path.shown.clone() }),
        };
        if text::exceeds_utf16(name.as_str(), 255) {
            return Err(PlaylistError::LongName { path: file.path.shown.clone() });
        }
        let normal = normalize_playlist_name(name.as_str());
        if let Some(previous) = seen.get(normal.as_str()) {
            return Err(
                PlaylistError::SameName {
                    first: files[*previous].path.shown.clone(),
                    second: file.path.shown.clone(),
                },
            );
        }
        let ghost held = seen@;
        seen.insert(normal, n);
        let tracks = match read_entries(file, keys_by_path) {
            Ok(tracks) => tracks,
            Err(e) => return Err(e),
        };
        let playlist = SourcePlaylist { name, path: file.path.clone(), tracks };
        assert(playlist_in(files@, n as int, keys) == Ok::<PlaylistFacts, Fault>(playlist@));
        playlists.push(playlist);
        assert(facts_of(playlists@) =~= before.push(playlist@));
        assert forall|other: Seq<char>| #[trigger] seen@.contains_key(other) implies first_named(
            files@,
            n + 1,
            other,
        ) == Some(seen@[other] as int) && seen@[other] < n + 1 by {
            if other != normal@ {
                assert(held.contains_key(other));
            } else {
                assert(!held.contains_key(other));
            }
        }
        assert forall|other: Seq<char>| !#[trigger] seen@.contains_key(other) implies first_named(
            files@,
            n + 1,
            other,
        ) is None by {
            assert(!held.contains_key(other));
        }
        n += 1;
    }
    Ok(playlists)
}

} // verus!
