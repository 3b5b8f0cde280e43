//! What the user is told.

use vstd::prelude::*;

use crate::database::{DatabaseError, Playlist, Track};
use crate::plan::{PlaylistPlan, PlaylistUpdate};
use crate::playlist::{PlaylistError, SourcePlaylist};
use crate::setup::SetupError;
use crate::source::SourceTrack;
use crate::sync::{ignores_artwork, PlaylistSyncError, StepError, SyncPlan, SyncStep};
use crate::text;

verus! {

/// The contents of the lines.
pub open spec fn texts(lines: Seq<String>) -> Seq<Seq<char>> {
    lines.map_values(|line: String| line@)
}

proof fn lemma_next_line(lines: Seq<String>, line: String, all: Seq<Seq<char>>, n: int)
    requires
        0 <= n < all.len(),
        texts(lines) == all.take(n),
        line@ == all[n],
    ensures
        texts(lines.push(line)) == all.take(n + 1),
{
    assert(texts(lines.push(line)) =~= texts(lines).push(line@));
    assert(all.take(n + 1) =~= all.take(n).push(all[n]));
}

/// A recording and where it is or comes from.
pub open spec fn labelled(artist: Seq<char>, title: Seq<char>, place: Seq<char>) -> Seq<char> {
    artist + " — "@ + title + " ("@ + place + ")"@
}

fn label(artist: &str, title: &str, place: &str) -> (line: String)
    ensures
        line@ == labelled(artist@, title@, place@),
{
    let mut line = artist.to_owned();
    line.append(" — ");
    line.append(title);
    line.append(" (");
    line.append(place);
    line.append(")");
    line
}

/// What a track on the device is called: by its tags, or else by its file.
pub open spec fn existing_label(track: Track) -> Seq<char> {
    labelled(
        if track.artist@.len() == 0 {
            "Unknown Artist"@
        } else {
            track.artist@
        },
        if track.title@.len() == 0 {
            match track.path.stem() {
                Some(stem) => stem,
                None => "Unknown Title"@,
            }
        } else {
            track.title@
        },
        track.path.shown@,
    )
}

/// What a track on the device is called.
pub fn describe_existing(track: &Track) -> (line: String)
    ensures
        line@ == existing_label(*track),
{
    let artist: &str = if track.artist.as_str().is_empty() {
        "Unknown Artist"
    } else {
        track.artist.as_str()
    };
    let title: String = if track.title.as_str().is_empty() {
        match track.path.file_stem() {
            Some(stem) => stem,
            None => "Unknown Title".to_owned(),
        }
    } else {
        track.title.clone()
    };
    label(artist, title.as_str(), track.path.shown.as_str())
}

/// What a local track is called.
pub open spec fn source_label(source: SourceTrack) -> Seq<char> {
    labelled(source.metadata.artist@, source.metadata.title@, source.path.shown@)
}

/// What a local track is called.
pub fn describe_source(source: &SourceTrack) -> (line: String)
    ensures
        line@ == source_label(*source),
{
    label(
        source.metadata.artist.as_str(),
        source.metadata.title.as_str(),
        source.path.shown.as_str(),
    )
}

/// What a local track and the origin of its cover art are called.
pub open spec fn artwork_label(source: SourceTrack) -> Seq<char> {
    labelled(
        source.metadata.artist@,
        source.metadata.title@,
        source.artwork->Some_0.source@,
    )
}

/// What a local track and the origin of its cover art are called.
pub fn describe_artwork(source: &SourceTrack) -> (line: String)
    requires
        source.artwork is Some,
    ensures
        line@ == artwork_label(*source),
{
    match &source.artwork {
        Some(artwork) => label(
            source.metadata.artist.as_str(),
            source.metadata.title.as_str(),
            artwork.source.as_str(),
        ),
        None => String::new(),
    }
}

/// A removal: where the file was gone already, it says so.
pub open spec fn removal_label(track: Track) -> Seq<char> {
    if track.media_missing {
        "missing media: "@ + existing_label(track)
    } else {
        existing_label(track)
    }
}

/// A removal, for the user.
pub fn describe_removal(track: &Track) -> (line: String)
    ensures
        line@ == removal_label(*track),
{
    let label = describe_existing(track);
    if track.media_missing {
        let mut line = "missing media: ".to_owned();
        line.append(label.as_str());
        line
    } else {
        label
    }
}

/// The lines for a plan: removals, additions, cover art.
pub open spec fn plan_lines(plan: SyncPlan) -> Seq<Seq<char>> {
    plan.deleted@.map_values(|track: &Track| "- "@ + removal_label(*track))
        + plan.copied@.map_values(|source: &SourceTrack| "+ "@ + source_label(*source))
        + plan.artwork_updates@.map_values(
        |i: usize| "~ artwork: "@ + artwork_label(*plan.kept@[i as int].source),
    )
}

/// The lines for a plan.
pub fn print_plan(plan: &SyncPlan<'_>) -> (lines: Vec<String>)
    requires
        plan.wf(),
    ensures
        texts(lines@) == plan_lines(*plan),
{
    let ghost all = plan_lines(*plan);
    let mut lines: Vec<String> = Vec::new();
    let mut i: usize = 0;
    assert(texts(lines@) =~= all.take(0));
    while i < plan.deleted.len()
        invariant
            i <= plan.deleted@.len(),
            all == plan_lines(*plan),
            texts(lines@) == all.take(i as int),
        decreases plan.deleted@.len() - i,
    {
        let mut line = "- ".to_owned();
        line.append(describe_removal(plan.deleted[i]).as_str());
        proof {
            assert(all[i as int] == line@);
            lemma_next_line(lines@, line, all, i as int);
        }
        lines.push(line);
        i += 1;
    }
    let ghost base = plan.deleted@.len() as int;
    let mut i: usize = 0;
    while i < plan.copied.len()
        invariant
            i <= plan.copied@.len(),
            base == plan.deleted@.len(),
            all == plan_lines(*plan),
            texts(lines@) == all.take(base + i),
        decreases plan.copied@.len() - i,
    {
        let mut line = "+ ".to_owned();
        line.append(describe_source(plan.copied[i]).as_str());
        proof {
            assert(all[base + i] == line@);
            lemma_next_line(lines@, line, all, base + i);
        }
        lines.push(line);
        i += 1;
    }
    let ghost base = (plan.deleted@.len() + plan.copied@.len()) as int;
    let mut i: usize = 0;
    while i < plan.artwork_updates.len()
        invariant
            i <= plan.artwork_updates@.len(),
            base == plan.deleted@.len() + plan.copied@.len(),
            all == plan_lines(*plan),
            texts(lines@) == all.take(base + i),
            plan.wf(),
        decreases plan.artwork_updates@.len() - i,
    {
        let at: usize = plan.artwork_updates[i];
        let mut line = "~ artwork: ".to_owned();
        line.append(describe_artwork(plan.kept[at].source).as_str());
        proof {
            assert(all[base + i] == line@);
            lemma_next_line(lines@, line, all, base + i);
        }
        lines.push(line);
        i += 1;
    }
    assert(all.take(all.len() as int) =~= all);
    lines
}

/// A playlist and its file, after a mark.
pub open spec fn playlist_line(mark: Seq<char>, source: SourcePlaylist) -> Seq<char> {
    mark + source.name@ + " ("@ + source.path.shown@ + ")"@
}

fn write_playlist_line(mark: &str, source: &SourcePlaylist) -> (line: String)
    ensures
        line@ == playlist_line(mark@, *source),
{
    let mut line = mark.to_owned();
    line.append(source.name.as_str());
    line.append(" (");
    line.append(source.path.shown.as_str());
    line.append(")");
    line
}

/// The lines for a playlist plan, each after its mark: creations, updates,
/// deletions.
pub open spec fn playlist_plan_lines(
    plan: PlaylistPlan,
    creation: Seq<char>,
    update: Seq<char>,
    deletion: Seq<char>,
) -> Seq<Seq<char>> {
    plan.created@.map_values(|source: &SourcePlaylist| playlist_line(creation, *source))
        + plan.updated@.map_values(|entry: PlaylistUpdate| playlist_line(update, *entry.source))
        + plan.obsolete@.map_values(|playlist: &Playlist| deletion + playlist.name@)
}

fn write_playlist_lines(
    plan: &PlaylistPlan<'_>,
    creation: &str,
    update: &str,
    deletion: &str,
) -> (lines: Vec<String>)
    ensures
        texts(lines@) == playlist_plan_lines(*plan, creation@, update@, deletion@),
{
    let ghost all = playlist_plan_lines(*plan, creation@, update@, deletion@);
    let mut lines: Vec<String> = Vec::new();
    let mut i: usize = 0;
    assert(texts(lines@) =~= all.take(0));
    while i < plan.created.len()
        invariant
            i <= plan.created@.len(),
            all == playlist_plan_lines(*plan, creation@, update@, deletion@),
            texts(lines@) == all.take(i as int),
        decreases plan.created@.len() - i,
    {
        let line = write_playlist_line(creation, plan.created[i]);
        proof {
            assert(all[i as int] == line@);
            lemma_next_line(lines@, line, all, i as int);
        }
        lines.push(line);
        i += 1;
    }
    let ghost base = plan.created@.len() as int;
    let mut i: usize = 0;
    while i < plan.updated.len()
        invariant
            i <= plan.updated@.len(),
            base == plan.created@.len(),
            all == playlist_plan_lines(*plan, creation@, update@, deletion@),
            texts(lines@) == all.take(base + i),
        decreases plan.updated@.len() - i,
    {
        let line = write_playlist_line(update, plan.updated[i].source);
        proof {
            assert(all[base + i] == line@);
            lemma_next_line(lines@, line, all, base + i);
        }
        lines.push(line);
        i += 1;
    }
    let ghost base = (plan.created@.len() + plan.updated@.len()) as int;
    let mut i: usize = 0;
    while i < plan.obsolete.len()
        invariant
            i <= plan.obsolete@.len(),
            base == plan.created@.len() + plan.updated@.len(),
            all == playlist_plan_lines(*plan, creation@, update@, deletion@),
            texts(lines@) == all.take(base + i),
        decreases plan.obsolete@.len() - i,
    {
        let mut line = deletion.to_owned();
        line.append(plan.obsolete[i].name.as_str());
        proof {
            assert(all[base + i] == line@);
            lemma_next_line(lines@, line, all, base + i);
        }
        lines.push(line);
        i += 1;
    }
    assert(all.take(all.len() as int) =~= all);
    lines
}

/// The lines for a playlist plan.
pub fn print_playlist_plan(plan: &PlaylistPlan<'_>) -> (lines: Vec<String>)
    ensures
        texts(lines@) == playlist_plan_lines(
            *plan,
            "+ playlist: "@,
            "~ playlist: "@,
            "- playlist: "@,
        ),
{
    write_playlist_lines(plan, "+ playlist: ", "~ playlist: ", "- playlist: ")
}

/// The lines for a playlist plan that is being carried out.
pub fn print_playlist_changes(plan: &PlaylistPlan<'_>) -> (lines: Vec<String>)
    ensures
        texts(lines@) == playlist_plan_lines(*plan, "PLAYLIST + "@, "PLAYLIST ~ "@, "PLAYLIST - "@),
{
    write_playlist_lines(plan, "PLAYLIST + ", "PLAYLIST ~ ", "PLAYLIST - ")
}

/// A [`DatabaseError`] for the user.
pub open spec fn database_error_text(error: DatabaseError) -> Seq<char> {
    match error {
        DatabaseError::NoReadAdapter =>
            "libopod does not yet have a read adapter for this device profile"@,
        DatabaseError::Audit(cause) => "audit iPod media references: "@ + cause@,
        DatabaseError::NoLibrary => "libopod has no readable library for this device"@,
        DatabaseError::TrackPath(cause) => cause@,
        DatabaseError::TrackAbsent => "track is not present in the opened library"@,
        DatabaseError::NotAFile(path) => "track source is not a regular file: "@ + path@,
        DatabaseError::EmptyPlaylistName => "playlist name must not be empty"@,
        DatabaseError::PlaylistNotUpdatable =>
            "playlist is absent, hidden, or smart and cannot be updated"@,
        DatabaseError::PlaylistNotDeletable =>
            "playlist is absent, hidden, or smart and cannot be deleted"@,
        DatabaseError::NoSession(cause) => "libopod could not start an edit session: "@ + cause@,
    }
}

impl DatabaseError {
    /// The error for the user.
    pub fn message(&self) -> (message: String)
        ensures
            message@ == database_error_text(*self),
    {
        match self {
            DatabaseError::NoReadAdapter => {
                "libopod does not yet have a read adapter for this device profile".to_owned()
            },
            DatabaseError::Audit(cause) => {
                let mut message = "audit iPod media references: ".to_owned();
                message.append(cause.as_str());
                message
            },
            DatabaseError::NoLibrary => {
                "libopod has no readable library for this device".to_owned()
            },
            DatabaseError::TrackPath(cause) => cause.clone(),
            DatabaseError::TrackAbsent => "track is not present in the opened library".to_owned(),
            DatabaseError::NotAFile(path) => {
                let mut message = "track source is not a regular file: ".to_owned();
                message.append(path.as_str());
                message
            },
            DatabaseError::EmptyPlaylistName => "playlist name must not be empty".to_owned(),
            DatabaseError::PlaylistNotUpdatable => {
                "playlist is absent, hidden, or smart and cannot be updated".to_owned()
            },
            DatabaseError::PlaylistNotDeletable => {
                "playlist is absent, hidden, or smart and cannot be deleted".to_owned()
            },
            DatabaseError::NoSession(cause) => {
                let mut message = "libopod could not start an edit session: ".to_owned();
                message.append(cause.as_str());
                message
            },
        }
    }
}

/// A [`PlaylistError`] for the user.
pub open spec fn playlist_error_text(error: PlaylistError) -> Seq<char> {
    match error {
        PlaylistError::NoName { path } => "playlist has no valid UTF-8 name: "@ + path@,
        PlaylistError::LongName { path } => "playlist name exceeds 255 UTF-16 code units: "@
            + path@,
        PlaylistError::SameName { first, second } =>
            "M3U playlists must have unique names (case-insensitive): "@ + first@ + " and "@
            + second@,
        PlaylistError::Unreadable { path, cause } => "could not read M3U playlist: "@ + path@
            + ": "@ + cause@,
        PlaylistError::NotUtf8 { path, cause } => "M3U playlist is not UTF-8: "@ + path@ + ": "@
            + cause@,
        PlaylistError::Missing { path, line, entry, cause } => path@ + ":"@
            + text::decimal(line as nat) + " references a missing track: "@ + entry@ + ": "@
            + cause@,
        PlaylistError::NotMp3 { path, line, target } => path@ + ":"@ + text::decimal(line as nat)
            + " references a file that is not an MP3: "@ + target@,
        PlaylistError::Outside { path, line, target } => path@ + ":"@ + text::decimal(line as nat)
            + " references a track outside the supplied MP3 libraries: "@ + target@,
    }
}

impl PlaylistError {
    /// The error for the user.
    pub fn message(&self) -> (message: String)
        ensures
            message@ == playlist_error_text(*self),
    {
        match self {
            PlaylistError::NoName { path } => {
                let mut message = "playlist has no valid UTF-8 name: ".to_owned();
                message.append(path.as_str());
                message
            },
            PlaylistError::LongName { path } => {
                let mut message = "playlist name exceeds 255 UTF-16 code units: ".to_owned();
                message.append(path.as_str());
                message
            },
            PlaylistError::SameName { first, second } => {
                let mut message = "M3U playlists must have unique names (case-insensitive): ".to_owned();
                message.append(first.as_str());
                message.append(" and ");
                message.append(second.as_str());
                message
            },
            PlaylistError::Unreadable { path, cause } => {
                let mut message = "could not read M3U playlist: ".to_owned();
                message.append(path.as_str());
                message.append(": ");
                message.append(cause.as_str());
                message
            },
            PlaylistError::NotUtf8 { path, cause } => {
                let mut message = "M3U playlist is not UTF-8: ".to_owned();
                message.append(path.as_str());
                message.append(": ");
                message.append(cause.as_str());
                message
            },
            PlaylistError::Missing { path, line, entry, cause } => {
                let mut message = path.as_str().to_owned();
                message.append(":");
                message.append(text::number(*line as u64).as_str());
                message.append(" references a missing track: ");
                message.append(entry.as_str());
                message.append(": ");
                message.append(cause.as_str());
                message
            },
            PlaylistError::NotMp3 { path, line, target } => {
                let mut message = path.as_str().to_owned();
                message.append(":");
                message.append(text::number(*line as u64).as_str());
                message.append(" references a file that is not an MP3: ");
                message.append(target.as_str());
                message
            },
            PlaylistError::Outside { path, line, target } => {
                let mut message = path.as_str().to_owned();
                message.append(":");
                message.append(text::number(*line as u64).as_str());
                message.append(" references a track outside the supplied MP3 libraries: ");
                message.append(target.as_str());
                message
            },
        }
    }
}

/// A [`SetupError`] for the user.
pub open spec fn setup_error_text(error: SetupError) -> Seq<char> {
    match error {
        SetupError::NoSource => "at least one library or playlist is required"@,
        SetupError::LibraryMissing { path, cause } => "library does not exist: "@ + path@ + ": "@
            + cause@,
        SetupError::LibraryNotDirectory { path } => "library is not a directory: "@ + path@,
        SetupError::PlaylistMissing { path, cause } => "playlist does not exist: "@ + path@ + ": "@
            + cause@,
        SetupError::PlaylistUnknown { path } =>
            "playlist is neither a directory nor an M3U file: "@ + path@,
        SetupError::IpodMissing { path, cause } => "iPod mount point does not exist: "@ + path@
            + ": "@ + cause@,
        SetupError::IpodNotDirectory { path } => "iPod mount point is not a directory: "@ + path@,
        SetupError::NoControlDirectory { path } => path@
            + " has no iPod_Control directory; pass the mounted iPod root, not /dev/sdX"@,
        SetupError::NoFirewireGuid { path } =>
            "this iPod requires a FireWire GUID, but none was found in SysInfo or SysInfoExtended\nInitialize it, then rerun copyPod:\n  sudo ipod-read-sysinfo-extended /dev/sdX "@
            + path@,
        SetupError::PlaylistsUnsupported { count } => text::decimal(count as nat)
            + " M3U playlist(s) were found, but libopod does not support playlist writes for this iPod profile"@,
        SetupError::RecoveryDeclined => "an interrupted transaction was found and not recovered"@,
    }
}

impl SetupError {
    /// The error for the user.
    pub fn message(&self) -> (message: String)
        ensures
            message@ == setup_error_text(*self),
    {
        match self {
            SetupError::NoSource => "at least one library or playlist is required".to_owned(),
            SetupError::LibraryMissing { path, cause } => {
                let mut message = "library does not exist: ".to_owned();
                message.append(path.as_str());
                message.append(": ");
                message.append(cause.as_str());
                message
            },
            SetupError::LibraryNotDirectory { path } => {
                let mut message = "library is not a directory: ".to_owned();
                message.append(path.as_str());
                message
            },
            SetupError::PlaylistMissing { path, cause } => {
                let mut message = "playlist does not exist: ".to_owned();
                message.append(path.as_str());
                message.append(": ");
                message.append(cause.as_str());
                message
            },
            SetupError::PlaylistUnknown { path } => {
                let mut message = "playlist is neither a directory nor an M3U file: ".to_owned();
                message.append(path.as_str());
                message
            },
            SetupError::IpodMissing { path, cause } => {
                let mut message = "iPod mount point does not exist: ".to_owned();
                message.append(path.as_str());
                message.append(": ");
                message.append(cause.as_str());
                message
            },
            SetupError::IpodNotDirectory { path } => {
                let mut message = "iPod mount point is not a directory: ".to_owned();
                message.append(path.as_str());
                message
            },
            SetupError::NoControlDirectory { path } => {
                let mut message = path.as_str().to_owned();
                message.append(
                    " has no iPod_Control directory; pass the mounted iPod root, not /dev/sdX",
                );
                message
            },
            SetupError::NoFirewireGuid { path } => {
                let mut message = "this iPod requires a FireWire GUID, but none was found in SysInfo or SysInfoExtended\nInitialize it, then rerun copyPod:\n  sudo ipod-read-sysinfo-extended /dev/sdX ".to_owned();
                message.append(path.as_str());
                message
            },
            SetupError::PlaylistsUnsupported { count } => {
                let mut message = text::number(*count as u64).as_str().to_owned();
                message.append(
                    " M3U playlist(s) were found, but libopod does not support playlist writes for this iPod profile",
                );
                message
            },
            SetupError::RecoveryDeclined => {
                "an interrupted transaction was found and not recovered".to_owned()
            },
        }
    }
}

/// A [`PlaylistSyncError`] for the user.
pub open spec fn playlist_sync_error_text(error: PlaylistSyncError) -> Seq<char> {
    match error {
        PlaylistSyncError::NotSynchronized { path } => "playlist "@ + path@
            + " contains a track that was not synchronized"@,
        PlaylistSyncError::Create { name, cause } => "failed to create playlist "@ + name@ + ": "@
            + database_error_text(cause),
        PlaylistSyncError::Update { name, cause } => "failed to update playlist "@ + name@ + ": "@
            + database_error_text(cause),
        PlaylistSyncError::Delete { name, cause } => "failed to delete playlist "@ + name@ + ": "@
            + database_error_text(cause),
    }
}

impl PlaylistSyncError {
    /// The error for the user.
    pub fn message(&self) -> (message: String)
        ensures
            message@ == playlist_sync_error_text(*self),
    {
        match self {
            PlaylistSyncError::NotSynchronized { path } => {
                let mut message = "playlist ".to_owned();
                message.append(path.as_str());
                message.append(" contains a track that was not synchronized");
                message
            },
            PlaylistSyncError::Create { name, cause } => {
                let mut message = "failed to create playlist ".to_owned();
                message.append(name.as_str());
                message.append(": ");
                message.append(cause.message().as_str());
                message
            },
            PlaylistSyncError::Update { name, cause } => {
                let mut message = "failed to update playlist ".to_owned();
                message.append(name.as_str());
                message.append(": ");
                message.append(cause.message().as_str());
                message
            },
            PlaylistSyncError::Delete { name, cause } => {
                let mut message = "failed to delete playlist ".to_owned();
                message.append(name.as_str());
                message.append(": ");
                message.append(cause.message().as_str());
                message
            },
        }
    }
}

/// How many tracks and playlists a plan puts where.
#[derive(Clone, Copy, Debug)]
pub struct SyncCounts {
    pub kept: usize,
    pub deleted: usize,
    pub copied: usize,
    pub artwork: usize,
    pub playlists_kept: usize,
    pub playlists_created: usize,
    pub playlists_updated: usize,
    pub playlists_deleted: usize,
}

/// Whether these are the numbers of tracks and playlists in the plans.
pub open spec fn are_counted(
    plan: SyncPlan,
    playlists: PlaylistPlan,
    counts: SyncCounts,
) -> bool {
    &&& counts.kept == plan.kept@.len()
    &&& counts.deleted == plan.deleted@.len()
    &&& counts.copied == plan.copied@.len()
    &&& counts.artwork == plan.artwork_updates@.len()
    &&& counts.playlists_kept == playlists.kept@.len()
    &&& counts.playlists_created == playlists.created@.len()
    &&& counts.playlists_updated == playlists.updated@.len()
    &&& counts.playlists_deleted == playlists.obsolete@.len()
}

/// How many tracks and playlists the plans put where.
pub fn count_plans(plan: &SyncPlan<'_>, playlists: &PlaylistPlan<'_>) -> (counts: SyncCounts)
    ensures
        are_counted(*plan, *playlists, counts),
{
    SyncCounts {
        kept: plan.kept.len(),
        deleted: plan.deleted.len(),
        copied: plan.copied.len(),
        artwork: plan.artwork_updates.len(),
        playlists_kept: playlists.kept.len(),
        playlists_created: playlists.created.len(),
        playlists_updated: playlists.updated.len(),
        playlists_deleted: playlists.obsolete.len(),
    }
}

/// What is looked through; playlists are mentioned where some were given.
pub open spec fn scanning_text(libraries: nat, playlists: nat) -> Seq<char> {
    "Scanning "@ + text::decimal(libraries) + " source folder(s)"@ + if playlists == 0 {
        Seq::empty()
    } else {
        " and "@ + text::decimal(playlists) + " playlist source(s)"@
    } + "…"@
}

/// What is looked through, for the user.
pub fn scanning_notice(libraries: usize, playlists: usize) -> (line: String)
    ensures
        line@ == scanning_text(libraries as nat, playlists as nat),
{
    let mut line = "Scanning ".to_owned();
    line.append(text::number(libraries as u64).as_str());
    line.append(" source folder(s)");
    let mut note = String::new();
    if playlists > 0 {
        note.append(" and ");
        note.append(text::number(playlists as u64).as_str());
        note.append(" playlist source(s)");
    }
    assert(playlists > 0 ==> note@ =~= " and "@ + text::decimal(playlists as nat)
        + " playlist source(s)"@);
    line.append(note.as_str());
    line.append("…");
    line
}

/// What was found; repetitions are mentioned where there were any.
pub open spec fn found_text(tracks: nat, duplicates: nat, playlists: nat) -> Seq<char> {
    "Found "@ + text::decimal(tracks) + " unique MP3 file(s)"@ + if duplicates == 0 {
        Seq::empty()
    } else {
        " ("@ + text::decimal(duplicates) + " duplicate(s) ignored)"@
    } + " and "@ + text::decimal(playlists) + " M3U playlist(s)."@
}

/// What was found, for the user.
pub fn found_summary(tracks: usize, duplicates: usize, playlists: usize) -> (line: String)
    ensures
        line@ == found_text(tracks as nat, duplicates as nat, playlists as nat),
{
    let mut line = "Found ".to_owned();
    line.append(text::number(tracks as u64).as_str());
    line.append(" unique MP3 file(s)");
    let mut note = String::new();
    if duplicates > 0 {
        note.append(" (");
        note.append(text::number(duplicates as u64).as_str());
        note.append(" duplicate(s) ignored)");
    }
    assert(duplicates > 0 ==> note@ =~= " ("@ + text::decimal(duplicates as nat)
        + " duplicate(s) ignored)"@);
    line.append(note.as_str());
    line.append(" and ");
    line.append(text::number(playlists as u64).as_str());
    line.append(" M3U playlist(s).");
    line
}

/// The deletions of playlists, where there are any.
pub open spec fn deletions_note(verb: Seq<char>, count: nat) -> Seq<char> {
    if count == 0 {
        Seq::empty()
    } else {
        verb + text::decimal(count)
    }
}

fn write_deletions_note(verb: &str, count: usize) -> (note: String)
    ensures
        note@ == deletions_note(verb@, count as nat),
{
    let mut note = String::new();
    if count > 0 {
        note.append(verb);
        note.append(text::number(count as u64).as_str());
        assert(note@ =~= verb@ + text::decimal(count as nat));
    }
    note
}

/// What a plan comes to.
pub open spec fn plan_text(counts: SyncCounts) -> Seq<char> {
    "Plan: keep "@ + text::decimal(counts.kept as nat) + ", delete "@ + text::decimal(
        counts.deleted as nat,
    ) + ", copy "@ + text::decimal(counts.copied as nat) + ", add artwork to "@ + text::decimal(
        counts.artwork as nat,
    ) + "; keep "@ + text::decimal(counts.playlists_kept as nat) + " playlist(s), create "@
        + text::decimal(counts.playlists_created as nat) + ", update "@ + text::decimal(
        counts.playlists_updated as nat,
    ) + deletions_note(", delete "@, counts.playlists_deleted as nat) + "."@
}

/// What a plan comes to, for the user.
pub fn plan_summary(counts: SyncCounts) -> (line: String)
    ensures
        line@ == plan_text(counts),
{
    let mut line = "Plan: keep ".to_owned();
    line.append(text::number(counts.kept as u64).as_str());
    line.append(", delete ");
    line.append(text::number(counts.deleted as u64).as_str());
    line.append(", copy ");
    line.append(text::number(counts.copied as u64).as_str());
    line.append(", add artwork to ");
    line.append(text::number(counts.artwork as u64).as_str());
    line.append("; keep ");
    line.append(text::number(counts.playlists_kept as u64).as_str());
    line.append(" playlist(s), create ");
    line.append(text::number(counts.playlists_created as u64).as_str());
    line.append(", update ");
    line.append(text::number(counts.playlists_updated as u64).as_str());
    line.append(write_deletions_note(", delete ", counts.playlists_deleted).as_str());
    line.append(".");
    line
}

/// What a synchronization came to.
pub open spec fn done_text(counts: SyncCounts) -> Seq<char> {
    "Done: kept "@ + text::decimal(counts.kept as nat) + ", deleted "@ + text::decimal(
        counts.deleted as nat,
    ) + ", copied "@ + text::decimal(counts.copied as nat) + ", added artwork to "@ + text::decimal(
        counts.artwork as nat,
    ) + "; created "@ + text::decimal(counts.playlists_created as nat) + " playlist(s), updated "@
        + text::decimal(counts.playlists_updated as nat) + deletions_note(
        ", deleted "@,
        counts.playlists_deleted as nat,
    ) + ". Unmount/eject the iPod before unplugging it."@
}

/// What a synchronization came to, for the user.
pub fn done_summary(counts: SyncCounts) -> (line: String)
    ensures
        line@ == done_text(counts),
{
    let mut line = "Done: kept ".to_owned();
    line.append(text::number(counts.kept as u64).as_str());
    line.append(", deleted ");
    line.append(text::number(counts.deleted as u64).as_str());
    line.append(", copied ");
    line.append(text::number(counts.copied as u64).as_str());
    line.append(", added artwork to ");
    line.append(text::number(counts.artwork as u64).as_str());
    line.append("; created ");
    line.append(text::number(counts.playlists_created as u64).as_str());
    line.append(" playlist(s), updated ");
    line.append(text::number(counts.playlists_updated as u64).as_str());
    line.append(write_deletions_note(", deleted ", counts.playlists_deleted).as_str());
    line.append(". Unmount/eject the iPod before unplugging it.");
    line
}

/// The line that is there where the condition holds.
pub open spec fn line_if(condition: bool, line: Seq<char>) -> Seq<Seq<char>> {
    if condition {
        seq![line]
    } else {
        Seq::empty()
    }
}

/// All that is said before anything is done: what the plans come to, whether
/// cover art is left out, every change, and whether it ends there.
pub open spec fn report_lines(
    plan: SyncPlan,
    playlists: PlaylistPlan,
    counts: SyncCounts,
    dry_run: bool,
) -> Seq<Seq<char>> {
    seq![plan_text(counts)] + line_if(
        crate::sync::leaves_out_artwork(plan.kept@, plan.copied@, plan.artwork_capable),
        "       (embedded artwork ignored: this device cannot store cover art)"@,
    ) + plan_lines(plan) + playlist_plan_lines(
        playlists,
        "+ playlist: "@,
        "~ playlist: "@,
        "- playlist: "@,
    ) + line_if(dry_run, "Dry run: no files or database entries were changed."@)
}

/// All that is said before anything is done.
pub fn report_plans(
    plan: &SyncPlan<'_>,
    playlists: &PlaylistPlan<'_>,
    counts: SyncCounts,
    dry_run: bool,
) -> (lines: Vec<String>)
    requires
        plan.wf(),
    ensures
        texts(lines@) == report_lines(*plan, *playlists, counts, dry_run),
{
    let mut lines: Vec<String> = Vec::new();
    lines.push(plan_summary(counts));
    if ignores_artwork(&plan.kept, &plan.copied, plan.artwork_capable) {
        lines.push(
            "       (embedded artwork ignored: this device cannot store cover art)".to_owned(),
        );
    }
    let mut changes = print_plan(plan);
    lines.append(&mut changes);
    let mut playlist_changes = print_playlist_plan(playlists);
    lines.append(&mut playlist_changes);
    if dry_run {
        lines.push("Dry run: no files or database entries were changed.".to_owned());
    }
    assert(texts(lines@) =~= report_lines(*plan, *playlists, counts, dry_run));
    lines
}

/// A [`StepError`] for the user.
pub open spec fn step_error_text(error: StepError) -> Seq<char> {
    match error {
        StepError::Delete { path, cause } => "failed to delete "@ + path@ + ": "@
            + database_error_text(cause),
        StepError::AddArtwork { path, cause } => "failed to add artwork for "@ + path@ + ": "@
            + database_error_text(cause),
        StepError::Copy { path, cause } => "failed to copy "@ + path@
            + "; rerun copyPod to retry: "@ + database_error_text(cause),
    }
}

impl StepError {
    /// The error for the user.
    pub fn message(&self) -> (message: String)
        ensures
            message@ == step_error_text(*self),
    {
        match self {
            StepError::Delete { path, cause } => {
                let mut message = "failed to delete ".to_owned();
                message.append(path.as_str());
                message.append(": ");
                message.append(cause.message().as_str());
                message
            },
            StepError::AddArtwork { path, cause } => {
                let mut message = "failed to add artwork for ".to_owned();
                message.append(path.as_str());
                message.append(": ");
                message.append(cause.message().as_str());
                message
            },
            StepError::Copy { path, cause } => {
                let mut message = "failed to copy ".to_owned();
                message.append(path.as_str());
                message.append("; rerun copyPod to retry: ");
                message.append(cause.message().as_str());
                message
            },
        }
    }
}

/// What is said when a step is taken, where anything is.
pub open spec fn step_text(plan: SyncPlan, step: SyncStep) -> Option<Seq<char>> {
    match step {
        SyncStep::Delete(i) => Some("DELETE "@ + removal_label(*plan.deleted@[i as int])),
        SyncStep::AddArtwork(i) => Some(
            "ART    "@ + artwork_label(*plan.gets_artwork(i as int).source),
        ),
        SyncStep::Copy(i) => Some("COPY   "@ + source_label(*plan.copied@[i as int])),
        _ => None,
    }
}

/// What is said when a step is taken.
pub fn step_line(plan: &SyncPlan<'_>, step: SyncStep) -> (line: Option<String>)
    requires
        plan.wf(),
        plan.has_step(step),
    ensures
        crate::database::view_of(line) == step_text(*plan, step),
{
    match step {
        SyncStep::Delete(i) => {
            let mut line = "DELETE ".to_owned();
            line.append(describe_removal(plan.deleted[i]).as_str());
            Some(line)
        },
        SyncStep::AddArtwork(i) => {
            let at: usize = plan.artwork_updates[i];
            let mut line = "ART    ".to_owned();
            line.append(describe_artwork(plan.kept[at].source).as_str());
            Some(line)
        },
        SyncStep::Copy(i) => {
            let mut line = "COPY   ".to_owned();
            line.append(describe_source(plan.copied[i]).as_str());
            Some(line)
        },
        _ => None,
    }
}

} // verus!
