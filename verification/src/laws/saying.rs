//! What is said to the user.

use vstd::prelude::*;

use crate::database::{DatabaseError, Track};
use crate::path::FilePath;
use crate::playlist::PlaylistError;
use crate::progress::{OutputStep, ProgressEvent, ProgressReporter};
use crate::report::{
    describe_artwork, describe_existing, describe_removal, describe_source, done_summary,
    found_summary, plan_summary, print_playlist_changes, scanning_notice, step_line, SyncCounts,
};
use crate::plan::PlaylistPlan;
use crate::setup::SetupError;
use crate::source::SourceTrack;
use crate::sync::{PlaylistSyncError, StepError, SyncPlan, SyncStep};
use crate::text;

verus! {

/// The number that a row of digits stands for.
pub open spec fn value_of(digits: Seq<char>) -> int
    decreases digits.len(),
{
    if digits.len() == 0 {
        0
    } else {
        value_of(digits.drop_last()) * 10 + (digits.last() as u32 - 48)
    }
}

/// A number is said in digits that stand for it, without needless zeros at the front.
pub proof fn law_numbers_are_said_in_digits(n: nat)
    ensures
        value_of(text::decimal(n)) == n,
        text::decimal(n).len() > 0,
        forall|i: int|
            0 <= i < text::decimal(n).len() ==> 48 <= (#[trigger] text::decimal(n)[i]) as u32 <= 57,
        n > 0 ==> text::decimal(n)[0] != '0',
        n == 0 ==> text::decimal(n) == seq!['0'],
    decreases n,
{
    let all = text::decimal(n);
    let last = text::digit(n % 10);
    assert(last as u32 == 48 + n % 10);
    if n >= 10 {
        law_numbers_are_said_in_digits(n / 10);
        assert(all.drop_last() =~= text::decimal(n / 10));
        assert(all[0] == text::decimal(n / 10)[0]);
    } else {
        assert(all.drop_last() =~= Seq::empty());
        assert(value_of(all.drop_last()) == 0);
        assert(all.last() == last);
    }
}

/// There are as many batches as it takes: enough for all changes, and not one too many.
pub proof fn law_batches_are_as_few_as_can_be(total: nat, limit: nat)
    requires
        limit > 0,
    ensures
        total <= crate::batch::batch_count(total, limit) * limit < total + limit,
{
    let q = total / limit;
    let r = total % limit;
    vstd::arithmetic::div_mod::lemma_fundamental_div_mod(total as int, limit as int);
    assert(q * limit == limit * q) by (nonlinear_arith);
    assert((q + 1) * limit == q * limit + limit) by (nonlinear_arith);
}

/// What the user is shown takes one line: every control character becomes a space, and every
/// other character stays where it is.
pub proof fn law_lines_are_flat(value: Seq<char>)
    ensures
        text::flattened(value).len() == value.len(),
        forall|i: int|
            0 <= i < value.len() ==> #[trigger] text::flattened(value)[i] == if (value[i] as u32) < 32
                || 127 <= value[i] as u32 <= 159 {
                ' '
            } else {
                value[i]
            },
{
}

/// A phase is said by its name, an item with its number among all of them and by the name that was
/// given to its file, or by its path where none was; each after the minutes and seconds so far, on
/// one line that is passed on at once.
pub proof fn law_events_are_said(
    reporter: &ProgressReporter,
    event: &ProgressEvent<'_>,
    seconds: u64,
    steps: Vec<OutputStep>,
)
    requires
        call_ensures(ProgressReporter::write_event, (reporter, event, seconds), steps),
    ensures
        ({
            let minutes = seconds / 60;
            let rest = seconds % 60;
            let start = "  ["@ + (if minutes < 10 { seq!['0'] + text::decimal(minutes as nat) } else {
                text::decimal(minutes as nat)
            }) + ":"@ + (if rest < 10 { seq!['0'] + text::decimal(rest as nat) } else {
                text::decimal(rest as nat)
            }) + "] "@;
            match *event {
                ProgressEvent::Phase(name) => steps@.len() == 2 && steps@[0] is Line
                    && steps@[0]->Line_0@ == start + text::flattened(name@ + "…"@) && steps@[1] is Flush,
                ProgressEvent::Item { operation, current, total, name } => {
                    let called = if reporter.labels().contains_key(name@) {
                        reporter.labels()[name@]
                    } else {
                        name@
                    };
                    &&& steps@.len() == 2
                    &&& steps@[0] is Line
                    &&& steps@[0]->Line_0@ == start + text::flattened(
                        operation@ + " ["@ + text::decimal(current as nat) + "/"@ + text::decimal(
                            total as nat,
                        ) + "]: "@ + called,
                    )
                    &&& steps@[1] is Flush
                },
                ProgressEvent::Other => steps@.len() == 0,
            }
        }),
{
}

/// The name that counts for a file is the last that was given to it.
pub proof fn law_last_names_count(labels: Vec<(String, String)>, reporter: ProgressReporter, i: int)
    requires
        call_ensures(ProgressReporter::new, (labels,), reporter),
        0 <= i < labels@.len(),
        forall|j: int| i < j < labels@.len() ==> (#[trigger] labels@[j]).0@ != labels@[i].0@,
    ensures
        reporter.labels().contains_key(labels@[i].0@),
        reporter.labels()[labels@[i].0@] == labels@[i].1@,
{
    lemma_table(labels@, labels@.len() as int, i);
}

proof fn lemma_table(labels: Seq<(String, String)>, n: int, i: int)
    requires
        0 <= i < n <= labels.len(),
        forall|j: int| i < j < n ==> (#[trigger] labels[j]).0@ != labels[i].0@,
    ensures
        crate::progress::table_of(labels, n).contains_key(labels[i].0@),
        crate::progress::table_of(labels, n)[labels[i].0@] == labels[i].1@,
    decreases n,
{
    if i < n - 1 {
        lemma_table(labels, n - 1, i);
        assert(labels[n - 1].0@ != labels[i].0@);
    }
}

/// A track on the device is called by its artist and title, whole, and where it is. Without an artist
/// it is unknown whose it is; without a title it is called by what stands before its file's extension.
pub proof fn law_device_tracks_are_called_by_their_tags(
    track: &Track,
    stem: Option<String>,
    line: String,
    removal: String,
)
    requires
        call_ensures(describe_existing, (track,), line),
        call_ensures(describe_removal, (track,), removal),
        call_ensures(FilePath::file_stem, (&track.path,), stem),
    ensures
        ({
            let artist = if track.artist@.len() == 0 { "Unknown Artist"@ } else { track.artist@ };
            let title = if track.title@.len() > 0 {
                track.title@
            } else if stem is Some {
                stem->Some_0@
            } else {
                "Unknown Title"@
            };
            line@ == artist + " — "@ + title + " ("@ + track.path.shown@ + ")"@
        }),
        track.media_missing ==> removal@ == "missing media: "@ + line@,
        !track.media_missing ==> removal@ == line@,
{
}

/// A local track is called by its artist and title, whole, and where it or its cover art comes from.
pub proof fn law_local_tracks_are_called_by_their_tags(
    source: &SourceTrack,
    line: String,
    artwork: String,
)
    requires
        call_ensures(describe_source, (source,), line),
        source.artwork is Some ==> call_ensures(describe_artwork, (source,), artwork),
    ensures
        line@ == source.metadata.artist@ + " — "@ + source.metadata.title@ + " ("@
            + source.path.shown@ + ")"@,
        source.artwork matches Some(art) ==> artwork@ == source.metadata.artist@ + " — "@
            + source.metadata.title@ + " ("@ + art.source@ + ")"@,
{
}

/// A step is said with the track that it is for.
pub proof fn law_steps_are_said(
    plan: &SyncPlan<'_>,
    step: SyncStep,
    line: Option<String>,
    i: usize,
    removal: String,
    copy: String,
    artwork: String,
)
    requires
        call_ensures(step_line, (plan, step), line),
        step == SyncStep::Delete(i) ==> call_ensures(
            describe_removal,
            (plan.deleted@[i as int],),
            removal,
        ),
        step == SyncStep::Copy(i) ==> call_ensures(describe_source, (plan.copied@[i as int],), copy),
        step == SyncStep::AddArtwork(i) ==> call_ensures(
            describe_artwork,
            (plan.kept@[plan.artwork_updates@[i as int] as int].source,),
            artwork,
        ),
    ensures
        step == SyncStep::Delete(i) ==> line is Some && line->Some_0@ == "DELETE "@ + removal@,
        step == SyncStep::Copy(i) ==> line is Some && line->Some_0@ == "COPY   "@ + copy@,
        step == SyncStep::AddArtwork(i) ==> line is Some && line->Some_0@ == "ART    "@ + artwork@,
        step == SyncStep::FinishDeletions || step == SyncStep::FinishCopies || step
            == SyncStep::WritePlaylists ==> line is None,
{
}

/// What is done with playlists is said one by one: each that is created or updated with its name and
/// file, each that is deleted with its name, all of them and in order.
pub proof fn law_playlist_changes_are_said(plan: &PlaylistPlan<'_>, lines: Vec<String>)
    requires
        call_ensures(print_playlist_changes, (plan,), lines),
    ensures
        ({
            let c = plan.created@.len() as int;
            let u = plan.updated@.len() as int;
            &&& lines@.len() == c + u + plan.obsolete@.len()
            &&& forall|i: int|
                0 <= i < c ==> (#[trigger] lines@[i])@ == "PLAYLIST + "@ + plan.created@[i].name@
                    + " ("@ + plan.created@[i].path.shown@ + ")"@
            &&& forall|i: int|
                0 <= i < u ==> (#[trigger] lines@[c + i])@ == "PLAYLIST ~ "@
                    + plan.updated@[i].source.name@ + " ("@ + plan.updated@[i].source.path.shown@
                    + ")"@
            &&& forall|i: int|
                0 <= i < plan.obsolete@.len() ==> (#[trigger] lines@[c + u + i])@ == "PLAYLIST - "@
                    + plan.obsolete@[i].name@
        }),
{
    let said = crate::report::texts(lines@);
    let c = plan.created@.len() as int;
    let u = plan.updated@.len() as int;
    assert(said.len() == lines@.len());
    assert forall|i: int| 0 <= i < c implies (#[trigger] lines@[i])@ == "PLAYLIST + "@
        + plan.created@[i].name@ + " ("@ + plan.created@[i].path.shown@ + ")"@ by {
        assert(said[i] == lines@[i]@);
    }
    assert forall|i: int| 0 <= i < u implies (#[trigger] lines@[c + i])@ == "PLAYLIST ~ "@
        + plan.updated@[i].source.name@ + " ("@ + plan.updated@[i].source.path.shown@ + ")"@ by {
        assert(said[c + i] == lines@[c + i]@);
    }
    assert forall|i: int| 0 <= i < plan.obsolete@.len() implies (#[trigger] lines@[c + u + i])@
        == "PLAYLIST - "@ + plan.obsolete@[i].name@ by {
        assert(said[c + u + i] == lines@[c + u + i]@);
    }
}

/// The numbers in what is said of a whole synchronization are those that were counted, each in its place.
pub proof fn law_summaries_say_what_was_counted(
    counts: SyncCounts,
    planned: String,
    done: String,
    libraries: usize,
    playlists: usize,
    scanning: String,
    tracks: usize,
    duplicates: usize,
    found: String,
)
    requires
        call_ensures(plan_summary, (counts,), planned),
        call_ensures(done_summary, (counts,), done),
        call_ensures(scanning_notice, (libraries, playlists), scanning),
        call_ensures(found_summary, (tracks, duplicates, playlists), found),
    ensures
        planned@ == "Plan: keep "@ + text::decimal(counts.kept as nat) + ", delete "@ + text::decimal(
            counts.deleted as nat,
        ) + ", copy "@ + text::decimal(counts.copied as nat) + ", add artwork to "@ + text::decimal(
            counts.artwork as nat,
        ) + "; keep "@ + text::decimal(counts.playlists_kept as nat) + " playlist(s), create "@
            + text::decimal(counts.playlists_created as nat) + ", update "@ + text::decimal(
            counts.playlists_updated as nat,
        ) + (if counts.playlists_deleted == 0 {
            Seq::empty()
        } else {
            ", delete "@ + text::decimal(counts.playlists_deleted as nat)
        }) + "."@,
        done@ == "Done: kept "@ + text::decimal(counts.kept as nat) + ", deleted "@ + text::decimal(
            counts.deleted as nat,
        ) + ", copied "@ + text::decimal(counts.copied as nat) + ", added artwork to "@
            + text::decimal(counts.artwork as nat) + "; created "@ + text::decimal(
            counts.playlists_created as nat,
        ) + " playlist(s), updated "@ + text::decimal(counts.playlists_updated as nat) + (
        if counts.playlists_deleted == 0 {
            Seq::empty()
        } else {
            ", deleted "@ + text::decimal(counts.playlists_deleted as nat)
        }) + ". Unmount/eject the iPod before unplugging it."@,
        scanning@ == "Scanning "@ + text::decimal(libraries as nat) + " source folder(s)"@ + (
        if playlists == 0 {
            Seq::empty()
        } else {
            " and "@ + text::decimal(playlists as nat) + " playlist source(s)"@
        }) + "…"@,
        found@ == "Found "@ + text::decimal(tracks as nat) + " unique MP3 file(s)"@ + (
        if duplicates == 0 {
            Seq::empty()
        } else {
            " ("@ + text::decimal(duplicates as nat) + " duplicate(s) ignored)"@
        }) + " and "@ + text::decimal(playlists as nat) + " M3U playlist(s)."@,
{
}

/// What is wrong with the library or a change to it is said with its cause or its file, whole.
pub proof fn law_library_errors_are_said(error: &DatabaseError, message: String)
    requires
        call_ensures(DatabaseError::message, (error,), message),
    ensures
        match *error {
            DatabaseError::NoReadAdapter => message@
                == "libopod does not yet have a read adapter for this device profile"@,
            DatabaseError::Audit(cause) => message@ == "audit iPod media references: "@ + cause@,
            DatabaseError::NoLibrary => message@ == "libopod has no readable library for this device"@,
            DatabaseError::TrackPath(cause) => message@ == cause@,
            DatabaseError::TrackAbsent => message@ == "track is not present in the opened library"@,
            DatabaseError::NotAFile(path) => message@ == "track source is not a regular file: "@
                + path@,
            DatabaseError::EmptyPlaylistName => message@ == "playlist name must not be empty"@,
            DatabaseError::PlaylistNotUpdatable => message@
                == "playlist is absent, hidden, or smart and cannot be updated"@,
            DatabaseError::PlaylistNotDeletable => message@
                == "playlist is absent, hidden, or smart and cannot be deleted"@,
            DatabaseError::NoSession(cause) => message@
                == "libopod could not start an edit session: "@ + cause@,
        },
{
}

/// What is wrong with a playlist file is said with its path, and where it is about an entry with the
/// number of its line, all of them whole.
pub proof fn law_playlist_errors_are_said(error: &PlaylistError, message: String)
    requires
        call_ensures(PlaylistError::message, (error,), message),
    ensures
        match *error {
            PlaylistError::NoName { path } => message@ == "playlist has no valid UTF-8 name: "@ + path@,
            PlaylistError::LongName { path } => message@
                == "playlist name exceeds 255 UTF-16 code units: "@ + path@,
            PlaylistError::SameName { first, second } => message@
                == "M3U playlists must have unique names (case-insensitive): "@ + first@ + " and "@
                + second@,
            PlaylistError::Unreadable { path, cause } => message@ == "could not read M3U playlist: "@
                + path@ + ": "@ + cause@,
            PlaylistError::NotUtf8 { path, cause } => message@ == "M3U playlist is not UTF-8: "@ + path@
                + ": "@ + cause@,
            PlaylistError::Missing { path, line, entry, cause } => message@ == path@ + ":"@
                + text::decimal(line as nat) + " references a missing track: "@ + entry@ + ": "@
                + cause@,
            PlaylistError::NotMp3 { path, line, target } => message@ == path@ + ":"@ + text::decimal(
                line as nat,
            ) + " references a file that is not an MP3: "@ + target@,
            PlaylistError::Outside { path, line, target } => message@ == path@ + ":"@ + text::decimal(
                line as nat,
            ) + " references a track outside the supplied MP3 libraries: "@ + target@,
        },
{
}

/// What keeps a synchronization from beginning is said with the path that it is about, whole.
pub proof fn law_setup_errors_are_said(error: &SetupError, message: String)
    requires
        call_ensures(SetupError::message, (error,), message),
    ensures
        match *error {
            SetupError::NoSource => message@ == "at least one library or playlist is required"@,
            SetupError::LibraryMissing { path, cause } => message@ == "library does not exist: "@ + path@
                + ": "@ + cause@,
            SetupError::LibraryNotDirectory { path } => message@ == "library is not a directory: "@
                + path@,
            SetupError::PlaylistMissing { path, cause } => message@ == "playlist does not exist: "@
                + path@ + ": "@ + cause@,
            SetupError::PlaylistUnknown { path } => message@
                == "playlist is neither a directory nor an M3U file: "@ + path@,
            SetupError::IpodMissing { path, cause } => message@ == "iPod mount point does not exist: "@
                + path@ + ": "@ + cause@,
            SetupError::IpodNotDirectory { path } => message@
                == "iPod mount point is not a directory: "@ + path@,
            SetupError::NoControlDirectory { path } => message@ == path@
                + " has no iPod_Control directory; pass the mounted iPod root, not /dev/sdX"@,
            SetupError::NoFirewireGuid { path } => message@
                == "this iPod requires a FireWire GUID, but none was found in SysInfo or SysInfoExtended\nInitialize it, then rerun copyPod:\n  sudo ipod-read-sysinfo-extended /dev/sdX "@
                + path@,
            SetupError::PlaylistsUnsupported { count } => message@ == text::decimal(count as nat)
                + " M3U playlist(s) were found, but libopod does not support playlist writes for this iPod profile"@,
            SetupError::RecoveryDeclined => message@
                == "an interrupted transaction was found and not recovered"@,
        },
{
}

/// What keeps a step from being taken is said with the file or playlist that it is about and its cause,
/// whole.
pub proof fn law_step_errors_are_said(
    error: &StepError,
    list_error: &PlaylistSyncError,
    cause: &DatabaseError,
    why: String,
    message: String,
    list_message: String,
)
    requires
        call_ensures(StepError::message, (error,), message),
        call_ensures(PlaylistSyncError::message, (list_error,), list_message),
        call_ensures(DatabaseError::message, (cause,), why),
    ensures
        match *error {
            StepError::Delete { path, cause: c } => c == *cause ==> message@ == "failed to delete "@
                + path@ + ": "@ + why@,
            StepError::AddArtwork { path, cause: c } => c == *cause ==> message@
                == "failed to add artwork for "@ + path@ + ": "@ + why@,
            StepError::Copy { path, cause: c } => c == *cause ==> message@ == "failed to copy "@ + path@
                + "; rerun copyPod to retry: "@ + why@,
        },
        match *list_error {
            PlaylistSyncError::NotSynchronized { path } => list_message@ == "playlist "@ + path@
                + " contains a track that was not synchronized"@,
            PlaylistSyncError::Create { name, cause: c } => c == *cause ==> list_message@
                == "failed to create playlist "@ + name@ + ": "@ + why@,
            PlaylistSyncError::Update { name, cause: c } => c == *cause ==> list_message@
                == "failed to update playlist "@ + name@ + ": "@ + why@,
            PlaylistSyncError::Delete { name, cause: c } => c == *cause ==> list_message@
                == "failed to delete playlist "@ + name@ + ": "@ + why@,
        },
{
}

} // verus!
