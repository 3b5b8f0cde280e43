//! What is asked of a device, and checked, before anything is written.

use vstd::prelude::*;

use crate::batch::TrackBatches;
use crate::database::{
    non_empty, profile_supports_playlists, BackendKind, ChecksumKind, Database, DatabaseError,
    Device, Playlist,
};
use crate::laws::reading::is_core_of;
use crate::path::FilePath;
use crate::setup::{
    check_firewire_guid, check_playlist_support, check_sources_given, recovery_step,
    validate_ipod, IpodProbe, RecoveryStep, SetupError,
};
use crate::source::{with_external_artwork, Artwork, SourceTrack};
use crate::text;

verus! {

/// The key of the one model that takes playlists and podcasts without a binary library.
pub open spec fn seventh_nano() -> Seq<char> {
    seq!['n', 'a', 'n', 'o', '-', '7', 'g']
}

proof fn lemma_seventh_nano(key: Seq<char>)
    ensures
        crate::database::is_nano_7g(key) <==> key == seventh_nano(),
{
    reveal_strlit("nano-7g");
    assert("nano-7g"@ =~= seventh_nano());
}

/// Playlists can be written to every device with a binary library, and to one other model; podcasts
/// to that model alone. A FireWire GUID is needed for two kinds of signature. Cover art is up to the
/// model. Of a device of an unknown model nothing is expected.
pub proof fn law_models_decide_what_can_be_written(
    database: &Database,
    playlists: bool,
    podcasts: bool,
    artwork: bool,
    signed: bool,
    known: bool,
    key: &str,
    backend: BackendKind,
    supported: bool,
)
    requires
        call_ensures(Database::supports_playlists, (database,), playlists),
        call_ensures(Database::supports_podcasts, (database,), podcasts),
        call_ensures(Database::supports_artwork, (database,), artwork),
        call_ensures(Database::requires_firewire_guid, (database,), signed),
        call_ensures(Database::has_firewire_guid, (database,), known),
        call_ensures(profile_supports_playlists, (key, backend), supported),
    ensures
        supported <==> backend == BackendKind::Binary || key@ == seventh_nano(),
        known == database.device().firewire_guid,
        database.device().profile is None ==> !playlists && !podcasts && !artwork && !signed,
        database.device().profile matches Some(profile) ==> {
            &&& playlists <==> profile.backend == BackendKind::Binary || profile.key@
                == seventh_nano()
            &&& podcasts <==> profile.key@ == seventh_nano()
            &&& artwork == profile.artwork
            &&& signed <==> profile.checksum == ChecksumKind::Hash58 || profile.checksum
                == ChecksumKind::HashAb
        },
{
    lemma_seventh_nano(key@);
    if let Some(profile) = database.device().profile {
        lemma_seventh_nano(profile.key@);
    }
}

/// A device is taken up where its library can be read, with nothing queued for it.
pub proof fn law_readable_devices_are_taken_up(
    device: Device,
    opened: Result<Database, DatabaseError>,
)
    requires
        call_ensures(Database::open, (device,), opened),
    ensures
        device.library is None ==> opened is Err && opened->Err_0 == DatabaseError::NoReadAdapter,
        device.library is Some ==> opened is Ok && opened->Ok_0.device() == device
            && opened->Ok_0.queued().len() == 0 && opened->Ok_0.sequence() == 0,
{
}

/// The playlists of a device are those of its library, and its tracks are counted there.
pub proof fn law_libraries_are_read_as_they_are(
    database: &Database,
    playlists: Result<&Vec<Playlist>, DatabaseError>,
    count: usize,
    clean: bool,
)
    requires
        call_ensures(Database::playlists, (database,), playlists),
        call_ensures(Database::track_count, (database,), count),
        call_ensures(Database::is_clean, (database,), clean),
    ensures
        database.device().library matches Some(library) ==> playlists is Ok
            && playlists->Ok_0@ == library.playlists@ && count == library.tracks@.len(),
        database.device().library is None ==> playlists is Err && playlists->Err_0
            == DatabaseError::NoLibrary && count == 0,
        clean <==> database.queued().len() == 0,
{
}

/// A synchronization needs a library or a playlist to begin from, and an iPod that is a directory with
/// its control directory in it.
pub proof fn law_nothing_begins_without_sources_and_ipod(
    libraries: usize,
    playlists: usize,
    sources: Result<(), SetupError>,
    probe: &IpodProbe,
    ipod: Result<FilePath, SetupError>,
)
    requires
        call_ensures(check_sources_given, (libraries, playlists), sources),
        call_ensures(validate_ipod, (probe,), ipod),
    ensures
        sources is Ok <==> libraries > 0 || playlists > 0,
        sources matches Err(e) ==> e == SetupError::NoSource,
        ipod is Ok <==> probe.root.canonical is Ok && probe.root.is_dir && probe.has_control,
        ipod matches Ok(root) ==> root.parts() == probe.root.canonical->Ok_0.parts() && root.shown@
            == probe.root.canonical->Ok_0.shown@,
        ipod matches Err(e) ==> match probe.root.canonical {
            Err(cause) => e == (SetupError::IpodMissing { path: probe.root.given, cause }),
            Ok(path) => if probe.root.is_dir {
                e == (SetupError::NoControlDirectory { path: path.shown })
            } else {
                e == (SetupError::IpodNotDirectory { path: probe.root.given })
            },
        },
{
}

/// A device whose library is signed is refused without its FireWire GUID, and local playlists where the
/// device takes none. Nothing else is refused here.
pub proof fn law_devices_are_refused_for_a_reason(
    database: &Database,
    ipod: &FilePath,
    signed: bool,
    known: bool,
    takes_playlists: bool,
    count: usize,
    guid: Result<String, SetupError>,
    playlists: Result<(), SetupError>,
)
    requires
        call_ensures(Database::requires_firewire_guid, (database,), signed),
        call_ensures(Database::has_firewire_guid, (database,), known),
        call_ensures(Database::supports_playlists, (database,), takes_playlists),
        call_ensures(check_firewire_guid, (database, ipod), guid),
        call_ensures(check_playlist_support, (database, count), playlists),
    ensures
        guid is Err <==> signed && !known,
        guid matches Err(e) ==> e == (SetupError::NoFirewireGuid { path: ipod.shown }),
        guid matches Ok(notice) ==> notice@ == if signed {
            "FireWire GUID: required and present (value redacted)"@
        } else {
            "FireWire GUID: not required"@
        },
        playlists is Err <==> count > 0 && !takes_playlists,
        playlists matches Err(e) ==> e == (SetupError::PlaylistsUnsupported { count }),
{
}

/// An interrupted transaction is recovered only after the user was asked and said yes, and never in a dry
/// run. Without one, or in a dry run, everything goes on.
pub proof fn law_nothing_is_recovered_unasked(
    interrupted: bool,
    dry_run: bool,
    consent: Option<bool>,
    step: Result<RecoveryStep, SetupError>,
)
    requires
        call_ensures(recovery_step, (interrupted, dry_run, consent), step),
    ensures
        step == Ok::<RecoveryStep, SetupError>(RecoveryStep::Recover) <==> interrupted && !dry_run
            && consent == Some(true),
        step == Ok::<RecoveryStep, SetupError>(RecoveryStep::Ask) <==> interrupted && !dry_run
            && consent is None,
        step == Ok::<RecoveryStep, SetupError>(RecoveryStep::Proceed) <==> !interrupted || dry_run,
        step == Err::<RecoveryStep, SetupError>(SetupError::RecoveryDeclined) <==> interrupted
            && !dry_run && consent == Some(false),
{
}

/// Cover art next to a track counts only where the track has none of its own; nothing else changes.
pub proof fn law_own_artwork_comes_first(
    track: SourceTrack,
    external: Option<Artwork>,
    whole: SourceTrack,
)
    requires
        call_ensures(with_external_artwork, (track, external), whole),
    ensures
        whole.path == track.path,
        whole.metadata == track.metadata,
        track.artwork is Some ==> whole.artwork == track.artwork,
        track.artwork is None ==> whole.artwork == external,
{
}

/// A text is left out where there is nothing but white space in it, and otherwise kept without the white
/// space at its ends.
pub proof fn law_blank_texts_are_left_out(value: &str, kept: Option<String>)
    requires
        call_ensures(non_empty, (value,), kept),
    ensures
        kept is None <==> forall|i: int| 0 <= i < value@.len() ==> text::is_white(#[trigger] value@[i]),
        kept matches Some(short) ==> is_core_of(value@, short@) && short@.len() > 0,
{
    crate::laws::reading::law_trimming_leaves_the_core(value@);
    text::law_trimmed_has_no_outer_white_space(value@);
}

/// Another change makes one more pending; a commit takes all that is pending, as one more batch; and a
/// batch that failed is told by its number, with what had been committed before it.
pub proof fn law_batches_count_what_they_hold<E>(batches: TrackBatches, cause: E)
    requires
        batches.wf(),
        batches.pending < usize::MAX,
        batches.committed + batches.pending <= usize::MAX,
        batches.completed_batches < usize::MAX,
        crate::batch::batch_count(batches.total_tracks as nat, batches.limit as nat) <= usize::MAX,
    ensures
        ({
            let more = batches.with_queued();
            let done = batches.with_committed();
            let error = batches.failed(cause);
            &&& more.pending == batches.pending + 1
            &&& more.committed == batches.committed
            &&& more.completed_batches == batches.completed_batches
            &&& done.pending == 0
            &&& done.committed == batches.committed + batches.pending
            &&& done.completed_batches == batches.completed_batches + 1
            &&& more.limit == batches.limit && done.limit == batches.limit
            &&& more.total_tracks == batches.total_tracks && done.total_tracks
                == batches.total_tracks
            &&& more.phase == batches.phase && done.phase == batches.phase
            &&& error.phase == batches.phase
            &&& error.batch == batches.completed_batches + 1
            &&& error.total_batches == crate::batch::batch_count(
                batches.total_tracks as nat,
                batches.limit as nat,
            )
            &&& error.completed_batches == batches.completed_batches
            &&& error.committed == batches.committed
            &&& error.cause == cause
        }),
{
}

} // verus!
