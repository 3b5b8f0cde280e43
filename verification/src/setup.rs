//! What is checked before a synchronization begins.

use vstd::prelude::*;

use crate::database::Database;
use crate::path::{is_m3u, FilePath};

verus! {

/// A path that was given by the user, and what was found there.
#[derive(Debug)]
pub struct PathProbe {
    /// The path as it was given.
    pub given: String,
    /// The path that it stands for, or why there is none.
    pub canonical: Result<FilePath, String>,
    pub is_dir: bool,
}

/// The path of the iPod, and what was found there.
#[derive(Debug)]
pub struct IpodProbe {
    pub root: PathProbe,
    /// Whether there is a directory `iPod_Control` in it.
    pub has_control: bool,
}

/// Why a synchronization does not begin. The texts are paths as they are shown,
/// and causes.
#[derive(Debug)]
pub enum SetupError {
    NoSource,
    LibraryMissing { path: String, cause: String },
    LibraryNotDirectory { path: String },
    PlaylistMissing { path: String, cause: String },
    PlaylistUnknown { path: String },
    IpodMissing { path: String, cause: String },
    IpodNotDirectory { path: String },
    NoControlDirectory { path: String },
    NoFirewireGuid { path: String },
    PlaylistsUnsupported { count: usize },
    RecoveryDeclined,
}

/// Whether there is anything to synchronize from: at least one library or
/// playlist.
pub fn check_sources_given(libraries: usize, playlists: usize) -> (checked: Result<(), SetupError>)
    ensures
        checked is Ok <==> libraries + playlists > 0,
        checked matches Err(e) ==> e == SetupError::NoSource,
{
    if libraries == 0 && playlists == 0 {
        Err(SetupError::NoSource)
    } else {
        Ok(())
    }
}

/// Whether a library was found.
pub open spec fn is_library(probe: PathProbe) -> bool {
    probe.canonical is Ok && probe.is_dir
}

/// What is wrong with a library that was not found.
pub open spec fn library_error(probe: PathProbe) -> SetupError {
    match probe.canonical {
        Err(cause) => SetupError::LibraryMissing { path: probe.given, cause },
        Ok(_) => SetupError::LibraryNotDirectory { path: probe.given },
    }
}

/// The libraries, where all of them were found; or what is wrong with the first
/// that was not.
pub fn validate_libraries(probes: &Vec<PathProbe>) -> (valid: Result<Vec<FilePath>, SetupError>)
    ensures
        match valid {
            Ok(paths) => {
                &&& paths@.len() == probes@.len()
                &&& forall|i: int|
                    0 <= i < probes@.len() ==> {
                        &&& is_library(#[trigger] probes@[i])
                        &&& paths@[i].parts() == probes@[i].canonical->Ok_0.parts()
                        &&& paths@[i].shown == probes@[i].canonical->Ok_0.shown
                    }
            },
            Err(e) => exists|i: int|
                0 <= i < probes@.len() && {
                    &&& !is_library(#[trigger] probes@[i])
                    &&& e == library_error(probes@[i])
                    &&& forall|j: int| 0 <= j < i ==> is_library(#[trigger] probes@[j])
                },
        },
{
    let mut paths: Vec<FilePath> = Vec::new();
    let mut i: usize = 0;
    while i < probes.len()
        invariant
            i <= probes@.len(),
            paths@.len() == i,
            forall|j: int|
                0 <= j < i ==> {
                    &&& is_library(#[trigger] probes@[j])
                    &&& paths@[j].parts() == probes@[j].canonical->Ok_0.parts()
                    &&& paths@[j].shown == probes@[j].canonical->Ok_0.shown
                },
        decreases probes@.len() - i,
    {
        let probe = &probes[i];
        match &probe.canonical {
            Err(cause) => {
                assert(!is_library(probes@[i as int]));
                return Err(
                    SetupError::LibraryMissing { path: probe.given.clone(), cause: cause.clone() },
                );
            },
            Ok(path) => {
                if !probe.is_dir {
                    assert(!is_library(probes@[i as int]));
                    return Err(SetupError::LibraryNotDirectory { path: probe.given.clone() });
                }
                paths.push(path.clone());
            },
        }
        i += 1;
    }
    Ok(paths)
}

/// Whether the path holds playlists: it is a directory or a playlist file.
pub open spec fn is_playlist_source(probe: PathProbe) -> bool {
    probe.canonical matches Ok(path) && (probe.is_dir || path.has_extension("m3u"@)
        || path.has_extension("m3u8"@))
}

/// What is wrong with a path that holds no playlists.
pub open spec fn playlist_source_error(probe: PathProbe) -> SetupError {
    match probe.canonical {
        Err(cause) => SetupError::PlaylistMissing { path: probe.given, cause },
        Ok(_) => SetupError::PlaylistUnknown { path: probe.given },
    }
}

/// The paths that were given for playlists, where all of them can hold some; or
/// what is wrong with the first that cannot.
pub fn validate_playlists(probes: &Vec<PathProbe>) -> (valid: Result<Vec<FilePath>, SetupError>)
    ensures
        match valid {
            Ok(paths) => {
                &&& paths@.len() == probes@.len()
                &&& forall|i: int|
                    0 <= i < probes@.len() ==> {
                        &&& is_playlist_source(#[trigger] probes@[i])
                        &&& paths@[i].parts() == probes@[i].canonical->Ok_0.parts()
                        &&& paths@[i].shown == probes@[i].canonical->Ok_0.shown
                    }
            },
            Err(e) => exists|i: int|
                0 <= i < probes@.len() && {
                    &&& !is_playlist_source(#[trigger] probes@[i])
                    &&& e == playlist_source_error(probes@[i])
                    &&& forall|j: int| 0 <= j < i ==> is_playlist_source(#[trigger] probes@[j])
                },
        },
{
    let mut paths: Vec<FilePath> = Vec::new();
    let mut i: usize = 0;
    while i < probes.len()
        invariant
            i <= probes@.len(),
            paths@.len() == i,
            forall|j: int|
                0 <= j < i ==> {
                    &&& is_playlist_source(#[trigger] probes@[j])
                    &&& paths@[j].parts() == probes@[j].canonical->Ok_0.parts()
                    &&& paths@[j].shown == probes@[j].canonical->Ok_0.shown
                },
        decreases probes@.len() - i,
    {
        let probe = &probes[i];
        match &probe.canonical {
            Err(cause) => {
                assert(!is_playlist_source(probes@[i as int]));
                return Err(
                    SetupError::PlaylistMissing { path: probe.given.clone(), cause: cause.clone() },
                );
            },
            Ok(path) => {
                if !probe.is_dir && !is_m3u(path) {
                    assert(!is_playlist_source(probes@[i as int]));
                    return Err(SetupError::PlaylistUnknown { path: probe.given.clone() });
                }
                paths.push(path.clone());
            },
        }
        i += 1;
    }
    Ok(paths)
}

/// The root of the iPod, where the path leads to a directory with a directory
/// `iPod_Control` in it.
pub fn validate_ipod(probe: &IpodProbe) -> (valid: Result<FilePath, SetupError>)
    ensures
        match probe.root.canonical {
            Err(cause) => valid == Err::<FilePath, SetupError>(
                SetupError::IpodMissing { path: probe.root.given, cause },
            ),
            Ok(path) => if !probe.root.is_dir {
                valid == Err::<FilePath, SetupError>(
                    SetupError::IpodNotDirectory { path: probe.root.given },
                )
            } else if !probe.has_control {
                valid == Err::<FilePath, SetupError>(
                    SetupError::NoControlDirectory { path: path.shown },
                )
            } else {
                valid matches Ok(root) && root.parts() == path.parts() && root.shown == path.shown
            },
        },
{
    match &probe.root.canonical {
        Err(cause) => Err(
            SetupError::IpodMissing { path: probe.root.given.clone(), cause: cause.clone() },
        ),
        Ok(path) => if !probe.root.is_dir {
            Err(SetupError::IpodNotDirectory { path: probe.root.given.clone() })
        } else if !probe.has_control {
            Err(SetupError::NoControlDirectory { path: path.shown.clone() })
        } else {
            Ok(path.clone())
        },
    }
}

/// What to say of the FireWire GUID of a device mounted at `ipod`, where the
/// synchronization can go on.
pub fn check_firewire_guid(database: &Database, ipod: &FilePath) -> (checked: Result<
    String,
    SetupError,
>)
    ensures
        ({
            let required = database.device().profile matches Some(profile) && (profile.checksum
                == crate::database::ChecksumKind::Hash58 || profile.checksum
                == crate::database::ChecksumKind::HashAb);
            if !required {
                checked matches Ok(notice) && notice@ == "FireWire GUID: not required"@
            } else if !database.device().firewire_guid {
                checked == Err::<String, SetupError>(
                    SetupError::NoFirewireGuid { path: ipod.shown },
                )
            } else {
                checked matches Ok(notice) && notice@
                    == "FireWire GUID: required and present (value redacted)"@
            }
        }),
{
    if !database.requires_firewire_guid() {
        return Ok("FireWire GUID: not required".to_owned());
    }
    if !database.has_firewire_guid() {
        return Err(SetupError::NoFirewireGuid { path: ipod.shown.clone() });
    }
    Ok("FireWire GUID: required and present (value redacted)".to_owned())
}

/// Refuses local playlists where the device takes none.
pub fn check_playlist_support(database: &Database, playlists: usize) -> (checked: Result<
    (),
    SetupError,
>)
    ensures
        checked is Ok <==> playlists == 0 || (database.device().profile matches Some(profile) && (
        profile.backend == crate::database::BackendKind::Binary || crate::database::is_nano_7g(
            profile.key@,
        ))),
        checked matches Err(e) ==> e == (SetupError::PlaylistsUnsupported { count: playlists }),
{
    if playlists > 0 && !database.supports_playlists() {
        Err(SetupError::PlaylistsUnsupported { count: playlists })
    } else {
        Ok(())
    }
}

/// What to do about a transaction that was interrupted.
#[derive(Clone, Copy, Debug, PartialEq, Eq, Structural)]
pub enum RecoveryStep {
    /// Go on: there is none, or it is left as it is.
    Proceed,
    /// Ask the user.
    Ask,
    /// Undo or finish it.
    Recover,
}

/// What to do next about an interrupted transaction, given the user's answer
/// where there is one. A dry run leaves it as it is and goes on; without the
/// user's consent nothing is recovered.
pub fn recovery_step(interrupted: bool, dry_run: bool, consent: Option<bool>) -> (step: Result<
    RecoveryStep,
    SetupError,
>)
    ensures
        step == if !interrupted || dry_run {
            Ok::<RecoveryStep, SetupError>(RecoveryStep::Proceed)
        } else {
            match consent {
                None => Ok(RecoveryStep::Ask),
                Some(true) => Ok(RecoveryStep::Recover),
                Some(false) => Err(SetupError::RecoveryDeclined),
            }
        },
{
    if !interrupted || dry_run {
        Ok(RecoveryStep::Proceed)
    } else {
        match consent {
            None => Ok(RecoveryStep::Ask),
            Some(true) => Ok(RecoveryStep::Recover),
            Some(false) => Err(SetupError::RecoveryDeclined),
        }
    }
}

} // verus!
