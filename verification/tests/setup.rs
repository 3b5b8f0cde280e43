use copypod::database::{BackendKind, ChecksumKind, Database, Device, DeviceProfile, Library};
use copypod::path::FilePath;
use copypod::setup::{
    check_firewire_guid, check_playlist_support, check_sources_given, recovery_step,
    validate_ipod, validate_libraries, validate_playlists, IpodProbe, PathProbe, RecoveryStep,
};

fn path(text: &str) -> FilePath {
    let components = text.split('/').map(|part| part.as_bytes().to_vec()).collect();
    FilePath { components, shown: text.to_owned() }
}

fn probe(given: &str, canonical: Option<&str>, is_dir: bool) -> PathProbe {
    PathProbe {
        given: given.to_owned(),
        canonical: canonical.map(path).ok_or_else(|| "not found".to_owned()),
        is_dir,
    }
}

fn database(checksum: ChecksumKind, backend: BackendKind, firewire_guid: bool) -> Database {
    let device = Device {
        profile: Some(DeviceProfile {
            key: "some-model".to_owned(),
            display_name: "iPod".to_owned(),
            checksum,
            backend,
            artwork: false,
        }),
        firewire_guid,
        library: Some(Library { tracks: Vec::new(), playlists: Vec::new() }),
        missing_media: Ok(Vec::new()),
    };
    match Database::open(device) {
        Ok(database) => database,
        Err(error) => panic!("{}", error.message()),
    }
}

#[test]
fn at_least_one_source_is_required() {
    assert!(check_sources_given(1, 0).is_ok());
    assert!(check_sources_given(0, 1).is_ok());
    let error = check_sources_given(0, 0).unwrap_err();
    assert_eq!(error.message(), "at least one library or playlist is required");
}

#[test]
fn libraries_have_to_be_directories() {
    let good = vec![probe("a", Some("/a"), true), probe("b", Some("/b"), true)];
    let libraries = validate_libraries(&good).unwrap();
    assert_eq!(libraries.len(), 2);
    assert_eq!(libraries[1].shown, "/b");
    let missing = vec![probe("a", Some("/a"), true), probe("b", None, false)];
    assert_eq!(
        validate_libraries(&missing).unwrap_err().message(),
        "library does not exist: b: not found"
    );
    let file = vec![probe("a", Some("/a"), false), probe("b", None, false)];
    assert_eq!(
        validate_libraries(&file).unwrap_err().message(),
        "library is not a directory: a"
    );
}

#[test]
fn playlist_sources_are_directories_or_playlist_files() {
    let good = vec![
        probe("a", Some("/a"), true),
        probe("b.m3u", Some("/b.m3u"), false),
        probe("c", Some("/c.M3U8"), false),
    ];
    assert_eq!(validate_playlists(&good).unwrap().len(), 3);
    assert_eq!(
        validate_playlists(&vec![probe("x", None, false)]).unwrap_err().message(),
        "playlist does not exist: x: not found"
    );
    assert_eq!(
        validate_playlists(&vec![probe("x.txt", Some("/x.txt"), false)]).unwrap_err().message(),
        "playlist is neither a directory nor an M3U file: x.txt"
    );
}

#[test]
fn ipod_has_a_control_directory() {
    let root = IpodProbe { root: probe("i", Some("/mnt/i"), true), has_control: true };
    assert_eq!(validate_ipod(&root).unwrap().shown, "/mnt/i");
    let missing = IpodProbe { root: probe("i", None, false), has_control: false };
    assert_eq!(
        validate_ipod(&missing).unwrap_err().message(),
        "iPod mount point does not exist: i: not found"
    );
    let file = IpodProbe { root: probe("i", Some("/dev/sdx"), false), has_control: false };
    assert_eq!(
        validate_ipod(&file).unwrap_err().message(),
        "iPod mount point is not a directory: i"
    );
    let other = IpodProbe { root: probe("i", Some("/mnt/i"), true), has_control: false };
    assert_eq!(
        validate_ipod(&other).unwrap_err().message(),
        "/mnt/i has no iPod_Control directory; pass the mounted iPod root, not /dev/sdX"
    );
}

#[test]
fn firewire_guid_is_checked_where_it_is_needed() {
    let root = path("/mnt/i");
    let free = database(ChecksumKind::Other, BackendKind::Binary, false);
    assert_eq!(check_firewire_guid(&free, &root).unwrap(), "FireWire GUID: not required");
    for checksum in [ChecksumKind::Hash58, ChecksumKind::HashAb] {
        let present = database(checksum, BackendKind::Binary, true);
        assert_eq!(
            check_firewire_guid(&present, &root).unwrap(),
            "FireWire GUID: required and present (value redacted)"
        );
        let missing = database(checksum, BackendKind::Binary, false);
        assert_eq!(
            check_firewire_guid(&missing, &root).unwrap_err().message(),
            "this iPod requires a FireWire GUID, but none was found in SysInfo or \
             SysInfoExtended\nInitialize it, then rerun copyPod:\n  \
             sudo ipod-read-sysinfo-extended /dev/sdX /mnt/i"
        );
    }
}

#[test]
fn playlists_need_a_device_that_takes_them() {
    let binary = database(ChecksumKind::Other, BackendKind::Binary, false);
    assert!(check_playlist_support(&binary, 3).is_ok());
    let other = database(ChecksumKind::Other, BackendKind::SqliteWithBinaryCompanion, false);
    assert!(check_playlist_support(&other, 0).is_ok());
    assert_eq!(
        check_playlist_support(&other, 3).unwrap_err().message(),
        "3 M3U playlist(s) were found, but libopod does not support playlist writes \
         for this iPod profile"
    );
}

#[test]
fn recovery_asks_first_and_never_happens_in_a_dry_run() {
    for dry_run in [false, true] {
        for consent in [None, Some(false), Some(true)] {
            assert_eq!(recovery_step(false, dry_run, consent).unwrap(), RecoveryStep::Proceed);
            assert_eq!(recovery_step(true, true, consent).unwrap(), RecoveryStep::Proceed);
        }
    }
    assert_eq!(recovery_step(true, false, None).unwrap(), RecoveryStep::Ask);
    assert_eq!(recovery_step(true, false, Some(true)).unwrap(), RecoveryStep::Recover);
    let declined = recovery_step(true, false, Some(false)).unwrap_err();
    assert_eq!(
        declined.message(),
        "an interrupted transaction was found and not recovered"
    );
}
