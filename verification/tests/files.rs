use copypod::index::PathKeys;
use copypod::key::{metadata_key, TrackKey};
use copypod::m3u::m3u_entries;
use copypod::path::{is_m3u, is_mp3, is_unsupported_audio, FilePath};
use copypod::playlist::{
    entry_paths, read_source_playlists, strip_sorting_prefix, PlaylistError, PlaylistFile, SourcePlaylist,
};
use copypod::scan::{
    choose_playlists, classify, order_playlists, scan_sources, select_files, wanted_tracks,
    FileKind, PlaylistChoice,
};
use copypod::source::{
    read_external_artwork, read_source_track, with_external_artwork, Artwork, AudioFile, Picture,
    SourceTrack, Tag,
};

fn path(text: &str) -> FilePath {
    let mut components = Vec::new();
    if text.starts_with('/') {
        components.push(b"/".to_vec());
    }
    for part in text.split('/') {
        if !part.is_empty() {
            components.push(part.as_bytes().to_vec());
        }
    }
    FilePath { components, shown: text.to_owned() }
}

/// Where an entry leads to, seen from a directory.
fn resolve(directory: &str, entry: &str) -> FilePath {
    if entry.starts_with('/') {
        path(entry)
    } else {
        path(&format!("{directory}/{entry}"))
    }
}

fn key(title: &str) -> TrackKey {
    metadata_key("", "a", "b", title, 1, 1, 0, 0)
}

fn playlist_file(name: &str, contents: &[u8], selected: bool) -> PlaylistFile {
    let targets = m3u_entries(contents)
        .unwrap_or_default()
        .iter()
        .map(|entry| Ok(resolve("/music", &entry.text)))
        .collect();
    PlaylistFile { path: path(name), selected, contents: Ok(contents.to_vec()), targets }
}

fn read(files: Vec<PlaylistFile>, keys: &[(&str, &str)]) -> Result<Vec<SourcePlaylist>, PlaylistError> {
    let mut table = PathKeys::new();
    for (place, title) in keys {
        table.insert(path(place), key(title));
    }
    read_source_playlists(&files, &table)
}

#[test]
fn recognizes_mp3_case_insensitively() {
    assert!(is_mp3(&path("song.mp3")));
    assert!(is_mp3(&path("song.MP3")));
    assert!(!is_mp3(&path("song.flac")));
}

#[test]
fn recognizes_m3u_case_insensitively() {
    assert!(is_m3u(&path("mix.m3u")));
    assert!(is_m3u(&path("mix.M3U8")));
    assert!(!is_m3u(&path("mix.txt")));
}

#[test]
fn recognizes_unsupported_audio_without_flagging_images() {
    assert!(is_unsupported_audio(&path("song.flac")));
    assert!(is_unsupported_audio(&path("song.M4A")));
    assert!(!is_unsupported_audio(&path("cover.jpg")));
}

#[test]
fn every_other_audio_format_is_recognized() {
    for extension in
        ["aac", "aif", "aiff", "alac", "flac", "m4a", "ogg", "opus", "wav", "wma"]
    {
        assert!(is_unsupported_audio(&path(&format!("song.{extension}"))));
        assert_eq!(classify(&path(&format!("x.{extension}"))), FileKind::UnsupportedAudio);
    }
    assert_eq!(classify(&path("x.Mp3")), FileKind::Track);
    assert_eq!(classify(&path("x.M3u")), FileKind::Playlist);
    assert_eq!(classify(&path("x.jpg")), FileKind::Other);
}

#[test]
fn names_without_extension_are_no_tracks() {
    assert!(!is_mp3(&path("mp3")));
    assert!(!is_mp3(&path(".mp3")));
    assert!(!is_mp3(&path("song.mp3.txt")));
    assert!(!is_mp3(&path("song.")));
    assert!(is_mp3(&path("a.b.mp3")));
    assert!(!is_mp3(&path("")));
    assert!(!is_mp3(&FilePath { components: vec![b"..".to_vec()], shown: String::new() }));
}

#[test]
fn reads_relative_extended_m3u_entries_in_order() {
    let directory = "/tmp/copypod-m3u-test";
    let first = path("/tmp/copypod-m3u-test/music/one.mp3");
    let second = path("/tmp/copypod-m3u-test/music/two.mp3");
    let contents =
        b"\xef\xbb\xbf#EXTM3U\n#EXTINF:1,One\nmusic/one.mp3\n\n music/two.mp3 \nmusic/one.mp3\n";
    let targets = m3u_entries(contents)
        .unwrap()
        .iter()
        .map(|entry| Ok(resolve(directory, &entry.text)))
        .collect();
    let playlist = PlaylistFile {
        path: path("/tmp/copypod-m3u-test/Road Trip.m3u8"),
        selected: false,
        contents: Ok(contents.to_vec()),
        targets,
    };

    let first_key = metadata_key("", "a", "b", "one", 1, 1, 0, 0);
    let second_key = metadata_key("", "a", "b", "two", 1, 1, 0, 0);
    let mut keys = PathKeys::new();
    keys.insert(first, first_key.clone());
    keys.insert(second, second_key.clone());
    let playlists = read_source_playlists(&vec![playlist], &keys).unwrap();

    assert_eq!(playlists.len(), 1);
    assert_eq!(playlists[0].name, "Road Trip");
    assert_eq!(
        playlists[0].tracks,
        vec![first_key.clone(), second_key, first_key]
    );
}

#[test]
fn finds_external_cover_art_case_insensitively() {
    let names = vec!["song.mp3".to_owned(), "Cover.JPEG".to_owned()];
    let files: Vec<Vec<u8>> = vec![Vec::new(), vec![1, 2, 3]];

    let artwork = read_external_artwork(&names).unwrap();
    assert_eq!(files[artwork], [1, 2, 3]);
}

#[test]
fn cover_files_are_looked_for_in_order() {
    let wanted = [
        "cover.jpg",
        "cover.jpeg",
        "cover.png",
        "folder.jpg",
        "folder.jpeg",
        "folder.png",
        "front.jpg",
        "front.jpeg",
        "front.png",
    ];
    for best in 0..wanted.len() {
        let names: Vec<String> =
            wanted[best..].iter().rev().map(|name| name.to_uppercase()).collect();
        assert_eq!(read_external_artwork(&names), Some(names.len() - 1));
    }
    assert_eq!(read_external_artwork(&vec!["back.jpg".to_owned()]), None);
    assert_eq!(read_external_artwork(&Vec::new()), None);
    let twice = vec!["cover.jpg".to_owned(), "COVER.JPG".to_owned()];
    assert_eq!(read_external_artwork(&twice), Some(1));
}

#[test]
fn entries_keep_their_line_numbers() {
    let entries = m3u_entries(b"#EXTM3U\r\n\r\n a.mp3 \r\n#x\n\tb b.mp3").unwrap();
    let found: Vec<(usize, &str)> =
        entries.iter().map(|entry| (entry.line, entry.text.as_str())).collect();
    assert_eq!(found, [(3, "a.mp3"), (5, "b b.mp3")]);
}

#[test]
fn byte_order_mark_makes_no_difference() {
    let plain = m3u_entries("über.mp3\n".as_bytes()).unwrap();
    let marked = m3u_entries("\u{feff}über.mp3\n".as_bytes()).unwrap();
    assert_eq!(plain.len(), 1);
    assert_eq!(plain[0].text, "über.mp3");
    assert_eq!(marked.len(), 1);
    assert_eq!(marked[0].text, plain[0].text);
    assert_eq!(marked[0].line, 1);
}

#[test]
fn empty_file_has_no_entries() {
    assert!(m3u_entries(b"").unwrap().is_empty());
    assert!(m3u_entries(b"\n\n#\n").unwrap().is_empty());
}

#[test]
fn files_that_are_not_utf8_have_no_entries() {
    for contents in [&b"a\xff.mp3"[..], b"\xc3", b"ok.mp3\nb\xe2\x82\n"] {
        let expected = std::str::from_utf8(contents).unwrap_err().to_string();
        assert_eq!(m3u_entries(contents).unwrap_err(), expected);
        let marked = [&b"\xef\xbb\xbf"[..], contents].concat();
        assert_eq!(m3u_entries(&marked).unwrap_err(), expected);
    }
}

#[test]
fn sorting_prefix_is_removed_once() {
    assert_eq!(strip_sorting_prefix("000 Mix"), "Mix");
    assert_eq!(strip_sorting_prefix("000 000 Mix"), "000 Mix");
    assert_eq!(strip_sorting_prefix("000Mix"), "000Mix");
    assert_eq!(strip_sorting_prefix("Mix"), "Mix");
    assert_eq!(strip_sorting_prefix("00"), "00");
}

#[test]
fn playlist_names_come_from_their_files() {
    let playlists =
        read(vec![playlist_file("/p/000 Road.Trip.m3u", b"", true)], &[]).unwrap();
    assert_eq!(playlists[0].name, "Road.Trip");
    assert!(playlists[0].tracks.is_empty());
}

#[test]
fn playlists_need_a_name() {
    for name in ["/p/000 .m3u", "/p/   .m3u8", "/"] {
        let error = read(vec![playlist_file(name, b"", true)], &[]).unwrap_err();
        assert!(matches!(error, PlaylistError::NoName { .. }));
        assert_eq!(error.message(), format!("playlist has no valid UTF-8 name: {name}"));
    }
    let mut file = playlist_file("/p/x.m3u", b"", true);
    file.path.components[2] = b"\xff.m3u".to_vec();
    assert!(matches!(read(vec![file], &[]), Err(PlaylistError::NoName { .. })));
}

#[test]
fn long_playlist_names_are_refused() {
    let fits = format!("/p/{}.m3u", "x".repeat(255));
    assert!(read(vec![playlist_file(&fits, b"", true)], &[]).is_ok());
    let long = format!("/p/{}.m3u", "x".repeat(256));
    let error = read(vec![playlist_file(&long, b"", true)], &[]).unwrap_err();
    assert_eq!(error.message(), format!("playlist name exceeds 255 UTF-16 code units: {long}"));
    let pairs = format!("/p/{}.m3u", "🎵".repeat(128));
    assert!(matches!(
        read(vec![playlist_file(&pairs, b"", true)], &[]),
        Err(PlaylistError::LongName { .. })
    ));
    let enough = format!("/p/{}.m3u", "🎵".repeat(127));
    assert!(read(vec![playlist_file(&enough, b"", true)], &[]).is_ok());
}

#[test]
fn playlist_names_are_unique_in_any_case() {
    let error = read(
        vec![
            playlist_file("/p/Mix.m3u", b"", true),
            playlist_file("/p/Other.m3u", b"", true),
            playlist_file("/q/000 mix.m3u8", b"", true),
        ],
        &[],
    )
    .unwrap_err();
    assert_eq!(
        error.message(),
        "M3U playlists must have unique names (case-insensitive): /p/Mix.m3u and /q/000 mix.m3u8"
    );
}

#[test]
fn unreadable_playlists_are_refused() {
    let mut file = playlist_file("/p/Mix.m3u", b"", true);
    file.contents = Err("permission denied".to_owned());
    let error = read(vec![file], &[]).unwrap_err();
    assert_eq!(error.message(), "could not read M3U playlist: /p/Mix.m3u: permission denied");

    let file = PlaylistFile {
        path: path("/p/Mix.m3u"),
        selected: true,
        contents: Ok(b"\xc3".to_vec()),
        targets: Vec::new(),
    };
    let error = read(vec![file], &[]).unwrap_err();
    assert_eq!(
        error.message(),
        "M3U playlist is not UTF-8: /p/Mix.m3u: incomplete utf-8 byte sequence from index 0"
    );
}

#[test]
fn missing_entries_are_refused() {
    let mut file = playlist_file("/p/Mix.m3u", b"#\none.mp3\ntwo.mp3\n", false);
    file.targets[1] = Err("not found".to_owned());
    let error = read(vec![file], &[("/music/one.mp3", "one")]).unwrap_err();
    assert_eq!(error.message(), "/p/Mix.m3u:3 references a missing track: two.mp3: not found");
}

#[test]
fn entries_outside_the_libraries_are_refused() {
    let file = playlist_file("/p/Mix.m3u", b"one.mp3\n", false);
    let error = read(vec![file], &[("/music/two.mp3", "two")]).unwrap_err();
    assert_eq!(
        error.message(),
        "/p/Mix.m3u:1 references a track outside the supplied MP3 libraries: /music/one.mp3"
    );
}

#[test]
fn selected_playlists_take_only_mp3_files() {
    let file = playlist_file("/p/Mix.m3u", b"one.flac\n", true);
    let error = read(vec![file], &[("/music/one.flac", "one")]).unwrap_err();
    assert_eq!(
        error.message(),
        "/p/Mix.m3u:1 references a file that is not an MP3: /music/one.flac"
    );
    let file = playlist_file("/p/Mix.m3u", b"one.flac\n", false);
    assert!(read(vec![file], &[("/music/one.flac", "one")]).is_ok());
}

#[test]
fn last_key_of_a_path_counts() {
    let playlists = read(
        vec![playlist_file("/p/Mix.m3u", b"one.mp3\n", false)],
        &[("/music/one.mp3", "old"), ("/music/one.mp3", "new")],
    )
    .unwrap();
    assert_eq!(playlists[0].tracks, vec![key("new")]);
}

#[test]
fn paths_are_sorted_by_component() {
    let paths = vec![
        path("/b/a.mp3"),
        path("/a.x/a.mp3"),
        path("/a/z.mp3"),
        path("/a/b.mp3"),
        path("/a/b.MP3"),
        path("/a/b.mp3"),
    ];
    assert_eq!(select_files(&paths).tracks, vec![4, 3, 5, 2, 1, 0]);
    assert!(path("/a/z").before(&path("/a.x/a")));
    assert!(!path("/a").before(&path("/a")));
    assert!(path("/a/b").same_file(&path("/a/b")));
    assert!(!path("/a/b").same_file(&path("/a")));
}

#[test]
fn files_are_sorted_out_by_kind() {
    let files = vec![
        path("/m/z.mp3"),
        path("/m/x.flac"),
        path("/m/b.m3u"),
        path("/m/a.mp3"),
        path("/m/cover.jpg"),
        path("/m/a.m3u8"),
        path("/m/a.wav"),
    ];
    let selection = select_files(&files);
    assert_eq!(selection.tracks, vec![3, 0]);
    assert_eq!(selection.playlists, vec![5, 2]);
    assert_eq!(selection.unsupported, vec![1, 6]);
}

#[test]
fn playlists_that_were_asked_for_count_once() {
    let choices = vec![
        PlaylistChoice { path: path("/m/b.m3u"), selected: false },
        PlaylistChoice { path: path("/m/c.m3u"), selected: false },
        PlaylistChoice { path: path("/m/b.m3u"), selected: true },
        PlaylistChoice { path: path("/m/a.m3u"), selected: true },
        PlaylistChoice { path: path("/m/b.m3u"), selected: true },
    ];
    assert_eq!(order_playlists(&choices), vec![3, 2, 1]);
}

#[test]
fn playlists_are_chosen_among_the_files_of_a_folder() {
    let files = vec![path("/p/b.M3U"), path("/p/x.mp3"), path("/p/a.m3u8"), path("/p/m3u")];
    let choices = choose_playlists(files);
    let shown: Vec<&str> = choices.iter().map(|choice| choice.path.shown.as_str()).collect();
    assert_eq!(shown, ["/p/b.M3U", "/p/a.m3u8"]);
    assert!(choices.iter().all(|choice| choice.selected));
    assert!(choose_playlists(Vec::new()).is_empty());
}

#[test]
fn wanted_tracks_are_the_union_of_the_sources() {
    let library = vec![path("/m/b.mp3"), path("/m/a.mp3")];
    let mut selected = playlist_file("/p/Mix.m3u", b"a.mp3\nz.mp3\nz.mp3\nx.flac\n", true);
    selected.targets[0] = Ok(path("/m/a.mp3"));
    let found = playlist_file("/m/Other.m3u", b"elsewhere.mp3\n", false);
    let wanted = wanted_tracks(&library, &vec![selected, found]);
    let shown: Vec<&str> =
        wanted.order.iter().map(|at| wanted.paths[*at].shown.as_str()).collect();
    assert_eq!(shown, ["/m/a.mp3", "/m/b.mp3", "/music/z.mp3"]);
}

fn audio(tag: Option<Tag>) -> AudioFile {
    AudioFile {
        primary_tag: tag,
        first_tag: None,
        duration_ms: 1_500,
        audio_bitrate: Some(320),
        sample_rate: Some(44_100),
        size: 9,
        modified: Some(7),
    }
}

fn tag(title: &str) -> Tag {
    Tag {
        title: Some(title.to_owned()),
        artist: Some(" Artist ".to_owned()),
        album: None,
        album_artist: Some(" Various ".to_owned()),
        genre: Some(" Pop ".to_owned()),
        comment: Some(" ".to_owned()),
        year: Some(1999),
        track: Some(2),
        track_total: None,
        disk: Some(1),
        disk_total: Some(3),
        pictures: Vec::new(),
    }
}

#[test]
fn tags_are_trimmed_and_filled_in() {
    let track = read_source_track(path("/m/file name.mp3"), &audio(Some(tag("  Song "))));
    let m = track.metadata;
    assert_eq!(m.title, "Song");
    assert_eq!(m.artist, "Artist");
    assert_eq!(m.album, "Unknown Album");
    assert_eq!(m.album_artist, "Various");
    assert_eq!(m.genre, "Pop");
    assert_eq!(m.comment, "");
    assert_eq!((m.year, m.track_number, m.track_total), (1999, 2, 0));
    assert_eq!((m.disc_number, m.disc_total), (1, 3));
    assert_eq!((m.size, m.modified_at, m.duration_ms), (9, 7, 1_500));
    assert_eq!((m.bitrate_kbps, m.sample_rate_hz), (320, 44_100));
    assert!(track.artwork.is_none());
}

#[test]
fn missing_tags_fall_back() {
    let track = read_source_track(path("/m/file name.mp3"), &audio(None));
    assert_eq!(track.metadata.title, "file name");
    assert_eq!(track.metadata.artist, "Unknown Artist");
    assert_eq!(track.metadata.album, "Unknown Album");
    let blank = read_source_track(path("/m/file.name.mp3"), &audio(Some(tag("   "))));
    assert_eq!(blank.metadata.title, "file.name");
    let nameless = read_source_track(path("/"), &audio(None));
    assert_eq!(nameless.metadata.title, "Unknown Title");
}

#[test]
fn first_tag_stands_in_for_the_usual_one() {
    let mut file = audio(None);
    file.first_tag = Some(tag("Other"));
    assert_eq!(read_source_track(path("/m/x.mp3"), &file).metadata.title, "Other");
    file.primary_tag = Some(tag("Usual"));
    assert_eq!(read_source_track(path("/m/x.mp3"), &file).metadata.title, "Usual");
}

#[test]
fn large_measurements_stop_at_the_largest_value() {
    let mut file = audio(None);
    file.duration_ms = u128::from(u32::MAX) + 1;
    file.modified = Some(u64::MAX);
    let m = read_source_track(path("/m/x.mp3"), &file).metadata;
    assert_eq!(m.duration_ms, u32::MAX);
    assert_eq!(m.modified_at, i64::MAX);
    file.modified = None;
    file.audio_bitrate = None;
    file.sample_rate = None;
    let m = read_source_track(path("/m/x.mp3"), &file).metadata;
    assert_eq!((m.modified_at, m.bitrate_kbps, m.sample_rate_hz), (0, 0, 0));
}

#[test]
fn front_cover_comes_before_other_pictures() {
    let mut tag = tag("Song");
    tag.pictures.push(Picture { front_cover: false, data: vec![1] });
    let artwork =
        |tag: Tag| read_source_track(path("/m/x.mp3"), &audio(Some(tag))).artwork;
    let mut with_front = self::tag("Song");
    with_front.pictures.push(Picture { front_cover: false, data: vec![1] });
    with_front.pictures.push(Picture { front_cover: true, data: vec![2] });
    with_front.pictures.push(Picture { front_cover: true, data: vec![3] });
    let first = artwork(tag).unwrap();
    assert_eq!(first.data, vec![1]);
    assert_eq!(first.source, "embedded in /m/x.mp3");
    assert_eq!(artwork(with_front).unwrap().data, vec![2]);
    let mut empty = self::tag("Song");
    empty.pictures.push(Picture { front_cover: true, data: Vec::new() });
    empty.pictures.push(Picture { front_cover: false, data: vec![1] });
    assert!(artwork(empty).is_none());
}

fn local(place: &str, title: &str) -> SourceTrack {
    read_source_track(path(place), &audio(Some(tag(title))))
}

#[test]
fn repeated_recordings_are_left_out() {
    let tracks = vec![local("/m/1.mp3", "One"), local("/m/2.mp3", "ONE "), local("/m/3.mp3", "Two")];
    let file = PlaylistFile {
        path: path("/m/Mix.m3u"),
        selected: false,
        contents: Ok(b"2.mp3\n3.mp3\n".to_vec()),
        targets: vec![Ok(path("/m/2.mp3")), Ok(path("/m/3.mp3"))],
    };
    let sources = scan_sources(tracks, &vec![file]).unwrap();
    let shown: Vec<&str> =
        sources.tracks.iter().map(|track| track.path.shown.as_str()).collect();
    assert_eq!(shown, ["/m/1.mp3", "/m/3.mp3"]);
    assert_eq!(sources.duplicates, 1);
    assert_eq!(sources.playlists[0].tracks.len(), 2);
    assert_eq!(sources.playlists[0].tracks[0].title, "one");
    assert_eq!(sources.playlists[0].tracks[1].title, "two");
}

#[test]
fn selected_playlists_may_name_tracks_anywhere() {
    let file = playlist_file("/p/Mix.m3u", b"far/away.mp3\n", true);
    let files = vec![file];
    let wanted = wanted_tracks(&Vec::new(), &files);
    let tracks: Vec<SourceTrack> = wanted
        .order
        .iter()
        .map(|at| local(&wanted.paths[*at].shown, "Away"))
        .collect();
    let sources = scan_sources(tracks, &files).unwrap();
    assert_eq!(sources.tracks.len(), 1);
    assert_eq!(sources.playlists[0].tracks[0].title, "away");
}

#[test]
fn faulty_playlists_stop_the_scan() {
    let file = playlist_file("/p/Mix.m3u", b"gone.mp3\n", false);
    assert!(matches!(
        scan_sources(vec![local("/m/1.mp3", "One")], &vec![file]),
        Err(PlaylistError::Outside { .. })
    ));
}

#[test]
fn files_next_to_a_track_stand_in_for_its_own_artwork() {
    let external = || Some(Artwork { data: vec![9], source: "/m/cover.jpg".to_owned() });
    let bare = with_external_artwork(local("/m/x.mp3", "Song"), external());
    assert_eq!(bare.artwork.unwrap().data, vec![9]);
    assert_eq!(bare.path.shown, "/m/x.mp3");
    assert_eq!(bare.metadata.title, "Song");
    assert!(with_external_artwork(local("/m/x.mp3", "Song"), None).artwork.is_none());
    let mut with_picture = tag("Song");
    with_picture.pictures.push(Picture { front_cover: true, data: vec![1] });
    let track = read_source_track(path("/m/x.mp3"), &audio(Some(with_picture)));
    assert_eq!(with_external_artwork(track, external()).artwork.unwrap().data, vec![1]);
}

#[test]
fn entries_begin_at_the_root_or_next_to_the_playlist() {
    let contents = "#EXTM3U\n./a b/../ü.mp3\n/abs//x.mp3\n../up.mp3\n".as_bytes();
    let places = entry_paths(&path("/m/lists/Mix.m3u"), contents).unwrap();
    assert_eq!(
        places,
        [
            vec![
                b"/".to_vec(),
                b"m".to_vec(),
                b"lists".to_vec(),
                b"a b".to_vec(),
                b"..".to_vec(),
                "ü.mp3".as_bytes().to_vec(),
            ],
            vec![b"/".to_vec(), b"abs".to_vec(), b"x.mp3".to_vec()],
            vec![
                b"/".to_vec(),
                b"m".to_vec(),
                b"lists".to_vec(),
                b"..".to_vec(),
                b"up.mp3".to_vec(),
            ],
        ]
    );
    assert!(entry_paths(&path("/m/Mix.m3u"), b"\xff").is_none());
    assert_eq!(path("/").written_path("x"), [b".".to_vec(), b"x".to_vec()]);
}

fn parts(texts: &[&str]) -> Vec<Vec<u8>> {
    texts.iter().map(|text| text.as_bytes().to_vec()).collect()
}

#[test]
fn entries_that_ask_for_a_directory_lead_to_no_file() {
    let contents = b"one.mp3\none.mp3/\none.mp3/.\none.mp3.\n..\n.\n/\none.mp3/./\n";
    assert_eq!(
        entry_paths(&path("/m/Mix.m3u"), contents).unwrap(),
        [
            parts(&["/", "m", "one.mp3"]),
            parts(&["/", "m", "one.mp3", "."]),
            parts(&["/", "m", "one.mp3", "."]),
            parts(&["/", "m", "one.mp3."]),
            parts(&["/", "m", ".."]),
            parts(&["/", "m"]),
            parts(&["/", "."]),
            parts(&["/", "m", "one.mp3", "."]),
        ]
    );
}

#[test]
fn entries_on_a_drive_stay_on_it_unless_they_name_another() {
    let file = FilePath {
        components: parts(&["\\\\?\\D:", "/", "music", "Mix.m3u"]),
        shown: "D:\\music\\Mix.m3u".to_owned(),
    };
    for (written, expected) in [
        ("/x/y.mp3", parts(&["\\\\?\\D:", "/", "x", "y.mp3"])),
        ("\\x.mp3", parts(&["\\\\?\\D:", "/", "x.mp3"])),
        ("a\\.\\b.mp3", parts(&["\\\\?\\D:", "/", "music", "a", "b.mp3"])),
        ("a.mp3/", parts(&["\\\\?\\D:", "/", "music", "a.mp3"])),
        ("C:/x/y.mp3", parts(&["C:/x/y.mp3"])),
        ("c:\\x\\", parts(&["c:\\x\\"])),
        ("\\\\box\\share\\x.mp3", parts(&["\\\\box\\share\\x.mp3"])),
    ] {
        assert_eq!(file.written_path(written), expected, "{written}");
        assert_eq!(file.followed_path(written), expected, "{written}");
    }
    assert_eq!(path("/m/Mix.m3u").written_path("C:/x"), parts(&["/", "m", "C:", "x"]));
    assert_eq!(path("/m/Mix.m3u").written_path("//x"), parts(&["/", "x"]));
}

#[test]
fn written_paths_are_joined_as_by_the_standard_library() {
    for file in ["/m/Mix.m3u", "/Mix.m3u", "/a/b/c.m3u8"] {
        let directory = std::path::Path::new(file).parent().unwrap();
        for written in ["x.mp3", "a/b.mp3", "/x", "/", "a//b", "a/./b/", "../x", "ä ö", "a\\b", "./x"] {
            let joined = from_std(&directory.join(written));
            assert_eq!(path(file).written_path(written), joined.components, "{file} {written}");
        }
    }
}

fn from_std(path: &std::path::Path) -> FilePath {
    let components =
        path.components().map(|part| part.as_os_str().as_encoded_bytes().to_vec()).collect();
    FilePath { components, shown: path.display().to_string() }
}

#[test]
fn paths_are_ordered_and_taken_apart_as_by_the_standard_library() {
    let texts = [
        "/", "/a", "/a/b", "/a/b.mp3", "/a.b/c", "/ab", "/a/.mp3", "/a/b.", "/a/..mp3", "/a/b.c.d",
        "/ä/ö.mp3", "/a/..", "/b", "/a b/c", "/a-b/c",
    ];
    for one in texts {
        let first = std::path::Path::new(one);
        let plain = from_std(first);
        assert_eq!(
            plain.file_stem(),
            first.file_stem().map(|stem| stem.to_str().unwrap().to_owned()),
            "{one}"
        );
        assert_eq!(is_mp3(&plain), first.extension().is_some_and(|e| e == "mp3"), "{one}");
        for two in texts {
            let second = std::path::Path::new(two);
            assert_eq!(plain.before(&from_std(second)), first < second, "{one} {two}");
            assert_eq!(plain.same_file(&from_std(second)), first == second, "{one} {two}");
        }
    }
}
