use copypod::database::non_empty;
use copypod::key::{metadata_key, normalize_playlist_name, normalize_tag};

#[test]
fn track_keys_normalize_tags_but_require_the_same_size() {
    let first = metadata_key(
        "Compilation Artist",
        "  Some   Artist ",
        "ALBUM",
        "Song",
        12_345,
        61_200,
        2,
        1,
    );
    let same = metadata_key("", "some artist", "album", " song ", 12_345, 61_499, 2, 1);
    let different_size = metadata_key("", "some artist", "album", "song", 12_346, 61_200, 2, 1);

    assert_eq!(first, same);
    assert_ne!(first, different_size);
}

#[test]
fn track_key_falls_back_to_album_artist_when_artist_is_missing() {
    let album_artist = metadata_key("Artist", "", "Album", "Song", 1, 1, 0, 0);
    let track_artist = metadata_key("", "Artist", "Album", "Song", 1, 1, 0, 0);

    assert_eq!(album_artist, track_artist);
}

#[test]
fn album_artist_does_not_matter_beside_a_track_artist() {
    let one = metadata_key("Various", "Artist", "Album", "Song", 1, 1, 0, 0);
    let other = metadata_key("", "Artist", "Album", "Song", 1, 1, 0, 0);
    assert_eq!(one, other);
}

#[test]
fn blank_artist_counts_as_missing() {
    let blank = metadata_key("Artist", " \t\u{3000} ", "Album", "Song", 1, 1, 0, 0);
    let missing = metadata_key("Artist", "", "Album", "Song", 1, 1, 0, 0);
    assert_eq!(blank, missing);
    assert_eq!(blank.artist, "artist");
}

#[test]
fn every_part_of_a_key_matters() {
    let key = metadata_key("", "a", "b", "c", 1, 1_000, 2, 3);
    assert_ne!(key, metadata_key("", "x", "b", "c", 1, 1_000, 2, 3));
    assert_ne!(key, metadata_key("", "a", "x", "c", 1, 1_000, 2, 3));
    assert_ne!(key, metadata_key("", "a", "b", "x", 1, 1_000, 2, 3));
    assert_ne!(key, metadata_key("", "a", "b", "c", 9, 1_000, 2, 3));
    assert_ne!(key, metadata_key("", "a", "b", "c", 1, 9_000, 2, 3));
    assert_ne!(key, metadata_key("", "a", "b", "c", 1, 1_000, 9, 3));
    assert_ne!(key, metadata_key("", "a", "b", "c", 1, 1_000, 2, 9));
    assert_eq!(key, key.clone());
}

#[test]
fn durations_are_rounded_to_seconds() {
    for (milliseconds, seconds) in [
        (0, 0),
        (499, 0),
        (500, 1),
        (1_499, 1),
        (1_500, 2),
        (61_200, 61),
        (61_499, 61),
        (u32::MAX - 500, 4_294_967),
        (u32::MAX, 4_294_967),
    ] {
        let key = metadata_key("", "a", "b", "c", 1, milliseconds, 0, 0);
        assert_eq!(key.duration_seconds, seconds);
    }
}

#[test]
fn tags_are_squeezed_and_lowered() {
    assert_eq!(normalize_tag("  Some \n\t Artist\u{a0}X "), "some artist x");
    assert_eq!(normalize_tag("   "), "");
    assert_eq!(normalize_tag("ÄÖÜ ẞ"), "äöü ß");
    assert_eq!(normalize_tag("a b"), normalize_tag("A \r\n B"));
    assert_ne!(normalize_tag("ab"), normalize_tag("a b"));
}

#[test]
fn normal_forms_are_normal() {
    for tag in ["", " \t ", "A", "  Some \n\t Artist\u{a0}X ", "ab\u{2003}C", "ÄÖ  ü", "İ ΟΔΟΣ\u{3000}Σ"] {
        let normal = normalize_tag(tag);
        assert_eq!(normalize_tag(&normal), normal);
        assert_eq!(normal.is_empty(), tag.trim().is_empty());
        assert_eq!(normal.trim(), normal);
        assert!(!normal.contains("  "));
        assert!(normal.chars().all(|c| c == ' ' || !c.is_whitespace()));
        assert_eq!(normal.split(' ').count().max(1), tag.split_whitespace().count().max(1));
    }
}

#[test]
fn words_decide_whatever_their_case_and_gaps() {
    assert_eq!(normalize_tag("AB  c"), normalize_tag("\u{a0}ab\tC "));
    assert_ne!(normalize_tag("ab c"), normalize_tag("a bc"));
    assert_ne!(normalize_tag("ab c"), normalize_tag("abc"));
    assert_ne!(normalize_tag("a b"), normalize_tag("b a"));
    assert_eq!(normalize_tag("Ätna ROCK"), normalize_tag("Ätna  rock"));
    assert_eq!(normalize_tag("ΟΔΟΣ ÄB"), normalize_tag("οδος\täb"));
    assert_ne!(normalize_tag("ä b"), normalize_tag("äb"));
}

#[test]
fn playlist_names_are_trimmed_and_lowered() {
    assert_eq!(normalize_playlist_name("  Road  Trip "), "road  trip");
    assert_eq!(normalize_playlist_name("ROAD"), normalize_playlist_name("road"));
    assert_eq!(normalize_playlist_name("É"), "é");
}

#[test]
fn white_space_is_what_the_standard_library_calls_so() {
    for c in '\0'..=char::MAX {
        assert_eq!(non_empty(&c.to_string()).is_none(), c.is_whitespace(), "{c:?}");
    }
}

#[test]
fn tags_are_taken_apart_as_by_the_standard_library() {
    for tag in ["", " ", "a", " a ", "a b", "\ta\u{2003}\u{2003}b\n\nc ", "ab\u{85}c\u{200b}d"] {
        let joined: Vec<&str> = tag.split_whitespace().collect();
        assert_eq!(normalize_tag(tag), joined.join(" ").to_lowercase());
        assert_eq!(normalize_playlist_name(tag), tag.trim().to_lowercase());
    }
}
