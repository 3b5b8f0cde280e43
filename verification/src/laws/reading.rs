//! What reading local files gives, in terms of what is in them.

use vstd::prelude::*;

use crate::m3u::{m3u_entries, M3uEntry};
use crate::path::FilePath;
use crate::source::{read_source_track, AudioFile, Picture, SourceTrack, Tag};
use crate::text;

verus! {

/// Whether `short` is the part of a text from `lo` to `hi`, with nothing but white
/// space on either side of it and none at its ends.
pub open spec fn is_core(value: Seq<char>, short: Seq<char>, lo: int, hi: int) -> bool {
    &&& 0 <= lo <= hi <= value.len()
    &&& short == value.subrange(lo, hi)
    &&& forall|i: int| 0 <= i < lo || hi <= i < value.len() ==> text::is_white(#[trigger] value[i])
    &&& lo < hi ==> !text::is_white(value[lo]) && !text::is_white(value[hi - 1])
}

/// Whether `short` is what is left of a text without white space at its ends.
pub open spec fn is_core_of(value: Seq<char>, short: Seq<char>) -> bool {
    exists|lo: int, hi: int| #[trigger] is_core(value, short, lo, hi)
}

proof fn lemma_trim_start(value: Seq<char>) -> (lo: int)
    ensures
        0 <= lo <= value.len(),
        text::trim_start(value) == value.skip(lo),
        forall|i: int| 0 <= i < lo ==> text::is_white(#[trigger] value[i]),
        lo < value.len() ==> !text::is_white(value[lo]),
    decreases value.len(),
{
    if value.len() > 0 && text::is_white(value[0]) {
        let rest = value.drop_first();
        let lo = lemma_trim_start(rest);
        assert(rest.skip(lo) =~= value.skip(lo + 1));
        assert forall|i: int| 0 <= i < lo + 1 implies text::is_white(#[trigger] value[i]) by {
            if i > 0 {
                assert(value[i] == rest[i - 1]);
            }
        }
        if lo < rest.len() {
            assert(rest[lo] == value[lo + 1]);
        }
        lo + 1
    } else {
        assert(value.skip(0) =~= value);
        0
    }
}

proof fn lemma_trim_end(value: Seq<char>) -> (hi: int)
    ensures
        0 <= hi <= value.len(),
        text::trim_end(value) == value.take(hi),
        forall|i: int| hi <= i < value.len() ==> text::is_white(#[trigger] value[i]),
        hi > 0 ==> !text::is_white(value[hi - 1]),
    decreases value.len(),
{
    if value.len() > 0 && text::is_white(value.last()) {
        let rest = value.drop_last();
        let hi = lemma_trim_end(rest);
        assert(rest.take(hi) =~= value.take(hi));
        assert forall|i: int| hi <= i < value.len() implies text::is_white(#[trigger] value[i]) by {
            if i < rest.len() {
                assert(value[i] == rest[i]);
            }
        }
        hi
    } else {
        assert(value.take(value.len() as int) =~= value);
        value.len() as int
    }
}

/// Trimming takes away the white space at the ends of a text and nothing else.
pub proof fn law_trimming_leaves_the_core(value: Seq<char>)
    ensures
        is_core_of(value, text::trimmed(value)),
{
    let lo = lemma_trim_start(value);
    let rest = value.skip(lo);
    let n = lemma_trim_end(rest);
    assert(rest.take(n) =~= value.subrange(lo, lo + n));
    assert forall|i: int| 0 <= i < lo || lo + n <= i < value.len() implies text::is_white(
        #[trigger] value[i],
    ) by {
        if i >= lo {
            assert(value[i] == rest[i - lo]);
        }
    }
    if n > 0 {
        assert(rest[0] == value[lo]);
        assert(rest[n - 1] == value[lo + n - 1]);
    }
    assert(is_core(value, text::trimmed(value), lo, lo + n));
}

/// There is only one core.
pub(crate) proof fn lemma_one_core(value: Seq<char>, short: Seq<char>)
    requires
        is_core_of(value, short),
    ensures
        short == text::trimmed(value),
{
    law_trimming_leaves_the_core(value);
    let (a, b) = choose|lo: int, hi: int| #[trigger] is_core(value, short, lo, hi);
    let (c, d) = choose|lo: int, hi: int| #[trigger]
        is_core(value, text::trimmed(value), lo, hi);
    if a < b && c < d {
        if a < c {
            assert(text::is_white(value[a]));
        }
        if c < a {
            assert(text::is_white(value[c]));
        }
        if b < d {
            assert(text::is_white(value[d - 1]));
        }
        if d < b {
            assert(text::is_white(value[b - 1]));
        }
    } else if a < b {
        assert(text::is_white(value[a]));
    } else if c < d {
        assert(text::is_white(value[c]));
    }
    assert(short =~= text::trimmed(value));
}

/// Whether a tag's text has anything but white space in it.
pub open spec fn says_something(value: Option<String>) -> bool {
    value matches Some(v) && exists|i: int| 0 <= i < v@.len() && !text::is_white(#[trigger] v@[i])
}

/// Whether `got` is what a tag says, without white space at its ends, or `otherwise`
/// where it says nothing.
pub open spec fn is_said(value: Option<String>, got: Seq<char>, otherwise: Seq<char>) -> bool {
    if says_something(value) {
        is_core_of(value->Some_0@, got) && got.len() > 0
    } else {
        got == otherwise
    }
}

proof fn lemma_filled(value: Option<String>, otherwise: Seq<char>)
    ensures
        is_said(value, crate::source::filled(value, otherwise), otherwise),
{
    if let Some(v) = value {
        law_trimming_leaves_the_core(v@);
        text::law_trimmed_has_no_outer_white_space(v@);
        if text::is_blank(v@) {
            assert(!says_something(value));
        } else {
            let i = choose|i: int| 0 <= i < v@.len() && !text::is_white(#[trigger] v@[i]);
            assert(!text::is_white(v@[i]));
        }
    }
}

/// Every text that an MP3's tag has ends up in the metadata of its own, without the
/// white space at its ends. A missing artist or album becomes unknown, a missing
/// title what the file's name gives, and any other missing text nothing. The numbers
/// of the tag are taken over, zero for a missing one.
pub proof fn law_tags_are_read(path: FilePath, file: &AudioFile, tag: Tag, track: SourceTrack)
    requires
        call_ensures(read_source_track, (path, file), track),
        file.primary_tag == Some(tag) || (file.primary_tag is None && file.first_tag == Some(tag)),
    ensures
        track.path == path,
        says_something(tag.title) ==> is_said(tag.title, track.metadata.title@, Seq::empty()),
        is_said(tag.artist, track.metadata.artist@, "Unknown Artist"@),
        is_said(tag.album, track.metadata.album@, "Unknown Album"@),
        is_said(tag.album_artist, track.metadata.album_artist@, Seq::empty()),
        is_said(tag.genre, track.metadata.genre@, Seq::empty()),
        is_said(tag.comment, track.metadata.comment@, Seq::empty()),
        track.metadata.year == (if tag.year is Some { tag.year->Some_0 } else { 0 }),
        track.metadata.track_number == (if tag.track is Some { tag.track->Some_0 } else { 0 }),
        track.metadata.track_total == (if tag.track_total is Some { tag.track_total->Some_0 } else { 0 }),
        track.metadata.disc_number == (if tag.disk is Some { tag.disk->Some_0 } else { 0 }),
        track.metadata.disc_total == (if tag.disk_total is Some { tag.disk_total->Some_0 } else { 0 }),
{
    lemma_filled(tag.title, crate::source::fallback_title(path));
    lemma_filled(tag.artist, "Unknown Artist"@);
    lemma_filled(tag.album, "Unknown Album"@);
    lemma_filled(tag.album_artist, Seq::empty());
    lemma_filled(tag.genre, Seq::empty());
    lemma_filled(tag.comment, Seq::empty());
}

/// A title that the tag does not have comes from the file's name: what stands before
/// its extension, or that it is unknown.
pub proof fn law_missing_titles_come_from_the_file_name(
    path: FilePath,
    file: &AudioFile,
    stem: Option<String>,
    track: SourceTrack,
)
    requires
        call_ensures(read_source_track, (path, file), track),
        call_ensures(FilePath::file_stem, (&path,), stem),
        file.primary_tag matches Some(tag) ==> !says_something(tag.title),
        file.primary_tag is None ==> (file.first_tag matches Some(tag) ==> !says_something(
            tag.title,
        )),
    ensures
        track.metadata.title@ == match stem {
            Some(name) => if name@.len() > 0 { name@ } else { "Unknown Title"@ },
            None => "Unknown Title"@,
        },
{
    let title = if file.primary_tag is Some {
        file.primary_tag->Some_0.title
    } else {
        file.first_tag->Some_0.title
    };
    lemma_filled(title, crate::source::fallback_title(path));
}

/// An MP3 without a tag is unknown but for its file.
pub proof fn law_untagged_files_are_unknown(path: FilePath, file: &AudioFile, track: SourceTrack)
    requires
        call_ensures(read_source_track, (path, file), track),
        file.primary_tag is None && file.first_tag is None,
    ensures
        track.path == path,
        track.artwork is None,
        track.metadata.artist@ == "Unknown Artist"@,
        track.metadata.album@ == "Unknown Album"@,
        track.metadata.album_artist@.len() == 0,
        track.metadata.genre@.len() == 0,
        track.metadata.comment@.len() == 0,
        track.metadata.year == 0,
        track.metadata.track_number == 0,
        track.metadata.track_total == 0,
        track.metadata.disc_number == 0,
        track.metadata.disc_total == 0,
{
}

/// What was measured of an MP3 file ends up in its metadata: the size as it is, the
/// duration and the time of the last change as far as they fit, and zero for what is
/// not known. It is music.
pub proof fn law_measurements_are_read(path: FilePath, file: &AudioFile, track: SourceTrack)
    requires
        call_ensures(read_source_track, (path, file), track),
    ensures
        track.metadata.size == file.size,
        track.metadata.media_kind == crate::database::MediaKind::Music,
        file.duration_ms <= 0xffff_ffff ==> track.metadata.duration_ms == file.duration_ms,
        file.duration_ms > 0xffff_ffff ==> track.metadata.duration_ms == 0xffff_ffff,
        file.modified is None ==> track.metadata.modified_at == 0,
        file.modified matches Some(seconds) ==> {
            &&& seconds <= 0x7fff_ffff_ffff_ffff ==> track.metadata.modified_at == seconds
            &&& seconds > 0x7fff_ffff_ffff_ffff ==> track.metadata.modified_at
                == 0x7fff_ffff_ffff_ffff
        },
        file.audio_bitrate matches Some(rate) ==> track.metadata.bitrate_kbps == rate,
        file.audio_bitrate is None ==> track.metadata.bitrate_kbps == 0,
        file.sample_rate matches Some(rate) ==> track.metadata.sample_rate_hz == rate,
        file.sample_rate is None ==> track.metadata.sample_rate_hz == 0,
{
}

/// Whether a picture is the one to show: the first front cover, or the first picture
/// of all where there is no front cover.
pub open spec fn is_cover_picture(pictures: Seq<Picture>, i: int) -> bool {
    &&& 0 <= i < pictures.len()
    &&& pictures[i].front_cover ==> forall|j: int|
        0 <= j < i ==> !(#[trigger] pictures[j]).front_cover
    &&& !pictures[i].front_cover ==> i == 0 && forall|j: int|
        0 <= j < pictures.len() ==> !(#[trigger] pictures[j]).front_cover
}

/// The cover art in an MP3's tag is its first front cover, or else its first picture,
/// unless there is nothing in that.
pub proof fn law_embedded_covers_are_read(
    path: FilePath,
    file: &AudioFile,
    tag: Tag,
    track: SourceTrack,
    i: int,
)
    requires
        call_ensures(read_source_track, (path, file), track),
        file.primary_tag == Some(tag) || (file.primary_tag is None && file.first_tag == Some(tag)),
        tag.pictures@.len() > 0 ==> is_cover_picture(tag.pictures@, i),
    ensures
        tag.pictures@.len() == 0 ==> track.artwork is None,
        tag.pictures@.len() > 0 && tag.pictures@[i].data@.len() == 0 ==> track.artwork is None,
        tag.pictures@.len() > 0 && tag.pictures@[i].data@.len() > 0 ==> (track.artwork matches Some(
            artwork,
        ) && artwork.data@ == tag.pictures@[i].data@ && artwork.source@ == "embedded in "@
            + path.shown@),
{
    let pictures = tag.pictures@;
    if pictures.len() > 0 {
        let at = crate::source::cover_index(pictures);
        if pictures[i].front_cover {
            assert(0 <= at < pictures.len() && pictures[at].front_cover && forall|j: int|
                0 <= j < at ==> !(#[trigger] pictures[j]).front_cover);
            if at < i {
                assert(!pictures[at].front_cover);
            }
            if i < at {
                assert(!pictures[i].front_cover);
            }
        }
        assert(at == i);
    }
}

/// How many line feeds are among the first `n` characters.
pub open spec fn feeds(contents: Seq<char>, n: int) -> nat
    decreases n,
{
    if n <= 0 {
        0
    } else {
        feeds(contents, n - 1) + if contents[n - 1] == '\n' {
            1nat
        } else {
            0nat
        }
    }
}

/// Whether the characters from `from` to `to` are the line of this number, counted
/// from one: it lies between two line feeds, or the ends of the text.
pub open spec fn is_line(contents: Seq<char>, number: nat, from: int, to: int) -> bool {
    &&& 0 <= from <= to <= contents.len()
    &&& from == 0 || contents[from - 1] == '\n'
    &&& to == contents.len() || contents[to] == '\n'
    &&& forall|i: int| from <= i < to ==> #[trigger] contents[i] != '\n'
    &&& number == 1 + feeds(contents, from)
}

/// Whether an entry is the line from `from` to `to`, without white space at its ends,
/// and this is neither empty nor a comment.
pub open spec fn is_entry(
    contents: Seq<char>,
    entry: (nat, Seq<char>),
    from: int,
    to: int,
) -> bool {
    &&& is_line(contents, entry.0, from, to)
    &&& is_core_of(contents.subrange(from, to), entry.1)
    &&& entry.1.len() > 0
    &&& entry.1[0] != '#'
}

/// Whether an entry is one of the lines that begin at `start` or later.
pub open spec fn is_line_from(contents: Seq<char>, entry: (nat, Seq<char>), start: int) -> bool {
    exists|from: int, to: int| start <= from && #[trigger] is_entry(contents, entry, from, to)
}

proof fn lemma_line_end_ends(contents: Seq<char>, from: int)
    requires
        0 <= from <= contents.len(),
    ensures
        from <= crate::m3u::line_end(contents, from) <= contents.len(),
        forall|i: int|
            from <= i < crate::m3u::line_end(contents, from) ==> #[trigger] contents[i] != '\n',
        crate::m3u::line_end(contents, from) < contents.len()
            ==> contents[crate::m3u::line_end(contents, from)] == '\n',
    decreases contents.len() - from,
{
    if from < contents.len() && contents[from] != '\n' {
        lemma_line_end_ends(contents, from + 1);
    }
}

proof fn lemma_feeds_within_a_line(contents: Seq<char>, from: int, to: int)
    requires
        0 <= from <= to <= contents.len(),
        forall|i: int| from <= i < to ==> #[trigger] contents[i] != '\n',
    ensures
        feeds(contents, to) == feeds(contents, from),
    decreases to - from,
{
    if from < to {
        assert(contents[to - 1] != '\n');
        lemma_feeds_within_a_line(contents, from, to - 1);
    }
}

/// The entries from a line on are the lines from there on that name a track.
proof fn lemma_entries_are_lines(contents: Seq<char>, from: int, line: nat)
    requires
        0 <= from <= contents.len(),
        from == 0 || contents[from - 1] == '\n',
        line == 1 + feeds(contents, from),
    ensures
        forall|k: int|
            0 <= k < crate::m3u::entries_from(contents, from, line).len() ==> is_line_from(
                contents,
                #[trigger] crate::m3u::entries_from(contents, from, line)[k],
                from,
            ),
        forall|entry: (nat, Seq<char>), f: int, t: int|
            from <= f && #[trigger] is_entry(contents, entry, f, t)
                ==> crate::m3u::entries_from(contents, from, line).contains(entry),
    decreases contents.len() - from,
{
    let all = crate::m3u::entries_from(contents, from, line);
    if from < contents.len() {
        lemma_line_end_ends(contents, from);
        let end = crate::m3u::line_end(contents, from);
        let short = text::trimmed(contents.subrange(from, end));
        let rest = crate::m3u::entries_from(contents, end + 1, line + 1);
        lemma_feeds_within_a_line(contents, from, end);
        law_trimming_leaves_the_core(contents.subrange(from, end));
        if end < contents.len() {
            assert(feeds(contents, end + 1) == feeds(contents, end) + 1);
            lemma_entries_are_lines(contents, end + 1, line + 1);
        } else {
            assert(rest =~= Seq::empty());
        }
        let listed = crate::m3u::names_track(short);
        assert(all == if listed {
            seq![(line, short)] + rest
        } else {
            rest
        });
        if listed {
            assert(is_entry(contents, (line, short), from, end));
            assert(all[0] == (line, short));
        }
        assert forall|k: int| 0 <= k < all.len() implies is_line_from(
            contents,
            #[trigger] all[k],
            from,
        ) by {
            if listed && k == 0 {
                assert(is_entry(contents, all[k], from, end));
            } else {
                let j = if listed {
                    k - 1
                } else {
                    k
                };
                assert(all[k] == rest[j]);
                assert(is_line_from(contents, rest[j], end + 1));
                let (f, t) = choose|f: int, t: int|
                    end + 1 <= f && #[trigger] is_entry(contents, rest[j], f, t);
                assert(is_entry(contents, all[k], f, t));
            }
        }
        assert forall|entry: (nat, Seq<char>), f: int, t: int|
            from <= f && #[trigger] is_entry(contents, entry, f, t) implies all.contains(entry) by {
            if f == from {
                if t < end {
                    assert(contents[t] != '\n');
                }
                if end < t {
                    assert(contents[end] != '\n');
                }
                lemma_one_core(contents.subrange(from, end), entry.1);
                assert(entry == (line, short));
                assert(all[0] == entry);
            } else {
                if f <= end {
                    assert(contents[f - 1] != '\n');
                }
                if end == contents.len() {
                    assert(false);
                }
                assert(rest.contains(entry));
                let j = choose|j: int| 0 <= j < rest.len() && rest[j] == entry;
                if listed {
                    assert(all[j + 1] == entry);
                } else {
                    assert(all[j] == entry);
                }
            }
        }
    } else {
        assert(all =~= Seq::empty());
        assert forall|entry: (nat, Seq<char>), f: int, t: int|
            from <= f && #[trigger] is_entry(contents, entry, f, t) implies all.contains(entry) by {
            assert(contents.subrange(f, t).len() == 0);
            assert(entry.1.len() == 0);
        }
    }
}

/// The bytes of a playlist file after the byte order mark that it may begin with.
pub open spec fn after_mark(bytes: Seq<u8>) -> Seq<u8> {
    if bytes.len() >= 3 && bytes.take(3) == seq![0xefu8, 0xbbu8, 0xbfu8] {
        bytes.skip(3)
    } else {
        bytes
    }
}

pub(crate) proof fn lemma_after_mark(bytes: Seq<u8>)
    ensures
        crate::m3u::without_mark(bytes) == after_mark(bytes),
{
    if bytes.len() >= 3 {
        assert(bytes.take(3)[0] == bytes[0] && bytes.take(3)[1] == bytes[1] && bytes.take(3)[2]
            == bytes[2]);
        if bytes[0] == 0xef && bytes[1] == 0xbb && bytes[2] == 0xbf {
            assert(bytes.take(3) =~= seq![0xefu8, 0xbbu8, 0xbfu8]);
        }
    }
}

/// A playlist file that is UTF-8 is read whole: each of its lines that is neither
/// empty nor a comment, white space at its ends aside, is an entry with the number of
/// its line, wherever it stands and however many come before it.
pub proof fn law_every_line_is_read(
    bytes: &[u8],
    read: Result<Vec<M3uEntry>, String>,
    entry: (nat, Seq<char>),
    from: int,
    to: int,
)
    requires
        call_ensures(m3u_entries, (bytes,), read),
        vstd::utf8::valid_utf8(after_mark(bytes@)),
        is_entry(vstd::utf8::decode_utf8(after_mark(bytes@)), entry, from, to),
    ensures
        read matches Ok(entries) && exists|k: int|
            0 <= k < entries@.len() && (#[trigger] entries@[k]).line == entry.0
                && entries@[k].text@ == entry.1,
{
    let contents = vstd::utf8::decode_utf8(after_mark(bytes@));
    lemma_after_mark(bytes@);
    lemma_entries_are_lines(contents, 0, 1);
    let entries = read->Ok_0;
    let listed = crate::m3u::listed(entries@);
    assert(listed.contains(entry));
    let k = choose|k: int| 0 <= k < listed.len() && listed[k] == entry;
    assert(entries@[k].line == entry.0 && entries@[k].text@ == entry.1);
}

/// What is read from a playlist file is in it: each entry is one of its lines, with
/// its number, and the entries come in the order of their lines. A file is read
/// exactly where it is UTF-8.
pub proof fn law_nothing_but_lines_is_read(bytes: &[u8], read: Result<Vec<M3uEntry>, String>)
    requires
        call_ensures(m3u_entries, (bytes,), read),
    ensures
        read is Ok <==> vstd::utf8::valid_utf8(after_mark(bytes@)),
        read matches Ok(entries) ==> forall|k: int|
            0 <= k < entries@.len() ==> is_line_from(
                vstd::utf8::decode_utf8(after_mark(bytes@)),
                ((#[trigger] entries@[k]).line as nat, entries@[k].text@),
                0,
            ),
        read matches Ok(entries) ==> forall|a: int, b: int|
            0 <= a < b < entries@.len() ==> (#[trigger] entries@[a]).line < (
            #[trigger] entries@[b]).line,
{
    let contents = vstd::utf8::decode_utf8(after_mark(bytes@));
    lemma_after_mark(bytes@);
    if let Ok(entries) = read {
        let listed = crate::m3u::listed(entries@);
        lemma_entries_are_lines(contents, 0, 1);
        crate::laws::files::law_comments_are_no_entries(bytes@, listed);
        assert forall|k: int| 0 <= k < entries@.len() implies is_line_from(
            contents,
            ((#[trigger] entries@[k]).line as nat, entries@[k].text@),
            0,
        ) by {
            assert(listed[k] == (entries@[k].line as nat, entries@[k].text@));
            assert(is_line_from(contents, listed[k], 0));
        }
        assert forall|a: int, b: int| 0 <= a < b < entries@.len() implies (#[trigger] entries@[a]).line
            < (#[trigger] entries@[b]).line by {
            assert(listed[a].0 < listed[b].0);
        }
    }
}

} // verus!
