//! What holds of tags and of the identity of recordings.

use vstd::prelude::*;

use crate::source::SourceTrack;
use crate::text;

verus! {

/// Where there is a track artist, the album artist plays no part in a
/// recording's identity.
pub proof fn law_album_artist_is_only_a_fallback(
    first_album_artist: Seq<char>,
    second_album_artist: Seq<char>,
    artist: Seq<char>,
    album: Seq<char>,
    title: Seq<char>,
    size: u64,
    duration_ms: u32,
    track_number: u32,
    disc_number: u32,
)
    requires
        !text::is_blank(artist),
    ensures
        crate::key::identity_of(
            first_album_artist,
            artist,
            album,
            title,
            size,
            duration_ms,
            track_number,
            disc_number,
        ) == crate::key::identity_of(
            second_album_artist,
            artist,
            album,
            title,
            size,
            duration_ms,
            track_number,
            disc_number,
        ),
{
}

/// Where there is no track artist, the album artist counts as if it were one.
pub proof fn law_album_artist_stands_in(
    album_artist: Seq<char>,
    other_album_artist: Seq<char>,
    artist: Seq<char>,
    album: Seq<char>,
    title: Seq<char>,
    size: u64,
    duration_ms: u32,
    track_number: u32,
    disc_number: u32,
)
    requires
        text::is_blank(artist),
        !text::is_blank(album_artist),
    ensures
        crate::key::identity_of(
            album_artist,
            artist,
            album,
            title,
            size,
            duration_ms,
            track_number,
            disc_number,
        ) == crate::key::identity_of(
            other_album_artist,
            album_artist,
            album,
            title,
            size,
            duration_ms,
            track_number,
            disc_number,
        ),
{
}

proof fn lemma_words_around_blank(a: Seq<char>, gap: Seq<char>, b: Seq<char>)
    requires
        text::is_blank(gap),
        gap.len() > 0,
    ensures
        text::words(a + gap + b) == text::words(a) + text::words(b),
    decreases gap.len(),
{
    let w = gap[0];
    let rest = gap.drop_first();
    assert(a + gap + b =~= a.push(w) + (rest + b));
    text::law_white_space_parts_words(a, w, rest + b);
    if rest.len() > 0 {
        assert forall|i: int| 0 <= i < rest.len() implies text::is_white(#[trigger] rest[i]) by {
            assert(rest[i] == gap[i + 1]);
        }
        lemma_words_around_blank(Seq::empty(), rest, b);
        assert(Seq::<char>::empty() + rest + b =~= rest + b);
        assert(text::words(Seq::empty()) + text::words(b) =~= text::words(b));
    } else {
        assert(rest + b =~= b);
    }
}

/// How much white space stands between two parts of a tag makes no difference.
pub proof fn law_width_of_gaps_is_ignored(
    a: Seq<char>,
    gap: Seq<char>,
    other_gap: Seq<char>,
    b: Seq<char>,
)
    requires
        text::is_blank(gap) && gap.len() > 0,
        text::is_blank(other_gap) && other_gap.len() > 0,
    ensures
        crate::key::normal_tag(a + gap + b) == crate::key::normal_tag(a + other_gap + b),
{
    lemma_words_around_blank(a, gap, b);
    lemma_words_around_blank(a, other_gap, b);
}

/// White space around a tag makes no difference.
pub proof fn law_outer_white_space_is_ignored(before: Seq<char>, tag: Seq<char>, after: Seq<char>)
    requires
        text::is_blank(before),
        text::is_blank(after),
    ensures
        crate::key::normal_tag(before + tag + after) == crate::key::normal_tag(tag),
{
    let none = Seq::<char>::empty();
    assert(text::words(none) =~= Seq::empty());
    if before.len() > 0 {
        lemma_words_around_blank(none, before, tag + after);
        assert(none + before + (tag + after) =~= before + tag + after);
        assert(text::words(none) + text::words(tag + after) =~= text::words(tag + after));
    } else {
        assert(before + tag + after =~= tag + after);
    }
    if after.len() > 0 {
        lemma_words_around_blank(tag, after, none);
        assert(tag + after + none =~= tag + after);
        assert(text::words(tag) + text::words(none) =~= text::words(tag));
    } else {
        assert(tag + after =~= tag);
    }
}

/// A tag and the tag without white space around it are the same.
pub proof fn law_trimmed_tag_is_the_same(tag: Seq<char>)
    ensures
        crate::key::normal_tag(text::trimmed(tag)) == crate::key::normal_tag(tag),
{
    text::law_trimming_keeps_words(tag);
}

proof fn lemma_lower_keeps_white(c: char)
    ensures
        text::is_white(text::ascii_lower(c)) == text::is_white(c),
        text::ascii_lower(text::ascii_lower(c)) == text::ascii_lower(c),
{
}

proof fn lemma_word_len_lowered(value: Seq<char>)
    ensures
        text::word_len(text::ascii_lowered(value)) == text::word_len(value),
    decreases value.len(),
{
    let low = text::ascii_lowered(value);
    if value.len() > 0 {
        lemma_lower_keeps_white(value[0]);
        assert(low.drop_first() =~= text::ascii_lowered(value.drop_first()));
        lemma_word_len_lowered(value.drop_first());
    }
}

/// The words with their ASCII letters in small form.
pub open spec fn words_lowered(value: Seq<char>) -> Seq<Seq<char>> {
    text::words(value).map_values(|word: Seq<char>| text::ascii_lowered(word))
}

proof fn lemma_words_lowered(value: Seq<char>)
    ensures
        text::words(text::ascii_lowered(value)) == words_lowered(value),
    decreases value.len(),
{
    let low = text::ascii_lowered(value);
    if value.len() == 0 {
        assert(text::words(low) =~= words_lowered(value));
    } else {
        lemma_lower_keeps_white(value[0]);
        if text::is_white(value[0]) {
            assert(low.drop_first() =~= text::ascii_lowered(value.drop_first()));
            lemma_words_lowered(value.drop_first());
        } else {
            let n = text::word_len(value) as int;
            text::lemma_word_len(value);
            lemma_word_len_lowered(value);
            assert(low.take(n) =~= text::ascii_lowered(value.take(n)));
            assert(low.skip(n) =~= text::ascii_lowered(value.skip(n)));
            lemma_words_lowered(value.skip(n));
            assert(text::words(low) =~= seq![low.take(n)] + text::words(low.skip(n)));
            assert(words_lowered(value) =~= seq![text::ascii_lowered(value.take(n))]
                + words_lowered(value.skip(n)));
        }
    }
}

proof fn lemma_spaced_lowered(parts: Seq<Seq<char>>)
    ensures
        text::ascii_lowered(text::spaced(parts)) == text::spaced(
            parts.map_values(|word: Seq<char>| text::ascii_lowered(word)),
        ),
    decreases parts.len(),
{
    let low = parts.map_values(|word: Seq<char>| text::ascii_lowered(word));
    if parts.len() == 0 {
        assert(text::ascii_lowered(text::spaced(parts)) =~= text::spaced(low));
    } else if parts.len() > 1 {
        let front = parts.drop_last();
        lemma_spaced_lowered(front);
        assert(low.drop_last() =~= front.map_values(|word: Seq<char>| text::ascii_lowered(word)));
        assert(text::ascii_lowered(text::spaced(parts)) =~= text::ascii_lowered(
            text::spaced(front),
        ).push(' ') + text::ascii_lowered(parts.last()));
    }
}

/// Tags of ASCII characters that differ in nothing but capital and small letters
/// have the same normal form.
pub proof fn law_ascii_case_of_tags_is_ignored(a: Seq<char>, b: Seq<char>)
    requires
        vstd::utf8::is_ascii_chars(a),
        vstd::utf8::is_ascii_chars(b),
        text::ascii_lowered(a) == text::ascii_lowered(b),
    ensures
        crate::key::normal_tag(a) == crate::key::normal_tag(b),
{
    text::law_ascii_text_has_ascii_words(a);
    text::law_ascii_text_has_ascii_words(b);
    lemma_words_lowered(a);
    lemma_words_lowered(b);
    law_words_up_to_case_decide(a, b);
}

/// The words of a tag in normal form are the words of the tag in small letters:
/// as many, in the same order. The tag's words are of ASCII characters.
pub proof fn law_normal_form_keeps_words(tag: Seq<char>)
    requires
        text::has_ascii_words(tag),
    ensures
        text::words(crate::key::normal_tag(tag)) == words_lowered(tag),
        crate::key::normal_tag(tag) == text::spaced(words_lowered(tag)),
{
    law_ascii_words_lower_one_by_one(tag);
    law_small_words_decide(tag, tag);
}

/// Two tags whose words are of ASCII characters have the same normal form
/// exactly where their words agree, one by one, but for capital and small
/// letters.
pub proof fn law_words_up_to_case_decide(a: Seq<char>, b: Seq<char>)
    requires
        text::has_ascii_words(a),
        text::has_ascii_words(b),
    ensures
        crate::key::normal_tag(a) == crate::key::normal_tag(b) <==> words_lowered(a)
            == words_lowered(b),
{
    law_normal_form_keeps_words(a);
    law_normal_form_keeps_words(b);
}

/// A tag and its words with single spaces between them have the same normal
/// form, whatever its characters.
pub proof fn law_spaced_words_are_the_same(tag: Seq<char>)
    ensures
        crate::key::normal_tag(text::spaced(text::words(tag))) == crate::key::normal_tag(tag),
{
    text::law_spacing_keeps_words(tag);
}

/// Two tags, whatever their characters, have the same normal form exactly where
/// their words with single spaces between them have the same small letters.
pub proof fn law_small_letters_decide(a: Seq<char>, b: Seq<char>)
    ensures
        crate::key::normal_tag(a) == crate::key::normal_tag(b) <==> text::lowered(
            text::spaced(text::words(a)),
        ) == text::lowered(text::spaced(text::words(b))),
{
}

/// Whether capital ASCII letters make no difference to the small letters of a text.
pub open spec fn ignores_ascii_case(value: Seq<char>) -> bool {
    text::lowered(text::ascii_lowered(value)) == text::lowered(value)
}

/// Two tags, whatever their characters, whose words agree, one by one, but for
/// capital and small ASCII letters have the same normal form, where capital ASCII
/// letters make no difference to the small letters of the two.
pub proof fn law_words_up_to_ascii_case_agree(a: Seq<char>, b: Seq<char>)
    requires
        words_lowered(a) == words_lowered(b),
        ignores_ascii_case(text::spaced(text::words(a))),
        ignores_ascii_case(text::spaced(text::words(b))),
    ensures
        text::words(a).len() == text::words(b).len(),
        crate::key::normal_tag(a) == crate::key::normal_tag(b),
{
    lemma_spaced_lowered(text::words(a));
    lemma_spaced_lowered(text::words(b));
    assert(text::words(a).len() == words_lowered(a).len());
    assert(text::words(b).len() == words_lowered(b).len());
}

/// The words of a tag, each in small letters.
pub open spec fn small_words(tag: Seq<char>) -> Seq<Seq<char>> {
    text::words(tag).map_values(|word: Seq<char>| text::lowered(word))
}

/// Whether the words of a tag, with single spaces between them, have the small
/// letters that each word has for itself, and stay words.
pub open spec fn lowers_word_by_word(tag: Seq<char>) -> bool {
    &&& text::lowered(text::spaced(text::words(tag))) == text::spaced(small_words(tag))
    &&& forall|i: int|
        0 <= i < small_words(tag).len() ==> text::is_word(#[trigger] small_words(tag)[i])
}

/// Where small letters are found word by word, whatever the characters, no word is
/// merged or dropped: the words of the normal form are those of the tag in small
/// letters, and two tags have the same normal form exactly where these agree.
pub proof fn law_small_words_decide(a: Seq<char>, b: Seq<char>)
    requires
        lowers_word_by_word(a),
        lowers_word_by_word(b),
    ensures
        text::words(crate::key::normal_tag(a)) == small_words(a),
        small_words(a).len() == text::words(a).len(),
        crate::key::normal_tag(a) == crate::key::normal_tag(b) <==> small_words(a)
            == small_words(b),
{
    text::law_spaced_is_single_spaced(small_words(a));
    text::law_spaced_is_single_spaced(small_words(b));
}

/// Words of ASCII characters are put in small letters word by word.
pub proof fn law_ascii_words_lower_one_by_one(tag: Seq<char>)
    requires
        text::has_ascii_words(tag),
    ensures
        lowers_word_by_word(tag),
        small_words(tag) == words_lowered(tag),
        ignores_ascii_case(text::spaced(text::words(tag))),
{
    let squeezed = text::spaced(text::words(tag));
    text::lemma_spaced_words_are_ascii(tag);
    text::law_words_hold_no_white_space(tag);
    assert(small_words(tag) =~= words_lowered(tag));
    lemma_spaced_lowered(text::words(tag));
    assert forall|i: int| 0 <= i < small_words(tag).len() implies text::is_word(
        #[trigger] small_words(tag)[i],
    ) by {
        let word = text::words(tag)[i];
        let small = small_words(tag)[i];
        assert(text::is_word(word));
        assert forall|j: int| 0 <= j < small.len() implies !text::is_white(#[trigger] small[j]) by {
            lemma_lower_keeps_white(word[j]);
        }
    }
    lemma_lowered_is_lower(squeezed);
    lemma_lowered_is_ascii(squeezed);
}

/// A normal form, whatever the characters, holds no white space but single spaces
/// between words, is in small letters, is empty where the tag is blank, and is its
/// own normal form, where putting the tag's words in small letters adds no white
/// space and puts them in small letters for good. It is empty only where the tag is
/// blank, unless nothing is left of the words in small letters.
pub proof fn law_settled_normal_form_is_normal(tag: Seq<char>)
    requires
        text::is_single_spaced(text::lowered(text::spaced(text::words(tag)))),
        text::lowered(text::lowered(text::spaced(text::words(tag)))) == text::lowered(
            text::spaced(text::words(tag)),
        ),
    ensures
        text::is_single_spaced(crate::key::normal_tag(tag)),
        text::lowered(crate::key::normal_tag(tag)) == crate::key::normal_tag(tag),
        crate::key::normal_tag(crate::key::normal_tag(tag)) == crate::key::normal_tag(tag),
        text::is_blank(tag) ==> crate::key::normal_tag(tag).len() == 0,
        (text::spaced(text::words(tag)).len() > 0 ==> text::lowered(
            text::spaced(text::words(tag)),
        ).len() > 0) ==> (crate::key::normal_tag(tag).len() == 0 <==> text::is_blank(tag)),
{
    text::law_single_spaced_text_is_its_words(crate::key::normal_tag(tag));
    text::law_spaced_words_are_single_spaced(tag);
}

proof fn lemma_lowered_is_ascii(value: Seq<char>)
    requires
        vstd::utf8::is_ascii_chars(value),
    ensures
        vstd::utf8::is_ascii_chars(text::ascii_lowered(value)),
{
    let low = text::ascii_lowered(value);
    assert forall|i: int| 0 <= i < low.len() implies (#[trigger] low[i] as u32) < 128 by {
        assert((value[i] as u32) < 128);
    }
}

proof fn lemma_lowered_is_lower(value: Seq<char>)
    ensures
        text::ascii_lowered(text::ascii_lowered(value)) == text::ascii_lowered(value),
{
    let low = text::ascii_lowered(value);
    assert forall|i: int| 0 <= i < value.len() implies text::ascii_lower(low[i]) == low[i] by {
        lemma_lower_keeps_white(value[i]);
    }
    assert(text::ascii_lowered(low) =~= low);
}

/// A normal form, of a tag whose words are of ASCII characters, is in small
/// letters, holds no white space but single spaces between words, is empty where
/// the tag is blank, and is its own normal form.
pub proof fn law_normal_form_is_normal(tag: Seq<char>)
    requires
        text::has_ascii_words(tag),
    ensures
        text::is_single_spaced(crate::key::normal_tag(tag)),
        crate::key::normal_tag(tag).len() == 0 <==> text::is_blank(tag),
        text::ascii_lowered(crate::key::normal_tag(tag)) == crate::key::normal_tag(tag),
        crate::key::normal_tag(crate::key::normal_tag(tag)) == crate::key::normal_tag(tag),
{
    let squeezed = text::spaced(text::words(tag));
    let normal = crate::key::normal_tag(tag);
    text::lemma_spaced_words_are_ascii(tag);
    text::law_spaced_words_are_single_spaced(tag);
    assert(normal == text::ascii_lowered(squeezed));
    assert forall|i: int| 0 <= i < normal.len() && text::is_white(#[trigger] normal[i]) implies {
        &&& normal[i] == ' '
        &&& 0 < i < normal.len() - 1
        &&& !text::is_white(normal[i - 1])
        &&& !text::is_white(normal[i + 1])
    } by {
        lemma_lower_keeps_white(squeezed[i]);
        assert(text::is_white(squeezed[i]));
        lemma_lower_keeps_white(squeezed[i - 1]);
        lemma_lower_keeps_white(squeezed[i + 1]);
    }
    lemma_lowered_is_lower(squeezed);
    lemma_lowered_is_ascii(squeezed);
    law_settled_normal_form_is_normal(tag);
}

proof fn lemma_trim_start_lowered(value: Seq<char>)
    ensures
        text::trim_start(text::ascii_lowered(value)) == text::ascii_lowered(
            text::trim_start(value),
        ),
    decreases value.len(),
{
    if value.len() > 0 {
        lemma_lower_keeps_white(value[0]);
        assert(text::ascii_lowered(value).drop_first() =~= text::ascii_lowered(value.drop_first()));
        lemma_trim_start_lowered(value.drop_first());
    }
}

proof fn lemma_trim_end_lowered(value: Seq<char>)
    ensures
        text::trim_end(text::ascii_lowered(value)) == text::ascii_lowered(text::trim_end(value)),
    decreases value.len(),
{
    if value.len() > 0 {
        lemma_lower_keeps_white(value.last());
        assert(text::ascii_lowered(value).drop_last() =~= text::ascii_lowered(value.drop_last()));
        lemma_trim_end_lowered(value.drop_last());
    }
}

/// Playlist names of ASCII characters that differ in nothing but capital and
/// small letters have the same normal form.
pub proof fn law_ascii_case_of_names_is_ignored(a: Seq<char>, b: Seq<char>)
    requires
        vstd::utf8::is_ascii_chars(a),
        vstd::utf8::is_ascii_chars(b),
        text::ascii_lowered(a) == text::ascii_lowered(b),
    ensures
        crate::key::normal_name(a) == crate::key::normal_name(b),
{
    text::lemma_trimmed_is_ascii(a);
    text::lemma_trimmed_is_ascii(b);
    lemma_trim_start_lowered(a);
    lemma_trim_start_lowered(b);
    lemma_trim_end_lowered(text::trim_start(a));
    lemma_trim_end_lowered(text::trim_start(b));
}

/// A duration is off its whole seconds by half a second at most.
pub proof fn law_durations_are_rounded(milliseconds: u32)
    ensures
        crate::key::rounded_seconds(milliseconds) * 1000 - 500 <= milliseconds
            < crate::key::rounded_seconds(milliseconds) * 1000 + 500,
{
}

/// Recordings that are the same have the same size, numbers and whole seconds.
pub proof fn law_same_recording_has_same_size(
    a: (Seq<char>, Seq<char>, Seq<char>, Seq<char>, u64, u32, u32, u32),
    b: (Seq<char>, Seq<char>, Seq<char>, Seq<char>, u64, u32, u32, u32),
)
    requires
        crate::key::identity_of(a.0, a.1, a.2, a.3, a.4, a.5, a.6, a.7) == crate::key::identity_of(
            b.0,
            b.1,
            b.2,
            b.3,
            b.4,
            b.5,
            b.6,
            b.7,
        ),
    ensures
        a.4 == b.4,
        crate::key::rounded_seconds(a.5) == crate::key::rounded_seconds(b.5),
        a.6 == b.6,
        a.7 == b.7,
{
}

/// A text as a device stores it: nothing where it was left out.
pub open spec fn stored(value: Option<Seq<char>>) -> Seq<char> {
    match value {
        Some(s) => s,
        None => Seq::empty(),
    }
}

proof fn lemma_stored_is_trimmed(value: Seq<char>)
    ensures
        stored(crate::database::text_if_any(value)) == text::trimmed(value),
{
    text::law_trimmed_has_no_outer_white_space(value);
    if text::is_blank(value) {
        assert(text::trimmed(value) =~= Seq::empty());
    }
}

/// A track that was added from a local file is recognized as that file: as the
/// device stores it, it has the local track's identity.
pub proof fn law_added_track_is_recognized(source: SourceTrack)
    ensures
        ({
            let addition = crate::database::addition_of(
                source.path.parts(),
                source.path.shown@,
                source.metadata,
            );
            crate::key::identity_of(
                stored(addition.album_artist),
                stored(addition.artist),
                stored(addition.album),
                addition.title,
                source.metadata.size,
                addition.length_ms,
                addition.track_number,
                addition.disc_number,
            ) == crate::source::source_identity(source)
        }),
{
    let m = source.metadata;
    lemma_stored_is_trimmed(m.album_artist@);
    lemma_stored_is_trimmed(m.artist@);
    lemma_stored_is_trimmed(m.album@);
    law_trimmed_tag_is_the_same(m.album_artist@);
    law_trimmed_tag_is_the_same(m.artist@);
    law_trimmed_tag_is_the_same(m.album@);
    text::law_trimmed_has_no_outer_white_space(m.artist@);
    let artist = text::trimmed(m.artist@);
    if !text::is_blank(m.artist@) {
        assert(!text::is_white(artist[0]));
    }
}

/// A device that drops the album artist of a track, or stores another one, makes
/// no difference where the track has an artist: the track is still recognized.
pub proof fn law_dropped_album_artist_makes_no_difference(
    source: SourceTrack,
    album_artist: Seq<char>,
)
    requires
        !text::is_blank(source.metadata.artist@),
    ensures
        ({
            let addition = crate::database::addition_of(
                source.path.parts(),
                source.path.shown@,
                source.metadata,
            );
            crate::key::identity_of(
                album_artist,
                stored(addition.artist),
                stored(addition.album),
                addition.title,
                source.metadata.size,
                addition.length_ms,
                addition.track_number,
                addition.disc_number,
            ) == crate::source::source_identity(source)
        }),
{
    let artist = source.metadata.artist@;
    law_added_track_is_recognized(source);
    lemma_stored_is_trimmed(artist);
    text::law_trimmed_has_no_outer_white_space(artist);
    assert(!text::is_white(text::trimmed(artist)[0]));
}

} // verus!
