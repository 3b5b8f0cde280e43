//! Which tracks are the same recording, and what becomes of them.

use vstd::prelude::*;

use crate::database::Track;
use crate::key::{metadata_key, normalize_playlist_name, normalize_tag, TrackKey};
use crate::plan::{make_plan, KeptTrack};
use crate::source::{existing_key, source_key, SourceTrack};
use crate::sync::{plan_sync, SyncPlan};
use crate::text;

verus! {

/// Whether two characters are the same but that one may be the capital ASCII letter
/// of the other.
pub open spec fn same_letter(a: char, b: char) -> bool {
    ||| a == b
    ||| 'A' <= a && a <= 'Z' && b as u32 == a as u32 + 32
    ||| 'A' <= b && b <= 'Z' && a as u32 == b as u32 + 32
}

/// Whether two texts are the same but for capital and small ASCII letters.
pub open spec fn same_letters(a: Seq<char>, b: Seq<char>) -> bool {
    &&& a.len() == b.len()
    &&& forall|i: int| 0 <= i < a.len() ==> same_letter(#[trigger] a[i], b[i])
}

/// Whether two texts have the same words, one by one, but for capital and small
/// ASCII letters.
pub open spec fn same_words(a: Seq<char>, b: Seq<char>) -> bool {
    &&& text::words(a).len() == text::words(b).len()
    &&& forall|i: int|
        0 <= i < text::words(a).len() ==> same_letters(
            #[trigger] text::words(a)[i],
            text::words(b)[i],
        )
}

pub(crate) proof fn lemma_same_letter(a: char, b: char)
    ensures
        same_letter(a, b) <==> text::ascii_lower(a) == text::ascii_lower(b),
{
    let c = text::ascii_lower(a);
    let d = text::ascii_lower(b);
    if 'A' <= a && a <= 'Z' {
        assert(c as u32 == a as u32 + 32);
    }
    if 'A' <= b && b <= 'Z' {
        assert(d as u32 == b as u32 + 32);
    }
}

proof fn lemma_same_letters(a: Seq<char>, b: Seq<char>)
    ensures
        same_letters(a, b) <==> text::ascii_lowered(a) == text::ascii_lowered(b),
{
    let c = text::ascii_lowered(a);
    let d = text::ascii_lowered(b);
    if c == d {
        assert(c.len() == a.len() && d.len() == b.len());
        assert forall|i: int| 0 <= i < a.len() implies same_letter(#[trigger] a[i], b[i]) by {
            assert(c[i] == d[i]);
            lemma_same_letter(a[i], b[i]);
        }
    }
    if same_letters(a, b) {
        assert forall|i: int| 0 <= i < a.len() implies c[i] == d[i] by {
            lemma_same_letter(a[i], b[i]);
        }
        assert(c =~= d);
    }
}

proof fn lemma_same_words(a: Seq<char>, b: Seq<char>)
    ensures
        same_words(a, b) <==> crate::laws::keys::words_lowered(a)
            == crate::laws::keys::words_lowered(b),
{
    let c = crate::laws::keys::words_lowered(a);
    let d = crate::laws::keys::words_lowered(b);
    assert(c.len() == text::words(a).len() && d.len() == text::words(b).len());
    if c == d {
        assert forall|i: int| 0 <= i < text::words(a).len() implies same_letters(
            #[trigger] text::words(a)[i],
            text::words(b)[i],
        ) by {
            assert(c[i] == d[i]);
            lemma_same_letters(text::words(a)[i], text::words(b)[i]);
        }
    }
    if same_words(a, b) {
        assert forall|i: int| 0 <= i < c.len() implies c[i] == d[i] by {
            lemma_same_letters(text::words(a)[i], text::words(b)[i]);
        }
        assert(c =~= d);
    }
}

/// The artist that counts: the track's, or the album's where the track's is blank.
pub open spec fn counting_artist(tags: (&str, &str, &str, &str, u64, u32, u32, u32)) -> Seq<char> {
    if exists|i: int| 0 <= i < tags.1@.len() && !text::is_white(#[trigger] tags.1@[i]) {
        tags.1@
    } else {
        tags.0@
    }
}

proof fn lemma_counting_artist(tags: (&str, &str, &str, &str, u64, u32, u32, u32), key: TrackKey)
    requires
        call_ensures(metadata_key, tags, key),
    ensures
        key.artist@ == crate::key::normal_tag(counting_artist(tags)),
        key.album@ == crate::key::normal_tag(tags.2@),
        key.title@ == crate::key::normal_tag(tags.3@),
{
    assert(key@.artist == key.artist@ && key@.album == key.album@ && key@.title == key.title@);
    if text::is_blank(tags.1@) {
        assert(counting_artist(tags) == tags.0@);
    } else {
        let i = choose|i: int| 0 <= i < tags.1@.len() && !text::is_white(#[trigger] tags.1@[i]);
        assert(!text::is_white(tags.1@[i]));
    }
}

/// Two tracks are the same recording exactly where their artists, albums and titles
/// have the same words, whatever the capital and small letters and the white space
/// between them, and their sizes, numbers and whole seconds are the same. Artists
/// count by the track's, or by the album's where the track has none. The tags are of
/// ASCII words, in the order: album artist, artist, album, title, size, duration,
/// track number, disc number.
pub proof fn law_same_tags_make_the_same_recording(
    a: (&str, &str, &str, &str, u64, u32, u32, u32),
    b: (&str, &str, &str, &str, u64, u32, u32, u32),
    first: TrackKey,
    second: TrackKey,
)
    requires
        call_ensures(metadata_key, a, first),
        call_ensures(metadata_key, b, second),
        text::has_ascii_words(counting_artist(a)) && text::has_ascii_words(counting_artist(b)),
        text::has_ascii_words(a.2@) && text::has_ascii_words(b.2@),
        text::has_ascii_words(a.3@) && text::has_ascii_words(b.3@),
    ensures
        first@ == second@ <==> {
            &&& same_words(counting_artist(a), counting_artist(b))
            &&& same_words(a.2@, b.2@)
            &&& same_words(a.3@, b.3@)
            &&& a.4 == b.4
            &&& first.duration_seconds == second.duration_seconds
            &&& a.6 == b.6
            &&& a.7 == b.7
        },
{
    lemma_counting_artist(a, first);
    lemma_counting_artist(b, second);
    lemma_same_words(counting_artist(a), counting_artist(b));
    lemma_same_words(a.2@, b.2@);
    lemma_same_words(a.3@, b.3@);
    crate::laws::keys::law_words_up_to_case_decide(counting_artist(a), counting_artist(b));
    crate::laws::keys::law_words_up_to_case_decide(a.2@, b.2@);
    crate::laws::keys::law_words_up_to_case_decide(a.3@, b.3@);
}

/// A recording's artist, album and title are each put in normal form by themselves,
/// whatever their characters. Its size and numbers are taken as they are, and its
/// duration is off by half a second at most.
pub proof fn law_keys_hold_normal_tags(
    tags: (&str, &str, &str, &str, u64, u32, u32, u32),
    key: TrackKey,
    artist_name: &str,
    artist: String,
    album: String,
    title: String,
)
    requires
        call_ensures(metadata_key, tags, key),
        artist_name@ == counting_artist(tags),
        call_ensures(normalize_tag, (artist_name,), artist),
        call_ensures(normalize_tag, (tags.2,), album),
        call_ensures(normalize_tag, (tags.3,), title),
    ensures
        key.artist@ == artist@,
        key.album@ == album@,
        key.title@ == title@,
        key.size == tags.4,
        key.duration_seconds * 1000 - 500 <= tags.5 < key.duration_seconds * 1000 + 500,
        key.track_number == tags.6,
        key.disc_number == tags.7,
{
    lemma_counting_artist(tags, key);
    assert(key@.size == key.size && key@.duration_seconds == key.duration_seconds);
    assert(key@.track_number == key.track_number && key@.disc_number == key.disc_number);
    crate::laws::keys::law_durations_are_rounded(tags.5);
}

pub(crate) proof fn lemma_lowered_letters(value: Seq<char>)
    ensures
        same_letters(value, text::ascii_lowered(value)),
        forall|i: int|
            0 <= i < value.len() ==> !('A' <= #[trigger] text::ascii_lowered(value)[i]
                && text::ascii_lowered(value)[i] <= 'Z'),
{
    let low = text::ascii_lowered(value);
    assert forall|i: int| 0 <= i < value.len() implies same_letter(#[trigger] value[i], low[i]) by {
        if 'A' <= value[i] && value[i] <= 'Z' {
            assert(text::ascii_lower(value[i]) as u32 == value[i] as u32 + 32);
        }
    }
    assert forall|i: int| 0 <= i < value.len() implies !('A' <= #[trigger] low[i] && low[i]
        <= 'Z') by {
        if 'A' <= value[i] && value[i] <= 'Z' {
            assert(text::ascii_lower(value[i]) as u32 == value[i] as u32 + 32);
        }
    }
}

/// A tag of ASCII words in normal form has the same words, without capital letters,
/// and single spaces between them.
pub proof fn law_normal_tags_have_the_same_words(value: &str, normal: String)
    requires
        call_ensures(normalize_tag, (value,), normal),
        text::has_ascii_words(value@),
    ensures
        same_words(value@, normal@),
        text::is_single_spaced(normal@),
        forall|i: int| 0 <= i < normal@.len() ==> !('A' <= #[trigger] normal@[i] && normal@[i] <= 'Z'),
{
    crate::laws::keys::law_normal_form_keeps_words(value@);
    crate::laws::keys::law_normal_form_is_normal(value@);
    lemma_lowered_letters(normal@);
    let words = text::words(value@);
    let small = text::words(normal@);
    assert forall|i: int| 0 <= i < words.len() implies same_letters(#[trigger] words[i], small[i]) by {
        lemma_lowered_letters(words[i]);
        assert(small[i] == text::ascii_lowered(words[i]));
    }
}

/// A track on the device is told apart by its own tags and measurements.
pub proof fn law_device_tracks_are_told_apart_by_their_tags(
    track: &Track,
    tags: (&str, &str, &str, &str, u64, u32, u32, u32),
    own: TrackKey,
    key: TrackKey,
)
    requires
        call_ensures(existing_key, (track,), own),
        call_ensures(metadata_key, tags, key),
        tags.0@ == track.album_artist@,
        tags.1@ == track.artist@,
        tags.2@ == track.album@,
        tags.3@ == track.title@,
        tags.4 == track.size,
        tags.5 == track.duration_ms,
        tags.6 == track.track_number,
        tags.7 == track.disc_number,
    ensures
        own@ == key@,
        own@ == crate::source::existing_identity(*track),
{
}

/// A local track is told apart by its own tags and measurements.
pub proof fn law_local_tracks_are_told_apart_by_their_tags(
    source: &SourceTrack,
    tags: (&str, &str, &str, &str, u64, u32, u32, u32),
    own: TrackKey,
    key: TrackKey,
)
    requires
        call_ensures(source_key, (source,), own),
        call_ensures(metadata_key, tags, key),
        tags.0@ == source.metadata.album_artist@,
        tags.1@ == source.metadata.artist@,
        tags.2@ == source.metadata.album@,
        tags.3@ == source.metadata.title@,
        tags.4 == source.metadata.size,
        tags.5 == source.metadata.duration_ms,
        tags.6 == source.metadata.track_number,
        tags.7 == source.metadata.disc_number,
    ensures
        own@ == key@,
        own@ == crate::source::source_identity(*source),
{
}

/// Whether these are, in order, all indexes below `n` for which something holds.
pub open spec fn are_all(at: Seq<int>, n: int, holds: spec_fn(int) -> bool) -> bool {
    &&& forall|k: int| 0 <= k < at.len() ==> 0 <= #[trigger] at[k] < n && holds(at[k])
    &&& forall|a: int, b: int| 0 <= a < b < at.len() ==> #[trigger] at[a] < #[trigger] at[b]
    &&& forall|i: int| 0 <= i < n && #[trigger] holds(i) ==> at.contains(i)
}

/// The next index is one of them where it holds there.
pub(crate) proof fn lemma_are_all_next(
    at: Seq<int>,
    n: int,
    holds: spec_fn(int) -> bool,
)
    requires
        are_all(at, n, holds),
        n >= 0,
    ensures
        holds(n) ==> are_all(at.push(n), n + 1, holds),
        !holds(n) ==> are_all(at, n + 1, holds),
{
    if holds(n) {
        let more = at.push(n);
        assert forall|i: int| 0 <= i < n + 1 && #[trigger] holds(i) implies more.contains(i) by {
            crate::laws::tracks::lemma_push_contains(at, n, i);
        }
    }
}

/// Whether a track on the device is the first there, with its file, of its recording,
/// and that recording is a local one.
pub open spec fn is_first_of_a_local_recording(
    sources: Seq<SourceTrack>,
    existing: Seq<Track>,
    e: int,
) -> bool {
    let recording = crate::source::existing_identity(existing[e]);
    &&& !existing[e].media_missing
    &&& exists|s: int|
        0 <= s < sources.len() && crate::source::source_identity(#[trigger] sources[s]) == recording
    &&& forall|d: int|
        0 <= d < e && !(#[trigger] existing[d]).media_missing
            ==> crate::source::existing_identity(existing[d]) != recording
}

/// Whether no track on the device, with its file, is the recording of a local track.
pub open spec fn is_nowhere(sources: Seq<SourceTrack>, existing: Seq<Track>, s: int) -> bool {
    forall|e: int|
        0 <= e < existing.len() && !(#[trigger] existing[e]).media_missing
            ==> crate::source::existing_identity(existing[e]) != crate::source::source_identity(
            sources[s],
        )
}

proof fn lemma_stays(sources: Seq<SourceTrack>, existing: Seq<Track>, e: int)
    requires
        0 <= e < existing.len(),
    ensures
        crate::plan::stays(sources, existing, e) <==> is_first_of_a_local_recording(
            sources,
            existing,
            e,
        ),
{
    let recording = crate::source::existing_identity(existing[e]);
    let ids = crate::plan::source_identities(sources);
    assert(crate::plan::existing_identities(existing)[e] == recording);
    if ids.contains(recording) {
        let s = choose|s: int| 0 <= s < ids.len() && ids[s] == recording;
        assert(crate::source::source_identity(sources[s]) == recording);
    }
    if exists|s: int|
        0 <= s < sources.len() && crate::source::source_identity(#[trigger] sources[s]) == recording {
        let s = choose|s: int|
            0 <= s < sources.len() && crate::source::source_identity(#[trigger] sources[s])
                == recording;
        assert(ids[s] == recording);
    }
    if crate::plan::provided(existing, e, recording) {
        let d = choose|d: int| 0 <= d < e && #[trigger] crate::plan::provides(existing, d, recording);
        assert(!existing[d].media_missing);
    } else {
        assert forall|d: int| 0 <= d < e && !(#[trigger] existing[d]).media_missing implies
            crate::source::existing_identity(existing[d]) != recording by {
            assert(!crate::plan::provides(existing, d, recording));
        }
    }
}

proof fn lemma_is_new(sources: Seq<SourceTrack>, existing: Seq<Track>, s: int)
    requires
        0 <= s < sources.len(),
    ensures
        crate::plan::is_new(sources, existing, s) <==> is_nowhere(sources, existing, s),
{
    let recording = crate::source::source_identity(sources[s]);
    let n = existing.len() as int;
    assert(crate::plan::source_identities(sources)[s] == recording);
    if crate::plan::provided(existing, n, recording) {
        let e = choose|e: int| 0 <= e < n && #[trigger] crate::plan::provides(existing, e, recording);
        assert(!existing[e].media_missing);
    } else {
        assert forall|e: int| 0 <= e < n && !(#[trigger] existing[e]).media_missing implies
            crate::source::existing_identity(existing[e]) != recording by {
            assert(!crate::plan::provides(existing, e, recording));
        }
    }
}

proof fn lemma_staying_are_all(sources: Seq<SourceTrack>, existing: Seq<Track>, n: int)
    requires
        0 <= n <= existing.len(),
    ensures
        are_all(
            crate::plan::staying(sources, existing, n),
            n,
            |e: int| is_first_of_a_local_recording(sources, existing, e),
        ),
        are_all(
            crate::plan::going(sources, existing, n),
            n,
            |e: int| !is_first_of_a_local_recording(sources, existing, e),
        ),
    decreases n,
{
    if n > 0 {
        lemma_staying_are_all(sources, existing, n - 1);
        lemma_stays(sources, existing, n - 1);
        lemma_are_all_next(
            crate::plan::staying(sources, existing, n - 1),
            n - 1,
            |e: int| is_first_of_a_local_recording(sources, existing, e),
        );
        lemma_are_all_next(
            crate::plan::going(sources, existing, n - 1),
            n - 1,
            |e: int| !is_first_of_a_local_recording(sources, existing, e),
        );
    }
}

proof fn lemma_coming_are_all(sources: Seq<SourceTrack>, existing: Seq<Track>, n: int)
    requires
        0 <= n <= sources.len(),
    ensures
        are_all(
            crate::plan::coming(sources, existing, n),
            n,
            |s: int| is_nowhere(sources, existing, s),
        ),
    decreases n,
{
    if n > 0 {
        lemma_coming_are_all(sources, existing, n - 1);
        lemma_is_new(sources, existing, n - 1);
        lemma_are_all_next(
            crate::plan::coming(sources, existing, n - 1),
            n - 1,
            |s: int| is_nowhere(sources, existing, s),
        );
    }
}

/// Whether a kept track is the one at index `e`, and its counterpart the last local
/// track of the same recording.
pub open spec fn is_kept_as(
    kept: KeptTrack,
    sources: Seq<SourceTrack>,
    existing: Seq<Track>,
    e: int,
) -> bool {
    &&& *kept.existing == existing[e]
    &&& exists|s: int|
        0 <= s < sources.len() && *kept.source == #[trigger] sources[s]
            && crate::source::source_identity(sources[s]) == crate::source::existing_identity(
            existing[e],
        ) && forall|t: int|
            s < t < sources.len() ==> crate::source::source_identity(#[trigger] sources[t])
                != crate::source::existing_identity(existing[e])
}

/// Whether these are the tracks that a plan keeps, deletes and copies, found at these
/// indexes: it keeps the first track, with its file, of each local recording on the
/// device, deletes every other track, and copies the local tracks whose recording is
/// nowhere on the device; all of them, in their order, and nothing else.
pub open spec fn are_planned(
    sources: Seq<SourceTrack>,
    existing: Seq<Track>,
    kept: Seq<KeptTrack>,
    deleted: Seq<&Track>,
    copied: Seq<&SourceTrack>,
    at: (Seq<int>, Seq<int>, Seq<int>),
) -> bool {
    &&& are_all(
        at.0,
        existing.len() as int,
        |e: int| is_first_of_a_local_recording(sources, existing, e),
    )
    &&& at.0.len() == kept.len()
    &&& forall|k: int|
        0 <= k < at.0.len() ==> is_kept_as(#[trigger] kept[k], sources, existing, at.0[k])
    &&& are_all(
        at.1,
        existing.len() as int,
        |e: int| !is_first_of_a_local_recording(sources, existing, e),
    )
    &&& at.1.len() == deleted.len()
    &&& forall|k: int| 0 <= k < at.1.len() ==> *(#[trigger] deleted[k]) == existing[at.1[k]]
    &&& are_all(at.2, sources.len() as int, |s: int| is_nowhere(sources, existing, s))
    &&& at.2.len() == copied.len()
    &&& forall|k: int| 0 <= k < at.2.len() ==> *(#[trigger] copied[k]) == sources[at.2[k]]
}

pub(crate) proof fn lemma_planned(
    sources: Seq<SourceTrack>,
    existing: Seq<Track>,
    kept: Seq<KeptTrack>,
    deleted: Seq<&Track>,
    copied: Seq<&SourceTrack>,
) -> (at: (Seq<int>, Seq<int>, Seq<int>))
    requires
        crate::plan::are_kept(
            kept,
            sources,
            existing,
            crate::plan::staying(sources, existing, existing.len() as int),
        ),
        crate::plan::are_at(
            deleted,
            existing,
            crate::plan::going(sources, existing, existing.len() as int),
        ),
        crate::plan::are_at(
            copied,
            sources,
            crate::plan::coming(sources, existing, sources.len() as int),
        ),
    ensures
        are_planned(sources, existing, kept, deleted, copied, at),
{
    lemma_staying_are_all(sources, existing, existing.len() as int);
    lemma_coming_are_all(sources, existing, sources.len() as int);
    let staying = crate::plan::staying(sources, existing, existing.len() as int);
    let ids = crate::plan::source_identities(sources);
    assert forall|k: int| 0 <= k < staying.len() implies is_kept_as(
        #[trigger] kept[k],
        sources,
        existing,
        staying[k],
    ) by {
        let e = staying[k];
        let recording = crate::source::existing_identity(existing[e]);
        assert(is_first_of_a_local_recording(sources, existing, e));
        let s = choose|s: int|
            0 <= s < sources.len() && crate::source::source_identity(#[trigger] sources[s])
                == recording;
        assert(ids[s] == recording);
        crate::index::lemma_last_of(ids, recording);
        let last = crate::index::last_of(ids, recording).unwrap();
        assert(ids[last] == crate::source::source_identity(sources[last]));
        assert forall|t: int| last < t < sources.len() implies crate::source::source_identity(
            #[trigger] sources[t],
        ) != recording by {
            assert(ids[t] == crate::source::source_identity(sources[t]));
        }
        assert(*kept[k].source == sources[last]);
    }
    (
        staying,
        crate::plan::going(sources, existing, existing.len() as int),
        crate::plan::coming(sources, existing, sources.len() as int),
    )
}

/// A plan keeps, deletes and copies what it should, be it for the tracks alone or for
/// their cover art too. The lists are at the indexes that are given.
pub proof fn law_plans_are_complete<'a>(
    sources: &'a Vec<SourceTrack>,
    existing: &'a Vec<Track>,
    plan: (Vec<KeptTrack<'a>>, Vec<&'a Track>, Vec<&'a SourceTrack>),
) -> (at: (Seq<int>, Seq<int>, Seq<int>))
    requires
        call_ensures(make_plan, (sources, existing), plan),
    ensures
        are_planned(sources@, existing@, plan.0@, plan.1@, plan.2@, at),
{
    lemma_planned(sources@, existing@, plan.0@, plan.1@, plan.2@)
}

/// Whether a kept track is without cover art that its counterpart has and the device can
/// store.
pub open spec fn lacks_artwork(kept: KeptTrack, artwork_capable: bool) -> bool {
    artwork_capable && !kept.existing.has_artwork && kept.source.artwork is Some
}

proof fn lemma_lacking_are_all(kept: Seq<KeptTrack>, artwork_capable: bool, n: int)
    requires
        0 <= n <= kept.len() <= usize::MAX,
    ensures
        are_all(
            Seq::new(
                crate::sync::artwork_indexes(kept, artwork_capable, n).len(),
                |k: int| crate::sync::artwork_indexes(kept, artwork_capable, n)[k] as int,
            ),
            n,
            |i: int| lacks_artwork(kept[i], artwork_capable),
        ),
    decreases n,
{
    let found = crate::sync::artwork_indexes(kept, artwork_capable, n);
    let at = Seq::new(found.len(), |k: int| found[k] as int);
    if n > 0 {
        lemma_lacking_are_all(kept, artwork_capable, n - 1);
        let earlier = crate::sync::artwork_indexes(kept, artwork_capable, n - 1);
        let before = Seq::new(earlier.len(), |k: int| earlier[k] as int);
        lemma_are_all_next(before, n - 1, |i: int| lacks_artwork(kept[i], artwork_capable));
        if lacks_artwork(kept[n - 1], artwork_capable) {
            assert(at =~= before.push(n - 1));
        } else {
            assert(at =~= before);
        }
    }
}

/// A plan for a device keeps, deletes and copies what it should, and gives cover art to
/// every kept track that lacks it, in order, and to no other. The lists are at the indexes
/// that are given.
pub proof fn law_sync_plans_are_complete<'a>(
    sources: &'a Vec<SourceTrack>,
    existing: &'a Vec<Track>,
    artwork_capable: bool,
    plan: SyncPlan<'a>,
) -> (at: (Seq<int>, Seq<int>, Seq<int>))
    requires
        call_ensures(plan_sync, (sources, existing, artwork_capable), plan),
        plan.kept@.len() <= usize::MAX,
    ensures
        are_planned(sources@, existing@, plan.kept@, plan.deleted@, plan.copied@, at),
        are_all(
            Seq::new(
                plan.artwork_updates@.len(),
                |k: int| plan.artwork_updates@[k] as int,
            ),
            plan.kept@.len() as int,
            |i: int| lacks_artwork(plan.kept@[i], artwork_capable),
        ),
        plan.artwork_capable == artwork_capable,
{
    lemma_lacking_are_all(plan.kept@, artwork_capable, plan.kept@.len() as int);
    lemma_planned(sources@, existing@, plan.kept@, plan.deleted@, plan.copied@)
}

/// Small letters of a text of ASCII characters are the same letters without capitals, and
/// those of any other text what the standard library makes of it.
pub proof fn law_small_letters_are_the_same_letters(value: Seq<char>)
    ensures
        vstd::utf8::is_ascii_chars(value) ==> same_letters(value, text::lowered(value)),
        vstd::utf8::is_ascii_chars(value) ==> forall|i: int|
            0 <= i < value.len() ==> !('A' <= #[trigger] text::lowered(value)[i] && text::lowered(
                value,
            )[i] <= 'Z'),
        !vstd::utf8::is_ascii_chars(value) ==> text::lowered(value) == text::lowercase(value),
{
    lemma_lowered_letters(value);
}

/// Tags and playlist names with other than ASCII characters are put in the small letters
/// of the standard library: tags as their words with single spaces between them, names
/// without white space at their ends.
pub proof fn law_other_letters_become_small(value: &str, tag: String, name: String)
    requires
        call_ensures(normalize_tag, (value,), tag),
        call_ensures(normalize_playlist_name, (value,), name),
    ensures
        !vstd::utf8::is_ascii_chars(text::spaced(text::words(value@))) ==> tag@ == text::lowercase(
            text::spaced(text::words(value@)),
        ),
        !vstd::utf8::is_ascii_chars(text::trimmed(value@)) ==> name@ == text::lowercase(
            text::trimmed(value@),
        ),
{
}

/// The words of a text are its longest runs without white space: white space parts them,
/// and a run without any is one word.
pub proof fn law_words_are_runs(a: Seq<char>, gap: char, b: Seq<char>)
    requires
        text::is_white(gap),
    ensures
        text::words(a.push(gap) + b) == text::words(a) + text::words(b),
        text::is_word(a) ==> text::words(a) == seq![a],
        text::words(Seq::empty()) == Seq::<Seq<char>>::empty(),
{
    text::law_white_space_parts_words(a, gap, b);
    if text::is_word(a) {
        text::lemma_words_of_word(a);
    }
}

/// Words are put together with single spaces between them.
pub proof fn law_words_are_put_together(parts: Seq<Seq<char>>, last: Seq<char>)
    ensures
        text::spaced(Seq::empty()) == Seq::<char>::empty(),
        text::spaced(seq![last]) == last,
        parts.len() > 0 ==> text::spaced(parts.push(last)) == text::spaced(parts) + seq![' '] + last,
{
    if parts.len() > 0 {
        let all = parts.push(last);
        assert(all.drop_last() =~= parts);
        assert(text::spaced(parts).push(' ') + last =~= text::spaced(parts) + seq![' '] + last);
    }
}

} // verus!
