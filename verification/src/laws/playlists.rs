//! What holds of playlists: those in files, and those on a device.

use vstd::prelude::*;

use crate::database::{Playlist, PlaylistHandle, Track};
use crate::playlist::SourcePlaylist;

verus! {

proof fn lemma_first_free(
    existing: Seq<Playlist>,
    n: int,
    normal: Seq<char>,
    taken: Set<PlaylistHandle>,
)
    requires
        0 <= n <= existing.len(),
    ensures
        match crate::plan::first_free(existing, n, normal, taken) {
            Some(p) => {
                &&& 0 <= p < n
                &&& crate::plan::is_standard(existing[p])
                &&& !taken.contains(existing[p].handle)
                &&& crate::key::normal_name(existing[p].name@) == normal
                &&& forall|q: int|
                    0 <= q < p && crate::plan::is_standard(#[trigger] existing[q])
                        && crate::key::normal_name(existing[q].name@) == normal ==> taken.contains(
                        existing[q].handle,
                    )
            },
            None => forall|q: int|
                0 <= q < n && crate::plan::is_standard(#[trigger] existing[q])
                    && crate::key::normal_name(existing[q].name@) == normal ==> taken.contains(
                    existing[q].handle,
                ),
        },
    decreases n,
{
    if n > 0 {
        lemma_first_free(existing, n - 1, normal, taken);
    }
}

/// Whether the local playlist at index `s` takes the playlist of this number.
pub(crate) open spec fn takes(
    sources: Seq<SourcePlaylist>,
    existing: Seq<Playlist>,
    s: int,
    handle: PlaylistHandle,
) -> bool {
    crate::plan::match_of(sources, existing, s) matches Some(p) && existing[p].handle == handle
}

/// What is taken was taken by one of the local playlists.
pub(crate) proof fn lemma_taken(
    sources: Seq<SourcePlaylist>,
    existing: Seq<Playlist>,
    n: int,
    handle: PlaylistHandle,
)
    requires
        0 <= n <= sources.len(),
    ensures
        crate::plan::taken_by(sources, existing, n).contains(handle) <==> exists|s: int|
            0 <= s < n && #[trigger] takes(sources, existing, s, handle),
    decreases n,
{
    if n > 0 {
        lemma_taken(sources, existing, n - 1, handle);
        let earlier = crate::plan::taken_by(sources, existing, n - 1);
        if earlier.contains(handle) {
            let s = choose|s: int| 0 <= s < n - 1 && #[trigger] takes(sources, existing, s, handle);
            assert(0 <= s < n);
        }
        assert(takes(sources, existing, n - 1, handle) || earlier.contains(handle)
            <==> crate::plan::taken_by(sources, existing, n).contains(handle));
    }
}

proof fn lemma_updated(
    sources: Seq<SourcePlaylist>,
    existing: Seq<Playlist>,
    tracks: Seq<Track>,
    n: int,
)
    requires
        0 <= n <= sources.len(),
    ensures
        forall|s: int, handle: PlaylistHandle|
            #[trigger] crate::plan::updated_lists(sources, existing, tracks, n).contains((s, handle))
                <==> 0 <= s < n && crate::plan::fate_of(sources, existing, tracks, s)
                == crate::plan::Fate::Update(handle),
    decreases n,
{
    if n > 0 {
        lemma_updated(sources, existing, tracks, n - 1);
        let earlier = crate::plan::updated_lists(sources, existing, tracks, n - 1);
        let all = crate::plan::updated_lists(sources, existing, tracks, n);
        assert forall|s: int, handle: PlaylistHandle|
            #[trigger] all.contains((s, handle)) <==> 0 <= s < n && crate::plan::fate_of(
                sources,
                existing,
                tracks,
                s,
            ) == crate::plan::Fate::Update(handle) by {
            if let crate::plan::Fate::Update(h) = crate::plan::fate_of(
                sources,
                existing,
                tracks,
                n - 1,
            ) {
                crate::laws::tracks::lemma_push_contains(earlier, (n - 1, h), (s, handle));
            }
        }
    }
}

proof fn lemma_kept_and_created(
    sources: Seq<SourcePlaylist>,
    existing: Seq<Playlist>,
    tracks: Seq<Track>,
    n: int,
)
    requires
        0 <= n <= sources.len(),
    ensures
        forall|s: int|
            #[trigger] crate::plan::kept_lists(sources, existing, tracks, n).contains(s) <==> 0 <= s
                < n && crate::plan::fate_of(sources, existing, tracks, s) is Keep,
        forall|s: int|
            #[trigger] crate::plan::created_lists(sources, existing, tracks, n).contains(s) <==> 0
                <= s < n && crate::plan::fate_of(sources, existing, tracks, s) is Create,
        crate::plan::kept_lists(sources, existing, tracks, n).len() + crate::plan::created_lists(
            sources,
            existing,
            tracks,
            n,
        ).len() + crate::plan::updated_lists(sources, existing, tracks, n).len() == n,
    decreases n,
{
    if n > 0 {
        lemma_kept_and_created(sources, existing, tracks, n - 1);
        let kept = crate::plan::kept_lists(sources, existing, tracks, n - 1);
        let created = crate::plan::created_lists(sources, existing, tracks, n - 1);
        assert forall|s: int|
            #[trigger] crate::plan::kept_lists(sources, existing, tracks, n).contains(s) <==> 0 <= s
                < n && crate::plan::fate_of(sources, existing, tracks, s) is Keep by {
            crate::laws::tracks::lemma_push_contains(kept, n - 1, s);
        }
        assert forall|s: int|
            #[trigger] crate::plan::created_lists(sources, existing, tracks, n).contains(s) <==> 0
                <= s < n && crate::plan::fate_of(sources, existing, tracks, s) is Create by {
            crate::laws::tracks::lemma_push_contains(created, n - 1, s);
        }
    }
}

proof fn lemma_obsolete(sources: Seq<SourcePlaylist>, existing: Seq<Playlist>, n: int)
    requires
        0 <= n <= existing.len(),
    ensures
        forall|p: int|
            #[trigger] crate::plan::obsolete_lists(sources, existing, n).contains(p) <==> 0 <= p < n
                && crate::plan::is_obsolete(sources, existing, p),
    decreases n,
{
    if n > 0 {
        lemma_obsolete(sources, existing, n - 1);
        assert forall|p: int|
            #[trigger] crate::plan::obsolete_lists(sources, existing, n).contains(p) <==> 0 <= p < n
                && crate::plan::is_obsolete(sources, existing, p) by {
            crate::laws::tracks::lemma_push_contains(crate::plan::obsolete_lists(sources, existing, n - 1), n - 1, p);
        }
    }
}

/// Every local playlist is either kept, created or updated.
pub proof fn law_every_playlist_is_kept_created_or_updated(
    sources: Seq<SourcePlaylist>,
    existing: Seq<Playlist>,
    tracks: Seq<Track>,
    s: int,
)
    requires
        0 <= s < sources.len(),
    ensures
        ({
            let n = sources.len() as int;
            let kept = crate::plan::kept_lists(sources, existing, tracks, n);
            let created = crate::plan::created_lists(sources, existing, tracks, n);
            let updated = crate::plan::updated_lists(sources, existing, tracks, n);
            &&& kept.contains(s) || created.contains(s) || exists|handle: PlaylistHandle|
                updated.contains((s, handle))
            &&& kept.len() + created.len() + updated.len() == n
        }),
{
    let n = sources.len() as int;
    lemma_kept_and_created(sources, existing, tracks, n);
    lemma_updated(sources, existing, tracks, n);
    if let crate::plan::Fate::Update(handle) = crate::plan::fate_of(sources, existing, tracks, s) {
        assert(crate::plan::updated_lists(sources, existing, tracks, n).contains((s, handle)));
    }
}

/// Whether no playlist number occurs twice, as in any library.
pub open spec fn numbered_apart(existing: Seq<Playlist>) -> bool {
    forall|p: int, q: int|
        0 <= p < q < existing.len() ==> (#[trigger] existing[p]).handle != (
        #[trigger] existing[q]).handle
}

/// Whether a local playlist has this name, in normal form.
pub open spec fn is_local_name(sources: Seq<SourcePlaylist>, normal: Seq<char>) -> bool {
    exists|s: int|
        0 <= s < sources.len() && crate::key::normal_name((#[trigger] sources[s]).name@) == normal
}

/// A playlist on the device that is hidden or smart, or whose name is no local
/// playlist's, neither as it is nor without the sorting prefix, is neither
/// updated nor deleted.
pub proof fn law_unrelated_playlists_are_preserved(
    sources: Seq<SourcePlaylist>,
    existing: Seq<Playlist>,
    tracks: Seq<Track>,
    p: int,
)
    requires
        0 <= p < existing.len(),
        numbered_apart(existing),
        !crate::plan::is_standard(existing[p]) || {
            &&& !is_local_name(sources, crate::key::normal_name(existing[p].name@))
            &&& !(crate::playlist::has_prefix(existing[p].name@) && is_local_name(
                sources,
                crate::key::normal_name(crate::playlist::bare_name(existing[p].name@)),
            ))
        },
    ensures
        forall|k: int|
            0 <= k < crate::plan::updated_lists(
                sources,
                existing,
                tracks,
                sources.len() as int,
            ).len() ==> (#[trigger] crate::plan::updated_lists(
                sources,
                existing,
                tracks,
                sources.len() as int,
            )[k]).1 != existing[p].handle,
        !crate::plan::obsolete_lists(sources, existing, existing.len() as int).contains(p),
{
    let updated = crate::plan::updated_lists(sources, existing, tracks, sources.len() as int);
    lemma_updated(sources, existing, tracks, sources.len() as int);
    lemma_obsolete(sources, existing, existing.len() as int);
    assert forall|k: int| 0 <= k < updated.len() implies (#[trigger] updated[k]).1
        != existing[p].handle by {
        let (s, handle) = updated[k];
        assert(updated.contains((s, handle)));
        let taken = crate::plan::taken_by(sources, existing, s);
        let normal = crate::key::normal_name(sources[s].name@);
        lemma_first_free(existing, existing.len() as int, normal, taken);
        let q = crate::plan::match_of(sources, existing, s).unwrap();
        assert(existing[q].handle == handle);
        if handle == existing[p].handle {
            assert(p == q);
            assert(is_local_name(sources, normal));
        }
    }
    if crate::plan::is_obsolete(sources, existing, p) {
        assert(is_local_name(
            sources,
            crate::key::normal_name(crate::playlist::bare_name(existing[p].name@)),
        ));
    }
}

/// A standard playlist that has a local playlist's name after the sorting
/// prefix is deleted, unless a local playlist takes it.
pub proof fn law_prefixed_copies_are_deleted(
    sources: Seq<SourcePlaylist>,
    existing: Seq<Playlist>,
    p: int,
)
    requires
        0 <= p < existing.len(),
        numbered_apart(existing),
        crate::plan::is_standard(existing[p]),
        crate::playlist::has_prefix(existing[p].name@),
        is_local_name(
            sources,
            crate::key::normal_name(crate::playlist::bare_name(existing[p].name@)),
        ),
        forall|s: int|
            0 <= s < sources.len() ==> #[trigger] crate::plan::match_of(sources, existing, s)
                != Some(p),
    ensures
        crate::plan::obsolete_lists(sources, existing, existing.len() as int).contains(p),
{
    let n = sources.len() as int;
    lemma_obsolete(sources, existing, existing.len() as int);
    lemma_taken(sources, existing, n, existing[p].handle);
    if crate::plan::taken_by(sources, existing, n).contains(existing[p].handle) {
        let s = choose|s: int|
            0 <= s < n && #[trigger] takes(sources, existing, s, existing[p].handle);
        lemma_first_free(
            existing,
            existing.len() as int,
            crate::key::normal_name(sources[s].name@),
            crate::plan::taken_by(sources, existing, s),
        );
        let q = crate::plan::match_of(sources, existing, s).unwrap();
        assert(existing[q].handle == existing[p].handle);
    }
}

/// A playlist that a local playlist takes, be it kept or updated, is not
/// deleted.
pub proof fn law_taken_playlists_are_not_deleted(
    sources: Seq<SourcePlaylist>,
    existing: Seq<Playlist>,
    s: int,
    p: int,
)
    requires
        0 <= s < sources.len(),
        crate::plan::match_of(sources, existing, s) == Some(p),
    ensures
        !crate::plan::obsolete_lists(sources, existing, existing.len() as int).contains(p),
{
    lemma_obsolete(sources, existing, existing.len() as int);
    lemma_taken(sources, existing, sources.len() as int, existing[p].handle);
    assert(takes(sources, existing, s, existing[p].handle));
}

/// No two local playlists take the same playlist on the device.
pub proof fn law_playlists_take_different_playlists(
    sources: Seq<SourcePlaylist>,
    existing: Seq<Playlist>,
    s: int,
    t: int,
)
    requires
        0 <= s < t < sources.len(),
        crate::plan::match_of(sources, existing, s) is Some,
        crate::plan::match_of(sources, existing, t) is Some,
    ensures
        existing[crate::plan::match_of(sources, existing, s).unwrap()].handle
            != existing[crate::plan::match_of(sources, existing, t).unwrap()].handle,
{
    let taken = crate::plan::taken_by(sources, existing, t);
    lemma_first_free(
        existing,
        existing.len() as int,
        crate::key::normal_name(sources[t].name@),
        taken,
    );
    let p = crate::plan::match_of(sources, existing, s).unwrap();
    lemma_taken(sources, existing, t, existing[p].handle);
    assert(takes(sources, existing, s, existing[p].handle));
}

/// A standard playlist of the same name, whatever its capital and small letters,
/// is updated or kept: nothing is created beside it.
pub proof fn law_playlist_of_the_same_name_is_used(
    sources: Seq<SourcePlaylist>,
    existing: Seq<Playlist>,
    tracks: Seq<Track>,
    s: int,
    p: int,
)
    requires
        named_apart(sources),
        numbered_apart(existing),
        0 <= s < sources.len(),
        0 <= p < existing.len(),
        crate::plan::is_standard(existing[p]),
        crate::key::normal_name(existing[p].name@) == crate::key::normal_name(sources[s].name@),
    ensures
        !crate::plan::created_lists(sources, existing, tracks, sources.len() as int).contains(s),
{
    lemma_kept_and_created(sources, existing, tracks, sources.len() as int);
    lemma_match(sources, existing, s);
}

/// Whether no two local playlists have the same name in normal form.
pub open spec fn named_apart(sources: Seq<SourcePlaylist>) -> bool {
    forall|s: int, t: int|
        0 <= s < t < sources.len() ==> crate::key::normal_name((#[trigger] sources[s]).name@)
            != crate::key::normal_name((#[trigger] sources[t]).name@)
}

/// Where names and numbers are apart, a local playlist takes the first standard
/// playlist of its name.
pub(crate) proof fn lemma_match(sources: Seq<SourcePlaylist>, existing: Seq<Playlist>, s: int)
    requires
        named_apart(sources),
        numbered_apart(existing),
        0 <= s < sources.len(),
    ensures
        ({
            let normal = crate::key::normal_name(sources[s].name@);
            match crate::plan::match_of(sources, existing, s) {
                Some(p) => {
                    &&& 0 <= p < existing.len()
                    &&& crate::plan::is_standard(existing[p])
                    &&& crate::key::normal_name(existing[p].name@) == normal
                    &&& forall|q: int|
                        0 <= q < p && crate::plan::is_standard(#[trigger] existing[q])
                            ==> crate::key::normal_name(existing[q].name@) != normal
                },
                None => forall|q: int|
                    0 <= q < existing.len() && crate::plan::is_standard(#[trigger] existing[q])
                        ==> crate::key::normal_name(existing[q].name@) != normal,
            }
        }),
{
    let normal = crate::key::normal_name(sources[s].name@);
    let taken = crate::plan::taken_by(sources, existing, s);
    lemma_first_free(existing, existing.len() as int, normal, taken);
    assert forall|q: int|
        0 <= q < existing.len() && crate::plan::is_standard(#[trigger] existing[q])
            && crate::key::normal_name(existing[q].name@) == normal implies !taken.contains(
        existing[q].handle,
    ) by {
        lemma_taken(sources, existing, s, existing[q].handle);
        if taken.contains(existing[q].handle) {
            let t = choose|t: int|
                0 <= t < s && #[trigger] takes(sources, existing, t, existing[q].handle);
            let p = crate::plan::match_of(sources, existing, t).unwrap();
            lemma_first_free(
                existing,
                existing.len() as int,
                crate::key::normal_name(sources[t].name@),
                crate::plan::taken_by(sources, existing, t),
            );
            assert(p == q);
            assert(crate::key::normal_name(sources[t].name@) != normal);
        }
    }
}

/// The playlists below `n` that are not obsolete.
pub open spec fn lasting(sources: Seq<SourcePlaylist>, existing: Seq<Playlist>, n: int) -> Seq<int>
    decreases n,
{
    if n <= 0 {
        Seq::empty()
    } else if crate::plan::is_obsolete(sources, existing, n - 1) {
        lasting(sources, existing, n - 1)
    } else {
        lasting(sources, existing, n - 1).push(n - 1)
    }
}

/// Whether a playlist on the device is what the local playlist asks for.
pub open spec fn is_as(playlist: Playlist, source: SourcePlaylist, tracks: Seq<Track>) -> bool {
    &&& crate::plan::is_standard(playlist)
    &&& playlist.name@ == source.name@
    &&& crate::plan::has_tracks(tracks, playlist, source)
}

/// Whether a local playlist updates the playlist on the device at index `p`.
pub open spec fn is_updated(
    sources: Seq<SourcePlaylist>,
    existing: Seq<Playlist>,
    tracks: Seq<Track>,
    p: int,
) -> bool {
    exists|s: int|
        0 <= s < sources.len() && #[trigger] crate::plan::fate_of(sources, existing, tracks, s)
            == crate::plan::Fate::Update(existing[p].handle)
}

/// Whether `changed` is what becomes of the playlist at index `p`: what the
/// local playlist that updates it asks for, or what it was.
pub open spec fn becomes(
    sources: Seq<SourcePlaylist>,
    existing: Seq<Playlist>,
    tracks: Seq<Track>,
    p: int,
    changed: Playlist,
) -> bool {
    &&& crate::plan::is_standard(changed) == crate::plan::is_standard(existing[p])
    &&& if is_updated(sources, existing, tracks, p) {
        forall|s: int|
            0 <= s < sources.len() && #[trigger] crate::plan::fate_of(sources, existing, tracks, s)
                == crate::plan::Fate::Update(existing[p].handle) ==> is_as(
                changed,
                sources[s],
                tracks,
            )
    } else {
        changed.name@ == existing[p].name@ && changed.tracks@ == existing[p].tracks@
    }
}

/// Whether `after` is what a plan makes of the playlists `before`: the lasting
/// ones, with their updates, and then the new ones.
pub open spec fn carried_out(
    sources: Seq<SourcePlaylist>,
    before: Seq<Playlist>,
    after: Seq<Playlist>,
    tracks: Seq<Track>,
) -> bool {
    let left = lasting(sources, before, before.len() as int);
    let created = crate::plan::created_lists(sources, before, tracks, sources.len() as int);
    &&& after.len() == left.len() + created.len()
    &&& forall|k: int|
        0 <= k < left.len() ==> becomes(sources, before, tracks, left[k], #[trigger] after[k])
    &&& forall|k: int|
        left.len() <= k < after.len() ==> is_as(
            #[trigger] after[k],
            sources[created[k - left.len()]],
            tracks,
        )
}

proof fn lemma_lasting(sources: Seq<SourcePlaylist>, existing: Seq<Playlist>, n: int)
    requires
        0 <= n <= existing.len(),
    ensures
        forall|p: int|
            #[trigger] lasting(sources, existing, n).contains(p) <==> 0 <= p < n
                && !crate::plan::is_obsolete(sources, existing, p),
        forall|a: int, b: int|
            0 <= a < b < lasting(sources, existing, n).len() ==> #[trigger] lasting(
                sources,
                existing,
                n,
            )[a] < #[trigger] lasting(sources, existing, n)[b],
    decreases n,
{
    if n > 0 {
        lemma_lasting(sources, existing, n - 1);
        let earlier = lasting(sources, existing, n - 1);
        let all = lasting(sources, existing, n);
        assert forall|p: int|
            #[trigger] all.contains(p) <==> 0 <= p < n && !crate::plan::is_obsolete(
                sources,
                existing,
                p,
            ) by {
            crate::laws::tracks::lemma_push_contains(earlier, n - 1, p);
        }
        assert forall|a: int, b: int| 0 <= a < b < all.len() implies #[trigger] all[a]
            < #[trigger] all[b] by {
            assert(all[a] == earlier[a]);
            assert(earlier.contains(earlier[a]));
            if b < earlier.len() {
                assert(all[b] == earlier[b]);
            }
        }
    }
}

proof fn lemma_created_rises(
    sources: Seq<SourcePlaylist>,
    existing: Seq<Playlist>,
    tracks: Seq<Track>,
    n: int,
)
    requires
        0 <= n <= sources.len(),
    ensures
        forall|a: int, b: int|
            0 <= a < b < crate::plan::created_lists(sources, existing, tracks, n).len()
                ==> #[trigger] crate::plan::created_lists(sources, existing, tracks, n)[a]
                < #[trigger] crate::plan::created_lists(sources, existing, tracks, n)[b],
    decreases n,
{
    if n > 0 {
        lemma_created_rises(sources, existing, tracks, n - 1);
        lemma_kept_and_created(sources, existing, tracks, n - 1);
        let earlier = crate::plan::created_lists(sources, existing, tracks, n - 1);
        let all = crate::plan::created_lists(sources, existing, tracks, n);
        assert forall|a: int, b: int| 0 <= a < b < all.len() implies #[trigger] all[a]
            < #[trigger] all[b] by {
            assert(all[a] == earlier[a]);
            assert(earlier.contains(earlier[a]));
            if b < earlier.len() {
                assert(all[b] == earlier[b]);
            }
        }
    }
}

/// Only the local playlist that takes a playlist updates it.
proof fn lemma_updater(
    sources: Seq<SourcePlaylist>,
    existing: Seq<Playlist>,
    tracks: Seq<Track>,
    s: int,
    t: int,
    p: int,
)
    requires
        numbered_apart(existing),
        0 <= s < sources.len(),
        0 <= t < sources.len(),
        0 <= p < existing.len(),
        crate::plan::match_of(sources, existing, s) == Some(p),
        crate::plan::fate_of(sources, existing, tracks, t) == crate::plan::Fate::Update(
            existing[p].handle,
        ),
    ensures
        s == t,
{
    if s < t {
        law_playlists_take_different_playlists(sources, existing, s, t);
    } else if t < s {
        law_playlists_take_different_playlists(sources, existing, t, s);
    }
}

/// Where a local playlist's counterpart stands once a plan was carried out.
spec fn counterpart(
    sources: Seq<SourcePlaylist>,
    before: Seq<Playlist>,
    tracks: Seq<Track>,
    s: int,
    q: int,
) -> bool {
    let left = lasting(sources, before, before.len() as int);
    let created = crate::plan::created_lists(sources, before, tracks, sources.len() as int);
    match crate::plan::match_of(sources, before, s) {
        Some(p) => 0 <= q < left.len() && left[q] == p,
        None => left.len() <= q < left.len() + created.len() && created[q - left.len()] == s,
    }
}

proof fn lemma_counterpart_exists(
    sources: Seq<SourcePlaylist>,
    before: Seq<Playlist>,
    tracks: Seq<Track>,
    s: int,
) -> (q: int)
    requires
        named_apart(sources),
        numbered_apart(before),
        0 <= s < sources.len(),
    ensures
        counterpart(sources, before, tracks, s, q),
{
    let left = lasting(sources, before, before.len() as int);
    let created = crate::plan::created_lists(sources, before, tracks, sources.len() as int);
    lemma_match(sources, before, s);
    match crate::plan::match_of(sources, before, s) {
        Some(p) => {
            lemma_lasting(sources, before, before.len() as int);
            lemma_taken(sources, before, sources.len() as int, before[p].handle);
            assert(takes(sources, before, s, before[p].handle));
            assert(left.contains(p));
            choose|q: int| 0 <= q < left.len() && left[q] == p
        },
        None => {
            lemma_kept_and_created(sources, before, tracks, sources.len() as int);
            assert(created.contains(s));
            let k = choose|k: int| 0 <= k < created.len() && created[k] == s;
            k + left.len()
        },
    }
}

/// A counterpart is what its local playlist asks for, and is taken by it again.
proof fn lemma_counterpart(
    sources: Seq<SourcePlaylist>,
    before: Seq<Playlist>,
    after: Seq<Playlist>,
    tracks: Seq<Track>,
    s: int,
    q: int,
)
    requires
        named_apart(sources),
        numbered_apart(before),
        numbered_apart(after),
        carried_out(sources, before, after, tracks),
        0 <= s < sources.len(),
        counterpart(sources, before, tracks, s, q),
    ensures
        0 <= q < after.len(),
        is_as(after[q], sources[s], tracks),
        crate::plan::match_of(sources, after, s) == Some(q),
{
    let left = lasting(sources, before, before.len() as int);
    let created = crate::plan::created_lists(sources, before, tracks, sources.len() as int);
    lemma_lasting(sources, before, before.len() as int);
    lemma_created_rises(sources, before, tracks, sources.len() as int);
    lemma_match(sources, before, s);
    lemma_match(sources, after, s);
    let normal = crate::key::normal_name(sources[s].name@);
    if let Some(p) = crate::plan::match_of(sources, before, s) {
        assert(becomes(sources, before, tracks, left[q], after[q]));
        if is_updated(sources, before, tracks, p) {
            let t = choose|t: int|
                0 <= t < sources.len() && #[trigger] crate::plan::fate_of(sources, before, tracks, t)
                    == crate::plan::Fate::Update(before[p].handle);
            lemma_updater(sources, before, tracks, s, t, p);
            assert(is_as(after[q], sources[s], tracks));
        } else {
            assert(crate::plan::fate_of(sources, before, tracks, s) is Keep);
            assert(is_as(after[q], sources[s], tracks));
        }
    }
    assert(is_as(after[q], sources[s], tracks));
    let m = crate::plan::match_of(sources, after, s).unwrap();
    assert(m <= q);
    if m < q {
        if m >= left.len() {
            let t = created[m - left.len()];
            lemma_kept_and_created(sources, before, tracks, sources.len() as int);
            assert(created.contains(t));
            assert(is_as(after[m], sources[t], tracks));
            assert(t == s) by {
                if t < s {
                    assert(crate::key::normal_name(sources[t].name@) != normal);
                } else if s < t {
                    assert(crate::key::normal_name(sources[t].name@) != normal);
                }
            }
            assert(created[m - left.len()] < created[q - left.len()]);
        } else {
            let p = left[m];
            assert(left.contains(p));
            assert(becomes(sources, before, tracks, p, after[m]));
            if is_updated(sources, before, tracks, p) {
                let t = choose|t: int|
                    0 <= t < sources.len() && #[trigger] crate::plan::fate_of(
                        sources,
                        before,
                        tracks,
                        t,
                    ) == crate::plan::Fate::Update(before[p].handle);
                assert(is_as(after[m], sources[t], tracks));
                assert(t == s) by {
                    if t < s {
                        assert(crate::key::normal_name(sources[t].name@) != normal);
                    } else if s < t {
                        assert(crate::key::normal_name(sources[t].name@) != normal);
                    }
                }
                let taken = crate::plan::match_of(sources, before, s).unwrap();
                assert(before[taken].handle == before[p].handle);
                assert(taken == p);
            } else {
                assert(crate::plan::is_standard(before[p]));
                assert(crate::key::normal_name(before[p].name@) == normal);
            }
        }
    }
}

/// A playlist plan that was carried out is not repeated: the next plan keeps
/// every local playlist, and creates, updates and deletes none.
pub proof fn law_synchronizing_playlists_again_changes_nothing(
    sources: Seq<SourcePlaylist>,
    before: Seq<Playlist>,
    after: Seq<Playlist>,
    tracks: Seq<Track>,
)
    requires
        named_apart(sources),
        numbered_apart(before),
        numbered_apart(after),
        carried_out(sources, before, after, tracks),
    ensures
        crate::plan::created_lists(sources, after, tracks, sources.len() as int).len() == 0,
        crate::plan::updated_lists(sources, after, tracks, sources.len() as int).len() == 0,
        crate::plan::obsolete_lists(sources, after, after.len() as int).len() == 0,
{
    let n = sources.len() as int;
    assert forall|s: int| 0 <= s < n implies #[trigger] crate::plan::fate_of(
        sources,
        after,
        tracks,
        s,
    ) is Keep by {
        let q = lemma_counterpart_exists(sources, before, tracks, s);
        lemma_counterpart(sources, before, after, tracks, s, q);
    }
    lemma_kept_and_created(sources, after, tracks, n);
    lemma_updated(sources, after, tracks, n);
    let created = crate::plan::created_lists(sources, after, tracks, n);
    let updated = crate::plan::updated_lists(sources, after, tracks, n);
    let obsolete = crate::plan::obsolete_lists(sources, after, after.len() as int);
    if created.len() > 0 {
        assert(created.contains(created[0]));
    }
    if updated.len() > 0 {
        assert(updated.contains((updated[0].0, updated[0].1)));
    }
    if obsolete.len() > 0 {
        let q = obsolete[0];
        lemma_obsolete(sources, after, after.len() as int);
        assert(obsolete.contains(q));
        lemma_nothing_is_obsolete(sources, before, after, tracks, q);
    }
}

proof fn lemma_nothing_is_obsolete(
    sources: Seq<SourcePlaylist>,
    before: Seq<Playlist>,
    after: Seq<Playlist>,
    tracks: Seq<Track>,
    q: int,
)
    requires
        named_apart(sources),
        numbered_apart(before),
        numbered_apart(after),
        carried_out(sources, before, after, tracks),
        0 <= q < after.len(),
    ensures
        !crate::plan::is_obsolete(sources, after, q),
{
    let n = sources.len() as int;
    let left = lasting(sources, before, before.len() as int);
    let created = crate::plan::created_lists(sources, before, tracks, n);
    lemma_lasting(sources, before, before.len() as int);
    lemma_kept_and_created(sources, before, tracks, n);
    lemma_taken(sources, after, n, after[q].handle);
    if q >= left.len() {
        let s = created[q - left.len()];
        assert(created.contains(s));
        lemma_counterpart(sources, before, after, tracks, s, q);
        assert(takes(sources, after, s, after[q].handle));
    } else {
        let p = left[q];
        assert(left.contains(p));
        assert(becomes(sources, before, tracks, p, after[q]));
        lemma_taken(sources, before, n, before[p].handle);
        if crate::plan::taken_by(sources, before, n).contains(before[p].handle) {
            let s = choose|s: int|
                0 <= s < n && #[trigger] takes(sources, before, s, before[p].handle);
            lemma_match(sources, before, s);
            assert(crate::plan::match_of(sources, before, s) == Some(p));
            lemma_counterpart(sources, before, after, tracks, s, q);
            assert(takes(sources, after, s, after[q].handle));
        } else if is_updated(sources, before, tracks, p) {
            let t = choose|t: int|
                0 <= t < n && #[trigger] crate::plan::fate_of(sources, before, tracks, t)
                    == crate::plan::Fate::Update(before[p].handle);
            assert(takes(sources, before, t, before[p].handle));
        }
    }
}

/// Whether no track number occurs twice, as in any library.
pub open spec fn tracks_numbered_apart(tracks: Seq<Track>) -> bool {
    forall|i: int, j: int|
        0 <= i < j < tracks.len() ==> (#[trigger] tracks[i]).handle != (#[trigger] tracks[j]).handle
}

pub(crate) proof fn lemma_identity_of_handle(tracks: Seq<Track>, i: int)
    requires
        tracks_numbered_apart(tracks),
        0 <= i < tracks.len(),
    ensures
        crate::plan::identity_of_handle(tracks, tracks[i].handle) == Some(
            crate::source::existing_identity(tracks[i]),
        ),
    decreases tracks.len(),
{
    let last = tracks.len() - 1;
    if i < last {
        let earlier = tracks.drop_last();
        assert(tracks[i].handle != tracks[last].handle);
        assert(earlier[i] == tracks[i]);
        lemma_identity_of_handle(earlier, i);
    }
}

/// Where the device has all local recordings, every local playlist can be
/// written: each of its tracks is found.
pub proof fn law_playlists_of_local_tracks_can_be_written(
    tracks: Seq<Track>,
    source: SourcePlaylist,
)
    requires
        forall|k: int|
            0 <= k < source.tracks@.len() ==> crate::plan::existing_identities(tracks).contains(
                (#[trigger] source.tracks@[k])@,
            ),
    ensures
        crate::sync::handles_of(tracks, source) is Some,
{
    let ids = crate::plan::existing_identities(tracks);
    assert forall|k: int| 0 <= k < source.tracks@.len() implies crate::sync::handle_of(
        tracks,
        (#[trigger] source.tracks@[k])@,
    ) is Some by {
        crate::index::lemma_last_of(ids, source.tracks@[k]@);
    }
}

/// A playlist that was written has the tracks of the local playlist, in order.
pub proof fn law_written_playlist_has_its_tracks(
    tracks: Seq<Track>,
    source: SourcePlaylist,
    written: Playlist,
)
    requires
        tracks_numbered_apart(tracks),
        crate::sync::handles_of(tracks, source) == Some(written.tracks@),
    ensures
        crate::plan::has_tracks(tracks, written, source),
{
    let ids = crate::plan::existing_identities(tracks);
    assert forall|k: int| 0 <= k < source.tracks@.len() implies crate::plan::identity_of_handle(
        tracks,
        #[trigger] written.tracks@[k],
    ) == Some(source.tracks@[k]@) by {
        let wanted = source.tracks@[k]@;
        assert(crate::sync::handle_of(tracks, wanted) is Some);
        crate::index::lemma_last_of(ids, wanted);
        let at = crate::index::last_of(ids, wanted).unwrap();
        assert(written.tracks@[k] == tracks[at].handle);
        lemma_identity_of_handle(tracks, at);
    }
}

} // verus!
