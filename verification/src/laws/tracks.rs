//! What holds of the tracks on a device once they have been synchronized.

use vstd::prelude::*;

use crate::database::Track;
use crate::key::Identity;
use crate::source::SourceTrack;

verus! {

pub(crate) proof fn lemma_staying(sources: Seq<SourceTrack>, existing: Seq<Track>, n: int)
    requires
        0 <= n <= existing.len(),
    ensures
        forall|e: int|
            #[trigger] crate::plan::staying(sources, existing, n).contains(e) <==> 0 <= e < n
                && crate::plan::stays(sources, existing, e),
        forall|e: int|
            #[trigger] crate::plan::going(sources, existing, n).contains(e) <==> 0 <= e < n
                && !crate::plan::stays(sources, existing, e),
        crate::plan::staying(sources, existing, n).len() + crate::plan::going(
            sources,
            existing,
            n,
        ).len() == n,
    decreases n,
{
    if n > 0 {
        lemma_staying(sources, existing, n - 1);
        let (a, b) = (
            crate::plan::staying(sources, existing, n - 1),
            crate::plan::going(sources, existing, n - 1),
        );
        assert forall|e: int|
            #[trigger] crate::plan::staying(sources, existing, n).contains(e) <==> 0 <= e < n
                && crate::plan::stays(sources, existing, e) by {
            lemma_push_contains(a, n - 1, e);
        }
        assert forall|e: int|
            #[trigger] crate::plan::going(sources, existing, n).contains(e) <==> 0 <= e < n
                && !crate::plan::stays(sources, existing, e) by {
            lemma_push_contains(b, n - 1, e);
        }
    }
}

/// What a list contains once an item is added at its end.
pub proof fn lemma_push_contains<T>(all: Seq<T>, last: T, item: T)
    ensures
        all.push(last).contains(item) <==> all.contains(item) || item == last,
{
    if all.contains(item) {
        let at = choose|at: int| 0 <= at < all.len() && all[at] == item;
        assert(all.push(last)[at] == item);
    }
    assert(all.push(last)[all.len() as int] == last);
    if all.push(last).contains(item) && item != last {
        let at = choose|at: int| 0 <= at <= all.len() && all.push(last)[at] == item;
        assert(all[at] == item);
    }
}

pub(crate) proof fn lemma_coming(sources: Seq<SourceTrack>, existing: Seq<Track>, n: int)
    requires
        0 <= n <= sources.len(),
    ensures
        forall|s: int|
            #[trigger] crate::plan::coming(sources, existing, n).contains(s) <==> 0 <= s < n
                && crate::plan::is_new(sources, existing, s),
    decreases n,
{
    if n > 0 {
        lemma_coming(sources, existing, n - 1);
        assert forall|s: int|
            #[trigger] crate::plan::coming(sources, existing, n).contains(s) <==> 0 <= s < n
                && crate::plan::is_new(sources, existing, s) by {
            lemma_push_contains(crate::plan::coming(sources, existing, n - 1), n - 1, s);
        }
    }
}

/// Every track on the device is either kept or deleted, and none both.
pub proof fn law_every_track_is_kept_or_deleted(
    sources: Seq<SourceTrack>,
    existing: Seq<Track>,
    e: int,
)
    requires
        0 <= e < existing.len(),
    ensures
        ({
            let kept = crate::plan::staying(sources, existing, existing.len() as int);
            let deleted = crate::plan::going(sources, existing, existing.len() as int);
            &&& kept.contains(e) != deleted.contains(e)
            &&& kept.len() + deleted.len() == existing.len()
        }),
{
    lemma_staying(sources, existing, existing.len() as int);
}

/// A track that is no local recording is deleted, whoever put it there.
pub proof fn law_strange_tracks_are_deleted(
    sources: Seq<SourceTrack>,
    existing: Seq<Track>,
    e: int,
)
    requires
        0 <= e < existing.len(),
        !crate::plan::source_identities(sources).contains(
            crate::plan::existing_identities(existing)[e],
        ),
    ensures
        crate::plan::going(sources, existing, existing.len() as int).contains(e),
{
    lemma_staying(sources, existing, existing.len() as int);
}

/// The first track that provides a recording.
proof fn lemma_first_provider(existing: Seq<Track>, n: int, wanted: Identity) -> (first: int)
    requires
        0 <= n <= existing.len(),
        crate::plan::provided(existing, n, wanted),
    ensures
        0 <= first < n,
        crate::plan::provides(existing, first, wanted),
        !crate::plan::provided(existing, first, wanted),
    decreases n,
{
    let e = choose|e: int| 0 <= e < n && #[trigger] crate::plan::provides(existing, e, wanted);
    if crate::plan::provided(existing, e, wanted) {
        lemma_first_provider(existing, e, wanted)
    } else {
        e
    }
}

/// After deleting and copying, the device holds every local recording: each of
/// them is either provided by a track that is kept, or copied, and not both.
pub proof fn law_every_local_recording_ends_up_on_the_device(
    sources: Seq<SourceTrack>,
    existing: Seq<Track>,
    s: int,
)
    requires
        0 <= s < sources.len(),
    ensures
        ({
            let kept = crate::plan::staying(sources, existing, existing.len() as int);
            let copied = crate::plan::coming(sources, existing, sources.len() as int);
            let wanted = crate::plan::source_identities(sources)[s];
            copied.contains(s) != exists|e: int|
                #[trigger] kept.contains(e) && crate::plan::existing_identities(existing)[e] == wanted
        }),
{
    let n = existing.len() as int;
    lemma_staying(sources, existing, n);
    lemma_coming(sources, existing, sources.len() as int);
    let kept = crate::plan::staying(sources, existing, n);
    let ids = crate::plan::source_identities(sources);
    let wanted = ids[s];
    assert(ids.contains(wanted));
    if crate::plan::provided(existing, n, wanted) {
        let first = lemma_first_provider(existing, n, wanted);
        assert(crate::plan::stays(sources, existing, first));
        assert(kept.contains(first));
    } else {
        assert forall|e: int| #[trigger] kept.contains(e) implies crate::plan::existing_identities(
            existing,
        )[e] != wanted by {
            if crate::plan::existing_identities(existing)[e] == wanted {
                assert(crate::plan::provides(existing, e, wanted));
            }
        }
    }
}

/// After deleting and copying, the device holds nothing else, and nothing twice:
/// a kept track is a local recording, and no two kept tracks are the same.
pub proof fn law_only_local_recordings_are_kept_once(
    sources: Seq<SourceTrack>,
    existing: Seq<Track>,
    d: int,
    e: int,
)
    requires
        crate::plan::staying(sources, existing, existing.len() as int).contains(d),
        crate::plan::staying(sources, existing, existing.len() as int).contains(e),
    ensures
        crate::plan::source_identities(sources).contains(
            crate::plan::existing_identities(existing)[e],
        ),
        d != e ==> crate::plan::existing_identities(existing)[d]
            != crate::plan::existing_identities(existing)[e],
{
    lemma_staying(sources, existing, existing.len() as int);
    let ids = crate::plan::existing_identities(existing);
    if ids[d] == ids[e] {
        if d < e {
            assert(crate::plan::provides(existing, d, ids[e]));
        } else if e < d {
            assert(crate::plan::provides(existing, e, ids[d]));
        }
    }
}

/// A track whose file is gone is deleted. Where it was the only one of its
/// recording, each local track of that recording is copied anew; where there is
/// no such local track, nothing is.
pub proof fn law_missing_media_is_repaired(
    sources: Seq<SourceTrack>,
    existing: Seq<Track>,
    e: int,
)
    requires
        0 <= e < existing.len(),
        existing[e].media_missing,
    ensures
        crate::plan::going(sources, existing, existing.len() as int).contains(e),
        forall|s: int|
            0 <= s < sources.len() && #[trigger] crate::plan::source_identities(sources)[s]
                == crate::plan::existing_identities(existing)[e] && !crate::plan::provided(
                existing,
                existing.len() as int,
                crate::plan::existing_identities(existing)[e],
            ) ==> crate::plan::coming(sources, existing, sources.len() as int).contains(s),
        !crate::plan::source_identities(sources).contains(
            crate::plan::existing_identities(existing)[e],
        ) ==> forall|s: int|
            #[trigger] crate::plan::coming(sources, existing, sources.len() as int).contains(s)
                ==> crate::plan::source_identities(sources)[s]
                != crate::plan::existing_identities(existing)[e],
{
    lemma_staying(sources, existing, existing.len() as int);
    lemma_coming(sources, existing, sources.len() as int);
    let ids = crate::plan::source_identities(sources);
    assert(forall|s: int| 0 <= s < ids.len() ==> ids.contains(#[trigger] ids[s]));
}

/// The identities at these indexes.
pub open spec fn identities_at(all: Seq<Identity>, indexes: Seq<int>) -> Seq<Identity> {
    indexes.map_values(|i: int| all[i])
}

/// Whether nothing occurs twice.
pub open spec fn all_different<T>(items: Seq<T>) -> bool {
    forall|i: int, j: int| 0 <= i < j < items.len() ==> items[i] != items[j]
}

/// A device that holds the local recordings, each once and with its file, needs
/// no change.
pub proof fn law_mirrored_device_needs_no_change(
    sources: Seq<SourceTrack>,
    existing: Seq<Track>,
)
    requires
        forall|e: int| 0 <= e < existing.len() ==> !(#[trigger] existing[e]).media_missing,
        all_different(crate::plan::existing_identities(existing)),
        forall|e: int|
            0 <= e < existing.len() ==> crate::plan::source_identities(sources).contains(
                #[trigger] crate::plan::existing_identities(existing)[e],
            ),
        forall|s: int|
            0 <= s < sources.len() ==> crate::plan::existing_identities(existing).contains(
                #[trigger] crate::plan::source_identities(sources)[s],
            ),
    ensures
        crate::plan::going(sources, existing, existing.len() as int).len() == 0,
        crate::plan::coming(sources, existing, sources.len() as int).len() == 0,
{
    let n = existing.len() as int;
    let ids = crate::plan::existing_identities(existing);
    lemma_staying(sources, existing, n);
    lemma_coming(sources, existing, sources.len() as int);
    let gone = crate::plan::going(sources, existing, n);
    if gone.len() > 0 {
        let e = gone[0];
        assert(gone.contains(e));
        if crate::plan::provided(existing, e, ids[e]) {
            let d = choose|d: int| 0 <= d < e && #[trigger] crate::plan::provides(existing, d, ids[e]);
            assert(ids[d] == ids[e]);
        }
        assert(crate::plan::source_identities(sources).contains(ids[e]));
        assert(!existing[e].media_missing);
        assert(false);
    }
    let new = crate::plan::coming(sources, existing, sources.len() as int);
    if new.len() > 0 {
        let s = new[0];
        assert(new.contains(s));
        let wanted = crate::plan::source_identities(sources)[s];
        assert(ids.contains(wanted));
        let e = choose|e: int| 0 <= e < ids.len() && ids[e] == wanted;
        assert(crate::plan::provides(existing, e, wanted));
        assert(false);
    }
}

pub(crate) proof fn lemma_staying_rises(sources: Seq<SourceTrack>, existing: Seq<Track>, n: int)
    requires
        0 <= n <= existing.len(),
    ensures
        all_different(crate::plan::staying(sources, existing, n)),
    decreases n,
{
    if n > 0 {
        lemma_staying_rises(sources, existing, n - 1);
        lemma_staying(sources, existing, n - 1);
        let earlier = crate::plan::staying(sources, existing, n - 1);
        let all = crate::plan::staying(sources, existing, n);
        assert forall|i: int, j: int| 0 <= i < j < all.len() implies all[i] != all[j] by {
            assert(all[i] == earlier[i]);
            assert(earlier.contains(earlier[i]));
            if j < earlier.len() {
                assert(all[j] == earlier[j]);
            }
        }
    }
}

pub(crate) proof fn lemma_coming_rises(sources: Seq<SourceTrack>, existing: Seq<Track>, n: int)
    requires
        0 <= n <= sources.len(),
    ensures
        all_different(crate::plan::coming(sources, existing, n)),
    decreases n,
{
    if n > 0 {
        lemma_coming_rises(sources, existing, n - 1);
        lemma_coming(sources, existing, n - 1);
        let earlier = crate::plan::coming(sources, existing, n - 1);
        let all = crate::plan::coming(sources, existing, n);
        assert forall|i: int, j: int| 0 <= i < j < all.len() implies all[i] != all[j] by {
            assert(all[i] == earlier[i]);
            assert(earlier.contains(earlier[i]));
            if j < earlier.len() {
                assert(all[j] == earlier[j]);
            }
        }
    }
}

/// A synchronization that was interrupted is finished when it is run again: once
/// the device holds the kept tracks and the first `k` copies, with their files,
/// the next plan deletes nothing and copies what is left.
pub proof fn law_interrupted_synchronization_is_finished(
    sources: Seq<SourceTrack>,
    before: Seq<Track>,
    after: Seq<Track>,
    k: int,
)
    requires
        all_different(crate::plan::source_identities(sources)),
        0 <= k <= crate::plan::coming(sources, before, sources.len() as int).len(),
        forall|e: int| 0 <= e < after.len() ==> !(#[trigger] after[e]).media_missing,
        crate::plan::existing_identities(after) == identities_at(
            crate::plan::existing_identities(before),
            crate::plan::staying(sources, before, before.len() as int),
        ) + identities_at(
            crate::plan::source_identities(sources),
            crate::plan::coming(sources, before, sources.len() as int).take(k),
        ),
    ensures
        crate::plan::going(sources, after, after.len() as int).len() == 0,
        forall|s: int|
            #[trigger] crate::plan::coming(sources, after, sources.len() as int).contains(s)
                <==> crate::plan::coming(sources, before, sources.len() as int).skip(k).contains(s),
{
    let n = before.len() as int;
    let m = sources.len() as int;
    let old_ids = crate::plan::existing_identities(before);
    let wanted = crate::plan::source_identities(sources);
    let kept = crate::plan::staying(sources, before, n);
    let copied = crate::plan::coming(sources, before, m);
    let first = identities_at(old_ids, kept);
    let second = identities_at(wanted, copied.take(k));
    let ids = crate::plan::existing_identities(after);
    lemma_staying(sources, before, n);
    lemma_coming(sources, before, m);
    lemma_staying_rises(sources, before, n);
    lemma_coming_rises(sources, before, m);
    lemma_staying(sources, after, after.len() as int);
    lemma_coming(sources, after, m);
    assert(ids == first + second);
    assert(ids.len() == after.len());
    assert forall|i: int| 0 <= i < first.len() implies wanted.contains(#[trigger] first[i])
        && crate::plan::provided(before, n, first[i]) by {
        assert(kept.contains(kept[i]));
        assert(crate::plan::provides(before, kept[i], old_ids[kept[i]]));
    }
    assert forall|i: int| 0 <= i < second.len() implies wanted.contains(#[trigger] second[i])
        && !crate::plan::provided(before, n, second[i]) by {
        assert(copied.contains(copied[i]));
        assert(wanted[copied[i]] == second[i]);
    }
    assert forall|i: int, j: int| 0 <= i < j < ids.len() implies ids[i] != ids[j] by {
        if j < first.len() {
            assert(ids[i] == first[i] && ids[j] == first[j]);
            assert(kept[i] != kept[j]);
            assert(kept.contains(kept[i]) && kept.contains(kept[j]));
            law_only_local_recordings_are_kept_once(sources, before, kept[i], kept[j]);
        } else if i < first.len() {
            assert(ids[i] == first[i] && ids[j] == second[j - first.len()]);
        } else {
            let (a, b) = (i - first.len(), j - first.len());
            assert(ids[i] == second[a] && ids[j] == second[b]);
            assert(copied[a] != copied[b]);
            assert(copied.contains(copied[a]) && copied.contains(copied[b]));
            assert(wanted[copied[a]] != wanted[copied[b]]);
        }
    }
    let gone = crate::plan::going(sources, after, after.len() as int);
    if gone.len() > 0 {
        let e = gone[0];
        assert(gone.contains(e));
        if crate::plan::provided(after, e, ids[e]) {
            let d = choose|d: int| 0 <= d < e && #[trigger] crate::plan::provides(after, d, ids[e]);
            assert(ids[d] == ids[e]);
        }
        assert(ids[e] == if e < first.len() {
            first[e]
        } else {
            second[e - first.len()]
        });
        assert(wanted.contains(ids[e]));
        assert(!after[e].media_missing);
        assert(false);
    }
    let rest = copied.skip(k);
    assert forall|s: int|
        #[trigger] crate::plan::coming(sources, after, m).contains(s) <==> rest.contains(s) by {
        if 0 <= s < m {
            lemma_still_to_copy(sources, before, after, k, s);
        }
        if rest.contains(s) {
            let at = choose|at: int| 0 <= at < rest.len() && rest[at] == s;
            assert(copied[k + at] == s);
            assert(copied.contains(s));
        }
    }
}

proof fn lemma_still_to_copy(
    sources: Seq<SourceTrack>,
    before: Seq<Track>,
    after: Seq<Track>,
    k: int,
    s: int,
)
    requires
        all_different(crate::plan::source_identities(sources)),
        0 <= k <= crate::plan::coming(sources, before, sources.len() as int).len(),
        forall|e: int| 0 <= e < after.len() ==> !(#[trigger] after[e]).media_missing,
        crate::plan::existing_identities(after) == identities_at(
            crate::plan::existing_identities(before),
            crate::plan::staying(sources, before, before.len() as int),
        ) + identities_at(
            crate::plan::source_identities(sources),
            crate::plan::coming(sources, before, sources.len() as int).take(k),
        ),
        0 <= s < sources.len(),
    ensures
        crate::plan::is_new(sources, after, s) <==> crate::plan::coming(
            sources,
            before,
            sources.len() as int,
        ).skip(k).contains(s),
{
    let n = before.len() as int;
    let m = sources.len() as int;
    let old_ids = crate::plan::existing_identities(before);
    let wanted = crate::plan::source_identities(sources);
    let kept = crate::plan::staying(sources, before, n);
    let copied = crate::plan::coming(sources, before, m);
    let first = identities_at(old_ids, kept);
    let second = identities_at(wanted, copied.take(k));
    let ids = crate::plan::existing_identities(after);
    assert(ids == first + second);
    assert(ids.len() == after.len());
    lemma_staying(sources, before, n);
    lemma_coming(sources, before, m);
    lemma_coming_rises(sources, before, m);
    law_every_local_recording_ends_up_on_the_device(sources, before, s);
    if copied.contains(s) {
        let at = choose|at: int| 0 <= at < copied.len() && copied[at] == s;
        if at < k {
            assert(second[at] == wanted[s]);
            assert(ids[first.len() + at] == wanted[s]);
            assert(crate::plan::provides(after, first.len() + at, wanted[s]));
            if copied.skip(k).contains(s) {
                let other = choose|other: int|
                    0 <= other < copied.skip(k).len() && copied.skip(k)[other] == s;
                assert(copied[k + other] == s);
                assert(copied[at] != copied[k + other]);
            }
        } else {
            assert(copied.skip(k)[at - k] == s);
            if crate::plan::provided(after, after.len() as int, wanted[s]) {
                let e = choose|e: int|
                    0 <= e < after.len() && #[trigger] crate::plan::provides(after, e, wanted[s]);
                if e < first.len() {
                    assert(ids[e] == first[e]);
                    assert(kept.contains(kept[e]));
                    assert(old_ids[kept[e]] == wanted[s]);
                } else {
                    let b = e - first.len();
                    assert(ids[e] == second[b]);
                    assert(copied.contains(copied[b]));
                    assert(copied[b] != copied[at]);
                    assert(wanted[copied[b]] == wanted[s]);
                }
            }
        }
    } else {
        let e = choose|e: int| #[trigger] kept.contains(e) && old_ids[e] == wanted[s];
        let at = choose|at: int| 0 <= at < kept.len() && kept[at] == e;
        assert(first[at] == wanted[s]);
        assert(ids[at] == wanted[s]);
        assert(crate::plan::provides(after, at, wanted[s]));
        if copied.skip(k).contains(s) {
            let other = choose|other: int|
                0 <= other < copied.skip(k).len() && copied.skip(k)[other] == s;
            assert(copied[k + other] == s);
        }
    }
}

/// A synchronization that was carried out is not repeated: once the device holds
/// the kept tracks and the copied ones, with their files, the next plan deletes
/// nothing and copies nothing.
pub proof fn law_synchronizing_again_changes_nothing(
    sources: Seq<SourceTrack>,
    before: Seq<Track>,
    after: Seq<Track>,
)
    requires
        all_different(crate::plan::source_identities(sources)),
        forall|e: int| 0 <= e < after.len() ==> !(#[trigger] after[e]).media_missing,
        crate::plan::existing_identities(after) == identities_at(
            crate::plan::existing_identities(before),
            crate::plan::staying(sources, before, before.len() as int),
        ) + identities_at(
            crate::plan::source_identities(sources),
            crate::plan::coming(sources, before, sources.len() as int),
        ),
    ensures
        crate::plan::going(sources, after, after.len() as int).len() == 0,
        crate::plan::coming(sources, after, sources.len() as int).len() == 0,
{
    let copied = crate::plan::coming(sources, before, sources.len() as int);
    let again = crate::plan::coming(sources, after, sources.len() as int);
    let k = copied.len() as int;
    assert(copied.take(k) =~= copied);
    law_interrupted_synchronization_is_finished(sources, before, after, k);
    if again.len() > 0 {
        assert(again.contains(again[0]));
        assert(copied.skip(k).contains(again[0]));
    }
}

proof fn lemma_firsts(identities: Seq<Identity>, n: int)
    requires
        0 <= n <= identities.len(),
    ensures
        forall|k: int|
            0 <= k < crate::scan::firsts(identities, n).len() ==> 0 <= (#[trigger] crate::scan::firsts(
                identities,
                n,
            )[k]) < n,
        all_different(identities_at(identities, crate::scan::firsts(identities, n))),
        forall|i: int|
            0 <= i < n ==> identities_at(identities, crate::scan::firsts(identities, n)).contains(
                #[trigger] identities[i],
            ),
    decreases n,
{
    if n > 0 {
        lemma_firsts(identities, n - 1);
        let before = crate::scan::firsts(identities, n - 1);
        let now = crate::scan::firsts(identities, n);
        let earlier = identities_at(identities, before);
        let all = identities_at(identities, now);
        if identities.take(n - 1).contains(identities[n - 1]) {
            let seen = identities.take(n - 1);
            let at = choose|at: int| 0 <= at < seen.len() && seen[at] == identities[n - 1];
            assert(identities[at] == identities[n - 1]);
            assert(earlier.contains(identities[at]));
        } else {
            assert(all =~= earlier.push(identities[n - 1]));
            assert forall|i: int, j: int| 0 <= i < j < all.len() implies all[i] != all[j] by {
                if j == earlier.len() {
                    assert(all[i] == identities[before[i]]);
                    assert(identities.take(n - 1)[before[i]] == all[i]);
                }
            }
            assert forall|i: int| 0 <= i < n implies all.contains(#[trigger] identities[i]) by {
                lemma_push_contains(earlier, identities[n - 1], identities[i]);
            }
        }
    }
}

/// Of the local tracks that are the same recording exactly one counts: no two
/// that count are the same, and every recording is among them.
pub proof fn law_local_recordings_count_once(counting: Seq<SourceTrack>, all: Seq<SourceTrack>)
    requires
        crate::scan::tracks_at(
            counting,
            all,
            crate::scan::firsts(crate::plan::source_identities(all), all.len() as int),
        ),
    ensures
        all_different(crate::plan::source_identities(counting)),
        forall|i: int|
            0 <= i < all.len() ==> crate::plan::source_identities(counting).contains(
                #[trigger] crate::plan::source_identities(all)[i],
            ),
        forall|k: int|
            0 <= k < counting.len() ==> crate::plan::source_identities(all).contains(
                #[trigger] crate::plan::source_identities(counting)[k],
            ),
{
    let ids = crate::plan::source_identities(all);
    let firsts = crate::scan::firsts(ids, all.len() as int);
    lemma_firsts(ids, all.len() as int);
    assert(crate::plan::source_identities(counting) =~= identities_at(ids, firsts));
    assert forall|k: int| 0 <= k < counting.len() implies ids.contains(
        #[trigger] crate::plan::source_identities(counting)[k],
    ) by {
        assert(ids[firsts[k]] == crate::plan::source_identities(counting)[k]);
    }
}

/// A track that is kept and its local counterpart are the same recording, so
/// that the cover art of the one suits the other.
pub proof fn law_kept_track_is_its_counterpart(
    sources: Seq<SourceTrack>,
    existing: Seq<Track>,
    e: int,
)
    requires
        crate::plan::staying(sources, existing, existing.len() as int).contains(e),
    ensures
        sources.contains(crate::plan::counterpart(sources, existing[e])),
        crate::source::source_identity(crate::plan::counterpart(sources, existing[e]))
            == crate::source::existing_identity(existing[e]),
{
    lemma_staying(sources, existing, existing.len() as int);
    let ids = crate::plan::source_identities(sources);
    let wanted = crate::source::existing_identity(existing[e]);
    assert(crate::plan::existing_identities(existing)[e] == wanted);
    crate::index::lemma_last_of(ids, wanted);
    let at = choose|at: int| 0 <= at < ids.len() && ids[at] == wanted;
    assert(ids[at] == wanted);
    let last = crate::index::last_of(ids, wanted).unwrap();
    assert(sources[last] == crate::plan::counterpart(sources, existing[e]));
}

} // verus!
