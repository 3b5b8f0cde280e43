//! What a device holds once a plan has been carried out.

use vstd::multiset::Multiset;
use vstd::prelude::*;

use crate::database::{Change, Metadata, Track, TrackHandle};
use crate::key::Identity;
use crate::source::SourceTrack;
use crate::sync::SyncPlan;

verus! {

/// The identity of an added track as the device stores it.
pub open spec fn stored_identity(metadata: Metadata) -> Identity {
    let addition = crate::database::addition_of(Seq::empty(), Seq::empty(), metadata);
    crate::key::identity_of(
        crate::laws::keys::stored(addition.album_artist),
        crate::laws::keys::stored(addition.artist),
        crate::laws::keys::stored(addition.album),
        addition.title,
        metadata.size,
        addition.length_ms,
        addition.track_number,
        addition.disc_number,
    )
}

/// The recordings on a device that held these tracks, once the changes have been
/// made.
pub open spec fn held_after(existing: Seq<Track>, changes: Seq<Change>) -> Multiset<Identity>
    decreases changes.len(),
{
    if changes.len() == 0 {
        crate::plan::existing_identities(existing).to_multiset()
    } else {
        let held = held_after(existing, changes.drop_last());
        match changes.last() {
            Change::Remove(id) => match crate::plan::identity_of_handle(
                existing,
                TrackHandle(id),
            ) {
                Some(identity) => held.remove(identity),
                None => held,
            },
            Change::Add { metadata, .. } => held.insert(stored_identity(metadata)),
            _ => held,
        }
    }
}

/// Whether this is the plan for these tracks.
pub open spec fn is_plan_for(
    plan: SyncPlan,
    sources: Seq<SourceTrack>,
    existing: Seq<Track>,
) -> bool {
    &&& plan.wf()
    &&& crate::plan::are_kept(
        plan.kept@,
        sources,
        existing,
        crate::plan::staying(sources, existing, existing.len() as int),
    )
    &&& crate::plan::are_at(
        plan.deleted@,
        existing,
        crate::plan::going(sources, existing, existing.len() as int),
    )
    &&& crate::plan::are_at(
        plan.copied@,
        sources,
        crate::plan::coming(sources, existing, sources.len() as int),
    )
}

/// The recordings that stay.
spec fn kept_recordings(sources: Seq<SourceTrack>, existing: Seq<Track>) -> Seq<Identity> {
    crate::laws::tracks::identities_at(
        crate::plan::existing_identities(existing),
        crate::plan::staying(sources, existing, existing.len() as int),
    )
}

/// The recordings that go.
spec fn gone_recordings(sources: Seq<SourceTrack>, existing: Seq<Track>) -> Seq<Identity> {
    crate::laws::tracks::identities_at(
        crate::plan::existing_identities(existing),
        crate::plan::going(sources, existing, existing.len() as int),
    )
}

/// The recordings that come.
spec fn new_recordings(sources: Seq<SourceTrack>, existing: Seq<Track>) -> Seq<Identity> {
    crate::laws::tracks::identities_at(
        crate::plan::source_identities(sources),
        crate::plan::coming(sources, existing, sources.len() as int),
    )
}

proof fn lemma_parted(sources: Seq<SourceTrack>, existing: Seq<Track>, n: int)
    requires
        0 <= n <= existing.len(),
    ensures
        ({
            let ids = crate::plan::existing_identities(existing);
            ids.take(n).to_multiset() == crate::laws::tracks::identities_at(
                ids,
                crate::plan::staying(sources, existing, n),
            ).to_multiset().add(
                crate::laws::tracks::identities_at(
                    ids,
                    crate::plan::going(sources, existing, n),
                ).to_multiset(),
            )
        }),
    decreases n,
{
    broadcast use vstd::seq_lib::group_to_multiset_ensures;

    let ids = crate::plan::existing_identities(existing);
    let staying = crate::plan::staying(sources, existing, n);
    let going = crate::plan::going(sources, existing, n);
    let kept = crate::laws::tracks::identities_at(ids, staying);
    let gone = crate::laws::tracks::identities_at(ids, going);
    if n == 0 {
        assert(ids.take(0) =~= Seq::empty());
        assert(kept =~= Seq::empty());
        assert(gone =~= Seq::empty());
        assert(Seq::<Identity>::empty().to_multiset() =~= Multiset::empty());
        assert(ids.take(0).to_multiset() =~= kept.to_multiset().add(gone.to_multiset()));
    } else {
        lemma_parted(sources, existing, n - 1);
        let kept_before = crate::laws::tracks::identities_at(
            ids,
            crate::plan::staying(sources, existing, n - 1),
        );
        let gone_before = crate::laws::tracks::identities_at(
            ids,
            crate::plan::going(sources, existing, n - 1),
        );
        assert(ids.take(n) =~= ids.take(n - 1).push(ids[n - 1]));
        if crate::plan::stays(sources, existing, n - 1) {
            assert(kept =~= kept_before.push(ids[n - 1]));
            assert(gone =~= gone_before);
        } else {
            assert(kept =~= kept_before);
            assert(gone =~= gone_before.push(ids[n - 1]));
        }
        assert(ids.take(n).to_multiset() =~= kept.to_multiset().add(gone.to_multiset()));
    }
}

/// The recordings that stay and those that come are the local recordings.
proof fn lemma_local_recordings(sources: Seq<SourceTrack>, existing: Seq<Track>)
    requires
        crate::laws::tracks::all_different(crate::plan::source_identities(sources)),
    ensures
        kept_recordings(sources, existing).to_multiset().add(
            new_recordings(sources, existing).to_multiset(),
        ) == crate::plan::source_identities(sources).to_multiset(),
{
    broadcast use vstd::seq_lib::group_to_multiset_ensures;

    let n = existing.len() as int;
    let m = sources.len() as int;
    let ids = crate::plan::existing_identities(existing);
    let wanted = crate::plan::source_identities(sources);
    let staying = crate::plan::staying(sources, existing, n);
    let coming = crate::plan::coming(sources, existing, m);
    let kept = kept_recordings(sources, existing);
    let new = new_recordings(sources, existing);
    crate::laws::tracks::lemma_staying(sources, existing, n);
    crate::laws::tracks::lemma_coming(sources, existing, m);
    crate::laws::tracks::lemma_staying_rises(sources, existing, n);
    crate::laws::tracks::lemma_coming_rises(sources, existing, m);
    assert(kept.no_duplicates()) by {
        assert forall|i: int, j: int| 0 <= i < kept.len() && 0 <= j < kept.len() && i != j implies kept[i]
            != kept[j] by {
            assert(staying.contains(staying[i]) && staying.contains(staying[j]));
            assert(staying[i] != staying[j]);
            crate::laws::tracks::law_only_local_recordings_are_kept_once(
                sources,
                existing,
                staying[i],
                staying[j],
            );
        }
    }
    assert(new.no_duplicates()) by {
        assert forall|i: int, j: int| 0 <= i < new.len() && 0 <= j < new.len() && i != j implies new[i]
            != new[j] by {
            assert(coming.contains(coming[i]) && coming.contains(coming[j]));
            assert(coming[i] != coming[j]);
            assert(wanted[coming[i]] != wanted[coming[j]]);
        }
    }
    assert(wanted.no_duplicates());
    kept.lemma_multiset_has_no_duplicates();
    new.lemma_multiset_has_no_duplicates();
    wanted.lemma_multiset_has_no_duplicates();
    assert forall|x: Identity| #[trigger]
        kept.to_multiset().add(new.to_multiset()).count(x) == wanted.to_multiset().count(x) by {
        if kept.contains(x) {
            let k = choose|k: int| 0 <= k < kept.len() && kept[k] == x;
            assert(staying.contains(staying[k]));
            assert(crate::plan::provides(existing, staying[k], x));
        }
        if new.contains(x) {
            let k = choose|k: int| 0 <= k < new.len() && new[k] == x;
            assert(coming.contains(coming[k]));
            assert(wanted[coming[k]] == x);
        }
        if wanted.contains(x) {
            let s = choose|s: int| 0 <= s < wanted.len() && wanted[s] == x;
            crate::laws::tracks::law_every_local_recording_ends_up_on_the_device(
                sources,
                existing,
                s,
            );
            if coming.contains(s) {
                let k = choose|k: int| 0 <= k < coming.len() && coming[k] == s;
                assert(new[k] == x);
            } else {
                let e = choose|e: int| #[trigger] staying.contains(e) && ids[e] == wanted[s];
                let k = choose|k: int| 0 <= k < staying.len() && staying[k] == e;
                assert(kept[k] == x);
            }
        }
        assert(kept.to_multiset().count(x) == if kept.contains(x) {
            1nat
        } else {
            0nat
        });
        assert(new.to_multiset().count(x) == if new.contains(x) {
            1nat
        } else {
            0nat
        });
        assert(wanted.to_multiset().count(x) == if wanted.contains(x) {
            1nat
        } else {
            0nat
        });
    }
    assert(kept.to_multiset().add(new.to_multiset()) =~= wanted.to_multiset());
}

proof fn lemma_after_removals(
    plan: SyncPlan,
    sources: Seq<SourceTrack>,
    existing: Seq<Track>,
    k: int,
)
    requires
        crate::laws::playlists::tracks_numbered_apart(existing),
        is_plan_for(plan, sources, existing),
        0 <= k <= plan.deleted@.len(),
    ensures
        held_after(existing, crate::laws::writing::removals(plan).take(k)) == kept_recordings(
            sources,
            existing,
        ).to_multiset().add(gone_recordings(sources, existing).skip(k).to_multiset()),
    decreases k,
{
    broadcast use vstd::seq_lib::group_to_multiset_ensures;

    let n = existing.len() as int;
    let ids = crate::plan::existing_identities(existing);
    let removals = crate::laws::writing::removals(plan);
    let kept = kept_recordings(sources, existing);
    let gone = gone_recordings(sources, existing);
    let going = crate::plan::going(sources, existing, n);
    if k == 0 {
        lemma_parted(sources, existing, n);
        assert(ids.take(n) =~= ids);
        assert(gone.skip(0) =~= gone);
        assert(removals.take(0).len() == 0);
    } else {
        lemma_after_removals(plan, sources, existing, k - 1);
        assert(removals.take(k).drop_last() =~= removals.take(k - 1));
        crate::laws::tracks::lemma_staying(sources, existing, n);
        let e = going[k - 1];
        assert(going.contains(e));
        assert(*plan.deleted@[k - 1] == existing[e]);
        crate::laws::playlists::lemma_identity_of_handle(existing, e);
        assert(removals.take(k).last() == Change::Remove(existing[e].handle.0));
        assert(TrackHandle(existing[e].handle.0) == existing[e].handle);
        let rest = gone.skip(k - 1);
        assert(rest[0] == ids[e]);
        assert(rest.remove(0) =~= gone.skip(k));
        assert(rest.contains(rest[0]));
        assert(kept.to_multiset().add(rest.to_multiset()).remove(ids[e])
            =~= kept.to_multiset().add(rest.to_multiset().remove(ids[e])));
    }
}

proof fn lemma_added(source: SourceTrack)
    ensures
        stored_identity(source.metadata) == crate::source::source_identity(source),
{
    crate::laws::keys::law_added_track_is_recognized(source);
}

proof fn lemma_after_artwork(
    plan: SyncPlan,
    sources: Seq<SourceTrack>,
    existing: Seq<Track>,
    m: int,
)
    requires
        crate::laws::playlists::tracks_numbered_apart(existing),
        is_plan_for(plan, sources, existing),
        0 <= m <= plan.artwork_updates@.len(),
    ensures
        held_after(
            existing,
            crate::laws::writing::removals(plan) + crate::laws::writing::artwork_changes(
                plan,
            ).take(m),
        ) == kept_recordings(sources, existing).to_multiset(),
    decreases m,
{
    broadcast use vstd::seq_lib::group_to_multiset_ensures;

    let removals = crate::laws::writing::removals(plan);
    let artwork = crate::laws::writing::artwork_changes(plan);
    let kept = kept_recordings(sources, existing);
    let now = removals + artwork.take(m);
    if m == 0 {
        let k = plan.deleted@.len() as int;
        lemma_after_removals(plan, sources, existing, k);
        assert(removals.take(k) =~= removals);
        assert(now =~= removals);
        let rest = gone_recordings(sources, existing).skip(k);
        assert(rest =~= Seq::empty());
        assert(Seq::<Identity>::empty().to_multiset() =~= Multiset::empty());
        assert(kept.to_multiset().add(rest.to_multiset()) =~= kept.to_multiset());
    } else {
        lemma_after_artwork(plan, sources, existing, m - 1);
        assert(now.drop_last() =~= removals + artwork.take(m - 1));
        assert(now.last() == artwork[m - 1]);
    }
}

proof fn lemma_after_additions(
    plan: SyncPlan,
    sources: Seq<SourceTrack>,
    existing: Seq<Track>,
    m: int,
)
    requires
        crate::laws::playlists::tracks_numbered_apart(existing),
        is_plan_for(plan, sources, existing),
        0 <= m <= plan.copied@.len(),
    ensures
        held_after(
            existing,
            crate::laws::writing::removals(plan) + crate::laws::writing::artwork_changes(
                plan,
            ) + crate::laws::writing::additions(plan).take(m),
        ) == kept_recordings(sources, existing).to_multiset().add(
            new_recordings(sources, existing).take(m).to_multiset(),
        ),
    decreases m,
{
    broadcast use vstd::seq_lib::group_to_multiset_ensures;

    let total = plan.artwork_updates@.len() as int;
    let artwork = crate::laws::writing::artwork_changes(plan);
    let base = crate::laws::writing::removals(plan) + artwork;
    let additions = crate::laws::writing::additions(plan);
    let kept = kept_recordings(sources, existing);
    let new = new_recordings(sources, existing);
    let coming = crate::plan::coming(sources, existing, sources.len() as int);
    if m == 0 {
        lemma_after_artwork(plan, sources, existing, total);
        assert(artwork.take(total) =~= artwork);
        assert(base + additions.take(0) =~= base);
        assert(new.take(0) =~= Seq::empty());
        assert(Seq::<Identity>::empty().to_multiset() =~= Multiset::empty());
        assert(kept.to_multiset().add(new.take(0).to_multiset()) =~= kept.to_multiset());
    } else {
        lemma_after_additions(plan, sources, existing, m - 1);
        let now = base + additions.take(m);
        assert(now.drop_last() =~= base + additions.take(m - 1));
        assert(now.last() == additions[m - 1]);
        crate::laws::tracks::lemma_coming(sources, existing, sources.len() as int);
        assert(coming.contains(coming[m - 1]));
        let source = sources[coming[m - 1]];
        assert(*plan.copied@[m - 1] == source);
        lemma_added(source);
        assert(new.take(m) =~= new.take(m - 1).push(new[m - 1]));
        assert(new[m - 1] == crate::source::source_identity(source));
        assert(kept.to_multiset().add(new.take(m - 1).to_multiset()).insert(new[m - 1])
            =~= kept.to_multiset().add(new.take(m - 1).to_multiset().insert(new[m - 1])));
    }
}

/// A device whose plan has been carried out holds the local recordings: every
/// one of them, each once, and nothing else.
pub proof fn law_device_becomes_a_mirror(
    plan: SyncPlan,
    sources: Seq<SourceTrack>,
    existing: Seq<Track>,
)
    requires
        crate::laws::playlists::tracks_numbered_apart(existing),
        crate::laws::tracks::all_different(crate::plan::source_identities(sources)),
        is_plan_for(plan, sources, existing),
    ensures
        held_after(
            existing,
            crate::laws::writing::removals(plan) + crate::laws::writing::artwork_changes(
                plan,
            ) + crate::laws::writing::additions(plan),
        ) == crate::plan::source_identities(sources).to_multiset(),
{
    let c = plan.copied@.len() as int;
    let additions = crate::laws::writing::additions(plan);
    let new = new_recordings(sources, existing);
    lemma_after_additions(plan, sources, existing, c);
    lemma_local_recordings(sources, existing);
    assert(additions.take(c) =~= additions);
    assert(new.take(c) =~= new);
}

} // verus!
