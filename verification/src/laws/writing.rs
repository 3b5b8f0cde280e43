//! What holds while a device is being written.

use vstd::prelude::*;

use crate::batch::TrackBatches;
use crate::database::{Change, Device, Edit, Playlist, Track};
use crate::plan::{KeptTrack, PlaylistPlan};
use crate::report::SyncCounts;
use crate::sync::{StepError, SyncPlan, SyncStep};
use crate::text;

verus! {

/// Changes that are written in two parts take the same calls, in the same order,
/// as changes that are written at once, but that each part says for itself that
/// the files of removed tracks are to be deleted.
pub proof fn law_writing_in_parts_makes_the_same_calls(
    first: Seq<Change>,
    second: Seq<Change>,
    sequence: u64,
    process_id: u32,
)
    ensures
        crate::database::number_after_all(first + second, sequence)
            == crate::database::number_after_all(
            second,
            crate::database::number_after_all(first, sequence),
        ),
        crate::database::edits_for_all(first + second, sequence, process_id)
            == crate::database::edits_for_all(first, sequence, process_id)
            + crate::database::edits_for_all(
            second,
            crate::database::number_after_all(first, sequence),
            process_id,
        ),
        first.len() > 0 && second.len() > 0 ==> crate::database::session_edits(
            first + second,
            sequence,
            process_id,
        ) == crate::database::session_edits(first, sequence, process_id)
            + crate::database::session_edits(
            second,
            crate::database::number_after_all(first, sequence),
            process_id,
        ).drop_first(),
    decreases second.len(),
{
    if second.len() == 0 {
        assert(first + second =~= first);
        assert(crate::database::edits_for_all(first, sequence, process_id)
            =~= crate::database::edits_for_all(first, sequence, process_id)
            + crate::database::edits_for_all(
            second,
            crate::database::number_after_all(first, sequence),
            process_id,
        ));
    } else {
        assert((first + second).drop_last() =~= first + second.drop_last());
        assert((first + second).last() == second.last());
        law_writing_in_parts_makes_the_same_calls(
            first,
            second.drop_last(),
            sequence,
            process_id,
        );
        let number = crate::database::number_after_all(first, sequence);
        let later = crate::database::edits_for_all(second, number, process_id);
        assert(crate::database::session_edits(second, number, process_id).drop_first() =~= later);
        assert(crate::database::edits_for_all(first + second, sequence, process_id)
            =~= crate::database::edits_for_all(first, sequence, process_id) + later);
        if first.len() > 0 {
            assert(crate::database::session_edits(first + second, sequence, process_id)
                =~= crate::database::session_edits(first, sequence, process_id) + later);
        }
    }
}

proof fn lemma_digits(n: nat)
    ensures
        text::decimal(n).len() > 0,
        forall|i: int|
            0 <= i < text::decimal(n).len() ==> '0' <= #[trigger] text::decimal(n)[i] && text::decimal(
                n,
            )[i] <= '9',
    decreases n,
{
    if n >= 10 {
        lemma_digits(n / 10);
        let front = text::decimal(n / 10);
        assert forall|i: int| 0 <= i < text::decimal(n).len() implies '0' <= #[trigger] text::decimal(
            n,
        )[i] && text::decimal(n)[i] <= '9' by {
            if i < front.len() {
                assert(text::decimal(n)[i] == front[i]);
            }
        }
    }
}

proof fn lemma_decimals_differ(a: nat, b: nat)
    requires
        text::decimal(a) == text::decimal(b),
    ensures
        a == b,
    decreases a,
{
    lemma_digits(a / 10);
    lemma_digits(b / 10);
    assert(text::decimal(a).last() == text::decimal(b).last());
    assert(text::digit(a % 10) == text::decimal(a).last());
    assert(text::digit(b % 10) == text::decimal(b).last());
    assert(text::digit(a % 10) as int == 48 + a % 10);
    assert(text::digit(b % 10) as int == 48 + b % 10);
    if a >= 10 && b >= 10 {
        assert(text::decimal(a).drop_last() =~= text::decimal(a / 10));
        assert(text::decimal(b).drop_last() =~= text::decimal(b / 10));
        lemma_decimals_differ(a / 10, b / 10);
    }
}

/// Picture files of different processes, or with different numbers, have
/// different names.
pub proof fn law_picture_files_have_names_of_their_own(
    process_id: u32,
    sequence: u64,
    other_process_id: u32,
    other_sequence: u64,
)
    requires
        crate::database::artwork_file_name(process_id, sequence)
            == crate::database::artwork_file_name(other_process_id, other_sequence),
    ensures
        process_id == other_process_id,
        sequence == other_sequence,
{
    reveal_strlit("copyPod-");
    reveal_strlit("-");
    reveal_strlit(".art");
    let name = crate::database::artwork_file_name(process_id, sequence);
    let a = text::decimal(process_id as nat);
    let b = text::decimal(other_process_id as nat);
    let c = text::decimal(sequence as nat);
    let d = text::decimal(other_sequence as nat);
    lemma_digits(process_id as nat);
    lemma_digits(other_process_id as nat);
    assert(name[8int + a.len()] == '-');
    assert(name[8int + b.len()] == '-');
    if a.len() < b.len() {
        assert(name[8int + a.len()] == b[a.len() as int]);
    } else if b.len() < a.len() {
        assert(name[8int + b.len()] == a[b.len() as int]);
    }
    assert forall|i: int| 0 <= i < a.len() implies a[i] == b[i] by {
        assert(name[8 + i] == a[i]);
        assert(name[8 + i] == b[i]);
    }
    assert(a =~= b);
    assert(name.len() == 13 + a.len() + c.len());
    assert(name.len() == 13 + b.len() + d.len());
    assert forall|i: int| 0 <= i < c.len() implies c[i] == d[i] by {
        assert(name[9 + a.len() + i] == c[i]);
        assert(name[9 + b.len() + i] == d[i]);
    }
    assert(c =~= d);
    lemma_decimals_differ(process_id as nat, other_process_id as nat);
    lemma_decimals_differ(sequence as nat, other_sequence as nat);
}

/// Whether a change hands over a picture.
pub open spec fn has_picture(change: Change) -> bool {
    match change {
        Change::Add { artwork, .. } => artwork is Some,
        Change::SetArtwork { .. } => true,
        _ => false,
    }
}

/// How many of the changes hand over a picture.
spec fn pictures(changes: Seq<Change>) -> nat
    decreases changes.len(),
{
    if changes.len() == 0 {
        0
    } else {
        pictures(changes.drop_last()) + if has_picture(changes.last()) {
            1nat
        } else {
            0nat
        }
    }
}

proof fn lemma_picture_number(changes: Seq<Change>, sequence: u64)
    requires
        changes.len() <= u64::MAX,
    ensures
        pictures(changes) <= changes.len(),
        crate::database::number_after_all(changes, sequence) == if sequence + pictures(changes)
            <= u64::MAX {
            sequence + pictures(changes)
        } else {
            sequence + pictures(changes) - u64::MAX - 1
        },
    decreases changes.len(),
{
    if changes.len() > 0 {
        lemma_picture_number(changes.drop_last(), sequence);
    }
}

proof fn lemma_pictures_grow(changes: Seq<Change>, i: int, j: int)
    requires
        0 <= i <= j <= changes.len(),
    ensures
        pictures(changes.take(i)) <= pictures(changes.take(j)),
    decreases j - i,
{
    if i < j {
        lemma_pictures_grow(changes, i, j - 1);
        assert(changes.take(j).drop_last() =~= changes.take(j - 1));
    }
}

/// Pictures that are written together are handed over in files of different
/// names: the number of the file of each is its own.
pub proof fn law_pictures_written_together_are_kept_apart(
    changes: Seq<Change>,
    sequence: u64,
    i: int,
    j: int,
)
    requires
        changes.len() <= u64::MAX,
        0 <= i < j < changes.len(),
        has_picture(changes[i]),
        has_picture(changes[j]),
    ensures
        crate::database::next_number(
            crate::database::number_after_all(changes.take(i), sequence),
        ) != crate::database::next_number(
            crate::database::number_after_all(changes.take(j), sequence),
        ),
{
    lemma_picture_number(changes.take(i), sequence);
    lemma_picture_number(changes.take(j), sequence);
    lemma_pictures_grow(changes, i + 1, j);
    assert(changes.take(i + 1).drop_last() =~= changes.take(i));
    assert(changes.take(i + 1).last() == changes[i]);
}

/// The counts once another change is queued and, where it fills the batch,
/// committed.
pub open spec fn after_change(batches: TrackBatches) -> TrackBatches {
    if batches.pending + 1 == batches.limit {
        batches.with_queued().with_committed()
    } else {
        batches.with_queued()
    }
}

/// The counts after `n` changes.
pub open spec fn after_changes(batches: TrackBatches, n: nat) -> TrackBatches
    decreases n,
{
    if n == 0 {
        batches
    } else {
        after_change(after_changes(batches, (n - 1) as nat))
    }
}

/// The counts once what is left is committed.
pub open spec fn after_finish(batches: TrackBatches) -> TrackBatches {
    if batches.pending == 0 {
        batches
    } else {
        batches.with_committed()
    }
}

/// As long as batches are committed, every change is either committed or in the
/// batch that is being filled, and the batches that were committed are full.
pub proof fn law_every_change_is_in_one_batch(start: TrackBatches, n: nat)
    requires
        start.wf(),
        start.pending == 0,
        start.committed == 0,
        start.completed_batches == 0,
        n <= usize::MAX,
    ensures
        ({
            let now = after_changes(start, n);
            &&& now.committed + now.pending == n
            &&& now.committed == now.completed_batches * start.limit
            &&& now.pending < start.limit
            &&& now.pending == n % (start.limit as nat)
            &&& now.completed_batches == n / (start.limit as nat)
            &&& now.limit == start.limit
            &&& now.total_tracks == start.total_tracks
            &&& now.phase == start.phase
        }),
    decreases n,
{
    let limit = start.limit as int;
    if n == 0 {
        vstd::arithmetic::div_mod::lemma_fundamental_div_mod_converse(0, limit, 0, 0);
    } else {
        let m = (n - 1) as nat;
        law_every_change_is_in_one_batch(start, m);
        let before = after_changes(start, m);
        let (q, r) = (before.completed_batches as int, before.pending as int);
        assert(q <= q * limit) by (nonlinear_arith)
            requires
                limit > 0,
                q >= 0,
        ;
        if r + 1 == limit {
            assert((q + 1) * limit == q * limit + limit) by (nonlinear_arith);
            vstd::arithmetic::div_mod::lemma_fundamental_div_mod_converse(n as int, limit, q + 1, 0);
        } else {
            vstd::arithmetic::div_mod::lemma_fundamental_div_mod_converse(n as int, limit, q, r + 1);
        }
    }
}

/// Once all changes were queued and the last batch was committed, every change
/// is committed, in as few batches as the limit allows.
pub proof fn law_finishing_commits_every_change(start: TrackBatches, n: nat)
    requires
        start.wf(),
        start.pending == 0,
        start.committed == 0,
        start.completed_batches == 0,
        n <= usize::MAX,
    ensures
        ({
            let done = after_finish(after_changes(start, n));
            &&& done.committed == n
            &&& done.pending == 0
            &&& done.completed_batches == crate::batch::batch_count(n, start.limit as nat)
        }),
{
    law_every_change_is_in_one_batch(start, n);
    let now = after_changes(start, n);
    let (q, limit) = (now.completed_batches as int, start.limit as int);
    assert(q <= q * limit) by (nonlinear_arith)
        requires
            limit > 0,
            q >= 0,
    ;
}

/// How many changes each commit covers while `n` changes are queued.
pub open spec fn commits_during(batches: TrackBatches, n: nat) -> Seq<nat>
    decreases n,
{
    if n == 0 {
        Seq::empty()
    } else {
        let before = after_changes(batches, (n - 1) as nat);
        let commits = commits_during(batches, (n - 1) as nat);
        if before.pending + 1 == before.limit {
            commits.push((before.pending + 1) as nat)
        } else {
            commits
        }
    }
}

/// How many changes each commit covers while `n` changes are queued and the
/// last batch is finished: nothing is committed where nothing is left.
pub open spec fn commits_in_all(batches: TrackBatches, n: nat) -> Seq<nat> {
    let left = after_changes(batches, n).pending;
    if left == 0 {
        commits_during(batches, n)
    } else {
        commits_during(batches, n).push(left as nat)
    }
}

proof fn lemma_commits_during(start: TrackBatches, n: nat)
    requires
        start.wf(),
        start.pending == 0,
        start.committed == 0,
        start.completed_batches == 0,
        n <= usize::MAX,
    ensures
        commits_during(start, n).len() == after_changes(start, n).completed_batches,
        forall|i: int|
            0 <= i < commits_during(start, n).len() ==> #[trigger] commits_during(start, n)[i]
                == start.limit,
    decreases n,
{
    if n > 0 {
        let m = (n - 1) as nat;
        lemma_commits_during(start, m);
        law_every_change_is_in_one_batch(start, m);
        law_every_change_is_in_one_batch(start, n);
        let earlier = commits_during(start, m);
        let all = commits_during(start, n);
        assert forall|i: int| 0 <= i < all.len() implies #[trigger] all[i] == start.limit by {
            if i < earlier.len() {
                assert(all[i] == earlier[i]);
            }
        }
    }
}

/// There are as many commits as batches; all but the last are full, and the last
/// is not empty. Once it is finished, finishing again commits nothing.
pub proof fn law_batches_are_full_but_the_last(start: TrackBatches, n: nat)
    requires
        start.wf(),
        start.pending == 0,
        start.committed == 0,
        start.completed_batches == 0,
        n <= usize::MAX,
    ensures
        ({
            let done = after_finish(after_changes(start, n));
            let commits = commits_in_all(start, n);
            &&& commits.len() == done.completed_batches
            &&& commits.len() == crate::batch::batch_count(n, start.limit as nat)
            &&& forall|i: int|
                0 <= i < commits.len() - 1 ==> #[trigger] commits[i] == start.limit
            &&& commits.len() > 0 ==> 1 <= commits.last() <= start.limit
            &&& done.pending == 0
            &&& after_finish(done) == done
        }),
{
    law_every_change_is_in_one_batch(start, n);
    law_finishing_commits_every_change(start, n);
    lemma_commits_during(start, n);
    let now = after_changes(start, n);
    let full = commits_during(start, n);
    let commits = commits_in_all(start, n);
    let (q, limit) = (now.completed_batches as int, start.limit as int);
    assert(q <= q * limit) by (nonlinear_arith)
        requires
            limit > 0,
            q >= 0,
    ;
    assert forall|i: int| 0 <= i < commits.len() - 1 implies #[trigger] commits[i]
        == start.limit by {
        assert(commits[i] == full[i]);
    }
    if commits.len() > 0 && now.pending == 0 {
        assert(commits.last() == full[full.len() - 1]);
    }
}

/// Whatever is reported takes one line: there is no control character in it, no
/// line feed and no terminal escape among them.
pub proof fn law_reports_take_one_line(message: Seq<char>, seconds: u64, i: int)
    requires
        0 <= i < crate::progress::line_of(message, seconds).len(),
    ensures
        !text::is_control(crate::progress::line_of(message, seconds)[i]),
        crate::progress::line_of(message, seconds)[i] != '\n',
{
    reveal_strlit("  [");
    reveal_strlit(":");
    reveal_strlit("] ");
    let minutes = text::two_digits((seconds / 60) as nat);
    let rest = text::two_digits((seconds % 60) as nat);
    lemma_digits((seconds / 60) as nat);
    lemma_digits((seconds % 60) as nat);
    assert forall|k: int| 0 <= k < minutes.len() implies !text::is_control(#[trigger] minutes[k]) by {
        if seconds / 60 < 10 {
            assert(k == 0 || minutes[k] == text::decimal((seconds / 60) as nat)[k - 1]);
        }
    }
    assert forall|k: int| 0 <= k < rest.len() implies !text::is_control(#[trigger] rest[k]) by {
        if seconds % 60 < 10 {
            assert(k == 0 || rest[k] == text::decimal((seconds % 60) as nat)[k - 1]);
        }
    }
    let flat = text::flattened(message);
    let line = crate::progress::line_of(message, seconds);
    let (a, b) = (3 + minutes.len(), 4 + minutes.len() + rest.len());
    if 3 <= i < a {
        assert(line[i] == minutes[i - 3]);
    } else if a < i < b {
        assert(line[i] == rest[i - a - 1]);
    } else if i >= b + 2 {
        assert(line[i] == flat[i - b - 2]);
    }
}

/// A dry run changes nothing: there is nothing to do in it.
pub proof fn law_dry_run_has_no_steps(deleted: nat, artwork: nat, copied: nat, playlists: bool)
    ensures
        crate::sync::steps_for(true, deleted, artwork, copied, playlists).len() == 0,
{
}

/// Whether a step adds something to the device: cover art or a track.
pub open spec fn adds_something(step: SyncStep) -> bool {
    step is AddArtwork || step is Copy
}

/// All removals come before the point where they are committed, all additions
/// between it and the point where they are committed, and playlists come last.
pub proof fn law_removals_are_committed_before_additions(
    deleted: nat,
    artwork: nat,
    copied: nat,
    playlists: bool,
    i: int,
)
    requires
        0 <= i < crate::sync::steps_for(false, deleted, artwork, copied, playlists).len(),
    ensures
        ({
            let steps = crate::sync::steps_for(false, deleted, artwork, copied, playlists);
            let first = deleted as int;
            let second = deleted + 1 + artwork + copied;
            &&& (steps[i] is Delete <==> i < first)
            &&& (steps[i] is FinishDeletions <==> i == first)
            &&& (adds_something(steps[i]) <==> first < i < second)
            &&& (steps[i] is FinishCopies <==> i == second)
            &&& (steps[i] is WritePlaylists <==> i > second)
        }),
{
}

/// Every step speaks of something in the plan that it was made for.
pub proof fn law_steps_are_in_the_plan(plan: SyncPlan, dry_run: bool, playlists: bool, i: int)
    requires
        plan.deleted@.len() <= usize::MAX,
        plan.artwork_updates@.len() <= usize::MAX,
        plan.copied@.len() <= usize::MAX,
        0 <= i < crate::sync::steps_for(
            dry_run,
            plan.deleted@.len(),
            plan.artwork_updates@.len(),
            plan.copied@.len(),
            playlists,
        ).len(),
    ensures
        plan.has_step(
            crate::sync::steps_for(
                dry_run,
                plan.deleted@.len(),
                plan.artwork_updates@.len(),
                plan.copied@.len(),
                playlists,
            )[i],
        ),
{
}

/// A device that cannot store cover art is never handed any.
pub proof fn law_no_artwork_where_it_cannot_be_stored(
    device: Device,
    plan: SyncPlan,
    step: SyncStep,
    is_file: bool,
    i: int,
)
    requires
        plan.wf(),
        plan.has_step(step),
        !plan.artwork_capable,
        0 <= i < crate::sync::step_outcome(device, plan, step, is_file).0.len(),
    ensures
        !has_picture(crate::sync::step_outcome(device, plan, step, is_file).0[i]),
{
}

/// A track that is kept gets cover art exactly where it has none, its local
/// counterpart has some, and the device can store it.
pub proof fn law_missing_artwork_is_added(kept: Seq<KeptTrack>, artwork_capable: bool, n: int, i: int)
    requires
        0 <= i < n <= kept.len() <= usize::MAX,
    ensures
        crate::sync::artwork_indexes(kept, artwork_capable, n).contains(i as usize) <==> {
            &&& artwork_capable
            &&& !kept[i].existing.has_artwork
            &&& kept[i].source.artwork is Some
        },
    decreases n,
{
    let earlier = crate::sync::artwork_indexes(kept, artwork_capable, n - 1);
    crate::laws::tracks::lemma_push_contains(earlier, (n - 1) as usize, i as usize);
    if i < n - 1 {
        law_missing_artwork_is_added(kept, artwork_capable, n - 1, i);
    } else {
        lemma_artwork_indexes_below(kept, artwork_capable, n - 1);
        if earlier.contains(i as usize) {
            let k = choose|k: int| 0 <= k < earlier.len() && earlier[k] == i as usize;
            assert(earlier[k] < n - 1);
        }
    }
}

proof fn lemma_artwork_indexes_below(kept: Seq<KeptTrack>, artwork_capable: bool, n: int)
    requires
        0 <= n <= kept.len() <= usize::MAX,
    ensures
        forall|k: int|
            0 <= k < crate::sync::artwork_indexes(kept, artwork_capable, n).len() ==> (
            #[trigger] crate::sync::artwork_indexes(kept, artwork_capable, n)[k]) < n,
    decreases n,
{
    if n > 0 {
        lemma_artwork_indexes_below(kept, artwork_capable, n - 1);
        let earlier = crate::sync::artwork_indexes(kept, artwork_capable, n - 1);
        let all = crate::sync::artwork_indexes(kept, artwork_capable, n);
        assert forall|k: int| 0 <= k < all.len() implies (#[trigger] all[k]) < n by {
            if k < earlier.len() {
                assert(all[k] == earlier[k]);
            }
        }
    }
}

/// A track that was read from a device can be removed from it.
pub proof fn law_tracks_that_were_read_can_be_removed(device: Device, tracks: Vec<Track>, i: int)
    requires
        crate::database::reads_as(
            device,
            Ok::<Vec<Track>, crate::database::DatabaseError>(tracks),
        ),
        0 <= i < tracks@.len(),
    ensures
        crate::database::has_track(device, tracks@[i].handle),
{
    let library = device.library.unwrap();
    assert(tracks@[i]@.handle == crate::database::TrackHandle(library.tracks@[i].id));
    assert(library.tracks@[i].id == tracks@[i].handle.0);
}

/// A playlist that a plan updates or deletes can be updated and deleted.
pub proof fn law_playlists_in_a_plan_can_be_changed(
    device: Device,
    existing: Seq<Playlist>,
    p: int,
)
    requires
        device.library matches Some(library) && library.playlists@ == existing,
        0 <= p < existing.len(),
        crate::plan::is_standard(existing[p]),
    ensures
        crate::database::has_editable_playlist(device, existing[p].handle),
{
    let library = device.library.unwrap();
    assert(library.playlists@[p].handle == existing[p].handle);
}

/// Where nothing is queued, writing takes no calls.
pub proof fn law_nothing_queued_takes_no_calls(sequence: u64, process_id: u32)
    ensures
        crate::database::session_edits(Seq::empty(), sequence, process_id) == Seq::<Edit>::empty(),
        crate::database::number_after_all(Seq::empty(), sequence) == sequence,
{
}

proof fn lemma_part_is_contained<T>(before: Seq<T>, part: Seq<T>, after: Seq<T>, i: int)
    requires
        0 <= i < part.len(),
    ensures
        (before + part + after).contains(part[i]),
{
    assert((before + part + after)[before.len() + i] == part[i]);
}

/// Every change of a plan is reported before anything is done, in a dry run as
/// in any other: each removal, and with it whether the file was gone already,
/// each copy, and each addition of cover art.
pub proof fn law_every_change_is_reported(
    plan: SyncPlan,
    playlists: PlaylistPlan,
    counts: SyncCounts,
    dry_run: bool,
)
    ensures
        ({
            let lines = crate::report::report_lines(plan, playlists, counts, dry_run);
            &&& forall|i: int|
                0 <= i < plan.deleted@.len() ==> lines.contains(
                    "- "@ + crate::report::removal_label(*#[trigger] plan.deleted@[i]),
                )
            &&& forall|i: int|
                0 <= i < plan.copied@.len() ==> lines.contains(
                    "+ "@ + crate::report::source_label(*#[trigger] plan.copied@[i]),
                )
            &&& forall|i: int|
                0 <= i < plan.artwork_updates@.len() ==> lines.contains(
                    "~ artwork: "@ + crate::report::artwork_label(
                        *plan.kept@[#[trigger] plan.artwork_updates@[i] as int].source,
                    ),
                )
        }),
{
    let lines = crate::report::report_lines(plan, playlists, counts, dry_run);
    let changes = crate::report::plan_lines(plan);
    let head = seq![crate::report::plan_text(counts)] + crate::report::line_if(
        crate::sync::leaves_out_artwork(plan.kept@, plan.copied@, plan.artwork_capable),
        "       (embedded artwork ignored: this device cannot store cover art)"@,
    );
    let tail = crate::report::playlist_plan_lines(
        playlists,
        "+ playlist: "@,
        "~ playlist: "@,
        "- playlist: "@,
    ) + crate::report::line_if(dry_run, "Dry run: no files or database entries were changed."@);
    assert(lines =~= head + changes + tail);
    let (d, c) = (plan.deleted@.len() as int, plan.copied@.len() as int);
    assert forall|i: int| 0 <= i < d implies lines.contains(
        "- "@ + crate::report::removal_label(*#[trigger] plan.deleted@[i]),
    ) by {
        lemma_part_is_contained(head, changes, tail, i);
    }
    assert forall|i: int| 0 <= i < c implies lines.contains(
        "+ "@ + crate::report::source_label(*#[trigger] plan.copied@[i]),
    ) by {
        lemma_part_is_contained(head, changes, tail, d + i);
    }
    assert forall|i: int| 0 <= i < plan.artwork_updates@.len() implies lines.contains(
        "~ artwork: "@ + crate::report::artwork_label(
            *plan.kept@[#[trigger] plan.artwork_updates@[i] as int].source,
        ),
    ) by {
        lemma_part_is_contained(head, changes, tail, d + c + i);
    }
}

/// The removals of a plan.
pub open spec fn removals(plan: SyncPlan) -> Seq<Change> {
    Seq::new(plan.deleted@.len(), |i: int| Change::Remove(plan.deleted@[i].handle.0))
}

/// The cover art that a plan adds to tracks that are kept.
pub open spec fn artwork_changes(plan: SyncPlan) -> Seq<Change> {
    Seq::new(
        plan.artwork_updates@.len(),
        |i: int|
            Change::SetArtwork {
                id: plan.gets_artwork(i).existing.handle.0,
                artwork: plan.gets_artwork(i).source.artwork->Some_0.data@,
            },
    )
}

/// The additions of a plan.
pub open spec fn additions(plan: SyncPlan) -> Seq<Change> {
    Seq::new(
        plan.copied@.len(),
        |i: int|
            crate::sync::addition_change(
                *plan.copied@[i],
                if plan.artwork_capable {
                    plan.copied@[i].artwork
                } else {
                    None
                },
            ),
    )
}

/// What a step comes to where all local files are there. Removals are queued for
/// the device as it was `first`, everything else for the device as it is from
/// `then_on`.
pub open spec fn outcome_of(
    first: Device,
    then_on: Device,
    plan: SyncPlan,
    step: SyncStep,
) -> (Seq<Change>, Option<StepError>) {
    crate::sync::step_outcome(
        if step is Delete {
            first
        } else {
            then_on
        },
        plan,
        step,
        true,
    )
}

/// What the first `n` steps queue.
pub open spec fn queued_by(
    first: Device,
    then_on: Device,
    plan: SyncPlan,
    steps: Seq<SyncStep>,
    n: int,
) -> Seq<Change>
    decreases n,
{
    if n <= 0 {
        Seq::empty()
    } else {
        queued_by(first, then_on, plan, steps, n - 1) + outcome_of(
            first,
            then_on,
            plan,
            steps[n - 1],
        ).0
    }
}

/// Whether the device has all tracks that a plan takes off it or gives cover art.
pub open spec fn can_be_carried_out(first: Device, then_on: Device, plan: SyncPlan) -> bool {
    &&& forall|i: int|
        0 <= i < plan.deleted@.len() ==> crate::database::has_track(
            first,
            (#[trigger] plan.deleted@[i]).handle,
        )
    &&& forall|i: int|
        0 <= i < plan.artwork_updates@.len() ==> crate::database::has_track(
            then_on,
            plan.kept@[#[trigger] plan.artwork_updates@[i] as int].existing.handle,
        )
}

spec fn queued_so_far(plan: SyncPlan, n: int) -> Seq<Change> {
    let first = plan.deleted@.len() as int;
    let second = first + 1 + plan.artwork_updates@.len();
    let third = second + plan.copied@.len();
    if n <= first {
        removals(plan).take(n)
    } else if n <= second {
        removals(plan) + artwork_changes(plan).take(n - first - 1)
    } else if n <= third {
        removals(plan) + artwork_changes(plan) + additions(
            plan,
        ).take(n - second)
    } else {
        removals(plan) + artwork_changes(plan) + additions(plan)
    }
}

/// What the step at index `i` queues comes behind what the steps before it do.
proof fn lemma_next_step(first: Device, then_on: Device, plan: SyncPlan, playlists: bool, i: int)
    requires
        plan.deleted@.len() <= usize::MAX,
        plan.artwork_updates@.len() <= usize::MAX,
        plan.copied@.len() <= usize::MAX,
        can_be_carried_out(first, then_on, plan),
        0 <= i < crate::sync::steps_for(
            false,
            plan.deleted@.len(),
            plan.artwork_updates@.len(),
            plan.copied@.len(),
            playlists,
        ).len(),
    ensures
        ({
            let step = crate::sync::steps_for(
                false,
                plan.deleted@.len(),
                plan.artwork_updates@.len(),
                plan.copied@.len(),
                playlists,
            )[i];
            let outcome = outcome_of(first, then_on, plan, step);
            &&& queued_so_far(plan, i + 1) == queued_so_far(plan, i) + outcome.0
            &&& outcome.1 is None
        }),
{
    let d = plan.deleted@.len() as int;
    let a = plan.artwork_updates@.len() as int;
    let c = plan.copied@.len() as int;
    let removals = removals(plan);
    let artwork = artwork_changes(plan);
    let additions = additions(plan);
    let step = crate::sync::steps_for(
        false,
        plan.deleted@.len(),
        plan.artwork_updates@.len(),
        plan.copied@.len(),
        playlists,
    )[i];
    let before = queued_so_far(plan, i);
    let added = outcome_of(first, then_on, plan, step).0;
    law_removals_are_committed_before_additions(
        plan.deleted@.len(),
        plan.artwork_updates@.len(),
        plan.copied@.len(),
        playlists,
        i,
    );
    if i < d {
        assert(step == SyncStep::Delete(i as usize));
        assert(crate::database::has_track(first, plan.deleted@[i].handle));
        assert(removals.take(i + 1) =~= removals.take(i) + added);
        if i + 1 == d {
            assert(queued_so_far(plan, i + 1) =~= removals.take(i + 1));
        }
    } else if i == d {
        assert(removals.take(d) =~= removals);
        assert(queued_so_far(plan, i + 1) =~= before + added);
    } else if i < d + 1 + a {
        let k = i - d - 1;
        assert(step == SyncStep::AddArtwork(k as usize));
        assert(crate::database::has_track(
            then_on,
            plan.kept@[plan.artwork_updates@[k] as int].existing.handle,
        ));
        assert(artwork.take(k + 1) =~= artwork.take(k) + added);
        assert(queued_so_far(plan, i + 1) =~= before + added);
    } else if i < d + 1 + a + c {
        let k = i - d - 1 - a;
        assert(step == SyncStep::Copy(k as usize));
        assert(artwork.take(a) =~= artwork);
        assert(additions.take(k + 1) =~= additions.take(k) + added);
        assert(queued_so_far(plan, i + 1) =~= before + added);
    } else {
        assert(artwork.take(a) =~= artwork);
        assert(additions.take(c) =~= additions);
        assert(queued_so_far(plan, i + 1) =~= before + added);
    }
}

proof fn lemma_queued_by(
    first: Device,
    then_on: Device,
    plan: SyncPlan,
    playlists: bool,
    steps: Seq<SyncStep>,
    n: int,
)
    requires
        plan.deleted@.len() <= usize::MAX,
        plan.artwork_updates@.len() <= usize::MAX,
        plan.copied@.len() <= usize::MAX,
        can_be_carried_out(first, then_on, plan),
        steps == crate::sync::steps_for(
            false,
            plan.deleted@.len(),
            plan.artwork_updates@.len(),
            plan.copied@.len(),
            playlists,
        ),
        0 <= n <= steps.len(),
    ensures
        queued_by(first, then_on, plan, steps, n) == queued_so_far(plan, n),
        forall|i: int|
            0 <= i < n ==> outcome_of(first, then_on, plan, #[trigger] steps[i]).1 is None,
    decreases n,
{
    if n == 0 {
        assert(queued_so_far(plan, 0) =~= Seq::empty());
    } else {
        lemma_queued_by(first, then_on, plan, playlists, steps, n - 1);
        lemma_next_step(first, then_on, plan, playlists, n - 1);
    }
}

/// The steps of a synchronization carry out its plan: where the device has the
/// tracks that it is about and the local files are there, no step fails,
/// and what is queued is the removal of every track that is to go, the cover art
/// of every track that is to get some, and the addition of every track that is to
/// come, in this order and nothing else.
pub proof fn law_steps_carry_out_the_plan(
    first: Device,
    then_on: Device,
    plan: SyncPlan,
    playlists: bool,
)
    requires
        plan.deleted@.len() <= usize::MAX,
        plan.artwork_updates@.len() <= usize::MAX,
        plan.copied@.len() <= usize::MAX,
        can_be_carried_out(first, then_on, plan),
    ensures
        ({
            let steps = crate::sync::steps_for(
                false,
                plan.deleted@.len(),
                plan.artwork_updates@.len(),
                plan.copied@.len(),
                playlists,
            );
            &&& queued_by(first, then_on, plan, steps, steps.len() as int) == removals(plan)
                + artwork_changes(plan) + additions(plan)
            &&& forall|i: int|
                0 <= i < steps.len() ==> outcome_of(
                    first,
                    then_on,
                    plan,
                    #[trigger] steps[i],
                ).1 is None
        }),
{
    let steps = crate::sync::steps_for(
        false,
        plan.deleted@.len(),
        plan.artwork_updates@.len(),
        plan.copied@.len(),
        playlists,
    );
    lemma_queued_by(first, then_on, plan, playlists, steps, steps.len() as int);
}

/// Cover art is added without copying the audio again: the step takes one change,
/// which sets the cover art of the track that is there, whether or not the local
/// file is still there. Nothing but the copy of a local track adds a track.
pub proof fn law_artwork_is_added_without_copying(
    device: Device,
    plan: SyncPlan,
    step: SyncStep,
    is_file: bool,
)
    requires
        plan.wf(),
        plan.has_step(step),
    ensures
        ({
            let changes = crate::sync::step_outcome(device, plan, step, is_file).0;
            &&& step !is Copy ==> forall|i: int|
                0 <= i < changes.len() ==> !(#[trigger] changes[i] is Add)
            &&& match step {
                SyncStep::AddArtwork(k) => {
                    let kept = plan.gets_artwork(k as int);
                    crate::database::has_track(device, kept.existing.handle) ==> {
                        &&& kept.source.artwork is Some
                        &&& changes == seq![
                            Change::SetArtwork {
                                id: kept.existing.handle.0,
                                artwork: kept.source.artwork->Some_0.data@,
                            },
                        ]
                    }
                },
                _ => true,
            }
        }),
{
}

} // verus!
