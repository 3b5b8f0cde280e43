//! Track changes in batches, each committed as one transaction.

use vstd::prelude::*;

use crate::text;

verus! {

/// Counts the track changes of one phase and says when a batch is full.
///
/// A change counts as one, however many parts it has: it is reported as queued
/// once all its parts are. Playlist changes are not counted.
#[derive(Debug)]
pub struct TrackBatches {
    pub limit: usize,
    pub total_tracks: usize,
    pub pending: usize,
    pub committed: usize,
    pub completed_batches: usize,
    pub phase: &'static str,
}

/// A batch that could not be committed, and what had been committed before.
#[derive(Debug)]
pub struct BatchError<E> {
    pub phase: &'static str,
    pub batch: usize,
    pub total_batches: usize,
    pub completed_batches: usize,
    pub committed: usize,
    pub cause: E,
}

/// How many batches of at most `limit` it takes for `total` changes.
pub open spec fn batch_count(total: nat, limit: nat) -> nat {
    if total % limit == 0 {
        total / limit
    } else {
        total / limit + 1
    }
}

fn count_batches(total: usize, limit: usize) -> (count: usize)
    requires
        limit > 0,
    ensures
        count == batch_count(total as nat, limit as nat),
{
    let whole: usize = total / limit;
    if total % limit == 0 {
        whole
    } else {
        proof {
            assert(total / limit <= total) by (nonlinear_arith)
                requires
                    limit > 0,
            ;
            if total == usize::MAX && limit == 1 {
                assert(total % limit == 0);
            }
            if limit > 1 {
                assert(total / limit < total || total == 0) by (nonlinear_arith)
                    requires
                        limit > 1,
                ;
            }
        }
        whole + 1
    }
}

impl TrackBatches {
    /// A batch holds at least one change.
    pub open spec fn wf(self) -> bool {
        self.limit > 0
    }

    /// The counts once another change is queued.
    pub open spec fn with_queued(self) -> TrackBatches {
        TrackBatches { pending: (self.pending + 1) as usize, ..self }
    }

    /// The counts once the pending changes are committed.
    pub open spec fn with_committed(self) -> TrackBatches {
        TrackBatches {
            pending: 0,
            committed: (self.committed + self.pending) as usize,
            completed_batches: (self.completed_batches + 1) as usize,
            ..self
        }
    }

    /// The error for the pending changes.
    pub open spec fn failed<E>(self, cause: E) -> BatchError<E> {
        BatchError {
            phase: self.phase,
            batch: (self.completed_batches + 1) as usize,
            total_batches: batch_count(self.total_tracks as nat, self.limit as nat) as usize,
            completed_batches: self.completed_batches,
            committed: self.committed,
            cause,
        }
    }

    /// Counts for `total_tracks` changes in batches of `limit`, or in a single
    /// batch.
    pub fn new(limit: Option<usize>, total_tracks: usize, phase: &'static str) -> (batches:
        TrackBatches)
        requires
            limit != Some(0usize),
        ensures
            batches.wf(),
            batches.limit == match limit {
                Some(n) => n,
                None => if total_tracks == 0 {
                    1
                } else {
                    total_tracks
                },
            },
            batches.total_tracks == total_tracks,
            batches.pending == 0,
            batches.committed == 0,
            batches.completed_batches == 0,
            batches.phase == phase,
    {
        TrackBatches {
            limit: match limit {
                Some(n) => n,
                None => if total_tracks == 0 {
                    1
                } else {
                    total_tracks
                },
            },
            total_tracks,
            pending: 0,
            committed: 0,
            completed_batches: 0,
            phase,
        }
    }

    /// Counts a change, and commits the batch where this fills it.
    pub fn queued<E, F: FnOnce() -> Result<(), E>>(&mut self, commit: F) -> (done: Result<
        (),
        BatchError<E>,
    >)
        requires
            old(self).wf(),
            old(self).pending < usize::MAX,
            old(self).pending + 1 == old(self).limit ==> {
                &&& old(self).committed + old(self).pending < usize::MAX
                &&& old(self).completed_batches < usize::MAX
                &&& commit.requires(())
            },
        ensures
            old(self).pending + 1 != old(self).limit ==> {
                &&& done is Ok
                &&& *final(self) == old(self).with_queued()
            },
            old(self).pending + 1 == old(self).limit ==> match done {
                Ok(_) => {
                    &&& commit.ensures((), Ok(()))
                    &&& *final(self) == old(self).with_queued().with_committed()
                },
                Err(e) => {
                    &&& commit.ensures((), Err(e.cause))
                    &&& *final(self) == old(self).with_queued()
                    &&& e == old(self).with_queued().failed(e.cause)
                },
            },
    {
        self.pending = self.pending + 1;
        if self.pending == self.limit {
            self.finish(commit)
        } else {
            Ok(())
        }
    }

    /// Commits the pending changes, where there are any.
    pub fn finish<E, F: FnOnce() -> Result<(), E>>(&mut self, commit: F) -> (done: Result<
        (),
        BatchError<E>,
    >)
        requires
            old(self).wf(),
            old(self).pending > 0 ==> {
                &&& old(self).committed + old(self).pending <= usize::MAX
                &&& old(self).completed_batches < usize::MAX
                &&& commit.requires(())
            },
        ensures
            old(self).pending == 0 ==> done is Ok && *final(self) == *old(self),
            old(self).pending > 0 ==> match done {
                Ok(_) => commit.ensures((), Ok(())) && *final(self) == old(self).with_committed(),
                Err(e) => commit.ensures((), Err(e.cause)) && *final(self) == *old(self) && e
                    == old(self).failed(e.cause),
            },
    {
        if self.pending == 0 {
            return Ok(());
        }
        let batch: usize = self.completed_batches + 1;
        match commit() {
            Ok(unit) => {
                assert(unit == ());
            },
            Err(cause) => {
                return Err(
                    BatchError {
                        phase: self.phase,
                        batch,
                        total_batches: count_batches(self.total_tracks, self.limit),
                        completed_batches: self.completed_batches,
                        committed: self.committed,
                        cause,
                    },
                );
            },
        }
        self.committed = self.committed + self.pending;
        self.pending = 0;
        self.completed_batches = batch;
        Ok(())
    }

    /// What to say before a batch of so many changes is committed.
    pub fn starting_notice(&self, changes: usize) -> (notice: String)
        requires
            self.wf(),
            self.completed_batches < usize::MAX,
        ensures
            notice@ == "Committing "@ + self.phase@ + " batch "@ + text::decimal(
                (self.completed_batches + 1) as nat,
            ) + "/"@ + text::decimal(batch_count(self.total_tracks as nat, self.limit as nat)) + ": "@
                + text::decimal(changes as nat) + " track change(s) ("@ + text::decimal(
                self.committed as nat,
            ) + " / "@ + text::decimal(self.total_tracks as nat) + " already committed)…"@,
    {
        let mut notice = "Committing ".to_owned();
        notice.append(self.phase);
        notice.append(" batch ");
        notice.append(text::number((self.completed_batches + 1) as u64).as_str());
        notice.append("/");
        notice.append(
            text::number(count_batches(self.total_tracks, self.limit) as u64).as_str(),
        );
        notice.append(": ");
        notice.append(text::number(changes as u64).as_str());
        notice.append(" track change(s) (");
        notice.append(text::number(self.committed as u64).as_str());
        notice.append(" / ");
        notice.append(text::number(self.total_tracks as u64).as_str());
        notice.append(" already committed)…");
        notice
    }

    /// What to say once a batch has been committed.
    pub fn finished_notice(&self) -> (notice: String)
        requires
            self.wf(),
        ensures
            notice@ == "Committed "@ + self.phase@ + " batch "@ + text::decimal(
                self.completed_batches as nat,
            ) + "/"@ + text::decimal(batch_count(self.total_tracks as nat, self.limit as nat)) + ": "@
                + text::decimal(self.committed as nat) + " / "@ + text::decimal(
                self.total_tracks as nat,
            ) + " track change(s) complete."@,
    {
        let mut notice = "Committed ".to_owned();
        notice.append(self.phase);
        notice.append(" batch ");
        notice.append(text::number(self.completed_batches as u64).as_str());
        notice.append("/");
        notice.append(
            text::number(count_batches(self.total_tracks, self.limit) as u64).as_str(),
        );
        notice.append(": ");
        notice.append(text::number(self.committed as u64).as_str());
        notice.append(" / ");
        notice.append(text::number(self.total_tracks as u64).as_str());
        notice.append(" track change(s) complete.");
        notice
    }
}

impl<E> BatchError<E> {
    /// The error for the user, without its cause.
    pub fn message(&self) -> (message: String)
        ensures
            message@ == self.phase@ + " batch "@ + text::decimal(self.batch as nat) + "/"@
                + text::decimal(self.total_batches as nat) + " failed; "@ + text::decimal(
                self.completed_batches as nat,
            ) + " earlier batch(es), "@ + text::decimal(self.committed as nat)
                + " track change(s), completed. Recover if prompted and rerun the same sync to finish"@,
    {
        let mut message = self.phase.to_owned();
        message.append(" batch ");
        message.append(text::number(self.batch as u64).as_str());
        message.append("/");
        message.append(text::number(self.total_batches as u64).as_str());
        message.append(" failed; ");
        message.append(text::number(self.completed_batches as u64).as_str());
        message.append(" earlier batch(es), ");
        message.append(text::number(self.committed as u64).as_str());
        message.append(
            " track change(s), completed. Recover if prompted and rerun the same sync to finish",
        );
        message
    }
}

} // verus!
