use copypod::batch::TrackBatches;

#[test]
fn boundaries_cover_default_partial_exact_large_and_empty_batches() {
    for (limit, count, expected) in [
        (None, 5, vec![5]),
        (Some(2), 5, vec![2, 2, 1]),
        (Some(2), 4, vec![2, 2]),
        (Some(1), 3, vec![1, 1, 1]),
        (Some(20), 5, vec![5]),
        (Some(usize::MAX), 5, vec![5]),
        (Some(2), 0, vec![]),
        (None, 0, vec![]),
    ] {
        let mut batches = TrackBatches::new(limit, count, "test");
        let mut queued = Vec::new();
        let mut actual = Vec::new();
        for index in 0..count {
            queued.push(index);
            batches
                .queued::<String, _>(|| {
                    actual.push(queued.len());
                    queued.clear();
                    Ok(())
                })
                .unwrap();
        }
        batches
            .finish::<String, _>(|| {
                actual.push(queued.len());
                queued.clear();
                Ok(())
            })
            .unwrap();
        assert_eq!(actual, expected);
        assert_eq!(batches.committed, count);
        assert!(queued.is_empty());
    }
}

#[test]
fn artwork_replacement_is_one_complete_change_not_two_batches() {
    let mut batches = TrackBatches::new(Some(1), 2, "copy/artwork");
    let mut changes = Vec::new();
    for _ in 0..2 {
        changes.push("remove old record");
        changes.push("add record with artwork");
        batches
            .queued::<String, _>(|| {
                assert_eq!(changes, ["remove old record", "add record with artwork"]);
                changes.clear();
                Ok(())
            })
            .unwrap();
    }
    assert_eq!(batches.completed_batches, 2);
    batches
        .finish::<String, _>(|| panic!("must not commit an empty tail"))
        .unwrap();
}

#[test]
fn failed_batch_does_not_advance_completed_counts() {
    let mut batches = TrackBatches::new(Some(2), 5, "copy/artwork");
    batches.queued::<String, _>(|| panic!("not full yet")).unwrap();
    batches.queued::<String, _>(|| Ok(())).unwrap();
    batches.queued::<String, _>(|| panic!("not full yet")).unwrap();
    let error = batches
        .queued(|| Err("simulated interruption".to_owned()))
        .unwrap_err();
    assert_eq!(batches.committed, 2);
    assert_eq!(batches.completed_batches, 1);
    assert_eq!(batches.pending, 2);
    assert_eq!(error.cause, "simulated interruption");
    assert!(error
        .message()
        .contains("1 earlier batch(es), 2 track change(s)"));
}

#[test]
fn failed_batch_is_described_in_full() {
    let mut batches = TrackBatches::new(Some(2), 5, "deletion");
    batches.queued::<String, _>(|| Ok(())).unwrap();
    let error = batches.queued(|| Err(7_u8)).unwrap_err();
    assert_eq!(error.cause, 7);
    assert_eq!(error.batch, 1);
    assert_eq!(error.total_batches, 3);
    assert_eq!(
        error.message(),
        "deletion batch 1/3 failed; 0 earlier batch(es), 0 track change(s), completed. \
         Recover if prompted and rerun the same sync to finish"
    );
}

#[test]
fn failed_tail_stays_pending() {
    let mut batches = TrackBatches::new(None, 3, "copy/artwork");
    batches.queued::<String, _>(|| Ok(())).unwrap();
    batches.queued::<String, _>(|| Ok(())).unwrap();
    assert!(batches.finish(|| Err(())).is_err());
    assert_eq!(batches.pending, 2);
    assert_eq!(batches.committed, 0);
    batches.finish::<(), _>(|| Ok(())).unwrap();
    assert_eq!(batches.pending, 0);
    assert_eq!(batches.committed, 2);
    assert_eq!(batches.completed_batches, 1);
}

#[test]
fn notices_count_batches_and_changes() {
    let mut batches = TrackBatches::new(Some(2), 5, "copy/artwork");
    assert_eq!(
        batches.starting_notice(2),
        "Committing copy/artwork batch 1/3: 2 track change(s) (0 / 5 already committed)…"
    );
    batches.queued::<String, _>(|| Ok(())).unwrap();
    batches.queued::<String, _>(|| Ok(())).unwrap();
    assert_eq!(
        batches.finished_notice(),
        "Committed copy/artwork batch 1/3: 2 / 5 track change(s) complete."
    );
    assert_eq!(
        batches.starting_notice(2),
        "Committing copy/artwork batch 2/3: 2 track change(s) (2 / 5 already committed)…"
    );
}

#[test]
fn finished_batches_are_not_committed_again() {
    let mut batches = TrackBatches::new(Some(2), 3, "test");
    for _ in 0..3 {
        batches.queued::<(), _>(|| Ok(())).unwrap();
    }
    batches.finish::<(), _>(|| Ok(())).unwrap();
    batches.finish::<(), _>(|| panic!("nothing is left")).unwrap();
    batches.completed_batches = usize::MAX;
    batches.committed = usize::MAX;
    batches.finish::<(), _>(|| panic!("nothing is left")).unwrap();
    batches.queued::<(), _>(|| panic!("not full yet")).unwrap();
    assert_eq!(batches.pending, 1);
}

#[test]
fn every_change_is_committed_or_pending() {
    for limit in 1..6 {
        let mut batches = TrackBatches::new(Some(limit), 11, "test");
        for count in 1..12 {
            batches.queued::<(), _>(|| Ok(())).unwrap();
            assert_eq!(batches.committed + batches.pending, count);
            assert_eq!(batches.completed_batches, count / limit);
            assert!(batches.pending < limit);
        }
        batches.finish::<(), _>(|| Ok(())).unwrap();
        assert_eq!(batches.committed, 11);
        assert_eq!(batches.completed_batches, (11 + limit - 1) / limit);
    }
}
