use chainindex::pipeline::Pipeline;

fn drive(p: &mut Pipeline, heights: &[u64]) {
    for &h in heights {
        assert_eq!(p.current_fetch(), Some(h));
        let due = p.on_block_indexed(h);
        if due {
            p.on_checkpoint_committed();
        }
    }
}

#[test]
fn effective_end_is_chain_tip_bound() {
    let p = Pipeline::new(1, 100, 7, 10);
    assert_eq!(p.end_height, 7);
    let q = Pipeline::new(1, 5, 7, 10);
    assert_eq!(q.end_height, 5);
}

#[test]
fn cancellation_mid_run_commits_through_last_height() {
    // Cancel after height 3 but before height 4's fetch: committed data
    // reaches exactly height 3 and the run exits as a success.
    let mut p = Pipeline::new(1, 10, 10, 1000);
    p.start();
    drive(&mut p, &[1, 2, 3]);
    p.on_cancelled();
    p.on_final_commit();
    assert_eq!(p.committed, vec![1, 2, 3]);
    assert_eq!(p.pending, Vec::<u64>::new());
    p.on_indexing_finished();
    assert!(p.run_outcome().is_ok());
}

#[test]
fn fetch_error_reported_after_flush() {
    let mut p = Pipeline::new(1, 10, 10, 1000);
    p.start();
    drive(&mut p, &[1, 2]);
    p.on_fetch_error();
    p.on_final_commit();
    // Partial progress is preserved even though the run failed.
    assert_eq!(p.committed, vec![1, 2]);
    p.on_indexing_finished();
    let outcome = p.run_outcome();
    assert!(matches!(outcome, Err(chainindex::model::IndexError::SourceUnavailable)));
}

#[test]
fn checkpoint_bounds_open_transaction() {
    let mut p = Pipeline::new(1, 5, 5, 2);
    p.start();
    drive(&mut p, &[1, 2, 3, 4, 5]);
    // Heights divisible by the interval forced a commit.
    assert_eq!(p.committed, vec![1, 2, 3, 4]);
    assert_eq!(p.pending, vec![5]);
    assert_eq!(p.current_fetch(), None);
    p.on_range_exhausted();
    p.on_final_commit();
    assert_eq!(p.committed, vec![1, 2, 3, 4, 5]);
    p.on_indexing_finished();
    assert!(p.run_outcome().is_ok());
}

#[test]
fn resume_after_checkpoint_matches_uninterrupted_run() {
    // Terminate right after a checkpoint commit at height 3, re-run from 4:
    // the combined committed heights equal an uninterrupted run's.
    let mut first = Pipeline::new(1, 6, 6, 3);
    first.start();
    drive(&mut first, &[1, 2, 3]);
    let mut resumed = Pipeline::new(4, 6, 6, 3);
    resumed.start();
    drive(&mut resumed, &[4, 5, 6]);
    resumed.on_range_exhausted();
    resumed.on_final_commit();
    let mut combined = first.committed.clone();
    combined.extend(resumed.committed.iter().copied());

    let mut whole = Pipeline::new(1, 6, 6, 1000);
    whole.start();
    drive(&mut whole, &[1, 2, 3, 4, 5, 6]);
    whole.on_range_exhausted();
    whole.on_final_commit();
    assert_eq!(combined, whole.committed);
}
