use csv_migrator::cancel::{cancel_migration, is_cancellation_requested, reset_cancellation, CancellationToken};
use csv_migrator::migration::{Migration, MigrationStatus, RowAction, RowRead, TargetKind};
use csv_migrator::retry::{classify_error, is_lock_error, AttemptOutcome, LockRetry, RetryDecision, LOCK_BACKOFF_MS};

fn processing(target: TargetKind, batch: usize, every: usize, lines: usize, token: &mut CancellationToken) -> Migration {
    let mut m = Migration::new(target, batch, every);
    let mut phases = Vec::new();
    for _ in 0..5 {
        phases.push(m.advance(token).status);
        if m.status == MigrationStatus::CountingRows {
            m.set_line_count(lines);
        }
    }
    assert_eq!(
        phases,
        vec!["counting_rows", "connecting", "creating_table", "starting_write", "processing"]
    );
    assert_eq!(m.status, MigrationStatus::Processing);
    m
}

#[test]
fn cancellation_token_round_trip() {
    let mut t = CancellationToken::new();
    assert!(!is_cancellation_requested(&t));
    cancel_migration(&mut t);
    assert!(is_cancellation_requested(&t));
    reset_cancellation(&mut t);
    assert!(!is_cancellation_requested(&t));
}

#[test]
fn starting_a_migration_clears_a_stale_cancel() {
    let mut t = CancellationToken::new();
    cancel_migration(&mut t);
    let _m = processing(TargetKind::Embedded, 2, 2, 3, &mut t);
    assert!(!is_cancellation_requested(&t));
}

#[test]
fn complete_run_processes_every_row() {
    let mut t = CancellationToken::new();
    let mut m = processing(TargetKind::Embedded, 3, 3, 8, &mut t);
    assert_eq!(m.total_rows, 7);
    let mut commits = 0;
    for _ in 0..7 {
        match m.next_row(&mut t, RowRead::Parsed) {
            RowAction::Write { commit, .. } => {
                if commit {
                    commits += 1;
                }
            }
            other => panic!("unexpected {:?}", other),
        }
        assert!(m.processed_rows <= m.total_rows);
    }
    assert_eq!(commits, 2);
    assert_eq!(m.committed_rows, 6);
    let e = m.finish();
    assert_eq!(e.status, "complete");
    assert_eq!(m.processed_rows, m.total_rows);
    assert_eq!(m.committed_rows, 7);
}

#[test]
fn cancel_keeps_only_whole_batches() {
    let mut t = CancellationToken::new();
    let mut m = processing(TargetKind::Embedded, 3, 100, 11, &mut t);
    for _ in 0..7 {
        m.next_row(&mut t, RowRead::Parsed);
    }
    cancel_migration(&mut t);
    assert_eq!(m.next_row(&mut t, RowRead::Parsed), RowAction::Cancel);
    assert_eq!(m.status, MigrationStatus::Cancelled);
    assert_eq!(m.processed_rows, 7);
    assert_eq!(m.committed_rows, 6);
    assert!(!is_cancellation_requested(&t));
    let e = m.progress_event();
    assert_eq!(e.status, "cancelled");
    assert_eq!(e.message, Some("Migration cancelled by user".to_string()));
}

#[test]
fn cancel_before_the_first_batch_leaves_nothing() {
    let mut t = CancellationToken::new();
    let mut m = processing(TargetKind::Embedded, 5, 5, 20, &mut t);
    m.next_row(&mut t, RowRead::Parsed);
    m.next_row(&mut t, RowRead::Parsed);
    cancel_migration(&mut t);
    assert_eq!(m.next_row(&mut t, RowRead::Parsed), RowAction::Cancel);
    assert_eq!(m.committed_rows, 0);
    assert_eq!(m.processed_rows, 2);
}

#[test]
fn bulk_copy_cancel_keeps_what_was_sent() {
    let mut t = CancellationToken::new();
    let mut m = processing(TargetKind::BulkCopy, 3, 2, 10, &mut t);
    for _ in 0..4 {
        assert_eq!(
            matches!(m.next_row(&mut t, RowRead::Parsed), RowAction::Write { commit: false, .. }),
            true
        );
    }
    cancel_migration(&mut t);
    assert_eq!(m.next_row(&mut t, RowRead::Parsed), RowAction::Cancel);
    assert_eq!(m.committed_rows, 4);
}

#[test]
fn reruns_give_the_same_counts() {
    let run = |batch: usize| {
        let mut t = CancellationToken::new();
        let mut m = processing(TargetKind::Embedded, batch, 1, 6, &mut t);
        for _ in 0..5 {
            m.next_row(&mut t, RowRead::Parsed);
        }
        m.finish();
        (m.processed_rows, m.written_rows, m.committed_rows)
    };
    assert_eq!(run(2), run(2));
    assert_eq!(run(2), run(4));
    assert_eq!(run(2), (5, 5, 5));
}

#[test]
fn malformed_row_fails_with_its_number() {
    let mut t = CancellationToken::new();
    let mut m = processing(TargetKind::Embedded, 10, 10, 5, &mut t);
    m.next_row(&mut t, RowRead::Parsed);
    assert_eq!(m.next_row(&mut t, RowRead::Malformed), RowAction::Fail { row: 2 });
    assert_eq!(m.status, MigrationStatus::Failed);
}

#[test]
fn rejected_rows_are_skipped_only_by_bulk_copy() {
    let mut t = CancellationToken::new();
    let mut m = processing(TargetKind::BulkCopy, 10, 2, 5, &mut t);
    assert_eq!(m.next_row(&mut t, RowRead::Rejected), RowAction::Skip { emit: false });
    assert_eq!(m.next_row(&mut t, RowRead::Parsed), RowAction::Write { commit: false, emit: true });
    assert_eq!(m.processed_rows, 2);
    assert_eq!(m.written_rows, 1);
    let mut e = processing(TargetKind::Embedded, 10, 2, 5, &mut t);
    assert_eq!(e.next_row(&mut t, RowRead::Rejected), RowAction::Fail { row: 1 });
}

#[test]
fn writer_failure_marks_the_run_failed() {
    let mut t = CancellationToken::new();
    let mut m = processing(TargetKind::Embedded, 2, 2, 5, &mut t);
    m.next_row(&mut t, RowRead::Parsed);
    let e = m.fail();
    assert_eq!(e.status, "failed");
    assert_eq!(m.status, MigrationStatus::Failed);
}

#[test]
fn empty_file_counts_no_rows() {
    let mut t = CancellationToken::new();
    let m = processing(TargetKind::Embedded, 2, 2, 0, &mut t);
    assert_eq!(m.total_rows, 0);
}

#[test]
fn lock_contention_recovers_within_five_retries() {
    let mut r = LockRetry::new();
    for _ in 0..4 {
        assert_eq!(r.after_attempt(AttemptOutcome::Locked), RetryDecision::RetryAfter(LOCK_BACKOFF_MS));
    }
    assert_eq!(r.after_attempt(AttemptOutcome::Succeeded), RetryDecision::Done);
}

#[test]
fn sixth_lock_failure_is_fatal() {
    let mut r = LockRetry::new();
    for _ in 0..5 {
        assert_eq!(r.after_attempt(AttemptOutcome::Locked), RetryDecision::RetryAfter(100));
    }
    assert_eq!(r.after_attempt(AttemptOutcome::Locked), RetryDecision::GiveUp);
}

#[test]
fn other_errors_are_not_retried() {
    let mut r = LockRetry::new();
    assert_eq!(r.after_attempt(AttemptOutcome::Failed), RetryDecision::GiveUp);
}

#[test]
fn lock_errors_are_recognised() {
    assert!(is_lock_error("database is locked (code 5)"));
    assert!(is_lock_error("error: database is locked"));
    assert!(!is_lock_error("database is lock"));
    assert!(!is_lock_error(""));
    assert_eq!(classify_error("database is locked"), AttemptOutcome::Locked);
    assert_eq!(classify_error("no such table: t"), AttemptOutcome::Failed);
}
