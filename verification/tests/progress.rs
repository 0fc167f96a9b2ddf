use archive_rclick::compression_progress::CompressionProgressIndex;
use archive_rclick::extracting::{answer_password, split_callback_progress, PasswordAnswer};
use archive_rclick::ffi::{E_ABORT, S_OK};
use archive_rclick::parallel::{join_workers, share_entries, ParallelProgress, WorkerJoin, WorkerOutcome};
use archive_rclick::error::ArchiveError;
use archive_rclick::options::OperationSummary;
use archive_rclick::progress::{
    ProgressPhase, ProgressSnapshot, Ratio, ThrottledProgress, TimeEstimate,
};

fn value(ratio: Ratio) -> f32 {
    ratio.part as f32 / ratio.whole as f32
}

#[test]
fn indexed_progress_matches_source_ranges_including_empty_files_and_directories() {
    for number in 0..4usize.pow(6) {
        let mut code = number;
        let items: Vec<(u64, bool)> = (0..6)
            .map(|_| {
                let item = match code % 4 {
                    0 => (0, false),
                    1 => (0, true),
                    2 => (1, true),
                    _ => (3, true),
                };
                code /= 4;
                item
            })
            .collect();
        let index = CompressionProgressIndex::new(&items);
        for completed in (0..=20u64).rev() {
            let mut total = 0u64;
            let mut expected_count = 0u64;
            let mut expected_file = None;
            let mut found = false;
            for (item_index, &(size, is_file)) in items.iter().enumerate() {
                let start = total;
                total += size;
                if is_file && completed > 0 && total <= completed {
                    expected_count += 1;
                }
                if size > 0 && !found {
                    expected_file = Some((item_index, completed.saturating_sub(start).min(size)));
                    found = completed <= total;
                }
            }
            assert_eq!(index.current_file(completed), expected_file);
            assert_eq!(index.completed_files(completed), expected_count);
        }
    }
    let empty = CompressionProgressIndex::new(&Vec::new());
    assert_eq!(empty.current_file(1), None);
    assert_eq!(empty.completed_files(1), 0);
}

#[test]
fn callback_progress_handles_counters_that_restart_per_file() {
    assert_eq!(split_callback_progress(950, 900, Some(100)), (950, 50));
    assert_eq!(split_callback_progress(50, 900, Some(100)), (950, 50));
    assert_eq!(split_callback_progress(1400, 900, Some(100)), (1000, 100));
}

#[test]
fn compression_work_is_split_across_file_progress_ranges() {
    let totals = [25, 25, 0, 25, 25];
    let items: Vec<(u64, bool)> = totals.iter().map(|size| (*size, true)).collect();
    let index = CompressionProgressIndex::new(&items);
    assert_eq!(index.current_file(1), Some((0, 1)));
    assert_eq!(index.current_file(25), Some((0, 25)));
    assert_eq!(index.current_file(26), Some((1, 1)));
    assert_eq!(index.current_file(75), Some((3, 25)));
    assert_eq!(index.current_file(76), Some((4, 1)));
    assert_eq!(index.current_file(100), Some((4, 25)));
}

#[test]
fn compression_file_count_ignores_directories_and_tracks_boundaries() {
    let totals = [25, 0, 0, 25];
    let is_file = [true, false, true, true];
    let items: Vec<(u64, bool)> = totals.into_iter().zip(is_file).collect();
    let index = CompressionProgressIndex::new(&items);
    assert_eq!(index.completed_files(0), 0);
    assert_eq!(index.completed_files(24), 0);
    assert_eq!(index.completed_files(25), 2);
    assert_eq!(index.completed_files(26), 2);
    assert_eq!(index.completed_files(50), 3);
}

#[test]
fn missing_password_is_not_reported_as_an_empty_password() {
    let none = answer_password(&None);
    assert_eq!(none.code(), E_ABORT);
    assert!(matches!(none, PasswordAnswer::Missing));
    let empty = answer_password(&Some(String::new()));
    assert_eq!(empty.code(), E_ABORT);
    assert!(matches!(empty, PasswordAnswer::Missing));

    let given = answer_password(&Some("secret".to_owned()));
    assert_eq!(given.code(), S_OK);
    assert!(matches!(given, PasswordAnswer::Given(password) if password == "secret"));
}

#[test]
fn finished_empty_operation_is_one_hundred_percent() {
    let snapshot = ProgressSnapshot::new(ProgressPhase::Finished);

    assert_eq!(value(snapshot.fraction()), 1.0);
}

#[test]
fn byte_progress_takes_precedence_over_entry_progress() {
    let mut snapshot = ProgressSnapshot::new(ProgressPhase::Compressing);
    snapshot.total_entries = Some(10);
    snapshot.entries_processed = 9;
    snapshot.total_bytes = Some(1_000);
    snapshot.bytes_processed = 250;

    assert!((value(snapshot.fraction()) - 0.25).abs() < f32::EPSILON);
}

#[test]
fn current_file_progress_is_independent_of_overall_progress() {
    let mut snapshot = ProgressSnapshot::new(ProgressPhase::Compressing);
    snapshot.bytes_processed = 900;
    snapshot.total_bytes = Some(1_000);
    snapshot.current_file_bytes_processed = 25;
    snapshot.current_file_total_bytes = Some(100);

    assert!((value(snapshot.fraction()) - 0.9).abs() < f32::EPSILON);
    assert!((value(snapshot.current_file_fraction().unwrap()) - 0.25).abs() < f32::EPSILON);
}

#[test]
fn entries_count_where_no_bytes_are_known() {
    let mut snapshot = ProgressSnapshot::new(ProgressPhase::Extracting);
    assert_eq!(value(snapshot.fraction()), 0.0);
    snapshot.total_entries = Some(4);
    snapshot.entries_processed = 3;
    assert_eq!(value(snapshot.fraction()), 0.75);
    snapshot.entries_processed = 9;
    assert_eq!(value(snapshot.fraction()), 1.0);
    assert!(snapshot.current_file_fraction().is_none());
}

#[test]
fn phases_have_labels() {
    assert_eq!(ProgressPhase::Finished.label(), "Finished");
    assert_ne!(ProgressPhase::Opening.label(), ProgressPhase::Testing.label());
}

#[test]
fn reports_keep_their_distance_unless_forced() {
    let mut throttle = ThrottledProgress::new(100, 1_000);
    let fresh = || ProgressSnapshot::new(ProgressPhase::Extracting);
    let first = throttle.report(fresh(), 1_010, TimeEstimate::Unknown, false);
    assert_eq!(first.unwrap().elapsed, 10);
    assert!(throttle.report(fresh(), 1_109, TimeEstimate::Unknown, false).is_none());
    assert!(throttle.report(fresh(), 1_109, TimeEstimate::Unknown, true).is_some());
    assert!(throttle.report(fresh(), 1_150, TimeEstimate::Unknown, false).is_none());
    let mut started = fresh();
    started.total_bytes = Some(1_000);
    started.bytes_processed = 418;
    let estimated = throttle
        .report(started.copy(), 1_209, TimeEstimate::Total(500), false)
        .unwrap();
    assert_eq!(estimated.estimated_total, Some(500));
    assert_eq!(estimated.estimated_remaining, Some(291));
    let nothing_done = throttle.report(fresh(), 1_309, TimeEstimate::Total(500), false).unwrap();
    assert_eq!(nothing_done.estimated_total, None);
    assert_eq!(nothing_done.estimated_remaining, None);
    // The whole counts as done, though the operation is not over.
    started.bytes_processed = 1_000;
    let whole = throttle.report(started.copy(), 1_409, TimeEstimate::Unknown, false).unwrap();
    assert_eq!(whole.estimated_total, Some(409));
    assert_eq!(whole.estimated_remaining, Some(0));
    let whole = throttle.report(started, 1_509, TimeEstimate::Total(900), false).unwrap();
    assert_eq!(whole.estimated_total, Some(509));
    let over = ProgressSnapshot::new(ProgressPhase::Finished);
    let over = throttle.report(over, 1_510, TimeEstimate::Unknown, true).unwrap();
    assert_eq!((over.estimated_remaining, over.estimated_total), (Some(0), Some(510)));
}

#[test]
fn worker_progress_adds_up_and_never_goes_back() {
    let mut progress = ParallelProgress::new(2);
    let mut first = ProgressSnapshot::new(ProgressPhase::Extracting);
    first.bytes_processed = 30;
    first.entries_processed = 1;
    let mut second = ProgressSnapshot::new(ProgressPhase::Extracting);
    second.bytes_processed = 12;
    second.entries_processed = 2;
    progress.report(0, first);
    let shown = progress.report(1, second).unwrap();
    assert_eq!(shown.bytes_processed, 42);
    assert_eq!(shown.entries_processed, 3);
    let mut back = ProgressSnapshot::new(ProgressPhase::Extracting);
    back.bytes_processed = 5;
    let shown = progress.report(0, back).unwrap();
    assert_eq!(shown.bytes_processed, 42);
    assert!(progress.report(2, ProgressSnapshot::new(ProgressPhase::Extracting)).is_none());
}

#[test]
fn shares_cover_all_entries_in_order() {
    let indices: Vec<u32> = (0..600).collect();
    let shares = share_entries(&indices, 16);
    assert_eq!(shares.len(), 4);
    assert!(shares.iter().all(|share| share.len() == 150));
    assert_eq!(shares.concat(), indices);
    assert_eq!(share_entries(&(0..10).collect(), 16).len(), 1);
}

#[test]
fn the_first_failed_worker_is_reported() {
    let done = |entries: u64| {
        WorkerOutcome::Done(OperationSummary {
            entries_processed: entries,
            entries_skipped: 1,
            bytes_processed: 10,
            warning: None,
        })
    };
    let joined = join_workers(vec![done(2), done(3)]).unwrap();
    assert_eq!(joined.entries_processed, 5);
    assert_eq!(joined.entries_skipped, 2);
    assert_eq!(joined.bytes_processed, 20);
    let failed = join_workers(vec![
        done(2),
        WorkerOutcome::Failed(ArchiveError::PasswordRequired),
        WorkerOutcome::Panicked,
    ]);
    assert!(matches!(failed, Err(ArchiveError::PasswordRequired)));
    let panicked = join_workers(vec![WorkerOutcome::Panicked]);
    assert!(
        matches!(panicked, Err(ArchiveError::SevenZip(text)) if text == "parallel ZIP extraction worker panicked")
    );
}

#[test]
fn a_failed_worker_cancels_the_others() {
    let summary = OperationSummary {
        entries_processed: 1,
        entries_skipped: 0,
        bytes_processed: 5,
        warning: None,
    };
    let mut join = WorkerJoin::new();
    assert!(!join.join(WorkerOutcome::Done(summary)));
    assert!(join.join(WorkerOutcome::Failed(ArchiveError::Cancelled)));
    assert!(join.join(WorkerOutcome::Panicked));
    assert_eq!(join.summary.bytes_processed, 5);
    assert!(matches!(join.finish(), Err(ArchiveError::Cancelled)));
}
