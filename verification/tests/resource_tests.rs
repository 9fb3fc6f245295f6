use fluminurs::file::File;
use fluminurs::resource::{drive_download, drive_retry_phase, find_free_rename_path,
    infinite_retry_step, prepare_decision, rename_candidate, rewrite_path_exec,
    sort_and_make_all_paths_unique, str_eq, str_lex_lt, DateStamp, EngineOutcome, FsAction,
    MetadataStatus, OverwriteMode, OverwriteResult, PrepareDecision, RetryPhase, RetryStep,
    RetryableError};
use fluminurs::util::utc_date;

fn file(id: &str, path: &str, updated: i64) -> File {
    File { id: id.to_string(), path: path.to_string(), last_updated: updated }
}

const MARCH: i64 = 1709294400000; // 2024-03-01T12:00:00Z
const APRIL: i64 = 1711972800000; // 2024-04-01T12:00:00Z
const JAN: i64 = 1704067200000; // 2024-01-01T00:00:00Z
const JUNE: i64 = 1717200000000; // 2024-06-01T00:00:00Z

#[test]
fn lexicographic_order_on_strings() {
    assert!(str_lex_lt("abc", "abd"));
    assert!(str_lex_lt("ab", "abc"));
    assert!(!str_lex_lt("abc", "abc"));
    assert!(!str_lex_lt("b", "a"));
    assert!(str_eq("same", "same"));
    assert!(!str_eq("same", "other"));
}

#[test]
fn rewrite_splices_id_before_last_extension() {
    assert_eq!(rewrite_path_exec("A/X.pdf", "ID1"), "A/X_ID1.pdf");
    assert_eq!(rewrite_path_exec("X.pdf", "7"), "X_7.pdf");
    assert_eq!(rewrite_path_exec("A/noext", "9"), "A/noext_9");
}

#[test]
fn uniquify_keeps_newest_clean_name() {
    // two files flatten to the same relative path; the newer keeps it
    let mut files = vec![
        file("ID1", "A/X.pdf", JAN),
        file("ID2", "A/X.pdf", JUNE),
    ];
    sort_and_make_all_paths_unique(&mut files);
    let mut paths: Vec<(String, String)> =
        files.iter().map(|f| (f.id.clone(), f.path.clone())).collect();
    paths.sort();
    assert_eq!(paths[0], ("ID1".to_string(), "A/X_ID1.pdf".to_string()));
    assert_eq!(paths[1], ("ID2".to_string(), "A/X.pdf".to_string()));
}

#[test]
fn uniquify_distinct_paths_for_triples() {
    let mut files = vec![
        file("a", "p/f.txt", 5),
        file("b", "p/f.txt", 9),
        file("c", "p/f.txt", 1),
        file("d", "p/g.txt", 3),
    ];
    sort_and_make_all_paths_unique(&mut files);
    let mut paths: Vec<String> = files.iter().map(|f| f.path.clone()).collect();
    paths.sort();
    paths.dedup();
    assert_eq!(paths.len(), 4);
    // the newest of the f.txt group kept the clean path
    let owner = files.iter().find(|f| f.path == "p/f.txt").unwrap();
    assert_eq!(owner.id, "b");
}

#[test]
fn rename_candidate_encodes_date_and_counter() {
    let date = DateStamp { year: 2024, month: 3, day: 1 };
    assert_eq!(rename_candidate("out/lecture.pdf", &date, 0), "out/lecture_autorename_2024-03-01.pdf");
    assert_eq!(rename_candidate("out/lecture.pdf", &date, 1), "out/lecture_autorename_2024-03-01_1.pdf");
    assert_eq!(rename_candidate("a.tar.gz", &date, 2), "a_autorename_2024-03-01_2.tar.gz");
}

#[test]
fn find_free_rename_path_skips_taken_names() {
    let date = DateStamp { year: 2024, month: 3, day: 1 };
    let existing = vec![
        "lecture_autorename_2024-03-01.pdf".to_string(),
        "lecture_autorename_2024-03-01_1.pdf".to_string(),
    ];
    let free = find_free_rename_path("lecture.pdf", &date, &existing);
    assert_eq!(free, "lecture_autorename_2024-03-01_2.pdf");
    let fresh = find_free_rename_path("lecture.pdf", &date, &Vec::new());
    assert_eq!(fresh, "lecture_autorename_2024-03-01.pdf");
}

#[test]
fn prepare_keeps_fresh_destination_in_every_mode() {
    // a destination at least as new as the server copy is never touched
    for mode in [OverwriteMode::Skip, OverwriteMode::Overwrite, OverwriteMode::Rename] {
        let d = prepare_decision(&MetadataStatus::Present { mtime: MARCH }, mode, MARCH);
        assert_eq!(d, PrepareDecision::Keep { result: OverwriteResult::AlreadyHave });
        let later = prepare_decision(&MetadataStatus::Present { mtime: APRIL }, mode, MARCH);
        assert_eq!(later, PrepareDecision::Keep { result: OverwriteResult::AlreadyHave });
    }
}

#[test]
fn prepare_branches_on_mode_for_stale_files() {
    let stale = MetadataStatus::Present { mtime: MARCH };
    assert_eq!(
        prepare_decision(&stale, OverwriteMode::Skip, APRIL),
        PrepareDecision::Keep { result: OverwriteResult::Skipped }
    );
    assert_eq!(
        prepare_decision(&stale, OverwriteMode::Overwrite, APRIL),
        PrepareDecision::Proceed { result: OverwriteResult::Overwritten }
    );
    assert_eq!(
        prepare_decision(&stale, OverwriteMode::Rename, APRIL),
        PrepareDecision::RenameExisting
    );
}

#[test]
fn prepare_error_variants() {
    assert_eq!(
        prepare_decision(&MetadataStatus::PermissionDenied, OverwriteMode::Skip, MARCH),
        PrepareDecision::Fault { error: "Permission denied when retrieving file metadata" }
    );
    assert_eq!(
        prepare_decision(&MetadataStatus::OtherError, OverwriteMode::Skip, MARCH),
        PrepareDecision::Fault { error: "Unable to retrieve file metadata" }
    );
    assert_eq!(
        prepare_decision(&MetadataStatus::MtimeUnsupported, OverwriteMode::Skip, MARCH),
        PrepareDecision::Fault { error: "File system does not support last modified time" }
    );
}

#[test]
fn retry_step_decisions() {
    assert_eq!(infinite_retry_step(&Ok(()), true), RetryStep::Commit);
    assert_eq!(
        infinite_retry_step(&Err(RetryableError::Retry("transient")), true),
        RetryStep::RetryAgain
    );
    assert_eq!(
        infinite_retry_step(&Err(RetryableError::Retry("transient")), false),
        RetryStep::Abort("Unable to delete temporary file")
    );
    assert_eq!(
        infinite_retry_step(&Err(RetryableError::Fail("disk full")), true),
        RetryStep::Abort("disk full")
    );
}

#[test]
fn retry_phase_failures_only_clean_up() {
    // a failed transcript orders no write to the destination
    let attempts = vec![
        Err(RetryableError::Retry("net")),
        Err(RetryableError::Fail("disk full")),
    ];
    let (actions, phase) = drive_retry_phase(&attempts);
    assert_eq!(phase, RetryPhase::Aborted("disk full"));
    assert!(actions.iter().all(|a| *a == FsAction::DeleteTemp));
}

#[test]
fn retry_phase_commits_once_after_retries() {
    let attempts = vec![
        Err(RetryableError::Retry("net")),
        Err(RetryableError::Retry("net")),
        Ok(()),
    ];
    let (actions, phase) = drive_retry_phase(&attempts);
    assert_eq!(phase, RetryPhase::Done);
    assert_eq!(
        actions,
        vec![FsAction::DeleteTemp, FsAction::DeleteTemp, FsAction::CommitTempToDest]
    );
}

#[test]
fn fresh_download_commits_and_stamps() {
    // a fresh directory: one attempt succeeds, the file is committed and stamped
    let prep = prepare_decision(&MetadataStatus::Absent, OverwriteMode::Skip, MARCH);
    assert_eq!(prep, PrepareDecision::Proceed { result: OverwriteResult::NewFile });
    let unused = String::new();
    let (actions, outcome) = drive_download(&prep, &unused, MARCH, &vec![Ok(())]);
    assert_eq!(outcome, EngineOutcome::Finished(OverwriteResult::NewFile));
    assert_eq!(
        actions,
        vec![
            FsAction::CreateParentDir,
            FsAction::CommitTempToDest,
            FsAction::SetDestMtime(MARCH),
        ]
    );
}

#[test]
fn replay_unchanged_touches_nothing() {
    // the same download replayed: the destination already carries the time
    let prep = prepare_decision(&MetadataStatus::Present { mtime: MARCH }, OverwriteMode::Skip, MARCH);
    let unused = String::new();
    let (actions, outcome) = drive_download(&prep, &unused, MARCH, &Vec::new());
    assert_eq!(outcome, EngineOutcome::Finished(OverwriteResult::AlreadyHave));
    assert!(actions.is_empty());
}

#[test]
fn rename_mode_moves_old_file_then_downloads() {
    // the server copy moved forward; rename mode sets the old file aside
    let prep = prepare_decision(&MetadataStatus::Present { mtime: MARCH }, OverwriteMode::Rename, APRIL);
    assert_eq!(prep, PrepareDecision::RenameExisting);
    let date = utc_date(MARCH);
    let renamed = find_free_rename_path("out/CS1/lecture.pdf", &date, &Vec::new());
    assert_eq!(renamed, "out/CS1/lecture_autorename_2024-03-01.pdf");
    let (actions, outcome) = drive_download(&prep, &renamed, APRIL, &vec![Ok(())]);
    assert_eq!(
        outcome,
        EngineOutcome::Finished(OverwriteResult::Renamed { renamed_path: renamed.clone() })
    );
    assert_eq!(
        actions,
        vec![
            FsAction::RenameDestTo(renamed),
            FsAction::CreateParentDir,
            FsAction::CommitTempToDest,
            FsAction::SetDestMtime(APRIL),
        ]
    );
}

#[test]
fn failed_download_never_writes_destination() {
    let prep = prepare_decision(&MetadataStatus::Absent, OverwriteMode::Skip, MARCH);
    let unused = String::new();
    let attempts = vec![
        Err(RetryableError::Retry("net")),
        Err(RetryableError::Fail("disk full")),
    ];
    let (actions, outcome) = drive_download(&prep, &unused, MARCH, &attempts);
    assert_eq!(outcome, EngineOutcome::Failed("disk full"));
    for a in &actions {
        assert!(!matches!(a, FsAction::CommitTempToDest));
        assert!(!matches!(a, FsAction::SetDestMtime(_)));
    }
}
