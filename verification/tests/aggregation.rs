use b2_backup::confirm::{check_deletion, ConfirmError};
use b2_backup::parse::ParseError;
use b2_backup::records::{restore_total_size, Operation, Transfer};
use b2_backup::stats::{cumulative_sizes_ok, failure_diagnostic, upload_files, Event, Stats};

fn transfer(per: &str, ty: &str, total: u64) -> Transfer {
    Transfer {
        percentage: per.as_bytes().to_vec(),
        file_name: b"/a/file".to_vec(),
        type_: ty.as_bytes().to_vec(),
        rate: b"1kb/s".to_vec(),
        total_size: total,
    }
}

#[test]
fn deletion_of_exact_count_succeeds() {
    let ops = vec![Operation { items_deleted: Some(100) }];
    assert_eq!(check_deletion(&ops, 100), Ok(()));
}

#[test]
fn deletion_count_mismatch_reports_both_numbers() {
    let ops = vec![Operation { items_deleted: Some(42) }];
    let err = check_deletion(&ops, 100).unwrap_err();
    assert_eq!(err, ConfirmError::Mismatch { deleted: 42, submitted: 100 });
    let msg = String::from_utf8(err.message()).unwrap();
    assert_eq!(msg, "Deleted only 42 of 100 items");
    assert!(msg.contains("42") && msg.contains("100"));
}

#[test]
fn missing_confirmation_names_the_submitted_count() {
    let ops = vec![Operation { items_deleted: None }, Operation { items_deleted: None }];
    let err = check_deletion(&ops, 100).unwrap_err();
    assert_eq!(err, ConfirmError::NotConfirmed { submitted: 100 });
    let msg = String::from_utf8(err.message()).unwrap();
    assert_eq!(msg, "Deletion of 100 items was not confirmed");
    assert!(msg.contains("100"));
}

#[test]
fn only_the_first_confirmation_counts() {
    let ops = vec![
        Operation { items_deleted: None },
        Operation { items_deleted: Some(10) },
        Operation { items_deleted: Some(100) },
    ];
    assert_eq!(
        check_deletion(&ops, 100),
        Err(ConfirmError::Mismatch { deleted: 10, submitted: 100 })
    );
}

#[test]
fn cumulative_deltas_are_reported_per_file() {
    let transfers = vec![transfer("100%", "FULL", 2000), transfer("100%", "FULL", 5000)];
    assert!(cumulative_sizes_ok(&transfers));
    let mut stats = Stats::new();
    let events = upload_files(&mut stats, &transfers);
    assert_eq!(stats.backed_up_now, 2);
    assert_eq!(stats.considered_for_backup, 2);
    assert_eq!(stats.already_present, 0);
    assert_eq!(stats.failed_to_backup, 0);
    let sizes: Vec<u64> = events
        .iter()
        .map(|e| match e {
            Event::Transferred { size, .. } => *size,
            Event::Failed { .. } => panic!("no failure was reported"),
        })
        .collect();
    assert_eq!(sizes, vec![2000, 3000]);
}

#[test]
fn partial_progress_records_are_ignored() {
    let transfers = vec![transfer("50%", "FULL", 900), transfer("100%", "FULL", 1000)];
    let mut stats = Stats::new();
    let events = upload_files(&mut stats, &transfers);
    assert_eq!(stats.considered_for_backup, 1);
    assert_eq!(stats.backed_up_now, 1);
    assert_eq!(events.len(), 1);
}

#[test]
fn in_sync_increments_only_already_present() {
    let transfers = vec![transfer("100%", "FILE IN SYNC", 123456)];
    let mut stats = Stats::new();
    let events = upload_files(&mut stats, &transfers);
    assert_eq!(stats.already_present, 1);
    assert_eq!(stats.considered_for_backup, 1);
    assert_eq!(stats.backed_up_now, 0);
    assert_eq!(stats.failed_to_backup, 0);
    assert!(events.is_empty());
}

#[test]
fn unknown_type_is_a_failure_with_verbatim_reason() {
    let transfers = vec![transfer("100%", "ERROR: disk full", 0)];
    let mut stats = Stats::new();
    let events = upload_files(&mut stats, &transfers);
    assert_eq!(stats.failed_to_backup, 1);
    assert_eq!(stats.backed_up_now, 0);
    assert_eq!(stats.already_present, 0);
    match &events[0] {
        Event::Failed { file_name, reason } => {
            let diag = String::from_utf8(failure_diagnostic(file_name, reason)).unwrap();
            assert!(diag.contains("ERROR: disk full"));
        },
        Event::Transferred { .. } => panic!("the record was not carried over"),
    }
}

#[test]
fn incremental_counts_as_backed_up() {
    let transfers = vec![transfer("100%", "INCREMENTAL", 10)];
    let mut stats = Stats::new();
    upload_files(&mut stats, &transfers);
    assert_eq!(stats.backed_up_now, 1);
}

#[test]
fn decreasing_cumulative_sizes_are_refused() {
    let transfers = vec![transfer("100%", "FULL", 5000), transfer("100%", "FULL", 2000)];
    assert!(!cumulative_sizes_ok(&transfers));
    let fine = vec![transfer("100%", "FULL", 5000), transfer("50%", "FULL", 2000)];
    assert!(cumulative_sizes_ok(&fine));
}

#[test]
fn restore_reports_the_largest_counter() {
    let output = b"<item tottrf_sz=\"100\"/>\ntext\n<item tottrf_sz=\"900\"/>\n<item tottrf_sz=\"400\"/>\n".to_vec();
    assert_eq!(restore_total_size(&output), Ok(900));
    assert_eq!(restore_total_size(&b"no records".to_vec()), Ok(0));
}

#[test]
fn restore_records_need_a_numeric_counter() {
    let missing = b"<item fname=\"/a\"/>\n".to_vec();
    assert_eq!(restore_total_size(&missing), Err(ParseError::MissingField));
    let bad = b"<item tottrf_sz=\"lots\"/>\n".to_vec();
    assert_eq!(restore_total_size(&bad), Err(ParseError::BadNumber));
}
