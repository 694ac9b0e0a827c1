use clipboard_vault::error::AppError;
use clipboard_vault::workspace::{
    api_workspace_limit, check_purge_confirmation, check_purge_rows, check_purge_selection, low_storage,
    multipart_incoming, reclaimable_total, request_body_limit, unique_ids, PurgeTally, MAX_PURGE_ITEMS,
};

#[test]
fn api_limits_default_to_one_hundred_mebibytes() {
    assert_eq!(api_workspace_limit(None, 10_737_418_240), 104_857_600);
    assert_eq!(api_workspace_limit(Some(0), 10_737_418_240), 1);
    assert_eq!(api_workspace_limit(Some(-5), 10_737_418_240), 1);
    assert_eq!(api_workspace_limit(Some(i64::MAX), 10_737_418_240), 10_737_418_240);
    assert_eq!(api_workspace_limit(None, 1_000), 1_000);
}

#[test]
fn multipart_requests_assume_the_limit_and_framing() {
    assert_eq!(multipart_incoming(Some(10), 100), 10);
    assert_eq!(multipart_incoming(None, 100), 100 + 1_048_576);
    assert_eq!(multipart_incoming(None, u64::MAX - 5), u64::MAX);
}

#[test]
fn request_bodies_allow_a_mebibyte_of_framing() {
    assert_eq!(request_body_limit(104_857_600), 105_906_176);
    assert_eq!(request_body_limit(u64::MAX) as u64, usize::MAX as u64);
}

#[test]
fn reclaimable_bytes_count_deleted_items_only() {
    assert_eq!(reclaimable_total(&vec![(true, 10), (false, 99), (true, 5)]), Some(15));
    assert_eq!(reclaimable_total(&vec![]), Some(0));
    assert_eq!(reclaimable_total(&vec![(true, i64::MAX), (false, 1), (true, 1)]), None);
    assert_eq!(reclaimable_total(&vec![(true, i64::MAX), (true, -1), (true, 1)]), Some(i64::MAX));
}

#[test]
fn low_storage_compares_with_the_reserve() {
    assert!(low_storage(100, 90, 20));
    assert!(!low_storage(110, 90, 20));
    assert!(!low_storage(90, 90, -4));
}

#[test]
fn purges_need_a_manager_and_a_sensible_selection() {
    assert!(check_purge_selection("owner", 1).is_ok());
    assert!(check_purge_selection("admin", MAX_PURGE_ITEMS).is_ok());
    assert!(matches!(check_purge_selection("member", 3), Err(AppError::Forbidden)));
    assert!(matches!(check_purge_selection("api_key", 3), Err(AppError::Forbidden)));
    for count in [0usize, 251] {
        match check_purge_selection("admin", count) {
            Err(AppError::Validation(m)) => assert_eq!(m, "select between 1 and 250 items"),
            _ => panic!("expected the selection to be refused"),
        }
    }
}

#[test]
fn purges_are_confirmed_with_the_workspace_name() {
    assert!(check_purge_confirmation("  Research ", "Research").is_ok());
    match check_purge_confirmation("research", "Research") {
        Err(AppError::Validation(m)) => assert_eq!(m, "workspace name confirmation does not match"),
        _ => panic!("expected the confirmation to be refused"),
    }
    assert!(check_purge_rows(3, 3).is_ok());
    match check_purge_rows(2, 3) {
        Err(AppError::Validation(m)) => assert_eq!(m, "one or more selected items were not found"),
        _ => panic!("expected missing rows to be refused"),
    }
}

#[test]
fn selections_keep_first_occurrences() {
    assert_eq!(unique_ids(&vec![3, 1, 3, 2, 1]), vec![3, 1, 2]);
    assert_eq!(unique_ids(&vec![]), Vec::<u128>::new());
}

#[test]
fn purge_tallies_count_each_blob_once() {
    let mut tally = PurgeTally::new();
    assert!(tally.first_visit(7));
    assert!(!tally.first_visit(7));
    assert!(tally.first_visit(8));
    tally.record_removed_blob(100, Some("org/ab/cd/x".into()));
    tally.record_removed_blob(20, None);
    assert_eq!(tally.reclaimed_bytes, 120);
    assert_eq!(tally.storage_keys, vec!["org/ab/cd/x"]);
    tally.record_removed_blob(i64::MAX, None);
    assert_eq!(tally.reclaimed_bytes, i64::MAX);
}
