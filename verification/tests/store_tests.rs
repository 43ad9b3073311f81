use notica::calendar::Instant;
use notica::models::CountAggregation;
use notica::store::RepoError;
use notica::store::Store;

fn at(y: u32, m: u32, d: u32, h: u32, mi: u32, s: u32) -> Instant {
    Instant::from_civil(y, m, d, h, mi, s).unwrap()
}

fn monthly_store() -> Store {
    let mut s = Store::new();
    s.provision_settings(String::from("MONTHLY"));
    s
}

#[test]
fn add_kid_rejects_empty_name() {
    let now = at(2024, 5, 10, 12, 0, 0);
    let mut s = monthly_store();
    assert_eq!(s.add_kid(String::from(""), now), Err(RepoError::Validation));
    assert_eq!(s.add_kid(String::from("   "), now), Err(RepoError::Validation));
    assert_eq!(s.add_kid(String::from(" \t\n "), now), Err(RepoError::Validation));
}

#[test]
fn add_kid_rejects_overlong_name() {
    let now = at(2024, 5, 10, 12, 0, 0);
    let mut s = monthly_store();
    let long: String = std::iter::repeat('x').take(51).collect();
    assert_eq!(s.add_kid(long, now), Err(RepoError::Validation));
    let edge: String = std::iter::repeat('x').take(50).collect();
    assert!(s.add_kid(edge.clone(), now).is_ok());
    // Surrounding whitespace is trimmed before the length check.
    let padded = format!("   {}   ", edge);
    let added = s.add_kid(padded, now).unwrap();
    assert_eq!(added.name, edge);
}

#[test]
fn add_kid_trims_and_returns_row() {
    let now = at(2024, 5, 10, 12, 0, 0);
    let mut s = monthly_store();
    let k = s.add_kid(String::from("  Maria  "), now).unwrap();
    assert_eq!(k.name, "Maria");
    assert_eq!(k.id, 1);
    let k2 = s.add_kid(String::from("Tom"), now).unwrap();
    assert_eq!(k2.id, 2);
}

#[test]
fn eleventh_add_kid_hits_capacity() {
    let now = at(2024, 5, 10, 12, 0, 0);
    let mut s = monthly_store();
    for i in 0..10u32 {
        let name = format!("kid{}", i);
        assert!(s.add_kid(name, now).is_ok());
    }
    assert_eq!(s.add_kid(String::from("one more"), now), Err(RepoError::Capacity));
}

#[test]
fn granularity_round_trip() {
    let mut s = monthly_store();
    assert_eq!(s.update_granularity(String::from("WEEKLY")), Ok(()));
    assert_eq!(s.get_granularity(), Ok(String::from("WEEKLY")));
    assert_eq!(s.update_granularity(String::from("BIWEEKLY")), Err(RepoError::Validation));
    assert_eq!(s.get_granularity(), Ok(String::from("WEEKLY")));
}

#[test]
fn granularity_missing_row_is_not_found() {
    let s = Store::new();
    assert_eq!(s.get_granularity(), Err(RepoError::NotFound));
    let now = at(2024, 5, 10, 12, 0, 0);
    assert_eq!(s.get_kids(&now).unwrap_err(), RepoError::NotFound);
}

#[test]
fn maria_counts_reset_at_month_boundary() {
    // Kid "Maria" with no notes; granularity MONTHLY; three increments and
    // one decrement inside the month give count 2; after the month
    // boundary the count reverts to 0 with no reset action.
    let mut s = monthly_store();
    let maria = s.add_kid(String::from("Maria"), at(2024, 5, 1, 8, 0, 0)).unwrap();
    assert_eq!(s.increment_kid_count(maria.id, at(2024, 5, 10, 9, 0, 0)), Ok(()));
    assert_eq!(s.increment_kid_count(maria.id, at(2024, 5, 11, 9, 0, 0)), Ok(()));
    assert_eq!(s.increment_kid_count(maria.id, at(2024, 5, 12, 9, 0, 0)), Ok(()));
    assert_eq!(s.decrement_kid_count(maria.id, at(2024, 5, 13, 9, 0, 0)), Ok(()));

    let within = s.get_kids(&at(2024, 5, 20, 12, 0, 0)).unwrap();
    assert_eq!(within.kids.len(), 1);
    assert_eq!(within.kids[0].name, "Maria");
    assert_eq!(within.kids[0].count, 2);
    assert_eq!(within.kids[0].latest_note, Some(at(2024, 5, 13, 9, 0, 0)));
    assert_eq!(within.count_metadata.aggregation, CountAggregation::Monthly(5, 2024));

    let after = s.get_kids(&at(2024, 6, 3, 12, 0, 0)).unwrap();
    assert_eq!(after.kids.len(), 1);
    assert_eq!(after.kids[0].count, 0);
    assert_eq!(after.kids[0].latest_note, None);
    assert_eq!(after.count_metadata.aggregation, CountAggregation::Monthly(6, 2024));
}

#[test]
fn one_row_per_kid_even_without_notes() {
    let now = at(2024, 5, 10, 12, 0, 0);
    let mut s = monthly_store();
    let a = s.add_kid(String::from("Ada"), now).unwrap();
    let _b = s.add_kid(String::from("Bea"), now).unwrap();
    s.increment_kid_count(a.id, now).unwrap();
    let resp = s.get_kids(&at(2024, 5, 11, 12, 0, 0)).unwrap();
    assert_eq!(resp.kids.len(), 2);
    let ada = resp.kids.iter().find(|k| k.name == "Ada").unwrap();
    let bea = resp.kids.iter().find(|k| k.name == "Bea").unwrap();
    assert_eq!(ada.count, 1);
    assert_eq!(bea.count, 0);
    assert_eq!(bea.latest_note, None);
}

#[test]
fn get_kids_is_idempotent() {
    let now = at(2024, 5, 10, 12, 0, 0);
    let mut s = monthly_store();
    let a = s.add_kid(String::from("Ada"), now).unwrap();
    s.increment_kid_count(a.id, now).unwrap();
    s.decrement_kid_count(a.id, now).unwrap();
    let read_at = at(2024, 5, 20, 6, 30, 0);
    let first = s.get_kids(&read_at).unwrap();
    let second = s.get_kids(&read_at).unwrap();
    assert_eq!(first, second);
}

#[test]
fn notes_before_window_are_not_counted() {
    let mut s = monthly_store();
    let a = s.add_kid(String::from("Ada"), at(2024, 4, 1, 8, 0, 0)).unwrap();
    s.increment_kid_count(a.id, at(2024, 4, 30, 23, 59, 59)).unwrap();
    s.increment_kid_count(a.id, at(2024, 5, 1, 0, 0, 0)).unwrap();
    let resp = s.get_kids(&at(2024, 5, 15, 12, 0, 0)).unwrap();
    assert_eq!(resp.kids[0].count, 1);
    assert_eq!(resp.kids[0].latest_note, Some(at(2024, 5, 1, 0, 0, 0)));
}

#[test]
fn latest_note_is_the_most_recent_in_window() {
    let mut s = monthly_store();
    let a = s.add_kid(String::from("Ada"), at(2024, 5, 1, 8, 0, 0)).unwrap();
    s.increment_kid_count(a.id, at(2024, 5, 2, 9, 0, 0)).unwrap();
    s.increment_kid_count(a.id, at(2024, 5, 9, 7, 0, 0)).unwrap();
    s.decrement_kid_count(a.id, at(2024, 5, 5, 12, 0, 0)).unwrap();
    let resp = s.get_kids(&at(2024, 5, 15, 12, 0, 0)).unwrap();
    assert_eq!(resp.kids[0].count, 1);
    assert_eq!(resp.kids[0].latest_note, Some(at(2024, 5, 9, 7, 0, 0)));
}

#[test]
fn log_note_unknown_kid_is_a_storage_error() {
    let now = at(2024, 5, 10, 12, 0, 0);
    let mut s = monthly_store();
    assert_eq!(s.increment_kid_count(42, now), Err(RepoError::Storage));
    assert_eq!(s.decrement_kid_count(42, now), Err(RepoError::Storage));
    let a = s.add_kid(String::from("Ada"), now).unwrap();
    s.delete_kid(a.id).unwrap();
    assert_eq!(s.increment_kid_count(a.id, now), Err(RepoError::Storage));
}

#[test]
fn list_kids_sorts_by_name() {
    let now = at(2024, 5, 10, 12, 0, 0);
    let mut s = monthly_store();
    s.add_kid(String::from("Maria"), now).unwrap();
    s.add_kid(String::from("Ada"), now).unwrap();
    s.add_kid(String::from("Zoe"), now).unwrap();
    s.add_kid(String::from("Bea"), now).unwrap();
    let listed = s.list_kids();
    let names: Vec<&str> = listed.iter().map(|k| k.name.as_str()).collect();
    assert_eq!(names, vec!["Ada", "Bea", "Maria", "Zoe"]);
    assert_eq!(listed.len(), 4);
}

#[test]
fn rename_kid_updates_name() {
    let now = at(2024, 5, 10, 12, 0, 0);
    let mut s = monthly_store();
    let a = s.add_kid(String::from("Ada"), now).unwrap();
    assert_eq!(s.rename_kid(a.id, String::from("  Adele ")), Ok(()));
    let listed = s.list_kids();
    assert_eq!(listed[0].name, "Adele");
    assert_eq!(listed[0].id, a.id);
}

#[test]
fn rename_kid_validates_name() {
    let now = at(2024, 5, 10, 12, 0, 0);
    let mut s = monthly_store();
    let a = s.add_kid(String::from("Ada"), now).unwrap();
    assert_eq!(s.rename_kid(a.id, String::from("  ")), Err(RepoError::Validation));
    let long: String = std::iter::repeat('y').take(51).collect();
    assert_eq!(s.rename_kid(a.id, long), Err(RepoError::Validation));
    assert_eq!(s.list_kids()[0].name, "Ada");
}

#[test]
fn rename_missing_kid_is_a_no_op_success() {
    let mut s = monthly_store();
    assert_eq!(s.rename_kid(99, String::from("Nobody")), Ok(()));
    assert!(s.list_kids().is_empty());
}

#[test]
fn delete_kid_cascades_to_notes() {
    let now = at(2024, 5, 10, 12, 0, 0);
    let mut s = monthly_store();
    let a = s.add_kid(String::from("Ada"), now).unwrap();
    let b = s.add_kid(String::from("Bea"), now).unwrap();
    s.increment_kid_count(a.id, now).unwrap();
    s.increment_kid_count(b.id, now).unwrap();
    assert_eq!(s.delete_kid(a.id), Ok(()));
    let resp = s.get_kids(&at(2024, 5, 11, 12, 0, 0)).unwrap();
    assert_eq!(resp.kids.len(), 1);
    assert_eq!(resp.kids[0].name, "Bea");
    assert_eq!(resp.kids[0].count, 1);
}

#[test]
fn delete_missing_kid_succeeds() {
    let mut s = monthly_store();
    assert_eq!(s.delete_kid(7), Ok(()));
}

#[test]
fn deleted_id_is_not_reused() {
    let now = at(2024, 5, 10, 12, 0, 0);
    let mut s = monthly_store();
    let a = s.add_kid(String::from("Ada"), now).unwrap();
    s.delete_kid(a.id).unwrap();
    let b = s.add_kid(String::from("Bea"), now).unwrap();
    assert!(b.id > a.id);
}

#[test]
fn weekly_counts_reset_at_week_boundary() {
    let mut s = monthly_store();
    s.update_granularity(String::from("WEEKLY")).unwrap();
    let a = s.add_kid(String::from("Ada"), at(2024, 5, 1, 8, 0, 0)).unwrap();
    // 2024-05-15 (Wednesday) belongs to the week starting Monday 05-13.
    s.increment_kid_count(a.id, at(2024, 5, 15, 9, 0, 0)).unwrap();
    let same_week = s.get_kids(&at(2024, 5, 19, 23, 0, 0)).unwrap();
    assert_eq!(same_week.kids[0].count, 1);
    let next_week = s.get_kids(&at(2024, 5, 20, 1, 0, 0)).unwrap();
    assert_eq!(next_week.kids[0].count, 0);
}

#[test]
fn unrecognized_stored_granularity_reads_as_monthly() {
    let mut s = Store::new();
    s.provision_settings(String::from("FORTNIGHTLY"));
    let a = s.add_kid(String::from("Ada"), at(2024, 5, 1, 8, 0, 0)).unwrap();
    s.increment_kid_count(a.id, at(2024, 5, 2, 9, 0, 0)).unwrap();
    let resp = s.get_kids(&at(2024, 5, 15, 12, 0, 0)).unwrap();
    assert_eq!(resp.count_metadata.aggregation, CountAggregation::Monthly(5, 2024));
    assert_eq!(resp.kids[0].count, 1);
    // The raw stored value is still readable.
    assert_eq!(s.get_granularity(), Ok(String::from("FORTNIGHTLY")));
}

#[test]
fn fetch_kid_summaries_uses_the_given_window() {
    let now = at(2024, 5, 10, 12, 0, 0);
    let mut s = monthly_store();
    let a = s.add_kid(String::from("Ada"), now).unwrap();
    s.increment_kid_count(a.id, at(2024, 5, 10, 13, 0, 0)).unwrap();
    s.increment_kid_count(a.id, at(2024, 5, 12, 13, 0, 0)).unwrap();
    let rows = s.fetch_kid_summaries(&at(2024, 5, 11, 0, 0, 0));
    assert_eq!(rows.len(), 1);
    assert_eq!(rows[0].count, 1);
    let rows = s.fetch_kid_summaries(&at(2024, 5, 1, 0, 0, 0));
    assert_eq!(rows[0].count, 2);
    let rows = s.fetch_kid_summaries(&at(2024, 6, 1, 0, 0, 0));
    assert_eq!(rows[0].count, 0);
    assert_eq!(rows[0].latest_note, None);
}

#[test]
fn list_kids_keeps_duplicate_names() {
    let now = at(2024, 5, 10, 12, 0, 0);
    let mut s = monthly_store();
    s.add_kid(String::from("Ada"), now).unwrap();
    s.add_kid(String::from("Ada"), now).unwrap();
    s.add_kid(String::from("Abe"), now).unwrap();
    let listed = s.list_kids();
    let names: Vec<&str> = listed.iter().map(|k| k.name.as_str()).collect();
    assert_eq!(names, vec!["Abe", "Ada", "Ada"]);
    let mut ids: Vec<u32> = listed.iter().map(|k| k.id).collect();
    ids.sort();
    assert_eq!(ids, vec![1, 2, 3]);
}

#[test]
fn error_messages_are_stable() {
    assert_eq!(RepoError::Validation.message(), "Invalid input");
    assert_eq!(RepoError::Capacity.message(), "Maximum of 10 kids allowed");
    assert_eq!(RepoError::NotFound.message(), "No settings found");
    assert_eq!(RepoError::Storage.message(), "Storage error");
}
