use bpt::cache::{evicted_names, plan_eviction};
use bpt::cache::{evictable_entries, file_age, is_evictable};

const DAY: u64 = 24 * 60 * 60;

#[test]
fn test_evict_removes_old_entries() {
    let entries = vec![
        (".lock".to_owned(), 1000 * DAY),
        ("old-entry".to_owned(), 91 * DAY),
        ("new-entry".to_owned(), DAY),
    ];
    let flags = evictable_entries(&entries, Some(90));
    assert_eq!(flags, vec![false, true, false]);
    assert_eq!(flags.iter().filter(|f| **f).count(), 1);
}

#[test]
fn test_evict_none_is_noop() {
    let entries = vec![("should-remain".to_owned(), 365 * DAY)];
    assert_eq!(evictable_entries(&entries, None), vec![false]);
}

#[test]
fn test_evict_boundary() {
    let entries = vec![
        ("boundary-entry".to_owned(), 89 * DAY + 23 * 60 * 60),
        ("past-entry".to_owned(), 91 * DAY),
    ];
    assert_eq!(evictable_entries(&entries, Some(90)), vec![false, true]);
    assert!(!is_evictable("exact", 90 * DAY, Some(90)));
    assert!(is_evictable("exact", 90 * DAY + 1, Some(90)));
}

#[test]
fn test_evict_empty_dir() {
    let entries = vec![(".lock".to_owned(), 0)];
    assert_eq!(evictable_entries(&entries, Some(90)), vec![false]);
}

#[test]
fn future_modification_times_count_as_new() {
    assert_eq!(file_age(100, 40), 60);
    assert_eq!(file_age(100, 400), 0);
    assert!(is_evictable("x", u64::MAX, Some(u32::MAX)));
    assert!(!is_evictable("x", 0, Some(0)));
    assert!(is_evictable("x", 1, Some(0)));
}

#[test]
fn eviction_removes_exactly_the_old_entries() {
    let entries = vec![
        ("old".to_owned(), 3 * 86400 + 1),
        (".lock".to_owned(), 10 * 86400),
        ("edge".to_owned(), 3 * 86400),
        ("older".to_owned(), 30 * 86400),
    ];
    assert_eq!(evicted_names(&entries, Some(3)), vec!["old".to_owned(), "older".to_owned()]);
    assert!(evicted_names(&entries, None).is_empty());
    assert_eq!(evicted_names(&entries, Some(0)).len(), 3);
}

#[test]
fn evicting_and_counting_report_the_same_number() {
    let entries = vec![
        ("old".to_owned(), 3 * 86400 + 1),
        (".lock".to_owned(), 10 * 86400),
        ("edge".to_owned(), 3 * 86400),
        ("older".to_owned(), 30 * 86400),
    ];
    let evict = plan_eviction(&entries, Some(3), true);
    let count = plan_eviction(&entries, Some(3), false);
    assert_eq!(evict.count, 2);
    assert_eq!(count.count, 2);
    assert_eq!(evict.removed, vec!["old".to_owned(), "older".to_owned()]);
    assert!(count.removed.is_empty());
    let none = plan_eviction(&entries, None, true);
    assert_eq!(none.count, 0);
    assert!(none.removed.is_empty());
}
