use todo_cli::display::numbered_line;
use todo_cli::entry::{Entry, EntryStatus, StyleTag};
use todo_cli::index::{locate, parse_number, IndexIssue};
use todo_cli::list::TodoList;
use todo_cli::remove::RemoveMultiple;
use todo_cli::store::{StoredEntry, UnknownStatus};

fn list_of(names: &[&str]) -> TodoList {
    let mut list = TodoList::empty();
    for n in names {
        list.entries.push(Entry::new(n.to_string()));
    }
    list
}

fn names(list: &TodoList) -> Vec<String> {
    list.entries.iter().map(|e| e.name.clone()).collect()
}

fn args(v: &[&str]) -> Vec<String> {
    v.iter().map(|s| s.to_string()).collect()
}

#[test]
fn test_remove_multiple() {
    let mut list = TodoList::empty();

    list.entries.push(Entry::new("hello".to_string()));
    list.entries.push(Entry::new("world".to_string()));
    list.entries.push(Entry::new("one".to_string()));
    list.entries.push(Entry::new("two".to_string()));

    list.remove_multiple(vec![1, 2]);

    assert!(list.entries.len() == 2);

    let two_entry = list.entries.get(1);
    assert!(two_entry.is_some());
    assert_eq!(two_entry.unwrap().name, "two".to_string())
}

#[test]
fn remove_multiple_order_of_indices_does_not_matter() {
    let mut a = list_of(&["hello", "world", "one", "two"]);
    let mut b = list_of(&["hello", "world", "one", "two"]);
    a.remove_multiple(vec![2, 1]);
    b.remove_multiple(vec![1, 2]);
    assert_eq!(names(&a), vec!["hello", "two"]);
    assert_eq!(names(&a), names(&b));
}

#[test]
fn remove_multiple_ignores_repeats_and_indices_past_the_end() {
    let mut list = list_of(&["a", "b", "c"]);
    list.remove_multiple(vec![0, 0, 7, 2]);
    assert_eq!(names(&list), vec!["b"]);
}

#[test]
fn remove_multiple_on_a_plain_vec() {
    let mut v = vec![10, 20, 30, 40, 50];
    v.remove_multiple(vec![4, 0, 2]);
    assert_eq!(v, vec![20, 40]);
}

#[test]
fn new_entry_is_incomplete_and_set_status_keeps_name() {
    let mut e = Entry::new("write".to_string());
    assert_eq!(e.status, EntryStatus::Incomplete);
    e.set_status(&EntryStatus::InProgress);
    assert_eq!(e.status, EntryStatus::InProgress);
    assert_eq!(e.name, "write");
}

#[test]
fn entries_are_equal_only_on_name_and_status() {
    let a = Entry::new("x".to_string());
    let mut b = Entry::new("x".to_string());
    assert!(a == b);
    b.set_status(&EntryStatus::Completed);
    assert!(a != b);
    assert!(a != Entry::new("y".to_string()));
}

#[test]
fn add_skips_an_incomplete_duplicate() {
    let mut list = TodoList::empty();
    assert!(list.add("milk".to_string()));
    assert!(!list.add("milk".to_string()));
    assert_eq!(list.len(), 1);
}

#[test]
fn add_appends_when_the_name_has_another_status() {
    let mut list = list_of(&["milk"]);
    list.entries[0].set_status(&EntryStatus::Completed);
    assert!(list.add("milk".to_string()));
    assert_eq!(list.len(), 2);
    assert_eq!(list.entries[1].status, EntryStatus::Incomplete);
}

#[test]
fn add_all_reports_skipped_names() {
    let mut list = list_of(&["a"]);
    let skipped = list.add_all(&args(&["a", "b", "b", "c"]));
    assert_eq!(skipped, vec!["a", "b"]);
    assert_eq!(names(&list), vec!["a", "b", "c"]);
}

#[test]
fn set_skips_bad_indices_and_applies_the_rest() {
    let mut list = list_of(&["a", "b", "c"]);
    let issues = list.set_statuses(&EntryStatus::Completed, &args(&["1", "99", "abc"]));
    assert_eq!(list.entries[0].status, EntryStatus::Completed);
    assert_eq!(list.entries[1].status, EntryStatus::Incomplete);
    assert_eq!(list.entries[2].status, EntryStatus::Incomplete);
    assert_eq!(
        issues,
        vec![IndexIssue::OutOfRange { arg: 1, number: 99 }, IndexIssue::NotANumber { arg: 2 }]
    );
}

#[test]
fn set_treats_zero_as_out_of_range() {
    let mut list = list_of(&["a"]);
    let issues = list.set_statuses(&EntryStatus::Scrapped, &args(&["0", "+1"]));
    assert_eq!(issues, vec![IndexIssue::OutOfRange { arg: 0, number: 0 }]);
    assert_eq!(list.entries[0].status, EntryStatus::Scrapped);
}

#[test]
fn remove_numbered_counts_from_one_and_skips_bad_arguments() {
    let mut list = list_of(&["hello", "world", "one", "two"]);
    let issues = list.remove_numbered(&args(&["3", "x", "2", "5"]));
    assert_eq!(names(&list), vec!["hello", "two"]);
    assert_eq!(
        issues,
        vec![IndexIssue::NotANumber { arg: 1 }, IndexIssue::OutOfRange { arg: 3, number: 5 }]
    );
}

#[test]
fn clear_with_status_keeps_the_others_in_order() {
    let mut list = list_of(&["a", "b", "c", "d"]);
    list.entries[1].set_status(&EntryStatus::Scrapped);
    list.entries[2].set_status(&EntryStatus::Completed);
    list.entries[3].set_status(&EntryStatus::Scrapped);
    list.clear(Some(EntryStatus::Scrapped));
    assert_eq!(names(&list), vec!["a", "c"]);
    assert_eq!(list.entries[1].status, EntryStatus::Completed);
}

#[test]
fn clear_without_status_empties_the_list() {
    let mut list = list_of(&["a", "b"]);
    list.entries[0].set_status(&EntryStatus::InProgress);
    list.clear(None);
    assert_eq!(list.len(), 0);
}

#[test]
fn display_of_an_empty_list_is_one_notice() {
    let list = TodoList::empty();
    assert_eq!(list.display_lines(), vec!["Todo list is empty."]);
}

#[test]
fn display_numbers_entries_from_one() {
    let list = list_of(&["milk", "eggs"]);
    assert_eq!(list.display_lines(), vec!["1. milk", "2. eggs"]);
}

#[test]
fn numbered_line_writes_the_number_in_decimal() {
    assert_eq!(numbered_line(9, "x"), "10. x");
    assert_eq!(numbered_line(122, "abc"), "123. abc");
}

#[test]
fn parse_number_accepts_plain_decimal_only() {
    assert_eq!(parse_number("42"), Some(42));
    assert_eq!(parse_number("+7"), Some(7));
    assert_eq!(parse_number("007"), Some(7));
    assert_eq!(parse_number(""), None);
    assert_eq!(parse_number("+"), None);
    assert_eq!(parse_number("-1"), None);
    assert_eq!(parse_number("1a"), None);
    assert_eq!(parse_number(" 1"), None);
    assert_eq!(parse_number("18446744073709551615"), Some(usize::MAX));
    assert_eq!(parse_number("18446744073709551616"), None);
}

#[test]
fn locate_maps_numbers_to_positions() {
    assert_eq!(locate("3", 0, 3), Ok(2));
    assert_eq!(locate("4", 1, 3), Err(IndexIssue::OutOfRange { arg: 1, number: 4 }));
    assert_eq!(locate("z", 2, 3), Err(IndexIssue::NotANumber { arg: 2 }));
}

#[test]
fn status_tags_round_trip() {
    for s in [
        EntryStatus::Incomplete,
        EntryStatus::InProgress,
        EntryStatus::Scrapped,
        EntryStatus::Completed,
    ] {
        assert_eq!(EntryStatus::from_tag(s.tag()), Some(s));
    }
    assert_eq!(EntryStatus::InProgress.tag(), "InProgress");
    assert_eq!(EntryStatus::from_tag("completed"), None);
}

#[test]
fn styles_follow_status() {
    assert_eq!(EntryStatus::Incomplete.style(), StyleTag::Plain);
    assert_eq!(EntryStatus::InProgress.style(), StyleTag::Attention);
    assert_eq!(EntryStatus::Scrapped.style(), StyleTag::StruckDim);
    assert_eq!(EntryStatus::Completed.style(), StyleTag::Done);
}

#[test]
fn stored_records_round_trip() {
    let mut list = list_of(&["a", "b", "c"]);
    list.entries[1].set_status(&EntryStatus::Scrapped);
    list.entries[2].set_status(&EntryStatus::Completed);
    let recs = list.to_stored();
    assert_eq!(recs[1].status, "Scrapped");
    let back = TodoList::from_stored(&recs).unwrap();
    assert_eq!(back.entries, list.entries);
}

#[test]
fn stored_records_with_an_unknown_status_are_refused() {
    let recs = vec![
        StoredEntry { name: "a".to_string(), status: "Completed".to_string() },
        StoredEntry { name: "b".to_string(), status: "Later".to_string() },
        StoredEntry { name: "c".to_string(), status: "Nope".to_string() },
    ];
    assert_eq!(TodoList::from_stored(&recs).err(), Some(UnknownStatus { index: 1 }));
}
