use zatsu::commit_command::file_entry;
use zatsu::entry::Entry;
use zatsu::log_command::divided_entries;
use zatsu::log_command::find_hash;
use zatsu::log_command::revision_log_lines;
use zatsu::log_command::update_changes;

fn entry(path: &str, hash: &str) -> Entry {
    file_entry(path.to_string(), hash.to_string())
}

#[test]
fn diff_reports_modified_and_added_exactly() {
    let older = vec![entry("a.txt", "h1"), entry("b.txt", "h2")];
    let newer = vec![entry("a.txt", "h1"), entry("b.txt", "h3"), entry("c.txt", "h4")];
    let mut changes: Vec<String> = Vec::new();
    update_changes(&mut changes, &newer, &older);
    assert_eq!(vec!["M b.txt".to_string(), "A c.txt".to_string()], changes);
}

#[test]
fn diff_against_empty_predecessor_marks_everything_added() {
    let older: Vec<Entry> = Vec::new();
    let newer = vec![entry("a.txt", "h1"), entry("b.txt", "h2")];
    let mut changes: Vec<String> = Vec::new();
    update_changes(&mut changes, &newer, &older);
    assert_eq!(vec!["A a.txt".to_string(), "A b.txt".to_string()], changes);
}

#[test]
fn diff_of_a_revision_against_itself_is_empty() {
    let entries = vec![entry("a.txt", "h1"), entry("b.txt", "h2")];
    let mut changes: Vec<String> = Vec::new();
    update_changes(&mut changes, &entries, &entries);
    assert!(changes.is_empty());
}

#[test]
fn deleted_paths_are_reported_after_the_rest() {
    let older = vec![entry("gone.txt", "h1"), entry("kept.txt", "h2")];
    let newer = vec![entry("kept.txt", "h2"), entry("new.txt", "h3")];
    let mut changes: Vec<String> = Vec::new();
    update_changes(&mut changes, &newer, &older);
    assert_eq!(vec!["A new.txt".to_string(), "D gone.txt".to_string()], changes);
}

#[test]
fn find_hash_returns_the_first_match() {
    let entries = vec![entry("a.txt", "h1"), entry("b.txt", "h2"), entry("a.txt", "h3")];
    assert_eq!(Some("h1".to_string()), find_hash(&entries, &"a.txt".to_string()));
    assert_eq!(Some("h2".to_string()), find_hash(&entries, &"b.txt".to_string()));
    assert_eq!(None, find_hash(&entries, &"c.txt".to_string()));
}

#[test]
fn divided_entries_buckets_by_first_character() {
    let entries = vec![entry("a1.txt", "h1"), entry("b.txt", "h2"), entry("a2.txt", "h3")];
    let buckets = divided_entries(&entries);
    assert_eq!(2, buckets.len());
    for bucket in &buckets {
        if bucket.key == 'a' {
            assert_eq!(2, bucket.entries.len());
            assert_eq!("a1.txt", bucket.entries[0].path);
            assert_eq!("a2.txt", bucket.entries[1].path);
        } else {
            assert_eq!('b', bucket.key);
            assert_eq!(1, bucket.entries.len());
            assert_eq!("b.txt", bucket.entries[0].path);
        }
    }
}

#[test]
fn log_shows_one_modification_between_two_commits() {
    let first = vec![entry("a.txt", "h1")];
    let second = vec![entry("a.txt", "h2")];

    let newest_block = revision_log_lines(2, 0, &second, &first);
    assert_eq!(
        vec!["Revision 2, commited at 1970/01/01 00:00".to_string(), "M a.txt".to_string()],
        newest_block
    );

    let empty: Vec<Entry> = Vec::new();
    let oldest_block = revision_log_lines(1, 0, &first, &empty);
    assert_eq!(
        vec!["Revision 1, commited at 1970/01/01 00:00".to_string(), "A a.txt".to_string()],
        oldest_block
    );
}
