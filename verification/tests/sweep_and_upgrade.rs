use zatsu::commit_command::file_entry;
use zatsu::error::CODE_GENERAL;
use zatsu::forget_command::is_referenced;
use zatsu::forget_command::revision_file_keep;
use zatsu::forget_command::unreferenced_objects;
use zatsu::revision::Revision;
use zatsu::upgrade_command::check_upgradable;
use zatsu::upgrade_command::mapping_file_path;
use zatsu::upgrade_command::migrated_object;
use zatsu::upgrade_command::upgraded_entry;

const PAYLOAD_SHA256: &str = "dffd6021bb2bd5b0af676290809ec3a53191dd81c7f70a4b28688a362182986f";

fn revision_with(paths_and_hashes: &[(&str, &str)]) -> Revision {
    let mut entries = Vec::new();
    for (path, hash) in paths_and_hashes {
        entries.push(file_entry(path.to_string(), hash.to_string()));
    }
    Revision::with_entries(0, entries)
}

#[test]
fn revision_files_survive_exactly_when_indexed() {
    let numbers = vec![2, 3];
    assert!(revision_file_keep("2", &numbers));
    assert!(revision_file_keep("3", &numbers));
    assert!(!revision_file_keep("1", &numbers));
    assert!(revision_file_keep("not-a-number", &numbers));
}

#[test]
fn forgetting_the_older_commit_sweeps_its_exclusive_object() {
    let shared = "aa00";
    let exclusive = "bb11";
    let older = revision_with(&[("a.txt", exclusive), ("b.txt", shared)]);
    let newer = revision_with(&[("a.txt", "cc22"), ("b.txt", shared)]);

    let retained = vec![newer];
    let present = vec![shared.to_string(), exclusive.to_string(), "cc22".to_string()];
    let deletions = unreferenced_objects(&present, &retained);
    assert_eq!(vec![exclusive.to_string()], deletions);

    assert!(is_referenced(&retained, &shared.to_string()));
    assert!(!is_referenced(&retained, &exclusive.to_string()));
    assert!(is_referenced(&vec![older], &exclusive.to_string()));
}

#[test]
fn gc_on_the_store_keeps_exactly_the_referenced_objects() {
    let shared = b"shared content".to_vec();
    let exclusive = b"first commit only".to_vec();
    let mut store = zatsu::store::ObjectStore::new(1);
    let shared_hash = store.put_object(&shared);
    let exclusive_hash = store.put_object(&exclusive);

    let retained = vec![revision_with(&[("b.txt", &shared_hash)])];
    let marked = zatsu::forget_command::referenced_hashes(&retained);
    assert_eq!(vec![shared_hash.clone()], marked);

    let removed = store.remove_unreferenced(&marked);
    assert_eq!(1, removed);
    assert_eq!(shared, store.get(&shared_hash).unwrap());
    assert!(store.get(&exclusive_hash).is_err());
}

#[test]
fn upgrade_is_admitted_only_from_version_one() {
    assert!(check_upgradable(1).is_ok());
    let error = check_upgradable(2).unwrap_err();
    assert_eq!(CODE_GENERAL, error.code);
}

#[test]
fn migration_re_addresses_an_object_without_changing_its_content() {
    let compressed: Vec<u8> = vec![
        120, 156, 243, 72, 205, 201, 201, 215, 81, 8, 207, 47, 202, 73, 81, 4, 0, 31, 158, 4, 106,
    ];
    let migrated = migrated_object(&compressed).unwrap();
    assert_eq!(b"Hello, World!".to_vec(), migrated.content);
    assert_eq!(PAYLOAD_SHA256, migrated.new_hash);
}

#[test]
fn migration_rejects_corrupt_objects() {
    let garbage: Vec<u8> = vec![9, 9, 9];
    assert!(migrated_object(&garbage).is_err());
}

#[test]
fn mapping_files_sit_beside_the_old_object() {
    let hash = "0a0a9f2a6772942557ab5355d76af442f8f65e01".to_string();
    assert_eq!(
        ".zatsu/objects-v1/0a/0a0a9f2a6772942557ab5355d76af442f8f65e01.new",
        mapping_file_path(&hash)
    );
}

#[test]
fn migrating_a_store_preserves_every_content_under_its_new_address() {
    let payload_a = b"Hello, World!".to_vec();
    let payload_b = b"second object".to_vec();
    let mut old_store = zatsu::store::ObjectStore::new(1);
    let old_a = old_store.put_object(&payload_a);
    let old_b = old_store.put_object(&payload_b);

    let (new_store, mapping) = zatsu::upgrade_command::migrate_store(&old_store);
    assert_eq!(2, new_store.version);
    assert_eq!(2, mapping.len());
    assert_eq!(old_a, mapping[0].old_hash);
    assert_eq!(old_b, mapping[1].old_hash);
    assert_eq!(PAYLOAD_SHA256, mapping[0].new_hash);
    assert_eq!(payload_a, new_store.get(&mapping[0].new_hash).unwrap());
    assert_eq!(payload_b, new_store.get(&mapping[1].new_hash).unwrap());
}

#[test]
fn upgraded_entries_keep_path_and_permission() {
    let old = file_entry("a.txt".to_string(), "oldhash".to_string());
    let new = upgraded_entry(&old, "newhash".to_string());
    assert_eq!("a.txt", new.path);
    assert_eq!("newhash", new.hash);
    assert_eq!(old.permission, new.permission);
}
