use zatsu::commit_command::file_entry;
use zatsu::commons::revision_directory_path;
use zatsu::commons::revision_file_path;
use zatsu::entry::Entry;
use zatsu::file_path_producer::FilePathProducer;
use zatsu::get_command::directory_root_name;
use zatsu::get_command::entry_output_location;
use zatsu::get_command::is_under_directory;
use zatsu::get_command::locate;
use zatsu::get_command::output_file_name;
use zatsu::get_command::LocateOutcome;
use zatsu::strutil::i32_string;
use zatsu::strutil::parse_i32;
use zatsu::strutil::split_string;

#[test]
fn revision_paths_are_sharded_by_low_byte() {
    assert_eq!(".zatsu/revisions/01", revision_directory_path(1));
    assert_eq!(".zatsu/revisions/01/1.json", revision_file_path(1));
    assert_eq!(".zatsu/revisions/ff/511.json", revision_file_path(511));
    assert_eq!(".zatsu/revisions/00/256.json", revision_file_path(256));
}

#[test]
fn decimal_rendering_matches_formatting() {
    assert_eq!("0", i32_string(0));
    assert_eq!("42", i32_string(42));
    assert_eq!("-123", i32_string(-123));
    assert_eq!("2147483647", i32_string(i32::MAX));
    assert_eq!("-2147483648", i32_string(i32::MIN));
}

#[test]
fn integer_parsing_matches_the_standard_parser() {
    assert_eq!(Some(12), parse_i32("12"));
    assert_eq!(Some(12), parse_i32("+12"));
    assert_eq!(Some(-12), parse_i32("-12"));
    assert_eq!(Some(1), parse_i32("0000000001"));
    assert_eq!(Some(i32::MAX), parse_i32("2147483647"));
    assert_eq!(None, parse_i32("2147483648"));
    assert_eq!(Some(i32::MIN), parse_i32("-2147483648"));
    assert_eq!(None, parse_i32("-2147483649"));
    assert_eq!(None, parse_i32(""));
    assert_eq!(None, parse_i32("1x"));
    assert_eq!(None, parse_i32("x1"));
}

#[test]
fn splitting_keeps_every_part() {
    assert_eq!(vec!["a", "b", "c"], split_string("a/b/c", '/'));
    assert_eq!(vec![""], split_string("", '/'));
    assert_eq!(vec!["", "a", ""], split_string("/a/", '/'));
}

#[test]
fn locate_finds_files_directories_and_nothing() {
    let entries = vec![
        file_entry("a.txt".to_string(), "h1".to_string()),
        file_entry("dir/b.txt".to_string(), "h2".to_string()),
    ];
    match locate(&entries, &"a.txt".to_string()) {
        LocateOutcome::FoundFile { hash } => assert_eq!("h1", hash),
        _ => panic!("expected a file"),
    }
    assert!(matches!(locate(&entries, &"dir".to_string()), LocateOutcome::FoundDirectory));
    assert!(matches!(locate(&entries, &"c.txt".to_string()), LocateOutcome::NotFound));
    assert!(matches!(locate(&entries, &"di".to_string()), LocateOutcome::NotFound));
}

#[test]
fn later_entries_override_earlier_ones_in_locate() {
    let entries = vec![
        file_entry("a.txt".to_string(), "h1".to_string()),
        file_entry("a.txt".to_string(), "h2".to_string()),
    ];
    match locate(&entries, &"a.txt".to_string()) {
        LocateOutcome::FoundFile { hash } => assert_eq!("h2", hash),
        _ => panic!("expected a file"),
    }
}

#[test]
fn directory_matching_requires_a_path_segment_boundary() {
    assert!(is_under_directory(&"dir/file".to_string(), &"dir".to_string()));
    assert!(!is_under_directory(&"other-dir/file".to_string(), &"dir".to_string()));
    assert!(!is_under_directory(&"dir".to_string(), &"dir".to_string()));
}

#[test]
fn extracted_files_are_named_with_the_revision() {
    assert_eq!("a-r1.txt", output_file_name(&"a.txt".to_string(), 1));
    assert_eq!("b-r2.tar", output_file_name(&"dir/b.tar.gz".to_string(), 2));
    assert_eq!("out.dat", output_file_name(&"noextension".to_string(), 3));
}

#[test]
fn extracted_directories_are_rebuilt_under_a_revision_root() {
    assert_eq!("dir-r1", directory_root_name(&"dir".to_string(), 1));
    assert_eq!("sub-r2", directory_root_name(&"dir/sub".to_string(), 2));

    let location = entry_output_location(&"dir/sub/f.txt".to_string(), &"dir-r1".to_string());
    assert_eq!("dir-r1/sub", location.directory);
    assert_eq!("dir-r1/sub/f.txt", location.file_path);

    let location = entry_output_location(&"dir/f.txt".to_string(), &"dir-r1".to_string());
    assert_eq!("dir-r1", location.directory);
    assert_eq!("dir-r1/f.txt", location.file_path);
}

#[test]
fn the_walk_skips_control_directories() {
    assert!(!FilePathProducer::should_scan(".zatsu"));
    assert!(!FilePathProducer::should_scan(".git"));
    assert!(!FilePathProducer::should_scan(".jj"));
    assert!(FilePathProducer::should_scan("src"));
}

#[test]
fn discovered_files_lose_the_root_prefix() {
    let mut producer = FilePathProducer::new(".".to_string());
    producer.record_discovered("./a.txt".to_string(), true);
    producer.record_discovered("./dir".to_string(), false);

    assert_eq!(Some("a.txt".to_string()), producer.take_pending_file());
    assert_eq!(None, producer.take_pending_file());
    assert_eq!(Some("./dir".to_string()), producer.take_pending_directory());
    assert_eq!(Some(".".to_string()), producer.take_pending_directory());
    assert_eq!(None, producer.take_pending_directory());
}

#[test]
fn entries_carry_the_default_permission() {
    let entry: Entry = file_entry("a.txt".to_string(), "h".to_string());
    assert_eq!(0o644, entry.permission);
    let copy = entry.duplicate();
    assert_eq!(entry.path, copy.path);
    assert_eq!(entry.hash, copy.hash);
    assert_eq!(entry.permission, copy.permission);
}
