use zatsu::commit_command::record_commit;
use zatsu::forget_command::apply_forget;
use zatsu::repository::factory;
use zatsu::repository::Repository;
use zatsu::repository::RepositoryBase;

#[test]
fn repository_is_gettable_latest_revision() {
    let repository = factory::with_arguments(&vec![1, 2, 3], 1);
    assert_eq!(3, repository.latest_revision());

    let repository = factory::with_arguments(&vec![1, 2, 3], 2);
    assert_eq!(3, repository.latest_revision());
}

#[test]
fn repository_is_convertable_to_repository_v1() {
    let repository = factory::with_arguments(&vec![1, 2, 3], 1);
    let repository_v1 = repository.to_serializable_v1();
    assert_eq!(repository.revision_numbers(), repository_v1.revision_numbers);
}

#[test]
fn repository_is_convertable_from_repository_v1() {
    let repository = factory::with_arguments(&vec![1, 2, 3], 1);
    let repository_v1 = repository.to_serializable_v1();
    let repository = RepositoryBase::from_serializable_v1(&repository_v1);
    assert_eq!(repository_v1.revision_numbers, repository.revision_numbers);
}

#[test]
fn empty_repository_has_latest_zero() {
    let repository = factory::new(1);
    assert_eq!(0, repository.latest_revision());
    assert_eq!(1, repository.version);
}

#[test]
fn version_marker_text_is_parsed_with_default() {
    assert_eq!(2, factory::version_from_text("2\n"));
    assert_eq!(1, factory::version_from_text("1"));
    assert_eq!(1, factory::version_from_text("not a number"));
    assert_eq!(1, factory::version_from_text(""));
    assert_eq!(7, factory::version_from_text("\n7\n"));
}

#[test]
fn commits_number_consecutively_and_forget_keeps_the_newest() {
    let mut repository = factory::new(1);
    assert_eq!(1, record_commit(&mut repository));
    assert_eq!(2, record_commit(&mut repository));
    assert_eq!(vec![1, 2], repository.revision_numbers());

    let changed = apply_forget(&mut repository, 1);
    assert!(changed);
    assert_eq!(vec![2], repository.revision_numbers());
    assert_eq!(2, repository.latest_revision());

    assert_eq!(3, record_commit(&mut repository));
    assert_eq!(vec![2, 3], repository.revision_numbers());

    let changed = apply_forget(&mut repository, 5);
    assert!(!changed);
    assert_eq!(vec![2, 3], repository.revision_numbers());
}
