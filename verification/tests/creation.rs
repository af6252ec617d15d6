use zatsu::commit_command::CommitCommand;
use zatsu::error::ZatsuError;
use zatsu::file_path_producer::FilePathProducer;
use zatsu::forget_command::ForgetCommand;
use zatsu::get_command::GetCommand;
use zatsu::init_command::InitCommand;
use zatsu::log_command::LogCommand;
use zatsu::upgrade_command::UpgradeCommand;

#[test]
fn commit_command_is_creatable() {
    let _command = CommitCommand::new();
}

#[test]
fn error_is_creatable() {
    let error = ZatsuError::new(123);
    assert_eq!(123, error.code);
    assert_eq!("disabled backtrace".to_string(), error.backtrace);
    assert_eq!("".to_string(), error.details);

    let error = ZatsuError::with_details(456, "details".to_string());
    assert_eq!(456, error.code);
    assert_eq!("disabled backtrace".to_string(), error.backtrace);
    assert_eq!("details".to_string(), error.details);
}

#[test]
fn file_path_producer_is_creatable() {
    let producer = FilePathProducer::new(".".to_string());
    assert_eq!(0, producer.file_paths.len());
    assert_eq!(1, producer.directory_paths.len());
    assert_eq!(2, producer.prefix_length);
}

#[test]
fn forget_command_is_creatable() {
    let _command = ForgetCommand::new(1);
}

#[test]
fn get_command_is_creatable() {
    let _command = GetCommand::new(1, "a.txt");
}

#[test]
fn init_command_is_creatable() {
    let _command = InitCommand::new(1);
    let _command = InitCommand::new(2);
}

#[test]
fn upgrade_command_is_creatable() {
    let _command = UpgradeCommand::new();
}

#[test]
fn log_command_is_creatable() {
    let _command = LogCommand::new();
}

#[test]
fn error_message_renders_one_line() {
    let error = ZatsuError::with_details(1, "details".to_string());
    assert_eq!(
        "Zatsu error. code: 1, backtrace: disabled backtrace, details: details".to_string(),
        error.message()
    );
}
