pub mod command;
pub mod commit_command;
pub mod commons;
pub mod compress;
pub mod digest;
pub mod entry;
pub mod error;
pub mod file_path_producer;
pub mod forget_command;
pub mod get_command;
pub mod init_command;
pub mod log_command;
pub mod repository;
pub mod revision;
pub mod store;
pub mod strutil;
pub mod upgrade_command;
