//! The error type shared by every component of the snapshot store.
//!
//! Errors form a flat enumeration of integer codes; an error value carries
//! its code, a captured backtrace rendering, and optional free-text details.

use vstd::prelude::*;

verus! {

pub const CODE_GENERAL: i32 = 0;
pub const CODE_READING_META_DATA_FAILED: i32 = 1;
pub const CODE_READING_DIRECTORY_FAILED: i32 = 2;
pub const CODE_CREATING_REPOSITORY_FAILED: i32 = 3;
pub const CODE_LOADING_REPOSITORY_FAILED: i32 = 4;
pub const CODE_REVISION_NOT_FOUND: i32 = 5;
pub const CODE_LOADING_REVISION_FAILED: i32 = 6;
pub const CODE_FILE_NOT_FOUND: i32 = 7;
pub const CODE_LOADING_FILE_FAILED: i32 = 8;
pub const CODE_SAVING_FILE_FAILED: i32 = 9;
pub const CODE_PRODUCING_FINISHED: i32 = 10;
pub const CODE_CREATING_DIRECTORY_FAILED: i32 = 11;
pub const CODE_DESERIALIZATION_FAILED: i32 = 12;
pub const CODE_SERIALIZATION_FAILED: i32 = 13;
pub const CODE_REMOVING_FILE_FAILED: i32 = 14;
pub const CODE_REMOVING_DIRECTORY_FAILED: i32 = 15;

#[derive(Debug)]
pub struct ZatsuError {
    pub code: i32,
    pub backtrace: String,
    pub details: String,
}

/// Relies on std::backtrace::Backtrace::capture: renders the backtrace of the
/// calling thread, or a placeholder text when capturing is disabled.
#[verifier::external_body]
fn captured_backtrace() -> String {
    format!("{}", std::backtrace::Backtrace::capture())
}

impl ZatsuError {
    pub fn new(code: i32) -> (r: ZatsuError)
        ensures
            r.code == code,
            r.details@ == Seq::<char>::empty(),
    {
        ZatsuError { code, backtrace: captured_backtrace(), details: String::new() }
    }

    pub fn with_details(code: i32, details: String) -> (r: ZatsuError)
        ensures
            r.code == code,
            r.details == details,
    {
        ZatsuError { code, backtrace: captured_backtrace(), details }
    }

    /// The error rendered as one line of text.
    pub fn message(&self) -> (r: String)
        ensures
            r@ == "Zatsu error. code: "@ + crate::strutil::int_text(self.code as int)
                + ", backtrace: "@ + self.backtrace@ + ", details: "@ + self.details@,
    {
        let mut r = String::from_str("Zatsu error. code: ");
        let code_text = crate::strutil::i32_string(self.code);
        r.append(code_text.as_str());
        r.append(", backtrace: ");
        r.append(self.backtrace.as_str());
        r.append(", details: ");
        r.append(self.details.as_str());
        assert(r@ =~= "Zatsu error. code: "@ + crate::strutil::int_text(self.code as int)
            + ", backtrace: "@ + self.backtrace@ + ", details: "@ + self.details@);
        r
    }
}

} // verus!
