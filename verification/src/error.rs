//! Why documentation could not be extracted.

use vstd::prelude::*;

use crate::text::view_of;

verus! {

/// Why documentation could not be extracted.
#[derive(Debug, PartialEq, Eq)]
pub enum ExtractError {
    /// The rustdoc JSON has no index to find the main struct in.
    MissingIndex,
    /// The index to find the main struct in is no object.
    IndexNotObject,
    /// No struct of this name is in the index.
    MainStructNotFound(String),
    /// The rustdoc JSON has no index of items.
    MissingIndexField,
    /// Rustdoc could not be started, for this cause.
    NotStarted(String),
    /// Rustdoc had no success, and said this.
    RustdocFailed(String),
    /// Rustdoc could not be started on this additional package, for this cause.
    AdditionalNotStarted(String, String),
    /// What rustdoc wrote could not be read, for this cause.
    UnreadableJson(String),
    /// What rustdoc wrote is no JSON, for this cause.
    InvalidJson(String),
}

/// How an error reads.
pub open spec fn error_text(error: ExtractError) -> Seq<char> {
    match error {
        ExtractError::MissingIndex => "Missing 'index' in rustdoc JSON"@,
        ExtractError::IndexNotObject => "Index is not an object"@,
        ExtractError::MainStructNotFound(name) => "Main config struct '"@ + name@
            + "' not found in rustdoc JSON"@,
        ExtractError::MissingIndexField => "Missing 'index' field in rustdoc JSON"@,
        ExtractError::NotStarted(_) => "Failed to run cargo rustdoc command"@,
        ExtractError::RustdocFailed(stderr) => "cargo rustdoc failed: "@ + stderr@,
        ExtractError::AdditionalNotStarted(package, _) => {
            "Failed to run cargo rustdoc command for "@ + package@
        },
        ExtractError::UnreadableJson(_) => "Failed to read generated rustdoc JSON file"@,
        ExtractError::InvalidJson(_) => "Failed to parse rustdoc JSON output"@,
    }
}

/// What caused an error, where something outside did.
pub open spec fn cause_of(error: ExtractError) -> Option<Seq<char>> {
    match error {
        ExtractError::NotStarted(cause) => Some(cause@),
        ExtractError::AdditionalNotStarted(_, cause) => Some(cause@),
        ExtractError::UnreadableJson(cause) => Some(cause@),
        ExtractError::InvalidJson(cause) => Some(cause@),
        _ => None,
    }
}

impl ExtractError {
    /// How the error reads.
    pub fn message(&self) -> (text: String)
        ensures
            text@ == error_text(*self),
    {
        match self {
            ExtractError::MissingIndex => "Missing 'index' in rustdoc JSON".to_owned(),
            ExtractError::IndexNotObject => "Index is not an object".to_owned(),
            ExtractError::MainStructNotFound(name) => {
                let mut text: String = "Main config struct '".to_owned();
                text.append(name.as_str());
                text.append("' not found in rustdoc JSON");
                text
            },
            ExtractError::MissingIndexField => "Missing 'index' field in rustdoc JSON".to_owned(),
            ExtractError::NotStarted(_) => "Failed to run cargo rustdoc command".to_owned(),
            ExtractError::RustdocFailed(stderr) => {
                let mut text: String = "cargo rustdoc failed: ".to_owned();
                text.append(stderr.as_str());
                text
            },
            ExtractError::AdditionalNotStarted(package, _) => {
                let mut text: String = "Failed to run cargo rustdoc command for ".to_owned();
                text.append(package.as_str());
                text
            },
            ExtractError::UnreadableJson(_) => {
                "Failed to read generated rustdoc JSON file".to_owned()
            },
            ExtractError::InvalidJson(_) => "Failed to parse rustdoc JSON output".to_owned(),
        }
    }

    /// What caused the error, where something outside did.
    pub fn cause(&self) -> (text: Option<String>)
        ensures
            view_of(text) == cause_of(*self),
    {
        match self {
            ExtractError::NotStarted(cause) => Some(cause.clone()),
            ExtractError::AdditionalNotStarted(_, cause) => Some(cause.clone()),
            ExtractError::UnreadableJson(cause) => Some(cause.clone()),
            ExtractError::InvalidJson(cause) => Some(cause.clone()),
            _ => None,
        }
    }
}

} // verus!
