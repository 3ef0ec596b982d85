//! The ways in which a workflow can stop short.

use vstd::prelude::*;
use vstd::string::*;

verus! {

/// Why an operation or a workflow failed.
#[derive(Debug, PartialEq, Eq)]
pub enum Error {
    /// The picker was dismissed, exited with a failure, or answered with
    /// something that cannot be used.
    Picker,
    /// No record carries the label.
    NotFound { label: String },
    /// More than one record carries the label.
    Ambiguous { label: String },
    /// The storage service could not be reached or unlocked.
    Unreachable,
    /// A stored payload is not a flat object of strings.
    Serialization,
    /// A display string holds no `": "` separator.
    Format { input: String },
    /// A record holds no field.
    EmptyRecord,
    /// The value could not be typed into the active window.
    Injection,
    /// A workflow was handed an answer to something it had not asked, or a
    /// choice that was not on offer.
    Unexpected,
}

impl Error {
    /// What the user is told about the error.
    pub open spec fn message_text(self) -> Seq<char> {
        match self {
            Error::Picker => "fuzzel command failed"@,
            Error::NotFound { label } => "Secret not found: "@ + label@,
            Error::Ambiguous { label } => "Multiple secrets found with label: "@ + label@,
            Error::Unreachable => "Failed to reach the Secret Service"@,
            Error::Serialization => "Failed to parse secret data as JSON"@,
            Error::Format { input } => "Invalid display format: '"@ + input@ + "'"@,
            Error::EmptyRecord => "No fields in secret"@,
            Error::Injection => "Failed to type the value"@,
            Error::Unexpected => "Unexpected answer"@,
        }
    }

    /// What the user is told about the error.
    pub fn message(&self) -> (text: String)
        ensures
            text@ == self.message_text(),
    {
        match self {
            Error::Picker => String::from_str("fuzzel command failed"),
            Error::NotFound { label } => String::from_str("Secret not found: ").concat(
                label.as_str(),
            ),
            Error::Ambiguous { label } => String::from_str(
                "Multiple secrets found with label: ",
            ).concat(label.as_str()),
            Error::Unreachable => String::from_str("Failed to reach the Secret Service"),
            Error::Serialization => String::from_str("Failed to parse secret data as JSON"),
            Error::Format { input } => String::from_str("Invalid display format: '").concat(
                input.as_str(),
            ).concat("'"),
            Error::EmptyRecord => String::from_str("No fields in secret"),
            Error::Injection => String::from_str("Failed to type the value"),
            Error::Unexpected => String::from_str("Unexpected answer"),
        }
    }
}

} // verus!
