//! What a workflow asks of the world around it, and what it is answered.
//!
//! A workflow never shows a prompt or talks to the backend itself. It hands
//! out one request at a time; whoever drives it carries the request out and
//! hands back the answer, on which the workflow decides what comes next.

use vstd::prelude::*;
use vstd::string::*;
use crate::error::Error;
use crate::secret::Secret;

verus! {

/// The part of a workflow during which something was asked.
#[derive(Debug, Clone, Copy, PartialEq, Eq)]
pub enum Step {
    ListRecords,
    SelectRecord,
    LoadRecord,
    SelectField,
    TypeValue,
    ChooseLabel,
    LoadExisting,
    CollectKeys,
    SelectMenu,
    NameField,
    EnterValue,
    Persist,
}

impl Step {
    /// What the user is told went wrong during the step.
    pub open spec fn context_text(self) -> Seq<char> {
        match self {
            Step::ListRecords => "Failed to retrieve secrets"@,
            Step::SelectRecord => "Failed to select secret"@,
            Step::LoadRecord => "Failed to get secret data"@,
            Step::SelectField => "Failed to select field"@,
            Step::TypeValue => "Failed to execute wtype"@,
            Step::ChooseLabel => "Failed to get service name"@,
            Step::LoadExisting => "Failed to get existing secret data"@,
            Step::CollectKeys => "Failed to retrieve existing field keys"@,
            Step::SelectMenu => "Failed to select menu item"@,
            Step::NameField => "Failed to get field name"@,
            Step::EnterValue => "Failed to get field value"@,
            Step::Persist => "Failed to store secret"@,
        }
    }

    /// What the user is told went wrong during the step.
    pub fn context(&self) -> (text: String)
        ensures
            text@ == self.context_text(),
    {
        match self {
            Step::ListRecords => String::from_str("Failed to retrieve secrets"),
            Step::SelectRecord => String::from_str("Failed to select secret"),
            Step::LoadRecord => String::from_str("Failed to get secret data"),
            Step::SelectField => String::from_str("Failed to select field"),
            Step::TypeValue => String::from_str("Failed to execute wtype"),
            Step::ChooseLabel => String::from_str("Failed to get service name"),
            Step::LoadExisting => String::from_str("Failed to get existing secret data"),
            Step::CollectKeys => String::from_str("Failed to retrieve existing field keys"),
            Step::SelectMenu => String::from_str("Failed to select menu item"),
            Step::NameField => String::from_str("Failed to get field name"),
            Step::EnterValue => String::from_str("Failed to get field value"),
            Step::Persist => String::from_str("Failed to store secret"),
        }
    }
}

/// What a workflow asks for next.
#[derive(Debug)]
pub enum Request {
    /// Begin to collect, in the background, every field key in use.
    PrefetchFieldKeys,
    /// List the labels of all records.
    ListLabels,
    /// Let the user choose one of `items`.
    Select { items: Vec<String>, prompt: String },
    /// Let the user choose one of `items` or type something else.
    SelectOrInput { items: Vec<String>, prompt: String },
    /// Let the user type a line.
    Input { prompt: String },
    /// Let the user type a line that is not shown.
    Password { prompt: String },
    /// Load the record under `label`.
    Fetch { label: String },
    /// Wait for the field keys whose collection was begun earlier.
    AwaitFieldKeys,
    /// Keep `data` under `label`, in place of whatever the label held.
    Persist { label: String, data: Secret },
    /// Type `text` into the active window.
    Type { text: String },
    /// Nothing more: the workflow has succeeded.
    Finish,
    /// Nothing more: the workflow has failed with `error`, which arose
    /// during `during` where something that was asked for went wrong.
    Abort { error: Error, during: Option<Step> },
}

/// What a request was answered with.
#[derive(Debug)]
pub enum Answer {
    /// The collection of field keys has begun.
    Started,
    /// The labels of all records.
    Labels(Vec<String>),
    /// The line that the user chose or typed.
    Line(String),
    /// The record that was loaded.
    Record(Secret),
    /// Every field key in use.
    FieldKeys(Vec<String>),
    /// The record was kept, or the text typed.
    Done,
    /// What was asked for could not be done.
    Failed(Error),
}

/// The request that ends a workflow because an answer did not fit.
pub open spec fn is_unexpected(request: Request) -> bool {
    request matches Request::Abort { error, during } && error is Unexpected && during is None
}

/// The request that ends a workflow because what was asked during `step`
/// failed with `cause`.
pub open spec fn is_failure(request: Request, cause: Error, step: Step) -> bool {
    request matches Request::Abort { error, during } && error == cause && during == Some(step)
}

/// The request that ends a workflow with an error of its own finding.
pub open spec fn is_refusal(request: Request, cause: Error) -> bool {
    request matches Request::Abort { error, during } && error == cause && during is None
}

} // verus!
