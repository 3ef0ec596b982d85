//! The retrieve workflow: choose a record, choose one of its fields, and
//! have the field's value typed.

use vstd::prelude::*;
use vstd::string::*;
use crate::error::Error;
use crate::order::{is_sorting_of, sorted};
use crate::secret::{keys_of, Secret};
use crate::text::texts;
use crate::workflow::{is_failure, is_refusal, is_unexpected, Answer, Request, Step};

verus! {

/// The prompt over the list of records.
pub const SELECT_RECORD_PROMPT: &'static str = "Select secret";

/// The prompt over the list of a record's fields.
pub const SELECT_FIELD_PROMPT: &'static str = "Field";

/// How far a retrieval has come.
#[derive(Debug)]
pub enum Retrieve {
    /// The labels of the records have been asked for.
    ListingRecords,
    /// The user is choosing a record.
    ChoosingRecord,
    /// The chosen record is being loaded.
    LoadingRecord,
    /// The user is choosing a field of the record.
    ChoosingField { data: Secret },
    /// The value is being typed.
    Typing,
    /// The value has been typed.
    Done,
    /// The retrieval was given up.
    Failed,
}

/// What the retrieval in state `pre` makes of `answer`: the state `post`
/// it goes to, and the `request` it hands out.
pub open spec fn retrieve_next(
    pre: Retrieve,
    answer: Answer,
    post: Retrieve,
    request: Request,
) -> bool {
    match (pre, answer) {
        (Retrieve::ListingRecords, Answer::Labels(labels)) => {
            &&& post is ChoosingRecord
            &&& request matches Request::Select { items, prompt }
            &&& is_sorting_of(texts(items@), texts(labels@))
            &&& prompt@ == SELECT_RECORD_PROMPT@
        },
        (Retrieve::ListingRecords, Answer::Failed(cause)) => {
            post is Failed && is_failure(request, cause, Step::ListRecords)
        },
        (Retrieve::ChoosingRecord, Answer::Line(chosen)) => {
            &&& post is LoadingRecord
            &&& request matches Request::Fetch { label }
            &&& label@ == chosen@
        },
        (Retrieve::ChoosingRecord, Answer::Failed(cause)) => {
            post is Failed && is_failure(request, cause, Step::SelectRecord)
        },
        (Retrieve::LoadingRecord, Answer::Record(loaded)) => {
            if loaded@.len() == 0 {
                post is Failed && is_refusal(request, Error::EmptyRecord)
            } else {
                &&& post matches Retrieve::ChoosingField { data }
                &&& data.entries() == loaded.entries()
                &&& request matches Request::Select { items, prompt }
                &&& texts(items@) == keys_of(loaded.entries())
                &&& prompt@ == SELECT_FIELD_PROMPT@
            }
        },
        (Retrieve::LoadingRecord, Answer::Failed(cause)) => {
            post is Failed && is_failure(request, cause, Step::LoadRecord)
        },
        (Retrieve::ChoosingField { data }, Answer::Line(chosen)) => {
            if data@.contains_key(chosen@) {
                &&& post is Typing
                &&& request matches Request::Type { text }
                &&& text@ == data@[chosen@]
            } else {
                post is Failed && is_unexpected(request)
            }
        },
        (Retrieve::ChoosingField { data }, Answer::Failed(cause)) => {
            post is Failed && is_failure(request, cause, Step::SelectField)
        },
        (Retrieve::Typing, Answer::Done) => post is Done && request is Finish,
        (Retrieve::Typing, Answer::Failed(cause)) => {
            post is Failed && is_failure(request, cause, Step::TypeValue)
        },
        _ => post is Failed && is_unexpected(request),
    }
}

/// Only a field's own value is ever typed: a request to type arises from
/// nothing but the choice of a field that the loaded record has, and it
/// carries the value that the record holds under that key, never what a
/// menu would show in its place.
pub proof fn lemma_only_stored_values_are_typed(
    pre: Retrieve,
    answer: Answer,
    post: Retrieve,
    request: Request,
)
    requires
        retrieve_next(pre, answer, post, request),
        request is Type,
    ensures
        pre matches Retrieve::ChoosingField { data } && answer matches Answer::Line(chosen)
            && data@.contains_key(chosen@) && request->text@ == data@[chosen@],
{
}

/// A record without fields is refused when it has been loaded: the
/// retrieval ends with `EmptyRecord`, and no field is offered or typed.
pub proof fn lemma_empty_record_is_refused(loaded: Secret, post: Retrieve, request: Request)
    requires
        retrieve_next(Retrieve::LoadingRecord, Answer::Record(loaded), post, request),
        loaded@.len() == 0,
    ensures
        post is Failed,
        is_refusal(request, Error::EmptyRecord),
{
}

/// Every failure ends the retrieval: whatever the state, a failed answer
/// leads to `Failed` and to an abort, with the error that was handed in
/// wherever something had been asked.
pub proof fn lemma_retrieve_failure_aborts(
    pre: Retrieve,
    cause: Error,
    post: Retrieve,
    request: Request,
)
    requires
        retrieve_next(pre, Answer::Failed(cause), post, request),
    ensures
        post is Failed,
        request matches Request::Abort { error, during } && (error == cause || error is Unexpected),
        !(pre is Done || pre is Failed) ==> request->error == cause && request->during is Some,
{
}

/// A run of the workflow: each state arises from the one before it by the
/// answer that was given, and hands out the request that goes with it.
pub open spec fn is_retrieve_run(
    states: Seq<Retrieve>,
    answers: Seq<Answer>,
    requests: Seq<Request>,
) -> bool {
    &&& states.len() == answers.len() + 1
    &&& requests.len() == answers.len()
    &&& forall|i: int|
        0 <= i < answers.len() ==> retrieve_next(
            states[i],
            answers[i],
            states[i + 1],
            #[trigger] requests[i],
        )
}

proof fn lemma_after_abort(
    states: Seq<Retrieve>,
    answers: Seq<Answer>,
    requests: Seq<Request>,
    i: int,
    k: int,
)
    requires
        is_retrieve_run(states, answers, requests),
        0 <= i < k <= answers.len(),
        requests[i] is Abort,
    ensures
        states[k] is Failed,
    decreases k - i,
{
    if k == i + 1 {
        assert(retrieve_next(states[i], answers[i], states[i + 1], requests[i]));
    } else {
        lemma_after_abort(states, answers, requests, i, k - 1);
        assert(retrieve_next(states[k - 1], answers[k - 1], states[k], requests[k - 1]));
    }
}

/// A retrieval that has failed types nothing: once it has been given up,
/// no request follows but to give up.
pub proof fn lemma_nothing_is_typed_after_a_failure(
    states: Seq<Retrieve>,
    answers: Seq<Answer>,
    requests: Seq<Request>,
    i: int,
    j: int,
)
    requires
        is_retrieve_run(states, answers, requests),
        0 <= i < j < requests.len(),
        requests[i] is Abort,
    ensures
        requests[j] is Abort,
{
    lemma_after_abort(states, answers, requests, i, j);
    assert(retrieve_next(states[j], answers[j], states[j + 1], requests[j]));
}

/// The end of a retrieval that was handed an answer that does not fit.
fn give_up() -> (next: (Retrieve, Request))
    ensures
        next.0 is Failed,
        is_unexpected(next.1),
{
    (Retrieve::Failed, Request::Abort { error: Error::Unexpected, during: None })
}

/// The end of a retrieval in which what was asked during `step` failed.
fn fail(cause: Error, step: Step) -> (next: (Retrieve, Request))
    ensures
        next.0 is Failed,
        is_failure(next.1, cause, step),
{
    (Retrieve::Failed, Request::Abort { error: cause, during: Some(step) })
}

impl Retrieve {
    /// A retrieval begins by asking for the labels of all records.
    pub fn start() -> (begun: (Retrieve, Request))
        ensures
            begun.0 is ListingRecords,
            begun.1 is ListLabels,
    {
        (Retrieve::ListingRecords, Request::ListLabels)
    }

    /// Takes the answer to the last request, and hands out the next one.
    pub fn step(self, answer: Answer) -> (next: (Retrieve, Request))
        ensures
            retrieve_next(self, answer, next.0, next.1),
    {
        match self {
            Retrieve::ListingRecords => match answer {
                Answer::Labels(labels) => (
                    Retrieve::ChoosingRecord,
                    Request::Select {
                        items: sorted(&labels),
                        prompt: String::from_str(SELECT_RECORD_PROMPT),
                    },
                ),
                Answer::Failed(cause) => fail(cause, Step::ListRecords),
                _ => give_up(),
            },
            Retrieve::ChoosingRecord => match answer {
                Answer::Line(chosen) => (Retrieve::LoadingRecord, Request::Fetch { label: chosen }),
                Answer::Failed(cause) => fail(cause, Step::SelectRecord),
                _ => give_up(),
            },
            Retrieve::LoadingRecord => match answer {
                Answer::Record(loaded) => {
                    if loaded.is_empty() {
                        (Retrieve::Failed, Request::Abort { error: Error::EmptyRecord, during: None })
                    } else {
                        let items = loaded.keys();
                        (
                            Retrieve::ChoosingField { data: loaded },
                            Request::Select { items, prompt: String::from_str(SELECT_FIELD_PROMPT) },
                        )
                    }
                },
                Answer::Failed(cause) => fail(cause, Step::LoadRecord),
                _ => give_up(),
            },
            Retrieve::ChoosingField { data } => match answer {
                Answer::Line(chosen) => match data.get(chosen.as_str()) {
                    Some(field) => (Retrieve::Typing, Request::Type { text: field.value }),
                    None => give_up(),
                },
                Answer::Failed(cause) => fail(cause, Step::SelectField),
                _ => give_up(),
            },
            Retrieve::Typing => match answer {
                Answer::Done => (Retrieve::Done, Request::Finish),
                Answer::Failed(cause) => fail(cause, Step::TypeValue),
                _ => give_up(),
            },
            Retrieve::Done => give_up(),
            Retrieve::Failed => give_up(),
        }
    }
}

} // verus!
