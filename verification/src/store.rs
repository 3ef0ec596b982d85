//! The store workflow: name a record, edit its fields through a menu, and
//! keep the whole record once the user says it is complete.

use vstd::prelude::*;
use vstd::seq_lib::to_multiset_len;
use vstd::string::*;
use crate::error::Error;
use crate::field::{key_is_sensitive, parse_display, Field, FieldView};
use crate::order::{is_sorting_of, sorted};
use crate::secret::{distinct_keys, lemma_upsert, upsert, views, Secret};
use crate::text::{holds, same_text, texts};
use crate::workflow::{is_failure, is_refusal, is_unexpected, Answer, Request, Step};

verus! {

/// The menu entry that adds a field.
pub const ADD_FIELD_OPTION: &'static str = "+   Add field";

/// The menu entry that ends the editing.
pub const COMPLETE_OPTION: &'static str = "\u{2713}   Complete";

/// The prompt in which the record is named.
pub const LABEL_PROMPT: &'static str = "Label";

/// The prompt over the menu of fields.
pub const MENU_PROMPT: &'static str = "Secret fields";

/// The prompt in which a new field is named.
pub const FIELD_NAME_PROMPT: &'static str = "Field name";

/// The display line of each pair, in order.
pub open spec fn displays(entries: Seq<FieldView>) -> Seq<Seq<char>> {
    entries.map_values(|e: FieldView| e.display())
}

/// `menu` is the menu over the fields `entries`: the entry that adds a
/// field, the entry that completes the record, then the display lines of
/// the fields in ascending order. A sensitive field is listed, and sorted,
/// by its masked line.
pub open spec fn is_menu_of(menu: Seq<Seq<char>>, entries: Seq<FieldView>) -> bool {
    &&& menu.len() == entries.len() + 2
    &&& menu[0] == ADD_FIELD_OPTION@
    &&& menu[1] == COMPLETE_OPTION@
    &&& is_sorting_of(menu.skip(2), displays(entries))
}

/// The prompt for the value of a field that is being added.
pub open spec fn value_prompt(key: Seq<char>) -> Seq<char> {
    "Value for '"@ + key + "'"@
}

/// The prompt for the new value of a field that is being edited.
pub open spec fn new_value_prompt(key: Seq<char>) -> Seq<char> {
    "New value for '"@ + key + "'"@
}

/// `request` asks for a value under the prompt `prompt`: unseen where the
/// key is sensitive, in plain text where it is not.
pub open spec fn asks_value(request: Request, key: Seq<char>, prompt: Seq<char>) -> bool {
    if key_is_sensitive(key) {
        request matches Request::Password { prompt: shown } && shown@ == prompt
    } else {
        request matches Request::Input { prompt: shown } && shown@ == prompt
    }
}

/// How far the storing of a record has come.
#[derive(Debug)]
pub enum Store {
    /// The collection of field keys is being started.
    Starting,
    /// The labels of the records have been asked for.
    ListingRecords,
    /// The user is naming the record; `labels` are the records there are.
    NamingRecord { labels: Vec<String> },
    /// The record that the label names is being loaded.
    LoadingRecord { label: String },
    /// The field keys in use are awaited.
    JoiningKeys { label: String, data: Secret },
    /// The user is looking at the menu of fields.
    Menu { label: String, data: Secret, suggestions: Vec<String> },
    /// The user is naming a field to add.
    NamingField { label: String, data: Secret, suggestions: Vec<String> },
    /// The user is entering the value for `key`.
    EnteringValue { label: String, data: Secret, suggestions: Vec<String>, key: String },
    /// The record is being kept.
    Persisting,
    /// The record has been kept.
    Done,
    /// The storing was given up.
    Failed,
}

/// `post` is the state in which the menu over `data` is shown, and
/// `request` shows it.
pub open spec fn shows_menu(
    post: Store,
    request: Request,
    label: Seq<char>,
    entries: Seq<FieldView>,
    suggestions: Seq<Seq<char>>,
) -> bool {
    &&& post matches Store::Menu { label: l, data: d, suggestions: s }
    &&& l@ == label
    &&& d.entries() == entries
    &&& texts(s@) == suggestions
    &&& request matches Request::Select { items, prompt }
    &&& is_menu_of(texts(items@), entries)
    &&& prompt@ == MENU_PROMPT@
}

/// `post` is the state in which the value for `key` is awaited.
pub open spec fn awaits_value(
    post: Store,
    label: Seq<char>,
    entries: Seq<FieldView>,
    suggestions: Seq<Seq<char>>,
    key: Seq<char>,
) -> bool {
    &&& post matches Store::EnteringValue { label: l, data: d, suggestions: s, key: k }
    &&& l@ == label
    &&& d.entries() == entries
    &&& texts(s@) == suggestions
    &&& k@ == key
}

/// What the menu over a record makes of the line that was chosen.
pub open spec fn after_menu_choice(
    label: Seq<char>,
    entries: Seq<FieldView>,
    suggestions: Seq<Seq<char>>,
    chosen: Seq<char>,
    post: Store,
    request: Request,
) -> bool {
    if chosen == COMPLETE_OPTION@ {
        if entries.len() == 0 {
            post is Failed && is_refusal(request, Error::EmptyRecord)
        } else {
            &&& post is Persisting
            &&& request matches Request::Persist { label: l, data: d }
            &&& l@ == label
            &&& d.entries() == entries
        }
    } else if chosen == ADD_FIELD_OPTION@ {
        &&& post matches Store::NamingField { label: l, data: d, suggestions: s }
        &&& l@ == label
        &&& d.entries() == entries
        &&& texts(s@) == suggestions
        &&& request matches Request::SelectOrInput { items, prompt }
        &&& texts(items@) == suggestions
        &&& prompt@ == FIELD_NAME_PROMPT@
    } else {
        match parse_display(chosen) {
            Some(field) => {
                &&& awaits_value(post, label, entries, suggestions, field.key)
                &&& asks_value(request, field.key, new_value_prompt(field.key))
            },
            None => {
                &&& post is Failed
                &&& request matches Request::Abort { error: Error::Format { input }, during }
                &&& input@ == chosen
                &&& during is None
            },
        }
    }
}

/// What the storing in state `pre` makes of `answer`: the state `post` it
/// goes to, and the `request` it hands out.
pub open spec fn store_next(pre: Store, answer: Answer, post: Store, request: Request) -> bool {
    match (pre, answer) {
        (Store::Starting, Answer::Started) => post is ListingRecords && request is ListLabels,
        (Store::Starting, Answer::Failed(cause)) => {
            post is Failed && is_failure(request, cause, Step::CollectKeys)
        },
        (Store::ListingRecords, Answer::Labels(found)) => {
            &&& post matches Store::NamingRecord { labels }
            &&& is_sorting_of(texts(labels@), texts(found@))
            &&& request matches Request::SelectOrInput { items, prompt }
            &&& texts(items@) == texts(labels@)
            &&& prompt@ == LABEL_PROMPT@
        },
        (Store::ListingRecords, Answer::Failed(cause)) => {
            post is Failed && is_failure(request, cause, Step::ListRecords)
        },
        (Store::NamingRecord { labels }, Answer::Line(named)) => {
            if texts(labels@).contains(named@) {
                &&& post matches Store::LoadingRecord { label }
                &&& label@ == named@
                &&& request matches Request::Fetch { label: wanted }
                &&& wanted@ == named@
            } else {
                &&& post matches Store::JoiningKeys { label, data }
                &&& label@ == named@
                &&& data.entries() == Seq::<FieldView>::empty()
                &&& request is AwaitFieldKeys
            }
        },
        (Store::NamingRecord { labels }, Answer::Failed(cause)) => {
            post is Failed && is_failure(request, cause, Step::ChooseLabel)
        },
        (Store::LoadingRecord { label }, Answer::Record(loaded)) => {
            &&& post matches Store::JoiningKeys { label: l, data }
            &&& l@ == label@
            &&& data.entries() == loaded.entries()
            &&& request is AwaitFieldKeys
        },
        (Store::LoadingRecord { label }, Answer::Failed(cause)) => {
            post is Failed && is_failure(request, cause, Step::LoadExisting)
        },
        (Store::JoiningKeys { label, data }, Answer::FieldKeys(keys)) => {
            exists|suggestions: Seq<Seq<char>>|
                {
                    &&& is_sorting_of(suggestions, texts(keys@))
                    &&& #[trigger] shows_menu(post, request, label@, data.entries(), suggestions)
                }
        },
        (Store::JoiningKeys { label, data }, Answer::Failed(cause)) => {
            post is Failed && is_failure(request, cause, Step::CollectKeys)
        },
        (Store::Menu { label, data, suggestions }, Answer::Line(chosen)) => {
            after_menu_choice(label@, data.entries(), texts(suggestions@), chosen@, post, request)
        },
        (Store::Menu { label, data, suggestions }, Answer::Failed(cause)) => {
            post is Failed && is_failure(request, cause, Step::SelectMenu)
        },
        (Store::NamingField { label, data, suggestions }, Answer::Line(key)) => {
            &&& awaits_value(post, label@, data.entries(), texts(suggestions@), key@)
            &&& asks_value(request, key@, value_prompt(key@))
        },
        (Store::NamingField { label, data, suggestions }, Answer::Failed(cause)) => {
            post is Failed && is_failure(request, cause, Step::NameField)
        },
        (Store::EnteringValue { label, data, suggestions, key }, Answer::Line(value)) => {
            shows_menu(
                post,
                request,
                label@,
                upsert(data.entries(), key@, value@),
                texts(suggestions@),
            )
        },
        (Store::EnteringValue { label, data, suggestions, key }, Answer::Failed(cause)) => {
            post is Failed && is_failure(request, cause, Step::EnterValue)
        },
        (Store::Persisting, Answer::Done) => post is Done && request is Finish,
        (Store::Persisting, Answer::Failed(cause)) => {
            post is Failed && is_failure(request, cause, Step::Persist)
        },
        _ => post is Failed && is_unexpected(request),
    }
}

/// Nothing is kept before the user completes the record, and what is kept
/// then is the whole record as it was edited, under the label that was
/// chosen, and never an empty one.
pub proof fn lemma_persist_only_on_complete(
    pre: Store,
    answer: Answer,
    post: Store,
    request: Request,
)
    requires
        store_next(pre, answer, post, request),
        request is Persist,
    ensures
        pre matches Store::Menu { label, data, suggestions } && answer matches Answer::Line(chosen)
            && chosen@ == COMPLETE_OPTION@ && data.entries().len() > 0 && request->Persist_label@
            == label@ && request->data.entries() == data.entries(),
        post is Persisting,
{
}

/// Entering a value changes the field under that key and no other: the
/// record shown in the next menu is the old one with the key given the
/// new value.
pub proof fn lemma_edit_changes_one_field(
    label: String,
    data: Secret,
    suggestions: Vec<String>,
    key: String,
    value: String,
    post: Store,
    request: Request,
)
    requires
        distinct_keys(data.entries()),
        store_next(
            Store::EnteringValue { label, data, suggestions, key },
            Answer::Line(value),
            post,
            request,
        ),
    ensures
        post matches Store::Menu { label: l, data: edited, suggestions: s } && l@ == label@
            && texts(s@) == texts(suggestions@) && edited@ == data@.insert(key@, value@),
        forall|other: Seq<char>|
            other != key@ && data@.contains_key(other) ==> post->Menu_data@.contains_key(other)
                && post->Menu_data@[other] == data@[other],
{
    lemma_upsert(data.entries(), key@, value@);
}

/// Every failure ends the storing, and nothing is kept after it: whatever
/// the state, a failed answer leads to `Failed` and to an abort, with the
/// error that was handed in wherever something had been asked.
pub proof fn lemma_store_failure_aborts(pre: Store, cause: Error, post: Store, request: Request)
    requires
        store_next(pre, Answer::Failed(cause), post, request),
    ensures
        post is Failed,
        request matches Request::Abort { error, during } && (error == cause || error is Unexpected),
        !(pre is Done || pre is Failed) ==> request->error == cause && request->during is Some,
{
}

/// A workflow that has ended stays ended: from `Done` and from `Failed`
/// every answer leads to `Failed`, and nothing more is asked.
pub proof fn lemma_store_end_is_final(pre: Store, answer: Answer, post: Store, request: Request)
    requires
        pre is Done || pre is Failed,
        store_next(pre, answer, post, request),
    ensures
        post is Failed,
        is_unexpected(request),
{
}

/// A run of the workflow: each state arises from the one before it by the
/// answer that was given, and hands out the request that goes with it.
pub open spec fn is_store_run(
    states: Seq<Store>,
    answers: Seq<Answer>,
    requests: Seq<Request>,
) -> bool {
    &&& states.len() == answers.len() + 1
    &&& requests.len() == answers.len()
    &&& forall|i: int|
        0 <= i < answers.len() ==> store_next(
            states[i],
            answers[i],
            states[i + 1],
            #[trigger] requests[i],
        )
}

proof fn lemma_after_persist(
    states: Seq<Store>,
    answers: Seq<Answer>,
    requests: Seq<Request>,
    i: int,
    k: int,
)
    requires
        is_store_run(states, answers, requests),
        0 <= i < k <= answers.len(),
        requests[i] is Persist,
    ensures
        states[k] is Persisting || states[k] is Done || states[k] is Failed,
        k > i + 1 ==> states[k] is Done || states[k] is Failed,
    decreases k - i,
{
    if k == i + 1 {
        lemma_persist_only_on_complete(states[i], answers[i], states[i + 1], requests[i]);
    } else {
        lemma_after_persist(states, answers, requests, i, k - 1);
        assert(store_next(states[k - 1], answers[k - 1], states[k], requests[k - 1]));
    }
}

/// A record is kept at most once in a run: once the request to keep it has
/// been handed out, nothing follows but the end of the workflow.
pub proof fn lemma_at_most_one_persist(
    states: Seq<Store>,
    answers: Seq<Answer>,
    requests: Seq<Request>,
    i: int,
    j: int,
)
    requires
        is_store_run(states, answers, requests),
        0 <= i < j < requests.len(),
        requests[i] is Persist,
    ensures
        requests[j] is Finish || requests[j] is Abort,
{
    lemma_after_persist(states, answers, requests, i, j);
    assert(store_next(states[j], answers[j], states[j + 1], requests[j]));
}

proof fn lemma_after_abort(
    states: Seq<Store>,
    answers: Seq<Answer>,
    requests: Seq<Request>,
    i: int,
    k: int,
)
    requires
        is_store_run(states, answers, requests),
        0 <= i < k <= answers.len(),
        requests[i] is Abort,
    ensures
        states[k] is Failed,
    decreases k - i,
{
    if k == i + 1 {
        assert(store_next(states[i], answers[i], states[i + 1], requests[i]));
    } else {
        lemma_after_abort(states, answers, requests, i, k - 1);
        assert(store_next(states[k - 1], answers[k - 1], states[k], requests[k - 1]));
    }
}

/// No partial save: a storing that has failed keeps nothing. Once it has
/// been given up, no request follows but to give up.
pub proof fn lemma_nothing_is_kept_after_a_failure(
    states: Seq<Store>,
    answers: Seq<Answer>,
    requests: Seq<Request>,
    i: int,
    j: int,
)
    requires
        is_store_run(states, answers, requests),
        0 <= i < j < requests.len(),
        requests[i] is Abort,
    ensures
        requests[j] is Abort,
{
    lemma_after_abort(states, answers, requests, i, j);
    assert(store_next(states[j], answers[j], states[j + 1], requests[j]));
}

/// The end of a storing that was handed an answer that does not fit.
fn give_up() -> (next: (Store, Request))
    ensures
        next.0 is Failed,
        is_unexpected(next.1),
{
    (Store::Failed, Request::Abort { error: Error::Unexpected, during: None })
}

/// The end of a storing in which what was asked during `step` failed.
fn fail(cause: Error, step: Step) -> (next: (Store, Request))
    ensures
        next.0 is Failed,
        is_failure(next.1, cause, step),
{
    (Store::Failed, Request::Abort { error: cause, during: Some(step) })
}

/// The menu over the fields of `data`.
pub fn menu(data: &Secret) -> (items: Vec<String>)
    ensures
        is_menu_of(texts(items@), data.entries()),
{
    let fields = data.fields();
    let mut lines: Vec<String> = Vec::new();
    let mut at: usize = 0;
    while at < fields.len()
        invariant
            at <= fields.len(),
            lines.len() == at,
            forall|i: int| 0 <= i < at ==> (#[trigger] lines[i])@ == fields[i]@.display(),
        decreases fields.len() - at,
    {
        lines.push(fields[at].display());
        at += 1;
    }
    assert(texts(lines@) =~= displays(views(fields@)));
    let ordered = sorted(&lines);
    let mut items: Vec<String> = Vec::new();
    items.push(String::from_str(ADD_FIELD_OPTION));
    items.push(String::from_str(COMPLETE_OPTION));
    let mut k: usize = 0;
    while k < ordered.len()
        invariant
            k <= ordered.len(),
            items.len() == k + 2,
            items[0]@ == ADD_FIELD_OPTION@,
            items[1]@ == COMPLETE_OPTION@,
            forall|i: int| 0 <= i < k ==> (#[trigger] items[i + 2])@ == ordered[i]@,
        decreases ordered.len() - k,
    {
        items.push(ordered[k].clone());
        k += 1;
    }
    proof {
        to_multiset_len(texts(ordered@));
        to_multiset_len(texts(lines@));
        assert(texts(items@).skip(2) =~= texts(ordered@));
    }
    items
}

/// The request for the value of the field under `key`, under `prompt`.
fn ask_value(key: &str, prompt: String) -> (request: Request)
    ensures
        asks_value(request, key@, prompt@),
{
    if Field::is_key_sensitive(key) {
        Request::Password { prompt }
    } else {
        Request::Input { prompt }
    }
}

/// The state that shows the menu, and the request that shows it.
fn show_menu(label: String, data: Secret, suggestions: Vec<String>) -> (next: (Store, Request))
    ensures
        shows_menu(next.0, next.1, label@, data.entries(), texts(suggestions@)),
{
    let items = menu(&data);
    (
        Store::Menu { label, data, suggestions },
        Request::Select { items, prompt: String::from_str(MENU_PROMPT) },
    )
}

/// What follows the choice of a line in the menu.
fn choose_in_menu(label: String, data: Secret, suggestions: Vec<String>, chosen: String) -> (next:
    (Store, Request))
    ensures
        after_menu_choice(
            label@,
            data.entries(),
            texts(suggestions@),
            chosen@,
            next.0,
            next.1,
        ),
{
    if same_text(chosen.as_str(), COMPLETE_OPTION) {
        if data.is_empty() {
            (Store::Failed, Request::Abort { error: Error::EmptyRecord, during: None })
        } else {
            (Store::Persisting, Request::Persist { label, data })
        }
    } else if same_text(chosen.as_str(), ADD_FIELD_OPTION) {
        let items = suggestions.clone();
        assert(texts(items@) =~= texts(suggestions@));
        (
            Store::NamingField { label, data, suggestions },
            Request::SelectOrInput { items, prompt: String::from_str(FIELD_NAME_PROMPT) },
        )
    } else {
        match Field::parse_from_display(chosen.as_str()) {
            Ok(field) => {
                let prompt = String::from_str("New value for '").concat(field.key.as_str()).concat(
                    "'",
                );
                let request = ask_value(field.key.as_str(), prompt);
                (Store::EnteringValue { label, data, suggestions, key: field.key }, request)
            },
            Err(error) => (Store::Failed, Request::Abort { error, during: None }),
        }
    }
}

impl Store {
    /// A storing begins by having the collection of field keys started, so
    /// that it runs while the user names the record.
    pub fn start() -> (begun: (Store, Request))
        ensures
            begun.0 is Starting,
            begun.1 is PrefetchFieldKeys,
    {
        (Store::Starting, Request::PrefetchFieldKeys)
    }

    /// Takes the answer to the last request, and hands out the next one.
    pub fn step(self, answer: Answer) -> (next: (Store, Request))
        ensures
            store_next(self, answer, next.0, next.1),
    {
        match self {
            Store::Starting => match answer {
                Answer::Started => (Store::ListingRecords, Request::ListLabels),
                Answer::Failed(cause) => fail(cause, Step::CollectKeys),
                _ => give_up(),
            },
            Store::ListingRecords => match answer {
                Answer::Labels(found) => {
                    let labels = sorted(&found);
                    let items = labels.clone();
                    assert(texts(items@) =~= texts(labels@));
                    (
                        Store::NamingRecord { labels },
                        Request::SelectOrInput { items, prompt: String::from_str(LABEL_PROMPT) },
                    )
                },
                Answer::Failed(cause) => fail(cause, Step::ListRecords),
                _ => give_up(),
            },
            Store::NamingRecord { labels } => match answer {
                Answer::Line(named) => {
                    if holds(&labels, &named) {
                        let wanted = named.clone();
                        (Store::LoadingRecord { label: named }, Request::Fetch { label: wanted })
                    } else {
                        (
                            Store::JoiningKeys { label: named, data: Secret::new() },
                            Request::AwaitFieldKeys,
                        )
                    }
                },
                Answer::Failed(cause) => fail(cause, Step::ChooseLabel),
                _ => give_up(),
            },
            Store::LoadingRecord { label } => match answer {
                Answer::Record(loaded) => (
                    Store::JoiningKeys { label, data: loaded },
                    Request::AwaitFieldKeys,
                ),
                Answer::Failed(cause) => fail(cause, Step::LoadExisting),
                _ => give_up(),
            },
            Store::JoiningKeys { label, data } => match answer {
                Answer::FieldKeys(keys) => {
                    let suggestions = sorted(&keys);
                    show_menu(label, data, suggestions)
                },
                Answer::Failed(cause) => fail(cause, Step::CollectKeys),
                _ => give_up(),
            },
            Store::Menu { label, data, suggestions } => match answer {
                Answer::Line(chosen) => choose_in_menu(label, data, suggestions, chosen),
                Answer::Failed(cause) => fail(cause, Step::SelectMenu),
                _ => give_up(),
            },
            Store::NamingField { label, data, suggestions } => match answer {
                Answer::Line(key) => {
                    let prompt = String::from_str("Value for '").concat(key.as_str()).concat("'");
                    let request = ask_value(key.as_str(), prompt);
                    (Store::EnteringValue { label, data, suggestions, key }, request)
                },
                Answer::Failed(cause) => fail(cause, Step::NameField),
                _ => give_up(),
            },
            Store::EnteringValue { label, data, suggestions, key } => match answer {
                Answer::Line(value) => {
                    let mut data = data;
                    data.insert(key, value);
                    show_menu(label, data, suggestions)
                },
                Answer::Failed(cause) => fail(cause, Step::EnterValue),
                _ => give_up(),
            },
            Store::Persisting => match answer {
                Answer::Done => (Store::Done, Request::Finish),
                Answer::Failed(cause) => fail(cause, Step::Persist),
                _ => give_up(),
            },
            Store::Done => give_up(),
            Store::Failed => give_up(),
        }
    }
}

} // verus!
