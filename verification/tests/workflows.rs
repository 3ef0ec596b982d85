use fuzzel_secrets::error::Error;
use fuzzel_secrets::field::Field;
use fuzzel_secrets::fuzzel::{answer_text, select, Reply};
use fuzzel_secrets::retrieve::Retrieve;
use fuzzel_secrets::secret::Secret;
use fuzzel_secrets::secrets::{all_field_keys, get_data, single_match, store};
use fuzzel_secrets::store::{menu, Store, ADD_FIELD_OPTION, COMPLETE_OPTION};
use fuzzel_secrets::workflow::{Answer, Request, Step};

const ADD: &str = "+   Add field";
const COMPLETE: &str = "\u{2713}   Complete";

/// What a prompt looked like: its kind, the lines on offer, the prompt text.
type Shown = (&'static str, Vec<String>, String);

/// An in-memory backend that counts what is done to it.
struct Backend {
    records: Vec<(String, Vec<u8>)>,
    persist_calls: usize,
    typed: Vec<String>,
    keys_fail: bool,
}

/// A picker that answers from a script and remembers what it showed.
struct Picker {
    script: Vec<Option<&'static str>>,
    shown: Vec<Shown>,
}

fn strings(items: &[&str]) -> Vec<String> {
    items.iter().map(|s| s.to_string()).collect()
}

fn record(pairs: &[(&str, &str)]) -> Secret {
    Secret::from(
        pairs.iter().map(|(k, v)| Field::new(k.to_string(), v.to_string())).collect::<Vec<Field>>(),
    )
}

fn as_pairs(data: &Secret) -> Vec<(String, String)> {
    let mut pairs: Vec<(String, String)> =
        data.fields().into_iter().map(|f| (f.key, f.value)).collect();
    pairs.sort();
    pairs
}

fn both(a: &str, b: &str) -> (String, String) {
    (a.to_string(), b.to_string())
}

impl Backend {
    fn with(records: &[(&str, &[(&str, &str)])]) -> Backend {
        let records = records
            .iter()
            .map(|(label, pairs)| (label.to_string(), store(label, &record(pairs)).unwrap().payload))
            .collect();
        Backend { records, persist_calls: 0, typed: Vec::new(), keys_fail: false }
    }

    fn labels(&self) -> Vec<String> {
        self.records.iter().map(|(label, _)| label.clone()).collect()
    }

    fn fetch(&self, label: &str) -> Result<Secret, Error> {
        let found: Vec<&Vec<u8>> =
            self.records.iter().filter(|(l, _)| l == label).map(|(_, p)| p).collect();
        single_match(label, found.len())?;
        get_data(found[0].clone())
    }

    fn field_keys(&self) -> Result<Vec<String>, Error> {
        if self.keys_fail {
            return Err(Error::Unreachable);
        }
        let mut all = Vec::new();
        for label in self.labels() {
            all.push(self.fetch(&label)?);
        }
        Ok(all_field_keys(&all))
    }

    fn persist(&mut self, label: &str, data: &Secret) -> Result<(), Error> {
        self.persist_calls += 1;
        let request = store(label, data)?;
        assert!(request.replace);
        self.records.retain(|(l, _)| *l != request.label);
        self.records.push((request.label, request.payload));
        Ok(())
    }

    fn stored(&self, label: &str) -> Vec<(String, String)> {
        as_pairs(&self.fetch(label).unwrap())
    }
}

impl Picker {
    fn answering(script: &[Option<&'static str>]) -> Picker {
        Picker { script: script.to_vec(), shown: Vec::new() }
    }

    fn next(&mut self, kind: &'static str, items: &[String], prompt: &str) -> Option<&'static str> {
        self.shown.push((kind, items.to_vec(), prompt.to_string()));
        assert!(!self.script.is_empty(), "asked more often than the script answers");
        self.script.remove(0)
    }

    fn pick(&mut self, items: &[String], prompt: &str) -> Answer {
        let reply = match self.next("select", items, prompt) {
            Some(line) => {
                let index = items.iter().position(|item| item == line).expect("line not on offer");
                Reply { success: true, output: format!("{}\n", index).into_bytes() }
            }
            None => Reply { success: false, output: Vec::new() },
        };
        answer(select(items, reply))
    }

    fn type_line(&mut self, kind: &'static str, items: &[String], prompt: &str) -> Answer {
        let reply = match self.next(kind, items, prompt) {
            Some(line) => Reply { success: true, output: format!("{}\n", line).into_bytes() },
            None => Reply { success: false, output: Vec::new() },
        };
        answer(answer_text(reply))
    }
}

fn answer(line: Result<String, Error>) -> Answer {
    match line {
        Ok(line) => Answer::Line(line),
        Err(e) => Answer::Failed(e),
    }
}

fn carry_out(request: Request, backend: &mut Backend, picker: &mut Picker) -> Answer {
    match request {
        Request::PrefetchFieldKeys => Answer::Started,
        Request::ListLabels => Answer::Labels(backend.labels()),
        Request::Select { items, prompt } => picker.pick(&items, &prompt),
        Request::SelectOrInput { items, prompt } => picker.type_line("select-or-input", &items, &prompt),
        Request::Input { prompt } => picker.type_line("input", &[], &prompt),
        Request::Password { prompt } => picker.type_line("password", &[], &prompt),
        Request::Fetch { label } => match backend.fetch(&label) {
            Ok(data) => Answer::Record(data),
            Err(e) => Answer::Failed(e),
        },
        Request::AwaitFieldKeys => match backend.field_keys() {
            Ok(keys) => Answer::FieldKeys(keys),
            Err(e) => Answer::Failed(e),
        },
        Request::Persist { label, data } => match backend.persist(&label, &data) {
            Ok(()) => Answer::Done,
            Err(e) => Answer::Failed(e),
        },
        Request::Type { text } => {
            backend.typed.push(text);
            Answer::Done
        }
        Request::Finish | Request::Abort { .. } => unreachable!(),
    }
}

fn run_store(backend: &mut Backend, picker: &mut Picker) -> Result<(), (Error, Option<Step>)> {
    let (mut state, mut request) = Store::start();
    loop {
        match request {
            Request::Finish => {
                assert!(matches!(state, Store::Done));
                return Ok(());
            }
            Request::Abort { error, during } => {
                assert!(matches!(state, Store::Failed));
                return Err((error, during));
            }
            other => {
                let answer = carry_out(other, backend, picker);
                (state, request) = state.step(answer);
            }
        }
    }
}

fn run_retrieve(backend: &mut Backend, picker: &mut Picker) -> Result<(), (Error, Option<Step>)> {
    let (mut state, mut request) = Retrieve::start();
    loop {
        match request {
            Request::Finish => {
                assert!(matches!(state, Retrieve::Done));
                return Ok(());
            }
            Request::Abort { error, during } => {
                assert!(matches!(state, Retrieve::Failed));
                return Err((error, during));
            }
            other => {
                let answer = carry_out(other, backend, picker);
                (state, request) = state.step(answer);
            }
        }
    }
}

#[test]
fn menu_entries_are_what_the_user_sees() {
    assert_eq!(ADD_FIELD_OPTION, ADD);
    assert_eq!(COMPLETE_OPTION, COMPLETE);
    assert_eq!(COMPLETE_OPTION.chars().next(), Some('\u{2713}'));
}

#[test]
fn store_a_new_record() {
    let mut backend = Backend::with(&[]);
    let mut picker = Picker::answering(&[
        Some("email"),
        Some(ADD),
        Some("token"),
        Some("abc123"),
        Some(COMPLETE),
    ]);
    assert_eq!(run_store(&mut backend, &mut picker), Ok(()));
    assert_eq!(backend.persist_calls, 1);
    assert_eq!(backend.labels(), strings(&["email"]));
    assert_eq!(backend.records[0].1, b"{\"token\":\"abc123\"}".to_vec());
    assert_eq!(backend.stored("email"), vec![both("token", "abc123")]);
    assert!(backend.typed.is_empty());
    assert_eq!(
        picker.shown,
        vec![
            ("select-or-input", strings(&[]), "Label".to_string()),
            ("select", strings(&[ADD, COMPLETE]), "Secret fields".to_string()),
            ("select-or-input", strings(&[]), "Field name".to_string()),
            ("password", strings(&[]), "Value for 'token'".to_string()),
            ("select", strings(&[ADD, COMPLETE, "token: ********"]), "Secret fields".to_string()),
        ]
    );
}

#[test]
fn store_edits_a_field_of_an_existing_record() {
    let mut backend = Backend::with(&[
        ("other", &[("pin", "0000")]),
        ("site", &[("username", "alice"), ("password", "pw"), ("url", "https://example.org")]),
    ]);
    let mut picker =
        Picker::answering(&[Some("site"), Some("username: alice"), Some("bob"), Some(COMPLETE)]);
    assert_eq!(run_store(&mut backend, &mut picker), Ok(()));
    assert_eq!(backend.persist_calls, 1);
    assert_eq!(
        backend.stored("site"),
        vec![both("password", "pw"), both("url", "https://example.org"), both("username", "bob")]
    );
    assert_eq!(backend.stored("other"), vec![both("pin", "0000")]);
    assert_eq!(backend.labels().len(), 2);
    assert_eq!(
        picker.shown,
        vec![
            ("select-or-input", strings(&["other", "site"]), "Label".to_string()),
            (
                "select",
                strings(&[
                    ADD,
                    COMPLETE,
                    "password: ********",
                    "url: https://example.org",
                    "username: alice"
                ]),
                "Secret fields".to_string()
            ),
            ("input", strings(&[]), "New value for 'username'".to_string()),
            (
                "select",
                strings(&[
                    ADD,
                    COMPLETE,
                    "password: ********",
                    "url: https://example.org",
                    "username: bob"
                ]),
                "Secret fields".to_string()
            ),
        ]
    );
}

#[test]
fn store_edits_a_sensitive_field_unseen() {
    let mut backend = Backend::with(&[("site", &[("username", "alice"), ("password", "pw")])]);
    let mut picker = Picker::answering(&[
        Some("site"),
        Some("password: ********"),
        Some("new pw"),
        Some(COMPLETE),
    ]);
    assert_eq!(run_store(&mut backend, &mut picker), Ok(()));
    assert_eq!(backend.stored("site"), vec![both("password", "new pw"), both("username", "alice")]);
    assert_eq!(picker.shown[2], ("password", strings(&[]), "New value for 'password'".to_string()));
}

#[test]
fn store_suggests_the_keys_in_use_in_order() {
    let mut backend = Backend::with(&[
        ("b", &[("username", "x"), ("password", "y")]),
        ("a", &[("url", "z"), ("username", "w")]),
    ]);
    let mut picker = Picker::answering(&[
        Some("new"),
        Some(ADD),
        Some("note"),
        Some("hello"),
        Some(ADD),
        Some("API Token"),
        Some("t0k3n"),
        Some(COMPLETE),
    ]);
    assert_eq!(run_store(&mut backend, &mut picker), Ok(()));
    assert_eq!(picker.shown[0], ("select-or-input", strings(&["a", "b"]), "Label".to_string()));
    let suggestions = strings(&["password", "url", "username"]);
    assert_eq!(picker.shown[2], ("select-or-input", suggestions.clone(), "Field name".to_string()));
    assert_eq!(picker.shown[3], ("input", strings(&[]), "Value for 'note'".to_string()));
    assert_eq!(picker.shown[5], ("select-or-input", suggestions, "Field name".to_string()));
    assert_eq!(picker.shown[6], ("password", strings(&[]), "Value for 'API Token'".to_string()));
    assert_eq!(
        picker.shown[7].1,
        strings(&[ADD, COMPLETE, "API Token: ********", "note: hello"])
    );
    assert_eq!(backend.stored("new"), vec![both("API Token", "t0k3n"), both("note", "hello")]);
    assert_eq!(backend.persist_calls, 1);
}

#[test]
fn store_replaces_the_whole_record() {
    let mut backend = Backend::with(&[("site", &[("username", "alice")])]);
    let mut picker = Picker::answering(&[
        Some("site"),
        Some(ADD),
        Some("username"),
        Some("carol"),
        Some(ADD),
        Some("pin"),
        Some("1234"),
        Some(COMPLETE),
    ]);
    assert_eq!(run_store(&mut backend, &mut picker), Ok(()));
    assert_eq!(backend.labels(), strings(&["site"]));
    assert_eq!(backend.stored("site"), vec![both("pin", "1234"), both("username", "carol")]);
}

#[test]
fn store_refuses_an_empty_record() {
    let mut backend = Backend::with(&[]);
    let mut picker = Picker::answering(&[Some("email"), Some(COMPLETE)]);
    assert_eq!(run_store(&mut backend, &mut picker), Err((Error::EmptyRecord, None)));
    assert_eq!(backend.persist_calls, 0);
    assert!(backend.records.is_empty());
}

#[test]
fn store_saves_nothing_when_the_picker_fails() {
    let scripts: Vec<(Vec<Option<&'static str>>, Step)> = vec![
        (vec![None], Step::ChooseLabel),
        (vec![Some("site"), None], Step::SelectMenu),
        (vec![Some("site"), Some(ADD), None], Step::NameField),
        (vec![Some("site"), Some(ADD), Some("pin"), None], Step::EnterValue),
        (vec![Some("site"), Some("username: alice"), None], Step::EnterValue),
        (vec![Some("site"), Some(ADD), Some("pin"), Some("1"), None], Step::SelectMenu),
    ];
    for (script, step) in scripts {
        let mut backend = Backend::with(&[("site", &[("username", "alice")])]);
        let mut picker = Picker::answering(&script);
        assert_eq!(run_store(&mut backend, &mut picker), Err((Error::Picker, Some(step))));
        assert_eq!(backend.persist_calls, 0);
        assert_eq!(backend.stored("site"), vec![both("username", "alice")]);
        assert!(picker.script.is_empty());
    }
}

#[test]
fn store_fails_when_the_field_keys_cannot_be_collected() {
    let mut backend = Backend::with(&[("site", &[("username", "alice")])]);
    backend.keys_fail = true;
    let mut picker = Picker::answering(&[Some("site")]);
    assert_eq!(
        run_store(&mut backend, &mut picker),
        Err((Error::Unreachable, Some(Step::CollectKeys)))
    );
    assert_eq!(picker.shown.len(), 1);
    assert_eq!(backend.persist_calls, 0);
}

#[test]
fn store_fails_on_an_ambiguous_label() {
    let mut backend =
        Backend::with(&[("dup", &[("a", "1")]), ("dup", &[("b", "2")]), ("solo", &[("c", "3")])]);
    let mut picker = Picker::answering(&[Some("dup")]);
    assert_eq!(
        run_store(&mut backend, &mut picker),
        Err((Error::Ambiguous { label: "dup".to_string() }, Some(Step::LoadExisting)))
    );
    assert_eq!(backend.persist_calls, 0);
    assert_eq!(backend.records.len(), 3);
}

#[test]
fn store_reports_a_failed_persist() {
    let (state, _) = Store::start();
    let (state, _) = state.step(Answer::Started);
    let (state, _) = state.step(Answer::Labels(Vec::new()));
    let (state, _) = state.step(Answer::Line("email".to_string()));
    let (state, _) = state.step(Answer::FieldKeys(Vec::new()));
    let (state, _) = state.step(Answer::Line(ADD.to_string()));
    let (state, _) = state.step(Answer::Line("pin".to_string()));
    let (state, _) = state.step(Answer::Line("1".to_string()));
    let (state, request) = state.step(Answer::Line(COMPLETE.to_string()));
    match request {
        Request::Persist { label, data } => {
            assert_eq!(label, "email");
            assert_eq!(as_pairs(&data), vec![both("pin", "1")]);
        }
        other => panic!("unexpected request {:?}", other),
    }
    let (state, request) = state.step(Answer::Failed(Error::Unreachable));
    assert!(matches!(state, Store::Failed));
    assert!(matches!(
        request,
        Request::Abort { error: Error::Unreachable, during: Some(Step::Persist) }
    ));
}

#[test]
fn store_rejects_a_menu_line_without_separator() {
    let (state, _) = Store::start();
    let (state, _) = state.step(Answer::Started);
    let (state, _) = state.step(Answer::Labels(Vec::new()));
    let (state, _) = state.step(Answer::Line("email".to_string()));
    let (state, _) = state.step(Answer::FieldKeys(Vec::new()));
    let (state, request) = state.step(Answer::Line("no-separator-here".to_string()));
    assert!(matches!(state, Store::Failed));
    match request {
        Request::Abort { error, during } => {
            assert_eq!(error, Error::Format { input: "no-separator-here".to_string() });
            assert_eq!(during, None);
        }
        other => panic!("unexpected request {:?}", other),
    }
}

#[test]
fn store_gives_up_on_an_answer_that_was_not_asked_for() {
    let (state, _) = Store::start();
    let (state, request) = state.step(Answer::Labels(Vec::new()));
    assert!(matches!(state, Store::Failed));
    assert!(matches!(request, Request::Abort { error: Error::Unexpected, during: None }));
    let (state, request) = state.step(Answer::Started);
    assert!(matches!(state, Store::Failed));
    assert!(matches!(request, Request::Abort { error: Error::Unexpected, during: None }));
}

#[test]
fn menu_lists_the_fields_sorted_by_display_line() {
    let data = record(&[("zeta", "1"), ("password", "zzz"), ("alpha", "2"), ("Token", "aaa")]);
    assert_eq!(
        menu(&data),
        strings(&[ADD, COMPLETE, "Token: ********", "alpha: 2", "password: ********", "zeta: 1"])
    );
    assert_eq!(menu(&Secret::new()), strings(&[ADD, COMPLETE]));
}

#[test]
fn retrieve_types_the_raw_value() {
    let mut backend = Backend::with(&[("wifi", &[("password", "xyz")])]);
    let mut picker = Picker::answering(&[Some("wifi"), Some("password")]);
    assert_eq!(run_retrieve(&mut backend, &mut picker), Ok(()));
    assert_eq!(backend.typed, strings(&["xyz"]));
    assert_eq!(backend.persist_calls, 0);
    assert_eq!(
        picker.shown,
        vec![
            ("select", strings(&["wifi"]), "Select secret".to_string()),
            ("select", strings(&["password"]), "Field".to_string()),
        ]
    );
}

#[test]
fn retrieve_lists_records_sorted_and_fields_as_entered() {
    let mut backend = Backend::with(&[
        ("zoo", &[("a", "1")]),
        ("bank", &[("user", "u"), ("pin", "1234"), ("iban", "DE00")]),
        ("Mail", &[("b", "2")]),
    ]);
    let mut picker = Picker::answering(&[Some("bank"), Some("pin")]);
    assert_eq!(run_retrieve(&mut backend, &mut picker), Ok(()));
    assert_eq!(backend.typed, strings(&["1234"]));
    assert_eq!(picker.shown[0].1, strings(&["Mail", "bank", "zoo"]));
    let mut offered = picker.shown[1].1.clone();
    offered.sort();
    assert_eq!(offered, strings(&["iban", "pin", "user"]));
}

#[test]
fn retrieve_fails_on_a_record_without_fields() {
    let mut backend = Backend::with(&[("empty", &[])]);
    let mut picker = Picker::answering(&[Some("empty")]);
    assert_eq!(run_retrieve(&mut backend, &mut picker), Err((Error::EmptyRecord, None)));
    assert!(backend.typed.is_empty());
    assert_eq!(picker.shown.len(), 1);
}

#[test]
fn retrieve_fails_on_an_ambiguous_label() {
    let mut backend = Backend::with(&[("dup", &[("a", "1")]), ("dup", &[("b", "2")])]);
    let mut picker = Picker::answering(&[Some("dup")]);
    assert_eq!(
        run_retrieve(&mut backend, &mut picker),
        Err((Error::Ambiguous { label: "dup".to_string() }, Some(Step::LoadRecord)))
    );
    assert!(backend.typed.is_empty());
    assert_eq!(backend.persist_calls, 0);
    assert_eq!(picker.shown.len(), 1);
}

#[test]
fn retrieve_fails_when_nothing_is_chosen() {
    let mut backend = Backend::with(&[]);
    let mut picker = Picker::answering(&[None]);
    assert_eq!(run_retrieve(&mut backend, &mut picker), Err((Error::Picker, Some(Step::SelectRecord))));
    assert_eq!(picker.shown, vec![("select", strings(&[]), "Select secret".to_string())]);

    let mut backend = Backend::with(&[("wifi", &[("password", "xyz")])]);
    let mut picker = Picker::answering(&[Some("wifi"), None]);
    assert_eq!(run_retrieve(&mut backend, &mut picker), Err((Error::Picker, Some(Step::SelectField))));
    assert!(backend.typed.is_empty());
}

#[test]
fn retrieve_reports_a_missing_record_and_a_failed_typing() {
    let (state, _) = Retrieve::start();
    let (state, _) = state.step(Answer::Labels(strings(&["wifi"])));
    let (state, request) = state.step(Answer::Line("wifi".to_string()));
    assert!(matches!(request, Request::Fetch { ref label } if label == "wifi"));
    let (state, request) = state.step(Answer::Failed(Error::NotFound { label: "wifi".to_string() }));
    assert!(matches!(state, Retrieve::Failed));
    match request {
        Request::Abort { error, during } => {
            assert_eq!(error, Error::NotFound { label: "wifi".to_string() });
            assert_eq!(during, Some(Step::LoadRecord));
        }
        other => panic!("unexpected request {:?}", other),
    }

    let (state, _) = Retrieve::start();
    let (state, _) = state.step(Answer::Labels(strings(&["wifi"])));
    let (state, _) = state.step(Answer::Line("wifi".to_string()));
    let (state, _) = state.step(Answer::Record(record(&[("password", "xyz")])));
    let (state, request) = state.step(Answer::Line("password".to_string()));
    assert!(matches!(request, Request::Type { ref text } if text == "xyz"));
    let (state, request) = state.step(Answer::Failed(Error::Injection));
    assert!(matches!(state, Retrieve::Failed));
    assert!(matches!(
        request,
        Request::Abort { error: Error::Injection, during: Some(Step::TypeValue) }
    ));
}

#[test]
fn retrieve_gives_up_on_a_field_that_was_not_on_offer() {
    let (state, _) = Retrieve::start();
    let (state, _) = state.step(Answer::Labels(strings(&["wifi"])));
    let (state, _) = state.step(Answer::Line("wifi".to_string()));
    let (state, _) = state.step(Answer::Record(record(&[("password", "xyz")])));
    let (state, request) = state.step(Answer::Line("Password".to_string()));
    assert!(matches!(state, Retrieve::Failed));
    assert!(matches!(request, Request::Abort { error: Error::Unexpected, during: None }));
}
