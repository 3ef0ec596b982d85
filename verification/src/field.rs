//! A single key/value pair, its sensitivity and its masked display form.

use vstd::prelude::*;
use vstd::string::*;
use crate::error::Error;
use crate::text::{
    chars_of, contains_text, find, first_occurrence, is_first_occurrence,
    lemma_contains_text_in_context, lemma_first_occurrence_unique, occurs_at,
};

verus! {

/// What `str::to_lowercase` returns for a string with these characters.
pub uninterp spec fn lowercase(s: Seq<char>) -> Seq<char>;

/// The two characters that part key and value in a display string.
pub open spec fn separator() -> Seq<char> {
    seq![':', ' ']
}

/// What is shown in place of a sensitive value: eight asterisks, whatever
/// the length of the value.
pub open spec fn mask() -> Seq<char> {
    seq!['*', '*', '*', '*', '*', '*', '*', '*']
}

/// A lowercased key names something sensitive.
pub open spec fn has_marker(lowered: Seq<char>) -> bool {
    ||| contains_text(lowered, "password"@)
    ||| contains_text(lowered, "secret"@)
    ||| contains_text(lowered, "token"@)
}

/// A sensitive word stays where it is when text is put before and after:
/// a lowered key that names something sensitive still does so with any
/// text around it.
pub proof fn lemma_marker_survives_context(
    lowered: Seq<char>,
    before: Seq<char>,
    after: Seq<char>,
)
    requires
        has_marker(lowered),
    ensures
        has_marker(before + lowered + after),
{
    lemma_contains_text_in_context(lowered, "password"@, before, after);
    lemma_contains_text_in_context(lowered, "secret"@, before, after);
    lemma_contains_text_in_context(lowered, "token"@, before, after);
}

/// The sensitivity rule: a pure function of the key's text.
pub open spec fn key_is_sensitive(key: Seq<char>) -> bool {
    has_marker(lowercase(key))
}

/// The mathematical content of a [`Field`].
pub struct FieldView {
    pub key: Seq<char>,
    pub value: Seq<char>,
}

impl FieldView {
    pub open spec fn sensitive(self) -> bool {
        key_is_sensitive(self.key)
    }

    pub open spec fn display_value(self) -> Seq<char> {
        if self.sensitive() {
            mask()
        } else {
            self.value
        }
    }

    pub open spec fn display(self) -> Seq<char> {
        self.key + separator() + self.display_value()
    }
}

/// What a display string parses to: the text before the first separator is
/// the key, all that follows the separator is the value.
pub open spec fn parse_display(shown: Seq<char>) -> Option<FieldView> {
    if contains_text(shown, separator()) {
        let at = first_occurrence(shown, separator());
        Some(FieldView { key: shown.take(at), value: shown.skip(at + 2) })
    } else {
        None
    }
}

/// A display line built from a key that holds no separator parses back to
/// that key and to whatever was shown after the separator.
pub proof fn lemma_parse_display_line(key: Seq<char>, shown_value: Seq<char>)
    requires
        !contains_text(key, separator()),
    ensures
        parse_display(key + separator() + shown_value) == Some(
            FieldView { key, value: shown_value },
        ),
{
    let sep = separator();
    let line = key + sep + shown_value;
    let at = key.len() as int;
    assert(line.subrange(at, at + 2) =~= sep);
    assert forall|j: int| 0 <= j < at implies !occurs_at(line, sep, j) by {
        if occurs_at(line, sep, j) {
            let part = line.subrange(j, j + 2);
            assert(part[0] == ':' && part[1] == ' ');
            if j + 1 < at {
                assert(key.subrange(j, j + 2) =~= sep);
                assert(occurs_at(key, sep, j));
            } else {
                assert(line[j + 1] == sep[0]);
            }
        }
    }
    assert(is_first_occurrence(line, sep, at));
    lemma_first_occurrence_unique(line, sep, at);
    assert(line.take(at) =~= key);
    assert(line.skip(at + 2) =~= shown_value);
}

/// Round trip: a field that is not sensitive is read back from its display
/// line exactly, provided its key holds no separator of its own.
pub proof fn lemma_plain_field_roundtrip(field: FieldView)
    requires
        !field.sensitive(),
        !contains_text(field.key, separator()),
    ensures
        parse_display(field.display()) == Some(field),
{
    lemma_parse_display_line(field.key, field.value);
}

/// Masking is lossy: a sensitive field read back from its display line
/// keeps its key, and its value is the mask, not the value it had.
pub proof fn lemma_sensitive_field_reads_back_masked(field: FieldView)
    requires
        field.sensitive(),
        !contains_text(field.key, separator()),
    ensures
        parse_display(field.display()) == Some(FieldView { key: field.key, value: mask() }),
{
    lemma_parse_display_line(field.key, mask());
}

/// A line without a separator parses to nothing; one with a separator
/// always parses.
pub proof fn lemma_parse_display_fails_without_separator(shown: Seq<char>)
    ensures
        parse_display(shown) is None <==> !contains_text(shown, separator()),
{
}

/// A key/value pair of a record.
#[derive(Debug, PartialEq, Eq)]
pub struct Field {
    pub key: String,
    pub value: String,
}

impl View for Field {
    type V = FieldView;

    open spec fn view(&self) -> FieldView {
        FieldView { key: self.key@, value: self.value@ }
    }
}

impl Clone for Field {
    fn clone(&self) -> (out: Self)
        ensures
            out == *self,
    {
        Field { key: self.key.clone(), value: self.value.clone() }
    }
}

/// Calls `str::to_lowercase`, whose result is named `lowercase`.
#[verifier::external_body]
fn to_lowercase(s: &str) -> (lowered: String)
    ensures
        lowered@ == lowercase(s@),
{
    s.to_lowercase()
}

/// Whether an already lowercased key holds one of the sensitive words.
pub fn lowered_key_is_sensitive(lowered: &str) -> (b: bool)
    ensures
        b == has_marker(lowered@),
{
    let hay = chars_of(lowered);
    if find(&hay, &chars_of("password")).is_some() {
        return true;
    }
    if find(&hay, &chars_of("secret")).is_some() {
        return true;
    }
    find(&hay, &chars_of("token")).is_some()
}

impl Field {
    pub fn new(key: String, value: String) -> (field: Field)
        ensures
            field.key == key,
            field.value == value,
    {
        Field { key, value }
    }

    /// Whether a key names sensitive information: its lowercase form holds
    /// "password", "secret" or "token". The lowercase form is the one that
    /// `str::to_lowercase` gives, which follows Unicode beyond ASCII.
    pub fn is_key_sensitive(key: &str) -> (b: bool)
        ensures
            b == key_is_sensitive(key@),
    {
        let lowered = to_lowercase(key);
        lowered_key_is_sensitive(lowered.as_str())
    }

    /// Whether this field holds sensitive information, judged by its key.
    pub fn is_sensitive(&self) -> (b: bool)
        ensures
            b == self@.sensitive(),
    {
        Field::is_key_sensitive(self.key.as_str())
    }

    /// The value as it may be shown: the mask for a sensitive field, else
    /// the value itself.
    pub fn display_value(&self) -> (shown: String)
        ensures
            shown@ == self@.display_value(),
    {
        if self.is_sensitive() {
            proof {
                reveal_strlit("********");
                assert("********"@ =~= mask());
            }
            String::from_str("********")
        } else {
            self.value.clone()
        }
    }

    /// The line `key: value` under which the field is listed.
    pub fn display(&self) -> (shown: String)
        ensures
            shown@ == self@.display(),
    {
        proof {
            reveal_strlit(": ");
            assert(": "@ =~= separator());
        }
        let shown_value = self.display_value();
        self.key.clone().concat(": ").concat(shown_value.as_str())
    }

    /// Reads a field back from a display line, splitting at the first
    /// `": "`. The value is whatever was displayed, a mask included.
    pub fn parse_from_display(display: &str) -> (parsed: Result<Field, Error>)
        ensures
            parsed is Err <==> !contains_text(display@, separator()),
            match parsed {
                Ok(field) => parse_display(display@) == Some(field@),
                Err(e) => {
                    &&& parse_display(display@) is None
                    &&& e matches Error::Format { input }
                    &&& input@ == display@
                },
            },
    {
        proof {
            reveal_strlit(": ");
            assert(": "@ =~= separator());
        }
        let shown = chars_of(display);
        match find(&shown, &chars_of(": ")) {
            Some(at) => {
                proof {
                    lemma_first_occurrence_unique(display@, separator(), at as int);
                    assert(occurs_at(display@, separator(), at as int));
                    assert(separator().len() == 2);
                }
                let end = shown.len();
                let key = display.substring_char(0, at);
                let value = display.substring_char(at + 2, end);
                assert(key@ =~= display@.take(at as int));
                assert(value@ =~= display@.skip(at + 2));
                Ok(Field::new(String::from_str(key), String::from_str(value)))
            },
            None => Err(Error::Format { input: String::from_str(display) }),
        }
    }
}

} // verus!
