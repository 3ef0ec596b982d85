//! The picker: which command puts a prompt on screen, and how the answer
//! that it prints is read.

use vstd::prelude::*;
use vstd::string::*;
use vstd::utf8::{decode_utf8, valid_utf8};
use crate::error::Error;
use crate::text::{join_lines, joined, parse_index, parsed_index, texts, trim, trimmed, utf8_text};

verus! {

/// A command to run: the program, its arguments, and what to write to its
/// standard input, if anything.
#[derive(Debug)]
pub struct Invocation {
    pub program: String,
    pub args: Vec<String>,
    pub input: Option<String>,
}

/// What a finished command left: whether it exited successfully, and the
/// bytes it printed.
#[derive(Debug)]
pub struct Reply {
    pub success: bool,
    pub output: Vec<u8>,
}

/// The text of an optional placeholder.
pub open spec fn placeholder_text(placeholder: Option<&str>) -> Option<Seq<char>> {
    match placeholder {
        Some(text) => Some(text@),
        None => None,
    }
}

/// The arguments that show a placeholder in the prompt.
pub open spec fn placeholder_args(placeholder: Option<Seq<char>>) -> Seq<Seq<char>> {
    match placeholder {
        Some(text) => seq!["--placeholder"@, text],
        None => seq![],
    }
}

/// The arguments of a masked free-text prompt.
pub open spec fn password_args(placeholder: Option<Seq<char>>) -> Seq<Seq<char>> {
    seq!["--dmenu"@, "--lines"@, "0"@] + placeholder_args(placeholder) + seq!["--password"@]
}

/// The arguments of a plain free-text prompt.
pub open spec fn input_args(placeholder: Option<Seq<char>>) -> Seq<Seq<char>> {
    seq!["--dmenu"@, "--lines"@, "0"@] + placeholder_args(placeholder)
}

/// The arguments of a menu that answers with the index of the chosen line.
pub open spec fn index_args(placeholder: Option<Seq<char>>) -> Seq<Seq<char>> {
    seq!["--dmenu"@, "--index"@] + placeholder_args(placeholder)
}

/// The arguments of a menu that answers with the chosen or typed line.
pub open spec fn line_args(placeholder: Option<Seq<char>>) -> Seq<Seq<char>> {
    seq!["--dmenu"@] + placeholder_args(placeholder)
}

/// The text that a reply carries: the printed bytes read as UTF-8, without
/// the whitespace around them. A command that failed, or printed something
/// else than UTF-8, carries none.
pub open spec fn reply_text(success: bool, output: Seq<u8>) -> Option<Seq<char>> {
    if success && valid_utf8(output) {
        Some(trimmed(decode_utf8(output)))
    } else {
        None
    }
}

/// The index that a reply carries.
pub open spec fn reply_index(success: bool, output: Seq<u8>) -> Option<usize> {
    match reply_text(success, output) {
        Some(text) => parsed_index(text),
        None => None,
    }
}

/// The choice that a reply makes among `count` items: the index that it
/// carries, where that index names one of the items.
pub open spec fn reply_choice(success: bool, output: Seq<u8>, count: nat) -> Option<usize> {
    match reply_index(success, output) {
        Some(index) => if index < count {
            Some(index)
        } else {
            None
        },
        None => None,
    }
}

/// Adds the arguments for the placeholder, if there is one.
fn push_placeholder(args: &mut Vec<String>, placeholder: Option<&str>)
    ensures
        texts(final(args)@) == texts(old(args)@) + placeholder_args(placeholder_text(placeholder)),
{
    let ghost before = texts(args@);
    match placeholder {
        Some(text) => {
            args.push(String::from_str("--placeholder"));
            args.push(String::from_str(text));
            assert(texts(args@) =~= before + seq!["--placeholder"@, text@]);
        },
        None => {
            assert(texts(args@) =~= before + Seq::<Seq<char>>::empty());
        },
    }
}

/// The prompt in which the user types a password, unseen and without
/// suggestions.
pub fn request_password(placeholder: Option<&str>) -> (call: Invocation)
    ensures
        call.program@ == "fuzzel"@,
        texts(call.args@) == password_args(placeholder_text(placeholder)),
        call.input is None,
{
    let mut args: Vec<String> = Vec::new();
    args.push(String::from_str("--dmenu"));
    args.push(String::from_str("--lines"));
    args.push(String::from_str("0"));
    assert(texts(args@) =~= seq!["--dmenu"@, "--lines"@, "0"@]);
    push_placeholder(&mut args, placeholder);
    let ghost before = texts(args@);
    args.push(String::from_str("--password"));
    assert(texts(args@) =~= before + seq!["--password"@]);
    Invocation { program: String::from_str("fuzzel"), args, input: None }
}

/// The prompt in which the user types a line, without suggestions.
pub fn request_input(placeholder: Option<&str>) -> (call: Invocation)
    ensures
        call.program@ == "fuzzel"@,
        texts(call.args@) == input_args(placeholder_text(placeholder)),
        call.input is None,
{
    let mut args: Vec<String> = Vec::new();
    args.push(String::from_str("--dmenu"));
    args.push(String::from_str("--lines"));
    args.push(String::from_str("0"));
    assert(texts(args@) =~= seq!["--dmenu"@, "--lines"@, "0"@]);
    push_placeholder(&mut args, placeholder);
    Invocation { program: String::from_str("fuzzel"), args, input: None }
}

/// The menu that lists `items`, one per line, and answers with the index
/// of the chosen one.
pub fn select_index(items: &[String], placeholder: Option<&str>) -> (call: Invocation)
    ensures
        call.program@ == "fuzzel"@,
        texts(call.args@) == index_args(placeholder_text(placeholder)),
        call.input matches Some(lines) && lines@ == joined(texts(items@)),
{
    let mut args: Vec<String> = Vec::new();
    args.push(String::from_str("--dmenu"));
    args.push(String::from_str("--index"));
    assert(texts(args@) =~= seq!["--dmenu"@, "--index"@]);
    push_placeholder(&mut args, placeholder);
    Invocation { program: String::from_str("fuzzel"), args, input: Some(join_lines(items)) }
}

/// The menu that lists `items` as suggestions and answers with the chosen
/// line, or with what the user typed instead.
pub fn select_or_input(items: &[String], placeholder: Option<&str>) -> (call: Invocation)
    ensures
        call.program@ == "fuzzel"@,
        texts(call.args@) == line_args(placeholder_text(placeholder)),
        call.input matches Some(lines) && lines@ == joined(texts(items@)),
{
    let mut args: Vec<String> = Vec::new();
    args.push(String::from_str("--dmenu"));
    assert(texts(args@) =~= seq!["--dmenu"@]);
    push_placeholder(&mut args, placeholder);
    Invocation { program: String::from_str("fuzzel"), args, input: Some(join_lines(items)) }
}

/// Reads the line that a prompt answered with.
pub fn answer_text(reply: Reply) -> (answer: Result<String, Error>)
    ensures
        match answer {
            Ok(text) => reply_text(reply.success, reply.output@) == Some(text@),
            Err(e) => reply_text(reply.success, reply.output@) is None && e is Picker,
        },
{
    if !reply.success {
        return Err(Error::Picker);
    }
    match utf8_text(reply.output) {
        Some(printed) => Ok(trim(printed.as_str())),
        None => Err(Error::Picker),
    }
}

/// Reads the index that a menu over `count` items answered with. An index
/// that names none of the items is a failure of the picker.
pub fn answer_index(reply: Reply, count: usize) -> (answer: Result<usize, Error>)
    ensures
        match answer {
            Ok(index) => {
                &&& reply_choice(reply.success, reply.output@, count as nat) == Some(index)
                &&& reply_index(reply.success, reply.output@) == Some(index)
                &&& index < count
            },
            Err(e) => {
                &&& e is Picker
                &&& reply_choice(reply.success, reply.output@, count as nat) is None
                &&& reply_index(reply.success, reply.output@) matches Some(index) ==> index
                    >= count
            },
        },
{
    match answer_text(reply) {
        Ok(text) => match parse_index(text.as_str()) {
            Some(index) => {
                if index < count {
                    Ok(index)
                } else {
                    Err(Error::Picker)
                }
            },
            None => Err(Error::Picker),
        },
        Err(e) => Err(e),
    }
}

/// The item that a menu over `items` answered with: the one at the index
/// that the reply carries.
pub fn select(items: &[String], reply: Reply) -> (answer: Result<String, Error>)
    ensures
        match answer {
            Ok(item) => {
                &&& reply_choice(reply.success, reply.output@, items.len() as nat) matches Some(
                    index,
                )
                &&& item@ == items[index as int]@
            },
            Err(e) => {
                &&& e is Picker
                &&& reply_choice(reply.success, reply.output@, items.len() as nat) is None
            },
        },
{
    match answer_index(reply, items.len()) {
        Ok(index) => Ok(items[index].clone()),
        Err(e) => Err(e),
    }
}

} // verus!
