//! The wire codec: parsing and serialization of the two protocol commands.
//!
//! A protocol line is text terminated by a single newline.  `PUBLISH <msg>\n`
//! publishes `<msg>` (which may be empty and may contain spaces, but no
//! newline); `RETRIEVE\n` asks for a snapshot of the mailbox.

use vstd::prelude::*;
use vstd::string::StrSliceExecFns;
use vstd::string::StringExecFns;

use crate::text::find_char;
use crate::text::lemma_find_props;
use crate::text::spec_find;
use crate::text::str_eq;

verus! {

/// A parsed protocol command.
#[derive(Eq, PartialEq, Debug)]
pub enum Command {
    Publish(String),
    Retrieve,
}

/// Why a protocol line was rejected.
#[derive(Eq, PartialEq, Debug)]
pub enum Error {
    MissingNewline,
    NewlineInMessage,
    Malformed(String),
    UnknownVerb,
}

/// Mathematical model of a command: the payload as a sequence of characters.
pub enum SpecCommand {
    Publish(Seq<char>),
    Retrieve,
}

/// Mathematical model of a parse error.
pub enum SpecError {
    MissingNewline,
    NewlineInMessage,
    Malformed(Seq<char>),
    UnknownVerb,
}

impl View for Command {
    type V = SpecCommand;

    open spec fn view(&self) -> SpecCommand {
        match self {
            Command::Publish(m) => SpecCommand::Publish(m@),
            Command::Retrieve => SpecCommand::Retrieve,
        }
    }
}

impl View for Error {
    type V = SpecError;

    open spec fn view(&self) -> SpecError {
        match self {
            Error::MissingNewline => SpecError::MissingNewline,
            Error::NewlineInMessage => SpecError::NewlineInMessage,
            Error::Malformed(d) => SpecError::Malformed(d@),
            Error::UnknownVerb => SpecError::UnknownVerb,
        }
    }
}

/// The exact text that serializing a command produces.
pub open spec fn spec_serialize(c: SpecCommand) -> Seq<char> {
    match c {
        SpecCommand::Publish(m) => "PUBLISH "@ + m + "\n"@,
        SpecCommand::Retrieve => "RETRIEVE\n"@,
    }
}

impl Command {
    /// Render the command in wire format: `PUBLISH <msg>\n` or `RETRIEVE\n`.
    pub fn as_string(&self) -> (r: String)
        ensures
            r@ == spec_serialize(self@),
    {
        match self {
            Command::Publish(payload) => {
                let mut s = String::from_str("PUBLISH ");
                s.append(payload.as_str());
                s.append("\n");
                s
            },
            Command::Retrieve => String::from_str("RETRIEVE\n"),
        }
    }
}

/// The verb of a line with its newline already stripped: everything up to the
/// first space, or the whole line when it has no space.
pub open spec fn spec_verb(line: Seq<char>) -> Seq<char> {
    match spec_find(line, ' ') {
        Some(i) => line.take(i),
        None => line,
    }
}

/// The payload of a `PUBLISH` line with its newline already stripped:
/// everything after the first space, or empty when it has no space.
pub open spec fn spec_payload(line: Seq<char>) -> Seq<char> {
    match spec_find(line, ' ') {
        Some(i) => line.skip(i + 1),
        None => Seq::empty(),
    }
}

/// Interpretation of a line whose single newline is its last character.
pub open spec fn spec_parse_line(s: Seq<char>) -> Result<SpecCommand, SpecError> {
    let line = s.drop_last();
    let verb = spec_verb(line);
    if verb == "PUBLISH"@ {
        Ok(SpecCommand::Publish(spec_payload(line)))
    } else if verb == "RETRIEVE"@ {
        if spec_find(line, ' ') is None {
            Ok(SpecCommand::Retrieve)
        } else {
            Err(SpecError::Malformed("Malformed: "@ + s))
        }
    } else {
        Err(SpecError::UnknownVerb)
    }
}

/// The whole grammar, checks in protocol order: a missing newline and a
/// misplaced newline are reported before any verb is looked at.
pub open spec fn spec_parse(s: Seq<char>) -> Result<SpecCommand, SpecError> {
    match spec_find(s, '\n') {
        None => Err(SpecError::MissingNewline),
        Some(i) => if i != s.len() - 1 {
            Err(SpecError::NewlineInMessage)
        } else {
            spec_parse_line(s)
        },
    }
}

/// The model of a parse result: both sides taken to their views.
pub open spec fn spec_result(r: Result<Command, Error>) -> Result<SpecCommand, SpecError> {
    match r {
        Ok(c) => Ok(c@),
        Err(e) => Err(e@),
    }
}

/// Parse one protocol line.
///
/// Returns the command the line encodes, or says exactly what is wrong with
/// it: no newline at all, a newline before the end, extra payload after
/// `RETRIEVE`, or an unknown verb.
pub fn parse(input: &str) -> (r: Result<Command, Error>)
    ensures
        spec_result(r) == spec_parse(input@),
{
    let len = input.unicode_len();
    let nl = find_char(input, '\n');
    match nl {
        None => Err(Error::MissingNewline),
        Some(i) => {
            proof {
                lemma_find_props(input@, '\n');
            }
            if i + 1 != len {
                Err(Error::NewlineInMessage)
            } else {
                let line = input.substring_char(0, len - 1);
                proof {
                    assert(line@ =~= input@.drop_last());
                }
                let sp = find_char(line, ' ');
                proof {
                    lemma_find_props(line@, ' ');
                }
                let verb = match sp {
                    Some(j) => line.substring_char(0, j),
                    None => line,
                };
                proof {
                    assert(verb@ == spec_verb(line@));
                }
                if str_eq(verb, "PUBLISH") {
                    let payload = match sp {
                        Some(j) => {
                            let p = line.substring_char(j + 1, len - 1);
                            String::from_str(p)
                        },
                        None => String::new(),
                    };
                    proof {
                        assert(payload@ == spec_payload(line@));
                    }
                    Ok(Command::Publish(payload))
                } else if str_eq(verb, "RETRIEVE") {
                    match sp {
                        None => Ok(Command::Retrieve),
                        Some(_) => {
                            let mut d = String::from_str("Malformed: ");
                            d.append(input);
                            Err(Error::Malformed(d))
                        },
                    }
                } else {
                    Err(Error::UnknownVerb)
                }
            }
        },
    }
}

/// The diagnostic text for each parse error, as it is logged.
pub open spec fn spec_error_message(e: SpecError) -> Seq<char> {
    match e {
        SpecError::Malformed(d) => "malformed string: "@ + d,
        SpecError::MissingNewline => "missing newline at the end of the string"@,
        SpecError::NewlineInMessage => "newline is not at the end of the string"@,
        SpecError::UnknownVerb => "verb is unknown"@,
    }
}

impl Error {
    /// Render the error for logs and diagnostics.
    pub fn message(&self) -> (r: String)
        ensures
            r@ == spec_error_message(self@),
    {
        match self {
            Error::Malformed(d) => {
                let mut s = String::from_str("malformed string: ");
                s.append(d.as_str());
                s
            },
            Error::MissingNewline => String::from_str(
                "missing newline at the end of the string",
            ),
            Error::NewlineInMessage => String::from_str(
                "newline is not at the end of the string",
            ),
            Error::UnknownVerb => String::from_str("verb is unknown"),
        }
    }
}

/// Parsing undoes serialization of a publish: for every message without a
/// newline, `PUBLISH <msg>\n` parses back to exactly that message.
pub proof fn lemma_parse_serialize_publish(m: Seq<char>)
    requires
        !m.contains('\n'),
    ensures
        spec_parse(spec_serialize(SpecCommand::Publish(m))) == Ok::<SpecCommand, SpecError>(
            SpecCommand::Publish(m),
        ),
{
    reveal_strlit("PUBLISH ");
    reveal_strlit("PUBLISH");
    reveal_strlit("\n");
    let s = "PUBLISH "@ + m + "\n"@;
    assert(s.len() == m.len() + 9);
    assert(s[s.len() - 1] == '\n');
    assert forall|j: int| 0 <= j < s.len() - 1 implies s[j] != '\n' by {
        if 8 <= j < s.len() - 1 {
            assert(s[j] == m[j - 8]);
            if s[j] == '\n' {
                assert(m.contains('\n'));
            }
        }
    }
    crate::text::lemma_find_is_first(s, '\n', s.len() - 1);
    let line = s.drop_last();
    assert(line =~= "PUBLISH "@ + m);
    assert(line[7] == ' ');
    crate::text::lemma_find_is_first(line, ' ', 7);
    assert(spec_verb(line) =~= "PUBLISH"@);
    assert(spec_payload(line) =~= m);
}

/// Parsing undoes serialization of a retrieve: `RETRIEVE\n` parses back to
/// the retrieve command.
pub proof fn lemma_parse_serialize_retrieve()
    ensures
        spec_parse(spec_serialize(SpecCommand::Retrieve)) == Ok::<SpecCommand, SpecError>(
            SpecCommand::Retrieve,
        ),
{
    reveal_strlit("RETRIEVE\n");
    reveal_strlit("RETRIEVE");
    reveal_strlit("PUBLISH");
    let s = "RETRIEVE\n"@;
    assert(s.len() == 9);
    assert(s[8] == '\n');
    assert(forall|j: int| 0 <= j < 8 ==> s[j] != '\n');
    crate::text::lemma_find_is_first(s, '\n', 8);
    let line = s.drop_last();
    assert(forall|j: int| 0 <= j < line.len() ==> line[j] != ' ');
    crate::text::lemma_find_none(line, ' ');
    assert(spec_verb(line) == line);
    assert(line =~= "RETRIEVE"@);
    assert(line != "PUBLISH"@);
}

} // verus!
