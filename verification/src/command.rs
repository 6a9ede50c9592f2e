//! Command-line parsing: one whitespace-delimited line is split on single
//! spaces into a verb, a key, and — for `set` — a value.

use vstd::prelude::*;
use crate::ascii::{eq_ignore_case, str_eq_ignore_case};

verus! {

/// One translated engine command.
pub enum Command {
    /// `set key value`: write the value under the key.
    Write(String, String),
    /// `get key`: read the key.
    Read(String),
    /// `del key`: remove the key.
    Delete(String),
}

/// Spec-level image of a command: the verb with its argument contents.
pub enum CommandModel {
    Write(Seq<char>, Seq<char>),
    Read(Seq<char>),
    Delete(Seq<char>),
}

impl View for Command {
    type V = CommandModel;

    open spec fn view(&self) -> CommandModel {
        match self {
            Command::Write(k, v) => CommandModel::Write(k@, v@),
            Command::Read(k) => CommandModel::Read(k@),
            Command::Delete(k) => CommandModel::Delete(k@),
        }
    }
}

/// Why a command line was refused.
#[derive(Clone, Copy, PartialEq, Eq, Structural, Debug)]
pub enum CommandError {
    /// A required token (the key, or the value of `set`) is missing.
    Malformed,
    /// The verb is none of `set`, `get`, `del`.
    UnknownVerb,
}

/// The end of the token that starts at `from`: the position of the first
/// space at or after `from`, or the end of the line.
pub open spec fn token_end(s: Seq<char>, from: int) -> int
    decreases s.len() - from,
{
    if from < 0 || from >= s.len() {
        s.len() as int
    } else if s[from] == ' ' {
        from
    } else {
        token_end(s, from + 1)
    }
}

/// `token_end` names the first space at or after `from`.
pub proof fn lemma_token_end(s: Seq<char>, from: int)
    requires
        0 <= from <= s.len(),
    ensures
        from <= token_end(s, from) <= s.len(),
        token_end(s, from) < s.len() ==> s[token_end(s, from)] == ' ',
        forall|j: int| from <= j < token_end(s, from) ==> s[j] != ' ',
    decreases s.len() - from,
{
    if from < s.len() && s[from] != ' ' {
        lemma_token_end(s, from + 1);
    }
}

/// Scans to the end of the token that starts at `from`.
fn token_end_exec(s: &str, from: usize) -> (r: usize)
    requires
        from <= s@.len(),
    ensures
        r == token_end(s@, from as int),
{
    let len = s.unicode_len();
    let mut i = from;
    while i < len && s.get_char(i) != ' '
        invariant
            from <= i <= len,
            len == s@.len(),
            token_end(s@, from as int) == token_end(s@, i as int),
        decreases len - i,
    {
        i += 1;
    }
    i
}

/// The parse of one command line.  Tokens are split on single spaces; the
/// first is the verb (in any letter case), the second the key, and for
/// `set` the third is the value; any further tokens are ignored.  A line
/// without a key token, or a `set` without a value token, is `Malformed`;
/// an unrecognized verb is `UnknownVerb`.
pub open spec fn parse_model(s: Seq<char>) -> Result<CommandModel, CommandError> {
    let e1 = token_end(s, 0);
    let verb = s.subrange(0, e1);
    if e1 >= s.len() {
        Err(CommandError::Malformed)
    } else {
        let e2 = token_end(s, e1 + 1);
        let key = s.subrange(e1 + 1, e2);
        if eq_ignore_case(verb, "set"@) {
            if e2 >= s.len() {
                Err(CommandError::Malformed)
            } else {
                let e3 = token_end(s, e2 + 1);
                Ok(CommandModel::Write(key, s.subrange(e2 + 1, e3)))
            }
        } else if eq_ignore_case(verb, "get"@) {
            Ok(CommandModel::Read(key))
        } else if eq_ignore_case(verb, "del"@) {
            Ok(CommandModel::Delete(key))
        } else {
            Err(CommandError::UnknownVerb)
        }
    }
}

/// The spec-level image of a parse result.
pub open spec fn parsed_view(r: Result<Command, CommandError>) -> Result<
    CommandModel,
    CommandError,
> {
    match r {
        Ok(c) => Ok(c@),
        Err(e) => Err(e),
    }
}

/// Parses one command line, exactly as `parse_model` states it.
pub fn parse_command(line: &str) -> (r: Result<Command, CommandError>)
    ensures
        parsed_view(r) == parse_model(line@),
{
    let len = line.unicode_len();
    let e1 = token_end_exec(line, 0);
    proof {
        lemma_token_end(line@, 0);
    }
    if e1 >= len {
        return Err(CommandError::Malformed);
    }
    let verb = line.substring_char(0, e1);
    let e2 = token_end_exec(line, e1 + 1);
    proof {
        lemma_token_end(line@, e1 + 1);
    }
    let key = line.substring_char(e1 + 1, e2).to_owned();
    if str_eq_ignore_case(verb, "set") {
        if e2 >= len {
            return Err(CommandError::Malformed);
        }
        let e3 = token_end_exec(line, e2 + 1);
        proof {
            lemma_token_end(line@, e2 + 1);
        }
        let value = line.substring_char(e2 + 1, e3).to_owned();
        Ok(Command::Write(key, value))
    } else if str_eq_ignore_case(verb, "get") {
        Ok(Command::Read(key))
    } else if str_eq_ignore_case(verb, "del") {
        Ok(Command::Delete(key))
    } else {
        Err(CommandError::UnknownVerb)
    }
}

/// Whether a frame's text is the keep-alive word `ping`, in any letter
/// case.
pub fn is_ping(text: &str) -> (r: bool)
    ensures
        r == eq_ignore_case(text@, "ping"@),
{
    str_eq_ignore_case(text, "ping")
}

/// Joins a verb and a key into the command line the gateway itself issues
/// for an item route.
pub fn command_line(verb: &str, key: &str) -> (r: String)
    ensures
        r@ == verb@ + seq![' '] + key@,
{
    let mut out = verb.to_owned();
    out.append(" ");
    out.append(key);
    proof {
        reveal_strlit(" ");
        assert(out@ =~= verb@ + seq![' '] + key@);
    }
    out
}

} // verus!
