//! The canonical result shape every gateway entry point returns, and its
//! JSON wire form.

use vstd::prelude::*;
use crate::ascii::push_char;

verus! {

/// Outcome class of one command, as reported to clients.
#[derive(Clone, Copy, PartialEq, Eq, Structural, Debug)]
pub enum ResponseCode {
    Okay,
    Failed,
    NotFound,
    NotAllowed,
}

/// The single canonical result shape: an outcome class and an optional
/// payload (a read value or a delete count).
pub struct CommandResponse {
    pub code: ResponseCode,
    pub data: Option<String>,
}

/// The character content of an optional payload string.
pub open spec fn data_view(d: Option<String>) -> Option<Seq<char>> {
    match d {
        Some(s) => Some(s@),
        None => None,
    }
}

/// The wire name of each outcome class.
pub open spec fn code_name(code: ResponseCode) -> Seq<char> {
    match code {
        ResponseCode::Okay => "Ok"@,
        ResponseCode::Failed => "Err"@,
        ResponseCode::NotFound => "NotFound"@,
        ResponseCode::NotAllowed => "NotAllowed"@,
    }
}

/// The JSON escape of one character inside a string literal: the two-letter
/// escapes of the JSON grammar, `\u00XX` for the remaining control
/// characters, and the character itself otherwise.
pub open spec fn escape_char(c: char) -> Seq<char> {
    if c == '"' {
        seq!['\\', '"']
    } else if c == '\\' {
        seq!['\\', '\\']
    } else if c as u32 == 0x08 {
        seq!['\\', 'b']
    } else if c as u32 == 0x0c {
        seq!['\\', 'f']
    } else if c == '\n' {
        seq!['\\', 'n']
    } else if c == '\r' {
        seq!['\\', 'r']
    } else if c == '\t' {
        seq!['\\', 't']
    } else if (c as u32) < 0x20 {
        seq!['\\', 'u', '0', '0', hex_digit((c as u32 / 16) as u8), hex_digit((c as u32 % 16) as u8)]
    } else {
        seq![c]
    }
}

/// The lowercase hexadecimal digit for a value below sixteen.
pub open spec fn hex_digit(n: u8) -> char {
    if n < 10 {
        (0x30 + n) as char
    } else {
        (0x57 + n) as char
    }
}

/// The JSON escape of a whole character sequence.
pub open spec fn escape(s: Seq<char>) -> Seq<char>
    decreases s.len(),
{
    if s.len() == 0 {
        Seq::empty()
    } else {
        escape_char(s[0]) + escape(s.drop_first())
    }
}

/// A JSON string literal holding `s`: quotes around the escaped content.
pub open spec fn json_string(s: Seq<char>) -> Seq<char> {
    seq!['"'] + escape(s) + seq!['"']
}

/// The JSON document for an outcome and an optional payload: an object
/// with the members `code` (the outcome's wire name) and `data` (the
/// payload as a JSON string, or `null`).
pub open spec fn json_doc(code: ResponseCode, data: Option<Seq<char>>) -> Seq<char> {
    "{\"code\":\""@ + code_name(code) + "\",\"data\":"@ + (match data {
        Some(d) => json_string(d),
        None => "null"@,
    }) + "}"@
}

/// The JSON document for a response value.
pub open spec fn response_json(r: CommandResponse) -> Seq<char> {
    json_doc(r.code, data_view(r.data))
}

/// Lowercase hexadecimal digit character for a value below sixteen.
fn hex_digit_exec(n: u8) -> (c: char)
    requires
        n < 16,
    ensures
        c == hex_digit(n),
{
    if n < 10 {
        (0x30 + n) as char
    } else {
        (0x57 + n) as char
    }
}

/// Appends the JSON escape of one character.
fn push_escaped_char(out: &mut String, c: char)
    ensures
        final(out)@ == old(out)@ + escape_char(c),
{
    if c == '"' {
        out.append("\\\"");
        proof {
            reveal_strlit("\\\"");
            assert(final(out)@ =~= old(out)@ + escape_char(c));
        }
    } else if c == '\\' {
        out.append("\\\\");
        proof {
            reveal_strlit("\\\\");
            assert(final(out)@ =~= old(out)@ + escape_char(c));
        }
    } else if c as u32 == 0x08 {
        out.append("\\b");
        proof {
            reveal_strlit("\\b");
            assert(final(out)@ =~= old(out)@ + escape_char(c));
        }
    } else if c as u32 == 0x0c {
        out.append("\\f");
        proof {
            reveal_strlit("\\f");
            assert(final(out)@ =~= old(out)@ + escape_char(c));
        }
    } else if c == '\n' {
        out.append("\\n");
        proof {
            reveal_strlit("\\n");
            assert(final(out)@ =~= old(out)@ + escape_char(c));
        }
    } else if c == '\r' {
        out.append("\\r");
        proof {
            reveal_strlit("\\r");
            assert(final(out)@ =~= old(out)@ + escape_char(c));
        }
    } else if c == '\t' {
        out.append("\\t");
        proof {
            reveal_strlit("\\t");
            assert(final(out)@ =~= old(out)@ + escape_char(c));
        }
    } else if (c as u32) < 0x20 {
        out.append("\\u00");
        let hi: u8 = ((c as u32) / 16) as u8;
        let lo: u8 = ((c as u32) % 16) as u8;
        let d1 = hex_digit_exec(hi);
        push_char(out, d1);
        let d2 = hex_digit_exec(lo);
        push_char(out, d2);
        proof {
            reveal_strlit("\\u00");
            assert(final(out)@ =~= old(out)@ + escape_char(c));
        }
    } else {
        push_char(out, c);
        proof {
            assert(final(out)@ =~= old(out)@ + escape_char(c));
        }
    }
}

/// `escape` distributes over appending one character.
proof fn lemma_escape_push(s: Seq<char>, c: char)
    ensures
        escape(s.push(c)) == escape(s) + escape_char(c),
    decreases s.len(),
{
    if s.len() == 0 {
        assert(s.push(c).drop_first() =~= s);
        assert(escape(s.push(c)) =~= escape(s) + escape_char(c));
    } else {
        assert(s.push(c).drop_first() =~= s.drop_first().push(c));
        lemma_escape_push(s.drop_first(), c);
        assert(escape(s.push(c)) =~= escape(s) + escape_char(c));
    }
}

/// Appends the JSON string literal holding `s`.
fn append_json_string(out: &mut String, s: &str)
    ensures
        final(out)@ == old(out)@ + json_string(s@),
{
    out.append("\"");
    proof {
        reveal_strlit("\"");
    }
    let len = s.unicode_len();
    let mut i: usize = 0;
    while i < len
        invariant
            0 <= i <= len,
            len == s@.len(),
            out@ == old(out)@ + seq!['"'] + escape(s@.take(i as int)),
        decreases len - i,
    {
        let c = s.get_char(i);
        proof {
            assert(s@.take(i as int).push(c) =~= s@.take(i + 1 as int));
            lemma_escape_push(s@.take(i as int), c);
        }
        push_escaped_char(out, c);
        i += 1;
    }
    out.append("\"");
    proof {
        assert(s@.take(len as int) =~= s@);
        assert(final(out)@ =~= old(out)@ + json_string(s@));
    }
}

/// Serializes a response as its JSON document, exactly as `response_json`
/// states it.
pub fn response_to_json(r: &CommandResponse) -> (out: String)
    ensures
        out@ == response_json(*r),
{
    let mut out = String::new();
    out.append("{\"code\":\"");
    match r.code {
        ResponseCode::Okay => out.append("Ok"),
        ResponseCode::Failed => out.append("Err"),
        ResponseCode::NotFound => out.append("NotFound"),
        ResponseCode::NotAllowed => out.append("NotAllowed"),
    }
    out.append("\",\"data\":");
    match &r.data {
        Some(d) => append_json_string(&mut out, d.as_str()),
        None => out.append("null"),
    }
    out.append("}");
    proof {
        assert(out@ =~= response_json(*r));
    }
    out
}

} // verus!
