//! The command translator: it dispatches a parsed command to the store,
//! maps the reply to the canonical response shape, and drives the
//! echo/command session's request-and-reply rule.

use vstd::prelude::*;
use crate::ascii::eq_ignore_case;
use crate::command::{is_ping, parse_command, parse_model, Command, CommandModel};
use crate::response::{data_view, json_doc, response_to_json, CommandResponse, ResponseCode};
use crate::store::{lookup, Store};

verus! {

/// Outcome of an engine write.
pub enum WriteStatus {
    Done,
    Failed,
}

/// Outcome of an engine read: a value (or none, for an absent key), or a
/// read failure.
pub enum ReadReply {
    Value(Option<String>),
    Failed,
}

/// The store contents after one command: `set` binds the key, `del`
/// unbinds it, `get` changes nothing.
pub open spec fn store_after(m: Map<Seq<char>, Seq<char>>, cmd: CommandModel) -> Map<
    Seq<char>,
    Seq<char>,
> {
    match cmd {
        CommandModel::Write(k, v) => m.insert(k, v),
        CommandModel::Read(_) => m,
        CommandModel::Delete(k) => m.remove(k),
    }
}

/// The payload a command run against store contents `m` answers with:
/// nothing for `set`, the bound value (if any) for `get`, and the delete
/// count for `del`.
pub open spec fn model_data(m: Map<Seq<char>, Seq<char>>, cmd: CommandModel) -> Option<Seq<char>> {
    match cmd {
        CommandModel::Write(_, _) => None,
        CommandModel::Read(k) => lookup(m, k),
        CommandModel::Delete(k) => Some(if m.contains_key(k) { "1"@ } else { "0"@ }),
    }
}

/// The response for a write reply: success carries no payload; an engine
/// failure is reported with the failure code.
pub fn response_for_write(status: WriteStatus) -> (r: CommandResponse)
    ensures
        r.code == (match status {
            WriteStatus::Done => ResponseCode::Okay,
            WriteStatus::Failed => ResponseCode::Failed,
        }),
        r.data is None,
{
    match status {
        WriteStatus::Done => CommandResponse { code: ResponseCode::Okay, data: None },
        WriteStatus::Failed => CommandResponse { code: ResponseCode::Failed, data: None },
    }
}

/// The response for a read reply: a missing key answers `Ok` with no
/// payload, a found value answers `Ok` with the value, and only a read
/// failure answers with the failure code.
pub fn response_for_read(reply: ReadReply) -> (r: CommandResponse)
    ensures
        r.code == (match reply {
            ReadReply::Value(_) => ResponseCode::Okay,
            ReadReply::Failed => ResponseCode::Failed,
        }),
        data_view(r.data) == (match reply {
            ReadReply::Value(d) => data_view(d),
            ReadReply::Failed => None::<Seq<char>>,
        }),
{
    match reply {
        ReadReply::Value(d) => CommandResponse { code: ResponseCode::Okay, data: d },
        ReadReply::Failed => CommandResponse { code: ResponseCode::Failed, data: None },
    }
}

/// The response for a delete: `Ok`, with `"1"` when the key was held and
/// `"0"` when it was not.
pub fn response_for_delete(existed: bool) -> (r: CommandResponse)
    ensures
        r.code == ResponseCode::Okay,
        data_view(r.data) == Some(if existed { "1"@ } else { "0"@ }),
{
    if existed {
        CommandResponse { code: ResponseCode::Okay, data: Some("1".to_owned()) }
    } else {
        CommandResponse { code: ResponseCode::Okay, data: Some("0".to_owned()) }
    }
}

/// Runs one parsed command against the model store and shapes its
/// response; the model engine itself never fails, so the code is always
/// `Ok`.
pub fn run_command(store: &mut Store, cmd: &Command) -> (r: CommandResponse)
    ensures
        final(store)@ == store_after(old(store)@, cmd@),
        r.code == ResponseCode::Okay,
        data_view(r.data) == model_data(old(store)@, cmd@),
{
    match cmd {
        Command::Write(k, v) => {
            store.put(k.as_str(), v.as_str());
            response_for_write(WriteStatus::Done)
        },
        Command::Read(k) => response_for_read(ReadReply::Value(store.get(k.as_str()))),
        Command::Delete(k) => response_for_delete(store.del(k.as_str())),
    }
}

/// Parses one command line and runs it against the model store.  A line
/// that does not parse (missing token or unknown verb) answers with the
/// failure code and no payload, and leaves the store as it was.
pub fn translate_line(store: &mut Store, line: &str) -> (r: CommandResponse)
    ensures
        match parse_model(line@) {
            Ok(c) => final(store)@ == store_after(old(store)@, c) && r.code == ResponseCode::Okay
                && data_view(r.data) == model_data(old(store)@, c),
            Err(_) => final(store)@ == old(store)@ && r.code == ResponseCode::Failed
                && r.data is None,
        },
{
    match parse_command(line) {
        Ok(cmd) => run_command(store, &cmd),
        Err(_) => CommandResponse { code: ResponseCode::Failed, data: None },
    }
}

/// One inbound frame of a session, as the socket hands it over: a text
/// frame, a binary frame, or the end of the connection (a closed or
/// erroring receive).
pub enum Frame {
    Text(String),
    Binary,
    Closed,
}

/// What the echo/command session answers for one text frame `t` received
/// over store contents `pre`: `PONG` for the keep-alive word in any letter
/// case, otherwise the JSON response of the command line run through the
/// translator, with `post` the store contents afterwards.
pub open spec fn echo_reply_spec(
    pre: Map<Seq<char>, Seq<char>>,
    t: Seq<char>,
    o: Seq<char>,
    post: Map<Seq<char>, Seq<char>>,
) -> bool {
    if eq_ignore_case(t, "ping"@) {
        o == "PONG"@ && post == pre
    } else {
        match parse_model(t) {
            Ok(c) => post == store_after(pre, c) && o == json_doc(
                ResponseCode::Okay,
                model_data(pre, c),
            ),
            Err(_) => post == pre && o == json_doc(ResponseCode::Failed, None),
        }
    }
}

/// The reply the echo/command session sends for one text frame.
pub fn echo_reply(store: &mut Store, text: &str) -> (out: String)
    ensures
        echo_reply_spec(old(store)@, text@, out@, final(store)@),
{
    if is_ping(text) {
        "PONG".to_owned()
    } else {
        let r = translate_line(store, text);
        response_to_json(&r)
    }
}

/// The echo/command session: it starts open and closes for good on a
/// binary frame or a closed receive.
pub struct EchoSession {
    pub open: bool,
}

impl EchoSession {
    /// A session right after the upgrade handshake: open.
    pub fn new() -> (s: EchoSession)
        ensures
            s.open,
    {
        EchoSession { open: true }
    }

    /// One receive of the session loop: a text frame is answered in
    /// order, one reply per request; a binary frame or a closed receive
    /// ends the session, and a closed session stays closed and silent.
    pub fn step(&mut self, store: &mut Store, frame: &Frame) -> (out: Option<String>)
        ensures
            !old(self).open ==> !final(self).open && out is None && final(store)@ == old(store)@,
            old(self).open ==> match frame {
                Frame::Text(t) => final(self).open && (out matches Some(o) && echo_reply_spec(
                    old(store)@,
                    t@,
                    o@,
                    final(store)@,
                )),
                _ => !final(self).open && out is None && final(store)@ == old(store)@,
            },
    {
        if !self.open {
            return None;
        }
        match frame {
            Frame::Text(t) => Some(echo_reply(store, t.as_str())),
            Frame::Binary => {
                self.open = false;
                None
            },
            Frame::Closed => {
                self.open = false;
                None
            },
        }
    }
}

/// The fixed heartbeat frame the health session sends once a second.
pub fn health_frame() -> (r: String)
    ensures
        r@ == "PING"@,
{
    "PING".to_owned()
}

/// The heartbeat session: it reads nothing, emits one fixed frame per
/// tick, and closes for good the first time a send fails.
pub struct HealthSession {
    pub open: bool,
}

impl HealthSession {
    /// A session right after the upgrade handshake: open.
    pub fn new() -> (s: HealthSession)
        ensures
            s.open,
    {
        HealthSession { open: true }
    }

    /// The frame to send this tick: the fixed heartbeat while the
    /// session is open, nothing once it closed.
    pub fn frame(&self) -> (out: Option<String>)
        ensures
            self.open ==> (out matches Some(o) && o@ == "PING"@),
            !self.open ==> out is None,
    {
        if self.open {
            Some(health_frame())
        } else {
            None
        }
    }

    /// Records how the send went: a failed send closes the session, and
    /// nothing reopens it.
    pub fn note_send(&mut self, ok: bool)
        ensures
            final(self).open == (old(self).open && ok),
    {
        if !ok {
            self.open = false;
        }
    }
}

/// Law: writing a key and then reading it answers with exactly the value
/// just written.
pub proof fn lemma_set_then_get(m: Map<Seq<char>, Seq<char>>, k: Seq<char>, v: Seq<char>)
    ensures
        model_data(store_after(m, CommandModel::Write(k, v)), CommandModel::Read(k)) == Some(v),
{
}

/// Whether a command writes the given key.
pub open spec fn writes(cmd: CommandModel, k: Seq<char>) -> bool {
    cmd matches CommandModel::Write(k2, _) && k2 == k
}

/// The store contents after a run of commands, executed in order.
pub open spec fn store_after_all(m: Map<Seq<char>, Seq<char>>, cmds: Seq<CommandModel>) -> Map<
    Seq<char>,
    Seq<char>,
>
    decreases cmds.len(),
{
    if cmds.len() == 0 {
        m
    } else {
        store_after_all(store_after(m, cmds[0]), cmds.drop_first())
    }
}

/// Law: a key that no executed command ever wrote is absent, so reading
/// it answers `Ok` with no payload; only an engine read failure answers
/// with the failure code.
pub proof fn lemma_unwritten_key_reads_none(cmds: Seq<CommandModel>, k: Seq<char>)
    requires
        forall|i: int| 0 <= i < cmds.len() ==> !writes(cmds[i], k),
    ensures
        model_data(store_after_all(Map::empty(), cmds), CommandModel::Read(k)) == None::<Seq<char>>,
{
    lemma_no_write_keeps_absent(Map::empty(), cmds, k);
}

/// A run of commands none of which writes `k` never makes `k` present.
proof fn lemma_no_write_keeps_absent(
    m: Map<Seq<char>, Seq<char>>,
    cmds: Seq<CommandModel>,
    k: Seq<char>,
)
    requires
        !m.contains_key(k),
        forall|i: int| 0 <= i < cmds.len() ==> !writes(cmds[i], k),
    ensures
        !store_after_all(m, cmds).contains_key(k),
    decreases cmds.len(),
{
    if cmds.len() > 0 {
        lemma_no_write_keeps_absent(store_after(m, cmds[0]), cmds.drop_first(), k);
    }
}

/// Law: deleting an absent key answers `"0"` and changes nothing;
/// deleting a bound key answers `"1"`, and a following read of that key
/// answers `Ok` with no payload.
pub proof fn lemma_delete_semantics(m: Map<Seq<char>, Seq<char>>, k: Seq<char>)
    ensures
        !m.contains_key(k) ==> model_data(m, CommandModel::Delete(k)) == Some("0"@) && store_after(
            m,
            CommandModel::Delete(k),
        ) == m,
        m.contains_key(k) ==> model_data(m, CommandModel::Delete(k)) == Some("1"@) && model_data(
            store_after(m, CommandModel::Delete(k)),
            CommandModel::Read(k),
        ) == None::<Seq<char>>,
{
    if !m.contains_key(k) {
        assert(m.remove(k) =~= m);
    }
}

} // verus!
