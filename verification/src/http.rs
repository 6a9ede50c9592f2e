//! The HTTP surface: the credential gate, the route table, and the
//! stateless per-request pipeline.  The authenticated login is carried as
//! the command identity but not yet enforced against per-command
//! authorization; the engine's credential check is the only gate.

use vstd::prelude::*;
use crate::ascii::str_eq;
use crate::body::{parse_body, parse_body_model};
use crate::command::{command_line, parse_command, parse_model, CommandError};
use crate::response::{data_view, CommandResponse, ResponseCode};
use crate::store::Store;
use crate::translate::{model_data, run_command, store_after, translate_line};

verus! {

/// Basic-Auth credentials as one connection presents them: extracted per
/// request, never cached or reused across connections.
pub struct Credentials {
    pub login: String,
    pub password: String,
}

/// How the credential gate answers one request.
pub enum AuthOutcome {
    /// No credentials came with the request.
    Missing,
    /// The engine rejected the credentials.
    Rejected,
    /// The engine accepted the credentials; the login is carried as the
    /// command identity.
    Granted(String),
}

/// Decides how one request stands with the credential gate: without
/// credentials it is `Missing`; with credentials it is `Granted`,
/// carrying the login, exactly when the engine accepted them, and
/// `Rejected` otherwise.
pub fn auth_outcome(creds: Option<Credentials>, engine_accepts: bool) -> (r: AuthOutcome)
    ensures
        match creds {
            None => r is Missing,
            Some(c) => if engine_accepts {
                r matches AuthOutcome::Granted(l) && l@ == c.login@
            } else {
                r is Rejected
            },
        },
{
    match creds {
        None => AuthOutcome::Missing,
        Some(c) => if engine_accepts {
            AuthOutcome::Granted(c.login)
        } else {
            AuthOutcome::Rejected
        },
    }
}

/// One matched route.
pub enum Route {
    /// `POST /process`: one command in a JSON body.
    ProcessPost,
    /// `GET /item/{key}`: read one key.
    ItemFetch(String),
    /// `DELETE /item/{key}`: delete one key.
    ItemDrop(String),
    /// `GET /ping`: the fixed liveness answer.
    Ping,
    /// `GET /process`, upgraded: the echo/command session.
    ProcessUpgrade,
    /// `GET /health`, upgraded: the heartbeat session.
    HealthUpgrade,
    /// `GET /monitor`, upgraded: the command-feed session.
    MonitorUpgrade,
    /// Anything else: an empty 404.
    Unknown,
}

/// Spec image of a matched route.
pub enum RouteModel {
    ProcessPost,
    ItemFetch(Seq<char>),
    ItemDrop(Seq<char>),
    Ping,
    ProcessUpgrade,
    HealthUpgrade,
    MonitorUpgrade,
    Unknown,
}

impl View for Route {
    type V = RouteModel;

    open spec fn view(&self) -> RouteModel {
        match self {
            Route::ProcessPost => RouteModel::ProcessPost,
            Route::ItemFetch(k) => RouteModel::ItemFetch(k@),
            Route::ItemDrop(k) => RouteModel::ItemDrop(k@),
            Route::Ping => RouteModel::Ping,
            Route::ProcessUpgrade => RouteModel::ProcessUpgrade,
            Route::HealthUpgrade => RouteModel::HealthUpgrade,
            Route::MonitorUpgrade => RouteModel::MonitorUpgrade,
            Route::Unknown => RouteModel::Unknown,
        }
    }
}

/// A path of the form `/item/{key}`, the key one slash-free segment
/// taken verbatim.
pub open spec fn is_item_path(p: Seq<char>) -> bool {
    p.len() >= 6 && p.subrange(0, 6) == "/item/"@ && forall|j: int| 6 <= j < p.len() ==> p[j] != '/'
}

/// The key segment of an item path.
pub open spec fn item_key(p: Seq<char>) -> Seq<char> {
    p.subrange(6, p.len() as int)
}

/// The route table of the gateway, method and path matched exactly.
pub open spec fn route_model(method: Seq<char>, path: Seq<char>) -> RouteModel {
    if method == "POST"@ && path == "/process"@ {
        RouteModel::ProcessPost
    } else if method == "GET"@ && path == "/process"@ {
        RouteModel::ProcessUpgrade
    } else if method == "GET"@ && path == "/ping"@ {
        RouteModel::Ping
    } else if method == "GET"@ && path == "/health"@ {
        RouteModel::HealthUpgrade
    } else if method == "GET"@ && path == "/monitor"@ {
        RouteModel::MonitorUpgrade
    } else if method == "GET"@ && is_item_path(path) {
        RouteModel::ItemFetch(item_key(path))
    } else if method == "DELETE"@ && is_item_path(path) {
        RouteModel::ItemDrop(item_key(path))
    } else {
        RouteModel::Unknown
    }
}

/// Whether the path is an item path, and its key segment.
fn match_item_path(path: &str) -> (r: Option<String>)
    ensures
        match r {
            Some(k) => is_item_path(path@) && k@ == item_key(path@),
            None => !is_item_path(path@),
        },
{
    let len = path.unicode_len();
    if len < 6 {
        return None;
    }
    if !str_eq(path.substring_char(0, 6), "/item/") {
        return None;
    }
    let mut j: usize = 6;
    while j < len
        invariant
            6 <= j <= len,
            len == path@.len(),
            forall|p: int| 6 <= p < j ==> path@[p] != '/',
        decreases len - j,
    {
        if path.get_char(j) == '/' {
            return None;
        }
        j += 1;
    }
    Some(path.substring_char(6, len).to_owned())
}

/// Matches one request line against the route table.
pub fn route(method: &str, path: &str) -> (r: Route)
    ensures
        r@ == route_model(method@, path@),
{
    let is_get = str_eq(method, "GET");
    if str_eq(method, "POST") && str_eq(path, "/process") {
        Route::ProcessPost
    } else if is_get && str_eq(path, "/process") {
        Route::ProcessUpgrade
    } else if is_get && str_eq(path, "/ping") {
        Route::Ping
    } else if is_get && str_eq(path, "/health") {
        Route::HealthUpgrade
    } else if is_get && str_eq(path, "/monitor") {
        Route::MonitorUpgrade
    } else if is_get || str_eq(method, "DELETE") {
        match match_item_path(path) {
            Some(k) => if is_get {
                Route::ItemFetch(k)
            } else {
                Route::ItemDrop(k)
            },
            None => Route::Unknown,
        }
    } else {
        Route::Unknown
    }
}

/// The session kinds a connection can be upgraded into.
#[derive(Clone, Copy, PartialEq, Eq, Structural, Debug)]
pub enum SessionKind {
    Echo,
    Health,
    Monitor,
}

/// What the router answers one request with.
pub enum HttpReply {
    /// The Basic-Auth challenge: a 401-equivalent login prompt.
    Challenge,
    /// A JSON `CommandResponse` document with status 200.
    Json(CommandResponse),
    /// An empty 400, for a malformed body or command line.
    BadRequest,
    /// An empty 404.
    NotFound,
    /// The upgrade of the connection into a long-lived session.
    Upgrade(SessionKind),
}

/// What running the command line of an item route answers: the line
/// always parses (its verb is fixed), but the relation is stated through
/// the shared translation path.
pub open spec fn item_reply_spec(
    pre: Map<Seq<char>, Seq<char>>,
    verb: Seq<char>,
    key: Seq<char>,
    r: HttpReply,
    post: Map<Seq<char>, Seq<char>>,
) -> bool {
    match parse_model(verb + seq![' '] + key) {
        Ok(c) => post == store_after(pre, c) && (r matches HttpReply::Json(resp)
            && resp.code == ResponseCode::Okay && data_view(resp.data) == model_data(pre, c)),
        Err(_) => post == pre && (r matches HttpReply::Json(resp) && resp.code
            == ResponseCode::Failed && resp.data is None),
    }
}

/// One stateless request through the whole pipeline, against the model
/// store: the credential gate first, then the route table, then body or
/// path parsing, then the shared translation path.  An unauthenticated
/// request of any route is challenged before any command runs; a
/// malformed body or command line is answered 400 with no command run;
/// an unknown verb is answered 404.
pub fn http_respond(
    store: &mut Store,
    auth: &AuthOutcome,
    method: &str,
    path: &str,
    body: Option<&str>,
) -> (r: HttpReply)
    ensures
        !(auth is Granted) ==> r is Challenge && final(store)@ == old(store)@,
        auth is Granted ==> match route_model(method@, path@) {
            RouteModel::ProcessPost => match body {
                None => r is BadRequest && final(store)@ == old(store)@,
                Some(b) => match parse_body_model(b@) {
                    None => r is BadRequest && final(store)@ == old(store)@,
                    Some(args) => match parse_model(args) {
                        Ok(c) => final(store)@ == store_after(old(store)@, c) && (r matches
                            HttpReply::Json(resp) && resp.code == ResponseCode::Okay && data_view(
                            resp.data,
                        ) == model_data(old(store)@, c)),
                        Err(CommandError::UnknownVerb) => r is NotFound && final(store)@ == old(store)@,
                        Err(CommandError::Malformed) => r is BadRequest && final(store)@ == old(store)@,
                    },
                },
            },
            RouteModel::ItemFetch(k) => item_reply_spec(old(store)@, "GET"@, k, r, final(store)@),
            RouteModel::ItemDrop(k) => item_reply_spec(old(store)@, "DEL"@, k, r, final(store)@),
            RouteModel::Ping => final(store)@ == old(store)@ && (r matches HttpReply::Json(resp)
                && resp.code == ResponseCode::Okay && data_view(resp.data) == Some("PONG"@)),
            RouteModel::ProcessUpgrade => r == HttpReply::Upgrade(SessionKind::Echo) && final(store)@ == old(store)@,
            RouteModel::HealthUpgrade => r == HttpReply::Upgrade(SessionKind::Health) && final(store)@ == old(store)@,
            RouteModel::MonitorUpgrade => r == HttpReply::Upgrade(SessionKind::Monitor) && final(store)@ == old(store)@,
            RouteModel::Unknown => r is NotFound && final(store)@ == old(store)@,
        },
{
    match auth {
        AuthOutcome::Granted(_) => {},
        _ => {
            return HttpReply::Challenge;
        },
    }
    let rt = route(method, path);
    match rt {
        Route::ProcessPost => {
            let b = match body {
                Some(b) => b,
                None => {
                    return HttpReply::BadRequest;
                },
            };
            let args = match parse_body(b) {
                Some(args) => args,
                None => {
                    return HttpReply::BadRequest;
                },
            };
            match parse_command(args.as_str()) {
                Ok(cmd) => HttpReply::Json(run_command(store, &cmd)),
                Err(CommandError::UnknownVerb) => HttpReply::NotFound,
                Err(CommandError::Malformed) => HttpReply::BadRequest,
            }
        },
        Route::ItemFetch(k) => {
            let line = command_line("GET", k.as_str());
            HttpReply::Json(translate_line(store, line.as_str()))
        },
        Route::ItemDrop(k) => {
            let line = command_line("DEL", k.as_str());
            HttpReply::Json(translate_line(store, line.as_str()))
        },
        Route::Ping => HttpReply::Json(
            CommandResponse { code: ResponseCode::Okay, data: Some("PONG".to_owned()) },
        ),
        Route::ProcessUpgrade => HttpReply::Upgrade(SessionKind::Echo),
        Route::HealthUpgrade => HttpReply::Upgrade(SessionKind::Health),
        Route::MonitorUpgrade => HttpReply::Upgrade(SessionKind::Monitor),
        Route::Unknown => HttpReply::NotFound,
    }
}

} // verus!
