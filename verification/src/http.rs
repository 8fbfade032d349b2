//! What is done with the messages that come in over HTTP, and with those that a
//! client sends line by line.

use vstd::prelude::*;
use vstd::string::*;
use crate::fresh;
use crate::json;
use crate::json::{Json, JsonModel};
use crate::protocol;
use crate::protocol::error;
use crate::text;
use crate::text::{joined, joined3, number, same, starts_with, trim};

verus! {

/// What the head of an HTTP message says. Each header is the first of its name.
#[derive(Debug, PartialEq, Eq)]
pub struct Head {
    pub method: String,
    pub url: String,
    pub host: Option<String>,
    pub origin: Option<String>,
    pub authorization: Option<String>,
    pub content_type: Option<String>,
}

pub struct HeadModel {
    pub method: Seq<char>,
    pub url: Seq<char>,
    pub host: Option<Seq<char>>,
    pub origin: Option<Seq<char>>,
    pub authorization: Option<Seq<char>>,
    pub content_type: Option<Seq<char>>,
}

impl View for Head {
    type V = HeadModel;

    open spec fn view(&self) -> HeadModel {
        HeadModel {
            method: self.method@,
            url: self.url@,
            host: crate::config::opt_text(self.host),
            origin: crate::config::opt_text(self.origin),
            authorization: crate::config::opt_text(self.authorization),
            content_type: crate::config::opt_text(self.content_type),
        }
    }
}

/// Where a message goes.
#[derive(Clone, Copy, PartialEq, Eq, Structural, Debug)]
pub enum Route {
    Forbidden,
    Dashboard,
    Unauthorized,
    Status,
    NotJson,
    Rpc,
    NotFound,
}

/// The message was sent to this machine by name or number, on the port.
pub open spec fn is_local_host(host: Option<Seq<char>>, port: u16) -> bool {
    let p = text::decimal(port as nat);
    host == Some("127.0.0.1:"@ + p) || host == Some("localhost:"@ + p)
}

/// The message comes from no page, or from a page of this supervisor.
pub open spec fn is_local_origin(origin: Option<Seq<char>>, port: u16) -> bool {
    let p = text::decimal(port as nat);
    origin is None || origin == Some("http://127.0.0.1:"@ + p) || origin == Some(
        "http://localhost:"@ + p,
    )
}

pub open spec fn is_authorized(authorization: Option<Seq<char>>, token: Seq<char>) -> bool {
    authorization == Some("Bearer "@ + token)
}

pub open spec fn is_json(content_type: Option<Seq<char>>) -> bool {
    content_type is Some && text::begins_with(content_type->0, "application/json"@)
}

/// Where a message goes: it has to be local before anything else, and has to
/// carry the token for all but the dashboard.
pub open spec fn routed(h: HeadModel, port: u16, token: Seq<char>) -> Route {
    if !is_local_host(h.host, port) || !is_local_origin(h.origin, port) {
        Route::Forbidden
    } else if h.method == "GET"@ && h.url == "/"@ {
        Route::Dashboard
    } else if !is_authorized(h.authorization, token) {
        Route::Unauthorized
    } else if h.method == "GET"@ && h.url == "/api/status"@ {
        Route::Status
    } else if h.method == "POST"@ && h.url == "/rpc"@ {
        if is_json(h.content_type) {
            Route::Rpc
        } else {
            Route::NotJson
        }
    } else {
        Route::NotFound
    }
}

fn is_text(s: &Option<String>, want: &str) -> (r: bool)
    ensures
        r == (crate::config::opt_text(*s) == Some(want@)),
{
    match s {
        Some(x) => same(x.as_str(), want),
        None => false,
    }
}

/// Where a message goes.
pub fn route(h: &Head, port: u16, token: &str) -> (r: Route)
    ensures
        r == routed(h@, port, token@),
{
    let p = number(port as u64);
    let host_ok = is_text(&h.host, joined("127.0.0.1:", p.as_str()).as_str()) || is_text(
        &h.host,
        joined("localhost:", p.as_str()).as_str(),
    );
    let origin_ok = h.origin.is_none() || is_text(
        &h.origin,
        joined("http://127.0.0.1:", p.as_str()).as_str(),
    ) || is_text(&h.origin, joined("http://localhost:", p.as_str()).as_str());
    if !host_ok || !origin_ok {
        return Route::Forbidden;
    }
    let get = same(h.method.as_str(), "GET");
    if get && same(h.url.as_str(), "/") {
        return Route::Dashboard;
    }
    if !is_text(&h.authorization, joined("Bearer ", token).as_str()) {
        return Route::Unauthorized;
    }
    if get && same(h.url.as_str(), "/api/status") {
        return Route::Status;
    }
    if same(h.method.as_str(), "POST") && same(h.url.as_str(), "/rpc") {
        let typed = match &h.content_type {
            Some(t) => starts_with(t.as_str(), "application/json"),
            None => false,
        };
        if typed {
            Route::Rpc
        } else {
            Route::NotJson
        }
    } else {
        Route::NotFound
    }
}

/// An answer over HTTP.
#[derive(Debug, PartialEq, Eq)]
pub struct Reply {
    pub code: u16,
    pub kind: &'static str,
    pub body: String,
}

pub struct ReplyModel {
    pub code: u16,
    pub kind: Seq<char>,
    pub body: Seq<char>,
}

impl View for Reply {
    type V = ReplyModel;

    open spec fn view(&self) -> ReplyModel {
        ReplyModel { code: self.code, kind: self.kind@, body: self.body@ }
    }
}

/// The answer to a message that goes nowhere; none for the other routes.
pub open spec fn refusal(r: Route) -> Option<ReplyModel> {
    match r {
        Route::Forbidden => Some(
            ReplyModel { code: 403, kind: "text/plain"@, body: "Forbidden"@ },
        ),
        Route::Unauthorized => Some(
            ReplyModel { code: 401, kind: "text/plain"@, body: "Unauthorized"@ },
        ),
        Route::NotJson => Some(
            ReplyModel { code: 415, kind: "text/plain"@, body: "JSON required"@ },
        ),
        Route::NotFound => Some(
            ReplyModel { code: 404, kind: "text/plain"@, body: "Not found"@ },
        ),
        _ => None,
    }
}

pub fn refuse(r: Route) -> (a: Option<Reply>)
    ensures
        refusal(r) == (match a {
            Some(x) => Some(x@),
            None => None,
        }),
{
    match r {
        Route::Forbidden => Some(
            Reply { code: 403, kind: "text/plain", body: "Forbidden".to_string() },
        ),
        Route::Unauthorized => Some(
            Reply { code: 401, kind: "text/plain", body: "Unauthorized".to_string() },
        ),
        Route::NotJson => Some(
            Reply { code: 415, kind: "text/plain", body: "JSON required".to_string() },
        ),
        Route::NotFound => Some(
            Reply { code: 404, kind: "text/plain", body: "Not found".to_string() },
        ),
        _ => None,
    }
}

/// The answer to a body that is over a mebibyte, or is not UTF-8; none for one
/// that is taken up.
pub open spec fn body_refusal(body: Option<Seq<char>>) -> Option<ReplyModel> {
    if body is Some && vstd::utf8::encode_utf8(body->0).len() <= 1024 * 1024 {
        None
    } else {
        Some(
            ReplyModel {
                code: 413,
                kind: "text/plain"@,
                body: "Body too large or invalid UTF-8"@,
            },
        )
    }
}

/// Looks at a body; `body` is none where it could not be read as text.
pub fn refuse_body(body: &Option<String>) -> (a: Option<Reply>)
    ensures
        body_refusal(crate::config::opt_text(*body)) == (match a {
            Some(x) => Some(x@),
            None => None,
        }),
{
    let fits = match body {
        Some(s) => s.as_str().as_bytes().len() <= 1024 * 1024,
        None => false,
    };
    if fits {
        None
    } else {
        Some(
            Reply {
                code: 413,
                kind: "text/plain",
                body: "Body too large or invalid UTF-8".to_string(),
            },
        )
    }
}

/// The answer to a message of the protocol; a message that gets none is answered
/// without a body.
pub open spec fn rpc_answer(v: Option<JsonModel>) -> ReplyModel {
    match v {
        Some(v) => ReplyModel { code: 200, kind: "application/json"@, body: json::written(v) },
        None => ReplyModel { code: 204, kind: "application/json"@, body: Seq::empty() },
    }
}

pub fn answer_rpc(v: Option<Json>) -> (a: Reply)
    ensures
        a@ == rpc_answer(
            match v {
                Some(v) => Some(v@),
                None => None,
            },
        ),
{
    match v {
        Some(v) => Reply { code: 200, kind: "application/json", body: v.write() },
        None => Reply { code: 204, kind: "application/json", body: String::new() },
    }
}

/// What a bridge does with a line from its client.
#[derive(Debug, PartialEq)]
pub enum Line<T, J> {
    /// The client is done.
    End,
    /// The line is too long to go on.
    TooLong,
    /// The line is answered at once.
    Say(T),
    /// The message goes to the supervisor; an answer is owed where it has an id.
    Forward { message: J, owed: bool },
}

impl View for Line<String, Json> {
    type V = Line<Seq<char>, JsonModel>;

    open spec fn view(&self) -> Line<Seq<char>, JsonModel> {
        match self {
            Line::End => Line::End,
            Line::TooLong => Line::TooLong,
            Line::Say(s) => Line::Say(s@),
            Line::Forward { message, owed } => Line::Forward { message: message@, owed: *owed },
        }
    }
}

/// What a bridge does with a line of `len` bytes that reads as `v`.
pub open spec fn line_taken(len: nat, v: Option<JsonModel>) -> Line<Seq<char>, JsonModel> {
    if len == 0 {
        Line::End
    } else if len > 1024 * 1024 {
        Line::TooLong
    } else {
        match v {
            None => Line::Say(
                json::written(
                    protocol::error_reply(JsonModel::Null, -32700, "Parse error"@),
                ),
            ),
            Some(v) => Line::Forward {
                message: v,
                owed: json::as_map(v).contains_key("id"@),
            },
        }
    }
}

/// What a bridge does with a line that has been read, or could not be.
pub fn take_read_line(len: usize, v: Option<Json>) -> (r: Line<String, Json>)
    ensures
        r@ == line_taken(
            len as nat,
            match v {
                Some(v) => Some(v@),
                None => None,
            },
        ),
{
    if len == 0 {
        return Line::End;
    }
    if len > 1024 * 1024 {
        return Line::TooLong;
    }
    match v {
        None => Line::Say(error(Json::Null, -32700, "Parse error").write()),
        Some(v) => {
            let owed = v.get("id").is_some();
            Line::Forward { message: v, owed }
        },
    }
}

/// What a bridge does with a line from its client.
pub fn take_line(bytes: &[u8]) -> (r: Line<String, Json>)
    ensures
        r@ == line_taken(bytes@.len(), json::parsed(bytes@)),
{
    take_read_line(bytes.len(), Json::read(bytes))
}

/// Where a bridge sends its messages.
pub fn rpc_url(port: u16) -> (s: String)
    ensures
        s@ == "http://127.0.0.1:"@ + text::decimal(port as nat) + "/rpc"@,
{
    let p = number(port as u64);
    joined3("http://127.0.0.1:", p.as_str(), "/rpc")
}

/// How a bridge shows that it may call, given what the token file holds.
pub fn bearer(token: &str) -> (s: String)
    ensures
        s@ == "Bearer "@ + text::trimmed(token@),
{
    joined("Bearer ", trim(token))
}

/// Whether an answer of that status has a body for the client.
pub fn has_body(status: u16) -> (r: bool)
    ensures
        r == (status != 204),
{
    status != 204
}

/// What a bridge does when a message could not be delivered: where an answer is
/// owed it ends with this error, and goes on otherwise.
pub fn undelivered(owed: bool, reason: &str) -> (r: Result<(), String>)
    ensures
        match r {
            Ok(()) => !owed,
            Err(s) => owed && s@ == "daemon transport failed: "@ + reason@,
        },
{
    if owed {
        Err(joined("daemon transport failed: ", reason))
    } else {
        Ok(())
    }
}

/// Only a local message that carries the token reaches the supervisor.
pub proof fn law_only_local_and_authorized_messages_pass(h: HeadModel, port: u16, token: Seq<char>)
    ensures
        routed(h, port, token) == Route::Rpc || routed(h, port, token) == Route::Status
            ==> is_local_host(h.host, port) && is_local_origin(h.origin, port) && is_authorized(
            h.authorization,
            token,
        ),
        routed(h, port, token) != Route::Forbidden ==> is_local_host(h.host, port)
            && is_local_origin(h.origin, port),
        routed(h, port, token) == Route::Rpc ==> is_json(h.content_type),
{
}

/// A bridge that has read the token is let through: white space around it, such
/// as a newline at the end of the file, makes no difference, and the token itself
/// has none.
pub proof fn law_bridge_is_authorized(token: Seq<char>)
    requires
        fresh::is_random_uuid(token),
    ensures
        text::trimmed(token) == token,
        text::trimmed(token.push('\n')) == token,
        is_authorized(Some("Bearer "@ + text::trimmed(token)), token),
{
    let t = token.push('\n');
    assert(!fresh::is_hyphen_place(0) && !fresh::is_hyphen_place(35));
    assert(token.first() == token[0] && fresh::is_hex_digit(token[0]));
    assert(token.last() == token[35] && fresh::is_hex_digit(token[35]));
    assert(t.first() == token[0]);
    assert(t.drop_last() =~= token);
    assert(text::is_space('\n'));
}

/// A message is let in only where it is addressed to this machine, by number or
/// name, on the port, and comes from no page or from a page there. The dashboard is
/// open; all else needs the token.
pub proof fn law_messages_go_where_they_may(h: HeadModel, port: u16, token: Seq<char>)
    ensures
        ({
            let p = text::decimal(port as nat);
            let here = h.host == Some("127.0.0.1:"@ + p) || h.host == Some("localhost:"@ + p);
            let ours = h.origin is None || h.origin == Some("http://127.0.0.1:"@ + p) || h.origin
                == Some("http://localhost:"@ + p);
            let known = h.authorization == Some("Bearer "@ + token);
            let page = h.method == "GET"@ && h.url == "/"@;
            let status = h.method == "GET"@ && h.url == "/api/status"@;
            let call = h.method == "POST"@ && h.url == "/rpc"@;
            let r = routed(h, port, token);
            &&& r == Route::Forbidden <==> !(here && ours)
            &&& r == Route::Dashboard <==> here && ours && page
            &&& r == Route::Unauthorized <==> here && ours && !page && !known
            &&& r == Route::Status <==> here && ours && known && status
            &&& r == Route::Rpc ==> here && ours && known && call && (
            h.content_type matches Some(t) && text::begins_with(t, "application/json"@))
            &&& here && ours && known && call ==> r == Route::Rpc || r == Route::NotJson
            &&& here && ours && known && call && (h.content_type matches Some(t)
                && text::begins_with(t, "application/json"@)) ==> r == Route::Rpc
            &&& r == Route::NotFound <==> here && ours && known && !page && !status && !call
        }),
{
    reveal_strlit("/");
    reveal_strlit("/api/status");
    reveal_strlit("/rpc");
    reveal_strlit("GET");
    reveal_strlit("POST");
    assert("/"@.len() != "/api/status"@.len());
    assert("/"@.len() != "/rpc"@.len());
    assert("GET"@.len() != "POST"@.len());
}

/// A message that goes nowhere is answered with the code for it; all others are
/// not refused.
pub proof fn law_refusals_have_their_codes(r: Route)
    ensures
        match refusal(r) {
            Some(a) => a.code == (match r {
                Route::Forbidden => 403u16,
                Route::Unauthorized => 401u16,
                Route::NotJson => 415u16,
                _ => 404u16,
            }) && (r == Route::Forbidden || r == Route::Unauthorized || r == Route::NotJson || r
                == Route::NotFound),
            None => r == Route::Dashboard || r == Route::Status || r == Route::Rpc,
        },
{
}

/// A body is taken up just where it is text of at most a mebibyte. A message that
/// is answered is answered with JSON, and one that is not with no content.
pub proof fn law_bodies_are_text_of_a_mebibyte(body: Option<Seq<char>>, v: JsonModel)
    ensures
        body_refusal(body) is None <==> body is Some && vstd::utf8::encode_utf8(body->0).len()
            <= 1048576,
        body_refusal(body) matches Some(a) ==> a.code == 413,
        rpc_answer(Some(v)).code == 200 && rpc_answer(Some(v)).body == json::written(v),
        rpc_answer(None).code == 204 && rpc_answer(None).body.len() == 0,
{
}

/// A bridge ends with its input, stops at a line over a mebibyte, answers what is
/// not JSON itself, and hands on all else as it is, with an answer owed just where
/// the message has an id.
pub proof fn law_bridge_hands_messages_on(len: nat, v: JsonModel, w: Option<JsonModel>)
    ensures
        line_taken(len, w) is End <==> len == 0,
        line_taken(len, w) is TooLong <==> len > 1048576,
        0 < len <= 1048576 ==> line_taken(len, Some(v)) == (Line::<Seq<char>, JsonModel>::Forward {
            message: v,
            owed: (v matches JsonModel::Object(m) && m.contains_key("id"@)),
        }),
        0 < len <= 1048576 ==> line_taken(len, None) is Say,
{
}

} // verus!
