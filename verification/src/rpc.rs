//! Talking to the daemon: requests and replies on single lines.

use std::collections::hash_map::DefaultHasher;
use std::hash::Hasher;
use vstd::prelude::*;
use vstd::std_specs::hash::DefaultHasherAdditionalSpecFns;

use crate::json::{object, parse, put, render, text, text_or_null, Json};
use crate::json::{
    members, parsed_json, plain_tree, rendered_json, text_tree, written, JsonTree,
};
use crate::number::{decimal_text, hex_text};
use crate::number::{decimal, hex_digits};
use crate::text::{before, same_text, trim};
use crate::text::{opt_text, text_before, trimmed};

verus! {

broadcast use crate::json::group_json_views;

/// The bytes that the standard hasher is fed for a text: its UTF-8 form and one
/// byte that no text holds.
pub open spec fn hashed_bytes(s: Seq<char>) -> Seq<Seq<u8>> {
    seq![vstd::utf8::encode_utf8(s), seq![0xffu8]]
}

/// The short name of a socket: sixteen hexadecimal digits.
pub open spec fn slug_of(socket: Seq<char>) -> Seq<char> {
    hex_digits(DefaultHasher::spec_finish(hashed_bytes(socket)) as nat, 16)
}

/// The short name of a socket.
pub fn sock_slug(socket: &str) -> (r: String)
    ensures
        r@ == slug_of(socket@),
{
    let mut h = DefaultHasher::new();
    h.write(socket.as_bytes());
    let mut end: Vec<u8> = Vec::new();
    end.push(0xff);
    assert(end@ == seq![0xffu8]);
    h.write(end.as_slice());
    assert(h@ == hashed_bytes(socket@));
    hex_text(h.finish(), 16)
}

/// The socket that was asked for, or the daemon's own.
pub fn resolve_socket(opt: &Option<String>, default_socket: &str) -> (r: String)
    ensures
        r@ == (match *opt {
            Some(s) => s@,
            None => default_socket@,
        }),
{
    match opt {
        Some(s) => s.clone(),
        None => default_socket.to_owned(),
    }
}

/// Where a request failed: before any of it was handed to the daemon, or
/// after.
#[derive(Debug, PartialEq, Eq)]
pub enum RpcErr {
    BeforeSend(String),
    AfterSend(String),
}

/// What to do after one attempt.
#[derive(Debug, PartialEq, Eq)]
pub enum RpcStep {
    Answer(String),
    /// Drop the connection and try once more.
    Retry,
    /// Drop the connection and fail.
    Fail(String),
}

/// What to do after one attempt: a request that was not sent is tried once
/// more, one that may have been sent never is.
pub fn rpc_full(retried: bool, outcome: Result<String, RpcErr>) -> (r: RpcStep)
    ensures
        match outcome {
            Ok(line) => r == RpcStep::Answer(line),
            Err(RpcErr::BeforeSend(e)) => if retried {
                r == RpcStep::Fail(e)
            } else {
                r == RpcStep::Retry
            },
            Err(RpcErr::AfterSend(e)) => r == RpcStep::Fail(e),
        },
        r is Retry <==> !retried && (outcome matches Err(RpcErr::BeforeSend(_))),
{
    match outcome {
        Ok(line) => RpcStep::Answer(line),
        Err(RpcErr::BeforeSend(e)) => {
            if retried {
                RpcStep::Fail(e)
            } else {
                RpcStep::Retry
            }
        },
        Err(RpcErr::AfterSend(e)) => RpcStep::Fail(e),
    }
}

/// A request for `method` with `params`.
pub open spec fn request_tree(method: Seq<char>, params: JsonTree) -> JsonTree {
    JsonTree::Object(
        seq![
            ("id"@, JsonTree::Unsigned(1)),
            ("method"@, JsonTree::Text(method)),
            ("params"@, params),
        ],
    )
}

proof fn lemma_request_plain(method: Seq<char>, params: JsonTree)
    requires
        plain_tree(params),
    ensures
        plain_tree(request_tree(method, params)),
{
    reveal_strlit("id");
    reveal_strlit("method");
    reveal_strlit("params");
    let m = request_tree(method, params)->Object_0;
    assert(plain_tree(m[0].1));
    assert(plain_tree(m[1].1));
    assert(plain_tree(m[2].1));
    assert(text_before(m[0].0, m[1].0));
    assert(text_before(m[0].0, m[2].0));
    assert(text_before(m[1].0, m[2].0));
}

/// The line that asks for `method` with `params`: the request in compact form
/// and one line feed, the only one in it.
pub fn request_line(method: &str, params: Json) -> (r: Result<Vec<u8>, String>)
    ensures
        match r {
            Ok(line) => {
                &&& line@.len() > 0
                &&& line@.last() == 10
                &&& !line@.drop_last().contains(10u8)
                &&& written(request_tree(method@, params@)) == Ok::<_, Seq<char>>(
                    line@.drop_last(),
                )
            },
            Err(e) => written(request_tree(method@, params@)) == Err::<Seq<u8>, _>(e@),
        },
        plain_tree(params@) ==> written(request_tree(method@, params@)) == rendered_json(
            request_tree(method@, params@),
        ),
{
    let ghost pt = params@;
    let mut m = object();
    put(&mut m, "id", Json::Unsigned(1));
    put(&mut m, "method", text(method));
    put(&mut m, "params", params);
    let req = Json::Object(m);
    proof {
        assert(members(m@) =~= request_tree(method@, pt)->Object_0);
        if plain_tree(pt) {
            lemma_request_plain(method@, pt);
        }
    }
    match render(&req) {
        Ok(bytes) => {
            let mut line = bytes;
            line.push(10u8);
            assert(line@.drop_last() == bytes@);
            Ok(line)
        },
        Err(e) => Err(e),
    }
}

/// What a reply amounts to: its result, or the message of its error.
pub open spec fn reply_of(resp: JsonTree) -> Result<JsonTree, Seq<char>> {
    if resp.at("ok"@).boolean() == Some(true) {
        Ok(resp.at("result"@))
    } else {
        Err(
            match resp.at("error"@).at("message"@).text() {
                Some(s) => s,
                None => "unknown error"@,
            },
        )
    }
}

/// The member named `key`, or null.
pub fn at<'a>(j: &'a Json, key: &str, null: &'a Json) -> (r: &'a Json)
    requires
        null@ == JsonTree::Null,
    ensures
        r@ == j@.at(key@),
{
    match j.get(key) {
        Some(x) => x,
        None => null,
    }
}

/// The text at `error.<key>`, or `default`.
fn error_part(resp: &Json, key: &str, default: &str) -> (r: String)
    ensures
        r@ == (match resp@.at("error"@).at(key@).text() {
            Some(s) => s,
            None => default@,
        }),
{
    let null = Json::Null;
    let error = at(resp, "error", &null);
    match at(error, key, &null).as_str() {
        Some(s) => s.to_owned(),
        None => default.to_owned(),
    }
}

/// Whether a reply says that the request succeeded.
pub fn reply_ok(resp: &Json) -> (r: bool)
    ensures
        r == (resp@.at("ok"@).boolean() == Some(true)),
{
    match resp.get("ok") {
        Some(j) => match j.as_bool() {
            Some(b) => b,
            None => false,
        },
        None => false,
    }
}

/// What a reply amounts to.
pub fn rpc_on(resp: Json) -> (r: Result<Json, String>)
    ensures
        match r {
            Ok(j) => reply_of(resp@) == Ok::<_, Seq<char>>(j@),
            Err(e) => reply_of(resp@) == Err::<JsonTree, _>(e@),
        },
{
    if reply_ok(&resp) {
        match resp.take("result") {
            Some(j) => Ok(j),
            None => Ok(Json::Null),
        }
    } else {
        Err(error_part(&resp, "message", "unknown error"))
    }
}

/// The value on a reply line: the line without white space around it.
pub fn rpc_line(line: &str) -> (r: Result<Json, String>)
    ensures
        match r {
            Ok(j) => parsed_json(trimmed(line@)) == Ok::<_, Seq<char>>(j@),
            Err(e) => parsed_json(trimmed(line@)) == Err::<JsonTree, _>(e@),
        },
{
    parse(trim(line))
}

/// What the reply on a line amounts to. Nothing was read where the connection was
/// closed; that is an error, and so is a line that cannot be read.
pub fn rpc_oneshot(line: &str) -> (r: Result<Json, String>)
    ensures
        if line@.len() == 0 {
            r matches Err(e) && e@ == "connection closed"@
        } else {
            match parsed_json(trimmed(line@)) {
                Ok(resp) => match r {
                    Ok(j) => reply_of(resp) == Ok::<_, Seq<char>>(j@),
                    Err(e) => reply_of(resp) == Err::<JsonTree, _>(e@),
                },
                Err(why) => r matches Err(e) && e@ == why,
            }
        },
{
    if line.is_empty() {
        return Err("connection closed".to_owned());
    }
    match rpc_line(line) {
        Ok(resp) => rpc_on(resp),
        Err(e) => Err(e),
    }
}

/// The members of an object with `value` under `key`: in the place of an equal
/// key, or where the order of the keys puts it.
pub open spec fn with_member(
    m: Seq<(Seq<char>, JsonTree)>,
    key: Seq<char>,
    value: JsonTree,
) -> Seq<(Seq<char>, JsonTree)>
    decreases m.len(),
{
    if m.len() == 0 {
        seq![(key, value)]
    } else if m[0].0 == key {
        seq![(key, value)] + m.skip(1)
    } else if text_before(key, m[0].0) {
        seq![(key, value)] + m
    } else {
        seq![m[0]] + with_member(m.skip(1), key, value)
    }
}

/// The object with `value` under `key`; any other value as it is.
pub open spec fn inserted(t: JsonTree, key: Seq<char>, value: JsonTree) -> JsonTree {
    match t {
        JsonTree::Object(m) => JsonTree::Object(with_member(m, key, value)),
        _ => t,
    }
}

/// Puts `value` under `key` where `j` is an object.
pub fn insert(j: Json, key: &str, value: Json) -> (r: Json)
    ensures
        r@ == inserted(j@, key@, value@),
{
    match j {
        Json::Object(v) => {
            let ghost m = members(v@);
            let ghost vt = value@;
            let mut w = v;
            let mut i: usize = 0;
            assert(m.skip(0) == m);
            assert(m.take(0) + with_member(m.skip(0), key@, vt) == with_member(m, key@, vt));
            while i < w.len() && !same_text(w[i].0.as_str(), key) && !before(
                key,
                w[i].0.as_str(),
            )
                invariant
                    i <= w.len(),
                    m == members(w@),
                    m.take(i as int) + with_member(m.skip(i as int), key@, vt) == with_member(
                        m,
                        key@,
                        vt,
                    ),
                decreases w.len() - i,
            {
                assert(m[i as int].0 == w@[i as int].0@);
                let ghost rest = m.skip(i as int);
                assert(rest.skip(1) == m.skip(i + 1));
                assert(rest[0] == m[i as int]);
                assert(m.take(i as int) + (seq![rest[0]] + with_member(rest.skip(1), key@, vt))
                    == m.take(i + 1) + with_member(m.skip(i + 1), key@, vt));
                i += 1;
            }
            let ghost rest = m.skip(i as int);
            if i < w.len() && same_text(w[i].0.as_str(), key) {
                let _ = w.remove(i);
                let ghost rest2 = rest.skip(1);
                w.insert(i, (key.to_owned(), value));
                assert(members(w@) =~= m.take(i as int) + (seq![(key@, vt)] + rest2));
            } else {
                w.insert(i, (key.to_owned(), value));
                assert(i < m.len() ==> rest[0].0 == m[i as int].0);
                assert(members(w@) =~= m.take(i as int) + (seq![(key@, vt)] + rest));
                assert(rest.len() == 0 ==> seq![(key@, vt)] + rest =~= seq![(key@, vt)]);
            }
            Json::Object(w)
        },
        other => other,
    }
}

/// The parameters of typing into a terminal.
pub open spec fn send_input_tree(
    surface_id: u64,
    data: Seq<char>,
    queued: bool,
    clear_first: bool,
    machine_origin: bool,
    token: Option<Seq<char>>,
) -> JsonTree {
    let front = seq![
        ("clear_first"@, JsonTree::Bool(clear_first)),
        ("human"@, JsonTree::Bool(!queued)),
        ("machine_origin"@, JsonTree::Bool(machine_origin)),
    ];
    let operator = match token {
        Some(t) => if !queued && !machine_origin {
            seq![("operator_token"@, JsonTree::Text(t))]
        } else {
            Seq::empty()
        },
        None => Seq::empty(),
    };
    let owner = match token {
        Some(t) => seq![("owner_token"@, JsonTree::Text(t))],
        None => Seq::empty(),
    };
    let back = seq![
        ("queued"@, JsonTree::Bool(queued)),
        ("quiet"@, JsonTree::Bool(true)),
        ("surface_id"@, JsonTree::Unsigned(surface_id)),
        ("text"@, JsonTree::Text(data)),
    ];
    JsonTree::Object(front + operator + owner + back)
}

/// The parameters of typing into a terminal. With a token at hand it always
/// proves the owner; it stands for the operator only for what a human types
/// right now.
pub fn send_input(
    surface_id: u64,
    data: &str,
    queued: Option<bool>,
    clear_first: Option<bool>,
    machine_origin: Option<bool>,
    token: &Option<String>,
) -> (r: Json)
    ensures
        r@ == send_input_tree(
            surface_id,
            data@,
            queued == Some(true),
            clear_first == Some(true),
            machine_origin == Some(true),
            opt_text(*token),
        ),
{
    let q = match queued {
        Some(b) => b,
        None => false,
    };
    let cf = match clear_first {
        Some(b) => b,
        None => false,
    };
    let mo = match machine_origin {
        Some(b) => b,
        None => false,
    };
    let mut m = object();
    put(&mut m, "clear_first", Json::Bool(cf));
    put(&mut m, "human", Json::Bool(!q));
    put(&mut m, "machine_origin", Json::Bool(mo));
    if !q && !mo {
        if let Some(t) = token {
            put(&mut m, "operator_token", text(t.as_str()));
        }
    }
    if let Some(t) = token {
        put(&mut m, "owner_token", text(t.as_str()));
    }
    put(&mut m, "queued", Json::Bool(q));
    put(&mut m, "quiet", Json::Bool(true));
    put(&mut m, "surface_id", Json::Unsigned(surface_id));
    put(&mut m, "text", text(data));
    assert(members(m@) =~= send_input_tree(
        surface_id,
        data@,
        q,
        cf,
        mo,
        opt_text(*token),
    )->Object_0);
    Json::Object(m)
}

/// The parameters of a new terminal.
pub open spec fn new_terminal_tree(
    cwd: Option<Seq<char>>,
    title: Option<Seq<char>>,
    rows: u16,
    cols: u16,
) -> JsonTree {
    JsonTree::Object(
        seq![
            ("cols"@, JsonTree::Unsigned(cols as u64)),
            ("cwd"@, text_tree(cwd)),
            ("rows"@, JsonTree::Unsigned(rows as u64)),
            ("title"@, text_tree(title)),
        ],
    )
}

/// The parameters of a new terminal.
pub fn create_surface(cwd: &Option<String>, title: &Option<String>, rows: u16, cols: u16) -> (r:
    Json)
    ensures
        r@ == JsonTree::Object(
            seq![
                ("cols"@, JsonTree::Unsigned(cols as u64)),
                ("cwd"@, text_tree(opt_text(*cwd))),
                ("rows"@, JsonTree::Unsigned(rows as u64)),
                ("title"@, text_tree(opt_text(*title))),
            ],
        ),
        r@ == new_terminal_tree(opt_text(*cwd), opt_text(*title), rows, cols),
{
    let mut m = object();
    put(&mut m, "cols", Json::Unsigned(cols as u64));
    put(&mut m, "cwd", text_or_null(cwd));
    put(&mut m, "rows", Json::Unsigned(rows as u64));
    put(&mut m, "title", text_or_null(title));
    assert(members(m@) =~= seq![
        ("cols"@, JsonTree::Unsigned(cols as u64)),
        ("cwd"@, text_tree(opt_text(*cwd))),
        ("rows"@, JsonTree::Unsigned(rows as u64)),
        ("title"@, text_tree(opt_text(*title))),
    ]);
    Json::Object(m)
}

/// The names that a terminal's output and its end are sent under.
pub open spec fn event_names(slug: Seq<char>, surface_id: u64) -> (Seq<char>, Seq<char>) {
    let id = "-"@ + decimal(surface_id as nat);
    ("surface-output-"@ + slug + id, "surface-exited-"@ + slug + id)
}

/// The names of the events that a terminal's output and its end are sent
/// under.
pub fn surface_events(slug: &str, surface_id: u64) -> (r: (String, String))
    ensures
        r.0@ == "surface-output-"@ + slug@ + "-"@ + decimal(surface_id as nat),
        r.1@ == "surface-exited-"@ + slug@ + "-"@ + decimal(surface_id as nat),
        (r.0@, r.1@) == event_names(slug@, surface_id),
{
    let id = decimal_text(surface_id);
    let mut output = "surface-output-".to_owned();
    output.append(slug);
    output.append("-");
    output.append(id.as_str());
    let mut exited = "surface-exited-".to_owned();
    exited.append(slug);
    exited.append("-");
    exited.append(id.as_str());
    (output, exited)
}

/// The names that the interface is to listen for.
pub open spec fn attachment_tree(slug: Seq<char>, surface_id: u64) -> JsonTree {
    let (output, exited) = event_names(slug, surface_id);
    JsonTree::Object(
        seq![
            ("exited_event"@, JsonTree::Text(exited)),
            ("output_event"@, JsonTree::Text(output)),
        ],
    )
}

/// What the interface is told before a terminal's output is sent: the names to
/// listen for. The socket's short name keeps the terminals of two daemons
/// apart.
pub fn attach_surface(socket: &str, surface_id: u64) -> (r: Json)
    ensures
        r@ == JsonTree::Object(
            seq![
                (
                    "exited_event"@,
                    JsonTree::Text(
                        "surface-exited-"@ + slug_of(socket@) + "-"@ + decimal(surface_id as nat),
                    ),
                ),
                (
                    "output_event"@,
                    JsonTree::Text(
                        "surface-output-"@ + slug_of(socket@) + "-"@ + decimal(surface_id as nat),
                    ),
                ),
            ],
        ),
        r@ == attachment_tree(slug_of(socket@), surface_id),
{
    let slug = sock_slug(socket);
    let (output, exited) = surface_events(slug.as_str(), surface_id);
    let ghost want = seq![
        ("exited_event"@, JsonTree::Text(exited@)),
        ("output_event"@, JsonTree::Text(output@)),
    ];
    let mut m = object();
    put(&mut m, "exited_event", Json::Text(exited));
    put(&mut m, "output_event", Json::Text(output));
    assert(members(m@) =~= want);
    Json::Object(m)
}

/// The parameters of a key that is sent to a terminal.
pub open spec fn key_tree(surface_id: u64, key: Seq<char>) -> JsonTree {
    JsonTree::Object(
        seq![("key"@, JsonTree::Text(key)), ("surface_id"@, JsonTree::Unsigned(surface_id))],
    )
}

/// The parameters of a key that is sent to a terminal.
pub fn send_key(surface_id: u64, key: &str) -> (r: Json)
    ensures
        r@ == JsonTree::Object(
            seq![("key"@, JsonTree::Text(key@)), ("surface_id"@, JsonTree::Unsigned(surface_id))],
        ),
        r@ == key_tree(surface_id, key@),
{
    let mut m = object();
    put(&mut m, "key", text(key));
    put(&mut m, "surface_id", Json::Unsigned(surface_id));
    assert(members(m@) =~= seq![
        ("key"@, JsonTree::Text(key@)),
        ("surface_id"@, JsonTree::Unsigned(surface_id)),
    ]);
    Json::Object(m)
}

/// The parameters of a terminal's new title.
pub open spec fn title_tree(surface_id: u64, title: Seq<char>) -> JsonTree {
    JsonTree::Object(
        seq![("surface_id"@, JsonTree::Unsigned(surface_id)), ("title"@, JsonTree::Text(title))],
    )
}

/// The parameters of a terminal's new title.
pub fn rename_surface(surface_id: u64, title: &str) -> (r: Json)
    ensures
        r@ == JsonTree::Object(
            seq![
                ("surface_id"@, JsonTree::Unsigned(surface_id)),
                ("title"@, JsonTree::Text(title@)),
            ],
        ),
        r@ == title_tree(surface_id, title@),
{
    let mut m = object();
    put(&mut m, "surface_id", Json::Unsigned(surface_id));
    put(&mut m, "title", text(title));
    assert(members(m@) =~= seq![
        ("surface_id"@, JsonTree::Unsigned(surface_id)),
        ("title"@, JsonTree::Text(title@)),
    ]);
    Json::Object(m)
}

/// The parameters of a terminal's new size.
pub open spec fn size_tree(surface_id: u64, rows: u16, cols: u16) -> JsonTree {
    JsonTree::Object(
        seq![
            ("cols"@, JsonTree::Unsigned(cols as u64)),
            ("rows"@, JsonTree::Unsigned(rows as u64)),
            ("surface_id"@, JsonTree::Unsigned(surface_id)),
        ],
    )
}

/// The parameters of a terminal's new size.
pub fn resize_surface(surface_id: u64, rows: u16, cols: u16) -> (r: Json)
    ensures
        r@ == JsonTree::Object(
            seq![
                ("cols"@, JsonTree::Unsigned(cols as u64)),
                ("rows"@, JsonTree::Unsigned(rows as u64)),
                ("surface_id"@, JsonTree::Unsigned(surface_id)),
            ],
        ),
        r@ == size_tree(surface_id, rows, cols),
{
    let mut m = object();
    put(&mut m, "cols", Json::Unsigned(cols as u64));
    put(&mut m, "rows", Json::Unsigned(rows as u64));
    put(&mut m, "surface_id", Json::Unsigned(surface_id));
    assert(members(m@) =~= seq![
        ("cols"@, JsonTree::Unsigned(cols as u64)),
        ("rows"@, JsonTree::Unsigned(rows as u64)),
        ("surface_id"@, JsonTree::Unsigned(surface_id)),
    ]);
    Json::Object(m)
}

/// The parameters that name a terminal.
pub open spec fn surface_tree(surface_id: u64) -> JsonTree {
    JsonTree::Object(seq![("surface_id"@, JsonTree::Unsigned(surface_id))])
}

/// The parameters that name the terminal to close.
pub fn close_surface(surface_id: u64) -> (r: Json)
    ensures
        r@ == surface_tree(surface_id),
{
    let mut m = object();
    put(&mut m, "surface_id", Json::Unsigned(surface_id));
    assert(members(m@) =~= seq![("surface_id"@, JsonTree::Unsigned(surface_id))]);
    Json::Object(m)
}

/// How one exchange with the daemon went.
#[derive(Debug)]
pub enum Exchange {
    /// There was no connection, and none could be made.
    NotConnected(String),
    NotWritten(String),
    NotFlushed(String),
    NotRead(String),
    /// What was read up to the end of the line; nothing where the connection
    /// was closed.
    Read(String),
}

/// The daemon may have seen the request.
pub open spec fn may_have_been_sent(exchange: Exchange) -> bool {
    !(exchange is NotConnected) && !(exchange is NotWritten)
}

/// The reply line of one exchange, or its error. Only an error up to the
/// writing is one of a request that the daemon cannot have seen.
pub fn rpc_once(exchange: Exchange) -> (r: Result<String, RpcErr>)
    ensures
        match exchange {
            Exchange::NotConnected(e) => r == Err::<String, _>(RpcErr::BeforeSend(e)),
            Exchange::NotWritten(e) => r == Err::<String, _>(RpcErr::BeforeSend(e)),
            Exchange::NotFlushed(e) => r == Err::<String, _>(RpcErr::AfterSend(e)),
            Exchange::NotRead(e) => r == Err::<String, _>(RpcErr::AfterSend(e)),
            Exchange::Read(line) => if line@.len() == 0 {
                r matches Err(RpcErr::AfterSend(e)) && e@ == "connection closed"@
            } else {
                r == Ok::<_, RpcErr>(line)
            },
        },
        (r matches Err(RpcErr::BeforeSend(_))) <==> !may_have_been_sent(exchange),
{
    match exchange {
        Exchange::NotConnected(e) => Err(RpcErr::BeforeSend(e)),
        Exchange::NotWritten(e) => Err(RpcErr::BeforeSend(e)),
        Exchange::NotFlushed(e) => Err(RpcErr::AfterSend(e)),
        Exchange::NotRead(e) => Err(RpcErr::AfterSend(e)),
        Exchange::Read(line) => {
            if line.as_str().is_empty() {
                Err(RpcErr::AfterSend("connection closed".to_owned()))
            } else {
                Ok(line)
            }
        },
    }
}

/// The daemon took the attachment: its first line is a reply that says so.
pub open spec fn ack_accepts(line: Seq<char>) -> bool {
    match parsed_json(trimmed(line)) {
        Ok(t) => t.at("ok"@).boolean() == Some(true),
        Err(_) => false,
    }
}

/// Whether the daemon took the attachment.
pub fn attach_accepted(ack: &str) -> (r: bool)
    ensures
        r == ack_accepts(ack@),
{
    match rpc_line(ack) {
        Ok(j) => reply_ok(&j),
        Err(_) => false,
    }
}

/// The parameters of an answer to a request in the feed.
pub open spec fn answer_tree(
    request_id: Seq<char>,
    decision: Seq<char>,
    token: Option<Seq<char>>,
) -> JsonTree {
    let proof_of_operator = match token {
        Some(t) => seq![("operator_token"@, JsonTree::Text(t))],
        None => Seq::empty(),
    };
    JsonTree::Object(
        seq![("decision"@, JsonTree::Text(decision))] + proof_of_operator + seq![
            ("request_id"@, JsonTree::Text(request_id)),
        ],
    )
}

/// The parameters of an answer to a request in the feed.
pub fn feed_reply_params(request_id: &str, decision: &str, token: &Option<String>) -> (r: Json)
    ensures
        r@ == JsonTree::Object(
            match *token {
                Some(t) => seq![
                    ("decision"@, JsonTree::Text(decision@)),
                    ("operator_token"@, JsonTree::Text(t@)),
                    ("request_id"@, JsonTree::Text(request_id@)),
                ],
                None => seq![
                    ("decision"@, JsonTree::Text(decision@)),
                    ("request_id"@, JsonTree::Text(request_id@)),
                ],
            },
        ),
        r@ == answer_tree(request_id@, decision@, opt_text(*token)),
{
    let mut m = object();
    put(&mut m, "decision", text(decision));
    if let Some(t) = token {
        put(&mut m, "operator_token", text(t.as_str()));
    }
    put(&mut m, "request_id", text(request_id));
    assert(members(m@) =~= match *token {
        Some(t) => seq![
            ("decision"@, JsonTree::Text(decision@)),
            ("operator_token"@, JsonTree::Text(t@)),
            ("request_id"@, JsonTree::Text(request_id@)),
        ],
        None => seq![
            ("decision"@, JsonTree::Text(decision@)),
            ("request_id"@, JsonTree::Text(request_id@)),
        ],
    });
    assert(members(m@) =~= answer_tree(request_id@, decision@, opt_text(*token))->Object_0);
    Json::Object(m)
}

/// The answer was taken for one of the agent's own.
pub open spec fn self_approval(resp: JsonTree) -> bool {
    resp.at("ok"@).boolean() != Some(true) && resp.at("error"@).at("code"@).text() == Some(
        "self_approval_denied"@,
    )
}

/// Whether to answer once more with a fresh token: only where the answer was
/// taken for one of the agent's own.
pub fn feed_reply_again(resp: &Json) -> (r: bool)
    ensures
        r == self_approval(resp@),
{
    if reply_ok(resp) {
        return false;
    }
    let null = Json::Null;
    let error = at(resp, "error", &null);
    match at(error, "code", &null).as_str() {
        Some(s) => same_text(s, "self_approval_denied"),
        None => false,
    }
}

/// What the last answer amounts to: done, or the code and the message of the
/// error.
pub fn feed_reply(resp: &Json) -> (r: Result<(), String>)
    ensures
        r is Ok <==> resp@.at("ok"@).boolean() == Some(true),
        r matches Err(e) ==> e@ == (match resp@.at("error"@).at("code"@).text() {
            Some(s) => s,
            None => "error"@,
        }) + ": "@ + (match resp@.at("error"@).at("message"@).text() {
            Some(s) => s,
            None => "unknown error"@,
        }),
{
    if reply_ok(resp) {
        Ok(())
    } else {
        let mut m = error_part(resp, "code", "error");
        m.append(": ");
        m.append(error_part(resp, "message", "unknown error").as_str());
        Err(m)
    }
}

/// The token in a file: the text without white space around it, where any is
/// left.
pub fn read_operator_token(content: Option<&str>) -> (r: Option<String>)
    ensures
        opt_text(r) == (match content {
            Some(c) => if trimmed(c@).len() > 0 {
                Some(trimmed(c@))
            } else {
                None
            },
            None => None,
        }),
{
    match content {
        Some(c) => {
            let t = trim(c);
            if t.is_empty() {
                None
            } else {
                Some(t.to_owned())
            }
        },
        None => None,
    }
}

/// Where the search for a key goes on behind the first member.
proof fn lemma_member_from_skip(m: Seq<(Seq<char>, JsonTree)>, key: Seq<char>, from: int)
    requires
        m.len() > 0,
        0 <= from,
    ensures
        crate::json::member_from(m, key, from + 1) == crate::json::member_from(
            m.skip(1),
            key,
            from,
        ),
    decreases m.len() - from,
{
    if from + 1 < m.len() {
        assert(m.skip(1)[from] == m[from + 1]);
        if m[from + 1].0 != key {
            lemma_member_from_skip(m, key, from + 1);
        }
    }
}

/// A value put into an object is read back under its key, and every other key
/// reads as before.
pub proof fn law_insert_reads_back(
    m: Seq<(Seq<char>, JsonTree)>,
    key: Seq<char>,
    value: JsonTree,
    other: Seq<char>,
)
    ensures
        inserted(JsonTree::Object(m), key, value).member(key) == Some(value),
        other != key ==> inserted(JsonTree::Object(m), key, value).member(other)
            == JsonTree::Object(m).member(other),
    decreases m.len(),
{
    let w = with_member(m, key, value);
    let e = (key, value);
    if m.len() == 0 {
        assert(w == seq![e]);
        assert(w[0] == e);
        if other != key {
            assert(crate::json::member_from(w, other, 1) is None);
        }
    } else if m[0].0 == key {
        assert(w[0] == e);
        assert(w.skip(1) == m.skip(1));
        if other != key {
            lemma_member_from_skip(w, other, 0);
            lemma_member_from_skip(m, other, 0);
        }
    } else if text_before(key, m[0].0) {
        assert(w[0] == e);
        assert(w.skip(1) == m);
        if other != key {
            lemma_member_from_skip(w, other, 0);
        }
    } else {
        law_insert_reads_back(m.skip(1), key, value, other);
        assert(w[0] == m[0]);
        assert(w.skip(1) == with_member(m.skip(1), key, value));
        lemma_member_from_skip(w, key, 0);
        lemma_member_from_skip(w, other, 0);
        lemma_member_from_skip(m, other, 0);
    }
}

/// Input carries the owner's token wherever there is one, and the operator's
/// token only where there is one and a human types right now: neither queued
/// input nor input of a machine is ever approved as the operator's.
pub proof fn law_operator_token_only_for_live_human_input(
    surface_id: u64,
    data: Seq<char>,
    queued: bool,
    clear_first: bool,
    machine_origin: bool,
    token: Option<Seq<char>>,
)
    ensures
        ({
            let t = send_input_tree(surface_id, data, queued, clear_first, machine_origin, token);
            &&& t.member("owner_token"@) == (match token {
                Some(s) => Some(JsonTree::Text(s)),
                None => None,
            })
            &&& t.member("operator_token"@) == (if queued || machine_origin {
                None
            } else {
                match token {
                    Some(s) => Some(JsonTree::Text(s)),
                    None => None,
                }
            })
            &&& t.member("human"@) == Some(JsonTree::Bool(!queued))
        }),
{
    reveal_strlit("clear_first");
    reveal_strlit("human");
    reveal_strlit("machine_origin");
    reveal_strlit("operator_token");
    reveal_strlit("owner_token");
    reveal_strlit("queued");
    reveal_strlit("quiet");
    reveal_strlit("surface_id");
    reveal_strlit("text");
    let t = send_input_tree(surface_id, data, queued, clear_first, machine_origin, token);
    let m = t->Object_0;
    assert("clear_first"@[0] == 'c');
    assert("human"@[0] == 'h');
    assert("machine_origin"@[0] == 'm');
    assert("operator_token"@[1] == 'p');
    assert("owner_token"@[1] == 'w');
    assert("operator_token"@[0] == 'o');
    assert("owner_token"@[0] == 'o');
    assert("queued"@[0] == 'q');
    assert("quiet"@[0] == 'q');
    assert("surface_id"@[0] == 's');
    assert("text"@[0] == 't');
    reveal_with_fuel(crate::json::member_from, 10);
}

/// Input goes to the terminal it was given for, with the text and the flags it
/// was given with, and without an echo.
pub proof fn law_input_goes_to_its_terminal(
    surface_id: u64,
    data: Seq<char>,
    queued: bool,
    clear_first: bool,
    machine_origin: bool,
    token: Option<Seq<char>>,
)
    ensures
        ({
            let t = send_input_tree(surface_id, data, queued, clear_first, machine_origin, token);
            &&& t.member("surface_id"@) == Some(JsonTree::Unsigned(surface_id))
            &&& t.member("text"@) == Some(JsonTree::Text(data))
            &&& t.member("queued"@) == Some(JsonTree::Bool(queued))
            &&& t.member("clear_first"@) == Some(JsonTree::Bool(clear_first))
            &&& t.member("machine_origin"@) == Some(JsonTree::Bool(machine_origin))
            &&& t.member("quiet"@) == Some(JsonTree::Bool(true))
        }),
{
    reveal_strlit("clear_first");
    reveal_strlit("human");
    reveal_strlit("machine_origin");
    reveal_strlit("operator_token");
    reveal_strlit("owner_token");
    reveal_strlit("queued");
    reveal_strlit("quiet");
    reveal_strlit("surface_id");
    reveal_strlit("text");
    assert("clear_first"@.len() == 11);
    assert("human"@.len() == 5);
    assert("machine_origin"@.len() == 14);
    assert("operator_token"@.len() == 14);
    assert("owner_token"@.len() == 11);
    assert("queued"@.len() == 6);
    assert("quiet"@.len() == 5);
    assert("surface_id"@.len() == 10);
    assert("text"@.len() == 4);
    assert("clear_first"@[0] != "owner_token"@[0]);
    assert("human"@[0] != "quiet"@[0]);
    assert("machine_origin"@[0] != "operator_token"@[0]);
    reveal_with_fuel(crate::json::member_from, 10);
}

/// What is asked of a terminal names that terminal and carries what was given
/// for it: the key, the title, the rows and the columns.
pub proof fn law_terminal_requests_carry_what_was_given(
    surface_id: u64,
    word: Seq<char>,
    rows: u16,
    cols: u16,
)
    ensures
        surface_tree(surface_id).member("surface_id"@) == Some(JsonTree::Unsigned(surface_id)),
        key_tree(surface_id, word).member("surface_id"@) == Some(JsonTree::Unsigned(surface_id)),
        key_tree(surface_id, word).member("key"@) == Some(JsonTree::Text(word)),
        title_tree(surface_id, word).member("surface_id"@) == Some(JsonTree::Unsigned(surface_id)),
        title_tree(surface_id, word).member("title"@) == Some(JsonTree::Text(word)),
        size_tree(surface_id, rows, cols).member("surface_id"@) == Some(
            JsonTree::Unsigned(surface_id),
        ),
        size_tree(surface_id, rows, cols).member("rows"@) matches Some(JsonTree::Unsigned(n)) && n
            == rows,
        size_tree(surface_id, rows, cols).member("cols"@) matches Some(JsonTree::Unsigned(n)) && n
            == cols,
{
    reveal_strlit("surface_id");
    reveal_strlit("key");
    reveal_strlit("title");
    reveal_strlit("rows");
    reveal_strlit("cols");
    assert("surface_id"@[0] == 's');
    assert("key"@[0] == 'k');
    assert("title"@[0] == 't');
    assert("rows"@[0] == 'r');
    assert("cols"@[0] == 'c');
    reveal_with_fuel(crate::json::member_from, 6);
}

/// A new terminal is asked for with the size that was given, and with a
/// directory and a title exactly where they were given.
pub proof fn law_new_terminal_is_as_asked(
    cwd: Option<Seq<char>>,
    title: Option<Seq<char>>,
    rows: u16,
    cols: u16,
)
    ensures
        ({
            let t = new_terminal_tree(cwd, title, rows, cols);
            &&& t.member("rows"@) matches Some(JsonTree::Unsigned(n)) && n == rows
            &&& t.member("cols"@) matches Some(JsonTree::Unsigned(n)) && n == cols
            &&& t.at("cwd"@).text() == cwd
            &&& t.at("title"@).text() == title
            &&& cwd is None ==> t.member("cwd"@) == Some(JsonTree::Null)
            &&& title is None ==> t.member("title"@) == Some(JsonTree::Null)
        }),
{
    reveal_strlit("cols");
    reveal_strlit("cwd");
    reveal_strlit("rows");
    reveal_strlit("title");
    assert("cols"@.len() == 4);
    assert("cwd"@.len() == 3);
    assert("rows"@.len() == 4);
    assert("title"@.len() == 5);
    assert("cols"@[0] != "rows"@[0]);
    reveal_with_fuel(crate::json::member_from, 5);
}

/// The interface listens for the very names that are sent under, no name serves
/// two ends, and two terminals of one daemon never share a name.
pub proof fn law_event_names_keep_terminals_apart(slug: Seq<char>, a: u64, b: u64)
    ensures
        attachment_tree(slug, a).member("output_event"@) == Some(
            JsonTree::Text(event_names(slug, a).0),
        ),
        attachment_tree(slug, a).member("exited_event"@) == Some(
            JsonTree::Text(event_names(slug, a).1),
        ),
        event_names(slug, a).0 == "surface-output-"@ + slug + "-"@ + decimal(a as nat),
        event_names(slug, a).1 == "surface-exited-"@ + slug + "-"@ + decimal(a as nat),
        event_names(slug, a).0 != event_names(slug, b).1,
        event_names(slug, a).0 == event_names(slug, b).0 ==> a == b,
        event_names(slug, a).1 == event_names(slug, b).1 ==> a == b,
{
    reveal_strlit("exited_event");
    reveal_strlit("output_event");
    assert("exited_event"@[0] == 'e');
    assert("output_event"@[0] == 'o');
    reveal_with_fuel(crate::json::member_from, 3);
    reveal_strlit("surface-output-");
    reveal_strlit("surface-exited-");
    let (oa, ea) = event_names(slug, a);
    let (ob, eb) = event_names(slug, b);
    let (da, db) = (decimal(a as nat), decimal(b as nat));
    assert(oa =~= "surface-output-"@ + slug + "-"@ + da);
    assert(ea =~= "surface-exited-"@ + slug + "-"@ + da);
    assert(oa[8] == 'o');
    assert(eb[8] == 'e');
    crate::number::law_decimal_reads_back(a as nat);
    crate::number::law_decimal_reads_back(b as nat);
    let n = ("surface-output-"@ + slug + "-"@).len() as int;
    assert(ob =~= "surface-output-"@ + slug + "-"@ + db);
    assert(eb =~= "surface-exited-"@ + slug + "-"@ + db);
    assert(oa.skip(n) =~= da && ob.skip(n) =~= db);
    assert(ea.skip(n) =~= da && eb.skip(n) =~= db);
}

/// An answer names its request and the decision, and proves the operator exactly
/// where there is a token.
pub proof fn law_answer_carries_the_decision(
    request_id: Seq<char>,
    decision: Seq<char>,
    token: Option<Seq<char>>,
)
    ensures
        ({
            let t = answer_tree(request_id, decision, token);
            &&& t.member("request_id"@) == Some(JsonTree::Text(request_id))
            &&& t.member("decision"@) == Some(JsonTree::Text(decision))
            &&& match token {
                Some(s) => t.member("operator_token"@) == Some(JsonTree::Text(s)),
                None => t.member("operator_token"@) is None,
            }
        }),
{
    reveal_strlit("decision");
    reveal_strlit("operator_token");
    reveal_strlit("request_id");
    assert("decision"@[0] == 'd');
    assert("operator_token"@[0] == 'o');
    assert("request_id"@[0] == 'r');
    reveal_with_fuel(crate::json::member_from, 4);
}

/// A request names its method and carries its parameters, whatever they are.
pub proof fn law_request_carries_its_parameters(method: Seq<char>, params: JsonTree)
    ensures
        request_tree(method, params).member("id"@) == Some(JsonTree::Unsigned(1)),
        request_tree(method, params).member("method"@) == Some(JsonTree::Text(method)),
        request_tree(method, params).member("params"@) == Some(params),
{
    reveal_strlit("id");
    reveal_strlit("method");
    reveal_strlit("params");
    assert("id"@[0] == 'i');
    assert("method"@[0] == 'm');
    assert("params"@[0] == 'p');
    reveal_with_fuel(crate::json::member_from, 4);
}

/// A reply is its result exactly where it says so, whatever its error says, and
/// null where it has none; otherwise it is the message of its error. Only a denied
/// answer whose error has the one code asks to be sent again.
pub proof fn law_reply_says_whether_it_succeeded(resp: JsonTree)
    ensures
        resp.member("ok"@) == Some(JsonTree::Bool(true)) ==> {
            &&& reply_of(resp) == Ok::<JsonTree, Seq<char>>(
                match resp.member("result"@) {
                    Some(t) => t,
                    None => JsonTree::Null,
                },
            )
            &&& !self_approval(resp)
        },
        resp.member("ok"@) != Some(JsonTree::Bool(true)) ==> {
            let error = resp.at("error"@);
            &&& reply_of(resp) == Err::<JsonTree, Seq<char>>(
                match error.member("message"@) {
                    Some(JsonTree::Text(s)) => s,
                    _ => "unknown error"@,
                },
            )
            &&& self_approval(resp) <==> error.member("code"@) == Some(
                JsonTree::Text("self_approval_denied"@),
            )
        },
{
}

/// A daemon takes an attachment exactly where its first line reads as a value
/// that says so.
pub proof fn law_attachment_needs_a_good_reply(line: Seq<char>)
    ensures
        ack_accepts(line) <==> (parsed_json(trimmed(line)) matches Ok(t) && t.member("ok"@) == Some(
            JsonTree::Bool(true),
        )),
{
}

proof fn lemma_keys_with_member(m: Seq<(Seq<char>, JsonTree)>, key: Seq<char>, value: JsonTree)
    ensures
        ({
            let w = with_member(m, key, value);
            &&& w.len() == m.len() || w.len() == m.len() + 1
            &&& forall|i: int|
                0 <= i < w.len() ==> (#[trigger] w[i] == (key, value) || m.contains(w[i]))
        }),
    decreases m.len(),
{
    let w = with_member(m, key, value);
    if m.len() > 0 {
        lemma_keys_with_member(m.skip(1), key, value);
        assert forall|i: int| 0 <= i < w.len() implies (#[trigger] w[i] == (key, value)
            || m.contains(w[i])) by {
            if m[0].0 == key {
                if i > 0 {
                    assert(w[i] == m[i]);
                }
            } else if text_before(key, m[0].0) {
                if i > 0 {
                    assert(w[i] == m[i - 1]);
                }
            } else {
                if i == 0 {
                    assert(w[0] == m[0]);
                } else {
                    let v = with_member(m.skip(1), key, value);
                    assert(w[i] == v[i - 1]);
                    if v[i - 1] != (key, value) {
                        let k = choose|k: int|
                            0 <= k < m.skip(1).len() && m.skip(1)[k] == v[i - 1];
                        assert(m[k + 1] == w[i]);
                    }
                }
            }
        }
    }
}

/// Where the members of an object stand in the order of their keys, each key
/// once, they still do when a value was put in; the other members stay as they
/// were.
pub proof fn law_insert_keeps_the_order(
    m: Seq<(Seq<char>, JsonTree)>,
    key: Seq<char>,
    value: JsonTree,
)
    requires
        forall|i: int, j: int|
            0 <= i < j < m.len() ==> text_before((#[trigger] m[i]).0, (#[trigger] m[j]).0),
    ensures
        ({
            let w = with_member(m, key, value);
            &&& forall|i: int, j: int|
                0 <= i < j < w.len() ==> text_before((#[trigger] w[i]).0, (#[trigger] w[j]).0)
            &&& forall|i: int|
                0 <= i < w.len() ==> (#[trigger] w[i] == (key, value) || m.contains(w[i]))
        }),
    decreases m.len(),
{
    let w = with_member(m, key, value);
    lemma_keys_with_member(m, key, value);
    if m.len() > 0 {
        let rest = m.skip(1);
        assert forall|i: int, j: int| 0 <= i < j < rest.len() implies text_before(
            (#[trigger] rest[i]).0,
            (#[trigger] rest[j]).0,
        ) by {
            assert(rest[i] == m[i + 1] && rest[j] == m[j + 1]);
        }
        law_insert_keeps_the_order(rest, key, value);
        lemma_keys_with_member(rest, key, value);
        let v = with_member(rest, key, value);
        crate::order::lemma_text_before_total(key, m[0].0);
        assert forall|i: int, j: int| 0 <= i < j < w.len() implies text_before(
            (#[trigger] w[i]).0,
            (#[trigger] w[j]).0,
        ) by {
            if m[0].0 == key {
                assert(w[j] == m[j]);
                if i > 0 {
                    assert(w[i] == m[i]);
                }
            } else if text_before(key, m[0].0) {
                assert(w[j] == m[j - 1]);
                if i > 0 {
                    assert(w[i] == m[i - 1]);
                } else if j > 1 {
                    crate::order::lemma_text_before_transitive(key, m[0].0, m[j - 1].0);
                }
            } else {
                assert(w[j] == v[j - 1]);
                if i > 0 {
                    assert(w[i] == v[i - 1]);
                } else {
                    assert(w[0] == m[0]);
                    if v[j - 1] != (key, value) {
                        let k = choose|k: int| 0 <= k < rest.len() && rest[k] == v[j - 1];
                        assert(m[k + 1] == w[j]);
                    }
                }
            }
        }
    }
}

/// A request may have been seen by the daemon as soon as it was written: whatever
/// fails after that, flushing or reading, leaves it open.
pub proof fn law_written_requests_may_have_been_seen(e: String)
    ensures
        !may_have_been_sent(Exchange::NotConnected(e)),
        !may_have_been_sent(Exchange::NotWritten(e)),
        may_have_been_sent(Exchange::NotFlushed(e)),
        may_have_been_sent(Exchange::NotRead(e)),
        may_have_been_sent(Exchange::Read(e)),
{
}

} // verus!
