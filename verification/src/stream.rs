//! What a daemon pushes: the output of a terminal and its events, and where the
//! daemon keeps the operator's token.

use vstd::prelude::*;

use crate::access::stream_chunk;
use crate::access::encoded_base64;
use crate::json::{object, parse, put, text, Json};
use crate::json::{members, parsed_json, plain_tree, rendered_json, JsonTree};
use crate::rpc::{attach_accepted, close_surface, insert, request_line};
use crate::rpc::{ack_accepts, inserted, request_tree, surface_tree};
use crate::text::{chars_of, same_text, split};
use crate::text::{opt_text, split_on, str_texts};

verus! {

broadcast use crate::json::group_json_views;

/// The line that sends `tree`: its compact form and a line feed, or the line
/// feed alone where it has none.
pub open spec fn line_for(tree: JsonTree) -> Seq<u8> {
    match rendered_json(tree) {
        Ok(bytes) => bytes.push(10u8),
        Err(_) => seq![10u8],
    }
}

fn sent_line(method: &str, params: Json) -> (r: Vec<u8>)
    requires
        plain_tree(params@),
    ensures
        r@ == line_for(request_tree(method@, params@)),
{
    match request_line(method, params) {
        Ok(line) => {
            assert(line@ =~= line@.drop_last().push(10u8));
            line
        },
        Err(_) => {
            let mut line: Vec<u8> = Vec::new();
            line.push(10u8);
            assert(line@ =~= seq![10u8]);
            line
        },
    }
}

/// The request for the output of a terminal.
pub open spec fn attach_request(surface_id: u64) -> JsonTree {
    request_tree("surface.attach"@, surface_tree(surface_id))
}

/// The line that asks for the output of a terminal.
pub fn attach_line(surface_id: u64) -> (r: Vec<u8>)
    ensures
        r@ == line_for(request_tree("surface.attach"@, surface_tree(surface_id))),
        r@ == line_for(attach_request(surface_id)),
{
    let params = close_surface(surface_id);
    proof {
        let m = surface_tree(surface_id)->Object_0;
        assert(plain_tree(m[0].1));
    }
    sent_line("surface.attach", params)
}

/// What happened to the connection that carries a terminal's output.
#[derive(Debug)]
pub enum StreamEvent {
    Connected(bool),
    Sent(bool),
    /// The daemon's first line, where there was one.
    Ack(Option<String>),
    /// A piece of output; none at the end and after an error.
    Chunk(Option<Vec<u8>>),
    /// Whether the interface took a piece.
    Emitted(bool),
}

/// What is done next.
#[derive(Debug, PartialEq, Eq)]
pub enum StreamStep {
    Send(Vec<u8>),
    ReadAck,
    ReadChunk,
    /// Hand this to the interface.
    Emit(String),
    /// Tell the interface that the terminal ended, and stop.
    Exited,
}

/// What is done next about a terminal's output. Whatever ends it, the interface
/// is told; output is read only after the daemon took the attachment.
pub fn start_surface_stream(surface_id: u64, event: &StreamEvent) -> (r: StreamStep)
    requires
        event matches StreamEvent::Chunk(Some(b)) ==> b@.len() / 3 * 4 + 4 <= usize::MAX,
    ensures
        match *event {
            StreamEvent::Connected(ok) => if ok {
                r matches StreamStep::Send(l) && l@ == line_for(
                    request_tree("surface.attach"@, surface_tree(surface_id)),
                )
            } else {
                r is Exited
            },
            StreamEvent::Sent(ok) => if ok {
                r is ReadAck
            } else {
                r is Exited
            },
            StreamEvent::Ack(line) => if line matches Some(l) && ack_accepts(l@) {
                r is ReadChunk
            } else {
                r is Exited
            },
            StreamEvent::Chunk(Some(b)) => r matches StreamStep::Emit(s) && s@ == encoded_base64(
                b@,
            ),
            StreamEvent::Chunk(None) => r is Exited,
            StreamEvent::Emitted(ok) => if ok {
                r is ReadChunk
            } else {
                r is Exited
            },
        },
{
    match event {
        StreamEvent::Connected(true) => StreamStep::Send(attach_line(surface_id)),
        StreamEvent::Sent(true) => StreamStep::ReadAck,
        StreamEvent::Ack(Some(line)) => {
            if attach_accepted(line.as_str()) {
                StreamStep::ReadChunk
            } else {
                StreamStep::Exited
            }
        },
        StreamEvent::Chunk(Some(bytes)) => StreamStep::Emit(stream_chunk(bytes.as_slice())),
        StreamEvent::Emitted(true) => StreamStep::ReadChunk,
        _ => StreamStep::Exited,
    }
}

/// The parameters that ask for the events behind the last one seen.
pub open spec fn after_tree(after_seq: Option<u64>) -> JsonTree {
    JsonTree::Object(
        seq![
            (
                "after_seq"@,
                match after_seq {
                    Some(n) => JsonTree::Unsigned(n),
                    None => JsonTree::Null,
                },
            ),
        ],
    )
}

/// The request for the events behind the last one seen.
pub open spec fn events_request(after_seq: Option<u64>) -> JsonTree {
    request_tree("events.stream"@, after_tree(after_seq))
}

/// The line that asks for the events behind the last one seen.
pub fn events_line(after_seq: Option<u64>) -> (r: Vec<u8>)
    ensures
        r@ == line_for(request_tree("events.stream"@, after_tree(after_seq))),
        r@ == line_for(events_request(after_seq)),
{
    let mut m = object();
    let value = match after_seq {
        Some(n) => Json::Unsigned(n),
        None => Json::Null,
    };
    put(&mut m, "after_seq", value);
    assert(members(m@) =~= after_tree(after_seq)->Object_0);
    proof {
        let a = after_tree(after_seq)->Object_0;
        assert(plain_tree(a[0].1));
    }
    sent_line("events.stream", Json::Object(m))
}

/// What a line of the event stream amounts to: the number of the last event
/// seen, and the event for the interface, with the short name of the socket it
/// came from. A line that is no event changes nothing.
pub open spec fn forwarded(
    value: Option<JsonTree>,
    slug: Seq<char>,
    after_seq: Option<u64>,
) -> (Option<u64>, Option<JsonTree>) {
    match value {
        Some(t) if t.at("type"@).text() == Some("event"@) => (
            match t.at("seq"@).unsigned() {
                Some(n) => Some(n),
                None => after_seq,
            },
            Some(inserted(t, "socket_slug"@, JsonTree::Text(slug))),
        ),
        _ => (after_seq, None),
    }
}

/// What a value of the event stream amounts to.
pub fn forward_value(value: Option<Json>, slug: &str, after_seq: Option<u64>) -> (r: (
    Option<u64>,
    Option<Json>,
))
    ensures
        ({
            let want = forwarded(
                match value {
                    Some(j) => Some(j@),
                    None => None,
                },
                slug@,
                after_seq,
            );
            r.0 == want.0 && match r.1 {
                Some(j) => want.1 == Some(j@),
                None => want.1 is None,
            }
        }),
{
    let Some(v) = value else {
        return (after_seq, None);
    };
    let Some(kind) = v.get("type") else {
        return (after_seq, None);
    };
    let Some(kind) = kind.as_str() else {
        return (after_seq, None);
    };
    if !same_text(kind, "event") {
        return (after_seq, None);
    }
    let seen = match v.get("seq") {
        Some(s) => match s.as_u64() {
            Some(n) => Some(n),
            None => after_seq,
        },
        None => after_seq,
    };
    (seen, Some(insert(v, "socket_slug", text(slug))))
}

/// What a line of the event stream amounts to.
pub fn forward_line(line: &str, slug: &str, after_seq: Option<u64>) -> (r: (
    Option<u64>,
    Option<Json>,
))
    ensures
        ({
            let want = forwarded(
                match parsed_json(line@) {
                    Ok(t) => Some(t),
                    Err(_) => None,
                },
                slug@,
                after_seq,
            );
            r.0 == want.0 && match r.1 {
                Some(j) => want.1 == Some(j@),
                None => want.1 is None,
            }
        }),
{
    let value = match parse(line) {
        Ok(j) => Some(j),
        Err(_) => None,
    };
    forward_value(value, slug, after_seq)
}

/// How often in a row connecting may fail before a daemon's events are given
/// up.
pub const GIVE_UP_AFTER: u32 = 30;

/// The failures in a row after one more attempt, none where the events are
/// given up.
pub open spec fn fails_after(fails: u32, connected: bool) -> Option<u32> {
    if connected {
        Some(0)
    } else if fails + 1 >= GIVE_UP_AFTER {
        None
    } else {
        Some((fails + 1) as u32)
    }
}

/// The failures in a row after one more attempt to follow a daemon's events,
/// none where they are given up. A stream that was established starts the count
/// anew.
pub fn spawn_event_forwarder(fails: u32, connected: bool) -> (r: Option<u32>)
    ensures
        r == fails_after(fails, connected),
{
    if connected {
        Some(0)
    } else if fails >= GIVE_UP_AFTER - 1 {
        None
    } else {
        Some(fails + 1)
    }
}

/// The state after the attempts, each of which connected or did not.
pub open spec fn forwarder_after(attempts: Seq<bool>) -> Option<u32>
    decreases attempts.len(),
{
    if attempts.len() == 0 {
        Some(0)
    } else {
        match forwarder_after(attempts.drop_last()) {
            Some(fails) => fails_after(fails, attempts.last()),
            None => None,
        }
    }
}

/// The number of failures at the end of the attempts.
pub open spec fn failures_at_end(attempts: Seq<bool>) -> nat
    decreases attempts.len(),
{
    if attempts.len() == 0 || attempts.last() {
        0
    } else {
        failures_at_end(attempts.drop_last()) + 1
    }
}

/// A daemon's events are followed as long as connecting never failed thirty
/// times in a row; the first time that it did, they are given up.
pub proof fn law_events_are_followed_until_thirty_failures(attempts: Seq<bool>)
    ensures
        match forwarder_after(attempts) {
            Some(fails) => {
                &&& fails == failures_at_end(attempts)
                &&& forall|n: int|
                    0 <= n <= attempts.len() ==> failures_at_end(#[trigger] attempts.take(n)) < 30
            },
            None => exists|n: int|
                0 <= n <= attempts.len() && failures_at_end(#[trigger] attempts.take(n)) == 30,
        },
    decreases attempts.len(),
{
    if attempts.len() == 0 {
        assert forall|n: int| 0 <= n <= attempts.len() implies failures_at_end(
            #[trigger] attempts.take(n),
        ) < 30 by {
            assert(attempts.take(n) =~= attempts);
        }
    } else {
        let front = attempts.drop_last();
        law_events_are_followed_until_thirty_failures(front);
        assert(attempts.take(attempts.len() as int) =~= attempts);
        assert forall|n: int| 0 <= n <= front.len() implies #[trigger] attempts.take(n)
            == front.take(n) by {
            assert(attempts.take(n) =~= front.take(n));
        }
        match forwarder_after(front) {
            Some(fails) => {
                assert(front.take(front.len() as int) =~= front);
                assert(failures_at_end(front) < 30);
                if attempts.last() || fails + 1 < 30 {
                    assert forall|n: int| 0 <= n <= attempts.len() implies failures_at_end(
                        #[trigger] attempts.take(n),
                    ) < 30 by {
                        if n <= front.len() {
                            assert(failures_at_end(front.take(n)) < 30);
                        }
                    }
                } else {
                    assert(failures_at_end(attempts.take(attempts.len() as int)) == 30);
                }
            },
            None => {
                let n = choose|n: int|
                    0 <= n <= front.len() && failures_at_end(#[trigger] front.take(n)) == 30;
                assert(failures_at_end(attempts.take(n)) == 30);
            },
        }
    }
}

/// Whether `char::is_alphanumeric` counts a character among letters and numbers.
pub uninterp spec fn alphanumeric_char(c: char) -> bool;

/// `char::is_alphanumeric`: whether Unicode counts `c` among the letters and
/// numbers. Which those are is left to the tables of the standard library.
#[verifier::external_body]
fn alphanumeric(c: char) -> (r: bool)
    ensures
        r == alphanumeric_char(c),
{
    c.is_alphanumeric()
}

/// The characters of `s` that are safe in a directory's name.
pub open spec fn safe_chars(s: Seq<char>) -> Seq<char>
    decreases s.len(),
{
    if s.len() == 0 {
        Seq::empty()
    } else if alphanumeric_char(s.last()) || s.last() == '-' || s.last() == '_' {
        safe_chars(s.drop_last()).push(s.last())
    } else {
        safe_chars(s.drop_last())
    }
}

/// The last piece of a pipe's name.
pub open spec fn pipe_name(socket: Seq<char>) -> Seq<char> {
    split_on(split_on(socket, '\\').last(), '/').last()
}

/// The directory of a pipe's daemon below the common one; none for the default
/// daemon.
pub open spec fn pipe_dir(socket: Seq<char>) -> Option<Seq<char>> {
    let slug = safe_chars(pipe_name(socket));
    if slug.len() == 0 || slug == "cys"@ {
        None
    } else {
        Some(slug)
    }
}

/// The directory below the common one that the daemon of a pipe keeps its state
/// in; none for the default daemon.
pub fn pipe_state_dir(socket: &str) -> (r: Option<String>)
    ensures
        opt_text(r) == pipe_dir(socket@),
{
    let outer = split(socket, '\\');
    let tail = outer[outer.len() - 1];
    assert(str_texts(outer@).last() == tail@);
    let inner = split(tail, '/');
    let name = inner[inner.len() - 1];
    assert(str_texts(inner@).last() == name@);
    let v = chars_of(name);
    let mut slug = String::new();
    let mut i: usize = 0;
    assert(slug@ =~= safe_chars(name@.take(0)));
    while i < v.len()
        invariant
            i <= v.len(),
            v@ == name@,
            slug@ == safe_chars(name@.take(i as int)),
        decreases v.len() - i,
    {
        assert(name@.take(i + 1).drop_last() =~= name@.take(i as int));
        assert(name@.take(i + 1).last() == v@[i as int]);
        if alphanumeric(v[i]) || v[i] == '-' || v[i] == '_' {
            slug.push(v[i]);
        }
        i += 1;
    }
    assert(name@.take(v.len() as int) =~= name@);
    if slug.as_str().is_empty() || same_text(slug.as_str(), "cys") {
        None
    } else {
        Some(slug)
    }
}

/// The file that holds the operator's token of the daemon at a socket: beside
/// the socket.
pub fn read_operator_token_for(socket: &str) -> (r: Option<String>)
    ensures
        opt_text(r) == (match crate::path::parent_of(socket@) {
            Some(dir) => Some(crate::path::joined_path(dir, "operator.token"@)),
            None => None,
        }),
{
    match crate::path::parent(socket) {
        Some(dir) => Some(crate::path::join(dir.as_str(), "operator.token")),
        None => None,
    }
}

/// What is asked for is the output of the very terminal that was given, and the
/// events behind the very one that was seen last, or all of them where none was.
pub proof fn law_streams_ask_for_what_was_given(surface_id: u64, after_seq: Option<u64>)
    ensures
        attach_request(surface_id).member("method"@) == Some(JsonTree::Text("surface.attach"@)),
        attach_request(surface_id).at("params"@).member("surface_id"@) == Some(
            JsonTree::Unsigned(surface_id),
        ),
        events_request(after_seq).member("method"@) == Some(JsonTree::Text("events.stream"@)),
        events_request(after_seq).at("params"@).member("after_seq"@) == Some(
            match after_seq {
                Some(n) => JsonTree::Unsigned(n),
                None => JsonTree::Null,
            },
        ),
{
    reveal_strlit("id");
    reveal_strlit("method");
    reveal_strlit("params");
    assert("id"@[0] == 'i');
    assert("method"@[0] == 'm');
    assert("params"@[0] == 'p');
    reveal_with_fuel(crate::json::member_from, 4);
}

/// A line that is sent ends with its only added byte, a line feed; in front of
/// it stands the compact form of what is sent, where there is one.
pub proof fn law_sent_lines_end_with_a_line_feed(tree: JsonTree)
    ensures
        line_for(tree).len() > 0,
        line_for(tree).last() == 10,
        match rendered_json(tree) {
            Ok(bytes) => line_for(tree).drop_last() == bytes,
            Err(_) => line_for(tree).len() == 1,
        },
{
    if let Ok(bytes) = rendered_json(tree) {
        assert(bytes.push(10u8).drop_last() =~= bytes);
    }
}

/// Exactly the events are handed on, marked with the socket they came from and
/// otherwise as they were. The number of an event is the last one seen from then
/// on; anything else leaves that number as it was.
pub proof fn law_events_are_handed_on_as_they_are(
    t: JsonTree,
    slug: Seq<char>,
    after_seq: Option<u64>,
    key: Seq<char>,
)
    ensures
        t.member("type"@) == Some(JsonTree::Text("event"@)) ==> {
            let (seen, event) = forwarded(Some(t), slug, after_seq);
            &&& event matches Some(e) && e.member("socket_slug"@) == Some(JsonTree::Text(slug))
                && (key != "socket_slug"@ ==> e.member(key) == t.member(key))
            &&& seen == (match t.member("seq"@) {
                Some(JsonTree::Unsigned(n)) => Some(n),
                _ => after_seq,
            })
        },
        t.member("type"@) != Some(JsonTree::Text("event"@)) ==> forwarded(
            Some(t),
            slug,
            after_seq,
        ) == (after_seq, None::<JsonTree>),
        forwarded(None, slug, after_seq) == (after_seq, None::<JsonTree>),
{
    if let JsonTree::Object(m) = t {
        crate::rpc::law_insert_reads_back(m, "socket_slug"@, JsonTree::Text(slug), key);
    }
}

/// The characters that stay are the safe ones, all of them and in order.
pub proof fn law_safe_characters_stay(s: Seq<char>)
    ensures
        safe_chars(s) == s.filter(|c: char| alphanumeric_char(c) || c == '-' || c == '_'),
    decreases s.len(),
{
    reveal(Seq::filter);
    if s.len() > 0 {
        law_safe_characters_stay(s.drop_last());
    }
    assert(safe_chars(s) =~= s.filter(|c: char| alphanumeric_char(c) || c == '-' || c == '_'));
}

/// A pipe's name is what follows its last separator of either kind, and its
/// daemon's directory is the safe part of that name; only the default daemon, and
/// one with nothing safe in its name, has none of its own.
pub proof fn law_pipe_directory_is_its_last_name(front: Seq<char>, name: Seq<char>)
    requires
        front.len() == 0 || front.last() == '\\' || front.last() == '/',
        forall|i: int| 0 <= i < name.len() ==> #[trigger] name[i] != '\\' && name[i] != '/',
    ensures
        pipe_name(front + name) == name,
        pipe_dir(front + name) == (if safe_chars(name).len() == 0 || safe_chars(name) == "cys"@ {
            None
        } else {
            Some(safe_chars(name))
        }),
{
    lemma_last_piece(front + name, '\\', front.len() as int);
    let piece = split_on(front + name, '\\').last();
    lemma_last_piece(piece, '/', piece.len() - name.len());
    assert(piece.skip(piece.len() - name.len()) =~= name);
    let last = split_on(piece, '/').last();
    if last.len() > name.len() {
        let s = front + name;
        let k = last.len() - name.len() - 1;
        assert(last[k] == piece[piece.len() - name.len() - 1]);
        assert(piece[piece.len() - name.len() - 1] == s[front.len() - 1]);
        assert(s[front.len() - 1] == front.last());
    }
    assert(last =~= name);
}

/// Where no separator stands behind position `n`, the last piece holds everything
/// from there on, and starts there where a separator stands right before.
proof fn lemma_last_piece(s: Seq<char>, sep: char, n: int)
    requires
        0 <= n <= s.len(),
        forall|i: int| n <= i < s.len() ==> s[i] != sep,
    ensures
        ({
            let last = split_on(s, sep).last();
            &&& split_on(s, sep).len() > 0
            &&& s.len() - n <= last.len() <= s.len()
            &&& last == s.skip(s.len() - last.len())
            &&& last.len() < s.len() ==> s[s.len() - last.len() - 1] == sep
            &&& forall|i: int| 0 <= i < last.len() ==> last[i] != sep
        }),
    decreases s.len(),
{
    let last = split_on(s, sep).last();
    if s.len() == 0 {
        assert(last =~= s.skip(0));
    } else if s.last() == sep {
        lemma_last_piece(s.drop_last(), sep, s.len() - 1);
        assert(last =~= s.skip(s.len() as int));
    } else {
        let u = s.drop_last();
        lemma_last_piece(u, sep, if n <= u.len() { n } else { u.len() as int });
        let old = split_on(u, sep).last();
        assert(last =~= old.push(s.last()));
        assert(last =~= s.skip(s.len() - last.len()));
    }
}

} // verus!
