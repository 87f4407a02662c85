//! Departments: daemons beside the headquarters, each with a socket of its own.

use vstd::prelude::*;

use crate::json::{object, parse, put, text, Json};
use crate::json::{members, parsed_json, trees, JsonTree};
use crate::number::{decimal_text, signed_decimal_text};
use crate::number::{decimal, signed_decimal};
use crate::rpc::{insert, sock_slug};
use crate::rpc::{inserted, slug_of};
use crate::text::{lines, replace, split, starts_with, strip_prefix, trim};
use crate::text::{after_prefix, begins_with, lines_of, opt_text, replaced, split_on, str_texts, texts, trimmed};

verus! {

broadcast use crate::json::group_json_views;

/// A department of the registry. Without a socket of its own it has the one
/// that belongs to its name.
#[derive(Debug)]
pub struct DeptEntry {
    pub name: String,
    pub socket: Option<String>,
    pub display_name: String,
}

/// A department with its texts.
pub struct DeptFacts {
    pub name: Seq<char>,
    pub socket: Option<Seq<char>>,
    pub display_name: Seq<char>,
}

impl DeptEntry {
    pub open spec fn view(self) -> DeptFacts {
        DeptFacts {
            name: self.name@,
            socket: opt_text(self.socket),
            display_name: self.display_name@,
        }
    }
}

/// The text at `key`, where `t` is an object with a text there.
pub open spec fn text_at(t: JsonTree, key: Seq<char>) -> Option<Seq<char>> {
    t.at(key).text()
}

/// The text at `key`, where `j` is an object with a text there.
pub fn get_text(j: &Json, key: &str) -> (r: Option<String>)
    ensures
        opt_text(r) == text_at(j@, key@),
{
    match j.get(key) {
        Some(x) => match x.as_str() {
            Some(s) => Some(s.to_owned()),
            None => None,
        },
        None => None,
    }
}

/// What one member of the registry says of a department.
pub open spec fn dept_facts(m: (Seq<char>, JsonTree)) -> DeptFacts {
    DeptFacts {
        name: m.0,
        socket: text_at(m.1, "socket"@),
        display_name: match text_at(m.1, "display_name"@) {
            Some(d) => d,
            None => m.0,
        },
    }
}

/// The departments of the registry, none where it holds no object of them.
pub open spec fn registry_depts(reg: JsonTree) -> Seq<DeptFacts> {
    match reg.at("depts"@).object() {
        Some(m) => m.map_values(|e: (Seq<char>, JsonTree)| dept_facts(e)),
        None => Seq::empty(),
    }
}

/// What a list of departments says.
pub open spec fn entries_facts(v: Seq<DeptEntry>) -> Seq<DeptFacts> {
    v.map_values(|e: DeptEntry| e@)
}

/// The departments of the registry.
pub fn registry_entries(reg: &Json) -> (r: Vec<DeptEntry>)
    ensures
        entries_facts(r@) == registry_depts(reg@),
{
    let mut out: Vec<DeptEntry> = Vec::new();
    assert(entries_facts(out@) == Seq::<DeptFacts>::empty());
    let Some(depts) = reg.get("depts") else {
        return out;
    };
    let Some(v) = depts.as_object() else {
        return out;
    };
    let ghost want = registry_depts(reg@);
    let mut i: usize = 0;
    while i < v.len()
        invariant
            i <= v.len(),
            want == members(v@).map_values(|e: (Seq<char>, JsonTree)| dept_facts(e)),
            entries_facts(out@) == want.take(i as int),
        decreases v.len() - i,
    {
        let ghost was = out@;
        let display_name = match get_text(&v[i].1, "display_name") {
            Some(d) => d,
            None => v[i].0.clone(),
        };
        let e = DeptEntry {
            name: v[i].0.clone(),
            socket: get_text(&v[i].1, "socket"),
            display_name,
        };
        assert(e@ == want[i as int]);
        out.push(e);
        assert(entries_facts(out@) =~= entries_facts(was).push(e@));
        assert(want.take(i + 1) =~= want.take(i as int).push(want[i as int]));
        i += 1;
    }
    assert(want.take(v.len() as int) =~= want);
    out
}

/// An object with one member that is an empty object.
pub open spec fn empty_under(key: Seq<char>) -> JsonTree {
    JsonTree::Object(seq![(key, JsonTree::Object(Seq::empty()))])
}

fn empty_object_under(key: &str) -> (r: Json)
    ensures
        r@ == empty_under(key@),
{
    let inner = object();
    let mut m = object();
    put(&mut m, key, Json::Object(inner));
    assert(members(m@) =~= empty_under(key@)->Object_0);
    Json::Object(m)
}

/// The registry of departments; one that is not there has none.
pub fn list_depts(content: Option<&str>) -> (r: Result<Json, String>)
    ensures
        match content {
            None => r matches Ok(j) && j@ == empty_under("depts"@),
            Some(c) => match r {
                Ok(j) => parsed_json(c@) == Ok::<JsonTree, Seq<char>>(j@),
                Err(e) => parsed_json(c@) == Err::<JsonTree, Seq<char>>(e@),
            },
        },
{
    match content {
        None => Ok(empty_object_under("depts")),
        Some(c) => parse(c),
    }
}

/// The catalogue of departments; one that is not there or cannot be read has
/// none.
pub fn read_dept_catalog(content: Option<&str>) -> (r: Result<Json, String>)
    ensures
        r is Ok,
        r->Ok_0@ == (match content {
            Some(c) => match parsed_json(c@) {
                Ok(t) => t,
                Err(_) => empty_under("departments"@),
            },
            None => empty_under("departments"@),
        }),
{
    if let Some(c) = content {
        if let Ok(j) = parse(c) {
            return Ok(j);
        }
    }
    Ok(empty_object_under("departments"))
}

/// The name under which the registry shows a department.
pub fn dept_display_name(reg: &Json, name: &str) -> (r: Option<String>)
    ensures
        opt_text(r) == text_at(reg@.at("depts"@).at(name@), "display_name"@),
{
    match reg.get("depts") {
        Some(depts) => match depts.get(name) {
            Some(meta) => get_text(meta, "display_name"),
            None => None,
        },
        None => None,
    }
}

/// The number of departments in the registry.
pub open spec fn dept_count_of(reg: JsonTree) -> int {
    match reg.at("depts"@).object() {
        Some(m) => m.len() as int,
        None => 0,
    }
}

/// The number of departments in the registry, none where it could not be read.
pub fn dept_count(reg: Option<&Json>) -> (r: usize)
    ensures
        r == (match reg {
            Some(j) => dept_count_of(j@),
            None => 0,
        }),
{
    match reg {
        Some(j) => match j.get("depts") {
            Some(depts) => match depts.as_object() {
                Some(v) => v.len(),
                None => 0,
            },
            None => 0,
        },
        None => 0,
    }
}

/// The department that the first marked segment names.
pub open spec fn marked_segment(segments: Seq<Seq<char>>, i: int) -> Option<Seq<char>>
    decreases segments.len() - i,
{
    if i < 0 || i >= segments.len() {
        None
    } else {
        match after_prefix(segments[i], "cys-dept-"@) {
            Some(name) => Some(name),
            None => marked_segment(segments, i + 1),
        }
    }
}

/// The department whose daemon listens at `sock`: the first segment of the path
/// or pipe name that is marked, where it names one.
pub open spec fn dept_of_socket(sock: Seq<char>) -> Option<Seq<char>> {
    match marked_segment(split_on(replaced(sock, '\\', "/"@), '/'), 0) {
        Some(name) => if name.len() > 0 {
            Some(name)
        } else {
            None
        },
        None => None,
    }
}

/// The department whose daemon listens at `sock`.
pub fn dept_name_from_socket(sock: &str) -> (r: Option<String>)
    ensures
        opt_text(r) == dept_of_socket(sock@),
{
    let norm = replace(sock, '\\', "/");
    let segments = split(norm.as_str(), '/');
    let ghost all = split_on(norm@, '/');
    let mut i: usize = 0;
    while i < segments.len()
        invariant
            i <= segments.len(),
            all == str_texts(segments@),
            all == split_on(replaced(sock@, '\\', "/"@), '/'),
            marked_segment(all, 0) == marked_segment(all, i as int),
        decreases segments.len() - i,
    {
        assert(all[i as int] == segments@[i as int]@);
        if let Some(name) = strip_prefix(segments[i], "cys-dept-") {
            return if name.is_empty() {
                None
            } else {
                Some(name.to_owned())
            };
        }
        i += 1;
    }
    None
}

/// The department of a socket, or the error that there is none.
pub fn require_dept(socket: &str) -> (r: Result<String, String>)
    ensures
        match dept_of_socket(socket@) {
            Some(n) => r matches Ok(name) && name@ == n,
            None => r matches Err(e) && e@ == "부서명 파생 실패(비표준 소켓): "@ + socket@,
        },
{
    match dept_name_from_socket(socket) {
        Some(n) => Ok(n),
        None => {
            let mut e = "부서명 파생 실패(비표준 소켓): ".to_owned();
            e.append(socket);
            Err(e)
        },
    }
}

/// What asking one department for its state gave.
pub enum FleetReply {
    Status(Json),
    Failed(String),
    TimedOut,
}

/// What the fleet view shows of one department: its terminals and whether it is
/// paused, or why it did not answer.
pub open spec fn fleet_tree(
    name: Seq<char>,
    display_name: Seq<char>,
    socket: Seq<char>,
    reply: FleetReply,
) -> JsonTree {
    let none = JsonTree::Array(Seq::empty());
    let front = seq![("display_name"@, JsonTree::Text(display_name))];
    let error = match reply {
        FleetReply::Status(_) => Seq::empty(),
        FleetReply::Failed(e) => seq![("error"@, JsonTree::Text(e@))],
        FleetReply::TimedOut => seq![("error"@, JsonTree::Text("timeout"@))],
    };
    let named = seq![("name"@, JsonTree::Text(name))];
    let paused = match reply {
        FleetReply::Status(s) => seq![
            (
                "paused"@,
                match s@.member("paused"@) {
                    Some(p) => p,
                    None => JsonTree::Bool(false),
                },
            ),
        ],
        _ => Seq::empty(),
    };
    let back = seq![
        ("socket"@, JsonTree::Text(socket)),
        ("socket_slug"@, JsonTree::Text(slug_of(socket))),
        (
            "surfaces"@,
            match reply {
                FleetReply::Status(s) => match s@.member("surfaces"@) {
                    Some(a) => a,
                    None => none,
                },
                _ => none,
            },
        ),
    ];
    JsonTree::Object(front + error + named + paused + back)
}

fn no_items() -> (r: Json)
    ensures
        r@ == JsonTree::Array(Seq::empty()),
{
    let v: Vec<Json> = Vec::new();
    assert(trees(v@) =~= Seq::<JsonTree>::empty());
    Json::Array(v)
}

/// What the fleet view shows of one department. A department that does not
/// answer is shown with its error and never hides the others.
pub fn fleet_entry(name: &str, display_name: &str, socket: &str, reply: &FleetReply) -> (r: Json)
    ensures
        r@ == fleet_tree(name@, display_name@, socket@, *reply),
{
    let slug = sock_slug(socket);
    let mut m = object();
    put(&mut m, "display_name", text(display_name));
    match reply {
        FleetReply::Status(_) => {},
        FleetReply::Failed(e) => {
            put(&mut m, "error", text(e.as_str()));
        },
        FleetReply::TimedOut => {
            put(&mut m, "error", text("timeout"));
        },
    }
    put(&mut m, "name", text(name));
    if let FleetReply::Status(s) = reply {
        let paused = match s.get("paused") {
            Some(p) => p.duplicate(),
            None => Json::Bool(false),
        };
        put(&mut m, "paused", paused);
    }
    put(&mut m, "socket", text(socket));
    put(&mut m, "socket_slug", text(slug.as_str()));
    let surfaces = match reply {
        FleetReply::Status(s) => match s.get("surfaces") {
            Some(a) => a.duplicate(),
            None => no_items(),
        },
        _ => no_items(),
    };
    put(&mut m, "surfaces", surfaces);
    assert(members(m@) =~= fleet_tree(name@, display_name@, socket@, *reply)->Object_0);
    Json::Object(m)
}

/// One place to ask for the fleet view.
#[derive(Debug)]
pub struct FleetTarget {
    pub socket: String,
    pub name: String,
    pub display_name: String,
}

/// The places to ask: the headquarters first, then each department of the
/// registry. `sockets` are the departments' sockets, in the same order.
pub fn fleet_targets(default_socket: &str, depts: &Vec<DeptEntry>, sockets: &Vec<String>) -> (r:
    Vec<FleetTarget>)
    requires
        depts@.len() == sockets@.len(),
    ensures
        r@.len() == depts@.len() + 1,
        r@[0].socket@ == default_socket@,
        r@[0].name@ == "_hq"@,
        r@[0].display_name@ == "본부 · CEO"@,
        forall|i: int|
            0 <= i < depts@.len() ==> {
                &&& (#[trigger] r@[i + 1]).socket@ == sockets@[i]@
                &&& r@[i + 1].name@ == depts@[i].name@
                &&& r@[i + 1].display_name@ == depts@[i].display_name@
            },
{
    let mut out: Vec<FleetTarget> = Vec::new();
    out.push(
        FleetTarget {
            socket: default_socket.to_owned(),
            name: "_hq".to_owned(),
            display_name: "본부 · CEO".to_owned(),
        },
    );
    let mut i: usize = 0;
    while i < depts.len()
        invariant
            i <= depts.len() == sockets.len(),
            out@.len() == i + 1,
            out@[0].socket@ == default_socket@,
            out@[0].name@ == "_hq"@,
            out@[0].display_name@ == "본부 · CEO"@,
            forall|k: int|
                0 <= k < i ==> {
                    &&& (#[trigger] out@[k + 1]).socket@ == sockets@[k]@
                    &&& out@[k + 1].name@ == depts@[k].name@
                    &&& out@[k + 1].display_name@ == depts@[k].display_name@
                },
        decreases depts.len() - i,
    {
        out.push(
            FleetTarget {
                socket: sockets[i].clone(),
                name: depts[i].name.clone(),
                display_name: depts[i].display_name.clone(),
            },
        );
        i += 1;
    }
    out
}

/// The whole fleet view: what is shown of each place, in the order asked.
pub fn org_fleet(targets: &Vec<FleetTarget>, replies: &Vec<FleetReply>) -> (r: Json)
    requires
        targets@.len() == replies@.len(),
    ensures
        r@ == JsonTree::Object(
            seq![
                (
                    "departments"@,
                    JsonTree::Array(
                        Seq::new(
                            targets@.len(),
                            |i: int|
                                fleet_tree(
                                    targets@[i].name@,
                                    targets@[i].display_name@,
                                    targets@[i].socket@,
                                    replies@[i],
                                ),
                        ),
                    ),
                ),
            ],
        ),
{
    let ghost want = Seq::new(
        targets@.len(),
        |i: int|
            fleet_tree(
                targets@[i].name@,
                targets@[i].display_name@,
                targets@[i].socket@,
                replies@[i],
            ),
    );
    let mut out: Vec<Json> = Vec::new();
    let mut i: usize = 0;
    while i < targets.len()
        invariant
            i <= targets.len() == replies.len(),
            want == Seq::new(
                targets@.len(),
                |i: int|
                    fleet_tree(
                        targets@[i].name@,
                        targets@[i].display_name@,
                        targets@[i].socket@,
                        replies@[i],
                    ),
            ),
            trees(out@) == want.take(i as int),
        decreases targets.len() - i,
    {
        let ghost was = out@;
        let t = &targets[i];
        let j = fleet_entry(
            t.name.as_str(),
            t.display_name.as_str(),
            t.socket.as_str(),
            &replies[i],
        );
        out.push(j);
        assert(trees(out@) =~= trees(was).push(j@));
        assert(want.take(i + 1) =~= want.take(i as int).push(want[i as int]));
        i += 1;
    }
    assert(want.take(targets.len() as int) =~= want);
    let mut m = object();
    put(&mut m, "departments", Json::Array(out));
    assert(members(m@) =~= seq![("departments"@, JsonTree::Array(want))]);
    Json::Object(m)
}

/// The texts of an array, other items left out.
pub open spec fn text_items(a: Seq<JsonTree>) -> Seq<Seq<char>>
    decreases a.len(),
{
    if a.len() == 0 {
        Seq::empty()
    } else {
        match a.last().text() {
            Some(s) => text_items(a.drop_last()).push(s),
            None => text_items(a.drop_last()),
        }
    }
}

/// The texts of the array at `key`, none where there is no array.
pub open spec fn texts_at(t: JsonTree, key: Seq<char>) -> Seq<Seq<char>> {
    match t.at(key).array() {
        Some(a) => text_items(a),
        None => Seq::empty(),
    }
}

/// The texts of the array at `key`.
pub fn get_texts(j: &Json, key: &str) -> (r: Vec<String>)
    ensures
        texts(r@) == texts_at(j@, key@),
{
    let mut out: Vec<String> = Vec::new();
    assert(texts(out@) == Seq::<Seq<char>>::empty());
    let Some(x) = j.get(key) else {
        return out;
    };
    let Some(v) = x.as_array() else {
        return out;
    };
    let ghost all = trees(v@);
    let mut i: usize = 0;
    assert(texts(out@) == text_items(all.take(0)));
    while i < v.len()
        invariant
            i <= v.len(),
            all == trees(v@),
            texts(out@) == text_items(all.take(i as int)),
        decreases v.len() - i,
    {
        let ghost was = out@;
        assert(all.take(i + 1).drop_last() =~= all.take(i as int));
        assert(all.take(i + 1).last() == v@[i as int]@);
        if let Some(s) = v[i].as_str() {
            out.push(s.to_owned());
            assert(texts(out@) =~= texts(was).push(s@));
        }
        i += 1;
    }
    assert(all.take(v.len() as int) =~= all);
    out
}

/// The departments that are to stay deleted.
pub fn dept_tombstones(resp: &Json) -> (r: Vec<String>)
    ensures
        texts(r@) == texts_at(resp@, "dept_tombstones"@),
{
    get_texts(resp, "dept_tombstones")
}

/// The last line that holds something, trimmed; empty without one.
pub open spec fn last_full_line(lines: Seq<Seq<char>>) -> Seq<char>
    decreases lines.len(),
{
    if lines.len() == 0 {
        Seq::empty()
    } else if trimmed(lines.last()).len() > 0 {
        trimmed(lines.last())
    } else {
        last_full_line(lines.drop_last())
    }
}

fn last_line(s: &str) -> (r: String)
    ensures
        r@ == last_full_line(lines_of(s@)),
{
    let all = lines(s);
    let ghost at = lines_of(s@);
    let mut n: usize = all.len();
    assert(at.take(n as int) =~= at);
    while n > 0
        invariant
            n <= all.len(),
            at == str_texts(all@),
            at == lines_of(s@),
            last_full_line(at) == last_full_line(at.take(n as int)),
        decreases n,
    {
        assert(at.take(n as int).last() == all@[n - 1]@);
        assert(at.take(n as int).drop_last() =~= at.take(n - 1));
        let t = trim(all[n - 1]);
        if !t.is_empty() {
            return t.to_owned();
        }
        n -= 1;
    }
    String::new()
}

/// The tool's arguments for a new department: out of the catalogue, or with the
/// next number.
pub fn allocate_args(catalog_key: &Option<String>) -> (r: Vec<String>)
    ensures
        texts(r@) == (match *catalog_key {
            Some(k) => seq!["create"@, k@],
            None => seq!["allocate"@],
        }),
{
    let mut out: Vec<String> = Vec::new();
    match catalog_key {
        Some(k) => {
            out.push("create".to_owned());
            out.push(k.clone());
            assert(texts(out@) =~= seq!["create"@, k@]);
        },
        None => {
            out.push("allocate".to_owned());
            assert(texts(out@) =~= seq!["allocate"@]);
        },
    }
    out
}

/// The name of a new department out of what the tool printed, or the error: of
/// the tool with its exit status where it worked from the catalogue, of the
/// tool alone otherwise, or that it named none.
pub fn allocate_dept_daemon(
    from_catalog: bool,
    success: bool,
    code: Option<i32>,
    stdout: &str,
    stderr: &str,
) -> (r: Result<String, String>)
    ensures
        match r {
            Ok(name) => success && name@ == last_full_line(lines_of(stdout@)) && name@.len() > 0,
            Err(e) => if !success {
                if from_catalog {
                    e@ == "dept-create:"@ + signed_decimal(
                        match code {
                            Some(c) => c as int,
                            None => -1,
                        },
                    ) + ":"@ + stderr@
                } else {
                    e@ == stderr@
                }
            } else {
                last_full_line(lines_of(stdout@)).len() == 0 && e@ == "allocate: empty name"@
            },
        },
{
    if !success {
        if from_catalog {
            let c: i32 = match code {
                Some(c) => c,
                None => -1,
            };
            let mut e = "dept-create:".to_owned();
            e.append(signed_decimal_text(c).as_str());
            e.append(":");
            e.append(stderr);
            return Err(e);
        }
        return Err(stderr.to_owned());
    }
    let name = last_line(stdout);
    if name.as_str().is_empty() {
        Err("allocate: empty name".to_owned())
    } else {
        Ok(name)
    }
}

/// What a daemon says of itself, with its socket and the socket's short name.
pub open spec fn located(info: JsonTree, socket: Seq<char>) -> JsonTree {
    inserted(
        inserted(info, "socket"@, JsonTree::Text(socket)),
        "socket_slug"@,
        JsonTree::Text(slug_of(socket)),
    )
}

/// What a daemon says of itself, with its socket and the socket's short name.
pub fn locate(info: Json, socket: &str) -> (r: Json)
    ensures
        r@ == located(info@, socket@),
{
    let slug = sock_slug(socket);
    insert(insert(info, "socket", text(socket)), "socket_slug", text(slug.as_str()))
}

/// What the interface learns of a new department: where its daemon is, its
/// name, and the name it is shown under where it came from the catalogue.
pub fn allocated_info(info: Json, socket: &str, name: &str, display_name: &Option<String>) -> (r:
    Json)
    ensures
        ({
            let named = inserted(located(info@, socket@), "name"@, JsonTree::Text(name@));
            r@ == (match *display_name {
                Some(d) => inserted(named, "display_name"@, JsonTree::Text(d@)),
                None => named,
            })
        }),
{
    let j = insert(locate(info, socket), "name", text(name));
    match display_name {
        Some(d) => insert(j, "display_name", text(d.as_str())),
        None => j,
    }
}

/// A terminal that keeps a daemon from being replaced: it runs, and it has a
/// role or an agent. A bare shell never does.
pub open spec fn blocks_rotation(s: JsonTree) -> bool {
    &&& s.at("exited"@).boolean() == Some(false)
    &&& (text_at(s, "role"@) matches Some(v) && v.len() > 0) || (text_at(s, "agent"@) matches Some(
        v,
    ) && v.len() > 0)
}

fn has_text(s: &Json, key: &str) -> (r: bool)
    ensures
        r == (text_at(s@, key@) matches Some(v) && v.len() > 0),
{
    match s.get(key) {
        Some(x) => match x.as_str() {
            Some(v) => !v.is_empty(),
            None => false,
        },
        None => false,
    }
}

/// Whether a terminal keeps its daemon from being replaced.
pub fn session_blocks_rotation(s: &Json) -> (r: bool)
    ensures
        r == blocks_rotation(s@),
{
    let exited = match s.get("exited") {
        Some(x) => match x.as_bool() {
            Some(b) => b,
            None => true,
        },
        None => true,
    };
    !exited && (has_text(s, "role") || has_text(s, "agent"))
}

/// The number of terminals that keep their daemon from being replaced.
pub open spec fn blocking_count(a: Seq<JsonTree>) -> nat
    decreases a.len(),
{
    if a.len() == 0 {
        0
    } else {
        blocking_count(a.drop_last()) + if blocks_rotation(a.last()) {
            1nat
        } else {
            0nat
        }
    }
}

/// The number of blocking terminals in a daemon's list.
pub open spec fn live_sessions(resp: JsonTree) -> nat {
    match resp.at("surfaces"@).array() {
        Some(a) => blocking_count(a),
        None => 0,
    }
}

/// The number of blocking terminals in a daemon's list.
pub fn live_session_count(resp: &Json) -> (r: u64)
    ensures
        r == live_sessions(resp@),
{
    let Some(x) = resp.get("surfaces") else {
        return 0;
    };
    let Some(v) = x.as_array() else {
        return 0;
    };
    let ghost all = trees(v@);
    let mut n: u64 = 0;
    let mut i: usize = 0;
    while i < v.len()
        invariant
            i <= v.len(),
            n <= i,
            all == trees(v@),
            n == blocking_count(all.take(i as int)),
        decreases v.len() - i,
    {
        assert(all.take(i + 1).drop_last() =~= all.take(i as int));
        assert(all.take(i + 1).last() == v@[i as int]@);
        if session_blocks_rotation(&v[i]) {
            n += 1;
        }
        i += 1;
    }
    assert(all.take(v.len() as int) =~= all);
    n
}

/// A daemon may be replaced.
pub open spec fn may_rotate(force: bool, live: Option<u64>) -> bool {
    force || live == Some(0u64)
}

/// Whether a daemon may be replaced: always by force, otherwise only where it
/// was asked and no terminal keeps it. An unknown number keeps it.
pub fn rotation_gate(force: bool, live: Option<u64>) -> (r: Result<(), String>)
    ensures
        r is Ok <==> force || live == Some(0u64),
        r matches Err(e) ==> e@ == (match live {
            Some(n) => "live_sessions:"@ + decimal(n as nat),
            None => "live_sessions:unknown"@,
        }),
        r is Ok <==> may_rotate(force, live),
{
    if force {
        return Ok(());
    }
    match live {
        Some(n) => {
            if n == 0 {
                Ok(())
            } else {
                let mut e = "live_sessions:".to_owned();
                e.append(decimal_text(n).as_str());
                Err(e)
            }
        },
        None => Err("live_sessions:unknown".to_owned()),
    }
}

/// The last line that begins with `prefix`.
pub open spec fn last_with_prefix(lines: Seq<Seq<char>>, prefix: Seq<char>) -> Option<Seq<char>>
    decreases lines.len(),
{
    if lines.len() == 0 {
        None
    } else if begins_with(lines.last(), prefix) {
        Some(lines.last())
    } else {
        last_with_prefix(lines.drop_last(), prefix)
    }
}

fn rotate_log(stdout: &str) -> (r: Option<String>)
    ensures
        opt_text(r) == last_with_prefix(lines_of(stdout@), "rotated "@),
{
    let all = lines(stdout);
    let ghost at = lines_of(stdout@);
    let mut n: usize = all.len();
    assert(at.take(n as int) =~= at);
    while n > 0
        invariant
            n <= all.len(),
            at == str_texts(all@),
            at == lines_of(stdout@),
            last_with_prefix(at, "rotated "@) == last_with_prefix(at.take(n as int), "rotated "@),
        decreases n,
    {
        assert(at.take(n as int).last() == all@[n - 1]@);
        assert(at.take(n as int).drop_last() =~= at.take(n - 1));
        if starts_with(all[n - 1], "rotated ") {
            return Some(all[n - 1].to_owned());
        }
        n -= 1;
    }
    None
}

/// What the interface learns of a replaced daemon: where it is, what the tool
/// said of the replacement, and whether its nodes were restored.
pub fn rotate_dept_daemon(info: Json, socket: &str, stdout: &str, restore_ok: bool) -> (r: Json)
    ensures
        ({
            let here = located(info@, socket@);
            let logged = match last_with_prefix(lines_of(stdout@), "rotated "@) {
                Some(l) => inserted(here, "rotate_log"@, JsonTree::Text(l)),
                None => here,
            };
            r@ == inserted(logged, "restore_ok"@, JsonTree::Bool(restore_ok))
        }),
{
    let here = locate(info, socket);
    let logged = match rotate_log(stdout) {
        Some(l) => insert(here, "rotate_log", text(l.as_str())),
        None => here,
    };
    insert(logged, "restore_ok", Json::Bool(restore_ok))
}

/// The arguments that destroy a department: its state goes, its working
/// directory stays.
pub open spec fn purge_arg_texts(script: Seq<char>, name: Seq<char>) -> Seq<Seq<char>> {
    seq![script, "destroy"@, "--dept"@, name, "--purge"@, "--purge-state"@]
}

/// The arguments that destroy a department.
pub fn purge_dept_args(script: &str, name: &str) -> (r: Vec<String>)
    ensures
        texts(r@) == purge_arg_texts(script@, name@),
{
    let mut out: Vec<String> = Vec::new();
    out.push(script.to_owned());
    out.push("destroy".to_owned());
    out.push("--dept".to_owned());
    out.push(name.to_owned());
    out.push("--purge".to_owned());
    out.push("--purge-state".to_owned());
    assert(texts(out@) =~= purge_arg_texts(script@, name@));
    out
}

/// Destroying a department never asks for its working directory to go, unless
/// that is its very name or the script's.
pub proof fn law_purge_keeps_the_working_directory(script: Seq<char>, name: Seq<char>)
    requires
        script != "--purge-workdir"@,
        name != "--purge-workdir"@,
    ensures
        !purge_arg_texts(script, name).contains("--purge-workdir"@),
        purge_arg_texts(script, name).contains("--purge-state"@),
{
    reveal_strlit("--purge-workdir");
    reveal_strlit("destroy");
    reveal_strlit("--dept");
    reveal_strlit("--purge");
    reveal_strlit("--purge-state");
    let a = purge_arg_texts(script, name);
    assert("--purge-workdir"@.len() == 15);
    assert("--purge-state"@.len() == 13);
    assert(a[5] == "--purge-state"@);
    assert forall|i: int| 0 <= i < a.len() implies a[i] != "--purge-workdir"@ by {
        if i == 1 {
            assert(a[i].len() == 7);
        } else if i == 2 {
            assert(a[i].len() == 6);
        } else if i == 4 {
            assert(a[i].len() == 7);
        } else if i == 5 {
            assert(a[i].len() == 13);
        }
    }
}

/// What the interface shows before a department is destroyed: `state` is the
/// size and the age of its state directory, where there is one.
pub open spec fn purge_preview(
    name: Seq<char>,
    state_dir: Seq<char>,
    state: Option<(u64, u64)>,
    dept_count: usize,
) -> JsonTree {
    let (size, mtime) = match state {
        Some(s) => s,
        None => (0, 0),
    };
    JsonTree::Object(
        seq![
            ("dept_count"@, JsonTree::Unsigned(dept_count as u64)),
            ("exists"@, JsonTree::Bool(state is Some)),
            ("is_last"@, JsonTree::Bool(dept_count <= 1)),
            ("mtime_secs"@, JsonTree::Unsigned(mtime)),
            ("name"@, JsonTree::Text(name)),
            ("size_bytes"@, JsonTree::Unsigned(size)),
            ("state_dir"@, JsonTree::Text(state_dir)),
        ],
    )
}

/// What the interface shows before the department at `socket` is destroyed.
pub fn dept_purge_preview_by_socket(
    socket: &str,
    state_dir: &str,
    state: Option<(u64, u64)>,
    dept_count: usize,
) -> (r: Result<Json, String>)
    ensures
        match dept_of_socket(socket@) {
            None => r matches Err(e) && e@ == "부서명 파생 실패(비표준 소켓): "@ + socket@,
            Some(name) => r matches Ok(j) && j@ == purge_preview(
                name,
                state_dir@,
                state,
                dept_count,
            ),
        },
{
    let name = match require_dept(socket) {
        Ok(n) => n,
        Err(e) => {
            return Err(e);
        },
    };
    let (size, mtime): (u64, u64) = match state {
        Some(s) => s,
        None => (0, 0),
    };
    let mut m = object();
    put(&mut m, "dept_count", Json::Unsigned(dept_count as u64));
    put(&mut m, "exists", Json::Bool(state.is_some()));
    put(&mut m, "is_last", Json::Bool(dept_count <= 1));
    put(&mut m, "mtime_secs", Json::Unsigned(mtime));
    put(&mut m, "name", text(name.as_str()));
    put(&mut m, "size_bytes", Json::Unsigned(size));
    put(&mut m, "state_dir", text(state_dir));
    assert(members(m@) =~= purge_preview(name@, state_dir@, state, dept_count)->Object_0);
    Ok(Json::Object(m))
}

proof fn lemma_marked_behind(a: Seq<Seq<char>>, b: Seq<Seq<char>>, i: int)
    requires
        0 <= i <= a.len(),
        marked_segment(a, i) is None,
    ensures
        marked_segment(a + b, i) == marked_segment(a + b, a.len() as int),
    decreases a.len() - i,
{
    if i < a.len() {
        assert((a + b)[i] == a[i]);
        lemma_marked_behind(a, b, i + 1);
    }
}

/// A character that parts a socket's path or a pipe's name.
pub open spec fn parts_names(c: char) -> bool {
    c == '/' || c == '\\'
}

proof fn lemma_replaced_bare(s: Seq<char>)
    requires
        forall|i: int| 0 <= i < s.len() ==> !parts_names(#[trigger] s[i]),
    ensures
        replaced(s, '\\', "/"@) == s,
    decreases s.len(),
{
    if s.len() > 0 {
        let u = s.drop_last();
        assert(forall|i: int| 0 <= i < u.len() ==> u[i] == s[i]);
        lemma_replaced_bare(u);
        assert(!parts_names(s[s.len() - 1]));
        assert(u.push(s.last()) =~= s);
    } else {
        assert(replaced(s, '\\', "/"@) =~= s);
    }
}

proof fn lemma_replaced_separator(c: char)
    requires
        parts_names(c),
    ensures
        replaced(seq![c], '\\', "/"@) == seq!['/'],
{
    reveal_strlit("/");
    let none = Seq::<char>::empty();
    assert(seq![c].drop_last() =~= none);
    assert(replaced(none, '\\', "/"@) =~= none);
    assert(replaced(seq![c], '\\', "/"@) =~= seq!['/']);
}

/// A department's name is read back out of its socket's path and out of its
/// pipe's name, whatever stands in front of the marked segment and behind it.
pub proof fn law_socket_names_its_department(
    front: Seq<char>,
    sep: char,
    name: Seq<char>,
    behind: Seq<char>,
)
    requires
        parts_names(sep),
        name.len() > 0,
        forall|i: int| 0 <= i < name.len() ==> !parts_names(#[trigger] name[i]),
        behind.len() == 0 || parts_names(behind[0]),
        marked_segment(split_on(replaced(front, '\\', "/"@), '/'), 0) is None,
    ensures
        dept_of_socket(front.push(sep) + ("cys-dept-"@ + name) + behind) == Some(name),
{
    reveal_strlit("cys-dept-");
    let mark = "cys-dept-"@;
    let x = mark + name;
    let sock = front.push(sep) + x + behind;
    let rf = replaced(front, '\\', "/"@);
    assert forall|i: int| 0 <= i < x.len() implies !parts_names(#[trigger] x[i]) by {
        if i >= mark.len() {
            assert(x[i] == name[i - mark.len()]);
        }
    }
    lemma_replaced_bare(x);
    lemma_replaced_separator(sep);
    crate::text::lemma_replaced_concat(front.push(sep) + x, behind, '\\', "/"@);
    crate::text::lemma_replaced_concat(front.push(sep), x, '\\', "/"@);
    crate::text::lemma_replaced_concat(front, seq![sep], '\\', "/"@);
    assert(front + seq![sep] =~= front.push(sep));
    assert(rf + seq!['/'] =~= rf.push('/'));
    let rb = replaced(behind, '\\', "/"@);
    let whole = rf.push('/') + x + rb;
    assert(replaced(sock, '\\', "/"@) == whole);
    crate::text::lemma_split_single(x, '/');
    let a = split_on(rf, '/');
    if behind.len() == 0 {
        assert(rb =~= Seq::<char>::empty());
        assert(whole =~= rf.push('/') + x);
        crate::text::lemma_split_concat(rf, x, '/');
        lemma_marked_behind(a, seq![x], 0);
        assert((a + seq![x])[a.len() as int] == x);
    } else {
        let rest = behind.skip(1);
        let rr = replaced(rest, '\\', "/"@);
        assert(behind =~= seq![behind[0]] + rest);
        lemma_replaced_separator(behind[0]);
        crate::text::lemma_replaced_concat(seq![behind[0]], rest, '\\', "/"@);
        assert(whole =~= rf.push('/') + (x.push('/') + rr));
        crate::text::lemma_split_concat(rf, x.push('/') + rr, '/');
        crate::text::lemma_split_concat(x, rr, '/');
        let b = split_on(x.push('/') + rr, '/');
        assert(b[0] == x);
        lemma_marked_behind(a, b, 0);
        assert((a + b)[a.len() as int] == x);
    }
    assert(x.skip(mark.len() as int) =~= name);
    assert(crate::text::begins_with(x, mark)) by {
        assert(x.take(mark.len() as int) =~= mark);
    }
}

/// A bare shell, without a role and without an agent, never keeps its daemon
/// from being replaced; neither does a terminal that ended.
pub proof fn law_bare_shell_never_blocks(s: JsonTree)
    ensures
        text_at(s, "role"@) is None && text_at(s, "agent"@) is None ==> !blocks_rotation(s),
        s.at("exited"@).boolean() == Some(true) ==> !blocks_rotation(s),
{
}

/// Whether the tool started a department's daemon, or what it complained of.
pub fn launch_dept_daemon(success: bool, stderr: &str) -> (r: Result<(), String>)
    ensures
        r is Ok <==> success,
        r matches Err(e) ==> e@ == stderr@,
{
    if success {
        Ok(())
    } else {
        Err(stderr.to_owned())
    }
}

/// What destroying a department printed, or what it complained of.
pub fn purge_dept_daemon_by_socket(success: bool, stdout: &str, stderr: &str) -> (r: Result<
    String,
    String,
>)
    ensures
        r is Ok <==> success,
        r matches Ok(s) ==> s@ == trimmed(stdout@),
        r matches Err(e) ==> e@ == trimmed(stderr@),
{
    if success {
        Ok(trim(stdout).to_owned())
    } else {
        Err(trim(stderr).to_owned())
    }
}

/// A running terminal keeps its daemon whenever it has a role, whatever its
/// agent, and whenever it has an agent, whatever its role. Nothing else keeps one:
/// not a terminal that ended, and not one whose role and agent are both missing or
/// empty.
pub proof fn law_role_or_agent_blocks(s: JsonTree, word: Seq<char>)
    ensures
        s.member("exited"@) == Some(JsonTree::Bool(false)) && word.len() > 0 && s.member("role"@)
            == Some(JsonTree::Text(word)) ==> blocks_rotation(s),
        s.member("exited"@) == Some(JsonTree::Bool(false)) && word.len() > 0 && s.member("agent"@)
            == Some(JsonTree::Text(word)) ==> blocks_rotation(s),
        blocks_rotation(s) ==> s.member("exited"@) == Some(JsonTree::Bool(false)),
        blocks_rotation(s) ==> {
            ||| s.member("role"@) matches Some(JsonTree::Text(v)) && v.len() > 0
            ||| s.member("agent"@) matches Some(JsonTree::Text(v)) && v.len() > 0
        },
{
}

proof fn lemma_blocking_count(a: Seq<JsonTree>)
    ensures
        blocking_count(a) == a.filter(|s: JsonTree| blocks_rotation(s)).len(),
        forall|i: int| 0 <= i < a.len() && blocks_rotation(#[trigger] a[i]) ==> blocking_count(a)
            > 0,
        blocking_count(a) > 0 ==> exists|i: int| 0 <= i < a.len() && blocks_rotation(
            #[trigger] a[i],
        ),
    decreases a.len(),
{
    reveal(Seq::filter);
    if a.len() > 0 {
        let u = a.drop_last();
        lemma_blocking_count(u);
        assert forall|i: int| 0 <= i < a.len() && blocks_rotation(#[trigger] a[i]) implies
            blocking_count(a) > 0 by {
            if i < u.len() {
                assert(u[i] == a[i]);
            }
        }
        if blocking_count(a) > 0 {
            if blocks_rotation(a.last()) {
                assert(blocks_rotation(a[a.len() - 1]));
            } else {
                let i = choose|i: int| 0 <= i < u.len() && blocks_rotation(#[trigger] u[i]);
                assert(a[i] == u[i]);
            }
        }
    }
}

/// The number of live sessions is the number of listed terminals that keep the
/// daemon: none is missed and none counted twice, so it is zero exactly where no
/// listed terminal keeps it.
pub proof fn law_every_blocking_terminal_is_counted(resp: JsonTree, a: Seq<JsonTree>)
    ensures
        resp.member("surfaces"@) == Some(JsonTree::Array(a)) ==> {
            &&& live_sessions(resp) == a.filter(|s: JsonTree| blocks_rotation(s)).len()
            &&& live_sessions(resp) == 0 <==> forall|i: int|
                0 <= i < a.len() ==> !blocks_rotation(#[trigger] a[i])
        },
        resp.member("surfaces"@) is None ==> live_sessions(resp) == 0,
{
    lemma_blocking_count(a);
}

/// What the fleet view shows of a department is what was asked and what came
/// back. The terminals are the very value in the answer, an empty list where the
/// answer has none or there was no answer. An answered entry says whether the
/// department is paused, as the answer does, and not where it is silent; an entry
/// has an error exactly where there was no answer.
pub proof fn law_fleet_entry_shows_the_answer(
    name: Seq<char>,
    display_name: Seq<char>,
    socket: Seq<char>,
    reply: FleetReply,
)
    ensures
        ({
            let t = fleet_tree(name, display_name, socket, reply);
            &&& t.member("name"@) == Some(JsonTree::Text(name))
            &&& t.member("display_name"@) == Some(JsonTree::Text(display_name))
            &&& t.member("socket"@) == Some(JsonTree::Text(socket))
            &&& t.member("socket_slug"@) == Some(JsonTree::Text(slug_of(socket)))
            &&& match reply {
                FleetReply::Status(s) => {
                    &&& s@.member("surfaces"@) is Some ==> t.member("surfaces"@) == s@.member(
                        "surfaces"@,
                    )
                    &&& s@.member("surfaces"@) is None ==> t.member("surfaces"@) == Some(
                        JsonTree::Array(Seq::empty()),
                    )
                    &&& s@.member("paused"@) is Some ==> t.member("paused"@) == s@.member(
                        "paused"@,
                    )
                    &&& s@.member("paused"@) is None ==> t.member("paused"@) == Some(
                        JsonTree::Bool(false),
                    )
                    &&& t.member("error"@) is None
                },
                FleetReply::Failed(e) => {
                    &&& t.member("error"@) == Some(JsonTree::Text(e@))
                    &&& t.member("surfaces"@) == Some(JsonTree::Array(Seq::empty()))
                    &&& t.member("paused"@) is None
                },
                FleetReply::TimedOut => {
                    &&& t.member("error"@) == Some(JsonTree::Text("timeout"@))
                    &&& t.member("surfaces"@) == Some(JsonTree::Array(Seq::empty()))
                    &&& t.member("paused"@) is None
                },
            }
        }),
{
    reveal_strlit("display_name");
    reveal_strlit("error");
    reveal_strlit("name");
    reveal_strlit("paused");
    reveal_strlit("socket");
    reveal_strlit("socket_slug");
    reveal_strlit("surfaces");
    assert("display_name"@.len() == 12);
    assert("error"@.len() == 5);
    assert("name"@.len() == 4);
    assert("paused"@.len() == 6);
    assert("socket"@.len() == 6);
    assert("socket_slug"@.len() == 11);
    assert("surfaces"@.len() == 8);
    assert("paused"@[0] != "socket"@[0]);
    reveal_with_fuel(crate::json::member_from, 8);
}

/// Each member of the registry is one department, in order and under its own
/// name: with the socket it gives, where that is a text, and shown under the name
/// it gives, or under its own where it gives none.
pub proof fn law_registry_lists_each_department(reg: JsonTree, m: Seq<(Seq<char>, JsonTree)>)
    ensures
        dept_count_of(reg) == registry_depts(reg).len(),
        reg.member("depts"@) == Some(JsonTree::Object(m)) ==> {
            &&& registry_depts(reg).len() == m.len()
            &&& forall|i: int|
                0 <= i < m.len() ==> {
                    let d = #[trigger] registry_depts(reg)[i];
                    &&& d.name == m[i].0
                    &&& d.socket == (match m[i].1.member("socket"@) {
                        Some(JsonTree::Text(s)) => Some(s),
                        _ => None,
                    })
                    &&& d.display_name == (match m[i].1.member("display_name"@) {
                        Some(JsonTree::Text(s)) => s,
                        _ => m[i].0,
                    })
                }
        },
        reg.member("depts"@) is None ==> registry_depts(reg).len() == 0,
{
}

/// The texts of a list are all its texts, in order, and nothing else.
pub proof fn law_texts_of_a_list(a: Seq<JsonTree>)
    ensures
        text_items(a) == a.filter(|t: JsonTree| t is Text).map_values(|t: JsonTree| t->Text_0),
        forall|s: Seq<char>|
            #[trigger] text_items(a).contains(s) <==> a.contains(JsonTree::Text(s)),
    decreases a.len(),
{
    reveal(Seq::filter);
    let w = |t: JsonTree| t is Text;
    let g = |t: JsonTree| t->Text_0;
    let r = text_items(a);
    if a.len() > 0 {
        law_texts_of_a_list(a.drop_last());
    }
    assert(r =~= a.filter(w).map_values(g));
    let places = crate::order::lemma_chosen_places(a, w);
    assert forall|s: Seq<char>| #[trigger] r.contains(s) <==> a.contains(JsonTree::Text(s)) by {
        if r.contains(s) {
            let j = choose|j: int| 0 <= j < r.len() && r[j] == s;
            assert(a.filter(w)[j] == a[places[j]]);
            assert(w(a[places[j]]));
            assert(a[places[j]] == JsonTree::Text(s));
        }
        if a.contains(JsonTree::Text(s)) {
            let i = choose|i: int| 0 <= i < a.len() && a[i] == JsonTree::Text(s);
            assert(w(a[i]));
            let j = choose|j: int| 0 <= j < places.len() && places[j] == i;
            assert(a.filter(w)[j] == a[places[j]]);
            assert(r[j] == s);
        }
    }
}

/// The last full line is a line with something on it, trimmed, behind which
/// there are only blank lines; it is empty exactly where all lines are blank.
pub proof fn law_last_full_line(lines: Seq<Seq<char>>)
    ensures
        if last_full_line(lines).len() == 0 {
            forall|i: int| 0 <= i < lines.len() ==> trimmed(#[trigger] lines[i]).len() == 0
        } else {
            exists|i: int|
                0 <= i < lines.len() && trimmed(#[trigger] lines[i]) == last_full_line(lines)
                    && forall|j: int|
                    i < j < lines.len() ==> trimmed(#[trigger] lines[j]).len() == 0
        },
    decreases lines.len(),
{
    if lines.len() > 0 {
        let u = lines.drop_last();
        let n = lines.len() - 1;
        let l = last_full_line(lines);
        law_last_full_line(u);
        if trimmed(lines.last()).len() > 0 {
            assert(trimmed(lines[n]) == l);
        } else if l.len() == 0 {
            assert forall|i: int| 0 <= i < lines.len() implies trimmed(#[trigger] lines[i]).len()
                == 0 by {
                if i < n {
                    assert(u[i] == lines[i]);
                }
            }
        } else {
            let i = choose|i: int|
                0 <= i < u.len() && trimmed(#[trigger] u[i]) == l && forall|j: int|
                    i < j < u.len() ==> trimmed(#[trigger] u[j]).len() == 0;
            assert(trimmed(lines[i]) == l);
            assert forall|j: int| i < j < lines.len() implies trimmed(#[trigger] lines[j]).len()
                == 0 by {
                if j < n {
                    assert(u[j] == lines[j]);
                }
            }
        }
    }
}

/// The last line with a prefix is one that begins with it, and no later line
/// does; there is none exactly where no line begins with it.
pub proof fn law_last_with_prefix(lines: Seq<Seq<char>>, prefix: Seq<char>)
    ensures
        match last_with_prefix(lines, prefix) {
            Some(l) => exists|i: int|
                0 <= i < lines.len() && #[trigger] lines[i] == l && begins_with(l, prefix)
                    && forall|j: int|
                    i < j < lines.len() ==> !begins_with(#[trigger] lines[j], prefix),
            None => forall|i: int|
                0 <= i < lines.len() ==> !begins_with(#[trigger] lines[i], prefix),
        },
    decreases lines.len(),
{
    if lines.len() > 0 {
        let u = lines.drop_last();
        let n = lines.len() - 1;
        law_last_with_prefix(u, prefix);
        assert(forall|i: int| 0 <= i < n ==> u[i] == lines[i]);
        if begins_with(lines[n], prefix) {
            assert(lines[n] == lines.last());
        } else {
            match last_with_prefix(u, prefix) {
                Some(l) => {
                    let i = choose|i: int|
                        0 <= i < u.len() && #[trigger] u[i] == l && begins_with(l, prefix)
                            && forall|j: int|
                            i < j < u.len() ==> !begins_with(#[trigger] u[j], prefix);
                    assert(lines[i] == l);
                    assert forall|j: int| i < j < lines.len() implies !begins_with(
                        #[trigger] lines[j],
                        prefix,
                    ) by {
                        if j < n {
                            assert(!begins_with(u[j], prefix));
                        }
                    }
                },
                None => {
                    assert forall|i: int| 0 <= i < lines.len() implies !begins_with(
                        #[trigger] lines[i],
                        prefix,
                    ) by {
                        if i < n {
                            assert(!begins_with(u[i], prefix));
                        }
                    }
                },
            }
        }
    }
}

/// What is shown before a department is destroyed says which one, where its
/// state is, whether there is any, how large and how old it is, how many
/// departments there are, and whether this is the last.
pub proof fn law_purge_preview_says_what_goes(
    name: Seq<char>,
    state_dir: Seq<char>,
    state: Option<(u64, u64)>,
    dept_count: usize,
)
    ensures
        ({
            let t = purge_preview(name, state_dir, state, dept_count);
            &&& t.member("name"@) == Some(JsonTree::Text(name))
            &&& t.member("state_dir"@) == Some(JsonTree::Text(state_dir))
            &&& t.member("dept_count"@) matches Some(JsonTree::Unsigned(n)) && n == dept_count
            &&& t.member("is_last"@) == Some(JsonTree::Bool(dept_count == 0 || dept_count == 1))
            &&& match state {
                Some((size, mtime)) => {
                    &&& t.member("exists"@) == Some(JsonTree::Bool(true))
                    &&& t.member("size_bytes"@) == Some(JsonTree::Unsigned(size))
                    &&& t.member("mtime_secs"@) == Some(JsonTree::Unsigned(mtime))
                },
                None => {
                    &&& t.member("exists"@) == Some(JsonTree::Bool(false))
                    &&& t.member("size_bytes"@) == Some(JsonTree::Unsigned(0))
                    &&& t.member("mtime_secs"@) == Some(JsonTree::Unsigned(0))
                },
            }
        }),
{
    reveal_strlit("dept_count");
    reveal_strlit("exists");
    reveal_strlit("is_last");
    reveal_strlit("mtime_secs");
    reveal_strlit("name");
    reveal_strlit("size_bytes");
    reveal_strlit("state_dir");
    assert("dept_count"@.len() == 10);
    assert("exists"@.len() == 6);
    assert("is_last"@.len() == 7);
    assert("mtime_secs"@.len() == 10);
    assert("name"@.len() == 4);
    assert("size_bytes"@.len() == 10);
    assert("state_dir"@.len() == 9);
    assert("dept_count"@[0] != "mtime_secs"@[0]);
    assert("dept_count"@[0] != "size_bytes"@[0]);
    assert("mtime_secs"@[0] != "size_bytes"@[0]);
    reveal_with_fuel(crate::json::member_from, 8);
}

proof fn lemma_marked_segment(segments: Seq<Seq<char>>, i: int)
    requires
        0 <= i,
    ensures
        match marked_segment(segments, i) {
            Some(name) => exists|k: int|
                i <= k < segments.len() && #[trigger] segments[k] == "cys-dept-"@ + name && forall|
                    j: int,
                |
                    i <= j < k ==> !begins_with(#[trigger] segments[j], "cys-dept-"@),
            None => forall|j: int|
                i <= j < segments.len() ==> !begins_with(#[trigger] segments[j], "cys-dept-"@),
        },
    decreases segments.len() - i,
{
    if i < segments.len() {
        let mark = "cys-dept-"@;
        match after_prefix(segments[i], mark) {
            Some(name) => {
                assert(segments[i] =~= mark + name);
            },
            None => {
                lemma_marked_segment(segments, i + 1);
            },
        }
    }
}

/// A socket belongs to the department that the first marked segment of its path
/// names, and to none where no segment is marked or the first marked one names
/// nothing.
pub proof fn law_first_marked_segment_decides(sock: Seq<char>)
    ensures
        ({
            let segments = split_on(replaced(sock, '\\', "/"@), '/');
            match dept_of_socket(sock) {
                Some(name) => name.len() > 0 && exists|k: int|
                    0 <= k < segments.len() && #[trigger] segments[k] == "cys-dept-"@ + name
                        && forall|j: int|
                        0 <= j < k ==> !begins_with(#[trigger] segments[j], "cys-dept-"@),
                None => forall|k: int|
                    0 <= k < segments.len() && begins_with(
                        #[trigger] segments[k],
                        "cys-dept-"@,
                    ) ==> segments[k] == "cys-dept-"@ || exists|j: int|
                        0 <= j < k && begins_with(#[trigger] segments[j], "cys-dept-"@),
            }
        }),
{
    let segments = split_on(replaced(sock, '\\', "/"@), '/');
    let mark = "cys-dept-"@;
    lemma_marked_segment(segments, 0);
    if dept_of_socket(sock) is None {
        if let Some(name) = marked_segment(segments, 0) {
            assert(mark + name =~= mark);
            let first = choose|k: int|
                0 <= k < segments.len() && #[trigger] segments[k] == mark + name && forall|j: int|
                    0 <= j < k ==> !begins_with(#[trigger] segments[j], mark);
            assert(begins_with(segments[first], mark)) by {
                assert(mark.take(mark.len() as int) =~= mark);
            }
            assert forall|k: int|
                0 <= k < segments.len() && begins_with(#[trigger] segments[k], mark) implies
                segments[k] == mark || exists|j: int|
                    0 <= j < k && begins_with(#[trigger] segments[j], mark) by {
                if k > first {
                    assert(begins_with(segments[first], mark));
                }
            }
        }
    }
}

/// What a daemon says of itself stays as it said it; only its socket and the
/// socket's short name are set. What is no object stays as it is.
pub proof fn law_locating_keeps_the_rest(info: JsonTree, socket: Seq<char>, key: Seq<char>)
    ensures
        info is Object ==> {
            let t = located(info, socket);
            &&& t.member("socket"@) == Some(JsonTree::Text(socket))
            &&& t.member("socket_slug"@) == Some(JsonTree::Text(slug_of(socket)))
            &&& key != "socket"@ && key != "socket_slug"@ ==> t.member(key) == info.member(key)
        },
        info !is Object ==> located(info, socket) == info,
{
    reveal_strlit("socket");
    reveal_strlit("socket_slug");
    assert("socket"@.len() != "socket_slug"@.len());
    if let JsonTree::Object(m) = info {
        let first = inserted(info, "socket"@, JsonTree::Text(socket));
        let slug = JsonTree::Text(slug_of(socket));
        crate::rpc::law_insert_reads_back(m, "socket"@, JsonTree::Text(socket), key);
        crate::rpc::law_insert_reads_back(m, "socket"@, JsonTree::Text(socket), "socket"@);
        crate::rpc::law_insert_reads_back(first->Object_0, "socket_slug"@, slug, key);
        crate::rpc::law_insert_reads_back(first->Object_0, "socket_slug"@, slug, "socket"@);
    }
}

/// A registry or a catalogue that is not there reads as one that holds nothing.
pub proof fn law_missing_registry_is_empty(key: Seq<char>)
    ensures
        empty_under(key).member(key) == Some(JsonTree::Object(Seq::empty())),
        registry_depts(empty_under("depts"@)).len() == 0,
{
    reveal_with_fuel(crate::json::member_from, 2);
}

/// Without force a daemon is replaced exactly where its list was read and no
/// terminal in it keeps it; so one running terminal with a role or an agent is
/// enough to keep it, wherever it stands in the list. An unknown list keeps it too.
pub proof fn law_one_terminal_keeps_its_daemon(
    resp: JsonTree,
    a: Seq<JsonTree>,
    i: int,
    live: u64,
)
    requires
        resp.member("surfaces"@) == Some(JsonTree::Array(a)),
        live == live_sessions(resp),
    ensures
        may_rotate(true, Some(live)),
        may_rotate(true, None),
        !may_rotate(false, None),
        0 <= i < a.len() && a[i].member("exited"@) == Some(JsonTree::Bool(false)) && (a[i].member(
            "role"@,
        ) matches Some(JsonTree::Text(v)) && v.len() > 0) ==> !may_rotate(false, Some(live)),
        0 <= i < a.len() && a[i].member("exited"@) == Some(JsonTree::Bool(false)) && (a[i].member(
            "agent"@,
        ) matches Some(JsonTree::Text(v)) && v.len() > 0) ==> !may_rotate(false, Some(live)),
        (forall|k: int| 0 <= k < a.len() ==> !blocks_rotation(#[trigger] a[k])) ==> may_rotate(
            false,
            Some(live),
        ),
{
    law_every_blocking_terminal_is_counted(resp, a);
    if 0 <= i < a.len() && live == 0 {
        assert(!blocks_rotation(a[i]));
    }
}

/// Destroying is asked of the given script, for the given department and no
/// other.
pub proof fn law_purge_names_its_department(script: Seq<char>, name: Seq<char>)
    ensures
        ({
            let r = purge_arg_texts(script, name);
            &&& r.len() == 6
            &&& r[0] == script
            &&& r[1] == "destroy"@
            &&& r[2] == "--dept"@ && r[3] == name
            &&& r[4] == "--purge"@ && r[5] == "--purge-state"@
        }),
{
}

} // verus!
