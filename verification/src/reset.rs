//! Resetting the application to its first state: what is shown beforehand, in
//! which order it goes, and what is reported.

use vstd::prelude::*;

use crate::json::{object, put, text, text_or_null, texts_json, Json};
use crate::json::{members, text_array, text_tree, trees, JsonTree};
use crate::text::{opt_text, texts};

verus! {

broadcast use crate::json::group_json_views;

/// Something that a reset moves away.
#[derive(Debug)]
pub struct ResetItem {
    pub path: String,
    pub label: String,
    pub size_bytes: u64,
    /// It stands outside the application's own state.
    pub outside_state: bool,
}

/// Something that a reset leaves in place.
#[derive(Debug)]
pub struct KeptItem {
    pub path: String,
    pub label: String,
}

/// A path that could not be dealt with, and why.
#[derive(Debug)]
pub struct PathError {
    pub path: String,
    pub error: String,
}

/// What the interface is shown of something that is moved away.
pub open spec fn item_tree(i: ResetItem) -> JsonTree {
    JsonTree::Object(
        seq![
            ("label"@, JsonTree::Text(i.label@)),
            ("outside_state"@, JsonTree::Bool(i.outside_state)),
            ("path"@, JsonTree::Text(i.path@)),
            ("size_bytes"@, JsonTree::Unsigned(i.size_bytes)),
        ],
    )
}

/// What the interface is shown of something that stays.
pub open spec fn kept_tree(k: KeptItem) -> JsonTree {
    JsonTree::Object(
        seq![("label"@, JsonTree::Text(k.label@)), ("path"@, JsonTree::Text(k.path@))],
    )
}

/// What the interface is shown of a path that could not be dealt with.
pub open spec fn error_tree(e: PathError) -> JsonTree {
    JsonTree::Object(
        seq![("error"@, JsonTree::Text(e.error@)), ("path"@, JsonTree::Text(e.path@))],
    )
}

fn item_json(i: &ResetItem) -> (r: Json)
    ensures
        r@ == item_tree(*i),
{
    let mut m = object();
    put(&mut m, "label", text(i.label.as_str()));
    put(&mut m, "outside_state", Json::Bool(i.outside_state));
    put(&mut m, "path", text(i.path.as_str()));
    put(&mut m, "size_bytes", Json::Unsigned(i.size_bytes));
    assert(members(m@) =~= item_tree(*i)->Object_0);
    Json::Object(m)
}

fn items_json(v: &Vec<ResetItem>) -> (r: Json)
    ensures
        r@ == JsonTree::Array(v@.map_values(|i: ResetItem| item_tree(i))),
{
    let ghost want = v@.map_values(|i: ResetItem| item_tree(i));
    let mut out: Vec<Json> = Vec::new();
    let mut i: usize = 0;
    while i < v.len()
        invariant
            i <= v.len(),
            want == v@.map_values(|i: ResetItem| item_tree(i)),
            trees(out@) == want.take(i as int),
        decreases v.len() - i,
    {
        let ghost was = out@;
        let j = item_json(&v[i]);
        out.push(j);
        assert(trees(out@) =~= trees(was).push(j@));
        assert(want.take(i + 1) =~= want.take(i as int).push(want[i as int]));
        i += 1;
    }
    assert(want.take(v.len() as int) =~= want);
    Json::Array(out)
}

fn kept_json(k: &KeptItem) -> (r: Json)
    ensures
        r@ == kept_tree(*k),
{
    let mut m = object();
    put(&mut m, "label", text(k.label.as_str()));
    put(&mut m, "path", text(k.path.as_str()));
    assert(members(m@) =~= kept_tree(*k)->Object_0);
    Json::Object(m)
}

fn kept_list_json(v: &Vec<KeptItem>) -> (r: Json)
    ensures
        r@ == JsonTree::Array(v@.map_values(|k: KeptItem| kept_tree(k))),
{
    let ghost want = v@.map_values(|k: KeptItem| kept_tree(k));
    let mut out: Vec<Json> = Vec::new();
    let mut i: usize = 0;
    while i < v.len()
        invariant
            i <= v.len(),
            want == v@.map_values(|k: KeptItem| kept_tree(k)),
            trees(out@) == want.take(i as int),
        decreases v.len() - i,
    {
        let ghost was = out@;
        let j = kept_json(&v[i]);
        out.push(j);
        assert(trees(out@) =~= trees(was).push(j@));
        assert(want.take(i + 1) =~= want.take(i as int).push(want[i as int]));
        i += 1;
    }
    assert(want.take(v.len() as int) =~= want);
    Json::Array(out)
}

fn error_json(e: &PathError) -> (r: Json)
    ensures
        r@ == error_tree(*e),
{
    let mut m = object();
    put(&mut m, "error", text(e.error.as_str()));
    put(&mut m, "path", text(e.path.as_str()));
    assert(members(m@) =~= error_tree(*e)->Object_0);
    Json::Object(m)
}

fn errors_json(v: &Vec<PathError>) -> (r: Json)
    ensures
        r@ == JsonTree::Array(v@.map_values(|e: PathError| error_tree(e))),
{
    let ghost want = v@.map_values(|e: PathError| error_tree(e));
    let mut out: Vec<Json> = Vec::new();
    let mut i: usize = 0;
    while i < v.len()
        invariant
            i <= v.len(),
            want == v@.map_values(|e: PathError| error_tree(e)),
            trees(out@) == want.take(i as int),
        decreases v.len() - i,
    {
        let ghost was = out@;
        let j = error_json(&v[i]);
        out.push(j);
        assert(trees(out@) =~= trees(was).push(j@));
        assert(want.take(i + 1) =~= want.take(i as int).push(want[i as int]));
        i += 1;
    }
    assert(want.take(v.len() as int) =~= want);
    Json::Array(out)
}

/// What a reset would do.
#[derive(Debug)]
pub struct ResetPlan {
    pub quarantine: Vec<ResetItem>,
    pub total_bytes: u64,
    pub trash_dir: String,
    pub keep: Vec<KeptItem>,
    pub strip_profiles: u64,
    pub report_only: Json,
    /// Why the place that things are moved to cannot be used, where it cannot.
    pub trash_root_error: Option<String>,
    /// What earlier resets that did not finish left behind.
    pub interrupted_prior: Vec<String>,
}

/// What the interface is shown before a reset: every path that is moved and
/// every one that stays, whether the reset can start, and what it would end.
pub open spec fn preview_tree(plan: ResetPlan, live_sessions: u64, dept_count: u64) -> JsonTree {
    JsonTree::Object(
        seq![
            ("dept_count"@, JsonTree::Unsigned(dept_count)),
            ("interrupted_prior"@, text_array(texts(plan.interrupted_prior@))),
            ("kept"@, JsonTree::Array(plan.keep@.map_values(|k: KeptItem| kept_tree(k)))),
            ("live_sessions"@, JsonTree::Unsigned(live_sessions)),
            (
                "quarantine"@,
                JsonTree::Array(plan.quarantine@.map_values(|i: ResetItem| item_tree(i))),
            ),
            ("quarantine_count"@, JsonTree::Unsigned(plan.quarantine@.len() as u64)),
            ("report_only"@, plan.report_only@),
            ("strip_profiles"@, JsonTree::Unsigned(plan.strip_profiles)),
            ("total_bytes"@, JsonTree::Unsigned(plan.total_bytes)),
            ("trash_dir"@, JsonTree::Text(plan.trash_dir@)),
            ("trash_root_error"@, text_tree(opt_text(plan.trash_root_error))),
            ("trash_root_ready"@, JsonTree::Bool(plan.trash_root_error is None)),
        ],
    )
}

/// What the interface is shown before a reset. Without a plan the home
/// directory is not known.
pub fn factory_reset_preview(plan: Option<ResetPlan>, live_sessions: u64, dept_count: u64) -> (r:
    Result<Json, String>)
    ensures
        match plan {
            Some(p) => r matches Ok(j) && j@ == preview_tree(p, live_sessions, dept_count),
            None => r matches Err(e) && e@ == "홈 디렉토리를 해석할 수 없다"@,
        },
{
    let Some(p) = plan else {
        return Err("홈 디렉토리를 해석할 수 없다".to_owned());
    };
    let ghost want = preview_tree(p, live_sessions, dept_count)->Object_0;
    let mut m = object();
    put(&mut m, "dept_count", Json::Unsigned(dept_count));
    put(&mut m, "interrupted_prior", texts_json(&p.interrupted_prior));
    put(&mut m, "kept", kept_list_json(&p.keep));
    put(&mut m, "live_sessions", Json::Unsigned(live_sessions));
    put(&mut m, "quarantine", items_json(&p.quarantine));
    put(&mut m, "quarantine_count", Json::Unsigned(p.quarantine.len() as u64));
    put(&mut m, "report_only", p.report_only);
    put(&mut m, "strip_profiles", Json::Unsigned(p.strip_profiles));
    put(&mut m, "total_bytes", Json::Unsigned(p.total_bytes));
    put(&mut m, "trash_dir", text(p.trash_dir.as_str()));
    put(&mut m, "trash_root_error", text_or_null(&p.trash_root_error));
    put(&mut m, "trash_root_ready", Json::Bool(p.trash_root_error.is_none()));
    assert(members(m@) =~= want);
    Ok(Json::Object(m))
}

/// What a reset did.
#[derive(Debug)]
pub struct ResetReport {
    pub ok: bool,
    pub trash_dir: String,
    pub report_path: String,
    pub moved: u64,
    pub failed: Vec<PathError>,
    pub kept: Vec<String>,
    pub stripped: Json,
    pub revived_warning: Json,
    pub deferred: Vec<PathError>,
    pub skipped_absent: Json,
    pub manifest_written: Json,
    pub interrupted_prior: Vec<String>,
}

/// What the interface is told after a reset.
pub open spec fn report_tree(rep: ResetReport) -> JsonTree {
    JsonTree::Object(
        seq![
            ("deferred"@, JsonTree::Array(rep.deferred@.map_values(|e: PathError| error_tree(e)))),
            ("failed"@, JsonTree::Array(rep.failed@.map_values(|e: PathError| error_tree(e)))),
            ("interrupted_prior"@, text_array(texts(rep.interrupted_prior@))),
            ("kept"@, text_array(texts(rep.kept@))),
            ("manifest_written"@, rep.manifest_written@),
            ("moved"@, JsonTree::Unsigned(rep.moved)),
            ("ok"@, JsonTree::Bool(rep.ok)),
            ("report_path"@, JsonTree::Text(rep.report_path@)),
            ("revived_warning"@, rep.revived_warning@),
            ("skipped_absent"@, rep.skipped_absent@),
            ("stripped"@, rep.stripped@),
            ("trash_dir"@, JsonTree::Text(rep.trash_dir@)),
        ],
    )
}

/// What the interface is told after a reset.
pub fn reset_report(rep: ResetReport) -> (r: Json)
    ensures
        r@ == report_tree(rep),
{
    let ghost want = report_tree(rep)->Object_0;
    let mut m = object();
    put(&mut m, "deferred", errors_json(&rep.deferred));
    put(&mut m, "failed", errors_json(&rep.failed));
    put(&mut m, "interrupted_prior", texts_json(&rep.interrupted_prior));
    put(&mut m, "kept", texts_json(&rep.kept));
    put(&mut m, "manifest_written", rep.manifest_written);
    put(&mut m, "moved", Json::Unsigned(rep.moved));
    put(&mut m, "ok", Json::Bool(rep.ok));
    put(&mut m, "report_path", text(rep.report_path.as_str()));
    put(&mut m, "revived_warning", rep.revived_warning);
    put(&mut m, "skipped_absent", rep.skipped_absent);
    put(&mut m, "stripped", rep.stripped);
    put(&mut m, "trash_dir", text(rep.trash_dir.as_str()));
    assert(members(m@) =~= want);
    Json::Object(m)
}

/// How far a reset has come.
#[derive(Debug)]
pub enum ResetEvent {
    /// It was asked for; the terminal that the application was started in,
    /// where the environment names one.
    Asked { surface: Option<String> },
    /// Whether the home directory is known, and where it is, why the place that
    /// things are moved to cannot be used, where it cannot.
    Planned { home: bool, trash_root_error: Option<String> },
    /// The daemons were told to stop: why they did not, and what that attempt
    /// has changed already.
    Stopped { failure: Option<String>, side_effects: String },
    /// Things were moved, or why they were not.
    Moved(Result<ResetReport, String>),
}

/// What a reset does next.
#[derive(Debug, PartialEq, Eq)]
pub enum ResetStep {
    MakePlan,
    /// Keep daemons from starting, and stop those that run.
    StopDaemons,
    MoveAway,
    Refuse(String),
    Report(Json),
}

/// What a reset does next. It is refused from within a terminal of its own,
/// without a home directory, and where nothing can be moved; all of that before
/// a daemon is touched, and nothing is moved before the daemons are gone.
pub fn factory_reset_execute(event: ResetEvent) -> (r: ResetStep)
    ensures
        match event {
            ResetEvent::Asked { surface } => if surface matches Some(s) && s@.len() > 0 {
                r matches ResetStep::Refuse(e) && e@
                    == "cys surface 안에서 기동된 앱에서는 완전 초기화를 실행할 수 없다 — 앱을 독립 실행하라"@
            } else {
                r is MakePlan
            },
            ResetEvent::Planned { home, trash_root_error } => if !home {
                r matches ResetStep::Refuse(e) && e@ == "홈 디렉토리를 해석할 수 없다"@
            } else {
                match trash_root_error {
                    Some(why) => r matches ResetStep::Refuse(e) && e@
                        == "격리 폴더를 쓸 수 없어 초기화를 시작하지 않는다: "@ + why@,
                    None => r is StopDaemons,
                }
            },
            ResetEvent::Stopped { failure, side_effects } => match failure {
                Some(why) => r matches ResetStep::Refuse(e) && e@ == why@ + "\n"@ + side_effects@,
                None => r is MoveAway,
            },
            ResetEvent::Moved(Ok(rep)) => r matches ResetStep::Report(j) && j@ == report_tree(rep),
            ResetEvent::Moved(Err(why)) => r matches ResetStep::Refuse(e) && e == why,
        },
        r is MoveAway <==> (event matches ResetEvent::Stopped { failure, .. } && failure is None),
        r is StopDaemons <==> (event matches ResetEvent::Planned { home, trash_root_error } && home
            && trash_root_error is None),
{
    match event {
        ResetEvent::Asked { surface } => {
            if let Some(s) = surface {
                if !s.as_str().is_empty() {
                    return ResetStep::Refuse(
                        "cys surface 안에서 기동된 앱에서는 완전 초기화를 실행할 수 없다 — 앱을 독립 실행하라".to_owned(),
                    );
                }
            }
            ResetStep::MakePlan
        },
        ResetEvent::Planned { home, trash_root_error } => {
            if !home {
                return ResetStep::Refuse("홈 디렉토리를 해석할 수 없다".to_owned());
            }
            match trash_root_error {
                Some(why) => {
                    let mut e = "격리 폴더를 쓸 수 없어 초기화를 시작하지 않는다: ".to_owned();
                    e.append(why.as_str());
                    ResetStep::Refuse(e)
                },
                None => ResetStep::StopDaemons,
            }
        },
        ResetEvent::Stopped { failure, side_effects } => match failure {
            Some(why) => {
                let mut e = why;
                e.append("\n");
                e.append(side_effects.as_str());
                ResetStep::Refuse(e)
            },
            None => ResetStep::MoveAway,
        },
        ResetEvent::Moved(Ok(rep)) => ResetStep::Report(reset_report(rep)),
        ResetEvent::Moved(Err(why)) => ResetStep::Refuse(why),
    }
}

/// What is shown of a path names it, and says what it is and why it stands
/// there.
pub proof fn law_reset_items_are_named(i: ResetItem, k: KeptItem, e: PathError)
    ensures
        item_tree(i).member("path"@) == Some(JsonTree::Text(i.path@)),
        item_tree(i).member("label"@) == Some(JsonTree::Text(i.label@)),
        item_tree(i).member("size_bytes"@) == Some(JsonTree::Unsigned(i.size_bytes)),
        item_tree(i).member("outside_state"@) == Some(JsonTree::Bool(i.outside_state)),
        kept_tree(k).member("path"@) == Some(JsonTree::Text(k.path@)),
        kept_tree(k).member("label"@) == Some(JsonTree::Text(k.label@)),
        error_tree(e).member("path"@) == Some(JsonTree::Text(e.path@)),
        error_tree(e).member("error"@) == Some(JsonTree::Text(e.error@)),
{
    reveal_strlit("label");
    reveal_strlit("outside_state");
    reveal_strlit("path");
    reveal_strlit("size_bytes");
    reveal_strlit("error");
    assert("label"@[0] == 'l');
    assert("outside_state"@[0] == 'o');
    assert("path"@[0] == 'p');
    assert("size_bytes"@[0] == 's');
    assert("error"@[0] == 'e');
    reveal_with_fuel(crate::json::member_from, 6);
}

/// Before a reset every path that is moved and every one that stays is shown,
/// none more and in order, with their number and size; and that the reset is ready
/// to start exactly where nothing is wrong with the place that things are moved to.
pub proof fn law_preview_shows_the_whole_plan(plan: ResetPlan, live_sessions: u64, dept_count: u64)
    requires
        plan.quarantine@.len() <= u64::MAX,
    ensures
        ({
            let t = preview_tree(plan, live_sessions, dept_count);
            &&& t.member("quarantine"@) matches Some(JsonTree::Array(a)) && a.len()
                == plan.quarantine@.len() && forall|i: int|
                0 <= i < a.len() ==> #[trigger] a[i] == item_tree(plan.quarantine@[i])
            &&& t.member("kept"@) matches Some(JsonTree::Array(a)) && a.len() == plan.keep@.len()
                && forall|i: int|
                0 <= i < a.len() ==> #[trigger] a[i] == kept_tree(plan.keep@[i])
            &&& t.member("interrupted_prior"@) matches Some(JsonTree::Array(a)) && a.len()
                == plan.interrupted_prior@.len() && forall|i: int|
                0 <= i < a.len() ==> #[trigger] a[i] == JsonTree::Text(
                    plan.interrupted_prior@[i]@,
                )
            &&& t.member("quarantine_count"@) matches Some(JsonTree::Unsigned(n)) && n
                == plan.quarantine@.len()
            &&& t.member("total_bytes"@) == Some(JsonTree::Unsigned(plan.total_bytes))
            &&& t.member("strip_profiles"@) == Some(JsonTree::Unsigned(plan.strip_profiles))
            &&& t.member("trash_dir"@) == Some(JsonTree::Text(plan.trash_dir@))
            &&& t.member("report_only"@) == Some(plan.report_only@)
            &&& t.member("live_sessions"@) == Some(JsonTree::Unsigned(live_sessions))
            &&& t.member("dept_count"@) == Some(JsonTree::Unsigned(dept_count))
            &&& match plan.trash_root_error {
                Some(e) => t.member("trash_root_ready"@) == Some(JsonTree::Bool(false)) && t.member(
                    "trash_root_error"@,
                ) == Some(JsonTree::Text(e@)),
                None => t.member("trash_root_ready"@) == Some(JsonTree::Bool(true)) && t.member(
                    "trash_root_error"@,
                ) == Some(JsonTree::Null),
            }
        }),
{
    reveal_strlit("dept_count");
    reveal_strlit("interrupted_prior");
    reveal_strlit("kept");
    reveal_strlit("live_sessions");
    reveal_strlit("quarantine");
    reveal_strlit("quarantine_count");
    reveal_strlit("report_only");
    reveal_strlit("strip_profiles");
    reveal_strlit("total_bytes");
    reveal_strlit("trash_dir");
    reveal_strlit("trash_root_error");
    reveal_strlit("trash_root_ready");
    assert("dept_count"@.len() == 10);
    assert("interrupted_prior"@.len() == 17);
    assert("kept"@.len() == 4);
    assert("live_sessions"@.len() == 13);
    assert("quarantine"@.len() == 10);
    assert("quarantine_count"@.len() == 16);
    assert("report_only"@.len() == 11);
    assert("strip_profiles"@.len() == 14);
    assert("total_bytes"@.len() == 11);
    assert("trash_dir"@.len() == 9);
    assert("trash_root_error"@.len() == 16);
    assert("trash_root_ready"@.len() == 16);
    assert("dept_count"@[0] != "quarantine"@[0]);
    assert("quarantine_count"@[0] != "trash_root_error"@[0]);
    assert("quarantine_count"@[0] != "trash_root_ready"@[0]);
    assert("report_only"@[0] != "total_bytes"@[0]);
    assert("trash_root_error"@[11] != "trash_root_ready"@[11]);
    reveal_with_fuel(crate::json::member_from, 13);
}

/// After a reset the interface is told whether all went well, how much was moved
/// and where to, and every path that failed, was put off or stayed, none more and
/// in order.
pub proof fn law_report_tells_the_whole_outcome(rep: ResetReport)
    ensures
        ({
            let t = report_tree(rep);
            &&& t.member("ok"@) == Some(JsonTree::Bool(rep.ok))
            &&& t.member("moved"@) == Some(JsonTree::Unsigned(rep.moved))
            &&& t.member("trash_dir"@) == Some(JsonTree::Text(rep.trash_dir@))
            &&& t.member("report_path"@) == Some(JsonTree::Text(rep.report_path@))
            &&& t.member("failed"@) matches Some(JsonTree::Array(a)) && a.len() == rep.failed@.len()
                && forall|i: int|
                0 <= i < a.len() ==> #[trigger] a[i] == error_tree(rep.failed@[i])
            &&& t.member("deferred"@) matches Some(JsonTree::Array(a)) && a.len()
                == rep.deferred@.len() && forall|i: int|
                0 <= i < a.len() ==> #[trigger] a[i] == error_tree(rep.deferred@[i])
            &&& t.member("kept"@) matches Some(JsonTree::Array(a)) && a.len() == rep.kept@.len()
                && forall|i: int|
                0 <= i < a.len() ==> #[trigger] a[i] == JsonTree::Text(rep.kept@[i]@)
            &&& t.member("interrupted_prior"@) matches Some(JsonTree::Array(a)) && a.len()
                == rep.interrupted_prior@.len() && forall|i: int|
                0 <= i < a.len() ==> #[trigger] a[i] == JsonTree::Text(rep.interrupted_prior@[i]@)
            &&& t.member("stripped"@) == Some(rep.stripped@)
            &&& t.member("revived_warning"@) == Some(rep.revived_warning@)
            &&& t.member("skipped_absent"@) == Some(rep.skipped_absent@)
            &&& t.member("manifest_written"@) == Some(rep.manifest_written@)
        }),
{
    reveal_strlit("deferred");
    reveal_strlit("failed");
    reveal_strlit("interrupted_prior");
    reveal_strlit("kept");
    reveal_strlit("manifest_written");
    reveal_strlit("moved");
    reveal_strlit("ok");
    reveal_strlit("report_path");
    reveal_strlit("revived_warning");
    reveal_strlit("skipped_absent");
    reveal_strlit("stripped");
    reveal_strlit("trash_dir");
    assert("deferred"@.len() == 8);
    assert("failed"@.len() == 6);
    assert("interrupted_prior"@.len() == 17);
    assert("kept"@.len() == 4);
    assert("manifest_written"@.len() == 16);
    assert("moved"@.len() == 5);
    assert("ok"@.len() == 2);
    assert("report_path"@.len() == 11);
    assert("revived_warning"@.len() == 15);
    assert("skipped_absent"@.len() == 14);
    assert("stripped"@.len() == 8);
    assert("trash_dir"@.len() == 9);
    assert("deferred"@[0] != "stripped"@[0]);
    reveal_with_fuel(crate::json::member_from, 13);
}

} // verus!
