//! Updating the application and its pack.

use vstd::prelude::*;

use crate::json::{object, parse, put, text, text_or_null, Json};
use crate::json::{members, parsed_json, text_tree, trees, JsonTree};
use crate::number::{decimal_text, parse_u64, signed_decimal_text};
use crate::number::{decimal, signed_decimal, u64_of};
use crate::text::{contains, lines, same_text, strip_prefix, trim, words};
use crate::text::{
    after_prefix, contains_text, lines_of, opt_str_text, opt_text, str_texts, texts, trimmed, words_of,
};

verus! {

broadcast use crate::json::group_json_views;

/// What to do at start about an update that may have been installed.
#[derive(Debug, PartialEq, Eq, Clone, Copy, Structural)]
pub enum PendingUpdatePlan {
    Skip,
    /// A first start: only note the version.
    RecordStampOnly,
    /// Install the new pack and restore the nodes.
    Apply,
}

/// What to do at start about an update that may have been installed.
pub open spec fn pending_plan(
    marker: bool,
    stamp: Option<Seq<char>>,
    current: Seq<char>,
    prior_state: bool,
) -> PendingUpdatePlan {
    if marker || (stamp is None && prior_state) || (stamp matches Some(v) && v != current) {
        PendingUpdatePlan::Apply
    } else if stamp is None {
        PendingUpdatePlan::RecordStampOnly
    } else {
        PendingUpdatePlan::Skip
    }
}

/// What to do at start: a marker or a changed version calls for the update; so
/// does a missing version note where there is state of an earlier one.
pub fn decide_pending_update(
    marker_exists: bool,
    stamp: Option<&str>,
    current_version: &str,
    prior_state_exists: bool,
) -> (r: PendingUpdatePlan)
    ensures
        r == (if marker_exists {
            PendingUpdatePlan::Apply
        } else {
            match stamp {
                None => if prior_state_exists {
                    PendingUpdatePlan::Apply
                } else {
                    PendingUpdatePlan::RecordStampOnly
                },
                Some(v) => if v@ != current_version@ {
                    PendingUpdatePlan::Apply
                } else {
                    PendingUpdatePlan::Skip
                },
            }
        }),
        r == pending_plan(marker_exists, opt_str_text(stamp), current_version@, prior_state_exists),
{
    if marker_exists {
        return PendingUpdatePlan::Apply;
    }
    match stamp {
        None => {
            if prior_state_exists {
                PendingUpdatePlan::Apply
            } else {
                PendingUpdatePlan::RecordStampOnly
            }
        },
        Some(v) => {
            if same_text(v, current_version) {
                PendingUpdatePlan::Skip
            } else {
                PendingUpdatePlan::Apply
            }
        },
    }
}

/// The recorded version: the text of the note without white space around it.
pub fn recorded_version(note: Option<&str>) -> (r: Option<String>)
    ensures
        opt_text(r) == (match note {
            Some(s) => Some(trimmed(s@)),
            None => None,
        }),
{
    match note {
        Some(s) => Some(trim(s).to_owned()),
        None => None,
    }
}

/// What to do after the pack was installed.
#[derive(Debug, PartialEq, Eq)]
pub enum PendingStep {
    /// Remove the marker, note the version and restore the nodes.
    Settle,
    /// Tell the user; everything stays for the next start.
    KeepAndTell(&'static str),
}

/// What to do after the pack was installed: only a pack that was installed
/// settles the update, so that a failed one is tried again.
pub fn maybe_apply_pending_update(pack_ok: bool) -> (r: PendingStep)
    ensures
        if pack_ok {
            r == PendingStep::Settle
        } else {
            r matches PendingStep::KeepAndTell(m) && m@
                == "새 팩 반영(init-pack) 실패 — 노드 복원 보류, 다음 재시작에 재시도"@
        },
{
    if pack_ok {
        PendingStep::Settle
    } else {
        PendingStep::KeepAndTell(
            "새 팩 반영(init-pack) 실패 — 노드 복원 보류, 다음 재시작에 재시도",
        )
    }
}

/// Where the pack manifest is published: the file of that name in the latest release.
pub fn default_pack_manifest_url(file_name: &str) -> (r: String)
    ensures
        r@ == "https://github.com/idoforgod/cys-terminal/releases/latest/download/"@ + file_name@,
{
    let mut url = "https://github.com/idoforgod/cys-terminal/releases/latest/download/".to_owned();
    url.append(file_name);
    url
}

/// A version of three numbers.
pub type Version = (u64, u64, u64);

/// `a` is a later version than `b`.
pub open spec fn later(a: Version, b: Version) -> bool {
    a.0 > b.0 || (a.0 == b.0 && (a.1 > b.1 || (a.1 == b.1 && a.2 > b.2)))
}

/// The running binary is too old for a pack: there is a demand, and it is not
/// known to be met.
pub open spec fn too_old(demanded: bool, min: Option<Version>, running: Option<Version>) -> bool {
    demanded && !(min matches Some(m) && running matches Some(v) && !later(m, v))
}

/// Whether a pack needs a later binary than the running one. Without a demand
/// it does not; a demand or a running version that is no version counts as
/// too old. `min` and `running` are the two texts read as versions.
pub fn pack_binary_too_old(min_binary: &str, min: Option<Version>, running: Option<Version>) -> (r:
    bool)
    ensures
        r == (trimmed(min_binary@).len() > 0 && match (min, running) {
            (Some(m), Some(v)) => later(m, v),
            _ => true,
        }),
        r == too_old(trimmed(min_binary@).len() > 0, min, running),
{
    if trim(min_binary).is_empty() {
        return false;
    }
    match (min, running) {
        (Some(m), Some(v)) => m.0 > v.0 || (m.0 == v.0 && (m.1 > v.1 || (m.1 == v.1 && m.2 > v.2))),
        _ => true,
    }
}

/// An exit status as it is shown for diagnosis.
pub open spec fn shown_code(code: Option<i32>) -> Seq<char> {
    match code {
        Some(c) => "Some("@ + signed_decimal(c as int) + ")"@,
        None => "None"@,
    }
}

fn code_text(code: Option<i32>) -> (r: String)
    ensures
        r@ == shown_code(code),
{
    match code {
        Some(c) => {
            let mut s = "Some(".to_owned();
            s.append(signed_decimal_text(c).as_str());
            s.append(")");
            s
        },
        None => "None".to_owned(),
    }
}

/// The program does not know the option.
pub open spec fn option_unknown(code: Option<i32>, stderr: Seq<char>) -> bool {
    ||| code == Some(2i32)
    ||| contains_text(stderr, "unexpected argument"@)
    ||| contains_text(stderr, "unrecognized"@)
    ||| contains_text(stderr, "Usage:"@) && contains_text(stderr, "--verify"@)
}

/// Why a verified drain failed.
pub open spec fn drain_failure(code: Option<i32>, stderr: Seq<char>) -> Seq<char> {
    if option_unknown(code, stderr) {
        "unsupported: cys drain --verify 미지원(구버전 바이너리) (stderr: "@ + trimmed(stderr)
            + ")"@
    } else {
        "verify_failed: drain --verify 실행 실패(exit="@ + shown_code(code)
            + ", 크래시/하드캡 백스톱 가능) (stderr: "@ + trimmed(stderr) + ")"@
    }
}

/// Why a verified drain failed: a program that is too old, or a failure.
pub fn classify_drain_verify_failure(exit_code: Option<i32>, stderr: &str) -> (r: String)
    ensures
        r@ == drain_failure(exit_code, stderr@),
{
    let usage: bool = match exit_code {
        Some(c) => c == 2,
        None => false,
    };
    if usage || contains(stderr, "unexpected argument") || contains(stderr, "unrecognized") || (
    contains(stderr, "Usage:") && contains(stderr, "--verify")) {
        let mut m = "unsupported: cys drain --verify 미지원(구버전 바이너리) (stderr: ".to_owned();
        m.append(trim(stderr));
        m.append(")");
        m
    } else {
        let mut m = "verify_failed: drain --verify 실행 실패(exit=".to_owned();
        m.append(code_text(exit_code).as_str());
        m.append(", 크래시/하드캡 백스톱 가능) (stderr: ");
        m.append(trim(stderr));
        m.append(")");
        m
    }
}

/// The report of a verified drain, or why there is none.
pub fn drain_verify(exit_code: Option<i32>, stdout: &str, stderr: &str) -> (r: Result<
    Json,
    String,
>)
    ensures
        match parsed_json(trimmed(stdout@)) {
            Ok(t) => r matches Ok(j) && j@ == t,
            Err(_) => r matches Err(e) && e@ == drain_failure(exit_code, stderr@),
        },
{
    match parse(trim(stdout)) {
        Ok(j) => Ok(j),
        Err(_) => Err(classify_drain_verify_failure(exit_code, stderr)),
    }
}

/// Whether the application may be updated: always by force, otherwise only
/// where no terminal keeps the daemon. An unknown number does not keep it.
pub fn install_update(force: bool, sessions: Option<u64>) -> (r: Result<(), String>)
    ensures
        r is Err <==> !force && (sessions matches Some(n) && n > 0),
        r matches Err(e) ==> e@ == "live_sessions:"@ + decimal(sessions->0 as nat),
{
    match sessions {
        Some(n) => {
            if n > 0 && !force {
                let mut e = "live_sessions:".to_owned();
                e.append(decimal_text(n).as_str());
                Err(e)
            } else {
                Ok(())
            }
        },
        None => Ok(()),
    }
}

/// What comes after an update step.
#[derive(Debug, PartialEq, Eq)]
pub enum UpdateStep {
    /// Stop: the new bundle is damaged, and the daemon keeps running.
    Abort(String),
    /// Drain the terminals.
    Drain,
}

/// What comes after the new bundle was put in place: a damaged one is never
/// started.
pub fn after_update_installed(damage: Option<String>) -> (r: UpdateStep)
    ensures
        match damage {
            Some(m) => r == UpdateStep::Abort(m),
            None => r == UpdateStep::Drain,
        },
{
    match damage {
        Some(m) => UpdateStep::Abort(m),
        None => UpdateStep::Drain,
    }
}

/// The token that begins the machine-readable line of a pack update.
pub const REINJECT_RESULT_PREFIX: &'static str = "PACK_UPDATE_RESULT";

/// The number that the last word `key=number` of `words` gives; zero without
/// one, or where that word gives no number.
pub open spec fn count_word(words: Seq<Seq<char>>, key: Seq<char>) -> u64
    decreases words.len(),
{
    if words.len() == 0 {
        0
    } else {
        match after_prefix(words.last(), key) {
            Some(v) => match u64_of(v) {
                Some(n) => n,
                None => 0,
            },
            None => count_word(words.drop_last(), key),
        }
    }
}

/// The first trimmed line from `i` on that begins with the token, without it.
pub open spec fn result_line(lines: Seq<Seq<char>>, i: int) -> Option<Seq<char>>
    decreases lines.len() - i,
{
    if i < 0 || i >= lines.len() {
        None
    } else {
        match after_prefix(trimmed(lines[i]), REINJECT_RESULT_PREFIX@) {
            Some(rest) => Some(rest),
            None => result_line(lines, i + 1),
        }
    }
}

/// How many nodes failed and how many were put off, out of the words behind
/// the token.
pub open spec fn counts_in(rest: Seq<char>) -> (u64, u64) {
    (count_word(words_of(rest), "failed="@), count_word(words_of(rest), "deferred="@))
}

/// How many nodes of a pack update failed and how many were put off.
pub open spec fn reinject_counts(stdout: Seq<char>) -> (u64, u64) {
    match result_line(lines_of(stdout), 0) {
        Some(rest) => counts_in(rest),
        None => (0, 0),
    }
}

proof fn lemma_keys_differ(w: Seq<char>)
    ensures
        after_prefix(w, "failed="@) is Some ==> after_prefix(w, "deferred="@) is None,
{
    reveal_strlit("failed=");
    reveal_strlit("deferred=");
    if crate::text::begins_with(w, "failed="@) && crate::text::begins_with(w, "deferred="@) {
        let a = w.subrange(0, 7);
        let b = w.subrange(0, 9);
        assert("failed="@.len() == 7);
        assert("deferred="@.len() == 9);
        assert(a[0] == w[0]);
        assert(b[0] == w[0]);
        assert("failed="@[0] == 'f');
        assert("deferred="@[0] == 'd');
    }
}

fn counts_of(rest: &str) -> (r: (u64, u64))
    ensures
        r == counts_in(rest@),
{
    let ws = words(rest);
    let ghost wt = words_of(rest@);
    let mut failed: u64 = 0;
    let mut deferred: u64 = 0;
    let mut i: usize = 0;
    while i < ws.len()
        invariant
            i <= ws.len(),
            wt == str_texts(ws@),
            failed == count_word(wt.take(i as int), "failed="@),
            deferred == count_word(wt.take(i as int), "deferred="@),
        decreases ws.len() - i,
    {
        assert(wt.take(i + 1).drop_last() =~= wt.take(i as int));
        assert(wt.take(i + 1).last() == ws@[i as int]@);
        proof {
            lemma_keys_differ(ws@[i as int]@);
        }
        if let Some(v) = strip_prefix(ws[i], "failed=") {
            failed = match parse_u64(v) {
                Some(n) => n,
                None => 0,
            };
        } else if let Some(v) = strip_prefix(ws[i], "deferred=") {
            deferred = match parse_u64(v) {
                Some(n) => n,
                None => 0,
            };
        }
        i += 1;
    }
    assert(wt.take(ws.len() as int) =~= wt);
    (failed, deferred)
}

/// How many nodes of a pack update failed and how many were put off, out of its
/// first machine-readable line; none without one.
pub fn parse_reinject_counts(stdout: &str) -> (r: (u64, u64))
    ensures
        r == reinject_counts(stdout@),
{
    let all = lines(stdout);
    let ghost at = lines_of(stdout@);
    let mut i: usize = 0;
    while i < all.len()
        invariant
            i <= all.len(),
            at == str_texts(all@),
            at == lines_of(stdout@),
            result_line(at, 0) == result_line(at, i as int),
        decreases all.len() - i,
    {
        assert(at[i as int] == all@[i as int]@);
        if let Some(rest) = strip_prefix(trim(all[i]), REINJECT_RESULT_PREFIX) {
            return counts_of(rest);
        }
        i += 1;
    }
    (0, 0)
}

/// The arguments of a pack update: from a directory where one is given, else
/// from a manifest.
pub fn pack_update_args(from: &Option<String>, manifest_url: &Option<String>) -> (r: Result<
    Vec<String>,
    String,
>)
    ensures
        match (*from, *manifest_url) {
            (Some(d), _) => r matches Ok(v) && texts(v@) == seq!["pack-update"@, "--from"@, d@],
            (None, Some(u)) => r matches Ok(v) && texts(v@) == seq![
                "pack-update"@,
                "--manifest-url"@,
                u@,
            ],
            (None, None) => r matches Err(e) && e@ == "from 또는 manifest_url 인자 필요"@,
        },
{
    let mut out: Vec<String> = Vec::new();
    out.push("pack-update".to_owned());
    match (from, manifest_url) {
        (Some(d), _) => {
            out.push("--from".to_owned());
            out.push(d.clone());
            assert(texts(out@) =~= seq!["pack-update"@, "--from"@, d@]);
            Ok(out)
        },
        (None, Some(u)) => {
            out.push("--manifest-url".to_owned());
            out.push(u.clone());
            assert(texts(out@) =~= seq!["pack-update"@, "--manifest-url"@, u@]);
            Ok(out)
        },
        (None, None) => Err("from 또는 manifest_url 인자 필요".to_owned()),
    }
}

/// What a pack update amounts to.
#[derive(Debug, PartialEq, Eq)]
pub enum PackUpdate {
    /// The pack was not updated: the event and the error.
    Failed { event: Json, error: String },
    /// The pack was updated: a warning where nodes were not reached, and the
    /// event.
    Updated { warning: Option<Json>, event: Json },
}

/// The notice that nodes were not reached.
pub open spec fn unreached_notice(version: Seq<char>, failed: u64, deferred: u64) -> Seq<char> {
    "디스크 팩은 "@ + version + " 로 갱신됐으나 reinject "@ + decimal(failed as nat)
        + " 실패·"@ + decimal(deferred as nat)
        + " 보류 — 일부 노드 미각성(라이브 무중단 유지, 재시작 안 함). 다음 pack-update에서 재시도됩니다."@
}

/// The warning of a pack update that did not reach every node.
pub open spec fn pack_warning(version: Seq<char>, failed: u64, deferred: u64) -> JsonTree {
    JsonTree::Object(
        seq![
            ("message"@, JsonTree::Text(unreached_notice(version, failed, deferred))),
            ("pack_version"@, JsonTree::Text(version)),
            ("phase"@, JsonTree::Text("pack-update"@)),
            ("reinject_deferred"@, JsonTree::Unsigned(deferred)),
            ("reinject_failed"@, JsonTree::Unsigned(failed)),
        ],
    )
}

/// The event of an updated pack.
pub open spec fn pack_event(version: Seq<char>, failed: u64, deferred: u64) -> JsonTree {
    JsonTree::Object(
        seq![
            ("pack_version"@, JsonTree::Text(version)),
            ("reinject_deferred"@, JsonTree::Unsigned(deferred)),
            ("reinject_failed"@, JsonTree::Unsigned(failed)),
        ],
    )
}

/// The event of a pack update that failed.
pub open spec fn pack_error_event(stderr: Seq<char>) -> JsonTree {
    JsonTree::Object(
        seq![("message"@, JsonTree::Text(stderr)), ("phase"@, JsonTree::Text("pack-update"@))],
    )
}

/// What a pack update amounts to. One that reached the disk but not every node,
/// which the exit status `degraded` says, is no failure. `pack_version` is the
/// pack's version afterwards.
pub fn install_pack_update(
    success: bool,
    code: Option<i32>,
    degraded: i32,
    stdout: &str,
    stderr: &str,
    pack_version: &str,
) -> (r: PackUpdate)
    ensures
        if !success && code != Some(degraded) {
            r matches PackUpdate::Failed { event, error } && event@ == pack_error_event(stderr@)
                && error@ == "pack-update 실패: "@ + stderr@
        } else {
            let (failed, deferred) = reinject_counts(stdout@);
            r matches PackUpdate::Updated { warning, event } && event@ == pack_event(
                pack_version@,
                failed,
                deferred,
            ) && (warning is Some <==> failed > 0 || deferred > 0) && (warning matches Some(w)
                ==> w@ == pack_warning(pack_version@, failed, deferred))
        },
{
    let half: bool = match code {
        Some(c) => c == degraded,
        None => false,
    };
    if !success && !half {
        let mut m = object();
        put(&mut m, "message", text(stderr));
        put(&mut m, "phase", text("pack-update"));
        assert(members(m@) =~= pack_error_event(stderr@)->Object_0);
        let mut error = "pack-update 실패: ".to_owned();
        error.append(stderr);
        return PackUpdate::Failed { event: Json::Object(m), error };
    }
    let (failed, deferred) = parse_reinject_counts(stdout);
    let warning = if failed > 0 || deferred > 0 {
        let mut msg = "디스크 팩은 ".to_owned();
        msg.append(pack_version);
        msg.append(" 로 갱신됐으나 reinject ");
        msg.append(decimal_text(failed).as_str());
        msg.append(" 실패·");
        msg.append(decimal_text(deferred).as_str());
        msg.append(
            " 보류 — 일부 노드 미각성(라이브 무중단 유지, 재시작 안 함). 다음 pack-update에서 재시도됩니다.",
        );
        let mut w = object();
        put(&mut w, "message", text(msg.as_str()));
        put(&mut w, "pack_version", text(pack_version));
        put(&mut w, "phase", text("pack-update"));
        put(&mut w, "reinject_deferred", Json::Unsigned(deferred));
        put(&mut w, "reinject_failed", Json::Unsigned(failed));
        assert(members(w@) =~= pack_warning(pack_version@, failed, deferred)->Object_0);
        Some(Json::Object(w))
    } else {
        None
    };
    let mut m = object();
    put(&mut m, "pack_version", text(pack_version));
    put(&mut m, "reinject_deferred", Json::Unsigned(deferred));
    put(&mut m, "reinject_failed", Json::Unsigned(failed));
    assert(members(m@) =~= pack_event(pack_version@, failed, deferred)->Object_0);
    PackUpdate::Updated { warning, event: Json::Object(m) }
}

/// What fetching a manifest gave.
#[derive(Debug)]
pub enum Fetch {
    Fetched,
    /// The program ended badly, with this status.
    HttpFailed(Option<i32>),
    /// The program could not be started.
    NotStarted(String),
    /// The task that ran it was lost.
    Lost(String),
}

/// Whether a manifest was fetched, or why not.
pub fn fetch_outcome(fetch: Fetch) -> (r: Result<(), String>)
    ensures
        match fetch {
            Fetch::Fetched => r is Ok,
            Fetch::HttpFailed(c) => r matches Err(e) && e@ == "pack-manifest HTTP 실패(code "@
                + shown_code(c) + ")"@,
            Fetch::NotStarted(w) => r matches Err(e) && e@ == "curl 실행 실패: "@ + w@,
            Fetch::Lost(w) => r matches Err(e) && e@ == "curl join 실패: "@ + w@,
        },
{
    match fetch {
        Fetch::Fetched => Ok(()),
        Fetch::HttpFailed(c) => {
            let mut e = "pack-manifest HTTP 실패(code ".to_owned();
            e.append(code_text(c).as_str());
            e.append(")");
            Err(e)
        },
        Fetch::NotStarted(w) => {
            let mut e = "curl 실행 실패: ".to_owned();
            e.append(w.as_str());
            Err(e)
        },
        Fetch::Lost(w) => {
            let mut e = "curl join 실패: ".to_owned();
            e.append(w.as_str());
            Err(e)
        },
    }
}

/// The offer of a pack.
pub open spec fn pack_offer(
    too_old: bool,
    url: Seq<char>,
    min_binary: Seq<char>,
    version: Seq<char>,
) -> JsonTree {
    JsonTree::Object(
        seq![
            ("binary_too_old"@, JsonTree::Bool(too_old)),
            ("manifest_url"@, JsonTree::Text(url)),
            ("min_binary_version"@, JsonTree::Text(min_binary)),
            ("pack_version"@, JsonTree::Text(version)),
        ],
    )
}

/// The offer of a newer pack, none where it is not newer. It says whether the
/// running binary is too old for it.
pub fn check_pack_update(
    newer: bool,
    url: &str,
    pack_version: &str,
    min_binary: &str,
    min: Option<Version>,
    running: Option<Version>,
) -> (r: Option<Json>)
    ensures
        r is Some <==> newer,
        r matches Some(j) ==> j@ == pack_offer(
            trimmed(min_binary@).len() > 0 && match (min, running) {
                (Some(m), Some(v)) => later(m, v),
                _ => true,
            },
            url@,
            min_binary@,
            pack_version@,
        ),
{
    if !newer {
        return None;
    }
    let too_old = pack_binary_too_old(min_binary, min, running);
    let mut m = object();
    put(&mut m, "binary_too_old", Json::Bool(too_old));
    put(&mut m, "manifest_url", text(url));
    put(&mut m, "min_binary_version", text(min_binary));
    put(&mut m, "pack_version", text(pack_version));
    assert(members(m@) =~= pack_offer(too_old, url@, min_binary@, pack_version@)->Object_0);
    Some(Json::Object(m))
}

/// The process number that the daemon gives of itself.
pub fn daemon_pid(resp: &Json) -> (r: Option<u64>)
    ensures
        r == resp@.at("daemon_pid"@).unsigned(),
{
    match resp.get("daemon_pid") {
        Some(x) => x.as_u64(),
        None => None,
    }
}

/// What is done after one more look whether the daemon still answers.
#[derive(Debug, PartialEq, Eq, Clone, Copy, Structural)]
pub enum StopStep {
    Gone,
    Again,
    GaveUp,
}

/// What is done after look number `tried`, the first being number one, at a daemon
/// that was told to stop: thirty looks at most.
pub fn wait_for_stop(tried: u32, connected: bool) -> (r: StopStep)
    ensures
        r == (if !connected {
            StopStep::Gone
        } else if tried < 30 {
            StopStep::Again
        } else {
            StopStep::GaveUp
        }),
{
    if !connected {
        StopStep::Gone
    } else if tried < 30 {
        StopStep::Again
    } else {
        StopStep::GaveUp
    }
}

/// The process numbers of the scoped entries that have one.
pub open spec fn scoped_pids(a: Seq<JsonTree>) -> Seq<u64>
    decreases a.len(),
{
    if a.len() == 0 {
        Seq::empty()
    } else {
        let head = scoped_pids(a.drop_last());
        match a.last().at("pid"@).unsigned() {
            Some(p) => if a.last().at("scoped"@).boolean() == Some(true) {
                head.push(p)
            } else {
                head
            },
            None => head,
        }
    }
}

/// The processes that end with their owner: those of the ledger that are marked
/// scoped. An entry without the mark is left alone.
pub fn scoped_pids_from_ledger_list(resp: &Json) -> (r: Vec<u64>)
    ensures
        r@ == (match resp@.at("entries"@).array() {
            Some(a) => scoped_pids(a),
            None => Seq::empty(),
        }),
{
    let mut out: Vec<u64> = Vec::new();
    let Some(x) = resp.get("entries") else {
        return out;
    };
    let Some(v) = x.as_array() else {
        return out;
    };
    let ghost all = trees(v@);
    let mut i: usize = 0;
    assert(out@ =~= scoped_pids(all.take(0)));
    while i < v.len()
        invariant
            i <= v.len(),
            all == trees(v@),
            out@ == scoped_pids(all.take(i as int)),
        decreases v.len() - i,
    {
        assert(all.take(i + 1).drop_last() =~= all.take(i as int));
        assert(all.take(i + 1).last() == v@[i as int]@);
        let scoped = match v[i].get("scoped") {
            Some(x) => match x.as_bool() {
                Some(b) => b,
                None => false,
            },
            None => false,
        };
        if let Some(x) = v[i].get("pid") {
            if let Some(p) = x.as_u64() {
                if scoped {
                    out.push(p);
                }
            }
        }
        i += 1;
    }
    assert(all.take(v.len() as int) =~= all);
    out
}

/// The offer of a newer application.
pub open spec fn offer_tree(version: Seq<char>, current: Seq<char>, notes: Option<Seq<char>>) -> JsonTree {
    JsonTree::Object(
        seq![
            ("current"@, JsonTree::Text(current)),
            ("notes"@, text_tree(notes)),
            ("version"@, JsonTree::Text(version)),
        ],
    )
}

/// The offer of a newer application.
pub fn check_update(version: &str, current: &str, notes: &Option<String>) -> (r: Json)
    ensures
        r@ == offer_tree(version@, current@, opt_text(*notes)),
{
    let mut m = object();
    put(&mut m, "current", text(current));
    put(&mut m, "notes", text_or_null(notes));
    put(&mut m, "version", text(version));
    assert(members(m@) =~= offer_tree(version@, current@, opt_text(*notes))->Object_0);
    Json::Object(m)
}

/// Whether the daemon may be replaced, and then whether its terminals are
/// drained first. `skip_drain` says that they were drained already.
pub fn rotate_daemon(force: bool, live: Option<u64>, skip_drain: bool) -> (r: Result<bool, String>)
    ensures
        r is Ok <==> force || live == Some(0u64),
        r matches Ok(drain) ==> drain == !skip_drain,
        r matches Err(e) ==> e@ == (match live {
            Some(n) => "live_sessions:"@ + decimal(n as nat),
            None => "live_sessions:unknown"@,
        }),
{
    match crate::dept::rotation_gate(force, live) {
        Ok(()) => Ok(!skip_drain),
        Err(e) => Err(e),
    }
}

/// Of two versions either one is later or they are the same, never both. A
/// larger first number decides, then the second, then the third; and what is later
/// than a later one is later.
pub proof fn law_versions_are_ordered(a: Version, b: Version, c: Version)
    ensures
        a == b <==> !later(a, b) && !later(b, a),
        !(later(a, b) && later(b, a)),
        later(a, b) && later(b, c) ==> later(a, c),
        a.0 > b.0 ==> later(a, b),
        a.0 == b.0 && a.1 > b.1 ==> later(a, b),
        a.0 == b.0 && a.1 == b.1 && a.2 > b.2 ==> later(a, b),
{
}

/// A failed drain is put down to a program that is too old exactly where it ended
/// with the status for wrong arguments or complained of the option; every other
/// failure names its exit status. What the program complained of is always given.
pub proof fn law_drain_failures_are_told_apart(code: Option<i32>, stderr: Seq<char>)
    ensures
        option_unknown(code, stderr) <==> {
            ||| code == Some(2i32)
            ||| contains_text(stderr, "unexpected argument"@)
            ||| contains_text(stderr, "unrecognized"@)
            ||| (contains_text(stderr, "Usage:"@) && contains_text(stderr, "--verify"@))
        },
        option_unknown(code, stderr) <==> crate::text::begins_with(
            drain_failure(code, stderr),
            "unsupported: "@,
        ),
        !option_unknown(code, stderr) <==> crate::text::begins_with(
            drain_failure(code, stderr),
            "verify_failed: "@,
        ),
        contains_text(drain_failure(code, stderr), trimmed(stderr)),
        !option_unknown(code, stderr) ==> contains_text(
            drain_failure(code, stderr),
            "exit="@ + shown_code(code),
        ),
{
    let d = drain_failure(code, stderr);
    let t = trimmed(stderr);
    reveal_strlit("unsupported: ");
    reveal_strlit("verify_failed: ");
    reveal_strlit("unsupported: cys drain --verify 미지원(구버전 바이너리) (stderr: ");
    reveal_strlit("verify_failed: drain --verify 실행 실패(exit=");
    reveal_strlit("exit=");
    reveal_strlit(")");
    let a = "unsupported: cys drain --verify 미지원(구버전 바이너리) (stderr: "@;
    let b = "verify_failed: drain --verify 실행 실패(exit="@;
    let m = ", 크래시/하드캡 백스톱 가능) (stderr: "@;
    assert(a.subrange(0, 13) =~= "unsupported: "@);
    assert(b.subrange(0, 15) =~= "verify_failed: "@);
    assert(d[0] == (if option_unknown(code, stderr) {
        'u'
    } else {
        'v'
    }));
    assert("unsupported: "@[0] == 'u');
    assert("verify_failed: "@[0] == 'v');
    if option_unknown(code, stderr) {
        assert(d.subrange(0, 13) =~= a.subrange(0, 13));
        assert(d =~= a + t + ")"@);
        crate::text::law_where_patterns_stand(d, t);
        if crate::text::begins_with(d, "verify_failed: "@) {
            assert(d.subrange(0, 15)[0] == d[0]);
        }
    } else {
        assert(d.subrange(0, 15) =~= b.subrange(0, 15));
        assert(d =~= (b + shown_code(code) + m) + t + ")"@);
        crate::text::law_where_patterns_stand(d, t);
        let e = "exit="@ + shown_code(code);
        let n = b.len() - 5;
        assert(b.skip(n) =~= "exit="@);
        assert(d =~= b.take(n) + e + (m + t + ")"@));
        crate::text::law_where_patterns_stand(d, e);
        if crate::text::begins_with(d, "unsupported: "@) {
            assert(d.subrange(0, 13)[0] == d[0]);
        }
    }
}

/// An exit status is shown as the number it is, or as none.
pub proof fn law_shown_exit_status(code: Option<i32>)
    ensures
        shown_code(None) == "None"@,
        code matches Some(n) ==> shown_code(code) == "Some("@ + crate::number::signed_decimal(n as int)
            + ")"@,
{
}

/// The number behind a key is the one that its last word gives, however many
/// words give one; it is zero where no word does.
pub proof fn law_last_word_gives_the_number(words: Seq<Seq<char>>, key: Seq<char>, i: int)
    ensures
        0 <= i < words.len() && crate::text::begins_with(words[i], key) && (forall|j: int|
            i < j < words.len() ==> !crate::text::begins_with(#[trigger] words[j], key))
            ==> count_word(words, key) == (match u64_of(words[i].skip(key.len() as int)) {
            Some(n) => n,
            None => 0,
        }),
        (forall|j: int|
            0 <= j < words.len() ==> !crate::text::begins_with(#[trigger] words[j], key))
            ==> count_word(words, key) == 0,
    decreases words.len(),
{
    if words.len() > 0 {
        let u = words.drop_last();
        law_last_word_gives_the_number(u, key, i);
        assert(forall|j: int| 0 <= j < u.len() ==> u[j] == words[j]);
        if crate::text::begins_with(words.last(), key) {
            assert(words[words.len() - 1] == words.last());
        } else if forall|j: int|
            0 <= j < words.len() ==> !crate::text::begins_with(#[trigger] words[j], key) {
            assert forall|j: int| 0 <= j < u.len() implies !crate::text::begins_with(
                #[trigger] u[j],
                key,
            ) by {
                assert(!crate::text::begins_with(words[j], key));
            }
        } else if 0 <= i < words.len() && crate::text::begins_with(words[i], key) && (forall|
            j: int,
        |
            i < j < words.len() ==> !crate::text::begins_with(#[trigger] words[j], key)) {
            assert(i < u.len());
            assert forall|j: int| i < j < u.len() implies !crate::text::begins_with(
                #[trigger] u[j],
                key,
            ) by {
                assert(!crate::text::begins_with(words[j], key));
            }
        }
    }
}

proof fn lemma_result_line(lines: Seq<Seq<char>>, from: int, i: int)
    requires
        0 <= from <= i < lines.len(),
        crate::text::begins_with(trimmed(lines[i]), "PACK_UPDATE_RESULT"@),
        forall|j: int|
            from <= j < i ==> !crate::text::begins_with(
                trimmed(#[trigger] lines[j]),
                "PACK_UPDATE_RESULT"@,
            ),
    ensures
        result_line(lines, from) == Some(trimmed(lines[i]).skip("PACK_UPDATE_RESULT"@.len() as int)),
    decreases i - from,
{
    if from < i {
        assert(!crate::text::begins_with(trimmed(lines[from]), "PACK_UPDATE_RESULT"@));
        lemma_result_line(lines, from + 1, i);
    }
}

proof fn lemma_no_result_line(lines: Seq<Seq<char>>, from: int)
    requires
        0 <= from,
        forall|j: int|
            from <= j < lines.len() ==> !crate::text::begins_with(
                trimmed(#[trigger] lines[j]),
                "PACK_UPDATE_RESULT"@,
            ),
    ensures
        result_line(lines, from) is None,
    decreases lines.len() - from,
{
    if from < lines.len() {
        assert(!crate::text::begins_with(trimmed(lines[from]), "PACK_UPDATE_RESULT"@));
        lemma_no_result_line(lines, from + 1);
    }
}

/// The counts come from the first line that begins with the token, indented or
/// not: first the failed, then the put off. Without such a line both are zero.
pub proof fn law_counts_come_from_the_first_marked_line(stdout: Seq<char>, i: int)
    ensures
        ({
            let lines = lines_of(stdout);
            let mark = "PACK_UPDATE_RESULT"@;
            &&& 0 <= i < lines.len() && crate::text::begins_with(trimmed(lines[i]), mark) && (
            forall|j: int|
                0 <= j < i ==> !crate::text::begins_with(trimmed(#[trigger] lines[j]), mark)) ==> {
                let words = words_of(trimmed(lines[i]).skip(mark.len() as int));
                &&& reinject_counts(stdout).0 == count_word(words, "failed="@)
                &&& reinject_counts(stdout).1 == count_word(words, "deferred="@)
            }
            &&& (forall|j: int|
                0 <= j < lines.len() ==> !crate::text::begins_with(
                    trimmed(#[trigger] lines[j]),
                    mark,
                )) ==> reinject_counts(stdout) == (0u64, 0u64)
        }),
{
    let lines = lines_of(stdout);
    let mark = "PACK_UPDATE_RESULT"@;
    if 0 <= i < lines.len() && crate::text::begins_with(trimmed(lines[i]), mark) && (forall|j: int|
        0 <= j < i ==> !crate::text::begins_with(trimmed(#[trigger] lines[j]), mark)) {
        lemma_result_line(lines, 0, i);
    }
    if forall|j: int|
        0 <= j < lines.len() ==> !crate::text::begins_with(trimmed(#[trigger] lines[j]), mark) {
        lemma_no_result_line(lines, 0);
    }
}

/// What is told of a pack update carries the version and both counts, each under
/// its own name, and a warning spells them out; a failure carries what the program
/// complained of.
pub proof fn law_pack_events_carry_the_counts(
    version: Seq<char>,
    failed: u64,
    deferred: u64,
    stderr: Seq<char>,
)
    ensures
        ({
            let e = pack_event(version, failed, deferred);
            let w = pack_warning(version, failed, deferred);
            let f = pack_error_event(stderr);
            &&& e.member("pack_version"@) == Some(JsonTree::Text(version))
            &&& e.member("reinject_failed"@) == Some(JsonTree::Unsigned(failed))
            &&& e.member("reinject_deferred"@) == Some(JsonTree::Unsigned(deferred))
            &&& w.member("pack_version"@) == Some(JsonTree::Text(version))
            &&& w.member("reinject_failed"@) == Some(JsonTree::Unsigned(failed))
            &&& w.member("reinject_deferred"@) == Some(JsonTree::Unsigned(deferred))
            &&& w.member("phase"@) == Some(JsonTree::Text("pack-update"@))
            &&& w.member("message"@) == Some(
                JsonTree::Text(
                    "디스크 팩은 "@ + version + " 로 갱신됐으나 reinject "@ + decimal(failed as nat)
                        + " 실패·"@ + decimal(deferred as nat)
                        + " 보류 — 일부 노드 미각성(라이브 무중단 유지, 재시작 안 함). 다음 pack-update에서 재시도됩니다."@,
                ),
            )
            &&& f.member("message"@) == Some(JsonTree::Text(stderr))
            &&& f.member("phase"@) == Some(JsonTree::Text("pack-update"@))
        }),
{
    reveal_strlit("message");
    reveal_strlit("pack_version");
    reveal_strlit("phase");
    reveal_strlit("reinject_deferred");
    reveal_strlit("reinject_failed");
    assert("message"@.len() == 7);
    assert("pack_version"@.len() == 12);
    assert("phase"@.len() == 5);
    assert("reinject_deferred"@.len() == 17);
    assert("reinject_failed"@.len() == 15);
    reveal_with_fuel(crate::json::member_from, 6);
}

/// An offer carries what was found: the versions, where the pack comes from, the
/// notes where there are any, and whether the running binary is too old.
pub proof fn law_offers_carry_what_was_found(
    too_old: bool,
    url: Seq<char>,
    min_binary: Seq<char>,
    version: Seq<char>,
    current: Seq<char>,
    notes: Option<Seq<char>>,
)
    ensures
        ({
            let p = pack_offer(too_old, url, min_binary, version);
            let a = offer_tree(version, current, notes);
            &&& p.member("binary_too_old"@) == Some(JsonTree::Bool(too_old))
            &&& p.member("manifest_url"@) == Some(JsonTree::Text(url))
            &&& p.member("min_binary_version"@) == Some(JsonTree::Text(min_binary))
            &&& p.member("pack_version"@) == Some(JsonTree::Text(version))
            &&& a.member("version"@) == Some(JsonTree::Text(version))
            &&& a.member("current"@) == Some(JsonTree::Text(current))
            &&& a.at("notes"@).text() == notes
            &&& notes is None ==> a.member("notes"@) == Some(JsonTree::Null)
        }),
{
    reveal_strlit("binary_too_old");
    reveal_strlit("manifest_url");
    reveal_strlit("min_binary_version");
    reveal_strlit("pack_version");
    reveal_strlit("current");
    reveal_strlit("notes");
    reveal_strlit("version");
    assert("binary_too_old"@.len() == 14);
    assert("manifest_url"@.len() == 12);
    assert("min_binary_version"@.len() == 18);
    assert("pack_version"@.len() == 12);
    assert("current"@.len() == 7);
    assert("notes"@.len() == 5);
    assert("version"@.len() == 7);
    assert("manifest_url"@[0] != "pack_version"@[0]);
    assert("current"@[0] != "version"@[0]);
    reveal_with_fuel(crate::json::member_from, 8);
}

/// The processes that end with their owner are those of the entries that are
/// marked and have a number, all of them and in order; an entry without the mark
/// never counts.
pub proof fn law_only_marked_processes_end(a: Seq<JsonTree>)
    ensures
        scoped_pids(a) == a.filter(
            |e: JsonTree|
                e.member("scoped"@) == Some(JsonTree::Bool(true)) && (e.member(
                    "pid"@,
                ) matches Some(JsonTree::Unsigned(_))),
        ).map_values(|e: JsonTree| e.member("pid"@)->Some_0->Unsigned_0),
    decreases a.len(),
{
    reveal(Seq::filter);
    if a.len() > 0 {
        law_only_marked_processes_end(a.drop_last());
    }
    assert(scoped_pids(a) =~= a.filter(
        |e: JsonTree|
            e.member("scoped"@) == Some(JsonTree::Bool(true)) && (e.member("pid"@) matches Some(
                JsonTree::Unsigned(_),
            )),
    ).map_values(|e: JsonTree| e.member("pid"@)->Some_0->Unsigned_0));
}

/// A marker always calls for the update. Without one, a start after the very
/// version that was noted does nothing; another version calls for the update; and
/// where nothing was noted it depends on whether there is state of an earlier one.
pub proof fn law_pending_updates(
    marker: bool,
    stamp: Option<Seq<char>>,
    current: Seq<char>,
    prior_state: bool,
)
    ensures
        pending_plan(true, stamp, current, prior_state) == PendingUpdatePlan::Apply,
        pending_plan(marker, stamp, current, prior_state) == PendingUpdatePlan::Skip <==> !marker
            && stamp == Some(current),
        pending_plan(marker, stamp, current, prior_state) == PendingUpdatePlan::RecordStampOnly
            <==> !marker && stamp is None && !prior_state,
        stamp is Some ==> pending_plan(marker, stamp, current, true) == pending_plan(
            marker,
            stamp,
            current,
            false,
        ),
{
}

/// A pack without a demand runs on any binary. One with a demand runs exactly on a
/// binary of the demanded version or a later one; where either version cannot be read
/// it does not run. A binary that is new enough stays so when it gets newer.
pub proof fn law_demand_of_a_pack(m: Version, v: Version, newer: Version)
    ensures
        !too_old(false, Some(m), Some(v)),
        !too_old(false, None, None),
        too_old(true, Some(m), Some(v)) <==> later(m, v),
        !too_old(true, Some(m), Some(m)),
        too_old(true, None, Some(v)),
        too_old(true, Some(m), None),
        !too_old(true, Some(m), Some(v)) && later(newer, v) ==> !too_old(
            true,
            Some(m),
            Some(newer),
        ),
{
}

} // verus!
