//! Bringing the daemon and the team up, and what the user is told of it.

use vstd::prelude::*;

use crate::access::text_of_bytes;
use crate::access::lossy_text;
use crate::dept::text_at;
use crate::json::{parse, parse_bytes, Json};
use crate::json::{parsed_bytes, parsed_json, trees, JsonTree};
use crate::number::{decimal_text, signed_decimal_text};
use crate::number::{decimal, signed_decimal};
use crate::text::{join, lines, same_text, starts_with, trim};
use crate::text::{begins_with, joined, lines_of, opt_text, str_texts, texts, trimmed};

verus! {

broadcast use crate::json::group_json_views;

/// The exit status of a team boot that found another one under way.
pub const EXIT_BOOT_BUSY: i32 = 75;

/// What a team boot has to say to the user.
#[derive(Debug, PartialEq, Eq)]
pub enum BootSignal {
    Silent,
    Info(String),
    Warn(String),
}

/// A signal with its text.
pub enum SignalFacts {
    Silent,
    Info(Seq<char>),
    Warn(Seq<char>),
}

impl BootSignal {
    pub open spec fn view(self) -> SignalFacts {
        match self {
            BootSignal::Silent => SignalFacts::Silent,
            BootSignal::Info(m) => SignalFacts::Info(m@),
            BootSignal::Warn(m) => SignalFacts::Warn(m@),
        }
    }
}

/// The event that carries a signal to the interface, none for a silent one.
pub fn emit_boot_signal(signal: BootSignal) -> (r: Option<(&'static str, String)>)
    ensures
        match signal {
            BootSignal::Silent => r is None,
            BootSignal::Info(m) => r matches Some(e) && e.0@ == "boot-info"@ && e.1 == m,
            BootSignal::Warn(m) => r matches Some(e) && e.0@ == "boot-warning"@ && e.1 == m,
        },
{
    match signal {
        BootSignal::Silent => None,
        BootSignal::Info(m) => Some(("boot-info", m)),
        BootSignal::Warn(m) => Some(("boot-warning", m)),
    }
}

/// The trimmed form of the last line that begins, trimmed, with the mark of a
/// terminal.
pub open spec fn last_surface(lines: Seq<Seq<char>>) -> Option<Seq<char>>
    decreases lines.len(),
{
    if lines.len() == 0 {
        None
    } else if begins_with(trimmed(lines.last()), "surface:"@) {
        Some(trimmed(lines.last()))
    } else {
        last_surface(lines.drop_last())
    }
}

/// The terminal that a launched agent runs in, out of what the launch printed.
pub fn launched_surface_ref(stdout: &[u8]) -> (r: Option<String>)
    ensures
        opt_text(r) == last_surface(lines_of(lossy_text(stdout@))),
{
    let s = text_of_bytes(stdout);
    surface_ref_in(s.as_str())
}

/// The terminal that a launched agent runs in, out of the printed text.
pub fn surface_ref_in(stdout: &str) -> (r: Option<String>)
    ensures
        opt_text(r) == last_surface(lines_of(stdout@)),
{
    let all = lines(stdout);
    let ghost at = lines_of(stdout@);
    let mut n: usize = all.len();
    assert(at.take(n as int) =~= at);
    while n > 0
        invariant
            n <= all.len(),
            at == str_texts(all@),
            at == lines_of(stdout@),
            last_surface(at) == last_surface(at.take(n as int)),
        decreases n,
    {
        assert(at.take(n as int).last() == all@[n - 1]@);
        assert(at.take(n as int).drop_last() =~= at.take(n - 1));
        let t = trim(all[n - 1]);
        if starts_with(t, "surface:") {
            return Some(t.to_owned());
        }
        n -= 1;
    }
    None
}

/// The last position at or before `i` at which a line begins with an opening
/// brace.
pub open spec fn last_brace_line(s: Seq<char>, i: int) -> Option<int>
    decreases i + 1,
{
    if i < 0 {
        None
    } else if i + 1 < s.len() && s[i] == '\n' && s[i + 1] == '{' {
        Some(i + 1)
    } else {
        last_brace_line(s, i - 1)
    }
}

/// The text from the last line that begins with an opening brace to the end,
/// or the whole text where only its beginning is one.
pub open spec fn object_candidate(s: Seq<char>) -> Option<Seq<char>> {
    let t = trimmed(s);
    match last_brace_line(t, t.len() - 2) {
        Some(i) => Some(t.skip(i)),
        None => if t.len() > 0 && t[0] == '{' {
            Some(t)
        } else {
            None
        },
    }
}

/// The object that a program printed last, where it printed one.
pub open spec fn last_object(s: Seq<char>) -> Option<JsonTree> {
    match object_candidate(s) {
        Some(c) => match parsed_json(c) {
            Ok(t) => if t is Object {
                Some(t)
            } else {
                None
            },
            Err(_) => None,
        },
        None => None,
    }
}

fn candidate<'a>(s: &'a str) -> (r: Option<&'a str>)
    ensures
        crate::text::opt_str_text(r) == object_candidate(s@),
{
    let t = trim(s);
    let v = crate::text::chars_of(t);
    let mut n: usize = if v.len() > 1 {
        v.len() - 1
    } else {
        0
    };
    while n > 0
        invariant
            n <= v.len(),
            v.len() > 0 ==> n < v.len(),
            v@ == t@,
            t@ == trimmed(s@),
            last_brace_line(t@, t@.len() - 2) == last_brace_line(t@, n - 1),
        decreases n,
    {
        if v[n - 1] == '\n' && v[n] == '{' {
            let r = t.substring_char(n, v.len());
            assert(r@ == t@.skip(n as int));
            return Some(r);
        }
        n -= 1;
    }
    assert(last_brace_line(t@, -1) is None);
    assert(last_brace_line(t@, -2) is None);
    if v.len() > 0 && v[0] == '{' {
        Some(t)
    } else {
        None
    }
}

/// The object that a program printed last, where it printed one.
pub fn parse_last_json_object(s: &str) -> (r: Option<Json>)
    ensures
        match r {
            Some(j) => last_object(s@) == Some(j@),
            None => last_object(s@) is None,
        },
{
    match candidate(s) {
        Some(c) => match parse(c) {
            Ok(j) => match &j {
                Json::Object(_) => Some(j),
                _ => None,
            },
            Err(_) => None,
        },
        None => None,
    }
}

/// A mandatory role that did not come up.
pub open spec fn role_failed(r: JsonTree) -> bool {
    &&& r.at("mandatory"@).boolean() == Some(true)
    &&& text_at(r, "outcome"@) == Some("failed"@) || text_at(r, "outcome"@) == Some("missing"@)
}

/// The text at `key`, or a question mark.
pub open spec fn text_or_mark(r: JsonTree, key: Seq<char>) -> Seq<char> {
    match text_at(r, key) {
        Some(s) => s,
        None => "?"@,
    }
}

/// A failed role in words, with the hint on installing it as it was printed.
pub open spec fn role_words(r: JsonTree) -> Seq<char> {
    let base = text_or_mark(r, "role"@) + "="@ + text_or_mark(r, "outcome"@);
    match text_at(r, "install_hint"@) {
        Some(h) => base + " → "@ + h,
        None => base,
    }
}

/// The failed mandatory roles in words.
pub open spec fn failed_roles(roles: Seq<JsonTree>) -> Seq<Seq<char>>
    decreases roles.len(),
{
    if roles.len() == 0 {
        Seq::empty()
    } else if role_failed(roles.last()) {
        failed_roles(roles.drop_last()).push(role_words(roles.last()))
    } else {
        failed_roles(roles.drop_last())
    }
}

/// The warning of a boot report: the mandatory roles that did not come up,
/// none where all did.
pub open spec fn fatal_words(report: JsonTree) -> Option<Seq<char>> {
    match report.at("roles"@).array() {
        None => None,
        Some(roles) => if failed_roles(roles).len() == 0 {
            None
        } else {
            Some(
                "마스터는 시작됐으나 **의무 노드**가 빠졌습니다: "@ + joined(
                    failed_roles(roles),
                    " · "@,
                ) + ". 팀 없이도 마스터 단독 사용은 가능합니다."@,
            )
        },
    }
}

fn mark_text(r: &Json, key: &str) -> (s: String)
    ensures
        s@ == text_or_mark(r@, key@),
{
    match crate::dept::get_text(r, key) {
        Some(s) => s,
        None => "?".to_owned(),
    }
}

fn failed_role(r: &Json) -> (b: bool)
    ensures
        b == role_failed(r@),
{
    let mandatory = match r.get("mandatory") {
        Some(x) => match x.as_bool() {
            Some(b) => b,
            None => false,
        },
        None => false,
    };
    if !mandatory {
        return false;
    }
    match crate::dept::get_text(r, "outcome") {
        Some(s) => same_text(s.as_str(), "failed") || same_text(s.as_str(), "missing"),
        None => false,
    }
}

/// The warning of a boot report.
pub fn boot_report_fatal(report: &Json) -> (r: Option<String>)
    ensures
        opt_text(r) == fatal_words(report@),
{
    let Some(x) = report.get("roles") else {
        return None;
    };
    let Some(v) = x.as_array() else {
        return None;
    };
    let ghost all = trees(v@);
    let mut bad: Vec<String> = Vec::new();
    let mut i: usize = 0;
    assert(texts(bad@) =~= failed_roles(all.take(0)));
    while i < v.len()
        invariant
            i <= v.len(),
            all == trees(v@),
            texts(bad@) == failed_roles(all.take(i as int)),
        decreases v.len() - i,
    {
        let ghost was = bad@;
        assert(all.take(i + 1).drop_last() =~= all.take(i as int));
        assert(all.take(i + 1).last() == v@[i as int]@);
        if failed_role(&v[i]) {
            let mut w = mark_text(&v[i], "role");
            w.append("=");
            w.append(mark_text(&v[i], "outcome").as_str());
            if let Some(h) = crate::dept::get_text(&v[i], "install_hint") {
                w.append(" → ");
                w.append(h.as_str());
            }
            bad.push(w);
            assert(texts(bad@) =~= texts(was).push(w@));
        }
        i += 1;
    }
    assert(all.take(v.len() as int) =~= all);
    assert(texts(bad@).len() == bad@.len());
    if bad.len() == 0 {
        return None;
    }
    let mut msg = "마스터는 시작됐으나 **의무 노드**가 빠졌습니다: ".to_owned();
    msg.append(join(&bad, " · ").as_str());
    msg.append(". 팀 없이도 마스터 단독 사용은 가능합니다.");
    Some(msg)
}

/// The warning of the boot report that a boot printed last.
pub open spec fn fatal_of_output(stdout: Seq<char>) -> Option<Seq<char>> {
    match last_object(stdout) {
        Some(t) => fatal_words(t),
        None => None,
    }
}

/// The warning of the boot report that a boot printed last.
pub fn boot_json_fatal_message(stdout: &str) -> (r: Option<String>)
    ensures
        opt_text(r) == fatal_of_output(stdout@),
{
    match parse_last_json_object(stdout) {
        Some(j) => boot_report_fatal(&j),
        None => None,
    }
}

/// What a direct team boot has to say, given the warning of its report: that
/// another one is under way, the warning, nothing after success, or that it
/// failed.
pub open spec fn boot_signal_of(code: Option<i32>, fatal: Option<Seq<char>>) -> SignalFacts {
    if code == Some(EXIT_BOOT_BUSY) {
        SignalFacts::Info(
            "다른 팀 기동이 이미 진행 중이어서 이번 요청은 건너뜁니다(중복 스폰 방지) — 곧 팀이 올라옵니다."@,
        )
    } else {
        match fatal {
            Some(m) => SignalFacts::Warn(m),
            None => match code {
                Some(c) => if c == 0 {
                    SignalFacts::Silent
                } else {
                    SignalFacts::Warn(
                        "팀 기동이 실패했습니다(cys boot exit "@ + signed_decimal(c as int)
                            + ") — `cys list` 로 노드 상태를 확인하세요."@,
                    )
                },
                None => SignalFacts::Warn(
                    "팀 기동 프로세스가 비정상 종료했습니다(시그널) — `cys list` 확인."@,
                ),
            },
        }
    }
}

/// What a direct team boot has to say, given the warning of its report.
pub fn boot_signal(code: Option<i32>, fatal: Option<String>) -> (r: BootSignal)
    ensures
        r@ == boot_signal_of(code, opt_text(fatal)),
{
    if let Some(c) = code {
        if c == EXIT_BOOT_BUSY {
            return BootSignal::Info(
                "다른 팀 기동이 이미 진행 중이어서 이번 요청은 건너뜁니다(중복 스폰 방지) — 곧 팀이 올라옵니다.".to_owned(),
            );
        }
    }
    if let Some(m) = fatal {
        return BootSignal::Warn(m);
    }
    match code {
        Some(c) => {
            if c == 0 {
                BootSignal::Silent
            } else {
                let mut m = "팀 기동이 실패했습니다(cys boot exit ".to_owned();
                m.append(signed_decimal_text(c).as_str());
                m.append(") — `cys list` 로 노드 상태를 확인하세요.");
                BootSignal::Warn(m)
            }
        },
        None => BootSignal::Warn(
            "팀 기동 프로세스가 비정상 종료했습니다(시그널) — `cys list` 확인.".to_owned(),
        ),
    }
}

/// What a direct team boot has to say.
pub fn cys_boot_signal(code: Option<i32>, stdout: &str) -> (r: BootSignal)
    ensures
        r@ == boot_signal_of(code, fatal_of_output(stdout@)),
{
    boot_signal(code, boot_json_fatal_message(stdout))
}

/// A boot that found another one under way is never a warning; a boot that
/// succeeded warns only of mandatory roles; one that failed always warns.
pub proof fn law_boot_warns_only_for_failures(code: Option<i32>, report: JsonTree)
    ensures
        code == Some(EXIT_BOOT_BUSY) ==> boot_signal_of(code, fatal_words(report)) is Info,
        code == Some(0i32) && boot_signal_of(code, fatal_words(report)) is Warn ==> (report.at(
            "roles"@,
        ).array() matches Some(roles) && exists|i: int|
            0 <= i < roles.len() && role_failed(#[trigger] roles[i])),
        code != Some(0i32) && code != Some(EXIT_BOOT_BUSY) ==> boot_signal_of(
            code,
            fatal_words(report),
        ) is Warn,
{
    if let Some(roles) = report.at("roles"@).array() {
        lemma_failed_roles(roles);
    }
}

proof fn lemma_failed_roles(roles: Seq<JsonTree>)
    ensures
        failed_roles(roles).len() > 0 ==> exists|i: int|
            0 <= i < roles.len() && role_failed(#[trigger] roles[i]),
    decreases roles.len(),
{
    if roles.len() > 0 {
        let u = roles.drop_last();
        lemma_failed_roles(u);
        if role_failed(roles.last()) {
            assert(role_failed(roles[roles.len() - 1]));
        } else if failed_roles(roles).len() > 0 {
            let i = choose|i: int| 0 <= i < u.len() && role_failed(#[trigger] u[i]);
            assert(role_failed(roles[i]));
        }
    }
}

/// The trimmed lines that hold something.
pub open spec fn full_lines(lines: Seq<Seq<char>>) -> Seq<Seq<char>>
    decreases lines.len(),
{
    if lines.len() == 0 {
        Seq::empty()
    } else if trimmed(lines.last()).len() > 0 {
        full_lines(lines.drop_last()).push(trimmed(lines.last()))
    } else {
        full_lines(lines.drop_last())
    }
}

/// The last six lines of `stderr` that hold something, trimmed.
pub open spec fn error_detail(stderr: Seq<char>) -> Seq<char> {
    let full = full_lines(lines_of(stderr));
    joined(
        if full.len() <= 6 {
            full
        } else {
            full.skip(full.len() - 6)
        },
        "\n"@,
    )
}

fn detail_of(stderr: &str) -> (r: String)
    ensures
        r@ == error_detail(stderr@),
{
    let all = lines(stderr);
    let ghost at = lines_of(stderr@);
    let mut full: Vec<String> = Vec::new();
    let mut i: usize = 0;
    assert(texts(full@) =~= full_lines(at.take(0)));
    while i < all.len()
        invariant
            i <= all.len(),
            at == str_texts(all@),
            texts(full@) == full_lines(at.take(i as int)),
        decreases all.len() - i,
    {
        let ghost was = full@;
        assert(at.take(i + 1).drop_last() =~= at.take(i as int));
        assert(at.take(i + 1).last() == all@[i as int]@);
        let t = trim(all[i]);
        if !t.is_empty() {
            full.push(t.to_owned());
            assert(texts(full@) =~= texts(was).push(t@));
        }
        i += 1;
    }
    assert(at.take(all.len() as int) =~= at);
    let ghost ft = texts(full@);
    assert(ft.len() == full@.len());
    if full.len() <= 6 {
        return join(&full, "\n");
    }
    let from: usize = full.len() - 6;
    let mut tail: Vec<String> = Vec::new();
    let mut k: usize = from;
    while k < full.len()
        invariant
            from <= k <= full.len(),
            ft == texts(full@),
            texts(tail@) == ft.subrange(from as int, k as int),
        decreases full.len() - k,
    {
        let ghost was = tail@;
        let s = full[k].clone();
        tail.push(s);
        assert(texts(tail@) =~= texts(was).push(s@));
        assert(ft.subrange(from as int, k + 1) =~= ft.subrange(from as int, k as int).push(
            ft[k as int],
        ));
        k += 1;
    }
    assert(ft.subrange(from as int, ft.len() as int) =~= ft.skip(from as int));
    join(&tail, "\n")
}

/// The step of the boot chain that an exit status names.
pub open spec fn step_name(c: int) -> Seq<char> {
    if c == 3 {
        "데몬 확인(②ping)"@
    } else if c == 4 {
        "팀 기동(④cys boot)"@
    } else if c == 6 {
        "노드 생존 확인(⑤check)"@
    } else if c == 8 {
        "레인↔팩 정합(⓪lane-pack)"@
    } else if c == 9 {
        "자원 게이트(④′resource-gate)"@
    } else if c == 10 {
        "세션 컨텍스트(③claim-role)"@
    } else if c == 64 {
        "명령 사용오류(EX_USAGE — 배선 점검)"@
    } else {
        "알 수 없는"@
    }
}

/// What the boot chain has to say, given whether it reported that a department
/// head woke up alone.
pub open spec fn chain_signal_of(code: Option<i32>, solo: bool, stderr: Seq<char>) -> SignalFacts {
    match code {
        None => SignalFacts::Warn(
            "팀 기동 체인이 비정상 종료했습니다(시그널).\n"@ + error_detail(stderr),
        ),
        Some(c) => if c == 0 {
            if solo {
                SignalFacts::Info(
                    "부서장이 단독 각성했습니다 — 부서 팀 기동에는 CEO 티켓이 필요합니다(본부 master 에서 `javis_bootstrap.py issue-ticket --dept <부서>` 발급 후 재시도)."@,
                )
            } else {
                SignalFacts::Silent
            }
        } else if c == 11 {
            SignalFacts::Info(
                "팀 기동이 이미 진행 중이어서 이번 요청은 건너뜁니다(중복 방지) — 곧 팀이 올라옵니다."@,
            )
        } else if c == 7 {
            SignalFacts::Warn(
                "이미 다른 master 노드가 있어 이 탭은 master 로 등록되지 않았습니다 — 기존 master 탭을 사용하세요(조직당 master 1명)."@,
            )
        } else {
            SignalFacts::Warn(
                "팀 기동 체인이 "@ + step_name(c as int)
                    + " 단계에서 멈췄습니다(javis_bootstrap exit "@ + signed_decimal(c as int)
                    + ").\n"@ + error_detail(stderr),
            )
        },
    }
}

/// The report says that a department head woke up alone.
pub open spec fn woke_alone(report: Option<JsonTree>) -> bool {
    match report {
        Some(t) => t.at("solo_awakening"@).boolean() == Some(true),
        None => false,
    }
}

/// What the boot chain has to say, given whether it reported that a department
/// head woke up alone.
pub fn chain_signal(code: Option<i32>, solo: bool, stderr: &str) -> (r: BootSignal)
    ensures
        r@ == chain_signal_of(code, solo, stderr@),
{
    match code {
        None => {
            let mut m = "팀 기동 체인이 비정상 종료했습니다(시그널).\n".to_owned();
            m.append(detail_of(stderr).as_str());
            BootSignal::Warn(m)
        },
        Some(c) => {
            if c == 0 {
                if solo {
                    BootSignal::Info(
                        "부서장이 단독 각성했습니다 — 부서 팀 기동에는 CEO 티켓이 필요합니다(본부 master 에서 `javis_bootstrap.py issue-ticket --dept <부서>` 발급 후 재시도).".to_owned(),
                    )
                } else {
                    BootSignal::Silent
                }
            } else if c == 11 {
                BootSignal::Info(
                    "팀 기동이 이미 진행 중이어서 이번 요청은 건너뜁니다(중복 방지) — 곧 팀이 올라옵니다.".to_owned(),
                )
            } else if c == 7 {
                BootSignal::Warn(
                    "이미 다른 master 노드가 있어 이 탭은 master 로 등록되지 않았습니다 — 기존 master 탭을 사용하세요(조직당 master 1명).".to_owned(),
                )
            } else {
                let step = if c == 3 {
                    "데몬 확인(②ping)"
                } else if c == 4 {
                    "팀 기동(④cys boot)"
                } else if c == 6 {
                    "노드 생존 확인(⑤check)"
                } else if c == 8 {
                    "레인↔팩 정합(⓪lane-pack)"
                } else if c == 9 {
                    "자원 게이트(④′resource-gate)"
                } else if c == 10 {
                    "세션 컨텍스트(③claim-role)"
                } else if c == 64 {
                    "명령 사용오류(EX_USAGE — 배선 점검)"
                } else {
                    "알 수 없는"
                };
                let mut m = "팀 기동 체인이 ".to_owned();
                m.append(step);
                m.append(" 단계에서 멈췄습니다(javis_bootstrap exit ");
                m.append(signed_decimal_text(c).as_str());
                m.append(").\n");
                m.append(detail_of(stderr).as_str());
                BootSignal::Warn(m)
            }
        },
    }
}

/// What the boot chain has to say.
pub fn bootstrap_chain_signal(code: Option<i32>, stdout: &str, stderr: &str) -> (r: BootSignal)
    ensures
        r@ == chain_signal_of(code, woke_alone(last_object(stdout@)), stderr@),
{
    let solo = match parse_last_json_object(stdout) {
        Some(j) => match j.get("solo_awakening") {
            Some(x) => match x.as_bool() {
                Some(b) => b,
                None => false,
            },
            None => false,
        },
        None => false,
    };
    chain_signal(code, solo, stderr)
}

/// The environment that a boot command runs in, beside the runtime's own: a
/// value to set, or none to remove.
#[derive(Debug)]
pub struct BootEnv {
    pub socket: Option<String>,
    pub pack_dir: Option<String>,
    pub surface_id: Option<String>,
}

/// The environment of a boot command. A department's socket and its pack go
/// together; without a department the socket is removed from the environment.
pub fn boot_env(
    socket: &Option<String>,
    lane_pack: &Option<String>,
    surface_ref: &Option<String>,
) -> (r: BootEnv)
    ensures
        opt_text(r.socket) == opt_text(*socket),
        opt_text(r.pack_dir) == (match *socket {
            Some(_) => opt_text(*lane_pack),
            None => None,
        }),
        opt_text(r.surface_id) == opt_text(*surface_ref),
{
    BootEnv {
        socket: match socket {
            Some(s) => Some(s.clone()),
            None => None,
        },
        pack_dir: match (socket, lane_pack) {
            (Some(_), Some(p)) => Some(p.clone()),
            _ => None,
        },
        surface_id: match surface_ref {
            Some(s) => Some(s.clone()),
            None => None,
        },
    }
}

/// The script of the boot chain in a pack.
pub fn boot_script_path(pack: &str) -> (r: String)
    ensures
        r@ == crate::path::joined_path(
            crate::path::joined_path(pack@, "bin"@),
            "javis_bootstrap.py"@,
        ),
{
    crate::path::join(crate::path::join(pack, "bin").as_str(), "javis_bootstrap.py")
}

/// What happened so far in booting the team.
#[derive(Debug)]
pub enum BootEvent {
    /// Whether the script of the boot chain is there, and its path.
    Script { present: bool, path: String },
    /// The chain ran under the given interpreter.
    ChainRan { code: Option<i32>, stdout: String, stderr: String },
    /// The interpreter of this index could not be started.
    ChainFailed { index: u8, error: String },
    /// The direct boot ran.
    DirectRan { code: Option<i32>, stdout: String },
    /// The direct boot could not be started.
    DirectFailed { error: String },
}

/// What to do next in booting the team.
#[derive(Debug, PartialEq, Eq)]
pub enum BootStep {
    /// Run the chain under the interpreter of this index.
    RunChain(u8),
    /// Tell the user that the chain cannot be used, then boot directly.
    Degrade(String),
    /// Tell the user, and stop.
    Finish(BootSignal),
}

/// What to do next, with what the user is told.
pub enum BootStepFacts {
    RunChain(u8),
    Degrade(Seq<char>),
    Finish(SignalFacts),
}

impl BootStep {
    pub open spec fn view(self) -> BootStepFacts {
        match self {
            BootStep::RunChain(i) => BootStepFacts::RunChain(i),
            BootStep::Degrade(m) => BootStepFacts::Degrade(m@),
            BootStep::Finish(s) => BootStepFacts::Finish(s@),
        }
    }
}

/// The interpreter that the chain is tried with.
pub open spec fn interpreter_name(index: int) -> Seq<char> {
    if index == 0 {
        "python3"@
    } else {
        "python"@
    }
}

/// The interpreter that the chain is tried with.
pub fn boot_interpreter(index: u8) -> (r: &'static str)
    ensures
        r@ == interpreter_name(index as int),
{
    if index == 0 {
        "python3"
    } else {
        "python"
    }
}

/// The notice that the chain cannot be used.
pub open spec fn degraded_notice(why: Seq<char>) -> Seq<char> {
    "팀 부트 1차 경로(javis_bootstrap.py 체인)를 쓸 수 없어 `cys boot --json` 직접 호출로 강등했습니다 — 사유: "@
        + why
        + ". 팀은 기동되지만 preflight·역할 등록·생존 확인 단계는 생략됩니다(팩·python 배선을 점검하세요)."@
}

fn degrade(why: &str) -> (r: BootStep)
    ensures
        r@ == BootStepFacts::Degrade(degraded_notice(why@)),
{
    let mut m = "팀 부트 1차 경로(javis_bootstrap.py 체인)를 쓸 수 없어 `cys boot --json` 직접 호출로 강등했습니다 — 사유: ".to_owned();
    m.append(why);
    m.append(
        ". 팀은 기동되지만 preflight·역할 등록·생존 확인 단계는 생략됩니다(팩·python 배선을 점검하세요).",
    );
    BootStep::Degrade(m)
}

/// The arguments of the direct boot.
pub fn direct_boot_args() -> (r: Vec<String>)
    ensures
        texts(r@) == seq!["boot"@, "--json"@],
{
    let mut out: Vec<String> = Vec::new();
    out.push("boot".to_owned());
    out.push("--json".to_owned());
    assert(texts(out@) =~= seq!["boot"@, "--json"@]);
    out
}

/// What an event in booting the team leads to.
pub open spec fn boot_step(event: BootEvent) -> BootStepFacts {
    match event {
        BootEvent::Script { present, path } => if present {
            BootStepFacts::RunChain(0)
        } else {
            BootStepFacts::Degrade(degraded_notice("부트 체인 스크립트 부재("@ + path@ + ")"@))
        },
        BootEvent::ChainRan { code, stdout, stderr } => BootStepFacts::Finish(
            chain_signal_of(code, woke_alone(last_object(stdout@)), stderr@),
        ),
        BootEvent::ChainFailed { index, error } => if index == 0 {
            BootStepFacts::RunChain(1)
        } else {
            BootStepFacts::Degrade(
                degraded_notice(
                    "python 인터프리터 해소 실패("@ + interpreter_name(index as int) + ": "@ + error@
                        + ")"@,
                ),
            )
        },
        BootEvent::DirectRan { code, stdout } => BootStepFacts::Finish(
            boot_signal_of(code, fatal_of_output(stdout@)),
        ),
        BootEvent::DirectFailed { error } => BootStepFacts::Finish(
            SignalFacts::Warn("팀 기동(cys boot) 실행 실패: "@ + error@),
        ),
    }
}

/// What to do next in booting the team: the chain with the first interpreter
/// that starts; where there is no script or no interpreter the user is told
/// and the team is booted directly; whatever ran last decides what the user is
/// told.
pub fn spawn_orchestra_boot(event: BootEvent) -> (r: BootStep)
    ensures
        r@ == boot_step(event),
{
    match event {
        BootEvent::Script { present, path } => {
            if present {
                BootStep::RunChain(0)
            } else {
                let mut why = "부트 체인 스크립트 부재(".to_owned();
                why.append(path.as_str());
                why.append(")");
                degrade(why.as_str())
            }
        },
        BootEvent::ChainRan { code, stdout, stderr } => BootStep::Finish(
            bootstrap_chain_signal(code, stdout.as_str(), stderr.as_str()),
        ),
        BootEvent::ChainFailed { index, error } => {
            if index == 0 {
                BootStep::RunChain(1)
            } else {
                let mut why = "python 인터프리터 해소 실패(".to_owned();
                why.append(boot_interpreter(index));
                why.append(": ");
                why.append(error.as_str());
                why.append(")");
                degrade(why.as_str())
            }
        },
        BootEvent::DirectRan { code, stdout } => BootStep::Finish(
            cys_boot_signal(code, stdout.as_str()),
        ),
        BootEvent::DirectFailed { error } => {
            let mut m = "팀 기동(cys boot) 실행 실패: ".to_owned();
            m.append(error.as_str());
            BootStep::Finish(BootSignal::Warn(m))
        },
    }
}

/// The event is one of the direct boot.
pub open spec fn of_direct_boot(event: BootEvent) -> bool {
    event is DirectRan || event is DirectFailed
}

/// The event is what carrying out the step can give. After the finish there is
/// none.
pub open spec fn follows(step: BootStepFacts, event: BootEvent) -> bool {
    match step {
        BootStepFacts::RunChain(i) => event is ChainRan || (event matches BootEvent::ChainFailed {
            index,
            ..
        } && index == i),
        BootStepFacts::Degrade(_) => of_direct_boot(event),
        BootStepFacts::Finish(_) => false,
    }
}

/// The events of booting a team so far: first the look for the script, then what
/// each step gave.
pub open spec fn boot_run(events: Seq<BootEvent>) -> bool {
    &&& events.len() > 0
    &&& events[0] is Script
    &&& forall|i: int|
        0 < i < events.len() ==> follows(boot_step(events[i - 1]), #[trigger] events[i])
}

/// The user is told the outcome after the event at `i`.
pub open spec fn finishes_at(events: Seq<BootEvent>, i: int) -> bool {
    0 <= i < events.len() && boot_step(events[i]) is Finish
}

/// Booting a team comes to an end within four events, and its finish is the last
/// thing that it does, so that there is exactly one. The direct boot runs at most
/// once, only right after the user was told that the chain cannot be used, and
/// that is told at most once.
pub proof fn law_boot_ends_in_one_finish(events: Seq<BootEvent>)
    requires
        boot_run(events),
    ensures
        events.len() <= 4,
        events.len() == 4 ==> finishes_at(events, 3),
        forall|i: int| #[trigger] finishes_at(events, i) ==> i == events.len() - 1,
        forall|i: int|
            0 <= i < events.len() && of_direct_boot(#[trigger] events[i]) ==> i > 0 && boot_step(
                events[i - 1],
            ) is Degrade && i == events.len() - 1 && finishes_at(events, i),
        forall|i: int, j: int|
            0 <= i < events.len() && 0 <= j < events.len() && of_direct_boot(#[trigger] events[i])
                && of_direct_boot(#[trigger] events[j]) ==> i == j,
        forall|i: int, j: int|
            0 <= i < events.len() && 0 <= j < events.len() && boot_step(#[trigger] events[i]) is Degrade
                && boot_step(#[trigger] events[j]) is Degrade ==> i == j,
{
    let n = events.len() as int;
    assert forall|i: int| 0 <= i < n && boot_step(#[trigger] events[i]) is Finish implies i == n
        - 1 by {
        if i + 1 < n {
            assert(follows(boot_step(events[i]), events[i + 1]));
        }
    }
    if n > 1 {
        assert(follows(boot_step(events[0]), events[1]));
    }
    if n > 2 {
        assert(follows(boot_step(events[1]), events[2]));
    }
    if n > 3 {
        assert(follows(boot_step(events[2]), events[3]));
    }
    if n > 4 {
        assert(follows(boot_step(events[3]), events[4]));
    }
}

/// The arguments that launch a master with the given agent.
pub fn master_args(agent: &str) -> (r: Vec<String>)
    ensures
        texts(r@) == seq!["launch-agent"@, "--role"@, "master"@, "--agent"@, agent@],
{
    let mut out: Vec<String> = Vec::new();
    out.push("launch-agent".to_owned());
    out.push("--role".to_owned());
    out.push("master".to_owned());
    out.push("--agent".to_owned());
    out.push(agent.to_owned());
    assert(texts(out@) =~= seq!["launch-agent"@, "--role"@, "master"@, "--agent"@, agent@]);
    out
}

/// What the user is told of a master that waits for the first-run answers.
pub open spec fn gate_notice(dept: bool, stderr: Seq<char>) -> Seq<char> {
    (if dept {
        "부서장 pane 은 떴고 프로세스도 살아 있으나 **첫기동 관문**에 갇혀 있습니다(pane 은 닫지 않았습니다). 그 pane 에서 관문을 1회 통과시킨 뒤 다시 시작하세요 — ★면책 창의 기본 선택은 `No, exit` 이라 그대로 Enter 를 누르면 종료됩니다(아래 방향키 1회 뒤 Enter).\n"@
    } else {
        "마스터 pane 은 떴고 프로세스도 살아 있으나 **첫기동 관문**에 갇혀 있습니다(pane 은 닫지 않았습니다). 그 pane 에서 관문을 1회 통과시킨 뒤 다시 시작하세요 — 순서는 테마 → 로그인방식 → OAuth → 폴더신뢰 → 면책 → 새기능안내이고, ★면책 창의 기본 선택은 `No, exit` 이라 그대로 Enter 를 누르면 종료됩니다(아래 방향키 1회 뒤 Enter).\n"@
    }) + trimmed(stderr)
}

/// What the launch of a master amounts to: its team is to be booted in the given
/// terminal, or why not. `gate_pending` is the exit status of one that waits for
/// the user's first-run answers.
pub fn start_master(
    dept: bool,
    success: bool,
    code: Option<i32>,
    gate_pending: i32,
    stdout: &[u8],
    stderr: &str,
) -> (r: Result<Option<String>, String>)
    ensures
        if code == Some(gate_pending) {
            r matches Err(e) && e@ == gate_notice(dept, stderr@)
        } else if success {
            r matches Ok(s) && opt_text(s) == last_surface(lines_of(lossy_text(stdout@)))
        } else {
            r matches Err(e) && e@ == trimmed(stderr@)
        },
{
    if let Some(c) = code {
        if c == gate_pending {
            let mut e = if dept {
                "부서장 pane 은 떴고 프로세스도 살아 있으나 **첫기동 관문**에 갇혀 있습니다(pane 은 닫지 않았습니다). 그 pane 에서 관문을 1회 통과시킨 뒤 다시 시작하세요 — ★면책 창의 기본 선택은 `No, exit` 이라 그대로 Enter 를 누르면 종료됩니다(아래 방향키 1회 뒤 Enter).\n".to_owned()
            } else {
                "마스터 pane 은 떴고 프로세스도 살아 있으나 **첫기동 관문**에 갇혀 있습니다(pane 은 닫지 않았습니다). 그 pane 에서 관문을 1회 통과시킨 뒤 다시 시작하세요 — 순서는 테마 → 로그인방식 → OAuth → 폴더신뢰 → 면책 → 새기능안내이고, ★면책 창의 기본 선택은 `No, exit` 이라 그대로 Enter 를 누르면 종료됩니다(아래 방향키 1회 뒤 Enter).\n".to_owned()
            };
            e.append(trim(stderr));
            return Err(e);
        }
    }
    if success {
        Ok(launched_surface_ref(stdout))
    } else {
        Err(trim(stderr).to_owned())
    }
}

/// Whether a department's master can be started: its pack is known from its
/// socket and is there. `pack` is the pack and whether it is a directory.
pub fn start_dept_master(socket: &str, pack: Option<(&str, bool)>) -> (r: Result<(), String>)
    ensures
        r is Ok <==> (pack matches Some(p) && p.1),
        r matches Err(e) ==> e@ == (match pack {
            None => "부서 팩 경로를 유도할 수 없습니다(비표준 소켓: "@ + socket@
                + ") — 부서를 정규 이름으로 재생성하세요."@,
            Some(p) => "부서 팩이 없습니다("@ + p.0@
                + ") — 이 부서는 실체가 없습니다. 부서를 다시 생성한 뒤 부서장을 기동하세요(본부 팩으로 부서 데몬을 띄우면 부서 부트가 영구 차단됩니다)."@,
        }),
{
    match pack {
        None => {
            let mut e = "부서 팩 경로를 유도할 수 없습니다(비표준 소켓: ".to_owned();
            e.append(socket);
            e.append(") — 부서를 정규 이름으로 재생성하세요.");
            Err(e)
        },
        Some((path, is_dir)) => {
            if is_dir {
                Ok(())
            } else {
                let mut e = "부서 팩이 없습니다(".to_owned();
                e.append(path);
                e.append(
                    ") — 이 부서는 실체가 없습니다. 부서를 다시 생성한 뒤 부서장을 기동하세요(본부 팩으로 부서 데몬을 띄우면 부서 부트가 영구 차단됩니다).",
                );
                Err(e)
            }
        },
    }
}

/// What has been tried to reach the daemon.
#[derive(Debug)]
pub enum DaemonEvent {
    /// Connecting before anything else.
    Connected(bool),
    /// Whether a factory reset is under way.
    ResetChecked(bool),
    /// Starting the program of this path, or its error.
    Started { program: String, error: Option<String> },
    /// Whether the daemon answered within the time given.
    Waited(bool),
}

/// What to do next to reach the daemon.
#[derive(Debug, PartialEq, Eq)]
pub enum DaemonStep {
    CheckReset,
    Start,
    Wait,
    Done,
    Fail(String),
}

/// What to do next to reach the daemon: nothing where it answers, nothing
/// either while a reset is under way, else start it and wait for it.
pub fn ensure_daemon(event: DaemonEvent) -> (r: DaemonStep)
    ensures
        match event {
            DaemonEvent::Connected(up) => r == (if up {
                DaemonStep::Done
            } else {
                DaemonStep::CheckReset
            }),
            DaemonEvent::ResetChecked(resetting) => if resetting {
                r matches DaemonStep::Fail(e) && e@
                    == "완전 초기화가 진행 중 — 데몬 기동을 보류한다(완료 후 앱을 다시 실행하라)"@
            } else {
                r == DaemonStep::Start
            },
            DaemonEvent::Started { program, error } => match error {
                Some(why) => r matches DaemonStep::Fail(e) && e@ == "failed to start cysd ("@
                    + program@ + "): "@ + why@,
                None => r == DaemonStep::Wait,
            },
            DaemonEvent::Waited(up) => if up {
                r == DaemonStep::Done
            } else {
                r matches DaemonStep::Fail(e) && e@ == "cysd did not come up within 4s"@
            },
        },
{
    match event {
        DaemonEvent::Connected(up) => {
            if up {
                DaemonStep::Done
            } else {
                DaemonStep::CheckReset
            }
        },
        DaemonEvent::ResetChecked(resetting) => {
            if resetting {
                DaemonStep::Fail(
                    "완전 초기화가 진행 중 — 데몬 기동을 보류한다(완료 후 앱을 다시 실행하라)".to_owned(),
                )
            } else {
                DaemonStep::Start
            }
        },
        DaemonEvent::Started { program, error } => match error {
            Some(why) => {
                let mut e = "failed to start cysd (".to_owned();
                e.append(program.as_str());
                e.append("): ");
                e.append(why.as_str());
                DaemonStep::Fail(e)
            },
            None => DaemonStep::Wait,
        },
        DaemonEvent::Waited(up) => {
            if up {
                DaemonStep::Done
            } else {
                DaemonStep::Fail("cysd did not come up within 4s".to_owned())
            }
        },
    }
}

/// The daemon program: the one beside the executable where it is there, else
/// the one on the search path.
pub fn daemon_program(beside: Option<&str>, beside_exists: bool, windows: bool) -> (r: String)
    ensures
        r@ == (match beside {
            Some(p) => if beside_exists {
                p@
            } else if windows {
                "cysd.exe"@
            } else {
                "cysd"@
            },
            None => if windows {
                "cysd.exe"@
            } else {
                "cysd"@
            },
        }),
{
    if let Some(p) = beside {
        if beside_exists {
            return p.to_owned();
        }
    }
    if windows {
        "cysd.exe".to_owned()
    } else {
        "cysd".to_owned()
    }
}

/// What to do in one round of waiting for the daemon.
#[derive(Debug)]
pub struct RetryRound {
    /// Give up waiting.
    pub stop: bool,
    /// What the user is told, where there is anything to tell.
    pub message: Option<String>,
    /// The user is shown how to allow the background service.
    pub hint: bool,
}

/// The notice while a factory reset is under way.
pub open spec fn reset_notice() -> Seq<char> {
    "완전 초기화가 진행 중입니다 — 끝난 뒤 앱을 종료했다가 다시 실행하세요."@
}

/// One round of waiting for the daemon, the first being number one: after twenty
/// rounds the waiting is over, a reset ends it sooner, and the fourth round shows
/// the hint.
pub fn retry_round(attempt: u32, resetting: bool) -> (r: RetryRound)
    ensures
        r.stop == (resetting || attempt > 20),
        opt_text(r.message) == (if attempt > 20 {
            None
        } else if resetting {
            Some(reset_notice())
        } else {
            Some("데몬 대기 중 — 재시도 "@ + decimal(attempt as nat) + "/20 (15초 간격)"@)
        }),
        r.hint == (!resetting && attempt == 4),
{
    if attempt > 20 {
        return RetryRound { stop: true, message: None, hint: false };
    }
    if resetting {
        return RetryRound {
            stop: true,
            message: Some(
                "완전 초기화가 진행 중입니다 — 끝난 뒤 앱을 종료했다가 다시 실행하세요.".to_owned(),
            ),
            hint: false,
        };
    }
    let mut message = "데몬 대기 중 — 재시도 ".to_owned();
    message.append(decimal_text(attempt as u64).as_str());
    message.append("/20 (15초 간격)");
    RetryRound { stop: false, message: Some(message), hint: attempt == 4 }
}

/// What the user is told where the daemon never came up.
pub fn daemon_failure(error: &str, resetting: bool) -> (r: String)
    ensures
        r@ == (if resetting {
            reset_notice()
        } else {
            error@
                + " — 데몬을 시작하지 못했습니다. 시스템 설정 → 일반 → 로그인 항목에서 cys 백그라운드 항목을 허용한 뒤 앱을 다시 여세요."@
        }),
{
    if resetting {
        "완전 초기화가 진행 중입니다 — 끝난 뒤 앱을 종료했다가 다시 실행하세요.".to_owned()
    } else {
        let mut e = error.to_owned();
        e.append(
            " — 데몬을 시작하지 못했습니다. 시스템 설정 → 일반 → 로그인 항목에서 cys 백그라운드 항목을 허용한 뒤 앱을 다시 여세요.",
        );
        e
    }
}

/// Whether the first-run steps are due: unless they were done for this very
/// version.
pub fn needs_gui_onboard(marker: Option<&str>, current_version: &str) -> (r: bool)
    ensures
        r == !(marker matches Some(m) && trimmed(m@) == current_version@),
{
    match marker {
        Some(m) => !same_text(trim(m), current_version),
        None => true,
    }
}

/// Whether the first-run steps are done: the pack is in place, and on Windows the
/// daemon is registered too. Where they are not, they are due again at the next
/// start.
pub fn onboarding_done(packed: bool, registered: bool, windows: bool) -> (r: bool)
    ensures
        r == (packed && (!windows || registered)),
{
    packed && (!windows || registered)
}

/// The hint on installing `agent` that a report of the detection gives, where it
/// says that the agent is not installed.
pub open spec fn hint_of(report: JsonTree, agent: Seq<char>) -> Option<Seq<char>> {
    let found = report.at("agents"@).at(agent);
    if found.at("installed"@).boolean() == Some(false) {
        text_at(found, "hint"@)
    } else {
        None
    }
}

/// The hint that a report of the detection gives.
pub fn install_hint(report: &Json, agent: &str) -> (r: Option<String>)
    ensures
        opt_text(r) == hint_of(report@, agent@),
{
    let Some(known) = report.get("agents") else {
        return None;
    };
    let Some(found) = known.get(agent) else {
        return None;
    };
    let Some(installed) = found.get("installed") else {
        return None;
    };
    match installed.as_bool() {
        Some(false) => crate::dept::get_text(found, "hint"),
        _ => None,
    }
}

/// The hint on installing `agent`, out of what the detection printed. A
/// detection that failed, or printed no report, says nothing.
pub fn claude_missing_hint(success: bool, stdout: &[u8], agent: &str) -> (r: Option<String>)
    ensures
        opt_text(r) == (match parsed_bytes(stdout@) {
            Some(report) if success => hint_of(report, agent@),
            _ => None,
        }),
{
    if !success {
        return None;
    }
    match parse_bytes(stdout) {
        Some(report) => install_hint(&report, agent),
        None => None,
    }
}

/// Whether the promoted directive drifted: a promotion took place and the
/// directive differs from the template. What cannot be read does not drift.
pub fn ceo_drift_verdict(pre_ceo_exists: bool, md: Option<&[u8]>, template: Option<&[u8]>) -> (r:
    bool)
    ensures
        r == (pre_ceo_exists && md is Some && template is Some && md->0@ != template->0@),
{
    match (md, template) {
        (Some(m), Some(t)) => {
            if !pre_ceo_exists {
                return false;
            }
            if m.len() != t.len() {
                return true;
            }
            let mut i: usize = 0;
            while i < m.len()
                invariant
                    i <= m@.len() == t@.len(),
                    pre_ceo_exists,
                    md == Some(m),
                    template == Some(t),
                    forall|j: int| 0 <= j < i ==> m@[j] == t@[j],
                decreases m.len() - i,
            {
                if m[i] != t[i] {
                    return true;
                }
                i += 1;
            }
            assert(m@ =~= t@);
            false
        },
        _ => false,
    }
}

/// What a promotion printed, as its result or as its error.
pub fn promote_pending_ceo(success: bool, stdout: &str, stderr: &str) -> (r: Result<
    String,
    String,
>)
    ensures
        r is Ok <==> success,
        r matches Ok(s) ==> s@ == trimmed(stdout@ + stderr@),
        r matches Err(e) ==> e@ == trimmed(stdout@ + stderr@),
{
    let mut said = stdout.to_owned();
    said.append(stderr);
    let said = trim(said.as_str()).to_owned();
    if success {
        Ok(said)
    } else {
        Err(said)
    }
}

/// What is done after one more attempt to connect.
#[derive(Debug, PartialEq, Eq, Clone, Copy, Structural)]
pub enum WaitStep {
    Up,
    Again,
    GaveUp,
}

/// What is done after attempt number `tried` of `attempts`, the first being
/// number one.
pub fn wait_for_connect(tried: u32, attempts: u32, connected: bool) -> (r: WaitStep)
    ensures
        r == (if connected {
            WaitStep::Up
        } else if tried < attempts {
            WaitStep::Again
        } else {
            WaitStep::GaveUp
        }),
{
    if connected {
        WaitStep::Up
    } else if tried < attempts {
        WaitStep::Again
    } else {
        WaitStep::GaveUp
    }
}

/// The terminal of a launched agent is the last line that names one, whatever
/// white space stands around it and whatever is printed behind it; there is none
/// exactly where no line names one.
pub proof fn law_last_named_terminal(lines: Seq<Seq<char>>)
    ensures
        match last_surface(lines) {
            Some(l) => exists|i: int|
                0 <= i < lines.len() && trimmed(#[trigger] lines[i]) == l && begins_with(
                    l,
                    "surface:"@,
                ) && forall|j: int|
                    i < j < lines.len() ==> !begins_with(
                        trimmed(#[trigger] lines[j]),
                        "surface:"@,
                    ),
            None => forall|i: int|
                0 <= i < lines.len() ==> !begins_with(trimmed(#[trigger] lines[i]), "surface:"@),
        },
    decreases lines.len(),
{
    if lines.len() > 0 {
        let u = lines.drop_last();
        let n = lines.len() - 1;
        law_last_named_terminal(u);
        assert(forall|i: int| 0 <= i < n ==> u[i] == lines[i]);
        if begins_with(trimmed(lines[n]), "surface:"@) {
            assert(trimmed(lines[n]) == trimmed(lines.last()));
        } else {
            match last_surface(u) {
                Some(l) => {
                    let i = choose|i: int|
                        0 <= i < u.len() && trimmed(#[trigger] u[i]) == l && begins_with(
                            l,
                            "surface:"@,
                        ) && forall|j: int|
                            i < j < u.len() ==> !begins_with(
                                trimmed(#[trigger] u[j]),
                                "surface:"@,
                            );
                    assert(trimmed(lines[i]) == l);
                    assert forall|j: int| i < j < lines.len() implies !begins_with(
                        trimmed(#[trigger] lines[j]),
                        "surface:"@,
                    ) by {
                        if j < n {
                            assert(!begins_with(trimmed(u[j]), "surface:"@));
                        }
                    }
                },
                None => {
                    assert forall|i: int| 0 <= i < lines.len() implies !begins_with(
                        trimmed(#[trigger] lines[i]),
                        "surface:"@,
                    ) by {
                        if i < n {
                            assert(!begins_with(trimmed(u[i]), "surface:"@));
                        }
                    }
                },
            }
        }
    }
}

/// A line of `t` begins with an opening brace at position `i`.
pub open spec fn brace_begins_line(t: Seq<char>, i: int) -> bool {
    0 <= i < t.len() && t[i] == '{' && (i == 0 || t[i - 1] == '\n')
}

proof fn lemma_last_brace_line(t: Seq<char>, n: int)
    requires
        n < t.len(),
    ensures
        match last_brace_line(t, n) {
            Some(i) => 0 < i <= n + 1 && brace_begins_line(t, i) && forall|j: int|
                i < j <= n + 1 ==> !#[trigger] brace_begins_line(t, j),
            None => forall|j: int| 0 < j <= n + 1 ==> !#[trigger] brace_begins_line(t, j),
        },
    decreases n + 1,
{
    if n >= 0 {
        lemma_last_brace_line(t, n - 1);
    }
}

/// The report is looked for from the last line on that begins with an opening
/// brace, to the end; there is none exactly where no line begins with one.
pub proof fn law_report_is_sought_from_the_last_brace(s: Seq<char>)
    ensures
        ({
            let t = trimmed(s);
            match object_candidate(s) {
                Some(c) => exists|i: int| #[trigger]
                    brace_begins_line(t, i) && c == t.skip(i) && forall|j: int|
                        i < j < t.len() ==> !#[trigger] brace_begins_line(t, j),
                None => forall|j: int| !#[trigger] brace_begins_line(t, j),
            }
        }),
        match last_object(s) {
            Some(t) => t is Object && object_candidate(s) is Some && parsed_json(
                object_candidate(s)->Some_0,
            ) == Ok::<JsonTree, Seq<char>>(t),
            None => object_candidate(s) matches Some(c) ==> !(parsed_json(c) matches Ok(
                JsonTree::Object(_),
            )),
        },
{
    let t = trimmed(s);
    if t.len() >= 2 {
        lemma_last_brace_line(t, t.len() - 2);
    }
    match object_candidate(s) {
        Some(c) => {
            match last_brace_line(t, t.len() - 2) {
                Some(i) => {
                    assert(brace_begins_line(t, i));
                },
                None => {
                    assert(brace_begins_line(t, 0));
                    assert(t.skip(0) =~= t);
                },
            }
        },
        None => {},
    }
}

/// A role counts as failed exactly where it is mandatory and its outcome is one
/// of the two bad ones, whatever else the report says of it.
pub proof fn law_only_mandatory_roles_fail(r: JsonTree)
    ensures
        r.member("mandatory"@) == Some(JsonTree::Bool(true)) && r.member("outcome"@) == Some(
            JsonTree::Text("failed"@),
        ) ==> role_failed(r),
        r.member("mandatory"@) == Some(JsonTree::Bool(true)) && r.member("outcome"@) == Some(
            JsonTree::Text("missing"@),
        ) ==> role_failed(r),
        r.member("mandatory"@) != Some(JsonTree::Bool(true)) ==> !role_failed(r),
        r.member("outcome"@) != Some(JsonTree::Text("failed"@)) && r.member("outcome"@) != Some(
            JsonTree::Text("missing"@),
        ) ==> !role_failed(r),
{
}

proof fn lemma_failed_roles_are_all(roles: Seq<JsonTree>)
    ensures
        failed_roles(roles) == roles.filter(|r: JsonTree| role_failed(r)).map_values(
            |r: JsonTree| role_words(r),
        ),
    decreases roles.len(),
{
    reveal(Seq::filter);
    if roles.len() > 0 {
        lemma_failed_roles_are_all(roles.drop_last());
    }
    assert(failed_roles(roles) =~= roles.filter(|r: JsonTree| role_failed(r)).map_values(
        |r: JsonTree| role_words(r),
    ));
}

/// A boot report warns exactly where a mandatory role failed. The warning names
/// every such role, in the order of the report, and no other one; each with its
/// name, its outcome and, as it was printed, the hint on installing it.
pub proof fn law_warning_names_every_failed_role(report: JsonTree, roles: Seq<JsonTree>)
    ensures
        report.member("roles"@) == Some(JsonTree::Array(roles)) ==> {
            let failed = roles.filter(|r: JsonTree| role_failed(r));
            &&& fatal_words(report) is Some <==> failed.len() > 0
            &&& fatal_words(report) is Some <==> exists|i: int|
                0 <= i < roles.len() && role_failed(#[trigger] roles[i])
            &&& fatal_words(report) matches Some(m) ==> m
                == "마스터는 시작됐으나 **의무 노드**가 빠졌습니다: "@ + joined(
                failed.map_values(|r: JsonTree| role_words(r)),
                " · "@,
            ) + ". 팀 없이도 마스터 단독 사용은 가능합니다."@
        },
        report.member("roles"@) is None ==> fatal_words(report) is None,
{
    lemma_failed_roles_are_all(roles);
    let w = |r: JsonTree| role_failed(r);
    let places = crate::order::lemma_chosen_places(roles, w);
    if roles.filter(w).len() > 0 {
        assert(w(roles[places[0]]));
    }
    if exists|i: int| 0 <= i < roles.len() && role_failed(#[trigger] roles[i]) {
        let i = choose|i: int| 0 <= i < roles.len() && role_failed(#[trigger] roles[i]);
        assert(w(roles[i]));
    }
}

/// A role in words is its name and its outcome, a question mark for what the
/// report does not say, and the hint where there is one.
pub proof fn law_role_in_words(
    r: JsonTree,
    role: Seq<char>,
    outcome: Seq<char>,
    hint: Seq<char>,
)
    ensures
        r.member("role"@) == Some(JsonTree::Text(role)) && r.member("outcome"@) == Some(
            JsonTree::Text(outcome),
        ) ==> {
            &&& r.member("install_hint"@) is None ==> role_words(r) == role + "="@ + outcome
            &&& r.member("install_hint"@) == Some(JsonTree::Text(hint)) ==> role_words(r) == role
                + "="@ + outcome + " → "@ + hint
        },
        r.member("role"@) is None ==> begins_with(role_words(r), "?="@),
{
    if r.member("role"@) is None {
        reveal_strlit("?");
        reveal_strlit("=");
        reveal_strlit("?=");
        assert(role_words(r).subrange(0, 2) =~= "?="@);
    }
}

/// What a direct boot says. Another boot under way is told as such, whatever the
/// report; otherwise a warning of the report is passed on as it is, whatever the
/// exit status; without one success is silent, and a failure is told with its exit
/// status.
pub proof fn law_direct_boot_signals(code: Option<i32>, fatal: Option<Seq<char>>)
    ensures
        code == Some(75i32) <==> boot_signal_of(code, fatal) is Info,
        code != Some(75i32) ==> (fatal matches Some(m) ==> boot_signal_of(code, fatal)
            == SignalFacts::Warn(m)),
        code == Some(0i32) && fatal is None <==> boot_signal_of(code, fatal) is Silent,
        fatal is None ==> (code matches Some(c) ==> c != 0 && c != 75 ==> (boot_signal_of(
            code,
            fatal,
        ) matches SignalFacts::Warn(m) && m == "팀 기동이 실패했습니다(cys boot exit "@
            + signed_decimal(c as int) + ") — `cys list` 로 노드 상태를 확인하세요."@)),
{
}

/// The exit statuses of the boot chain that name a step, and the step that each
/// of them names; any other one names none.
pub proof fn law_exit_status_names_its_step(c: int)
    ensures
        c == 3 <==> step_name(c) == "데몬 확인(②ping)"@,
        c == 4 <==> step_name(c) == "팀 기동(④cys boot)"@,
        c == 6 <==> step_name(c) == "노드 생존 확인(⑤check)"@,
        c == 8 <==> step_name(c) == "레인↔팩 정합(⓪lane-pack)"@,
        c == 9 <==> step_name(c) == "자원 게이트(④′resource-gate)"@,
        c == 10 <==> step_name(c) == "세션 컨텍스트(③claim-role)"@,
        c == 64 <==> step_name(c) == "명령 사용오류(EX_USAGE — 배선 점검)"@,
        step_name(c) == "알 수 없는"@ <==> c != 3 && c != 4 && c != 6 && c != 8 && c != 9 && c != 10 && c != 64,
{
    reveal_strlit("데몬 확인(②ping)");
    reveal_strlit("팀 기동(④cys boot)");
    reveal_strlit("노드 생존 확인(⑤check)");
    reveal_strlit("레인↔팩 정합(⓪lane-pack)");
    reveal_strlit("자원 게이트(④′resource-gate)");
    reveal_strlit("세션 컨텍스트(③claim-role)");
    reveal_strlit("명령 사용오류(EX_USAGE — 배선 점검)");
    reveal_strlit("알 수 없는");
    assert("데몬 확인(②ping)"@[0] == '데');
    assert("팀 기동(④cys boot)"@[0] == '팀');
    assert("노드 생존 확인(⑤check)"@[0] == '노');
    assert("레인↔팩 정합(⓪lane-pack)"@[0] == '레');
    assert("자원 게이트(④′resource-gate)"@[0] == '자');
    assert("세션 컨텍스트(③claim-role)"@[0] == '세');
    assert("명령 사용오류(EX_USAGE — 배선 점검)"@[0] == '명');
    assert("알 수 없는"@[0] == '알');
}

/// What the boot chain says. It is silent exactly after success, unless a
/// department head woke up alone, which is told; another chain under way is told
/// too; everything else is a warning. A warning of a stopped chain names the step
/// and the exit status, and ends with what the chain complained of.
pub proof fn law_chain_signals(code: Option<i32>, solo: bool, stderr: Seq<char>)
    ensures
        chain_signal_of(code, solo, stderr) is Silent <==> code == Some(0i32) && !solo,
        chain_signal_of(code, solo, stderr) is Info <==> (code == Some(0i32) && solo) || code
            == Some(11i32),
        code matches Some(c) ==> c != 0 && c != 7 && c != 11 ==> (chain_signal_of(
            code,
            solo,
            stderr,
        ) matches SignalFacts::Warn(m) && m == "팀 기동 체인이 "@ + step_name(c as int)
            + " 단계에서 멈췄습니다(javis_bootstrap exit "@ + signed_decimal(c as int) + ").\n"@
            + error_detail(stderr)),
        code is None ==> (chain_signal_of(code, solo, stderr) matches SignalFacts::Warn(m)
            && crate::text::finishes_with(m, error_detail(stderr))),
{
    if code is None {
        let front = "팀 기동 체인이 비정상 종료했습니다(시그널).\n"@;
        crate::text::law_where_patterns_stand(front + error_detail(stderr), error_detail(stderr));
    }
}

/// A department head woke up alone exactly where the report says so.
pub proof fn law_waking_alone_is_reported(t: JsonTree)
    ensures
        woke_alone(Some(t)) <==> t.member("solo_awakening"@) == Some(JsonTree::Bool(true)),
        !woke_alone(None),
{
}

proof fn lemma_full_lines(lines: Seq<Seq<char>>)
    ensures
        full_lines(lines) == lines.filter(|l: Seq<char>| trimmed(l).len() > 0).map_values(
            |l: Seq<char>| trimmed(l),
        ),
    decreases lines.len(),
{
    reveal(Seq::filter);
    if lines.len() > 0 {
        lemma_full_lines(lines.drop_last());
    }
    assert(full_lines(lines) =~= lines.filter(|l: Seq<char>| trimmed(l).len() > 0).map_values(
        |l: Seq<char>| trimmed(l),
    ));
}

/// What a chain complained of is told with its last lines, six at most, in order
/// and trimmed; blank lines do not count.
pub proof fn law_last_six_lines_are_told(stderr: Seq<char>)
    ensures
        ({
            let full = lines_of(stderr).filter(|l: Seq<char>| trimmed(l).len() > 0).map_values(
                |l: Seq<char>| trimmed(l),
            );
            &&& full.len() <= 6 ==> error_detail(stderr) == joined(full, "\n"@)
            &&& full.len() > 6 ==> error_detail(stderr) == joined(
                full.subrange(full.len() - 6, full.len() as int),
                "\n"@,
            )
        }),
{
    lemma_full_lines(lines_of(stderr));
    let full = full_lines(lines_of(stderr));
    if full.len() > 6 {
        assert(full.skip(full.len() - 6) =~= full.subrange(full.len() - 6, full.len() as int));
    }
}

/// Where the chain cannot be used, the user is told why: the path at which there
/// is no script, or the interpreter that did not start and its error. A direct boot
/// that did not start is told with its error.
pub proof fn law_boot_tells_why(path: String, index: u8, error: String)
    ensures
        boot_step(BootEvent::Script { present: true, path }) == BootStepFacts::RunChain(0),
        boot_step(BootEvent::ChainFailed { index: 0, error }) == BootStepFacts::RunChain(1),
        boot_step(BootEvent::Script { present: false, path }) matches BootStepFacts::Degrade(m)
            && crate::text::contains_text(m, "부트 체인 스크립트 부재("@ + path@ + ")"@),
        index > 0 ==> (boot_step(
            BootEvent::ChainFailed { index, error },
        ) matches BootStepFacts::Degrade(m) && crate::text::contains_text(
            m,
            "python 인터프리터 해소 실패(python: "@ + error@ + ")"@,
        )),
        boot_step(BootEvent::DirectFailed { error }) == BootStepFacts::Finish(
            SignalFacts::Warn("팀 기동(cys boot) 실행 실패: "@ + error@),
        ),
        interpreter_name(0) == "python3"@,
        index > 0 ==> interpreter_name(index as int) == "python"@,
{
    let a = "부트 체인 스크립트 부재("@ + path@ + ")"@;
    crate::text::law_where_patterns_stand(degraded_notice(a), a);
    let b = "python 인터프리터 해소 실패(python: "@ + error@ + ")"@;
    crate::text::law_where_patterns_stand(degraded_notice(b), b);
    reveal_strlit("python 인터프리터 해소 실패(python: ");
    reveal_strlit("python 인터프리터 해소 실패(");
    reveal_strlit("python");
    reveal_strlit(": ");
    assert("python 인터프리터 해소 실패("@ + "python"@ + ": "@ =~= "python 인터프리터 해소 실패(python: "@);
    assert("python 인터프리터 해소 실패("@ + "python"@ + ": "@ + error@ + ")"@ =~= b);
}

/// What a chain or a direct boot that ran has to say is what its exit status and
/// its output amount to.
pub proof fn law_boot_finishes_with_what_ran(code: Option<i32>, stdout: String, stderr: String)
    ensures
        boot_step(BootEvent::ChainRan { code, stdout, stderr }) == BootStepFacts::Finish(
            chain_signal_of(code, woke_alone(last_object(stdout@)), stderr@),
        ),
        boot_step(BootEvent::DirectRan { code, stdout }) == BootStepFacts::Finish(
            boot_signal_of(
                code,
                match last_object(stdout@) {
                    Some(t) => fatal_words(t),
                    None => None,
                },
            ),
        ),
{
}

/// The notice on a master that waits is the one for a department's master or for
/// the headquarters', as the case may be, and ends with what the launch complained
/// of.
pub proof fn law_gate_notice_ends_with_the_complaint(stderr: Seq<char>)
    ensures
        crate::text::finishes_with(gate_notice(true, stderr), trimmed(stderr)),
        crate::text::finishes_with(gate_notice(false, stderr), trimmed(stderr)),
        gate_notice(true, stderr)
            == "부서장 pane 은 떴고 프로세스도 살아 있으나 **첫기동 관문**에 갇혀 있습니다(pane 은 닫지 않았습니다). 그 pane 에서 관문을 1회 통과시킨 뒤 다시 시작하세요 — ★면책 창의 기본 선택은 `No, exit` 이라 그대로 Enter 를 누르면 종료됩니다(아래 방향키 1회 뒤 Enter).\n"@
            + trimmed(stderr),
        gate_notice(false, stderr)
            == "마스터 pane 은 떴고 프로세스도 살아 있으나 **첫기동 관문**에 갇혀 있습니다(pane 은 닫지 않았습니다). 그 pane 에서 관문을 1회 통과시킨 뒤 다시 시작하세요 — 순서는 테마 → 로그인방식 → OAuth → 폴더신뢰 → 면책 → 새기능안내이고, ★면책 창의 기본 선택은 `No, exit` 이라 그대로 Enter 를 누르면 종료됩니다(아래 방향키 1회 뒤 Enter).\n"@
            + trimmed(stderr),
{
    let t = trimmed(stderr);
    let d = "부서장 pane 은 떴고 프로세스도 살아 있으나 **첫기동 관문**에 갇혀 있습니다(pane 은 닫지 않았습니다). 그 pane 에서 관문을 1회 통과시킨 뒤 다시 시작하세요 — ★면책 창의 기본 선택은 `No, exit` 이라 그대로 Enter 를 누르면 종료됩니다(아래 방향키 1회 뒤 Enter).\n"@;
    let m = "마스터 pane 은 떴고 프로세스도 살아 있으나 **첫기동 관문**에 갇혀 있습니다(pane 은 닫지 않았습니다). 그 pane 에서 관문을 1회 통과시킨 뒤 다시 시작하세요 — 순서는 테마 → 로그인방식 → OAuth → 폴더신뢰 → 면책 → 새기능안내이고, ★면책 창의 기본 선택은 `No, exit` 이라 그대로 Enter 를 누르면 종료됩니다(아래 방향키 1회 뒤 Enter).\n"@;
    crate::text::law_where_patterns_stand(d + t, t);
    crate::text::law_where_patterns_stand(m + t, t);
}

/// A hint is given exactly where the report says that this very agent is not
/// installed and gives a hint for it.
pub proof fn law_hint_needs_a_missing_agent(report: JsonTree, agent: Seq<char>, found: JsonTree)
    ensures
        report.at("agents"@).member(agent) == Some(found) ==> hint_of(report, agent) == (
        match found.member("hint"@) {
            Some(JsonTree::Text(h)) if found.member("installed"@) == Some(
                JsonTree::Bool(false),
            ) => Some(h),
            _ => None,
        }),
        report.at("agents"@).member(agent) is None ==> hint_of(report, agent) is None,
{
}

} // verus!
