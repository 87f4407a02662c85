//! Which `cys` the login shell finds: the command that asks, and what its
//! output says.

use vstd::prelude::*;

use crate::backup::listed;
use crate::bundle::{paths_equivalent};
use crate::bundle::normalized;
use crate::path::file_name;
use crate::path::file_name_of;
use crate::text::{any_white, chars_of, lines, same_text, trim};
use crate::text::{has_white, lines_of, str_texts, texts, trimmed};

verus! {

pub const PROBE_BEGIN_MARK: &'static str = "__cys_probe_begin__";

pub const PROBE_END_MARK: &'static str = "__cys_probe_end__";

pub const PROBE_BEGIN_MARK_D: &'static str = "__cys_probe_begin_d__";

pub const PROBE_END_MARK_D: &'static str = "__cys_probe_end_d__";

/// What asking the shell gave: the paths it found, first the one it runs, or
/// why it could not be asked. An empty list is a measurement; a failure never
/// becomes one.
#[derive(Debug, PartialEq, Eq)]
pub enum WhichProbe {
    Completed(Vec<String>),
    Unmeasured(String),
}

/// A probe with its texts.
pub enum ProbeFacts {
    Completed(Seq<Seq<char>>),
    Unmeasured(Seq<char>),
}

impl WhichProbe {
    pub open spec fn view(self) -> ProbeFacts {
        match self {
            WhichProbe::Completed(v) => ProbeFacts::Completed(texts(v@)),
            WhichProbe::Unmeasured(r) => ProbeFacts::Unmeasured(r@),
        }
    }
}

/// The probes for both binaries out of one run of the shell.
#[derive(Debug)]
pub struct WhichProbePair {
    pub cys: WhichProbe,
    pub cysd: WhichProbe,
}

/// The first line from `from` on that is `mark` between white space.
pub open spec fn mark_line(lines: Seq<Seq<char>>, mark: Seq<char>, from: int) -> Option<int>
    decreases lines.len() - from,
{
    if from < 0 || from >= lines.len() {
        None
    } else if trimmed(lines[from]) == mark {
        Some(from)
    } else {
        mark_line(lines, mark, from + 1)
    }
}

/// The lines that are an absolute path without white space, trimmed.
pub open spec fn path_lines(lines: Seq<Seq<char>>) -> Seq<Seq<char>>
    decreases lines.len(),
{
    if lines.len() == 0 {
        Seq::empty()
    } else {
        let head = path_lines(lines.drop_last());
        let t = trimmed(lines.last());
        if t.len() > 0 && t[0] == '/' && !has_white(t) {
            head.push(t)
        } else {
            head
        }
    }
}

/// The line of the begin mark, and behind it that of the end mark.
pub open spec fn mark_lines(
    stdout: Seq<char>,
    begin: Seq<char>,
    end: Seq<char>,
) -> (Option<int>, Option<int>) {
    let all = lines_of(stdout);
    match mark_line(all, begin, 0) {
        Some(b) => (Some(b), mark_line(all, end, b + 1)),
        None => (None, None),
    }
}

/// The paths between the two marks; without both marks in this order, which of
/// them is missing.
pub open spec fn found_paths(stdout: Seq<char>, begin: Seq<char>, end: Seq<char>) -> Result<
    Seq<Seq<char>>,
    Seq<char>,
> {
    match mark_lines(stdout, begin, end) {
        (Some(b), Some(e)) => Ok(path_lines(lines_of(stdout).subrange(b + 1, e))),
        (b, e) => Err(
            "시작표식 "@ + (if b is Some {
                "있음"@
            } else {
                "없음"@
            }) + ", 끝표식 "@ + (if e is Some {
                "있음"@
            } else {
                "없음(또는 시작보다 앞)"@
            }),
        ),
    }
}

fn find_mark(all: &Vec<&str>, mark: &str, from: usize) -> (r: Option<usize>)
    requires
        from <= all.len(),
    ensures
        match r {
            Some(i) => mark_line(str_texts(all@), mark@, from as int) == Some(i as int) && from
                <= i < all.len(),
            None => mark_line(str_texts(all@), mark@, from as int) is None,
        },
{
    let mut i: usize = from;
    let ghost lt = str_texts(all@);
    while i < all.len()
        invariant
            from <= i <= all.len(),
            lt == str_texts(all@),
            mark_line(lt, mark@, from as int) == mark_line(lt, mark@, i as int),
        decreases all.len() - i,
    {
        assert(lt[i as int] == all@[i as int]@);
        if same_text(trim(all[i]), mark) {
            return Some(i);
        }
        i += 1;
    }
    None
}

/// The paths that the shell printed between the marks `begin` and `end`.
pub fn parse_which_a(stdout: &str, begin: &str, end: &str) -> (r: Result<Vec<String>, String>)
    ensures
        match r {
            Ok(v) => found_paths(stdout@, begin@, end@) == Ok::<_, Seq<char>>(texts(v@)),
            Err(e) => found_paths(stdout@, begin@, end@) == Err::<Seq<Seq<char>>, _>(e@),
        },
{
    let all = lines(stdout);
    let ghost lt = lines_of(stdout@);
    assert(lt.len() == all@.len());
    let begin_at = find_mark(&all, begin, 0);
    let end_at = match begin_at {
        Some(b) => find_mark(&all, end, b + 1),
        None => None,
    };
    if let (Some(b), Some(e)) = (begin_at, end_at) {
        let mut out: Vec<String> = Vec::new();
        let mut i: usize = b + 1;
        assert(lt.subrange(b + 1, b + 1) == Seq::<Seq<char>>::empty());
        while i < e
            invariant
                b < i <= e <= all.len(),
                lt == str_texts(all@),
                texts(out@) == path_lines(lt.subrange(b + 1, i as int)),
            decreases e - i,
        {
            let ghost was = out@;
            let ghost part = lt.subrange(b + 1, i + 1);
            assert(part.drop_last() == lt.subrange(b + 1, i as int));
            assert(part.last() == all@[i as int]@);
            let t = trim(all[i]);
            let c = chars_of(t);
            if c.len() > 0 && c[0] == '/' && !any_white(t) {
                let s = t.to_owned();
                out.push(s);
                assert(texts(out@) == texts(was).push(t@));
            }
            i += 1;
        }
        return Ok(out);
    }
    let mut msg = "시작표식 ".to_owned();
    msg.append(
        if begin_at.is_some() {
            "있음"
        } else {
            "없음"
        },
    );
    msg.append(", 끝표식 ");
    msg.append(
        if end_at.is_some() {
            "있음"
        } else {
            "없음(또는 시작보다 앞)"
        },
    );
    Err(msg)
}

/// The command that the login shell runs.
pub open spec fn probe_command() -> Seq<char> {
    "echo "@ + PROBE_BEGIN_MARK@ + "; which -a cys; echo "@ + PROBE_END_MARK@ + "; echo "@
        + PROBE_BEGIN_MARK_D@ + "; which -a cysd; echo "@ + PROBE_END_MARK_D@
}

/// The command that the login shell runs: it asks for both binaries, each
/// between marks of its own.
pub fn which_probe_command() -> (r: String)
    ensures
        r@ == probe_command(),
{
    let mut out = "echo ".to_owned();
    out.append(PROBE_BEGIN_MARK);
    out.append("; which -a cys; echo ");
    out.append(PROBE_END_MARK);
    out.append("; echo ");
    out.append(PROBE_BEGIN_MARK_D);
    out.append("; which -a cysd; echo ");
    out.append(PROBE_END_MARK_D);
    out
}

/// What the output and the exit status of the shell amount to. Only output
/// between both marks of a shell that ended well is a measurement.
pub open spec fn interpretation(
    shell_ok: bool,
    stdout: Seq<char>,
    shell_name: Seq<char>,
    begin: Seq<char>,
    end: Seq<char>,
) -> ProbeFacts {
    match found_paths(stdout, begin, end) {
        Ok(paths) => if shell_ok {
            ProbeFacts::Completed(paths)
        } else {
            ProbeFacts::Unmeasured(
                shell_name
                    + "가 검증 명령을 비정상 종료했습니다(표식은 있으나 종료상태 비정상)"@,
            )
        },
        Err(why) => ProbeFacts::Unmeasured(
            shell_name + "가 검증 명령을 끝까지 실행하지 못했습니다(종료상태 "@ + (if shell_ok {
                "정상"@
            } else {
                "비정상"@
            }) + ", "@ + why + ")"@,
        ),
    }
}

/// What the output and the exit status of the shell amount to.
pub fn interpret_which_probe(
    shell_ok: bool,
    stdout: &str,
    shell_name: &str,
    begin: &str,
    end: &str,
) -> (r: WhichProbe)
    ensures
        r@ == interpretation(shell_ok, stdout@, shell_name@, begin@, end@),
{
    match parse_which_a(stdout, begin, end) {
        Ok(paths) => {
            if shell_ok {
                WhichProbe::Completed(paths)
            } else {
                let mut msg = shell_name.to_owned();
                msg.append(
                    "가 검증 명령을 비정상 종료했습니다(표식은 있으나 종료상태 비정상)",
                );
                WhichProbe::Unmeasured(msg)
            }
        },
        Err(why) => {
            let mut msg = shell_name.to_owned();
            msg.append("가 검증 명령을 끝까지 실행하지 못했습니다(종료상태 ");
            msg.append(
                if shell_ok {
                    "정상"
                } else {
                    "비정상"
                },
            );
            msg.append(", ");
            msg.append(why.as_str());
            msg.append(")");
            WhichProbe::Unmeasured(msg)
        },
    }
}

/// The items of `s` that are among `keep`, in order.
pub open spec fn kept(s: Seq<Seq<char>>, keep: Seq<Seq<char>>) -> Seq<Seq<char>>
    decreases s.len(),
{
    if s.len() == 0 {
        Seq::empty()
    } else if keep.contains(s.last()) {
        kept(s.drop_last(), keep).push(s.last())
    } else {
        kept(s.drop_last(), keep)
    }
}

/// A probe whose paths are only those of `files`.
pub open spec fn observed(p: ProbeFacts, files: Seq<Seq<char>>) -> ProbeFacts {
    match p {
        ProbeFacts::Completed(paths) => ProbeFacts::Completed(kept(paths, files)),
        ProbeFacts::Unmeasured(r) => ProbeFacts::Unmeasured(r),
    }
}

/// The probe without the paths at which there is no file. `files` lists the
/// paths at which there is one.
pub fn observe_probe_paths(p: WhichProbe, files: &[String]) -> (r: WhichProbe)
    ensures
        r@ == observed(p@, texts(files@)),
{
    match p {
        WhichProbe::Completed(paths) => {
            let mut out: Vec<String> = Vec::new();
            let ghost all = texts(paths@);
            let mut i: usize = 0;
            assert(texts(out@) == kept(all.take(0), texts(files@)));
            while i < paths.len()
                invariant
                    i <= paths.len(),
                    all == texts(paths@),
                    texts(out@) == kept(all.take(i as int), texts(files@)),
                decreases paths.len() - i,
            {
                let ghost was = out@;
                assert(all.take(i + 1).drop_last() == all.take(i as int));
                assert(all[i as int] == paths@[i as int]@);
                if listed(files, paths[i].as_str()) {
                    let s = paths[i].clone();
                    out.push(s);
                    assert(texts(out@) == texts(was).push(s@));
                }
                i += 1;
            }
            assert(all.take(paths.len() as int) == all);
            WhichProbe::Completed(out)
        },
        WhichProbe::Unmeasured(r) => WhichProbe::Unmeasured(r),
    }
}

/// Both probes out of what one run of the shell gave: how it ended and what it
/// printed, or why it could not be run.
pub fn run_which_probe(
    captured: Result<(bool, String), String>,
    shell_name: &str,
    files: &[String],
) -> (r: WhichProbePair)
    ensures
        match captured {
            Ok(c) => {
                &&& r.cys@ == observed(
                    interpretation(
                        c.0,
                        c.1@,
                        shell_name@,
                        PROBE_BEGIN_MARK@,
                        PROBE_END_MARK@,
                    ),
                    texts(files@),
                )
                &&& r.cysd@ == observed(
                    interpretation(
                        c.0,
                        c.1@,
                        shell_name@,
                        PROBE_BEGIN_MARK_D@,
                        PROBE_END_MARK_D@,
                    ),
                    texts(files@),
                )
            },
            Err(e) => r.cys@ == ProbeFacts::Unmeasured(e@) && r.cysd@ == ProbeFacts::Unmeasured(
                e@,
            ),
        },
{
    match captured {
        Ok((shell_ok, stdout)) => WhichProbePair {
            cys: observe_probe_paths(
                interpret_which_probe(
                    shell_ok,
                    stdout.as_str(),
                    shell_name,
                    PROBE_BEGIN_MARK,
                    PROBE_END_MARK,
                ),
                files,
            ),
            cysd: observe_probe_paths(
                interpret_which_probe(
                    shell_ok,
                    stdout.as_str(),
                    shell_name,
                    PROBE_BEGIN_MARK_D,
                    PROBE_END_MARK_D,
                ),
                files,
            ),
        },
        Err(reason) => WhichProbePair {
            cys: WhichProbe::Unmeasured(reason.clone()),
            cysd: WhichProbe::Unmeasured(reason),
        },
    }
}

/// The last name of a shell's path, or the whole text.
pub open spec fn shell_name_of(shell: Seq<char>) -> Seq<char> {
    match file_name_of(shell) {
        Some(n) => n,
        None => shell,
    }
}

/// A shell of this name takes `-lc`.
pub open spec fn takes_lc(name: Seq<char>) -> bool {
    ||| name == "sh"@
    ||| name == "bash"@
    ||| name == "zsh"@
    ||| name == "dash"@
    ||| name == "ksh"@
    ||| name == "mksh"@
    ||| name == "fish"@
}

/// The last name of a shell's path.
pub fn shell_base_name(shell: &str) -> (r: String)
    ensures
        r@ == shell_name_of(shell@),
{
    match file_name(shell) {
        Some(n) => n,
        None => shell.to_owned(),
    }
}

/// The login shell: the trimmed value of the environment, or bash.
pub fn login_shell_of(env: Option<&str>) -> (r: String)
    ensures
        r@ == (match env {
            Some(v) => if trimmed(v@).len() > 0 {
                trimmed(v@)
            } else {
                "/bin/bash"@
            },
            None => "/bin/bash"@,
        }),
{
    match env {
        Some(v) => {
            let t = trim(v);
            if t.is_empty() {
                "/bin/bash".to_owned()
            } else {
                t.to_owned()
            }
        },
        None => "/bin/bash".to_owned(),
    }
}

/// The shell to ask in place of one that does not take `-lc`.
pub fn probe_fallback_shell(login_shell: &str) -> (r: Option<&'static str>)
    ensures
        crate::text::opt_str_text(r) == (if takes_lc(shell_name_of(login_shell@)) {
            None
        } else {
            Some("/bin/zsh"@)
        }),
{
    let name_owned = shell_base_name(login_shell);
    let name = name_owned.as_str();
    if same_text(name, "sh") || same_text(name, "bash") || same_text(name, "zsh") || same_text(
        name,
        "dash",
    ) || same_text(name, "ksh") || same_text(name, "mksh") || same_text(name, "fish") {
        None
    } else {
        Some("/bin/zsh")
    }
}

/// The second shell to ask, and the name it is reported under.
#[derive(Debug)]
pub struct RetryShell {
    pub shell: String,
    pub name: String,
}

/// The name of the second shell, which says whose place it takes.
pub open spec fn retry_name(shell: Seq<char>, login_shell: Seq<char>) -> Seq<char> {
    shell_name_of(shell) + "(기본 셸 "@ + shell_name_of(login_shell)
        + "가 -lc를 받지 못해 대체)"@
}

/// Whether to ask a second shell: only where the first could not be asked and
/// is not known to take `-lc`. `candidate_exists` says whether the preferred
/// second shell is installed; bash stands in for it.
pub fn retry_shell(login_shell: &str, first: &WhichProbePair, candidate_exists: bool) -> (r: Option<
    RetryShell,
>)
    ensures
        r is Some <==> first.cys@ is Unmeasured && !takes_lc(shell_name_of(login_shell@)),
        r matches Some(s) ==> s.shell@ == (if candidate_exists {
            "/bin/zsh"@
        } else {
            "/bin/bash"@
        }) && s.name@ == retry_name(s.shell@, login_shell@),
{
    match &first.cys {
        WhichProbe::Completed(_) => None,
        WhichProbe::Unmeasured(_) => match probe_fallback_shell(login_shell) {
            None => None,
            Some(candidate) => {
                let shell = if candidate_exists {
                    candidate
                } else {
                    "/bin/bash"
                };
                let mut name = shell_base_name(shell);
                name.append("(기본 셸 ");
                name.append(shell_base_name(login_shell).as_str());
                name.append("가 -lc를 받지 못해 대체)");
                Some(RetryShell { shell: shell.to_owned(), name })
            },
        },
    }
}

/// `s` folded onto `target`: any path that is the same file as the target but
/// another text is written as the target.
pub open spec fn folded(s: Seq<Seq<char>>, target: Seq<char>, same: Seq<Seq<char>>) -> Seq<
    Seq<char>,
> {
    s.map_values(
        |p: Seq<char>|
            if normalized(p) != normalized(target) && same.contains(p) {
                target
            } else {
                p
            },
    )
}

/// A probe whose paths are folded onto the target.
pub open spec fn canonical(p: ProbeFacts, target: Seq<char>, same: Seq<Seq<char>>) -> ProbeFacts {
    match p {
        ProbeFacts::Completed(paths) => ProbeFacts::Completed(folded(paths, target, same)),
        ProbeFacts::Unmeasured(r) => ProbeFacts::Unmeasured(r),
    }
}

/// The probe with every path that is the same file as `target` written as
/// `target`. `same_file` lists the paths that were seen to be that file.
pub fn canonicalize_probe_to_target(p: WhichProbe, target: &str, same_file: &[String]) -> (r:
    WhichProbe)
    ensures
        r@ == canonical(p@, target@, texts(same_file@)),
{
    match p {
        WhichProbe::Completed(paths) => {
            let mut out: Vec<String> = Vec::new();
            let ghost all = texts(paths@);
            let ghost want = folded(all, target@, texts(same_file@));
            let mut i: usize = 0;
            while i < paths.len()
                invariant
                    i <= paths.len(),
                    all == texts(paths@),
                    want == folded(all, target@, texts(same_file@)),
                    texts(out@) == want.take(i as int),
                decreases paths.len() - i,
            {
                let ghost was = out@;
                assert(all[i as int] == paths@[i as int]@);
                let s = if !paths_equivalent(paths[i].as_str(), target) && listed(
                    same_file,
                    paths[i].as_str(),
                ) {
                    target.to_owned()
                } else {
                    paths[i].clone()
                };
                out.push(s);
                assert(texts(out@) == texts(was).push(s@));
                assert(want.take(i + 1) == want.take(i as int).push(want[i as int]));
                i += 1;
            }
            assert(want.take(paths.len() as int) == want);
            WhichProbe::Completed(out)
        },
        WhichProbe::Unmeasured(r) => WhichProbe::Unmeasured(r),
    }
}

/// What the login shell finds for both binaries, and the shell that said so.
#[derive(Debug)]
pub struct ShadowProbe {
    pub shell_name: String,
    pub cys: WhichProbe,
    pub cysd: WhichProbe,
}

/// The probe for `cys` after a second shell was asked: its answer where it had
/// one, both reasons where it had none.
pub open spec fn settled(first: ProbeFacts, shell: Seq<char>, second: ProbeFacts) -> ProbeFacts {
    match (first, second) {
        (ProbeFacts::Unmeasured(a), ProbeFacts::Unmeasured(b)) => ProbeFacts::Unmeasured(
            a + " / 대체 셸 "@ + shell + " 재시도도 실패: "@ + b,
        ),
        _ => second,
    }
}

/// What the shells said, with paths that are the same files as the targets
/// written as the targets. `retry` is the second shell and its answer, where
/// one was asked; its answer counts only where it could be asked.
pub fn probe_path_shadows(
    login_shell: &str,
    first: WhichProbePair,
    retry: Option<(RetryShell, WhichProbePair)>,
    target_cys: &str,
    target_cysd: &str,
    same_as_cys: &[String],
    same_as_cysd: &[String],
) -> (r: ShadowProbe)
    ensures
        match retry {
            None => {
                &&& r.shell_name@ == shell_name_of(login_shell@)
                &&& r.cys@ == canonical(first.cys@, target_cys@, texts(same_as_cys@))
                &&& r.cysd@ == canonical(first.cysd@, target_cysd@, texts(same_as_cysd@))
            },
            Some(x) => {
                &&& r.shell_name@ == (if x.1.cys@ is Completed {
                    x.0.name@
                } else {
                    shell_name_of(login_shell@)
                })
                &&& r.cys@ == canonical(
                    settled(first.cys@, x.0.shell@, x.1.cys@),
                    target_cys@,
                    texts(same_as_cys@),
                )
                &&& r.cysd@ == canonical(
                    if x.1.cys@ is Completed {
                        x.1.cysd@
                    } else {
                        first.cysd@
                    },
                    target_cysd@,
                    texts(same_as_cysd@),
                )
            },
        },
{
    let mut shell_name = shell_base_name(login_shell);
    let (cys, cysd) = match retry {
        None => (first.cys, first.cysd),
        Some((shell, second)) => match second.cys {
            WhichProbe::Completed(paths) => {
                shell_name = shell.name;
                (WhichProbe::Completed(paths), second.cysd)
            },
            WhichProbe::Unmeasured(b) => match first.cys {
                WhichProbe::Unmeasured(a) => {
                    let mut why = a;
                    why.append(" / 대체 셸 ");
                    why.append(shell.shell.as_str());
                    why.append(" 재시도도 실패: ");
                    why.append(b.as_str());
                    (WhichProbe::Unmeasured(why), first.cysd)
                },
                WhichProbe::Completed(_) => (WhichProbe::Unmeasured(b), first.cysd),
            },
        },
    };
    ShadowProbe {
        shell_name,
        cys: canonicalize_probe_to_target(cys, target_cys, same_as_cys),
        cysd: canonicalize_probe_to_target(cysd, target_cysd, same_as_cysd),
    }
}

/// What looking at a running child process gave.
#[derive(Debug)]
pub enum ChildPoll {
    Exited(bool),
    Running,
    Failed(String),
}

/// What to do about a running child process.
#[derive(Debug, PartialEq, Eq)]
pub enum CaptureStep {
    /// Look again later.
    Wait,
    /// The child ended; its success and its output are the result.
    Finish(bool),
    /// Kill the child and collect it, then fail.
    KillAndFail(String),
    /// Fail.
    Fail(String),
}

/// One step of waiting for a child: a child that ended counts even after the
/// deadline, one still running then is killed, and neither a timeout nor a
/// failed look becomes an empty success.
pub fn run_capture_with_timeout_in(
    program: &str,
    poll: ChildPoll,
    past_deadline: bool,
    limit_secs: &str,
) -> (r: CaptureStep)
    ensures
        match poll {
            ChildPoll::Exited(ok) => r == CaptureStep::Finish(ok),
            ChildPoll::Running => if past_deadline {
                r matches CaptureStep::KillAndFail(m) && m@ == program@ + " 타임아웃("@
                    + limit_secs@ + "초 초과)"@
            } else {
                r == CaptureStep::Wait
            },
            ChildPoll::Failed(e) => r matches CaptureStep::Fail(m) && m@ == program@
                + " 상태 확인 실패: "@ + e@,
        },
{
    match poll {
        ChildPoll::Exited(ok) => CaptureStep::Finish(ok),
        ChildPoll::Running => {
            if past_deadline {
                let mut m = program.to_owned();
                m.append(" 타임아웃(");
                m.append(limit_secs);
                m.append("초 초과)");
                CaptureStep::KillAndFail(m)
            } else {
                CaptureStep::Wait
            }
        },
        ChildPoll::Failed(e) => {
            let mut m = program.to_owned();
            m.append(" 상태 확인 실패: ");
            m.append(e.as_str());
            CaptureStep::Fail(m)
        },
    }
}

/// Only a shell that ended well and printed both marks in order was measured.
/// Anything else is a failure with a reason, never an empty measurement.
pub proof fn law_failure_is_never_a_measurement(
    shell_ok: bool,
    stdout: Seq<char>,
    shell_name: Seq<char>,
    begin: Seq<char>,
    end: Seq<char>,
)
    ensures
        interpretation(shell_ok, stdout, shell_name, begin, end) is Completed <==> shell_ok
            && mark_lines(stdout, begin, end).0 is Some && mark_lines(stdout, begin, end).1 is Some,
{
}

/// `p` is an absolute path without white space.
pub open spec fn plain_absolute(p: Seq<char>) -> bool {
    p.len() > 0 && p[0] == '/' && !has_white(p)
}

proof fn lemma_path_lines_plain(lines: Seq<Seq<char>>)
    ensures
        forall|i: int|
            0 <= i < path_lines(lines).len() ==> plain_absolute(#[trigger] path_lines(lines)[i]),
        forall|i: int|
            0 <= i < path_lines(lines).len() ==> exists|k: int|
                0 <= k < lines.len() && trimmed(#[trigger] lines[k]) == #[trigger] path_lines(
                    lines,
                )[i],
    decreases lines.len(),
{
    if lines.len() > 0 {
        let u = lines.drop_last();
        lemma_path_lines_plain(u);
        let head = path_lines(u);
        let all = path_lines(lines);
        assert forall|i: int| 0 <= i < all.len() implies plain_absolute(#[trigger] all[i]) by {
            if i < head.len() {
                assert(all[i] == head[i]);
            }
        }
        assert forall|i: int| 0 <= i < all.len() implies exists|k: int|
            0 <= k < lines.len() && trimmed(#[trigger] lines[k]) == #[trigger] all[i] by {
            if i < head.len() {
                assert(all[i] == head[i]);
                let k = choose|k: int|
                    0 <= k < u.len() && trimmed(#[trigger] u[k]) == head[i];
                assert(lines[k] == u[k]);
            } else {
                assert(trimmed(lines[lines.len() - 1]) == all[i]);
            }
        }
    }
}

/// Every path that a measurement holds is an absolute path without white space
/// that stood alone on a line between the two marks.
pub proof fn law_paths_stand_between_the_marks(stdout: Seq<char>, begin: Seq<char>, end: Seq<char>)
    requires
        found_paths(stdout, begin, end) is Ok,
    ensures
        ({
            let paths = found_paths(stdout, begin, end)->Ok_0;
            let b = mark_lines(stdout, begin, end).0->0;
            let e = mark_lines(stdout, begin, end).1->0;
            &&& 0 <= b < e < lines_of(stdout).len()
            &&& trimmed(lines_of(stdout)[b]) == begin
            &&& trimmed(lines_of(stdout)[e]) == end
            &&& forall|i: int| 0 <= i < paths.len() ==> plain_absolute(#[trigger] paths[i])
            &&& forall|i: int|
                0 <= i < paths.len() ==> exists|k: int|
                    b < k < e && trimmed(#[trigger] lines_of(stdout)[k]) == #[trigger] paths[i]
        }),
{
    let all = lines_of(stdout);
    lemma_mark_line(all, begin, 0);
    let b = mark_lines(stdout, begin, end).0->0;
    lemma_mark_line(all, end, b + 1);
    let e = mark_lines(stdout, begin, end).1->0;
    let part = all.subrange(b + 1, e);
    lemma_path_lines_plain(part);
    let paths = path_lines(part);
    assert forall|i: int| 0 <= i < paths.len() implies exists|k: int|
        b < k < e && trimmed(#[trigger] all[k]) == #[trigger] paths[i] by {
        let k = choose|k: int| 0 <= k < part.len() && trimmed(#[trigger] part[k]) == paths[i];
        assert(all[b + 1 + k] == part[k]);
    }
}

proof fn lemma_mark_line(lines: Seq<Seq<char>>, mark: Seq<char>, from: int)
    requires
        0 <= from,
    ensures
        mark_line(lines, mark, from) matches Some(i) ==> from <= i < lines.len() && trimmed(
            lines[i],
        ) == mark,
    decreases lines.len() - from,
{
    if from < lines.len() && trimmed(lines[from]) != mark {
        lemma_mark_line(lines, mark, from + 1);
    }
}

proof fn lemma_mark_line_shift(
    front: Seq<Seq<char>>,
    back: Seq<Seq<char>>,
    mark: Seq<char>,
    from: int,
)
    requires
        0 <= from,
    ensures
        mark_line(front + back, mark, front.len() + from) == (match mark_line(back, mark, from) {
            Some(i) => Some(front.len() + i),
            None => None,
        }),
    decreases back.len() - from,
{
    if from < back.len() {
        assert((front + back)[front.len() + from] == back[from]);
        if trimmed(back[from]) != mark {
            lemma_mark_line_shift(front, back, mark, from + 1);
        }
    }
}

proof fn lemma_mark_line_skip(
    front: Seq<Seq<char>>,
    back: Seq<Seq<char>>,
    mark: Seq<char>,
    from: int,
)
    requires
        0 <= from <= front.len(),
        mark_line(front, mark, from) is None,
    ensures
        mark_line(front + back, mark, from) == mark_line(front + back, mark, front.len() as int),
    decreases front.len() - from,
{
    if from < front.len() {
        assert((front + back)[from] == front[from]);
        lemma_mark_line_skip(front, back, mark, from + 1);
    }
}

proof fn lemma_lines_concat(a: Seq<char>, b: Seq<char>)
    ensures
        lines_of(a.push('\n') + b) == lines_of(a.push('\n')) + lines_of(b),
{
    crate::text::lemma_split_concat(a, b, '\n');
    crate::text::lemma_split_concat(a, Seq::empty(), '\n');
    let e = Seq::<char>::empty();
    assert(a.push('\n') + e == a.push('\n'));
    let f = |p: Seq<char>| crate::text::without_cr(p);
    let sa = crate::text::split_on(a, '\n');
    let sb = crate::text::split_on(b, '\n');
    assert(crate::text::split_on(e, '\n') == seq![e]);
    assert((sa + seq![e]).drop_last() == sa);
    assert((sa + seq![e]).last() == e);
    assert(lines_of(a.push('\n')) == sa.map_values(f));
    assert((sa + sb).last() == sb.last());
    assert((sa + sb).drop_last() == sa + sb.drop_last());
    assert((sa + sb.drop_last()).map_values(f) == sa.map_values(f) + sb.drop_last().map_values(f));
    if sb.last().len() > 0 {
        assert((sa.map_values(f) + sb.drop_last().map_values(f)).push(sb.last()) == sa.map_values(f)
            + sb.drop_last().map_values(f).push(sb.last()));
    }
}

/// Whatever the shell's own start files print before the measurement changes
/// nothing of it, as long as they do not print the begin mark on a line.
pub proof fn law_noise_before_the_mark_is_ignored(
    noise: Seq<char>,
    stdout: Seq<char>,
    begin: Seq<char>,
    end: Seq<char>,
)
    requires
        mark_line(lines_of(noise.push('\n')), begin, 0) is None,
    ensures
        found_paths(noise.push('\n') + stdout, begin, end) == found_paths(stdout, begin, end),
{
    let front = lines_of(noise.push('\n'));
    let back = lines_of(stdout);
    let n = front.len() as int;
    lemma_lines_concat(noise, stdout);
    lemma_mark_line_skip(front, back, begin, 0);
    lemma_mark_line_shift(front, back, begin, 0);
    lemma_mark_line(back, begin, 0);
    if let Some(b) = mark_line(back, begin, 0) {
        lemma_mark_line_shift(front, back, end, b + 1);
        lemma_mark_line(back, end, b + 1);
        if let Some(e) = mark_line(back, end, b + 1) {
            assert((front + back).subrange(n + b + 1, n + e) == back.subrange(b + 1, e));
        }
    }
}

proof fn lemma_first_mark_line(lines: Seq<Seq<char>>, mark: Seq<char>, from: int)
    requires
        0 <= from,
    ensures
        match mark_line(lines, mark, from) {
            Some(i) => from <= i < lines.len() && trimmed(lines[i]) == mark && forall|j: int|
                from <= j < i ==> trimmed(#[trigger] lines[j]) != mark,
            None => forall|j: int| from <= j < lines.len() ==> trimmed(#[trigger] lines[j]) != mark,
        },
    decreases lines.len() - from,
{
    if from < lines.len() && trimmed(lines[from]) != mark {
        lemma_first_mark_line(lines, mark, from + 1);
    }
}

/// The measurement begins at the first begin mark and ends at the first end mark
/// behind it. There is no begin, or no end, exactly where no line is that mark.
pub proof fn law_measurement_stands_between_the_first_marks(
    stdout: Seq<char>,
    begin: Seq<char>,
    end: Seq<char>,
)
    ensures
        ({
            let lines = lines_of(stdout);
            let (b, e) = mark_lines(stdout, begin, end);
            &&& match b {
                Some(i) => 0 <= i < lines.len() && trimmed(lines[i]) == begin && forall|j: int|
                    0 <= j < i ==> trimmed(#[trigger] lines[j]) != begin,
                None => e is None && forall|j: int|
                    0 <= j < lines.len() ==> trimmed(#[trigger] lines[j]) != begin,
            }
            &&& b matches Some(i) ==> match e {
                Some(k) => i < k < lines.len() && trimmed(lines[k]) == end && forall|j: int|
                    i < j < k ==> trimmed(#[trigger] lines[j]) != end,
                None => forall|j: int|
                    i < j < lines.len() ==> trimmed(#[trigger] lines[j]) != end,
            }
        }),
{
    let lines = lines_of(stdout);
    lemma_first_mark_line(lines, begin, 0);
    if let Some(b) = mark_line(lines, begin, 0) {
        lemma_first_mark_line(lines, end, b + 1);
    }
}

proof fn lemma_path_lines_are_all(lines: Seq<Seq<char>>)
    ensures
        path_lines(lines) == lines.filter(|l: Seq<char>| plain_absolute(trimmed(l))).map_values(
            |l: Seq<char>| trimmed(l),
        ),
    decreases lines.len(),
{
    reveal(Seq::filter);
    if lines.len() > 0 {
        lemma_path_lines_are_all(lines.drop_last());
    }
    assert(path_lines(lines) =~= lines.filter(
        |l: Seq<char>| plain_absolute(trimmed(l)),
    ).map_values(|l: Seq<char>| trimmed(l)));
}

/// Every absolute path without white space on a line between the marks is found,
/// in the order of the lines; nothing between the marks is left out. Without both
/// marks nothing is, and it is said which of them is missing.
pub proof fn law_every_path_between_the_marks_is_found(
    stdout: Seq<char>,
    begin: Seq<char>,
    end: Seq<char>,
)
    ensures
        match mark_lines(stdout, begin, end) {
            (Some(b), Some(e)) => found_paths(stdout, begin, end) == Ok::<_, Seq<char>>(
                lines_of(stdout).subrange(b + 1, e).filter(
                    |l: Seq<char>| plain_absolute(trimmed(l)),
                ).map_values(|l: Seq<char>| trimmed(l)),
            ),
            (Some(_), None) => found_paths(stdout, begin, end) == Err::<Seq<Seq<char>>, _>(
                "시작표식 "@ + "있음"@ + ", 끝표식 "@ + "없음(또는 시작보다 앞)"@,
            ),
            _ => found_paths(stdout, begin, end) == Err::<Seq<Seq<char>>, _>(
                "시작표식 "@ + "없음"@ + ", 끝표식 "@ + "없음(또는 시작보다 앞)"@,
            ),
        },
{
    if let (Some(b), Some(e)) = mark_lines(stdout, begin, end) {
        lemma_path_lines_are_all(lines_of(stdout).subrange(b + 1, e));
    }
}

/// A shell that ended well is measured with the paths that were found. Whatever
/// stands in the way is told with the name of the shell in front.
pub proof fn law_measurement_is_what_was_found(
    shell_ok: bool,
    stdout: Seq<char>,
    shell_name: Seq<char>,
    begin: Seq<char>,
    end: Seq<char>,
)
    ensures
        shell_ok ==> (found_paths(stdout, begin, end) matches Ok(paths) ==> interpretation(
            shell_ok,
            stdout,
            shell_name,
            begin,
            end,
        ) == ProbeFacts::Completed(paths)),
        interpretation(
            shell_ok,
            stdout,
            shell_name,
            begin,
            end,
        ) matches ProbeFacts::Unmeasured(why) ==> crate::text::begins_with(why, shell_name),
        found_paths(stdout, begin, end) matches Err(missing) ==> (interpretation(
            shell_ok,
            stdout,
            shell_name,
            begin,
            end,
        ) matches ProbeFacts::Unmeasured(why) && crate::text::contains_text(why, missing)),
{
    if let ProbeFacts::Unmeasured(why) = interpretation(shell_ok, stdout, shell_name, begin, end) {
        assert(why.subrange(0, shell_name.len() as int) =~= shell_name);
        if let Err(missing) = found_paths(stdout, begin, end) {
            let a = shell_name + "가 검증 명령을 끝까지 실행하지 못했습니다(종료상태 "@ + (
            if shell_ok {
                "정상"@
            } else {
                "비정상"@
            }) + ", "@;
            crate::text::lemma_text_holds(a, missing, ")"@);
        }
    }
}

proof fn lemma_kept_are_all(s: Seq<Seq<char>>, keep: Seq<Seq<char>>)
    ensures
        kept(s, keep) == s.filter(|p: Seq<char>| keep.contains(p)),
    decreases s.len(),
{
    reveal(Seq::filter);
    if s.len() > 0 {
        lemma_kept_are_all(s.drop_last(), keep);
    }
    assert(kept(s, keep) =~= s.filter(|p: Seq<char>| keep.contains(p)));
}

/// Of the paths of a measurement exactly those stay at which there is a file, in
/// order; a failure stays what it was.
pub proof fn law_only_paths_of_files_stay(
    paths: Seq<Seq<char>>,
    files: Seq<Seq<char>>,
    reason: Seq<char>,
)
    ensures
        observed(ProbeFacts::Completed(paths), files) == ProbeFacts::Completed(
            paths.filter(|p: Seq<char>| files.contains(p)),
        ),
        observed(ProbeFacts::Unmeasured(reason), files) == ProbeFacts::Unmeasured(reason),
{
    lemma_kept_are_all(paths, files);
}

/// A path that was seen to be the target's file is written as the target; every
/// other path stays as it is, and so do their number and order. A failure stays what
/// it was.
pub proof fn law_paths_of_the_target_are_folded(
    paths: Seq<Seq<char>>,
    target: Seq<char>,
    same: Seq<Seq<char>>,
    reason: Seq<char>,
)
    ensures
        canonical(ProbeFacts::Unmeasured(reason), target, same) == ProbeFacts::Unmeasured(reason),
        canonical(ProbeFacts::Completed(paths), target, same) matches ProbeFacts::Completed(r)
            && r.len() == paths.len() && forall|i: int|
            0 <= i < r.len() ==> {
                &&& same.contains(paths[i]) ==> normalized(#[trigger] r[i]) == normalized(target)
                &&& !same.contains(paths[i]) ==> r[i] == paths[i]
                &&& normalized(paths[i]) == normalized(target) ==> r[i] == paths[i]
                &&& r[i] == paths[i] || r[i] == target
            },
{
}

/// A second answer counts where there is one. Where there is none, both reasons
/// are told, the first in front, with the shell that was asked.
pub proof fn law_second_answer_counts(
    first: ProbeFacts,
    shell: Seq<char>,
    second: ProbeFacts,
    a: Seq<char>,
    b: Seq<char>,
)
    ensures
        second is Completed ==> settled(first, shell, second) == second,
        settled(
            ProbeFacts::Unmeasured(a),
            shell,
            ProbeFacts::Unmeasured(b),
        ) == ProbeFacts::Unmeasured(a + " / 대체 셸 "@ + shell + " 재시도도 실패: "@ + b),
{
}

/// The shells that take the option, all of them and no others, by the last name
/// of their path.
pub proof fn law_shells_that_take_the_option(name: Seq<char>, shell: Seq<char>)
    ensures
        takes_lc(name) <==> seq!["sh"@, "bash"@, "zsh"@, "dash"@, "ksh"@, "mksh"@, "fish"@].contains(name),
        file_name_of(shell) matches Some(n) ==> shell_name_of(shell) == n,
        file_name_of(shell) is None ==> shell_name_of(shell) == shell,
{
    let all = seq!["sh"@, "bash"@, "zsh"@, "dash"@, "ksh"@, "mksh"@, "fish"@];
    assert(all[0] == "sh"@);
    assert(all[1] == "bash"@);
    assert(all[2] == "zsh"@);
    assert(all[3] == "dash"@);
    assert(all[4] == "ksh"@);
    assert(all[5] == "mksh"@);
    assert(all[6] == "fish"@);
}

/// A shell that stands in names itself and the one whose place it takes.
pub proof fn law_stand_in_names_both_shells(shell: Seq<char>, login_shell: Seq<char>)
    ensures
        crate::text::begins_with(retry_name(shell, login_shell), shell_name_of(shell)),
        crate::text::contains_text(
            retry_name(shell, login_shell),
            "(기본 셸 "@ + shell_name_of(login_shell),
        ),
{
    let a = shell_name_of(shell);
    let b = "(기본 셸 "@ + shell_name_of(login_shell);
    let c = "가 -lc를 받지 못해 대체)"@;
    let r = retry_name(shell, login_shell);
    assert(r.subrange(0, a.len() as int) =~= a);
    crate::text::lemma_text_holds(a, b, c);
    assert(r =~= a + b + c);
}

/// The shell is asked for both binaries in one go, each between the marks that
/// its answer is read with.
pub proof fn law_both_binaries_are_asked_for()
    ensures
        probe_command() == "echo __cys_probe_begin__; which -a cys; echo __cys_probe_end__; echo __cys_probe_begin_d__; which -a cysd; echo __cys_probe_end_d__"@,
        PROBE_BEGIN_MARK@ == "__cys_probe_begin__"@,
        PROBE_END_MARK@ == "__cys_probe_end__"@,
        PROBE_BEGIN_MARK_D@ == "__cys_probe_begin_d__"@,
        PROBE_END_MARK_D@ == "__cys_probe_end_d__"@,
{
    reveal_strlit("echo ");
    reveal_strlit("__cys_probe_begin__");
    reveal_strlit("; which -a cys; echo ");
    reveal_strlit("__cys_probe_end__");
    reveal_strlit("; echo ");
    reveal_strlit("__cys_probe_begin_d__");
    reveal_strlit("; which -a cysd; echo ");
    reveal_strlit("__cys_probe_end_d__");
    reveal_strlit(
        "echo __cys_probe_begin__; which -a cys; echo __cys_probe_end__; echo __cys_probe_begin_d__; which -a cysd; echo __cys_probe_end_d__",
    );
    assert(probe_command()
        =~= "echo __cys_probe_begin__; which -a cys; echo __cys_probe_end__; echo __cys_probe_begin_d__; which -a cysd; echo __cys_probe_end_d__"@);
}

} // verus!
