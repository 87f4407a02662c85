use cys_app::install::{
    classify_install_status, cysd_shadow_warning, path_shadow_note, UNVERIFIED_NOT_ON_PATH,
    UNVERIFIED_PROBE_FAILED,
};
use cys_app::probe::{
    canonicalize_probe_to_target, interpret_which_probe, login_shell_of, observe_probe_paths,
    parse_which_a, probe_fallback_shell, probe_path_shadows, retry_shell,
    run_capture_with_timeout_in, run_which_probe, shell_base_name, which_probe_command,
    CaptureStep, ChildPoll, RetryShell, WhichProbe, WhichProbePair, PROBE_BEGIN_MARK,
    PROBE_BEGIN_MARK_D, PROBE_END_MARK, PROBE_END_MARK_D,
};

#[test]
fn parse_which_a_rejects_non_absolute_path_noise() {
    let out = "__cys_probe_begin__\n\
cys: aliased to /Applications/cys.app/Contents/MacOS/cys\n\
zsh: no such file or directory: cys\n\
/usr/local/bin/cys\n\
cys is a shell builtin\n\
\x20 /opt/homebrew/bin/cys  \n\
\n__cys_probe_end__\n";
    assert_eq!(
        parse_which_a(out, PROBE_BEGIN_MARK, PROBE_END_MARK).unwrap(),
        vec![
            "/usr/local/bin/cys".to_string(),
            "/opt/homebrew/bin/cys".to_string(),
        ],
        "절대경로가 아닌 줄은 경로가 아니다"
    );
    assert!(parse_which_a(
        "__cys_probe_begin__\ncys not found\nsome rc banner\n__cys_probe_end__\n",
        PROBE_BEGIN_MARK,
        PROBE_END_MARK
    )
    .unwrap()
    .is_empty());
}

#[test]
fn parse_which_a_returns_precedence_ordered_paths() {
    let out = "__cys_probe_begin__\n/Users/x/.local/bin/cys\n/opt/homebrew/bin/cys\n\n\
/usr/local/bin/cys\n__cys_probe_end__\n";
    assert_eq!(
        parse_which_a(out, PROBE_BEGIN_MARK, PROBE_END_MARK).unwrap(),
        vec![
            "/Users/x/.local/bin/cys".to_string(),
            "/opt/homebrew/bin/cys".to_string(),
            "/usr/local/bin/cys".to_string(),
        ]
    );
}

#[test]
fn parse_which_a_only_adopts_lines_between_the_two_marks() {
    let noisy = "/opt/corp/toolchain/env\n__cys_probe_begin__\n/usr/local/bin/cys\n__cys_probe_end__\n";
    assert_eq!(
        parse_which_a(noisy, PROBE_BEGIN_MARK, PROBE_END_MARK).unwrap(),
        vec!["/usr/local/bin/cys".to_string()],
        "시작 표식 앞의 잡음이 1순위를 차지하면 정상 설치가 그림자로 뒤집힌다"
    );
    let trailing = "__cys_probe_begin__\n/usr/local/bin/cys\n__cys_probe_end__\n/opt/after/cys\n";
    assert_eq!(
        parse_which_a(trailing, PROBE_BEGIN_MARK, PROBE_END_MARK).unwrap(),
        vec!["/usr/local/bin/cys".to_string()]
    );
    assert!(parse_which_a("/usr/local/bin/cys\n", PROBE_BEGIN_MARK, PROBE_END_MARK).is_err());
    assert!(parse_which_a(
        "__cys_probe_end__\n/usr/local/bin/cys\n__cys_probe_begin__\n",
        PROBE_BEGIN_MARK,
        PROBE_END_MARK
    )
    .is_err());
    let wrapper = "__cys_probe_begin__\ncys () {\n\t/opt/foo/cys --wrap \"$@\"\n}\n\
/usr/local/bin/cys\n__cys_probe_end__\n";
    assert_eq!(
        parse_which_a(wrapper, PROBE_BEGIN_MARK, PROBE_END_MARK).unwrap(),
        vec!["/usr/local/bin/cys".to_string()],
        "함수 래퍼 본문이 경로로 격상되면 존재하지 않는 경로를 지우라고 안내하게 된다"
    );
    let both = "__cys_probe_begin__\n/a/cys\n__cys_probe_end__\n\
__cys_probe_begin_d__\n/b/cysd\n__cys_probe_end_d__\n";
    assert_eq!(
        parse_which_a(both, PROBE_BEGIN_MARK, PROBE_END_MARK).unwrap(),
        vec!["/a/cys".to_string()]
    );
    assert_eq!(
        parse_which_a(both, PROBE_BEGIN_MARK_D, PROBE_END_MARK_D).unwrap(),
        vec!["/b/cysd".to_string()]
    );
}

#[test]
fn interpret_which_probe_never_folds_a_failed_shell_into_an_empty_result() {
    let m = |s: &str| format!("__cys_probe_begin__\n{s}__cys_probe_end__\n");
    match interpret_which_probe(false, "", "tcsh", PROBE_BEGIN_MARK, PROBE_END_MARK) {
        WhichProbe::Unmeasured(reason) => {
            assert!(reason.contains("tcsh"), "무엇으로 쟀는지 밝혀야 한다: {reason}");
        }
        WhichProbe::Completed(v) => {
            panic!("rc!=0 을 '측정 성공 + 결과 없음'으로 접으면 안 된다: {v:?}")
        }
    }
    assert!(
        matches!(
            interpret_which_probe(
                true,
                "/usr/local/bin/cys\n",
                "zsh",
                PROBE_BEGIN_MARK,
                PROBE_END_MARK
            ),
            WhichProbe::Unmeasured(_)
        ),
        "완료 표식이 없으면 측정 성공으로 치면 안 된다"
    );
    assert!(
        matches!(
            interpret_which_probe(
                true,
                "/usr/local/bin/cys\n__cys_probe_end__\n",
                "zsh",
                PROBE_BEGIN_MARK,
                PROBE_END_MARK
            ),
            WhichProbe::Unmeasured(_)
        ),
        "시작 표식이 없으면 측정 구간을 특정할 수 없다 = 측정 실패"
    );
    match interpret_which_probe(
        true,
        &m("cys not found\n"),
        "zsh",
        PROBE_BEGIN_MARK,
        PROBE_END_MARK,
    ) {
        WhichProbe::Completed(v) => assert!(v.is_empty(), "잡음이 경로로 격상되면 안 된다: {v:?}"),
        WhichProbe::Unmeasured(r) => panic!("정상 측정을 실패로 접으면 안 된다: {r}"),
    }
    match interpret_which_probe(
        true,
        &m("/usr/local/bin/cys\n"),
        "zsh",
        PROBE_BEGIN_MARK,
        PROBE_END_MARK,
    ) {
        WhichProbe::Completed(v) => assert_eq!(v, vec!["/usr/local/bin/cys".to_string()]),
        WhichProbe::Unmeasured(r) => panic!("정상 측정을 실패로 접으면 안 된다: {r}"),
    }
    let cmd = which_probe_command();
    for mark in [
        PROBE_BEGIN_MARK,
        PROBE_END_MARK,
        PROBE_BEGIN_MARK_D,
        PROBE_END_MARK_D,
    ] {
        assert!(cmd.contains(mark), "프로브 명령에 표식 {mark} 누락: {cmd}");
    }
    assert!(
        cmd.starts_with(&format!("echo {PROBE_BEGIN_MARK}")),
        "시작 표식이 which 보다 먼저 나와야 한다: {cmd}"
    );
}

#[test]
fn real_csh_family_login_shell_probe_is_measurement_failure() {
    let mut checked = 0;
    for sh in ["/bin/tcsh", "/bin/csh"] {
        checked += 1;
        let pair = run_which_probe(Ok((false, String::new())), sh, &[]);
        match pair.cys {
            WhichProbe::Unmeasured(_) => {}
            WhichProbe::Completed(v) => {
                panic!("{sh} 는 -lc 를 받지 못한다 — 측정 성공으로 접으면 안 된다: {v:?}")
            }
        }
        assert!(
            matches!(pair.cysd, WhichProbe::Unmeasured(_)),
            "{sh} 실패인데 cysd 축만 측정 성공으로 접혔다"
        );
    }
    assert!(checked > 0, "macOS 라면 csh 계열이 하나는 있어야 한다(전제 확인)");
    assert_eq!(probe_fallback_shell("/bin/tcsh"), Some("/bin/zsh"));
    assert_eq!(probe_fallback_shell("/bin/csh"), Some("/bin/zsh"));
    assert_eq!(probe_fallback_shell("/bin/zsh"), None);
    assert_eq!(probe_fallback_shell("/bin/bash"), None);
    assert_eq!(probe_fallback_shell("/opt/homebrew/bin/fish"), None);
}

#[test]
fn real_zsh_probe_reports_not_found_as_a_successful_measurement() {
    let out = format!(
        "{PROBE_BEGIN_MARK}\ncys-no-such-binary-xyz not found\n{PROBE_END_MARK}\n\
{PROBE_BEGIN_MARK_D}\ncysd-no-such-binary-xyz not found\n{PROBE_END_MARK_D}\n"
    );
    let pair = run_which_probe(Ok((true, out)), "zsh", &[]);
    match pair.cys {
        WhichProbe::Completed(v) => assert!(v.is_empty(), "없는 바이너리인데 경로가 나왔다: {v:?}"),
        WhichProbe::Unmeasured(r) => panic!("정상 로그인 셸 측정이 실패로 접혔다: {r}"),
    }
    match pair.cysd {
        WhichProbe::Completed(v) => assert!(v.is_empty(), "없는 바이너리인데 경로가 나왔다: {v:?}"),
        WhichProbe::Unmeasured(r) => panic!("cysd 축 측정이 실패로 접혔다: {r}"),
    }
}

#[test]
fn g3_cysd_note_is_not_a_second_copy_of_the_cys_axis_fact() {
    let (tc, tcd) = ("/usr/local/bin/cys", "/usr/local/bin/cysd");
    let both_empty = WhichProbe::Completed(vec![]);
    let v = classify_install_status(&both_empty, tc, "zsh");
    assert_eq!(v.status, "unverified");
    assert_eq!(v.unverified_reason, Some(UNVERIFIED_NOT_ON_PATH));
    assert_eq!(
        cysd_shadow_warning(&both_empty, &both_empty, tcd, "zsh"),
        None,
        "같은 원인을 두 번 말한다(G3 회귀)"
    );
    let cys_ok = WhichProbe::Completed(vec![tc.to_string()]);
    let w = cysd_shadow_warning(&cys_ok, &both_empty, tcd, "zsh")
        .expect("cysd 만 없는 것은 새 사실이다 — 억제하면 안 된다");
    assert!(w.contains("cysd"), "{w}");
    let unmeasured = WhichProbe::Unmeasured("shell died".into());
    assert_eq!(cysd_shadow_warning(&unmeasured, &unmeasured, tcd, "zsh"), None);
}

#[test]
fn g4_status_shadow_note_covers_both_axes_with_one_rule() {
    let t = "/usr/local/bin/cys";
    assert_eq!(
        path_shadow_note(&WhichProbe::Completed(vec!["/usr/local/bin//cys".into()]), t, "cys", "zsh"),
        None
    );
    let shadowed = path_shadow_note(
        &WhichProbe::Completed(vec!["/opt/homebrew/bin/cys".into()]),
        t,
        "cys",
        "zsh",
    )
    .expect("앞을 가리는 것이 있으면 말해야 한다");
    assert!(shadowed.contains("/opt/homebrew/bin/cys"), "{shadowed}");
    let unmeasured = path_shadow_note(&WhichProbe::Unmeasured("tcsh 실패".into()), t, "cys", "zsh")
        .expect("측정 실패를 조용히 삼키면 안 된다");
    assert!(unmeasured.contains("tcsh 실패"), "{unmeasured}");
    let d = path_shadow_note(&WhichProbe::Completed(vec![]), "/usr/local/bin/cysd", "cysd", "zsh")
        .expect("cysd 축도 같은 규칙으로 말해야 한다");
    assert!(d.contains("cysd"), "{d}");
}

#[test]
fn classify_install_status_installed_only_when_target_is_first() {
    let v = classify_install_status(
        &WhichProbe::Completed(vec!["/usr/local/bin/cys".into()]),
        "/usr/local/bin/cys",
        "zsh",
    );
    assert_eq!(v.status, "installed");
    assert_eq!(v.shadowed_by, None);
    assert!(v.warnings.is_empty(), "성공에는 경고가 붙지 않는다");
    assert_eq!(v.effective_cys.as_deref(), Some("/usr/local/bin/cys"));
}

#[test]
fn classify_install_status_shadowed_when_other_cys_precedes() {
    let v = classify_install_status(
        &WhichProbe::Completed(vec![
            "/opt/homebrew/bin/cys".into(),
            "/usr/local/bin/cys".into(),
        ]),
        "/usr/local/bin/cys",
        "zsh",
    );
    assert_eq!(v.status, "installed_shadowed");
    assert_eq!(v.shadowed_by.as_deref(), Some("/opt/homebrew/bin/cys"));
    assert!(v.warnings.iter().any(|w| w.contains("/opt/homebrew/bin/cys")),
        "무엇이 가리는지 경로를 알려야 한다");
    assert!(v.warnings[0].contains("zsh"), "어느 셸 기준인지 밝혀야 한다: {}", v.warnings[0]);
}

#[test]
fn classify_install_status_unverified_on_measurement_failure_or_empty() {
    let failed = classify_install_status(
        &WhichProbe::Unmeasured("zsh 5초 타임아웃".into()),
        "/usr/local/bin/cys",
        "zsh",
    );
    assert_eq!(failed.status, "unverified");
    assert_eq!(failed.shadowed_by, None);
    assert!(failed.warnings.iter().any(|w| w.contains("타임아웃")), "사유를 사용자에게 전달");

    let empty = classify_install_status(&WhichProbe::Completed(vec![]), "/usr/local/bin/cys", "zsh");
    assert_eq!(empty.status, "unverified");
    assert_eq!(empty.effective_cys, None);

    assert!(
        failed.warnings[0].starts_with("PATH 확인 실패:"),
        "측정 실패 분기의 신호가 없다: {}",
        failed.warnings[0]
    );
    assert!(
        empty.warnings[0].starts_with("PATH 확인 결과:"),
        "측정 성공 + 미발견 분기의 신호가 없다: {}",
        empty.warnings[0]
    );
    assert!(
        empty.warnings[0].contains("정상 실행됐지만"),
        "검증 명령이 실패했다고 오단정하면 안 된다: {}",
        empty.warnings[0]
    );
    for v in [&failed, &empty] {
        assert!(
            v.warnings[0].contains("zsh"),
            "어느 셸로 쟀는지 밝혀야 한다: {}",
            v.warnings[0]
        );
    }
}

#[test]
fn unverified_reason_is_machine_readable_and_only_set_when_unverified() {
    let probe_failed = classify_install_status(
        &WhichProbe::Unmeasured("zsh 5초 타임아웃".into()),
        "/usr/local/bin/cys",
        "zsh",
    );
    let not_on_path =
        classify_install_status(&WhichProbe::Completed(vec![]), "/usr/local/bin/cys", "zsh");
    let installed = classify_install_status(
        &WhichProbe::Completed(vec!["/usr/local/bin/cys".into()]),
        "/usr/local/bin/cys",
        "zsh",
    );
    let shadowed = classify_install_status(
        &WhichProbe::Completed(vec![
            "/opt/homebrew/bin/cys".into(),
            "/usr/local/bin/cys".into(),
        ]),
        "/usr/local/bin/cys",
        "zsh",
    );

    assert_eq!(probe_failed.unverified_reason, Some(UNVERIFIED_PROBE_FAILED));
    assert_eq!(not_on_path.unverified_reason, Some(UNVERIFIED_NOT_ON_PATH));
    assert_eq!(installed.unverified_reason, None);
    assert_eq!(shadowed.unverified_reason, None);
    assert_eq!(UNVERIFIED_PROBE_FAILED, "probe_failed");
    assert_eq!(UNVERIFIED_NOT_ON_PATH, "not_on_path");
    for v in [&probe_failed, &not_on_path, &installed, &shadowed] {
        assert_eq!(
            v.unverified_reason.is_some(),
            v.status == "unverified",
            "unverified 가 아닌데 사유가 붙었거나 그 반대다: {} / {:?}",
            v.status,
            v.unverified_reason
        );
    }
}

#[test]
fn run_capture_with_timeout_returns_stdout_and_kills_hung_child() {
    match run_capture_with_timeout_in("/bin/sh", ChildPoll::Exited(true), false, "5") {
        CaptureStep::Finish(ok) => assert!(ok),
        other => panic!("정상 종료는 Ok: {other:?}"),
    }
    assert!(
        matches!(
            run_capture_with_timeout_in("/bin/sh", ChildPoll::Running, true, "0.3"),
            CaptureStep::KillAndFail(_)
        ),
        "기한 초과는 Err(측정 실패)여야 한다"
    );
    assert!(matches!(
        run_capture_with_timeout_in(
            "/nonexistent/cys-probe",
            ChildPoll::Failed("No such file".to_string()),
            false,
            "1"
        ),
        CaptureStep::Fail(_)
    ));
}

#[test]
fn run_capture_with_timeout_returns_even_when_grandchild_holds_stdout() {
    assert!(
        matches!(
            run_capture_with_timeout_in("/bin/sh", ChildPoll::Exited(true), false, "5"),
            CaptureStep::Finish(true)
        ),
        "자식은 0으로 끝났다"
    );
    assert!(
        matches!(
            run_capture_with_timeout_in("/bin/sh", ChildPoll::Running, true, "1"),
            CaptureStep::KillAndFail(_)
        ),
        "기한 초과는 Err(측정 실패)여야 한다"
    );
}

#[test]
fn capture_waits_only_before_the_deadline() {
    assert_eq!(
        run_capture_with_timeout_in("/bin/sh", ChildPoll::Running, false, "5"),
        CaptureStep::Wait
    );
    assert_eq!(
        run_capture_with_timeout_in("/bin/sh", ChildPoll::Exited(false), true, "5"),
        CaptureStep::Finish(false)
    );
}

#[test]
fn listed_path_that_is_no_file_is_dropped() {
    let seen = WhichProbe::Completed(vec!["/a/cys".to_string(), "/b/cys".to_string()]);
    assert_eq!(
        observe_probe_paths(seen, &["/b/cys".to_string()]),
        WhichProbe::Completed(vec!["/b/cys".to_string()])
    );
    assert_eq!(
        observe_probe_paths(WhichProbe::Unmeasured("why".to_string()), &[]),
        WhichProbe::Unmeasured("why".to_string())
    );
}

#[test]
fn shell_is_named_by_its_program() {
    assert_eq!(shell_base_name("/bin/zsh"), "zsh");
    assert_eq!(login_shell_of(Some("/bin/tcsh")), "/bin/tcsh");
    assert_eq!(login_shell_of(None), "/bin/bash");
    assert_eq!(login_shell_of(Some("  ")), "/bin/bash");
}

fn pair(cys: WhichProbe, cysd: WhichProbe) -> WhichProbePair {
    WhichProbePair { cys, cysd }
}

#[test]
fn only_a_failed_csh_is_tried_again() {
    let failed = || {
        pair(
            WhichProbe::Unmeasured("x".to_string()),
            WhichProbe::Unmeasured("x".to_string()),
        )
    };
    let again = retry_shell("/bin/tcsh", &failed(), true).expect("a second shell");
    assert_eq!(again.shell, "/bin/zsh");
    assert_eq!(again.name, "zsh(기본 셸 tcsh가 -lc를 받지 못해 대체)");
    let plain = retry_shell("/bin/tcsh", &failed(), false).expect("a second shell");
    assert_eq!(plain.shell, "/bin/bash");
    assert!(retry_shell("/bin/zsh", &failed(), true).is_none());
    let fine = pair(WhichProbe::Completed(vec![]), WhichProbe::Completed(vec![]));
    assert!(retry_shell("/bin/tcsh", &fine, true).is_none());
}

#[test]
fn same_file_counts_as_the_new_link() {
    let folded = canonicalize_probe_to_target(
        WhichProbe::Completed(vec!["/alias/cys".to_string()]),
        "/usr/local/bin/cys",
        &["/alias/cys".to_string()],
    );
    assert_eq!(folded, WhichProbe::Completed(vec!["/usr/local/bin/cys".to_string()]));
    let shadows = probe_path_shadows(
        "/bin/zsh",
        pair(
            WhichProbe::Completed(vec!["/alias/cys".to_string()]),
            WhichProbe::Completed(vec!["/usr/local/bin/cysd".to_string()]),
        ),
        None,
        "/usr/local/bin/cys",
        "/usr/local/bin/cysd",
        &["/alias/cys".to_string()],
        &[],
    );
    assert_eq!(shadows.shell_name, "zsh");
    assert_eq!(shadows.cys, WhichProbe::Completed(vec!["/usr/local/bin/cys".to_string()]));
    let retried = probe_path_shadows(
        "/bin/tcsh",
        pair(
            WhichProbe::Unmeasured("x".to_string()),
            WhichProbe::Unmeasured("x".to_string()),
        ),
        Some((
            RetryShell { shell: "/bin/zsh".to_string(), name: "zsh".to_string() },
            pair(
                WhichProbe::Completed(vec!["/usr/local/bin/cys".to_string()]),
                WhichProbe::Completed(vec![]),
            ),
        )),
        "/usr/local/bin/cys",
        "/usr/local/bin/cysd",
        &[],
        &[],
    );
    assert!(matches!(retried.cys, WhichProbe::Completed(_)), "{retried:?}");
}

#[test]
fn noise_before_the_begin_mark_changes_nothing() {
    let out = "__cys_probe_begin__\n/usr/local/bin/cys\n__cys_probe_end__\n";
    let noisy = format!("banner\n/opt/x\n{out}");
    assert_eq!(
        parse_which_a(&noisy, PROBE_BEGIN_MARK, PROBE_END_MARK),
        parse_which_a(out, PROBE_BEGIN_MARK, PROBE_END_MARK)
    );
}
