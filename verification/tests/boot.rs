use cys_app::boot::{
    boot_env, boot_interpreter, boot_json_fatal_message, boot_script_path, bootstrap_chain_signal,
    ceo_drift_verdict, chain_signal, claude_missing_hint, cys_boot_signal, daemon_failure,
    daemon_program, direct_boot_args, emit_boot_signal, ensure_daemon, install_hint,
    launched_surface_ref, master_args, needs_gui_onboard, onboarding_done,
    parse_last_json_object, promote_pending_ceo,
    retry_round, spawn_orchestra_boot, start_dept_master, start_master, surface_ref_in,
    wait_for_connect, BootEvent, BootSignal, BootStep, DaemonEvent, DaemonStep, WaitStep,
    EXIT_BOOT_BUSY,
};
use cys_app::json::parse;

#[test]
fn ceo_drift_verdict_gate_matrix() {
    let old = Some("CEO v1".as_bytes());
    let new = Some("CEO v2".as_bytes());
    assert!(ceo_drift_verdict(true, old, new));
    assert!(!ceo_drift_verdict(true, new, new));
    assert!(!ceo_drift_verdict(false, old, new));
    assert!(!ceo_drift_verdict(true, None, new));
    assert!(!ceo_drift_verdict(true, old, None));
    assert!(!ceo_drift_verdict(true, None, None));
}

#[test]
fn needs_gui_onboard_only_skips_on_exact_version_match() {
    assert!(needs_gui_onboard(None, "0.12.53"), "마커 부재 = 온보딩(신선·직전 실패)");
    assert!(!needs_gui_onboard(Some("0.12.53"), "0.12.53"), "정확 일치 = 스킵");
    assert!(!needs_gui_onboard(Some("0.12.53\n"), "0.12.53"), "개행 trim 후 일치 = 스킵");
    assert!(needs_gui_onboard(Some("0.12.52"), "0.12.53"), "구버전 = 온보딩(업그레이드)");
    assert!(needs_gui_onboard(Some("garbage"), "0.12.53"), "손상 = 온보딩(fail-open)");
}

#[test]
fn boot_warning_only_for_mandatory_failures() {
    let degrade_only = r#"cys boot — 편성 점검
· grok: CLI 'grok' 미설치 — 건너뜀
{"roles":[{"role":"cso","outcome":"launched","mandatory":true},
      {"role":"worker","outcome":"already_alive","mandatory":true},
      {"role":"second-grok","outcome":"missing","mandatory":false,"install_hint":"npm i -g grok"},
      {"role":"second-gemini","outcome":"failed","mandatory":false}],
 "summary":{"launched":1,"failed":1,"missing":1,"fatal_failed":0,"lock":"acquired"}}"#;
    assert_eq!(boot_json_fatal_message(degrade_only), None, "Degrade 실패가 경고를 만들었다");
    assert_eq!(cys_boot_signal(Some(0), degrade_only), BootSignal::Silent);

    let fatal = r#"{"roles":[{"role":"cso","outcome":"missing","mandatory":true,
                              "install_hint":"winget install Agent.Cli"}],
                    "summary":{"fatal_failed":1}}"#;
    let msg = boot_json_fatal_message(fatal).expect("Fatal 인데 경고가 없다");
    assert!(msg.contains("winget install Agent.Cli"), "install_hint 미표출: {msg}");
    assert!(msg.contains("cso=missing"), "역할·판정 미표출: {msg}");
    assert!(matches!(cys_boot_signal(Some(1), fatal), BootSignal::Warn(_)));
}

#[test]
fn boot_busy_is_info_not_warning() {
    let busy = r#"{"roles":[{"role":"cso","outcome":"busy","mandatory":true}],
                   "summary":{"busy":5,"lock":"busy"}}"#;
    match cys_boot_signal(Some(EXIT_BOOT_BUSY), busy) {
        BootSignal::Info(m) => assert!(m.contains("건너뜁니다"), "busy 안내 문구: {m}"),
        other => panic!("busy 가 정보 신호가 아니다: {other:?}"),
    }
    assert!(matches!(cys_boot_signal(Some(4), "산문만"), BootSignal::Warn(_)));
    assert!(matches!(cys_boot_signal(None, ""), BootSignal::Warn(_)));
    assert_eq!(cys_boot_signal(Some(0), "산문만"), BootSignal::Silent);
}

#[test]
fn bootstrap_chain_signal_consumes_typed_exit_space() {
    let done = r#"{"ok":true,"marker":"base 마커 기록","lane":"base"}"#;
    assert_eq!(bootstrap_chain_signal(Some(0), done, ""), BootSignal::Silent);
    let solo = r#"{"ok":true,"marker":"부서장 단독 각성(CEO 티켓 부재)","solo_awakening":true,"dept":"dept-2"}"#;
    match bootstrap_chain_signal(Some(0), solo, "") {
        BootSignal::Info(m) => assert!(m.contains("CEO 티켓"), "티켓 안내 누락: {m}"),
        other => panic!("단독 각성이 정보 신호가 아니다: {other:?}"),
    }
    assert!(matches!(bootstrap_chain_signal(Some(11), "", ""), BootSignal::Info(_)));
    match bootstrap_chain_signal(Some(7), "", "") {
        BootSignal::Warn(m) => assert!(m.contains("master"), "정당거부 처방 누락: {m}"),
        other => panic!("claim 정당거부가 경고가 아니다: {other:?}"),
    }
    let se = "[bootstrap] 단계 실패: ④boot (exit 1)\n의무(Fatal) 역할 기동 실패: cso=missing [agent 설치: curl -fsSL https://agent.example/install.sh | bash]";
    match bootstrap_chain_signal(Some(4), "", se) {
        BootSignal::Warn(m) => {
            assert!(m.contains("팀 기동(④cys boot)"), "단계 라벨 누락: {m}");
            assert!(m.contains("agent.example/install.sh"), "생산자 힌트 미인용: {m}");
        }
        other => panic!("체인 실패가 경고가 아니다: {other:?}"),
    }
    assert!(matches!(bootstrap_chain_signal(None, "", ""), BootSignal::Warn(_)));
}

#[test]
fn launched_surface_ref_reads_stdout_contract() {
    assert_eq!(
        launched_surface_ref(b"surface:42\n"),
        Some("surface:42".to_string())
    );
    assert_eq!(
        launched_surface_ref(b"noise\nsurface:7\ntrailing\n"),
        Some("surface:7".to_string())
    );
    assert_eq!(launched_surface_ref(b""), None);
    assert_eq!(launched_surface_ref(b"error: nope\n"), None);
}

#[test]
fn gui_boot_diagnosis_has_no_prose_matching() {
    for prose in ["신규 기동 0", "\"미설치\"", "contains(\"미설치\")"] {
        assert_eq!(cys_boot_signal(Some(0), prose), BootSignal::Silent, "산문 문자열 매칭: {prose}");
        assert_eq!(bootstrap_chain_signal(Some(0), prose, ""), BootSignal::Silent, "{prose}");
    }
    let script = boot_script_path("/home/x/.cys/pack");
    assert!(script.contains("javis_bootstrap.py"), "1차 경로가 체인이 아니다");
    assert_eq!(
        spawn_orchestra_boot(BootEvent::Script { present: true, path: script.clone() }),
        BootStep::RunChain(0)
    );
    assert!(
        matches!(
            spawn_orchestra_boot(BootEvent::Script { present: false, path: script }),
            BootStep::Degrade(_)
        ),
        "폴백 강등이 조용하다(typed 신호 부재)"
    );
    assert!(
        direct_boot_args().contains(&"--json".to_string()),
        "폴백이 typed 계약을 소비하지 않는다"
    );
}

#[test]
fn dept_master_injects_lane_pack_pair() {
    let socket = Some("/x/cys-dept-sales/cys.sock".to_string());
    let pack = Some("/home/x/.cys/pack-dept-sales".to_string());
    let env = boot_env(&socket, &pack, &None);
    assert_eq!(env.pack_dir, pack, "CYS_PACK_DIR 동반 주입 부재");
    assert_eq!(env.socket, socket, "소켓 주입 소실");
    let base = boot_env(&None, &pack, &None);
    assert_eq!(base.socket, None);
    assert_eq!(base.pack_dir, None);
    assert!(start_dept_master("/x/cys-dept-sales/cys.sock", Some(("/p", true))).is_ok());
    assert!(start_dept_master("/x/cys/cys.sock", None).is_err());
}

#[test]
fn signals_travel_under_their_event_names() {
    assert_eq!(emit_boot_signal(BootSignal::Silent), None);
    assert_eq!(
        emit_boot_signal(BootSignal::Info("i".to_string())),
        Some(("boot-info", "i".to_string()))
    );
    assert_eq!(
        emit_boot_signal(BootSignal::Warn("w".to_string())),
        Some(("boot-warning", "w".to_string()))
    );
}

#[test]
fn boot_tries_both_interpreters_and_then_degrades() {
    assert_eq!(
        spawn_orchestra_boot(BootEvent::ChainFailed { index: 0, error: "x".to_string() }),
        BootStep::RunChain(1)
    );
    match spawn_orchestra_boot(BootEvent::ChainFailed { index: 1, error: "none".to_string() }) {
        BootStep::Degrade(m) => {
            assert!(m.contains(boot_interpreter(1)) && m.contains("none"), "{m}")
        }
        other => panic!("{other:?}"),
    }
    assert_eq!(
        spawn_orchestra_boot(BootEvent::DirectFailed { error: "no cys".to_string() }),
        BootStep::Finish(BootSignal::Warn("팀 기동(cys boot) 실행 실패: no cys".to_string()))
    );
    assert_eq!(
        spawn_orchestra_boot(BootEvent::DirectRan { code: Some(0), stdout: String::new() }),
        BootStep::Finish(BootSignal::Silent)
    );
    assert_eq!(
        spawn_orchestra_boot(BootEvent::ChainRan {
            code: Some(0),
            stdout: String::new(),
            stderr: String::new()
        }),
        BootStep::Finish(BootSignal::Silent)
    );
}

#[test]
fn last_object_is_the_printed_report() {
    let j = parse_last_json_object("noise\n{\"a\":1}\n").expect("an object");
    assert_eq!(j, parse("{\"a\":1}").unwrap());
    assert_eq!(parse_last_json_object("no object"), None);
    assert_eq!(parse_last_json_object("[1]"), None);
}

#[test]
fn woken_alone_is_told_by_the_chain() {
    assert!(matches!(chain_signal(Some(0), true, ""), BootSignal::Info(_)));
    assert_eq!(chain_signal(Some(0), false, ""), BootSignal::Silent);
}

#[test]
fn missing_agent_hint_needs_a_verdict() {
    let report = br#"{"agents":{"codex":{"installed":false,"hint":"npm i -g codex"},"grok":{"installed":true,"hint":"x"}}}"#;
    assert_eq!(claude_missing_hint(true, report, "codex").as_deref(), Some("npm i -g codex"));
    assert_eq!(claude_missing_hint(true, report, "grok"), None);
    assert_eq!(claude_missing_hint(true, report, "other"), None);
    assert_eq!(claude_missing_hint(false, report, "codex"), None);
    assert_eq!(claude_missing_hint(true, b"not json", "codex"), None);
    let parsed = parse("{\"agents\":{\"a\":{\"installed\":false,\"hint\":\"h\"}}}").unwrap();
    assert_eq!(install_hint(&parsed, "a").as_deref(), Some("h"));
}

#[test]
fn master_launch_outcomes() {
    assert_eq!(start_master(false, true, Some(0), 42, b"surface:3\n", ""), Ok(Some("surface:3".to_string())));
    assert_eq!(start_master(false, true, Some(0), 42, b"", ""), Ok(None));
    assert_eq!(start_master(true, false, Some(1), 42, b"", " boom \n"), Err("boom".to_string()));
    assert!(start_master(true, false, Some(42), 42, b"surface:3\n", "wait").is_err());
    assert_eq!(surface_ref_in("surface:1\nsurface:2\n").as_deref(), Some("surface:2"));
}

#[test]
fn daemon_is_started_only_when_absent_and_not_resetting() {
    assert_eq!(ensure_daemon(DaemonEvent::Connected(true)), DaemonStep::Done);
    assert_eq!(ensure_daemon(DaemonEvent::Connected(false)), DaemonStep::CheckReset);
    assert!(matches!(ensure_daemon(DaemonEvent::ResetChecked(true)), DaemonStep::Fail(_)));
    assert_eq!(ensure_daemon(DaemonEvent::ResetChecked(false)), DaemonStep::Start);
    assert_eq!(
        ensure_daemon(DaemonEvent::Started {
            program: "cysd".to_string(),
            error: Some("gone".to_string())
        }),
        DaemonStep::Fail("failed to start cysd (cysd): gone".to_string())
    );
    assert_eq!(
        ensure_daemon(DaemonEvent::Started { program: "cysd".to_string(), error: None }),
        DaemonStep::Wait
    );
    assert_eq!(ensure_daemon(DaemonEvent::Waited(true)), DaemonStep::Done);
    assert_eq!(
        ensure_daemon(DaemonEvent::Waited(false)),
        DaemonStep::Fail("cysd did not come up within 4s".to_string())
    );
    assert_eq!(daemon_program(Some("/a/cysd"), true, false), "/a/cysd");
    assert_eq!(daemon_program(Some("/a/cysd"), false, false), "cysd");
    assert_eq!(daemon_program(None, false, true), "cysd.exe");
    assert_eq!(wait_for_connect(1, 40, true), WaitStep::Up);
    assert_eq!(wait_for_connect(39, 40, false), WaitStep::Again);
    assert_eq!(wait_for_connect(40, 40, false), WaitStep::GaveUp);
}

#[test]
fn waiting_shows_the_hint_once_and_yields_to_a_reset() {
    let round = retry_round(4, false);
    assert!(round.hint && !round.stop);
    assert_eq!(round.message.as_deref(), Some("데몬 대기 중 — 재시도 4/20 (15초 간격)"));
    assert!(!retry_round(5, false).hint);
    let reset = retry_round(4, true);
    assert!(reset.stop && !reset.hint);
    assert_eq!(Some(daemon_failure("e", true)), reset.message);
    assert!(!retry_round(20, false).stop);
    let over = retry_round(21, false);
    assert!(over.stop && over.message.is_none() && !over.hint);
    assert!(daemon_failure("e", false).starts_with("e — "));
}

#[test]
fn promotion_tells_what_was_printed() {
    assert_eq!(promote_pending_ceo(true, "a\n", "b\n"), Ok("a\nb".to_string()));
    assert_eq!(promote_pending_ceo(false, "", " no "), Err("no".to_string()));
}

#[test]
fn boot_run_ends_in_one_finish() {
    let mut event = BootEvent::Script { present: true, path: "/p".to_string() };
    let mut told = vec![];
    let mut direct = 0;
    for _ in 0..4 {
        event = match spawn_orchestra_boot(event) {
            BootStep::RunChain(index) => {
                assert_eq!(direct, 0);
                told.push("chain");
                BootEvent::ChainFailed { index, error: "none".to_string() }
            }
            BootStep::Degrade(_) => {
                told.push("degraded");
                direct += 1;
                BootEvent::DirectRan { code: Some(0), stdout: String::new() }
            }
            BootStep::Finish(signal) => {
                assert_eq!(signal, BootSignal::Silent);
                told.push("finish");
                break;
            }
        };
    }
    assert_eq!(told, vec!["chain", "chain", "degraded", "finish"]);
    assert_eq!(direct, 1);
}

#[test]
fn master_is_launched_with_its_agent() {
    assert_eq!(
        master_args("codex"),
        vec!["launch-agent", "--role", "master", "--agent", "codex"]
    );
}

#[test]
fn first_run_is_done_once_everything_succeeded() {
    assert!(onboarding_done(true, true, true));
    assert!(onboarding_done(true, false, false));
    assert!(!onboarding_done(true, false, true));
    assert!(!onboarding_done(false, true, true));
    assert!(!onboarding_done(false, true, false));
}
