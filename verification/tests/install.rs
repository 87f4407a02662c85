use cys_app::install::{
    cli_install_status, cli_install_status_unsupported, install_cli_failure, install_cli_to_path,
    install_failure_message, plan_cli_install, CliInstallPlan, InstallCliReport, ScriptRun,
    UNVERIFIED_NOT_ON_PATH, UNVERIFIED_PROBE_FAILED,
};
use cys_app::json::Json;
use cys_app::links::LinkProbe;
use cys_app::probe::{ShadowProbe, WhichProbe};
use cys_app::report::{install_report, status_report};

#[test]
fn plan_cli_install_refuses_translocated_and_backup() {
    assert!(plan_cli_install(
        "/private/var/folders/x/AppTranslocation/Y/d/cys.app/Contents/MacOS",
        "/usr/local/bin",
        "S", "/Users/x"
    ).is_err());
    assert!(plan_cli_install(
        "/Applications/cys.app.bak-044/Contents/MacOS",
        "/usr/local/bin",
        "S", "/Users/x"
    ).is_err());
}

#[test]
fn plan_cli_install_refuses_nonstandard_and_names_actual_path() {
    let err = match plan_cli_install(
        "/Users/x/Downloads/cys.app/Contents/MacOS",
        "/usr/local/bin",
        "S", "/Users/x"
    ) {
        Ok(_) => panic!("nonstandard 는 거부되어야 한다 — 경고 후 진행으로 되돌아갔다"),
        Err(e) => e,
    };
    assert!(err.contains("/Users/x/Downloads/cys.app"), "실제 번들 경로를 알려야 한다: {err}");
    assert!(err.contains("Applications"), "다음 조치(Applications로 이동) 안내가 있어야 한다: {err}");
}

#[test]
fn plan_cli_install_refuses_applications_lookalike_directories() {
    for bad in [
        "/tmp/Applications/cys.app/Contents/MacOS",
        "/Users/x/Downloads/Applications/cys.app/Contents/MacOS",
        "/Applications/Utilities/Applications/cys.app/Contents/MacOS",
    ] {
        let r = plan_cli_install(bad, "/usr/local/bin", "S", "/Users/x");
        let err = match r {
            Ok(_) => panic!("Applications 유사 경로가 설치를 통과했다: {bad}"),
            Err(e) => e,
        };
        assert!(err.contains("Applications"), "다음 조치 안내가 있어야 한다: {err}");
    }
    assert!(plan_cli_install(
        "/Applications/cys.app/Contents/MacOS",
        "/usr/local/bin",
        "S", "/Users/x"
    )
    .is_ok());
    let home_bundle = "/Users/x/Applications/cys.app/Contents/MacOS";
    assert!(
        plan_cli_install(home_bundle, "/usr/local/bin", "S", "/Users/x").is_ok(),
        "~/Applications 설치가 막혔다: {home_bundle}"
    );
}

#[test]
fn plan_cli_install_canonical_has_no_location_warning() {
    let plan = plan_cli_install(
        "/Applications/cys.app/Contents/MacOS",
        "/usr/local/bin",
        "S", "/Users/x"
    ).expect("정규 번들은 진행");
    assert!(plan.warnings.iter().all(|w| !w.contains("표준 위치")));
    assert!(plan.osascript_arg.starts_with("do shell script \""));
    assert!(plan.osascript_arg.ends_with("\" with administrator privileges"));
}

#[test]
fn osascript_arg_wraps_shell_in_applescript_double_quotes() {
    let plan = plan_cli_install(
        "/Applications/cys.app/Contents/MacOS",
        "/usr/local/bin",
        "S", "/Users/x"
    )
    .unwrap();
    assert!(plan.osascript_arg.starts_with("do shell script \""));
    assert!(plan.osascript_arg.ends_with("\" with administrator privileges"));
    assert!(!plan.osascript_arg.starts_with("do shell script '"));
    assert!(plan.osascript_arg.contains("'/usr/local/bin/cys'"));
    assert!(plan.osascript_arg.contains("ln -sfn"));
}

#[test]
fn install_failure_message_carries_the_moved_paths_but_no_command_prose() {
    let base = "심볼릭 생성 실패: mv: rename /usr/local/bin/cysd: Operation not permitted";
    assert_eq!(install_failure_message(base, &[]), base);
    let msg = install_failure_message(
        base,
        &[(
            "/usr/local/bin/cys".to_string(),
            "/usr/local/bin/cys.cys-backup-1756000000".to_string(),
        )],
    );
    assert!(msg.starts_with(base), "원래 실패 사유를 지우면 안 된다: {msg}");
    assert!(msg.contains("/usr/local/bin/cys.cys-backup-1756000000"), "{msg}");
    assert!(msg.contains("/usr/local/bin/cys → "), "어느 원본이 어디로 갔는지가 사실이다: {msg}");
    assert!(!msg.contains("sudo "), "복구 명령 산문이 백엔드에 남아 있다(G2 회귀): {msg}");
}

#[test]
fn install_report_serializes_unverified_reason_for_the_ui() {
    let mk = |status: &str, reason: Option<&str>| InstallCliReport {
        ok: status == "installed",
        status: status.to_string(),
        target_dir: "/usr/local/bin".into(),
        cys_link: "/usr/local/bin/cys".into(),
        cysd_link: "/usr/local/bin/cysd".into(),
        source_cys: "/Applications/cys.app/Contents/MacOS/cys".into(),
        effective_cys: None,
        shadowed_by: None,
        unverified_reason: reason.map(|r| r.to_string()),
        warnings: vec![],
    };
    let j = install_report(&mk("unverified", Some(UNVERIFIED_PROBE_FAILED)));
    assert_eq!(j.get("unverified_reason").unwrap().as_str(), Some("probe_failed"));
    let j = install_report(&mk("unverified", Some(UNVERIFIED_NOT_ON_PATH)));
    assert_eq!(j.get("unverified_reason").unwrap().as_str(), Some("not_on_path"));
    let j = install_report(&mk("installed", None));
    assert!(
        j.get("unverified_reason").is_some(),
        "필드는 항상 존재해야 한다(없으면 TS 가 undefined 와 null 을 구분 못 한다): {j:?}"
    );
    assert_eq!(j.get("unverified_reason"), Some(&Json::Null), "성공에는 사유가 없다: {j:?}");
}

fn text(s: &str) -> String {
    s.to_string()
}

fn seen(cys: &[&str], cysd: &[&str]) -> ShadowProbe {
    ShadowProbe {
        shell_name: text("zsh"),
        cys: WhichProbe::Completed(cys.iter().map(|p| p.to_string()).collect()),
        cysd: WhichProbe::Completed(cysd.iter().map(|p| p.to_string()).collect()),
    }
}

fn plan() -> CliInstallPlan {
    plan_cli_install("/Applications/cys.app/Contents/MacOS", "/usr/local/bin", "9", "/Users/x")
        .unwrap()
}

#[test]
fn finished_installation_is_reported_with_its_backups() {
    let run = ScriptRun {
        success: true,
        stdout: text("CYS-BACKED-UP:/usr/local/bin/cys:/usr/local/bin/cys.cys-backup-9\n"),
        stderr: String::new(),
    };
    let rep = install_cli_to_path(
        &plan(),
        "/usr/local/bin",
        &run,
        &[],
        &[],
        &seen(&["/usr/local/bin/cys"], &["/usr/local/bin/cysd"]),
    );
    assert!(rep.ok);
    assert_eq!(rep.status, "installed");
    assert_eq!(rep.source_cys, "/Applications/cys.app/Contents/MacOS/cys");
    assert_eq!(rep.cysd_link, "/usr/local/bin/cysd");
    assert!(rep.warnings.iter().any(|w| w.contains("/usr/local/bin/cys.cys-backup-9")));
}

#[test]
fn shadowed_installation_is_not_ok() {
    let run = ScriptRun { success: true, stdout: String::new(), stderr: String::new() };
    let rep = install_cli_to_path(
        &plan(),
        "/usr/local/bin",
        &run,
        &[],
        &[],
        &seen(&["/opt/homebrew/bin/cys", "/usr/local/bin/cys"], &["/usr/local/bin/cysd"]),
    );
    assert!(!rep.ok);
    assert_eq!(rep.status, "installed_shadowed");
    assert_eq!(rep.shadowed_by.as_deref(), Some("/opt/homebrew/bin/cys"));
}

#[test]
fn failed_installation_names_what_already_moved() {
    let run = ScriptRun {
        success: false,
        stdout: String::new(),
        stderr: text("mv: Operation not permitted"),
    };
    let planned = [(text("/usr/local/bin/cys"), text("/usr/local/bin/cys.cys-backup-9"))];
    let msg = install_cli_failure(&run, &planned, &[text("/usr/local/bin/cys.cys-backup-9")]);
    assert!(msg.contains("mv: Operation not permitted"), "{msg}");
    assert!(msg.contains("/usr/local/bin/cys → /usr/local/bin/cys.cys-backup-9"), "{msg}");
    let clean = install_cli_failure(&run, &planned, &[]);
    assert!(!clean.contains("cys-backup-9"), "{clean}");
}

#[test]
fn status_counts_ours_and_notes_the_rest() {
    let ours = LinkProbe {
        path: text("/usr/local/bin/cys"),
        present: true,
        is_symlink: true,
        link_target: Some(text("/Applications/cys.app/Contents/MacOS/cys")),
    };
    let foreign = LinkProbe {
        path: text("/usr/local/bin/cysd"),
        present: true,
        is_symlink: false,
        link_target: None,
    };
    let rep = cli_install_status(
        "/usr/local/bin",
        &[ours, foreign],
        Some(&seen(&["/usr/local/bin/cys"], &["/usr/local/bin/cysd"])),
        vec![text("/usr/local/bin/cys.cys-backup-9")],
    );
    assert!(rep.platform_supported && rep.installed);
    assert_eq!(rep.state, "partial");
    assert_eq!(rep.notes.len(), 1);
    assert_eq!(rep.backups, vec!["/usr/local/bin/cys.cys-backup-9"]);
    let shown = status_report(&rep);
    assert_eq!(shown.get("state").unwrap().as_str(), Some("partial"));
    let other = cli_install_status_unsupported("/usr/local/bin");
    assert!(!other.platform_supported && !other.installed);
    assert_eq!(other.state, "unsupported");
}
