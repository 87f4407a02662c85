use cys_app::json::{parse, Json};
use cys_app::update::{
    after_update_installed, check_pack_update, check_update, classify_drain_verify_failure,
    daemon_pid, decide_pending_update, default_pack_manifest_url, drain_verify, fetch_outcome,
    install_pack_update, install_update, maybe_apply_pending_update, pack_binary_too_old,
    pack_update_args, parse_reinject_counts, recorded_version, rotate_daemon,
    scoped_pids_from_ledger_list, wait_for_stop, Fetch, PackUpdate, PendingStep,
    PendingUpdatePlan, StopStep, UpdateStep, Version,
};

fn json(s: &str) -> Json {
    parse(s).unwrap()
}

#[test]
fn drain_verify_failure_classification() {
    let e1 = classify_drain_verify_failure(
        Some(2),
        "error: unexpected argument '--verify' found\n\nUsage: cys drain [OPTIONS]",
    );
    assert!(e1.starts_with("unsupported:"), "구버전 미지원은 unsupported: {e1}");
    let e1b = classify_drain_verify_failure(None, "Usage: cys drain --verify ...");
    assert!(e1b.starts_with("unsupported:"), "usage+--verify는 unsupported: {e1b}");
    let e2 = classify_drain_verify_failure(Some(3), "");
    assert!(e2.starts_with("verify_failed:"), "exit3 백스톱은 verify_failed: {e2}");
    let e2b = classify_drain_verify_failure(None, "thread 'main' panicked at ...");
    assert!(e2b.starts_with("verify_failed:"), "크래시는 verify_failed: {e2b}");
    let e2c = classify_drain_verify_failure(Some(1), "");
    assert!(e2c.starts_with("verify_failed:"), "exit1 무JSON은 verify_failed: {e2c}");
}

#[test]
fn decide_pending_update_marker_or_version_change() {
    assert_eq!(decide_pending_update(true, None, "0.12.51", false), PendingUpdatePlan::Apply, "마커=Apply(스탬프 부재)");
    assert_eq!(decide_pending_update(true, Some("0.12.51"), "0.12.51", false), PendingUpdatePlan::Apply, "마커=Apply(스탬프 동일해도)");
    assert_eq!(decide_pending_update(false, None, "0.12.51", true), PendingUpdatePlan::Apply, "스탬프 부재+기존설치=전환기 홈페이지설치=Apply");
    assert_eq!(decide_pending_update(false, None, "0.12.51", false), PendingUpdatePlan::RecordStampOnly, "스탬프 부재+기존설치 없음=진짜 최초설치");
    assert_eq!(decide_pending_update(false, Some("0.12.50"), "0.12.51", false), PendingUpdatePlan::Apply, "버전변경(홈페이지 수동설치)=Apply");
    assert_eq!(decide_pending_update(false, Some("0.12.50"), "0.12.51", true), PendingUpdatePlan::Apply, "버전변경=Apply(prior_state 무관)");
    assert_eq!(decide_pending_update(false, Some("0.12.51"), "0.12.51", false), PendingUpdatePlan::Skip, "동일 버전·마커 없음=Skip");
    assert_eq!(decide_pending_update(false, Some("0.12.51"), "0.12.51", true), PendingUpdatePlan::Skip, "동일 버전=Skip(prior_state 무관)");
}

#[test]
fn parse_reinject_counts_reads_structured_token() {
    let out = "[pack-update] 팩 2.0.0 반영 완료 (3 written, 1 preserved). 노드 reinject 점검…\n\
               [pack-update] reinject: 2 injected, 1 skipped, 3 deferred, 4 failed.\n\
               PACK_UPDATE_RESULT pack_version=2.0.0 injected=2 skipped=1 deferred=3 failed=4\n";
    assert_eq!(parse_reinject_counts(out), (4, 3), "failed=4 deferred=3 파싱");

    assert_eq!(parse_reinject_counts("아무 의미 없는 출력\n"), (0, 0));
    assert_eq!(parse_reinject_counts(""), (0, 0));

    assert_eq!(
        parse_reinject_counts("PACK_UPDATE_RESULT pack_version=2.0.0 injected=5 skipped=0 deferred=0 failed=0"),
        (0, 0)
    );
    assert_eq!(
        parse_reinject_counts("PACK_UPDATE_RESULT pack_version=1.2.3 injected=0 skipped=0 deferred=2 failed=0"),
        (0, 2)
    );
}

#[test]
fn pack_binary_too_old_gate() {
    let v042 = Some((0, 4, 2));
    assert!(!pack_binary_too_old("", None, v042));
    assert!(!pack_binary_too_old("   ", None, v042));
    assert!(!pack_binary_too_old("0.4.2", Some((0, 4, 2)), v042), "동일 버전 허용");
    assert!(!pack_binary_too_old("0.4.1", Some((0, 4, 1)), v042), "min < running 허용");
    assert!(pack_binary_too_old("0.5.0", Some((0, 5, 0)), v042), "min > running 거부");
    assert!(pack_binary_too_old("1.0.0", Some((1, 0, 0)), v042));
    assert!(pack_binary_too_old("not-a-version", None, v042));
    assert!(pack_binary_too_old("0.5.0", Some((0, 5, 0)), None));
}

#[test]
fn scoped_pids_from_ledger_list_picks_only_scoped_pids() {
    let resp = json(
        r#"{"entries": [{"pid": 100, "scoped": true}, {"pid": 200, "scoped": false}, {"pid": 300, "scoped": true}]}"#,
    );
    let mut pids = scoped_pids_from_ledger_list(&resp);
    pids.sort_unstable();
    assert_eq!(
        pids,
        vec![100, 300],
        "scoped 항목만 회수 대상이어야 하고 비-scoped는 제외돼야 한다"
    );
}

#[test]
fn scoped_pids_from_ledger_list_empty_and_missing_fields_are_safe() {
    assert!(scoped_pids_from_ledger_list(&json(r#"{"entries": []}"#)).is_empty());
    assert!(scoped_pids_from_ledger_list(&json("{}")).is_empty());
    let resp = json(r#"{"entries": [{"pid": 100}, {"scoped": true}]}"#);
    assert!(scoped_pids_from_ledger_list(&resp).is_empty());
}

#[test]
fn only_an_installed_pack_settles_the_update() {
    assert_eq!(maybe_apply_pending_update(true), PendingStep::Settle);
    assert!(matches!(maybe_apply_pending_update(false), PendingStep::KeepAndTell(_)));
    assert_eq!(recorded_version(Some(" 0.1.2\n")).as_deref(), Some("0.1.2"));
    assert_eq!(recorded_version(None), None);
}

#[test]
fn application_update_is_held_by_live_sessions() {
    assert_eq!(install_update(false, Some(0)), Ok(()));
    assert_eq!(install_update(false, None), Ok(()));
    assert_eq!(install_update(false, Some(3)), Err("live_sessions:3".to_string()));
    assert_eq!(install_update(true, Some(3)), Ok(()));
    assert_eq!(after_update_installed(None), UpdateStep::Drain);
    assert_eq!(
        after_update_installed(Some("half".to_string())),
        UpdateStep::Abort("half".to_string())
    );
    assert_eq!(rotate_daemon(false, None, false), Err("live_sessions:unknown".to_string()));
    assert_eq!(rotate_daemon(false, Some(0), false), Ok(true));
    assert_eq!(rotate_daemon(true, Some(9), true), Ok(false));
}

#[test]
fn drain_report_is_what_was_printed() {
    assert_eq!(drain_verify(Some(1), " {\"saved\":2}\n", ""), Ok(json("{\"saved\":2}")));
    assert_eq!(
        drain_verify(Some(3), "", "x"),
        Err(classify_drain_verify_failure(Some(3), "x"))
    );
}

#[test]
fn pack_update_tells_how_many_nodes_it_missed() {
    assert_eq!(
        pack_update_args(&Some("/d".to_string()), &None),
        Ok(vec!["pack-update".to_string(), "--from".to_string(), "/d".to_string()])
    );
    assert_eq!(
        pack_update_args(&None, &Some("u".to_string())),
        Ok(vec!["pack-update".to_string(), "--manifest-url".to_string(), "u".to_string()])
    );
    assert!(pack_update_args(&None, &None).is_err());
    match install_pack_update(false, Some(1), 9, "", "boom", "1.0.0") {
        PackUpdate::Failed { event, error } => {
            assert_eq!(error, "pack-update 실패: boom");
            assert_eq!(event, json(r#"{"message":"boom","phase":"pack-update"}"#));
        }
        other => panic!("{other:?}"),
    }
    let out = "PACK_UPDATE_RESULT pack_version=2.0.0 injected=2 skipped=1 deferred=3 failed=4\n";
    match install_pack_update(false, Some(9), 9, out, "", "2.0.0") {
        PackUpdate::Updated { warning, event } => {
            assert!(warning.is_some());
            assert_eq!(
                event,
                json(r#"{"pack_version":"2.0.0","reinject_deferred":3,"reinject_failed":4}"#)
            );
        }
        other => panic!("{other:?}"),
    }
    match install_pack_update(true, Some(0), 9, "", "", "2.0.0") {
        PackUpdate::Updated { warning, .. } => assert_eq!(warning, None),
        other => panic!("{other:?}"),
    }
}

#[test]
fn manifest_fetch_says_why_it_failed() {
    assert_eq!(fetch_outcome(Fetch::Fetched), Ok(()));
    assert!(fetch_outcome(Fetch::HttpFailed(Some(22))).unwrap_err().contains("22"));
    assert_eq!(
        fetch_outcome(Fetch::NotStarted("no curl".to_string())),
        Err("curl 실행 실패: no curl".to_string())
    );
    assert_eq!(
        fetch_outcome(Fetch::Lost("gone".to_string())),
        Err("curl join 실패: gone".to_string())
    );
    assert_eq!(
        default_pack_manifest_url("latest.json"),
        "https://github.com/idoforgod/cys-terminal/releases/latest/download/latest.json"
    );
}

#[test]
fn offers_carry_their_versions() {
    assert_eq!(check_pack_update(false, "u", "2", "", None, None), None);
    let running: Option<Version> = Some((0, 4, 2));
    assert_eq!(
        check_pack_update(true, "u", "2.0.0", "0.5.0", Some((0, 5, 0)), running),
        Some(json(
            r#"{"binary_too_old":true,"manifest_url":"u","min_binary_version":"0.5.0","pack_version":"2.0.0"}"#
        ))
    );
    assert_eq!(
        check_update("2", "1", &None),
        json(r#"{"current":"1","notes":null,"version":"2"}"#)
    );
    assert_eq!(daemon_pid(&json(r#"{"daemon_pid":7}"#)), Some(7));
    assert_eq!(daemon_pid(&json(r#"{"daemon_pid":"7"}"#)), None);
}

#[test]
fn stopping_is_looked_at_thirty_times() {
    assert_eq!(wait_for_stop(1, false), StopStep::Gone);
    assert_eq!(wait_for_stop(1, true), StopStep::Again);
    assert_eq!(wait_for_stop(29, true), StopStep::Again);
    assert_eq!(wait_for_stop(30, true), StopStep::GaveUp);
    assert_eq!(wait_for_stop(30, false), StopStep::Gone);
}
