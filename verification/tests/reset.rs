use cys_app::json::{parse, Json};
use cys_app::reset::{
    factory_reset_execute, factory_reset_preview, KeptItem, PathError, ResetEvent, ResetItem,
    ResetPlan, ResetReport, ResetStep,
};

#[test]
fn factory_reset_cmd_delegates_and_never_deletes_directly() {
    assert!(matches!(
        factory_reset_execute(ResetEvent::Asked { surface: Some("surface:1".to_string()) }),
        ResetStep::Refuse(_)
    ));
    assert_eq!(factory_reset_execute(ResetEvent::Asked { surface: None }), ResetStep::MakePlan);
    assert_eq!(
        factory_reset_execute(ResetEvent::Asked { surface: Some(String::new()) }),
        ResetStep::MakePlan
    );
    assert_eq!(
        factory_reset_execute(ResetEvent::Planned {
            home: true,
            trash_root_error: Some("read-only".to_string())
        }),
        ResetStep::Refuse("격리 폴더를 쓸 수 없어 초기화를 시작하지 않는다: read-only".to_string()),
        "격리 폴더 사전 점검이 빠졌다 — 데몬만 죽이고 실패하는 경로가 열린다"
    );
    assert_eq!(
        factory_reset_execute(ResetEvent::Planned { home: true, trash_root_error: None }),
        ResetStep::StopDaemons,
        "정지 단계 소실 — 살아있는 데몬 밑에서 격리하는 경로가 열린다"
    );
    assert_eq!(
        factory_reset_execute(ResetEvent::Planned { home: false, trash_root_error: None }),
        ResetStep::Refuse("홈 디렉토리를 해석할 수 없다".to_string())
    );
    assert_eq!(
        factory_reset_execute(ResetEvent::Stopped {
            failure: Some("still up".to_string()),
            side_effects: "launchd off".to_string()
        }),
        ResetStep::Refuse("still up\nlaunchd off".to_string())
    );
    assert_eq!(
        factory_reset_execute(ResetEvent::Stopped {
            failure: None,
            side_effects: String::new()
        }),
        ResetStep::MoveAway,
        "격리는 정지 다음이다"
    );
    assert_eq!(
        factory_reset_execute(ResetEvent::Moved(Err("no".to_string()))),
        ResetStep::Refuse("no".to_string())
    );
}

fn text(s: &str) -> String {
    s.to_string()
}

#[test]
fn reset_report_names_every_path() {
    let rep = ResetReport {
        ok: false,
        trash_dir: text("/t"),
        report_path: text("/t/REPORT.txt"),
        moved: 2,
        failed: vec![PathError { path: text("/f"), error: text("busy") }],
        kept: vec![text("/k")],
        stripped: Json::Array(vec![]),
        revived_warning: Json::Null,
        deferred: vec![],
        skipped_absent: Json::Unsigned(1),
        manifest_written: Json::Bool(true),
        interrupted_prior: vec![],
    };
    match factory_reset_execute(ResetEvent::Moved(Ok(rep))) {
        ResetStep::Report(j) => assert_eq!(
            j,
            parse(
                r#"{"deferred":[],"failed":[{"error":"busy","path":"/f"}],"interrupted_prior":[],"kept":["/k"],"manifest_written":true,"moved":2,"ok":false,"report_path":"/t/REPORT.txt","revived_warning":null,"skipped_absent":1,"stripped":[],"trash_dir":"/t"}"#
            )
            .unwrap()
        ),
        other => panic!("{other:?}"),
    }
}

#[test]
fn preview_shows_what_goes_and_what_stays() {
    let plan = ResetPlan {
        quarantine: vec![ResetItem {
            path: text("/q"),
            label: text("state"),
            size_bytes: 7,
            outside_state: true,
        }],
        total_bytes: 7,
        trash_dir: text("/t"),
        keep: vec![KeptItem { path: text("/k"), label: text("license") }],
        strip_profiles: 1,
        report_only: Json::Array(vec![]),
        trash_root_error: Some(text("ro")),
        interrupted_prior: vec![text("/old")],
    };
    assert_eq!(
        factory_reset_preview(Some(plan), 3, 2).unwrap(),
        parse(
            r#"{"dept_count":2,"interrupted_prior":["/old"],"kept":[{"label":"license","path":"/k"}],"live_sessions":3,"quarantine":[{"label":"state","outside_state":true,"path":"/q","size_bytes":7}],"quarantine_count":1,"report_only":[],"strip_profiles":1,"total_bytes":7,"trash_dir":"/t","trash_root_error":"ro","trash_root_ready":false}"#
        )
        .unwrap()
    );
    assert_eq!(
        factory_reset_preview(None, 0, 0),
        Err("홈 디렉토리를 해석할 수 없다".to_string())
    );
}
