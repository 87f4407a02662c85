use cys_app::dept::dept_tombstones;
use cys_app::json::{parse, Json};
use cys_app::restore::{
    restore_choice, restore_skip_event, spawn_org_restore, OrgRestore, RestoreChoice,
    RestoreEvent, RestoreStep,
};

fn json(s: &str) -> Json {
    parse(s).unwrap()
}

#[test]
fn deleted_department_is_never_brought_back() {
    let gone = dept_tombstones(&json(r#"{"dept_tombstones":["sales", 3]}"#));
    assert_eq!(gone, vec!["sales".to_string()]);
    assert_eq!(restore_choice("sales", &gone, true), RestoreChoice::Skip { stop: true });
    assert_eq!(restore_choice("sales", &gone, false), RestoreChoice::Skip { stop: false });
    assert_eq!(restore_choice("hr", &gone, true), RestoreChoice::RestoreNodes);
    assert_eq!(restore_choice("hr", &gone, false), RestoreChoice::Launch);
    assert_eq!(
        restore_skip_event("sales", None).get("phase").unwrap().as_str(),
        Some("skip")
    );
    assert_eq!(
        spawn_org_restore(false, &[]),
        json(r#"{"detail":"본부 노드 복원 실행 실패","phase":"error"}"#)
    );
    assert_eq!(
        spawn_org_restore(false, &[true, false, true]),
        json(r#"{"fail":1,"hq_ok":false,"ok":2,"phase":"done"}"#)
    );
}

#[test]
fn restoring_deals_with_every_department_in_turn() {
    let names = vec!["hr".to_string(), "sales".to_string(), "old".to_string(), "lab".to_string()];
    let gone = vec!["sales".to_string(), "old".to_string()];
    let mut run = OrgRestore::new(true, gone, names);

    assert_eq!(run.department(), Some(0));
    assert!(matches!(run.step(RestoreEvent::Answers(true)), RestoreStep::RestoreNodes));
    assert!(matches!(run.step(RestoreEvent::Stopped(true)), RestoreStep::Ask));
    assert_eq!(run.department(), Some(0));
    assert!(matches!(run.step(RestoreEvent::Attempted(true)), RestoreStep::Next));

    assert_eq!(run.department(), Some(1));
    assert!(matches!(run.step(RestoreEvent::Attempted(true)), RestoreStep::Ask));
    assert!(matches!(run.step(RestoreEvent::Answers(true)), RestoreStep::Stop));
    match run.step(RestoreEvent::Stopped(false)) {
        RestoreStep::PassOver(event) => assert_eq!(
            event,
            json(r#"{"dept":"sales","detail":"삭제-의도 묘비 — teardown 미확정(WARN·차회 시작 시 재시도)","phase":"skip"}"#)
        ),
        other => panic!("{other:?}"),
    }

    assert_eq!(run.department(), Some(2));
    match run.step(RestoreEvent::Answers(false)) {
        RestoreStep::PassOver(event) => assert_eq!(
            event,
            json(r#"{"dept":"old","detail":"삭제-의도 묘비 — 재기동 제외","phase":"skip"}"#)
        ),
        other => panic!("{other:?}"),
    }

    assert_eq!(run.department(), Some(3));
    assert!(matches!(run.step(RestoreEvent::Answers(false)), RestoreStep::Launch));
    assert!(matches!(run.step(RestoreEvent::Attempted(false)), RestoreStep::Next));

    assert_eq!(run.department(), None);
    match run.step(RestoreEvent::Answers(true)) {
        RestoreStep::Done(event) => {
            assert_eq!(event, json(r#"{"fail":1,"hq_ok":true,"ok":1,"phase":"done"}"#))
        }
        other => panic!("{other:?}"),
    }
}
