use cys_app::json::{parse, Json};
use cys_app::skill::{
    gate_report, make_run_id, make_ticket, profile_audience, read_board_catalog,
    read_profile_audience, resource_gate_check, run_skill, skill_runs, skill_started, ticket_args,
};

fn json(s: &str) -> Json {
    parse(s).unwrap()
}

#[test]
fn run_id_is_plain_kebab() {
    assert_eq!(make_run_id(Some("Deep Research!!v2"), "x", 1700000000), "deep-research-v2-1700000000");
    assert_eq!(make_run_id(None, "../../etc/passwd", 5), "etc-passwd-5");
    assert_eq!(make_run_id(None, "한글만", 5), "skill-5");
    assert_eq!(make_run_id(Some(""), "task", 0), "skill-0");
    for id in [make_run_id(None, "A_b/C d", 1), make_run_id(Some("é"), "", 2)] {
        assert!(id.chars().all(|c| c.is_ascii_lowercase() || c.is_ascii_digit() || c == '-'), "{id}");
    }
}

#[test]
fn audience_falls_back_to_custom() {
    assert_eq!(read_profile_audience(Some("{\"audience\":\"teacher\"}")), "teacher");
    assert_eq!(read_profile_audience(Some("{\"audience\":\"\"}")), "custom");
    assert_eq!(read_profile_audience(Some("{\"audience\":3}")), "custom");
    assert_eq!(read_profile_audience(Some("broken")), "custom");
    assert_eq!(read_profile_audience(None), "custom");
    assert_eq!(profile_audience(Some(json("{\"audience\":\"a\"}"))), "a");
}

#[test]
fn ticket_carries_audience_and_place() {
    let args = ticket_args("/p/x.py", "t", "s", "ok", "w", "id-1", "teacher");
    assert_eq!(args[0], "/p/x.py");
    assert_eq!(args[5], "s · 청중 프로파일: teacher(이 청중 맞춤으로 산출·Implications Domain 질문 생략)");
    assert!(args[12].contains("~/.cys/_round/skill-out/id-1/ (절대경로)"));
    assert_eq!(ticket_args("/p/x.py", "t", "s", "ok", "w", "id-1", "custom")[5], "s");
    let printed = |ok: bool| Ok((ok, "T".to_string(), "E".to_string()));
    assert_eq!(make_ticket("id-1", printed(true)), Ok(json(r#"{"run_id":"id-1","ticket":"T"}"#)));
    assert_eq!(make_ticket("id-1", printed(false)), Err("task-prompt 실패: E".to_string()));
    assert_eq!(
        make_ticket("id-1", Err("no python".to_string())),
        Err("javis_orchestra 실행 실패: no python".to_string())
    );
}

#[test]
fn skill_runs_only_with_a_ticket() {
    assert_eq!(
        run_skill("n", " \n", &None, "agent", None, &None),
        Err("ticket 비어 있음 — 무계약 실행 금지".to_string())
    );
    assert_eq!(
        run_skill("n", "t", &None, "agent", None, &None).unwrap(),
        vec!["skill", "run", "n", "--ticket", "t", "--agent", "agent"]
    );
    assert_eq!(
        run_skill("n", "t", &Some("codex".to_string()), "agent", Some(30), &Some("r".to_string()))
            .unwrap(),
        vec![
            "skill", "run", "n", "--ticket", "t", "--agent", "codex", "--close-after", "30",
            "--run-id", "r"
        ]
    );
    assert_eq!(
        skill_started("n", &None, "cys", &None),
        Ok(json(r#"{"name":"n","ok":true,"run_id":null}"#))
    );
    assert_eq!(
        skill_started("n", &None, "cys", &Some("gone".to_string())),
        Err("cys skill run 실행 실패 (cys): gone".to_string())
    );
    assert_eq!(skill_runs(None), json(r#"{"limit":20}"#));
    assert_eq!(skill_runs(Some(3)), json(r#"{"limit":3}"#));
}

#[test]
fn resource_gate_lets_pass_when_it_cannot_tell() {
    assert_eq!(resource_gate_check(None), json(r#"{"exit_code":0,"report":null}"#));
    assert_eq!(
        resource_gate_check(Some((Some(2), b"{\"cpu\":1}"))),
        json(r#"{"exit_code":2,"report":{"cpu":1}}"#)
    );
    assert_eq!(
        resource_gate_check(Some((None, b"junk"))),
        json(r#"{"exit_code":0,"report":null}"#)
    );
    assert_eq!(gate_report(Some(-1), None), json(r#"{"exit_code":-1,"report":null}"#));
}

#[test]
fn catalogue_says_why_it_is_missing() {
    assert_eq!(read_board_catalog("/p", Ok("{}")), Ok(json("{}")));
    assert_eq!(
        read_board_catalog("/p", Err("gone".to_string())),
        Err("board-catalog.json 없음 (/p): gone".to_string())
    );
    assert!(read_board_catalog("/p", Ok("x")).unwrap_err().starts_with("카탈로그 파싱 실패: "));
}
