use cys_app::dept::{
    allocate_args, allocate_dept_daemon, allocated_info, dept_count, dept_display_name,
    dept_name_from_socket, dept_purge_preview_by_socket, fleet_targets,
    launch_dept_daemon, list_depts, live_session_count, locate, org_fleet, purge_dept_args,
    purge_dept_daemon_by_socket, read_dept_catalog, registry_entries, require_dept,
    rotate_dept_daemon, rotation_gate, session_blocks_rotation, FleetReply,
};
use cys_app::json::{parse, Json};
use cys_app::rpc::sock_slug;

fn json(s: &str) -> Json {
    parse(s).unwrap()
}

#[test]
fn bare_pane_does_not_block_rotation_but_role_or_agent_does() {
    let bare = json(r#"{"exited": false, "role": null, "agent": null}"#);
    let exited_agent = json(r#"{"exited": true, "role": "worker", "agent": "codex"}"#);
    let roled = json(r#"{"exited": false, "role": "master", "agent": null}"#);
    let agented = json(r#"{"exited": false, "role": null, "agent": "codex"}"#);
    let empty_strings = json(r#"{"exited": false, "role": "", "agent": ""}"#);
    assert!(!session_blocks_rotation(&bare), "맨 pane은 자동 교대를 막지 않는다");
    assert!(!session_blocks_rotation(&exited_agent), "죽은 세션은 세지 않는다");
    assert!(session_blocks_rotation(&roled), "role claim 세션은 보호");
    assert!(session_blocks_rotation(&agented), "agent 세션은 보호");
    assert!(!session_blocks_rotation(&empty_strings), "빈 문자열은 미부착으로 취급");
}

#[test]
fn purge_dept_cmd_never_requests_workdir_purge() {
    let args = purge_dept_args("/p/bin/javis_org.py", "sales");
    assert!(
        !args.iter().any(|a| a.contains("--purge-workdir")),
        "GUI purge 가 --purge-workdir 를 다시 요청함"
    );
    assert!(args.contains(&"--purge-state".to_string()), "purge 명령 골격 변형");
    assert_eq!(
        args,
        vec!["/p/bin/javis_org.py", "destroy", "--dept", "sales", "--purge", "--purge-state"]
    );
}

#[test]
fn socket_and_pipe_name_their_department() {
    for socket in [
        "/home/x/.local/state/cys-dept-sales/cys.sock",
        "\\\\.\\pipe\\cys-dept-sales",
        "/cys-dept-sales",
    ] {
        assert_eq!(dept_name_from_socket(socket).as_deref(), Some("sales"), "{socket}");
    }
    assert_eq!(dept_name_from_socket("/home/x/.local/state/cys/cys.sock"), None);
    assert_eq!(dept_name_from_socket("/s/cys-dept-/cys.sock"), None);
    assert_eq!(
        require_dept("/s/cys.sock"),
        Err("부서명 파생 실패(비표준 소켓): /s/cys.sock".to_string())
    );
}

#[test]
fn registry_lists_departments_in_order() {
    assert_eq!(list_depts(None).unwrap(), json(r#"{"depts":{}}"#));
    assert_eq!(read_dept_catalog(None), Ok(json(r#"{"departments":{}}"#)));
    assert_eq!(read_dept_catalog(Some("broken")), Ok(json(r#"{"departments":{}}"#)));
    assert_eq!(read_dept_catalog(Some("{\"departments\":{\"a\":1}}")), Ok(json("{\"departments\":{\"a\":1}}")));
    assert!(list_depts(Some("nope")).is_err());
    let reg = list_depts(Some(
        r#"{"depts":{"b":{"socket":"/b.sock"},"a":{"display_name":"영업"}}}"#,
    ))
    .unwrap();
    let entries = registry_entries(&reg);
    assert_eq!(entries.len(), 2);
    assert_eq!(entries[0].name, "a");
    assert_eq!(entries[0].display_name, "영업");
    assert_eq!(entries[0].socket, None);
    assert_eq!(entries[1].socket.as_deref(), Some("/b.sock"));
    assert_eq!(dept_display_name(&reg, "a").as_deref(), Some("영업"));
    assert_eq!(dept_display_name(&reg, "b"), None);
    assert_eq!(dept_count(Some(&reg)), 2);
    assert_eq!(dept_count(None), 0);

    let targets = fleet_targets(
        "/hq.sock",
        &entries,
        &vec!["/a.sock".to_string(), "/b.sock".to_string()],
    );
    assert_eq!(targets.len(), 3);
    assert_eq!(targets[0].name, "_hq");
    let fleet = org_fleet(
        &targets,
        &vec![
            FleetReply::Status(json(r#"{"surfaces":[]}"#)),
            FleetReply::Failed("refused".to_string()),
            FleetReply::TimedOut,
        ],
    );
    let shown = fleet.get("departments").unwrap().as_array().unwrap();
    assert_eq!(shown.len(), 3);
    assert_eq!(shown[0].get("name").unwrap().as_str(), Some("_hq"));
    assert_eq!(shown[1].get("error").unwrap().as_str(), Some("refused"));
    assert!(shown[2].get("error").unwrap().as_str().is_some());
}

#[test]
fn allocation_names_the_department() {
    assert_eq!(allocate_args(&None), vec!["allocate".to_string()]);
    assert_eq!(
        allocate_args(&Some("k".to_string())),
        vec!["create".to_string(), "k".to_string()]
    );
    assert_eq!(
        allocate_dept_daemon(false, true, Some(0), "log\n dept-3 \n\n", ""),
        Ok("dept-3".to_string())
    );
    assert_eq!(
        allocate_dept_daemon(false, true, Some(0), "\n", ""),
        Err("allocate: empty name".to_string())
    );
    assert_eq!(
        allocate_dept_daemon(true, false, Some(4), "", "full"),
        Err("dept-create:4:full".to_string())
    );
    assert_eq!(
        allocate_dept_daemon(true, false, None, "", "full"),
        Err("dept-create:-1:full".to_string())
    );
    assert_eq!(allocate_dept_daemon(false, false, Some(4), "", "full"), Err("full".to_string()));
    let info = allocated_info(json(r#"{"pid":1}"#), "/s/x.sock", "n", &Some("이름".to_string()));
    assert_eq!(info.get("name").unwrap().as_str(), Some("n"));
    assert_eq!(info.get("display_name").unwrap().as_str(), Some("이름"));
    assert_eq!(info.get("socket").unwrap().as_str(), Some("/s/x.sock"));
    assert_eq!(
        info.get("socket_slug").unwrap().as_str(),
        Some(sock_slug("/s/x.sock").as_str())
    );
}

#[test]
fn rotation_waits_for_live_sessions() {
    let list = json(
        r#"{"surfaces":[{"exited":false,"role":"master"},{"exited":false},{"exited":true,"role":"w"}]}"#,
    );
    assert_eq!(live_session_count(&list), 1);
    assert_eq!(live_session_count(&json("{}")), 0);
    assert_eq!(rotation_gate(false, Some(0)), Ok(()));
    assert_eq!(rotation_gate(false, Some(2)), Err("live_sessions:2".to_string()));
    assert_eq!(rotation_gate(false, None), Err("live_sessions:unknown".to_string()));
    assert_eq!(rotation_gate(true, None), Ok(()));
    let r = rotate_dept_daemon(json("{}"), "/s", "x\nrotated 1 -> 2\n", true);
    assert_eq!(r.get("rotate_log").unwrap().as_str(), Some("rotated 1 -> 2"));
    assert_eq!(r.get("restore_ok").unwrap().as_bool(), Some(true));
    assert_eq!(locate(Json::Null, "/s"), Json::Null);
}

#[test]
fn tool_failures_reach_the_user() {
    assert_eq!(launch_dept_daemon(true, "x"), Ok(()));
    assert_eq!(launch_dept_daemon(false, "x\n"), Err("x\n".to_string()));
    assert_eq!(purge_dept_daemon_by_socket(true, " done \n", ""), Ok("done".to_string()));
    assert_eq!(purge_dept_daemon_by_socket(false, "", " no \n"), Err("no".to_string()));
    let shown =
        dept_purge_preview_by_socket("/s/cys-dept-a/cys.sock", "/st", Some((10, 20)), 1).unwrap();
    assert_eq!(
        shown,
        json(
            r#"{"dept_count":1,"exists":true,"is_last":true,"mtime_secs":20,"name":"a","size_bytes":10,"state_dir":"/st"}"#
        )
    );
    assert!(dept_purge_preview_by_socket("/s/cys.sock", "/st", None, 1).is_err());
}
