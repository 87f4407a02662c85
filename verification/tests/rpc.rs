use std::collections::hash_map::DefaultHasher;
use std::hash::{Hash, Hasher};

use cys_app::json::{parse, render, Json};
use cys_app::rpc::{
    attach_accepted, attach_surface, close_surface, create_surface, feed_reply, feed_reply_again,
    feed_reply_params, insert, read_operator_token, rename_surface, request_line, resize_surface,
    resolve_socket, rpc_full, rpc_line, rpc_on, rpc_once, rpc_oneshot, send_input, send_key,
    sock_slug, Exchange, RpcErr, RpcStep,
};

fn json(s: &str) -> Json {
    parse(s).unwrap()
}

#[test]
fn slug_is_the_hash_of_the_path_text() {
    for socket in ["", "/s/cys.sock", "\\\\.\\pipe\\cys", "/가/x"] {
        let mut h = DefaultHasher::new();
        socket.hash(&mut h);
        assert_eq!(sock_slug(socket), format!("{:016x}", h.finish()));
    }
}

#[test]
fn default_socket_is_used_without_one() {
    assert_eq!(resolve_socket(&None, "/d"), "/d");
    assert_eq!(resolve_socket(&Some("/x".to_string()), "/d"), "/x");
}

#[test]
fn request_is_one_line() {
    let line = request_line("m", json(r#"{"text":"a\nb"}"#)).unwrap();
    assert_eq!(line, b"{\"id\":1,\"method\":\"m\",\"params\":{\"text\":\"a\\nb\"}}\n");
    assert_eq!(line.iter().filter(|b| **b == b'\n').count(), 1);
    assert_eq!(render(&Json::Fraction("2.50".to_string())).unwrap(), b"2.5");
    assert!(render(&Json::Array(vec![Json::Fraction("no number".to_string())])).is_err());
    assert!(render(&Json::Object(vec![("k".to_string(), Json::Fraction(String::new()))])).is_err());
    assert_eq!(
        render(&Json::Object(vec![
            ("b".to_string(), Json::Null),
            ("a".to_string(), Json::Unsigned(1)),
            ("b".to_string(), Json::Bool(true)),
        ]))
        .unwrap(),
        b"{\"a\":1,\"b\":true}"
    );
    assert_eq!(render(&json("{\"b\":1,\"a\":[-2,1.5]}")).unwrap(), b"{\"a\":[-2,1.5],\"b\":1}");
}

#[test]
fn unsent_request_is_tried_once_more() {
    let before = || Err(RpcErr::BeforeSend("x".to_string()));
    let after = || Err(RpcErr::AfterSend("y".to_string()));
    assert_eq!(rpc_full(false, before()), RpcStep::Retry);
    assert_eq!(rpc_full(true, before()), RpcStep::Fail("x".to_string()));
    assert_eq!(rpc_full(false, after()), RpcStep::Fail("y".to_string()));
    assert_eq!(rpc_full(false, Ok("l".to_string())), RpcStep::Answer("l".to_string()));
}

#[test]
fn exchange_knows_whether_the_request_was_sent() {
    assert_eq!(
        rpc_once(Exchange::NotConnected("e".to_string())),
        Err(RpcErr::BeforeSend("e".to_string()))
    );
    assert_eq!(
        rpc_once(Exchange::NotWritten("e".to_string())),
        Err(RpcErr::BeforeSend("e".to_string()))
    );
    assert_eq!(
        rpc_once(Exchange::NotFlushed("e".to_string())),
        Err(RpcErr::AfterSend("e".to_string()))
    );
    assert_eq!(
        rpc_once(Exchange::NotRead("e".to_string())),
        Err(RpcErr::AfterSend("e".to_string()))
    );
    assert_eq!(
        rpc_once(Exchange::Read(String::new())),
        Err(RpcErr::AfterSend("connection closed".to_string()))
    );
    assert_eq!(rpc_once(Exchange::Read("x\n".to_string())), Ok("x\n".to_string()));
}

#[test]
fn reply_is_its_result_or_its_error() {
    assert_eq!(
        rpc_oneshot("{\"ok\":true,\"result\":{\"surfaces\":[]}}\n"),
        Ok(json("{\"surfaces\":[]}"))
    );
    assert_eq!(
        rpc_on(json(r#"{"ok":false,"error":{"message":"no"}}"#)),
        Err("no".to_string())
    );
    assert_eq!(rpc_on(json(r#"{"ok":false}"#)), Err("unknown error".to_string()));
    assert_eq!(rpc_oneshot(""), Err("connection closed".to_string()));
    assert!(rpc_oneshot("\n").unwrap_err() != "connection closed");
    assert!(rpc_line("nope").is_err());
}

#[test]
fn member_is_read_back_under_its_key() {
    let j = insert(json(r#"{"a":1,"c":3}"#), "b", Json::Unsigned(2));
    assert_eq!(j, json(r#"{"a":1,"b":2,"c":3}"#));
    let j = insert(j, "b", Json::Null);
    assert_eq!(j.get("b"), Some(&Json::Null));
    assert_eq!(j.get("c"), Some(&Json::Unsigned(3)));
    assert_eq!(insert(Json::Null, "b", Json::Null), Json::Null);
}

#[test]
fn operator_token_goes_with_live_human_input_only() {
    let token = Some("tok".to_string());
    let live = send_input(1, "x", None, None, None, &token);
    assert_eq!(live.get("operator_token").unwrap().as_str(), Some("tok"));
    assert!(send_input(1, "x", Some(true), None, None, &token).get("operator_token").is_none());
    assert!(send_input(1, "x", None, None, Some(true), &token).get("operator_token").is_none());
    assert!(send_input(1, "x", None, None, None, &None).get("operator_token").is_none());
    assert_eq!(live.get("text").unwrap().as_str(), Some("x"));
}

#[test]
fn terminal_requests_name_their_terminal() {
    assert_eq!(send_key(7, "Return"), json(r#"{"key":"Return","surface_id":7}"#));
    assert_eq!(rename_surface(7, "t"), json(r#"{"surface_id":7,"title":"t"}"#));
    assert_eq!(resize_surface(7, 24, 80), json(r#"{"cols":80,"rows":24,"surface_id":7}"#));
    assert_eq!(close_surface(7), json(r#"{"surface_id":7}"#));
    assert_eq!(
        create_surface(&None, &Some("t".to_string()), 24, 80),
        json(r#"{"cols":80,"cwd":null,"rows":24,"title":"t"}"#)
    );
    let names = attach_surface("/s", 7);
    assert_eq!(
        names.get("output_event").unwrap().as_str(),
        Some(format!("surface-output-{}-7", sock_slug("/s")).as_str())
    );
    assert_eq!(
        names.get("exited_event").unwrap().as_str(),
        Some(format!("surface-exited-{}-7", sock_slug("/s")).as_str())
    );
    assert!(attach_accepted("{\"ok\":true}\n"));
    assert!(!attach_accepted("{\"ok\":false}\n"));
    assert!(!attach_accepted("garbage"));
}

#[test]
fn denied_answer_is_sent_once_more() {
    assert_eq!(
        feed_reply_params("r", "allow", &Some("t".to_string())),
        json(r#"{"decision":"allow","operator_token":"t","request_id":"r"}"#)
    );
    assert_eq!(
        feed_reply_params("r", "deny", &None),
        json(r#"{"decision":"deny","request_id":"r"}"#)
    );
    let denied = json(r#"{"ok":false,"error":{"code":"self_approval_denied","message":"m"}}"#);
    assert!(feed_reply_again(&denied));
    assert!(!feed_reply_again(&json(r#"{"ok":true}"#)));
    assert!(!feed_reply_again(&json(r#"{"ok":false,"error":{"code":"x"}}"#)));
    assert_eq!(feed_reply(&denied), Err("self_approval_denied: m".to_string()));
    assert_eq!(feed_reply(&json("{}")), Err("error: unknown error".to_string()));
    assert_eq!(feed_reply(&json(r#"{"ok":true}"#)), Ok(()));
}

#[test]
fn token_file_is_trimmed() {
    assert_eq!(read_operator_token(Some(" t\n")).as_deref(), Some("t"));
    assert_eq!(read_operator_token(Some(" \n")), None);
    assert_eq!(read_operator_token(None), None);
}
