use cys_app::json::{parse, Json};
use cys_app::stream::{
    attach_line, events_line, forward_line, forward_value, pipe_state_dir,
    read_operator_token_for, spawn_event_forwarder, start_surface_stream, StreamEvent, StreamStep,
};

#[test]
fn output_is_read_only_after_the_daemon_agreed() {
    match start_surface_stream(7, &StreamEvent::Connected(true)) {
        StreamStep::Send(line) => assert_eq!(
            line,
            b"{\"id\":1,\"method\":\"surface.attach\",\"params\":{\"surface_id\":7}}\n"
        ),
        other => panic!("{other:?}"),
    }
    assert_eq!(start_surface_stream(7, &StreamEvent::Connected(false)), StreamStep::Exited);
    assert_eq!(start_surface_stream(7, &StreamEvent::Sent(true)), StreamStep::ReadAck);
    assert_eq!(start_surface_stream(7, &StreamEvent::Sent(false)), StreamStep::Exited);
    let ack = |s: &str| StreamEvent::Ack(Some(s.to_string()));
    assert_eq!(start_surface_stream(7, &ack("{\"ok\":true}\n")), StreamStep::ReadChunk);
    assert_eq!(start_surface_stream(7, &ack("{\"ok\":false}\n")), StreamStep::Exited);
    assert_eq!(start_surface_stream(7, &StreamEvent::Ack(None)), StreamStep::Exited);
    assert_eq!(
        start_surface_stream(7, &StreamEvent::Chunk(Some(b"hello".to_vec()))),
        StreamStep::Emit("aGVsbG8=".to_string())
    );
    assert_eq!(start_surface_stream(7, &StreamEvent::Chunk(None)), StreamStep::Exited);
    assert_eq!(start_surface_stream(7, &StreamEvent::Emitted(true)), StreamStep::ReadChunk);
    assert_eq!(start_surface_stream(7, &StreamEvent::Emitted(false)), StreamStep::Exited);
    assert_eq!(attach_line(1).last(), Some(&b'\n'));
}

#[test]
fn events_are_marked_with_their_socket() {
    let (seen, event) = forward_line("{\"type\":\"event\",\"seq\":9}", "slug", Some(3));
    assert_eq!(seen, Some(9));
    assert_eq!(
        event,
        Some(parse("{\"seq\":9,\"socket_slug\":\"slug\",\"type\":\"event\"}").unwrap())
    );
    let (seen, event) = forward_line("{\"type\":\"event\"}", "slug", Some(3));
    assert_eq!(seen, Some(3));
    assert!(event.is_some());
    assert_eq!(forward_line("{\"type\":\"pong\",\"seq\":9}", "slug", Some(3)), (Some(3), None));
    assert_eq!(forward_line("garbage", "slug", None), (None, None));
    assert_eq!(forward_value(Some(Json::Null), "slug", Some(1)), (Some(1), None));
}

#[test]
fn events_resume_behind_the_last_one_seen() {
    assert_eq!(
        events_line(Some(4)),
        b"{\"id\":1,\"method\":\"events.stream\",\"params\":{\"after_seq\":4}}\n"
    );
    assert_eq!(
        events_line(None),
        b"{\"id\":1,\"method\":\"events.stream\",\"params\":{\"after_seq\":null}}\n"
    );
}

#[test]
fn thirty_failures_in_a_row_end_the_following() {
    let mut fails = Some(0);
    for _ in 0..29 {
        fails = spawn_event_forwarder(fails.unwrap(), false);
    }
    assert_eq!(fails, Some(29));
    assert_eq!(spawn_event_forwarder(29, true), Some(0));
    assert_eq!(spawn_event_forwarder(29, false), None);
}

#[test]
fn token_stands_with_its_daemon() {
    assert_eq!(
        read_operator_token_for("/s/cys-dept-a/cys.sock").as_deref(),
        Some("/s/cys-dept-a/operator.token")
    );
    assert_eq!(read_operator_token_for("/"), None);
    assert_eq!(pipe_state_dir("\\\\.\\pipe\\cys"), None);
    assert_eq!(pipe_state_dir("\\\\.\\pipe\\cys-dept-a").as_deref(), Some("cys-dept-a"));
    assert_eq!(pipe_state_dir("\\\\.\\pipe\\cys-dept-영 업!").as_deref(), Some("cys-dept-영업"));
    assert_eq!(pipe_state_dir("a/b\\"), None);
}
