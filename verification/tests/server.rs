use dsh_desktop::server::{
    decimal_string, is_unauthorized_head, is_unauthorized_reply, poll_step, probe_request, reuse_event, running_after_stop,
    token_wait_over, url, PollAction, ServerEvent, ServerState, PORT,
};

#[test]
fn server_url_uses_port() {
    assert_eq!(PORT, 3080);
    assert_eq!(url(), "http://127.0.0.1:3080");
}

#[test]
fn decimal_representation() {
    assert_eq!(decimal_string(0), "0");
    assert_eq!(decimal_string(7), "7");
    assert_eq!(decimal_string(3080), "3080");
    assert_eq!(decimal_string(u64::MAX), "18446744073709551615");
}

#[test]
fn probe_request_text() {
    assert_eq!(
        probe_request(),
        "GET / HTTP/1.1\r\nHost: 127.0.0.1:3080\r\nConnection: close\r\n\r\n"
    );
}

#[test]
fn unauthorized_reply_detection() {
    assert!(is_unauthorized_reply(b"HTTP/1.1 401 Unauthorized\r\n"));
    assert!(is_unauthorized_reply(b"HTTP/1.0 401 Unauthorized"));
    assert!(!is_unauthorized_reply(b"HTTP/1.1 200 OK\r\n"));
    assert!(!is_unauthorized_reply(b"HTTP/1.1 40"));
    assert!(!is_unauthorized_reply(b""));
    assert!(!is_unauthorized_reply(b"\xffHTTP/1.1 401"));
}

#[test]
fn fresh_state_status_uses_plain_url() {
    let st = ServerState::new();
    assert!(!st.is_owned());
    assert!(st.auth_unknown());
    let s = st.status(true, false);
    assert!(s.running);
    assert_eq!(s.port, 3080);
    assert_eq!(s.url, "http://127.0.0.1:3080");
    assert!(!s.needs_auth);
    assert!(st.status(true, true).needs_auth);
}

#[test]
fn captured_url_is_reported_and_clears_auth_question() {
    let mut st = ServerState::new();
    st.record_launch_url("http://127.0.0.1:3080/?token=t".to_string());
    assert!(st.has_token());
    assert!(!st.auth_unknown());
    let s = st.status(false, true);
    assert_eq!(s.url, "http://127.0.0.1:3080/?token=t");
    assert!(!s.needs_auth);
    assert_eq!(st.ready_url(), "http://127.0.0.1:3080/?token=t");
}

#[test]
fn owned_server_never_needs_auth() {
    let mut st = ServerState::new();
    st.record_spawn(42);
    assert_eq!(st.pid(), Some(42));
    assert!(!st.status(true, true).needs_auth);
}

#[test]
fn stop_forgets_process_and_url() {
    let mut st = ServerState::new();
    st.record_spawn(7);
    st.record_launch_url("u".to_string());
    assert_eq!(st.stop(), Some(7));
    assert_eq!(st.pid(), None);
    assert!(!st.has_token());
    assert_eq!(st.stop(), None);
}

#[test]
fn stop_without_process_keeps_url() {
    let mut st = ServerState::new();
    st.record_launch_url("u".to_string());
    assert_eq!(st.stop(), None);
    assert!(st.has_token());
}

#[test]
fn exit_while_port_serves_changes_nothing() {
    let mut st = ServerState::new();
    st.record_spawn(9);
    st.record_launch_url("u".to_string());
    assert!(!st.process_exited(true));
    assert_eq!(st.pid(), Some(9));
    assert!(st.has_token());
    assert!(st.process_exited(false));
    assert_eq!(st.pid(), None);
    assert!(!st.has_token());
}

#[test]
fn ready_event_reports_auth_error_only_for_plain_url() {
    let st = ServerState::new();
    assert!(matches!(st.ready_event(true), ServerEvent::AuthError));
    match st.ready_event(false) {
        ServerEvent::Ready(u) => assert_eq!(u, "http://127.0.0.1:3080"),
        ServerEvent::AuthError => panic!("expected ready"),
    }
    let mut st2 = ServerState::new();
    st2.record_launch_url("http://127.0.0.1:3080/?token=a".to_string());
    match st2.ready_event(true) {
        ServerEvent::Ready(u) => assert_eq!(u, "http://127.0.0.1:3080/?token=a"),
        ServerEvent::AuthError => panic!("expected ready"),
    }
}

#[test]
fn reuse_event_follows_status() {
    let st = ServerState::new();
    assert!(matches!(reuse_event(&st.status(true, true)), ServerEvent::AuthError));
    match reuse_event(&st.status(true, false)) {
        ServerEvent::Ready(u) => assert_eq!(u, "http://127.0.0.1:3080"),
        ServerEvent::AuthError => panic!("expected ready"),
    }
}

#[test]
fn poll_step_order() {
    assert_eq!(poll_step(true, false, true), PollAction::PortOpen);
    assert_eq!(poll_step(false, false, false), PollAction::Abandon);
    assert_eq!(poll_step(false, true, true), PollAction::TimedOut);
    assert_eq!(poll_step(false, true, false), PollAction::Wait);
}

#[test]
fn token_wait_ends() {
    assert!(token_wait_over(true, true, false));
    assert!(token_wait_over(false, false, false));
    assert!(token_wait_over(false, true, true));
    assert!(!token_wait_over(false, true, false));
}

#[test]
fn running_after_stop_cases() {
    assert!(!running_after_stop(true, true));
    assert!(running_after_stop(false, true));
    assert!(!running_after_stop(false, false));
}

#[test]
fn unauthorized_head_text() {
    assert!(is_unauthorized_head("HTTP/1.1 401 Unauthorized"));
    assert!(!is_unauthorized_head("HTTP/2 401"));
    assert!(!is_unauthorized_head("\u{FFFD}HTTP/1.1 401"));
}

#[test]
fn start_action_order() {
    assert_eq!(dsh_desktop::server::start_action(true, true), dsh_desktop::server::StartAction::AlreadyRunning);
    assert_eq!(dsh_desktop::server::start_action(false, true), dsh_desktop::server::StartAction::ReuseServing);
    assert_eq!(dsh_desktop::server::start_action(false, false), dsh_desktop::server::StartAction::Launch);
}
