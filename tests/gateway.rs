use std::cell::Cell;
use std::rc::Rc;
use webssh_rs::bridge::{receive_frame, ClientFrame, ReceiverStep, WSCommand};
use webssh_rs::gateway::{
    api_device_name, api_port, api_portal_user, api_websocket_url, clean_session_id, default_portal_user,
    error_code_for, list_sessions, portal_user_or_anonymous, select_credentials,
    session_not_found_message, session_status, session_status_of, terminate_session,
    terminate_session_of, websocket_url, ErrorCode,
};
use webssh_rs::registry::{SessionHandle, SessionRegistry};

struct FakeSsh {
    closes: Rc<Cell<u32>>,
}

impl SessionHandle for FakeSsh {
    fn is_closed(&self) -> bool {
        self.closes.get() > 0
    }

    fn close(&mut self) {
        self.closes.set(self.closes.get() + 1);
    }
}

fn fake() -> (FakeSsh, Rc<Cell<u32>>) {
    let closes = Rc::new(Cell::new(0));
    (FakeSsh { closes: closes.clone() }, closes)
}

#[test]
fn happy_path() {
    let mut reg = SessionRegistry::new();
    let (ssh, _) = fake();
    let portal = default_portal_user(None);
    assert!(portal.starts_with("anonymous-"));
    let id = reg.add_session(&portal, "h", "u", ssh, 0);
    let url = websocket_url("0.0.0.0", 8888, &id);
    assert_eq!(url, format!("ws://0.0.0.0:8888/ws/{}", id));
    let status = session_status(&mut reg, &format!(" {}\n", id), 1);
    assert!(status.exists && status.ready);
    match receive_frame(ClientFrame::Command(WSCommand::Input { data: "echo hi\n".to_string() }), true) {
        ReceiverStep::ForwardInput(bytes) => assert_eq!(bytes, b"echo hi\n".to_vec()),
        _ => panic!("expected input"),
    }
}

#[test]
fn terminate() {
    let mut reg = SessionRegistry::new();
    let (ssh, closes) = fake();
    let id = reg.add_session("p", "h", "u", ssh, 0);
    let outcome = terminate_session(&mut reg, &id, 5);
    assert!(outcome.success);
    assert_eq!(outcome.message, format!("Session '{}' successfully terminated", id));
    assert_eq!(closes.get(), 1);
    let status = session_status_of(&mut reg, &id, 6);
    assert!(!status.exists);
    assert!(!status.ready);
    assert_eq!(status.message, format!("Session '{}' not found. Waiting for it to be created...", id));
    assert!(reg.get_session(&id, 7).is_none());
    assert_eq!(
        session_not_found_message(&id),
        format!("Session '{}' not found. The SSH connection may have failed or the session expired.", id)
    );
    let again = terminate_session_of(&mut reg, &id, 8);
    assert!(!again.success);
    assert_eq!(again.message, format!("Session '{}' not found", id));
}

#[test]
fn session_ids_from_urls_are_trimmed() {
    assert_eq!(clean_session_id("  abc \t\n"), "abc");
    assert_eq!(clean_session_id("abc"), "abc");
    assert_eq!(clean_session_id("\u{3000}\u{a0}a b\u{85}\u{2029}"), "a b");
    assert_eq!(clean_session_id(" \t "), "");
    assert_eq!(clean_session_id("\u{200b}x"), "\u{200b}x");
    let mut reg = SessionRegistry::new();
    let (ssh, _) = fake();
    let id = reg.add_session_with_uuid("p", "h", "u", ssh, "1", 0);
    assert!(terminate_session(&mut reg, &format!("\t{} ", id), 1).success);
}

#[test]
fn ready_status_message() {
    let mut reg = SessionRegistry::new();
    let (ssh, _) = fake();
    let id = reg.add_session_with_uuid("p", "h", "u", ssh, "1", 0);
    let status = session_status_of(&mut reg, &id, 10);
    assert!(status.exists && status.ready);
    assert_eq!(status.message, "Session is ready for connection");
    assert_eq!(reg.get_session(&id, 0).unwrap().last_activity, 10);
}

#[test]
fn error_codes_follow_message_text() {
    assert!(error_code_for("Authentication error: bad") == ErrorCode::AuthFailed);
    assert!(error_code_for("Connection refused") == ErrorCode::ConnectionFailed);
    assert!(error_code_for("failed to connect") == ErrorCode::ConnectionFailed);
    assert!(error_code_for("something else") == ErrorCode::UnknownError);
    assert!(error_code_for("Authentication and Connection") == ErrorCode::AuthFailed);
    assert_eq!(ErrorCode::ConnectionFailed.as_str(), "CONNECTION_FAILED");
    assert_eq!(ErrorCode::UnknownError.as_str(), "UNKNOWN_ERROR");
}

#[test]
fn api_defaults() {
    assert_eq!(api_port(0), 22);
    assert_eq!(api_port(2222), 2222);
    assert_eq!(api_portal_user(Some("p".into()), Some("d".into()), "u"), "p");
    assert_eq!(api_portal_user(None, Some("d".into()), "u"), "d");
    assert_eq!(api_portal_user(None, None, "u1"), "device-u1");
    assert_eq!(portal_user_or_anonymous(None, "x"), "anonymous-x");
    assert_eq!(portal_user_or_anonymous(Some("me".into()), "x"), "me");
    assert_eq!(default_portal_user(Some("me".into())), "me");
}

#[test]
fn credentials_follow_auth_type() {
    let (p, k) = select_credentials(Some("private-key"), Some("pw".into()), Some("key".into()));
    assert_eq!((p, k), (None, Some("key".to_string())));
    let (p, k) = select_credentials(Some("password"), Some("pw".into()), Some("key".into()));
    assert_eq!((p, k), (Some("pw".to_string()), None));
    let (p, k) = select_credentials(None, Some("pw".into()), Some("key".into()));
    assert_eq!((p, k), (Some("pw".to_string()), None));
}

#[test]
fn api_url_encodes_query_values() {
    let url = api_websocket_url("ws://a:1/ws/s", "my host", "r~o_o.t-1", "Büro/1");
    assert_eq!(url, "ws://a:1/ws/s&hostname=my%20host&username=r~o_o.t-1&device_name=B%C3%BCro%2F1");
}

#[test]
fn listing_scopes_to_portal_user() {
    let mut reg = SessionRegistry::new();
    let (a, _) = fake();
    let (b, _) = fake();
    let (c, _) = fake();
    let ia = reg.add_session_with_uuid("alice", "h1", "root", a, "1", 0);
    let ib = reg.add_session_with_uuid("alice", "h2", "admin", b, "2", 0);
    let ic = reg.add_session_with_uuid("bob", "h1", "root", c, "3", 0);
    let mut alice: Vec<String> = list_sessions(&mut reg, Some("alice"), 9)
        .into_iter()
        .map(|s| {
            assert_eq!(s.portal_user_id, "alice");
            assert_eq!(s.last_activity, 9);
            s.session_id
        })
        .collect();
    alice.sort();
    let mut expected = vec![ia.clone(), ib.clone()];
    expected.sort();
    assert_eq!(alice, expected);
    let all = list_sessions(&mut reg, None, 12);
    assert_eq!(all.len(), 3);
    let bob: Vec<_> = all.iter().filter(|s| s.session_id == ic).collect();
    assert_eq!(bob.len(), 1);
    assert_eq!(bob[0].device_id, "h1");
    assert_eq!(bob[0].ssh_username, "root");
    assert!(list_sessions(&mut reg, Some("nobody"), 13).is_empty());
}

fn is_v4_text(u: &str) -> bool {
    let c: Vec<char> = u.chars().collect();
    c.len() == 36
        && c.iter().enumerate().all(|(i, ch)| {
            if [8, 13, 18, 23].contains(&i) {
                *ch == '-'
            } else {
                ch.is_ascii_hexdigit() && !ch.is_ascii_uppercase()
            }
        })
        && c[14] == '4'
        && "89ab".contains(c[19])
}

#[test]
fn anonymous_portal_user_ends_in_a_v4_uuid() {
    let p = default_portal_user(None);
    assert!(p.starts_with("anonymous-"));
    assert!(is_v4_text(&p["anonymous-".len()..]));
    assert_ne!(default_portal_user(None), p);
}

#[test]
fn api_device_name_falls_back_to_host() {
    assert_eq!(api_device_name(Some("core-sw".into()), "10.0.0.1"), "core-sw");
    assert_eq!(api_device_name(None, "10.0.0.1"), "10.0.0.1");
}

#[test]
fn terminate_closes_the_handle_once() {
    let mut reg = SessionRegistry::new();
    let (ssh, closes) = fake();
    let (other, other_closes) = fake();
    let id = reg.add_session_with_uuid("p", "h", "u", ssh, "1", 0);
    let keep = reg.add_session_with_uuid("p", "h", "u", other, "2", 0);
    assert!(terminate_session_of(&mut reg, &id, 1).success);
    assert!(!terminate_session_of(&mut reg, &id, 2).success);
    assert_eq!(closes.get(), 1);
    assert_eq!(other_closes.get(), 0);
    assert_eq!(reg.get_portal_user_sessions("p"), vec![keep.clone()]);
    assert_eq!(reg.get_device_sessions("h"), vec![keep]);
}
