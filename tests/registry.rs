use std::cell::Cell;
use std::rc::Rc;
use webssh_rs::registry::{session_id_for, SessionHandle, SessionRegistry};

struct FakeSsh {
    closes: Rc<Cell<u32>>,
}

impl SessionHandle for FakeSsh {
    fn is_closed(&self) -> bool {
        self.closes.get() > 0
    }

    fn close(&mut self) {
        self.closes.set(self.closes.get() + 1);
    }
}

fn fake() -> (FakeSsh, Rc<Cell<u32>>) {
    let closes = Rc::new(Cell::new(0));
    (FakeSsh { closes: closes.clone() }, closes)
}

fn sorted(mut v: Vec<String>) -> Vec<String> {
    v.sort();
    v
}

#[test]
fn session_id_has_documented_shape() {
    assert_eq!(session_id_for("p1", "d1", "u1", "abc"), "portal-p1-device-d1-ssh-u1-abc");
}

#[test]
fn add_session_uses_random_suffix() {
    let mut reg = SessionRegistry::new();
    let (a, _) = fake();
    let (b, _) = fake();
    let id1 = reg.add_session("alice", "host", "root", a, 0);
    let id2 = reg.add_session("alice", "host", "root", b, 0);
    assert!(id1.starts_with("portal-alice-device-host-ssh-root-"));
    assert_eq!(id1.len(), "portal-alice-device-host-ssh-root-".len() + 36);
    let suffix: Vec<char> = id1["portal-alice-device-host-ssh-root-".len()..].chars().collect();
    assert_eq!((suffix[8], suffix[13], suffix[14], suffix[18], suffix[23]), ('-', '-', '4', '-', '-'));
    assert!("89ab".contains(suffix[19]));
    assert_ne!(id1, id2);
    assert_eq!(reg.total_sessions(), 2);
}

#[test]
fn remove_after_add_then_again() {
    let mut reg = SessionRegistry::new();
    let (s, closes) = fake();
    let id = reg.add_session("alice", "host", "root", s, 10);
    assert!(reg.remove_session(&id));
    assert_eq!(closes.get(), 1);
    assert!(!reg.remove_session(&id));
    assert_eq!(closes.get(), 1);
    assert_eq!(reg.total_sessions(), 0);
}

#[test]
fn indices_follow_adds_and_removes() {
    let mut reg = SessionRegistry::new();
    let (a, _) = fake();
    let (b, _) = fake();
    let (c, _) = fake();
    let ia = reg.add_session_with_uuid("alice", "h1", "root", a, "1", 0);
    let ib = reg.add_session_with_uuid("alice", "h2", "root", b, "2", 0);
    let ic = reg.add_session_with_uuid("bob", "h1", "admin", c, "3", 0);
    assert_eq!(reg.total_sessions(), 3);
    assert_eq!(reg.total_portal_users(), 2);
    assert_eq!(reg.total_devices(), 2);
    assert_eq!(sorted(reg.get_portal_user_sessions("alice")), sorted(vec![ia.clone(), ib.clone()]));
    assert_eq!(sorted(reg.get_device_sessions("h1")), sorted(vec![ia.clone(), ic.clone()]));
    assert_eq!(sorted(reg.get_all_sessions()), sorted(vec![ia.clone(), ib.clone(), ic.clone()]));
    assert_eq!(sorted(reg.get_all_portal_user_ids()), vec!["alice".to_string(), "bob".to_string()]);

    assert!(reg.remove_session(&ic));
    assert_eq!(reg.total_portal_users(), 1);
    assert_eq!(reg.total_devices(), 2);
    assert!(reg.get_portal_user_sessions("bob").is_empty());
    assert_eq!(reg.get_all_portal_user_ids(), vec!["alice".to_string()]);

    assert!(reg.remove_session(&ib));
    assert_eq!(reg.total_devices(), 1);
    assert!(reg.get_device_sessions("h2").is_empty());
    assert_eq!(reg.get_device_sessions("h1"), vec![ia.clone()]);

    assert!(reg.remove_session(&ia));
    assert_eq!(reg.total_sessions(), 0);
    assert_eq!(reg.total_portal_users(), 0);
    assert_eq!(reg.total_devices(), 0);
}

#[test]
fn get_session_stamps_activity_without_going_back() {
    let mut reg = SessionRegistry::new();
    let (s, _) = fake();
    let id = reg.add_session_with_uuid("alice", "host", "root", s, "x", 100);
    assert_eq!(reg.get_session(&id, 250).unwrap().last_activity, 250);
    assert_eq!(reg.get_session(&id, 200).unwrap().last_activity, 250);
    let info = reg.get_session(&id, 300).unwrap();
    assert_eq!(info.last_activity, 300);
    assert_eq!(info.portal_user_id, "alice");
    assert_eq!(info.device_id, "host");
    assert_eq!(info.ssh_username, "root");
    assert!(reg.get_session("missing", 400).is_none());
}

#[test]
fn composite_lookup_finds_latest_session() {
    let mut reg = SessionRegistry::new();
    let (a, _) = fake();
    let (b, _) = fake();
    let _first = reg.add_session_with_uuid("alice", "host", "root", a, "1", 0);
    let second = reg.add_session_with_uuid("alice", "host", "root", b, "2", 0);
    let (id, info) = reg.get_session_by_composite_key("alice", "host", "root", 50).unwrap();
    assert_eq!(id, second);
    assert_eq!(info.last_activity, 50);
    assert!(reg.get_session_by_composite_key("alice", "host", "admin", 50).is_none());
}

#[test]
fn removing_older_session_keeps_composite_entry_of_newer() {
    let mut reg = SessionRegistry::new();
    let (a, _) = fake();
    let (b, _) = fake();
    let first = reg.add_session_with_uuid("alice", "host", "root", a, "1", 0);
    let second = reg.add_session_with_uuid("alice", "host", "root", b, "2", 0);
    assert!(reg.remove_session(&first));
    let (id, _) = reg.get_session_by_composite_key("alice", "host", "root", 1).unwrap();
    assert_eq!(id, second);
    assert!(reg.remove_session(&second));
    assert!(reg.get_session_by_composite_key("alice", "host", "root", 2).is_none());
}

#[test]
fn same_id_replaces_and_closes_previous_session() {
    let mut reg = SessionRegistry::new();
    let (a, closes_a) = fake();
    let (b, closes_b) = fake();
    let id1 = reg.add_session_with_uuid("alice", "host", "root", a, "same", 0);
    let id2 = reg.add_session_with_uuid("alice", "host", "root", b, "same", 5);
    assert_eq!(id1, id2);
    assert_eq!(closes_a.get(), 1);
    assert_eq!(closes_b.get(), 0);
    assert_eq!(reg.total_sessions(), 1);
    assert_eq!(reg.get_portal_user_sessions("alice"), vec![id1.clone()]);
    assert_eq!(reg.get_session(&id1, 5).unwrap().last_activity, 5);
}

#[test]
fn stale_session_is_reaped_and_closed() {
    let mut reg = SessionRegistry::new();
    let (s, closes) = fake();
    let t: u64 = 1_000_000;
    let hour: u64 = 3_600_000;
    let id = reg.add_session("alice", "host", "root", s, t);
    assert_eq!(reg.cleanup_stale_sessions(hour, t + hour + 1_000), 1);
    assert!(reg.get_session(&id, t + hour + 2_000).is_none());
    assert_eq!(closes.get(), 1);
    assert_eq!(reg.total_sessions(), 0);
    assert_eq!(reg.total_portal_users(), 0);
    assert_eq!(reg.total_devices(), 0);
}

#[test]
fn reaper_spares_active_sessions() {
    let mut reg = SessionRegistry::new();
    let (a, closes_a) = fake();
    let (b, closes_b) = fake();
    let (c, _) = fake();
    let idle = reg.add_session_with_uuid("alice", "h1", "root", a, "1", 0);
    let busy = reg.add_session_with_uuid("bob", "h2", "root", b, "2", 0);
    let edge = reg.add_session_with_uuid("carol", "h3", "root", c, "3", 1_000);
    reg.get_session(&busy, 5_000);
    assert_eq!(reg.cleanup_stale_sessions(4_000, 5_000), 1);
    assert_eq!(closes_a.get(), 1);
    assert_eq!(closes_b.get(), 0);
    assert!(reg.get_session(&idle, 5_000).is_none());
    assert!(reg.get_session(&busy, 5_000).is_some());
    assert!(reg.get_session(&edge, 5_000).is_some());
    assert_eq!(reg.total_sessions(), 2);
}

#[test]
fn reaper_on_empty_registry_counts_nothing() {
    let mut reg: SessionRegistry<FakeSsh> = SessionRegistry::new();
    assert_eq!(reg.cleanup_stale_sessions(0, u64::MAX), 0);
}

#[test]
fn clock_behind_activity_is_not_idle() {
    let mut reg = SessionRegistry::new();
    let (s, _) = fake();
    reg.add_session_with_uuid("alice", "host", "root", s, "1", 10_000);
    assert_eq!(reg.cleanup_stale_sessions(0, 5_000), 0);
    assert_eq!(reg.total_sessions(), 1);
}
