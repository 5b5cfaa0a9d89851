//! End-to-end scenarios against the manager: account lifecycle, sessions,
//! lockout, and expiry.

use sessiond::manager::SessionManager;
use sessiond::protocol::{dispatch, Command, Step};

fn reply(step: Step) -> String {
    match step {
        Step::Reply(s) => s,
        Step::RunSave => panic!("expected a reply"),
    }
}

#[test]
fn create_login_session_logout() {
    let mut m = SessionManager::new(String::new());
    let t1 = m.create_user("alice", "hunter2", None, 1000).expect("create");
    assert_eq!(t1.len(), 32);
    let s = m.is_logged_in(&t1, 1001).expect("session");
    assert_eq!(s.name, "alice");
    assert_eq!(s.last_accessed, 1001);
    let gone = m.logout(&t1).expect("logout");
    assert_eq!(gone.name, "alice");
    assert_eq!(m.is_logged_in(&t1, 1002).unwrap_err(), "Session not found.");
    assert_eq!(m.logout(&t1).unwrap_err(), "Session not found.");
}

#[test]
fn duplicate_create_is_rejected() {
    let mut m = SessionManager::new(String::new());
    m.create_user("bob", "x", None, 10).expect("first create");
    assert_eq!(m.create_user("bob", "y", None, 11).unwrap_err(), "User already exists.");
}

#[test]
fn create_rejects_unstorable_names_and_passwords() {
    let mut m = SessionManager::new(String::new());
    assert_eq!(m.create_user("a b", "pw", None, 1).unwrap_err(), "Invalid name.");
    assert_eq!(m.create_user("", "pw", None, 1).unwrap_err(), "Invalid name.");
    assert_eq!(m.create_user("ok", "p w", None, 1).unwrap_err(), "Invalid name.");
    assert_eq!(m.create_user("ok", "", None, 1).unwrap_err(), "Invalid name.");
    m.create_user("ok", "pw", None, 1).expect("valid create");
    assert_eq!(m.update_user("ok", "p w", None, 2).unwrap_err(), "Invalid name.");
}

#[test]
fn five_failures_lock_the_account() {
    let mut m = SessionManager::new(String::new());
    m.create_user("carol", "right", None, 100).expect("create");
    for i in 0..5 {
        let r = m.auth("carol", "wrong", None, 101 + i);
        assert_eq!(r.unwrap_err(), "Authentication failed.");
    }
    assert_eq!(m.auth("carol", "right", None, 200).unwrap_err(), "Authentication failed.");
    assert_eq!(m.login("carol", "right", None, 201).unwrap_err(), "Login failed.");
}

#[test]
fn successful_auth_resets_the_failure_count() {
    let mut m = SessionManager::new(String::new());
    m.create_user("dan", "pw", None, 1).expect("create");
    for i in 0..4 {
        assert!(m.auth("dan", "nope", None, 2 + i).is_err());
    }
    assert!(m.auth("dan", "pw", None, 10).is_ok());
    for i in 0..4 {
        assert!(m.auth("dan", "nope", None, 20 + i).is_err());
    }
    assert!(m.auth("dan", "pw", None, 30).is_ok());
}

#[test]
fn auth_of_absent_user_fails() {
    let mut m = SessionManager::new(String::new());
    assert_eq!(m.auth("nobody", "pw", None, 1).unwrap_err(), "Authentication failed.");
    assert_eq!(m.login("nobody", "pw", None, 1).unwrap_err(), "Login failed.");
}

#[test]
fn update_changes_the_password() {
    let mut m = SessionManager::new(String::new());
    m.create_user("gina", "g1", None, 10).expect("create");
    m.update_user("gina", "g2", None, 11).expect("update");
    assert!(m.auth("gina", "g1", None, 12).is_err());
    assert!(m.auth("gina", "g2", None, 13).is_ok());
    assert_eq!(m.update_user("ghost", "x", None, 14).unwrap_err(), "User not found.");
}

#[test]
fn delete_created_user_frees_the_name() {
    let mut m = SessionManager::new(String::new());
    m.create_user("henry", "h1", None, 10).expect("create");
    m.delete_user("henry", None, 11).expect("delete");
    assert!(m.auth("henry", "h1", None, 12).is_err());
    assert_eq!(m.delete_user("henry", None, 13).unwrap_err(), "User not found.");
    m.create_user("henry", "h2", None, 14).expect("recreate");
}

#[test]
fn login_issues_distinct_consecutive_tokens() {
    let mut m = SessionManager::new(String::new());
    m.create_user("ivy", "pw", None, 1).expect("create");
    let t1 = m.login("ivy", "pw", None, 2).expect("first login");
    let t2 = m.login("ivy", "pw", None, 3).expect("second login");
    assert_eq!(t1.len(), 32);
    assert_eq!(t2.len(), 32);
    assert!(t1.chars().all(|c| c.is_ascii_hexdigit() && !c.is_ascii_lowercase()));
    assert_ne!(t1, t2);
    assert_ne!(t1[30..], t2[30..]);
    assert_eq!(&t1[30..], "02");
    assert_eq!(&t2[30..], "03");
}

#[test]
fn sessions_expire_after_the_period() {
    let mut m = SessionManager::new(String::new());
    let t = m.create_user("frank", "pw", None, 1000).expect("create");
    assert!(m.is_logged_in(&t, 1000 + 3599).is_ok());
    assert_eq!(m.is_logged_in(&t, 1000 + 3599 + 3600).unwrap_err(), "Session not found.");
    let t2 = m.login("frank", "pw", None, 2000).expect("login");
    m.expire_sweep(2000 + 3600 + 600);
    assert_eq!(m.is_logged_in(&t2, 2000 + 3600 + 600).unwrap_err(), "Session not found.");
    assert_eq!(m.logout(&t2).unwrap_err(), "Session not found.");
}

#[test]
fn expiry_boundaries_match_the_rules() {
    let mut m = SessionManager::new(String::new());
    let t = m.create_user("jack", "pw", None, 0).expect("create");
    assert!(m.is_logged_in(&t, 3599).is_ok());
    let t2 = m.create_user("kate", "pw", None, 0).expect("create kate");
    assert_eq!(m.is_logged_in(&t2, 3600).unwrap_err(), "Session not found.");
    assert!(m.logout(&t2).is_ok());
    let t3 = m.create_user("liam", "pw", None, 0).expect("create liam");
    m.expire_sweep(3600);
    assert!(m.logout(&t3).is_ok());
    let t4 = m.create_user("mona", "pw", None, 0).expect("create mona");
    m.expire_sweep(3601);
    assert_eq!(m.logout(&t4).unwrap_err(), "Session not found.");
}

#[test]
fn the_clock_reads_a_sane_epoch_time() {
    let t = sessiond::manager::current_time();
    assert!(t > 1_000_000_000);
    assert!(t <= sessiond::MAX_NOW);
}

#[test]
fn maintenance_tick_reports_dirty_overlays() {
    let mut m = SessionManager::new(String::new());
    assert!(!m.maintenance_tick(10));
    m.create_user("nina", "pw", None, 11).expect("create");
    assert!(m.maintenance_tick(12));
    m.commit_save();
    assert!(!m.maintenance_tick(13));
}

#[test]
fn dispatch_frames_protocol_responses() {
    let mut m = SessionManager::new(String::new());
    let r = reply(dispatch(
        &mut m,
        Command::Create { name: String::from("alice"), pass: String::from("pw") },
        None,
        5,
    ));
    assert!(r.starts_with("OK "));
    assert!(r.ends_with("\r\n"));
    assert_eq!(r.len(), 3 + 32 + 2);
    let token = r[3..35].to_string();
    let r = reply(dispatch(
        &mut m,
        Command::Auth { name: String::from("alice"), pass: String::from("pw") },
        None,
        6,
    ));
    assert_eq!(r, "OK\r\n");
    let r = reply(dispatch(
        &mut m,
        Command::Auth { name: String::from("alice"), pass: String::from("bad") },
        None,
        7,
    ));
    assert_eq!(r, "NG Authentication failed.\r\n");
    let r = reply(dispatch(&mut m, Command::Session { token: token.clone() }, None, 8));
    assert_eq!(r, "OK alice\r\n");
    let r = reply(dispatch(&mut m, Command::Logout { token: token.clone() }, None, 9));
    assert_eq!(r, "OK alice\r\n");
    let r = reply(dispatch(&mut m, Command::Session { token }, None, 10));
    assert_eq!(r, "NG Session not found.\r\n");
    let r = reply(dispatch(&mut m, Command::Unknown, None, 11));
    assert_eq!(r, "ERROR\r\n");
    match dispatch(&mut m, Command::Save, None, 12) {
        Step::RunSave => {}
        Step::Reply(_) => panic!("SAVE must run the pipeline"),
    }
}
