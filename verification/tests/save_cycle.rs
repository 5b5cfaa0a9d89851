//! The save protocol's merge, and save/restart cycles driven through the
//! manager with the store simulated as text lines.

use sessiond::manager::SessionManager;
use sessiond::user::User;

/// The value part of a record's line: everything after the name.
fn rest_of(line: &str) -> String {
    line[line.find(' ').unwrap() + 1..].to_string()
}

#[test]
fn merge_replaces_updated_lines_and_appends_created_ones() {
    let mut m = SessionManager::new(String::new());
    m.create_user("newbie", "n1", None, 50).expect("create");
    // A store with two users; one of them fails an authentication, which
    // promotes it into the updated tier with the failure counted.
    let disk_line = User::new("olda", "pw", 10).to_string();
    assert!(m.auth("olda", "bad", Some(rest_of(&disk_line)), 60).is_err());
    let untouched = User::new("oldb", "pw", 11).to_string();
    let old_lines = vec![disk_line.clone(), untouched.clone(), String::from("noseparator")];
    let merged = m.merge_for_save(&old_lines);
    assert_eq!(merged.len(), 3);
    assert_eq!(merged[0], "olda pw 10 0 0 0 60 1 0");
    assert_eq!(merged[1], untouched);
    assert_eq!(merged[2], "newbie n1 50 0 0 0 0 0 0");
}

#[test]
fn save_cycle_preserves_records() {
    let mut m = SessionManager::new(String::new());
    m.create_user("dave", "d1", None, 50).expect("create");
    let merged = m.merge_for_save(&Vec::new());
    assert_eq!(merged, vec![String::from("dave d1 50 0 0 0 0 0 0")]);
    m.commit_save();
    assert!(!m.overlay_dirty());
    // Restart: a fresh manager over the saved store, whose lookups now
    // answer from the merged line.
    let mut m2 = SessionManager::new(String::new());
    let base = rest_of(&merged[0]);
    assert!(m2.auth("dave", "d1", Some(base), 60).is_ok());
}

#[test]
fn delete_then_resave_keeps_the_tombstone() {
    let mut m = SessionManager::new(String::new());
    m.create_user("eve", "e1", None, 10).expect("create");
    let saved = m.merge_for_save(&Vec::new());
    m.commit_save();
    // After a restart, delete the stored user and save again: its line is
    // rewritten with a nonzero tombstone, not removed.
    let mut m2 = SessionManager::new(String::new());
    let base = rest_of(&saved[0]);
    m2.delete_user("eve", Some(base), 20).expect("delete");
    let resaved = m2.merge_for_save(&saved);
    m2.commit_save();
    assert_eq!(resaved, vec![String::from("eve e1 10 0 20 0 0 0 0")]);
    let mut m3 = SessionManager::new(String::new());
    let base = rest_of(&resaved[0]);
    assert_eq!(m3.auth("eve", "e1", Some(base), 30).unwrap_err(), "Authentication failed.");
}

#[test]
fn failed_save_leaves_the_overlays_for_retry() {
    // The pipeline aborts before the rename on an export or import error;
    // the overlays are only cleared by the commit after the swap.
    let mut m = SessionManager::new(String::new());
    m.create_user("pat", "pw", None, 5).expect("create");
    let _ = m.merge_for_save(&Vec::new());
    assert!(m.overlay_dirty());
    let merged_again = m.merge_for_save(&Vec::new());
    assert_eq!(merged_again.len(), 1);
    m.commit_save();
    assert!(!m.overlay_dirty());
}

#[test]
fn lockout_state_survives_a_save_cycle() {
    let mut m = SessionManager::new(String::new());
    m.create_user("carol", "right", None, 100).expect("create");
    for i in 0..5 {
        assert!(m.auth("carol", "wrong", None, 101 + i).is_err());
    }
    let merged = m.merge_for_save(&Vec::new());
    m.commit_save();
    let mut m2 = SessionManager::new(String::new());
    let base = rest_of(&merged[0]);
    assert_eq!(
        m2.auth("carol", "right", Some(base), 200).unwrap_err(),
        "Authentication failed."
    );
}
