use neos_proxy::cache::AbridgedUser;
use neos_proxy::session::{
    host_present, session_ids, session_interesting, Session, SessionIdSet, SessionUser,
    SessionWithHostInfo,
};
use neos_proxy::time::Timestamp;

fn ts(year: u16, month: u8, day: u8, hour: u8, minute: u8, second: u8) -> Timestamp {
    Timestamp { year, month, day, hour, minute, second }
}

fn user(username: &str, user_id: Option<&str>, is_present: bool) -> SessionUser {
    SessionUser {
        username: username.to_string(),
        user_id: user_id.map(|s| s.to_string()),
        is_present,
    }
}

fn session(
    name: Option<&str>,
    host_user_id: Option<&str>,
    host_username: &str,
    headless: bool,
    users: Vec<SessionUser>,
) -> Session {
    Session {
        name: name.map(|s| s.to_string()),
        description: None,
        corresponding_world_id: None,
        tags: Vec::new(),
        session_id: "S-1".to_string(),
        normalized_session_id: "s-1".to_string(),
        host_user_id: host_user_id.map(|s| s.to_string()),
        host_machine_id: "M-1".to_string(),
        host_username: host_username.to_string(),
        compatibility_hash: "hash".to_string(),
        universe_id: None,
        neos_version: "2021.6.1".to_string(),
        headless_host: headless,
        session_urls: Vec::new(),
        session_users: users,
        thumbnail: None,
        joined_users: 5,
        active_users: 3,
        max_users: 16,
        mobile_friendly: false,
        session_begin_time: ts(2021, 6, 1, 0, 0, 0),
        last_update: ts(2021, 6, 1, 0, 1, 0),
        away_since: None,
        access_level: "Anyone".to_string(),
        has_ended: false,
        is_valid: true,
    }
}

#[test]
fn host_present_matches_by_id_despite_username() {
    let s = session(
        None,
        Some("u1"),
        "HostName",
        false,
        vec![user("SomebodyElse", Some("u1"), true)],
    );
    assert!(host_present(&s));
}

#[test]
fn host_present_needs_presence() {
    let s = session(
        None,
        Some("u1"),
        "HostName",
        false,
        vec![user("SomebodyElse", Some("u1"), false)],
    );
    assert!(!host_present(&s));
}

#[test]
fn host_present_falls_back_to_username() {
    let s = session(None, None, "HostName", false, vec![user("HostName", None, true)]);
    assert!(host_present(&s));
    let other = session(None, None, "HostName", false, vec![user("Visitor", None, true)]);
    assert!(!host_present(&other));
}

#[test]
fn headless_host_entry_is_dropped() {
    let s = session(
        None,
        Some("u1"),
        "HeadlessBot",
        true,
        vec![user("HeadlessBot", Some("u1"), true), user("Visitor", Some("u2"), true)],
    );
    let names: Vec<String> = s.headed_users().into_iter().map(|u| u.username).collect();
    assert_eq!(names, vec!["Visitor".to_string()]);
}

#[test]
fn headed_host_entry_is_kept() {
    let s = session(
        None,
        Some("u1"),
        "RealHost",
        false,
        vec![user("RealHost", Some("u1"), true), user("Visitor", Some("u2"), true)],
    );
    let names: Vec<String> = s.headed_users().into_iter().map(|u| u.username).collect();
    assert_eq!(names, vec!["RealHost".to_string(), "Visitor".to_string()]);
}

fn old_host() -> Option<AbridgedUser> {
    Some(AbridgedUser {
        registration_date: ts(2019, 1, 1, 0, 0, 0),
        is_patron: false,
        is_mentor: false,
        cache_time: ts(2021, 6, 1, 0, 0, 0),
    })
}

fn fresh_host() -> Option<AbridgedUser> {
    Some(AbridgedUser {
        registration_date: ts(2021, 5, 30, 0, 0, 0),
        is_patron: false,
        is_mentor: false,
        cache_time: ts(2021, 6, 1, 0, 0, 0),
    })
}

#[test]
fn recognized_world_name_is_interesting() {
    let now = ts(2021, 6, 2, 0, 0, 0);
    let s = session(
        Some("MTC Intro"),
        Some("u1"),
        "Host",
        false,
        vec![user("Host", Some("u1"), true)],
    );
    assert!(session_interesting(&s, &old_host(), &now));
}

#[test]
fn unrecognized_name_with_old_host_is_not_interesting() {
    let now = ts(2021, 6, 2, 0, 0, 0);
    let s = session(
        Some("Some Private World"),
        Some("u1"),
        "Host",
        false,
        vec![user("Host", Some("u1"), true)],
    );
    assert!(!session_interesting(&s, &old_host(), &now));
}

#[test]
fn fresh_host_is_interesting_whatever_the_name() {
    let now = ts(2021, 6, 2, 0, 0, 0);
    let s = session(
        Some("Some Private World"),
        Some("u1"),
        "Host",
        false,
        vec![user("Host", Some("u1"), true)],
    );
    assert!(session_interesting(&s, &fresh_host(), &now));
}

#[test]
fn unresolved_host_counts_as_new() {
    let now = ts(2021, 6, 2, 0, 0, 0);
    let s = session(
        Some("Some Private World"),
        Some("u1"),
        "Host",
        false,
        vec![user("Host", Some("u1"), true)],
    );
    assert!(session_interesting(&s, &None, &now));
}

#[test]
fn ended_or_empty_or_invalid_sessions_are_dropped() {
    let now = ts(2021, 6, 2, 0, 0, 0);
    let mut ended = session(Some("MTC"), Some("u1"), "Host", false, vec![user(
        "Host",
        Some("u1"),
        true,
    )]);
    ended.has_ended = true;
    assert!(!session_interesting(&ended, &None, &now));
    let mut empty = session(Some("MTC"), Some("u1"), "Host", false, vec![user(
        "Host",
        Some("u1"),
        true,
    )]);
    empty.active_users = 0;
    assert!(!session_interesting(&empty, &None, &now));
    let mut invalid = session(Some("MTC"), Some("u1"), "Host", false, vec![user(
        "Host",
        Some("u1"),
        true,
    )]);
    invalid.is_valid = false;
    assert!(!session_interesting(&invalid, &None, &now));
}

#[test]
fn notification_marks_new_ids_only() {
    let mut known = SessionIdSet::new();
    assert!(known.update(vec!["a".to_string(), "b".to_string()]));
    assert!(!known.update(vec!["a".to_string(), "b".to_string()]));
    assert!(known.update(vec!["a".to_string(), "b".to_string(), "c".to_string()]));
    assert!(!known.update(vec!["c".to_string()]));
    assert!(known.update(vec!["a".to_string()]));
}

#[test]
fn empty_poll_raises_nothing() {
    let mut known = SessionIdSet::new();
    assert!(!known.update(Vec::new()));
}

#[test]
fn session_ids_collects_in_order() {
    let mut a = session(None, None, "h", false, Vec::new());
    a.session_id = "S-a".to_string();
    let mut b = session(None, None, "h", false, Vec::new());
    b.session_id = "S-b".to_string();
    let with_info = vec![
        SessionWithHostInfo { session: a, host_info: None },
        SessionWithHostInfo { session: b, host_info: None },
    ];
    assert_eq!(session_ids(&with_info), vec!["S-a".to_string(), "S-b".to_string()]);
}
