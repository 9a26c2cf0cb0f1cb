use neos_proxy::cache::AbridgedUser;
use neos_proxy::profile::{PatreonData, Profile, User};
use neos_proxy::register::{counter_step, greeting, init_time_set, option_to_string, parse_i64};
use neos_proxy::report::{
    collect_headed_names, format_session_entry, host_suffix, render_session_report, session_line,
    user_report, username_entry,
};
use neos_proxy::session::{Session, SessionUser, SessionWithHostInfo};
use neos_proxy::time::Timestamp;

fn ts(year: u16, month: u8, day: u8, hour: u8, minute: u8, second: u8) -> Timestamp {
    Timestamp { year, month, day, hour, minute, second }
}

fn user(username: &str, user_id: Option<&str>, is_present: bool) -> SessionUser {
    SessionUser {
        username: username.to_string(),
        user_id: user_id.map(|s| s.to_string()),
        is_present,
    }
}

fn session(
    name: Option<&str>,
    host_user_id: Option<&str>,
    host_username: &str,
    headless: bool,
    users: Vec<SessionUser>,
) -> Session {
    Session {
        name: name.map(|s| s.to_string()),
        description: None,
        corresponding_world_id: None,
        tags: Vec::new(),
        session_id: "S-1".to_string(),
        normalized_session_id: "s-1".to_string(),
        host_user_id: host_user_id.map(|s| s.to_string()),
        host_machine_id: "M-1".to_string(),
        host_username: host_username.to_string(),
        compatibility_hash: "hash".to_string(),
        universe_id: None,
        neos_version: "2021.6.1".to_string(),
        headless_host: headless,
        session_urls: Vec::new(),
        session_users: users,
        thumbnail: None,
        joined_users: 5,
        active_users: 3,
        max_users: 16,
        mobile_friendly: false,
        session_begin_time: ts(2021, 6, 1, 0, 0, 0),
        last_update: ts(2021, 6, 1, 0, 1, 0),
        away_since: None,
        access_level: "Anyone".to_string(),
        has_ended: false,
        is_valid: true,
    }
}

#[test]
fn formatter_literal_example() {
    let s = session(Some("MTC Intro"), Some("u1"), "Bob", false, vec![user("Bob", Some("u1"), true)]);
    let now = ts(2021, 6, 1, 0, 1, 35);
    let suffix = host_suffix("2021-01-02", false, true, &None);
    assert_eq!(suffix, " 2021-01-02 mentor");
    let line = session_line(&s, &now, suffix.as_str());
    assert_eq!(line, "Bob (MTC Intro<b></closeall>) (3/5) 1:35 2021-01-02 mentor");
}

#[test]
fn line_without_name_or_suffix() {
    let s = session(None, None, "Ann", false, Vec::new());
    let now = ts(2021, 6, 1, 0, 10, 5);
    let line = session_line(&s, &now, "");
    assert_eq!(line, "Ann (<b></closeall>) (3/5) 10:05");
}

#[test]
fn line_pads_seconds_to_two_digits() {
    let s = session(Some("Training"), None, "Ann", false, Vec::new());
    let now = ts(2021, 6, 1, 1, 1, 5);
    let line = session_line(&s, &now, "");
    assert_eq!(line, "Ann (Training<b></closeall>) (3/5) 61:05");
}

#[test]
fn suffix_with_patron_and_device() {
    let suffix = host_suffix("2020-05-06", true, false, &Some("Screen".to_string()));
    assert_eq!(suffix, " 2020-05-06 patron Screen");
}

#[test]
fn report_sorts_by_begin_time_descending() {
    let items = vec![(100i64, "older".to_string()), (200i64, "newer".to_string())];
    assert_eq!(render_session_report(items, false), "Xnewer\nolder");
}

#[test]
fn report_marker_reflects_notification() {
    let items = vec![(100i64, "only".to_string())];
    assert_eq!(render_session_report(items, true), "Nonly");
    assert_eq!(render_session_report(Vec::new(), false), "X");
}

#[test]
fn entry_key_is_begin_time_and_line_has_no_suffix_without_host() {
    let s = session(Some("MTC"), None, "Ann", false, Vec::new());
    let with_info = SessionWithHostInfo { session: s, host_info: None };
    let now = ts(2021, 6, 1, 0, 1, 35);
    let (key, line) = format_session_entry(&with_info, &now, &None);
    assert_eq!(key, ts(2021, 6, 1, 0, 0, 0).to_abs_secs());
    assert_eq!(line, "Ann (MTC<b></closeall>) (3/5) 1:35");
}

#[test]
fn entry_line_annotates_resolved_host() {
    let s = session(Some("MTC"), Some("u1"), "Ann", false, Vec::new());
    let info = AbridgedUser {
        registration_date: ts(2021, 1, 2, 0, 0, 0),
        is_patron: true,
        is_mentor: false,
        cache_time: ts(2021, 6, 1, 0, 0, 0),
    };
    let with_info = SessionWithHostInfo { session: s, host_info: Some(info) };
    let now = ts(2021, 6, 1, 0, 1, 35);
    let (_, line) = format_session_entry(&with_info, &now, &Some("VR".to_string()));
    assert!(line.starts_with("Ann (MTC<b></closeall>) (3/5) 1:35 "));
    assert!(line.ends_with(" patron VR"));
}

#[test]
fn username_entry_marks_anonymous_users() {
    assert_eq!(username_entry(&user("Bob", Some("u1"), true)), "Bob");
    assert_eq!(username_entry(&user("Bob", None, true)), "?Bob");
}

#[test]
fn user_report_sorts_case_insensitively_and_dedups() {
    let names = vec!["Bob".to_string(), "alice".to_string(), "Bob".to_string()];
    assert_eq!(user_report(&names), "alice\nBob");
}

#[test]
fn user_report_orders_by_folded_names() {
    // With case folding "a" sorts before "B"; plain character order would
    // put "B" first.
    let names = vec!["B".to_string(), "a".to_string()];
    assert_eq!(user_report(&names), "a\nB");
}

#[test]
fn user_report_from_fetched_sessions() {
    let headless = session(
        None,
        Some("u1"),
        "Bot",
        true,
        vec![user("Bot", Some("u1"), true), user("zoe", Some("u2"), true)],
    );
    let headed = session(
        None,
        None,
        "Ann",
        false,
        vec![user("Ann", None, true), user("zoe", Some("u2"), false)],
    );
    let names = collect_headed_names(&vec![headless, headed]);
    assert_eq!(names, vec!["zoe".to_string(), "?Ann".to_string(), "zoe".to_string()]);
    assert_eq!(user_report(&names), "?Ann\nzoe");
}

#[test]
fn abridge_reads_patron_and_mentor_tags() {
    let profile_user = User {
        id: "u1".to_string(),
        username: "Bob".to_string(),
        normalized_username: "bob".to_string(),
        registration_date: ts(2021, 1, 2, 0, 0, 0),
        is_verified: true,
        quota_bytes: 0,
        is_locked: false,
        used_bytes: 0,
        profile: Some(Profile { icon_url: "x".to_string() }),
        patreon_data: None,
        tags: Some(vec!["neos mentor".to_string(), "other".to_string()]),
    };
    assert!(!profile_user.is_patron());
    let abridged = profile_user.abridge(ts(2021, 6, 1, 0, 0, 0));
    assert!(!abridged.is_patron);
    assert!(abridged.is_mentor);
    assert_eq!(abridged.registration_date, ts(2021, 1, 2, 0, 0, 0));
    assert_eq!(abridged.cache_time, ts(2021, 6, 1, 0, 0, 0));
}

#[test]
fn mentor_tag_is_case_sensitive() {
    let profile_user = User {
        id: "u1".to_string(),
        username: "Bob".to_string(),
        normalized_username: "bob".to_string(),
        registration_date: ts(2021, 1, 2, 0, 0, 0),
        is_verified: false,
        quota_bytes: 0,
        is_locked: false,
        used_bytes: 0,
        profile: None,
        patreon_data: None,
        tags: Some(vec!["Neos Mentor".to_string()]),
    };
    assert!(!profile_user.abridge(ts(2021, 6, 1, 0, 0, 0)).is_mentor);
}

#[test]
fn patron_flag_comes_from_patreon_record() {
    let data = PatreonData {
        is_patreon_supporter: true,
        last_patreon_pledge_cents: 0,
        last_total_cents: 0,
        last_total_units: 0,
        minimum_total_units: 0,
        external_cents: 0,
        last_external_cents: 0,
        has_supported: true,
        last_is_anorak: false,
        priority_issue: 0,
        last_plus_activation_time: String::new(),
        last_activation_time: String::new(),
        last_plus_pledge_amount: 0,
        last_paid_pledge_amount: 0,
        account_name: String::new(),
        current_account_type: 0,
        current_account_cents: 0,
        pledged_account_type: 0,
    };
    let profile_user = User {
        id: "u1".to_string(),
        username: "Bob".to_string(),
        normalized_username: "bob".to_string(),
        registration_date: ts(2021, 1, 2, 0, 0, 0),
        is_verified: false,
        quota_bytes: 0,
        is_locked: false,
        used_bytes: 0,
        profile: None,
        patreon_data: Some(data),
        tags: None,
    };
    assert!(profile_user.is_patron());
}

#[test]
fn registers_report_plainly() {
    assert_eq!(option_to_string(Some(100)), "Some(100)");
    assert_eq!(option_to_string(Some(-7)), "Some(-7)");
    assert_eq!(option_to_string(None), "None");
    assert_eq!(counter_step(None), Some(0));
    assert_eq!(counter_step(Some(41)), Some(42));
    assert_eq!(init_time_set(None, 100), (Some(100), 100));
    assert_eq!(init_time_set(Some(7), 100), (Some(7), 7));
    assert_eq!(greeting("warp"), "Hello, warp!");
}

#[test]
fn parse_i64_accepts_signed_decimal_text() {
    assert_eq!(parse_i64("100"), Some(100));
    assert_eq!(parse_i64("-7"), Some(-7));
    assert_eq!(parse_i64("+42"), Some(42));
    assert_eq!(parse_i64("0"), Some(0));
    assert_eq!(parse_i64("9223372036854775807"), Some(i64::MAX));
    assert_eq!(parse_i64("-9223372036854775808"), Some(i64::MIN));
}

#[test]
fn parse_i64_refuses_everything_else() {
    assert_eq!(parse_i64(""), None);
    assert_eq!(parse_i64("-"), None);
    assert_eq!(parse_i64("+"), None);
    assert_eq!(parse_i64("12a"), None);
    assert_eq!(parse_i64(" 12"), None);
    assert_eq!(parse_i64("9223372036854775808"), None);
    assert_eq!(parse_i64("-9223372036854775809"), None);
    assert_eq!(parse_i64("184467440737095516150"), None);
}

#[test]
fn line_with_clock_skew_keeps_truncated_negative_uptime() {
    let mut s = session(None, None, "Ann", false, Vec::new());
    s.session_begin_time = ts(2021, 6, 1, 0, 1, 35);
    let now = ts(2021, 6, 1, 0, 0, 0);
    let line = session_line(&s, &now, "");
    assert_eq!(line, "Ann (<b></closeall>) (3/5) -1:-35");
}
