use hellcall_core::ai::AiSessionSummary;
use hellcall_core::errors::format_and_log_error;
use hellcall_core::sessions::{
    count_events, event_lines, maybe_promote_title, new_session_title, session_not_found_message,
    session_id_at, sort_sessions, validate_session_id,
};

fn summary(id: &str, updated_at_ms: u64) -> AiSessionSummary {
    AiSessionSummary {
        id: id.to_string(),
        title: "New Session".to_string(),
        created_at_ms: 0,
        updated_at_ms,
        message_count: 0,
    }
}

#[test]
fn new_sessions_get_a_trimmed_title() {
    assert_eq!(new_session_title(None), "New Session");
    assert_eq!(new_session_title(Some("  ".to_string())), "New Session");
    assert_eq!(new_session_title(Some(" Drop ".to_string())), "Drop");
}

#[test]
fn untitled_sessions_take_their_first_message_as_title() {
    assert_eq!(maybe_promote_title("New Session", "  call in a strike "), Some("call in a strike".to_string()));
    assert_eq!(maybe_promote_title("Named", "call in a strike"), None);
    assert_eq!(maybe_promote_title("New Session", " \n "), None);
    let long = "abcdefghijklmnopqrstuvwxyz0123456789";
    assert_eq!(
        maybe_promote_title("New Session", long),
        Some("abcdefghijklmnopqrstuvwxyz01...".to_string())
    );
    let exact = "abcdefghijklmnopqrstuvwxyz01";
    assert_eq!(maybe_promote_title("New Session", exact), Some(exact.to_string()));
    assert_eq!(
        maybe_promote_title("New Session", "快速开火快速开火快速开火快速开火快速开火快速开火快速开火快"),
        Some("快速开火快速开火快速开火快速开火快速开火快速开火快速开火...".to_string())
    );
}

#[test]
fn session_ids_are_checked() {
    assert_eq!(validate_session_id(" s-1 "), Ok("s-1".to_string()));
    for bad in ["", "  ", "../x", "a/b", "a\\b", "a..b"] {
        assert_eq!(validate_session_id(bad), Err("Invalid AI session ID.".to_string()), "{}", bad);
    }
    assert_eq!(session_not_found_message("s-1"), "AI session 's-1' was not found.");
}

#[test]
fn event_logs_count_their_nonblank_lines() {
    let log = "{\"a\":1}\n\n  \r\n{\"b\":2}\r\n{\"c\":3}";
    assert_eq!(count_events(log), 3);
    assert_eq!(event_lines(log), vec!["{\"a\":1}".to_string(), "{\"b\":2}".to_string(), "{\"c\":3}".to_string()]);
    assert_eq!(count_events(""), 0);
    assert!(event_lines("\n\n").is_empty());
}

#[test]
fn sessions_are_sorted_newest_first_and_stably() {
    let sorted = sort_sessions(vec![summary("a", 5), summary("b", 9), summary("c", 5), summary("d", 1), summary("e", 9)]);
    let ids: Vec<&str> = sorted.iter().map(|s| s.id.as_str()).collect();
    assert_eq!(ids, vec!["b", "e", "a", "c", "d"]);
    assert!(sort_sessions(vec![]).is_empty());
}

#[test]
fn error_messages_carry_the_display_text() {
    assert_eq!(format_and_log_error("Failed to load", "disk full"), "Failed to load: disk full");
    assert_eq!(format_and_log_error("Code", 42), "Code: 42");
}

#[test]
fn session_ids_carry_the_creation_time() {
    assert_eq!(session_id_at(1700000000123), "session-1700000000123");
    assert_eq!(session_id_at(0), "session-0");
}
