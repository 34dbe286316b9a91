use racetyper::models::make_session_record;
use racetyper::session::{
    default_config, FetchResult, Session, SessionConfig, SessionMsg, SessionOutcome, SessionState,
};

fn config(nosplits: usize) -> SessionConfig {
    SessionConfig { nosplits, line_height: 75, line_wpm: 100, max_log_len: 100000 }
}

fn fetched(id: i32, body: &str) -> FetchResult {
    FetchResult::Found { id, body: body.as_bytes().to_vec() }
}

fn edit(change: Option<&str>, ts: Option<i64>, data: Option<&str>) -> SessionMsg {
    SessionMsg::Edit {
        change: change.map(|c| c.as_bytes().to_vec()),
        ts,
        data: data.map(|d| d.as_bytes().to_vec()),
    }
}

#[test]
fn default_constants() {
    let c = default_config();
    assert_eq!(c.nosplits, 20);
    assert_eq!(c.line_height, 75);
    assert_eq!(c.line_wpm, 100);
}

#[test]
fn refresh_assigns_text_and_resets_log() {
    let mut s = Session::new(config(2));
    let r = s.handle_message(SessionMsg::RequestText(fetched(7, "ab cd")));
    assert!(matches!(r, SessionOutcome::TextAssigned));
    assert_eq!(s.state, SessionState::Active);
    assert_eq!(s.text_id, 7);
    assert_eq!(s.text, b"ab cd".to_vec());
    assert!(s.input_buffer.is_empty());
}

#[test]
fn refresh_store_failure_changes_nothing() {
    let mut s = Session::new(config(2));
    let r = s.handle_message(SessionMsg::RequestText(FetchResult::Unavailable));
    assert!(matches!(r, SessionOutcome::StoreUnavailable));
    assert_eq!(s.state, SessionState::AwaitingText);
    assert_eq!(s.text_id, -1);
}

#[test]
fn edit_before_text_is_a_violation() {
    let mut s = Session::new(config(2));
    let r = s.handle_message(edit(Some("insertText"), Some(10), Some("a")));
    assert!(matches!(r, SessionOutcome::Violation));
    assert!(s.input_buffer.is_empty());
}

#[test]
fn complete_before_text_is_a_violation() {
    let mut s = Session::new(config(2));
    let r = s.handle_message(SessionMsg::Complete);
    assert!(matches!(r, SessionOutcome::Violation));
    assert_eq!(s.state, SessionState::AwaitingText);
}

#[test]
fn malformed_change_is_dropped_and_later_events_append() {
    let mut s = Session::new(config(2));
    s.handle_message(SessionMsg::RequestText(fetched(1, "ab cd")));
    // missing kind
    let r = s.handle_message(edit(None, Some(10), Some("a")));
    assert!(matches!(r, SessionOutcome::DroppedMissingChange));
    assert!(s.input_buffer.is_empty());
    // missing timestamp
    let r = s.handle_message(edit(Some("insertText"), None, Some("a")));
    assert!(matches!(r, SessionOutcome::DroppedMissingTs));
    assert!(s.input_buffer.is_empty());
    // a valid event still appends afterwards
    let r = s.handle_message(edit(Some("insertText"), Some(10), Some("a")));
    assert!(matches!(r, SessionOutcome::Appended));
    assert_eq!(s.input_buffer.len(), 1);
    assert_eq!(s.input_buffer[0].ts, 10);
    assert_eq!(s.input_buffer[0].change, b"insertText".to_vec());
    assert_eq!(s.input_buffer[0].data, Some(b"a".to_vec()));
}

#[test]
fn log_cap_drops_overflowing_events() {
    let mut s = Session::new(SessionConfig {
        nosplits: 1,
        line_height: 75,
        line_wpm: 100,
        max_log_len: 1,
    });
    s.handle_message(SessionMsg::RequestText(fetched(1, "ab")));
    assert!(matches!(
        s.handle_message(edit(Some("insertText"), Some(10), Some("a"))),
        SessionOutcome::Appended
    ));
    assert!(matches!(
        s.handle_message(edit(Some("insertText"), Some(20), Some("b"))),
        SessionOutcome::LogFull
    ));
    assert_eq!(s.input_buffer.len(), 1);
}

#[test]
fn done_before_any_change_yields_unmeasured_result() {
    let mut s = Session::new(config(2));
    s.handle_message(SessionMsg::RequestText(fetched(3, "ab cd")));
    let r = s.handle_message(SessionMsg::Complete);
    match r {
        SessionOutcome::Completed { points, wpm, parent } => {
            assert_eq!(points.len(), 2);
            for p in &points {
                assert_eq!(p.time, -1);
                assert_eq!(p.nomistakes, -1);
                assert_eq!(p.wpm, -1);
                assert_eq!(p.rel, 0);
            }
            assert_eq!(wpm, 0);
            assert_eq!(parent, 3);
        },
        other => panic!("expected a completed analysis, got {:?}", other),
    }
    assert_eq!(s.state, SessionState::Completed);
    // the synthesized sentinel is the only logged event, at timestamp zero
    assert_eq!(s.input_buffer.len(), 1);
    assert_eq!(s.input_buffer[0].ts, 0);
    assert_eq!(s.input_buffer[0].data, Some(b"\0".to_vec()));
}

#[test]
fn full_session_flow_produces_graph_and_record() {
    let mut s = Session::new(config(2));
    s.handle_message(SessionMsg::RequestText(fetched(9, "ab cd")));
    let keys = [("a", 1000), ("b", 2000), (" ", 3000), ("c", 4000), ("d", 5000)];
    for (k, ts) in keys {
        let r = s.handle_message(edit(Some("insertText"), Some(ts), Some(k)));
        assert!(matches!(r, SessionOutcome::Appended));
    }
    let r = s.handle_message(SessionMsg::Complete);
    match r {
        SessionOutcome::Completed { points, wpm, parent } => {
            assert_eq!(points.len(), 2);
            assert_eq!(points[0].text, b"ab".to_vec());
            assert_eq!(points[0].time, 3000);
            assert_eq!(points[0].nomistakes, 1);
            assert_eq!(points[0].wpm, 8);
            // the sentinel carries the last event's timestamp, 5000
            assert_eq!(points[1].time, 2000);
            assert_eq!(points[1].nomistakes, 1);
            assert_eq!(points[1].wpm, 12); // round(2 * 12000 / 2000)
            // whole session: 5 characters in 5000 ms, round(5 * 12000 / 5000)
            assert_eq!(wpm, 12);
            assert_eq!(parent, 9);
        },
        other => panic!("expected a completed analysis, got {:?}", other),
    }
    assert_eq!(s.state, SessionState::Completed);
    assert_eq!(s.input_buffer.len(), 6);
    // a second completion signal is now out of state
    assert!(matches!(s.handle_message(SessionMsg::Complete), SessionOutcome::Violation));
}

#[test]
fn done_on_short_text_fails_and_leaves_session_active() {
    let mut s = Session::new(config(5));
    s.handle_message(SessionMsg::RequestText(fetched(2, "one two")));
    s.handle_message(edit(Some("insertText"), Some(10), Some("o")));
    let r = s.handle_message(SessionMsg::Complete);
    assert!(matches!(r, SessionOutcome::InsufficientWords));
    assert_eq!(s.state, SessionState::Active);
    // no sentinel was pushed: the session is exactly as before
    assert_eq!(s.input_buffer.len(), 1);
}

#[test]
fn closed_session_ignores_everything() {
    let mut s = Session::new(config(2));
    s.handle_message(SessionMsg::RequestText(fetched(1, "ab cd")));
    s.handle_message(SessionMsg::ConnectionClosed);
    assert_eq!(s.state, SessionState::Closed);
    assert!(s.input_buffer.is_empty());
    assert!(s.text.is_empty());
    assert!(matches!(
        s.handle_message(SessionMsg::RequestText(fetched(1, "ab cd"))),
        SessionOutcome::Ignored
    ));
    assert!(matches!(
        s.handle_message(edit(Some("insertText"), Some(10), Some("a"))),
        SessionOutcome::Ignored
    ));
    assert!(matches!(s.handle_message(SessionMsg::Complete), SessionOutcome::Ignored));
    // closing is idempotent
    assert!(matches!(s.handle_message(SessionMsg::ConnectionClosed), SessionOutcome::Ignored));
}

#[test]
fn refresh_while_active_resets_the_session() {
    let mut s = Session::new(config(1));
    s.handle_message(SessionMsg::RequestText(fetched(1, "ab")));
    s.handle_message(edit(Some("insertText"), Some(10), Some("a")));
    assert_eq!(s.input_buffer.len(), 1);
    let r = s.handle_message(SessionMsg::RequestText(fetched(2, "cd")));
    assert!(matches!(r, SessionOutcome::TextAssigned));
    assert_eq!(s.text_id, 2);
    assert_eq!(s.text, b"cd".to_vec());
    assert!(s.input_buffer.is_empty());
}

#[test]
fn session_record_reserves_wpm80() {
    let rec = make_session_record("[]".to_string(), 42, 7);
    assert_eq!(rec.inputs, "[]");
    assert_eq!(rec.wpm, 42);
    assert_eq!(rec.wpm80, 0);
    assert_eq!(rec.parent, 7);
}
