use thermostatd::bus::handle_message;
use thermostatd::decide::{arbitrate_overrides, commit_call};
use thermostatd::hvac::HvacRequest;
use thermostatd::script::{
    issue_bad_time, issue_empty_table, parse_hhmm, pick_timed_program, step_error_publish,
    test_result_publish, IssueSet, ReloadOutcome, ScriptMonitor, ScriptStep,
};
use thermostatd::state::{ByteMap, CommonState};

#[test]
fn parse_hhmm_strict() {
    assert_eq!(parse_hhmm(b"00:00"), Some(0));
    assert_eq!(parse_hhmm(b"07:30"), Some(7 * 60 + 30));
    assert_eq!(parse_hhmm(b"23:59"), Some(23 * 60 + 59));
    assert_eq!(parse_hhmm(b"24:00"), None);
    assert_eq!(parse_hhmm(b"12:60"), None);
    assert_eq!(parse_hhmm(b"7:30"), None);
    assert_eq!(parse_hhmm(b"0730"), None);
    assert_eq!(parse_hhmm(b""), None);
}

/// The latest entry at or before the current time runs.
#[test]
fn timed_program_picks_latest_entry_before_now() {
    let keys = vec![b"06:00".to_vec(), b"08:30".to_vec(), b"22:00".to_vec()];
    // At 09:00 the 08:30 entry is the latest one that has started.
    assert_eq!(pick_timed_program(&keys, 9 * 60), Some(1));
    // At exactly 08:30 that entry has started.
    assert_eq!(pick_timed_program(&keys, 8 * 60 + 30), Some(1));
    // At 23:00 the late entry runs.
    assert_eq!(pick_timed_program(&keys, 23 * 60), Some(2));
}

/// Before the first entry of the day, the program wraps to the latest
/// entry overall.
#[test]
fn timed_program_wraps_past_midnight() {
    let keys = vec![b"06:00".to_vec(), b"22:00".to_vec()];
    assert_eq!(pick_timed_program(&keys, 5 * 60), Some(1));
}

/// Malformed keys are skipped; an all-malformed table selects nothing.
#[test]
fn timed_program_skips_malformed_keys() {
    let keys = vec![b"soon".to_vec(), b"06:00".to_vec()];
    assert_eq!(pick_timed_program(&keys, 12 * 60), Some(1));
    let bad = vec![b"soon".to_vec(), b"later".to_vec()];
    assert_eq!(pick_timed_program(&bad, 12 * 60), None);
    let empty: Vec<Vec<u8>> = Vec::new();
    assert_eq!(pick_timed_program(&empty, 12 * 60), None);
}

/// With duplicate times, the later table entry wins, as a map keyed by
/// time would make it.
#[test]
fn timed_program_later_duplicate_wins() {
    let keys = vec![b"06:00".to_vec(), b"06:00".to_vec()];
    assert_eq!(pick_timed_program(&keys, 12 * 60), Some(1));
}

#[test]
fn issue_texts() {
    assert_eq!(
        issue_bad_time(3, b"morning"),
        b"[src:3] Timed program keys must be in 'HH:MM' format. Found morning".to_vec()
    );
    assert_eq!(issue_empty_table(-1), b"[src:-1] Empty program table".to_vec());
}

#[test]
fn issue_set_dedups_and_sorts() {
    let mut issues = IssueSet::new();
    issues.add(b"two".to_vec());
    issues.add(b"one".to_vec());
    issues.add(b"two".to_vec());
    issues.add(b"three".to_vec());
    assert_eq!(issues.len(), 3);
    // Issues read back in lexicographic order, however they arrived.
    assert_eq!(issues.issue_at(0), &b"one".to_vec());
    assert_eq!(issues.issue_at(1), &b"three".to_vec());
    assert_eq!(issues.issue_at(2), &b"two".to_vec());
    assert!(issues.contains(b"one"));
    assert!(!issues.contains(b"four"));
    issues.clear();
    assert_eq!(issues.len(), 0);
}

/// A reload that fails at any step leaves the previous script active; a
/// completed one activates the new version.
#[test]
fn reload_atomicity() {
    let mut m = ScriptMonitor::new();
    let p = m.observe_reload(100, &ReloadOutcome::Loaded);
    assert_eq!(m.active_version_ms, Some(100));
    assert_eq!(p.payload, b"{\"success\":true}".to_vec());
    assert!(p.retained);

    // A syntax error in the next text is reported and the old version
    // keeps serving.
    let p = m.observe_reload(200, &ReloadOutcome::TestFailed(b"syntax error".to_vec()));
    assert_eq!(m.active_version_ms, Some(100));
    assert_eq!(m.last_version_ms, 200);
    assert_eq!(p.topic, b"home/thermostatd/script/error".to_vec());
    assert_eq!(
        p.payload,
        b"{\"error\":\"syntax error\",\"error_at\":\"test_script\",\"success\":false}".to_vec()
    );
    assert!(p.retained);
    // The same version is not retried until the text changes again.
    assert!(!m.reload_needed(200));
    assert!(m.reload_needed(300));

    let p = m.observe_reload(300, &ReloadOutcome::InitFailed(b"boom".to_vec()));
    assert_eq!(m.active_version_ms, Some(100));
    assert_eq!(
        p.payload,
        b"{\"error\":\"boom\",\"error_at\":\"init_script\",\"success\":false}".to_vec()
    );
}

/// A broken replacement script is reported on the status topic and the
/// decision loop keeps emitting what the previous script decided.
#[test]
fn syntax_error_preserves_previous_behavior() {
    let mut state = CommonState::new();
    let mut monitor = ScriptMonitor::new();
    let probes: ByteMap<Vec<u8>> = ByteMap::new();

    // The active script loads cleanly and its verdict is heat.
    handle_message(&mut state, &probes, b"home/thermostatd/script/set", b"good script", 100);
    assert!(monitor.reload_needed(state.script.version_ms));
    monitor.observe_reload(state.script.version_ms, &ReloadOutcome::Loaded);
    let (call, _) = arbitrate_overrides(&mut state, 0);
    assert_eq!(call, None);
    commit_call(&mut state, HvacRequest::from_string(String::from("heat")));
    assert_eq!(state.last_call, HvacRequest::Heat);

    // A replacement with a syntax error is reported, retained, naming the
    // failing step; the previous version stays active.
    handle_message(
        &mut state,
        &probes,
        b"home/thermostatd/script/set",
        b"function evaluate(",
        200,
    );
    assert!(monitor.reload_needed(state.script.version_ms));
    let report = monitor.observe_reload(
        state.script.version_ms,
        &ReloadOutcome::TestFailed(b"unexpected end of input".to_vec()),
    );
    assert_eq!(report.topic, b"home/thermostatd/script/error".to_vec());
    assert!(report.retained);
    assert_eq!(
        report.payload,
        b"{\"error\":\"unexpected end of input\",\"error_at\":\"test_script\",\"success\":false}"
            .to_vec()
    );
    assert_eq!(monitor.active_version_ms, Some(100));

    // The next cycles keep emitting heat.
    let (call, _) = arbitrate_overrides(&mut state, 10);
    assert_eq!(call, None);
    let keep_alive = commit_call(&mut state, HvacRequest::from_string(String::from("heat")));
    assert_eq!(keep_alive.payload, b"heat".to_vec());
    assert_eq!(state.last_call, HvacRequest::Heat);
}

#[test]
fn step_error_payloads_escape_text() {
    let p = step_error_publish(ScriptStep::Evaluate, b"bad \"quote\"\\path");
    assert_eq!(
        p.payload,
        b"{\"error\":\"bad \\\"quote\\\"\\\\path\",\"error_at\":\"evaluate_script\",\"success\":false}"
            .to_vec()
    );
    let p = step_error_publish(ScriptStep::Tick, b"\x01");
    assert_eq!(
        p.payload,
        b"{\"error\":\"\\u0001\",\"error_at\":\"tick_script\",\"success\":false}".to_vec()
    );
}

#[test]
fn test_result_payloads() {
    let ok = test_result_publish(None);
    assert_eq!(ok.topic, b"home/thermostatd/script/test/error".to_vec());
    assert_eq!(ok.payload, b"{\"success\":true}".to_vec());
    assert!(!ok.retained);
    let err = test_result_publish(Some(&b"oops".to_vec()));
    assert_eq!(err.payload, b"{\"error\":\"oops\",\"success\":false}".to_vec());
}
