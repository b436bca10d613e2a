use thermostatd::bus::{
    handle_message, hydrate_oneshot_override, hydrate_script, hydrate_timed_override, Effect,
};
use thermostatd::hvac::HvacRequest;
use thermostatd::state::{ByteMap, CommonState, Reading};
use thermostatd::temp::Temp;

fn no_probes() -> ByteMap<Vec<u8>> {
    ByteMap::new()
}

#[test]
fn mode_message_sets_mode() {
    let mut s = CommonState::new();
    let effects = handle_message(&mut s, &no_probes(), b"home/thermostat/hvac/mode", b"cool", 0);
    assert!(effects.is_empty());
    assert_eq!(s.mode, HvacRequest::Cool);
    // An unreadable payload changes nothing.
    handle_message(&mut s, &no_probes(), b"home/thermostat/hvac/mode", b"warm", 0);
    assert_eq!(s.mode, HvacRequest::Cool);
}

#[test]
fn remotestate_records_last_call() {
    let mut s = CommonState::new();
    handle_message(&mut s, &no_probes(), b"home/thermostat/hvac/remotestate", b"heat", 0);
    assert_eq!(s.last_call, HvacRequest::Heat);
}

#[test]
fn script_set_persists_and_republishes() {
    let mut s = CommonState::new();
    let effects = handle_message(
        &mut s,
        &no_probes(),
        b"home/thermostatd/script/set",
        b"function evaluate(s) return 'cool' end",
        42,
    );
    assert_eq!(s.script.text, b"function evaluate(s) return 'cool' end".to_vec());
    assert_eq!(s.script.version_ms, 42);
    assert_eq!(effects.len(), 2);
    match &effects[0] {
        Effect::StoreSet { key, value } => {
            assert_eq!(key, &b"thermostatd.script".to_vec());
            assert_eq!(value, &b"function evaluate(s) return 'cool' end".to_vec());
        },
        other => panic!("unexpected effect {:?}", other),
    }
    match &effects[1] {
        Effect::Publish(p) => {
            assert_eq!(p.topic, b"home/thermostatd/script".to_vec());
            assert!(p.retained);
        },
        other => panic!("unexpected effect {:?}", other),
    }
}

#[test]
fn script_set_rejects_bad_utf8() {
    let mut s = CommonState::new();
    let effects =
        handle_message(&mut s, &no_probes(), b"home/thermostatd/script/set", &[0xff, 0xfe], 42);
    assert_eq!(s.script.version_ms, 0);
    assert_eq!(effects.len(), 1);
    match &effects[0] {
        Effect::Publish(p) => {
            assert_eq!(p.topic, b"home/thermostatd/script/error".to_vec());
            assert_eq!(p.payload, b"{\"error\":\"Utf8Error\",\"success\":false}".to_vec());
            assert!(p.retained);
        },
        other => panic!("unexpected effect {:?}", other),
    }
}

#[test]
fn script_get_publishes_text() {
    let mut s = CommonState::new();
    s.script.text = b"return 1".to_vec();
    let effects = handle_message(&mut s, &no_probes(), b"home/thermostatd/script/get", b"", 0);
    assert_eq!(effects.len(), 1);
    match &effects[0] {
        Effect::Publish(p) => {
            assert_eq!(p.topic, b"home/thermostatd/script".to_vec());
            assert_eq!(p.payload, b"return 1".to_vec());
            assert!(p.retained);
        },
        other => panic!("unexpected effect {:?}", other),
    }
}

#[test]
fn script_test_requests_dry_run() {
    let mut s = CommonState::new();
    let effects =
        handle_message(&mut s, &no_probes(), b"home/thermostatd/script/test", b"return 2", 0);
    assert_eq!(effects.len(), 1);
    match &effects[0] {
        Effect::TestScript { text } => assert_eq!(text, &b"return 2".to_vec()),
        other => panic!("unexpected effect {:?}", other),
    }
}

/// A timed-override set round-trips through the state: the get publishes
/// exactly the canonical JSON the set stored.
#[test]
fn timed_override_set_then_get_round_trips() {
    let mut s = CommonState::new();
    let payload = b"{\"command\":\"heat\",\"expiration\":\"2099-01-01T00:00:00.000Z\"}";
    let effects = handle_message(
        &mut s,
        &no_probes(),
        b"home/thermostatd/timed_override/set",
        payload,
        0,
    );
    assert_eq!(effects.len(), 2);
    match &effects[0] {
        Effect::StoreSet { key, value } => {
            assert_eq!(key, &b"thermostatd.timed_override".to_vec());
            assert_eq!(value, &payload.to_vec());
        },
        other => panic!("unexpected effect {:?}", other),
    }
    match &effects[1] {
        Effect::Publish(p) => {
            assert_eq!(p.topic, b"home/thermostatd/timed_override".to_vec());
            assert_eq!(p.payload, payload.to_vec());
            assert!(p.retained);
        },
        other => panic!("unexpected effect {:?}", other),
    }

    let effects = handle_message(
        &mut s,
        &no_probes(),
        b"home/thermostatd/timed_override/get",
        b"",
        1,
    );
    assert_eq!(effects.len(), 1);
    match &effects[0] {
        Effect::Publish(p) => {
            assert_eq!(p.payload, payload.to_vec());
        },
        other => panic!("unexpected effect {:?}", other),
    }
}

#[test]
fn timed_override_set_error_is_reported() {
    let mut s = CommonState::new();
    let effects = handle_message(
        &mut s,
        &no_probes(),
        b"home/thermostatd/timed_override/set",
        b"{\"command\":\"heat\"}",
        0,
    );
    assert!(s.timed_override.is_none());
    assert_eq!(effects.len(), 1);
    match &effects[0] {
        Effect::Publish(p) => {
            assert_eq!(p.topic, b"home/thermostatd/timed_override/error".to_vec());
            assert_eq!(
                p.payload,
                b"{\"error\":\"OverrideParseError\",\"success\":false}".to_vec()
            );
            assert!(p.retained);
        },
        other => panic!("unexpected effect {:?}", other),
    }
}

#[test]
fn oneshot_override_set_updates_state() {
    let mut s = CommonState::new();
    let payload =
        b"{\"command\":\"cool\",\"comparison\":\"less\",\"setpoint\":20.5,\"probe\":\"primary\"}";
    let effects = handle_message(
        &mut s,
        &no_probes(),
        b"home/thermostatd/oneshot_override/set",
        payload,
        0,
    );
    assert_eq!(effects.len(), 2);
    let o = s.oneshot_override.as_ref().unwrap();
    assert_eq!(o.setpoint, Temp { milli: 20500 });
    assert_eq!(o.probe, b"primary".to_vec());
}

#[test]
fn probe_reading_updates_cache() {
    let mut s = CommonState::new();
    let mut probes = ByteMap::new();
    probes.insert(b"home/thermostat/temp".to_vec(), b"primary".to_vec());
    let effects = handle_message(&mut s, &probes, b"home/thermostat/temp", b"20.5", 7);
    assert!(effects.is_empty());
    assert_eq!(
        s.probe_values.get(b"primary"),
        Some(&Reading { temp: Temp { milli: 20500 }, at_ms: 7 })
    );
    // A sensor publishing sixteenth-degree steps keeps updating the cache.
    handle_message(&mut s, &probes, b"home/thermostat/temp", b"20.0625", 8);
    assert_eq!(
        s.probe_values.get(b"primary"),
        Some(&Reading { temp: Temp { milli: 20062 }, at_ms: 8 })
    );
    // An unreadable reading is skipped.
    handle_message(&mut s, &probes, b"home/thermostat/temp", b"warm", 9);
    assert_eq!(
        s.probe_values.get(b"primary"),
        Some(&Reading { temp: Temp { milli: 20062 }, at_ms: 8 })
    );
}

#[test]
fn retained_topics_capture_payloads() {
    let mut s = CommonState::new();
    s.retained_keys.insert(b"home/some/topic".to_vec(), Vec::new());
    handle_message(&mut s, &no_probes(), b"home/some/topic", b"hello", 0);
    assert_eq!(s.retained_keys.get(b"home/some/topic"), Some(&b"hello".to_vec()));
    // A payload that is not UTF-8 is not captured.
    handle_message(&mut s, &no_probes(), b"home/some/topic", &[0xff, 0xfe], 0);
    assert_eq!(s.retained_keys.get(b"home/some/topic"), Some(&b"hello".to_vec()));
    // A topic the script never subscribed to is ignored.
    handle_message(&mut s, &no_probes(), b"home/other/topic", b"hello", 0);
    assert!(s.retained_keys.get(b"home/other/topic").is_none());
}

#[test]
fn hydrate_script_prefers_saved_text() {
    let mut s = CommonState::new();
    let p = hydrate_script(&mut s, Some(b"saved".to_vec()), b"default", 7);
    assert_eq!(s.script.text, b"saved".to_vec());
    assert_eq!(s.script.version_ms, 7);
    assert_eq!(p.payload, b"saved".to_vec());
    assert!(p.retained);

    let mut s2 = CommonState::new();
    let p2 = hydrate_script(&mut s2, None, b"default", 8);
    assert_eq!(s2.script.text, b"default".to_vec());
    assert_eq!(p2.payload, b"default".to_vec());
}

#[test]
fn hydrate_overrides_deletes_unreadable_records() {
    let mut s = CommonState::new();
    let effects = hydrate_timed_override(&mut s, Some(b"{bad json"));
    assert!(s.timed_override.is_none());
    assert_eq!(effects.len(), 2);
    match &effects[0] {
        Effect::StoreDel { key } => assert_eq!(key, &b"thermostatd.timed_override".to_vec()),
        other => panic!("unexpected effect {:?}", other),
    }
    match &effects[1] {
        Effect::Publish(p) => assert_eq!(p.payload, b"null".to_vec()),
        other => panic!("unexpected effect {:?}", other),
    }

    let effects = hydrate_oneshot_override(&mut s, Some(b"{bad json"));
    assert!(s.oneshot_override.is_none());
    assert_eq!(effects.len(), 1);
    match &effects[0] {
        Effect::StoreDel { key } => assert_eq!(key, &b"thermostatd.oneshot_override".to_vec()),
        other => panic!("unexpected effect {:?}", other),
    }
}

#[test]
fn hydrate_timed_adopts_saved_record() {
    let mut s = CommonState::new();
    let record = b"{\"command\":\"off\",\"expiration\":\"2099-01-01T00:00:00.000Z\"}";
    let effects = hydrate_timed_override(&mut s, Some(record));
    assert!(s.timed_override.is_some());
    assert_eq!(effects.len(), 1);
    match &effects[0] {
        Effect::Publish(p) => {
            assert_eq!(p.payload, record.to_vec());
            assert!(p.retained);
        },
        other => panic!("unexpected effect {:?}", other),
    }
}
