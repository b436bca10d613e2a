use thermostatd::bus::{handle_message, Effect};
use thermostatd::decide::{arbitrate_overrides, commit_call};
use thermostatd::hvac::HvacRequest;
use thermostatd::overrides::{OneshotOrdering, OneshotOverride, TimedOverride};
use thermostatd::state::{ByteMap, CommonState, Reading};
use thermostatd::temp::Temp;

fn state_with_probe(name: &[u8], milli: i64) -> CommonState {
    let mut s = CommonState::new();
    s.probe_values.insert(name.to_vec(), Reading { temp: Temp { milli }, at_ms: 0 });
    s
}

fn oneshot(command: HvacRequest, comparison: OneshotOrdering, milli: i64) -> OneshotOverride {
    OneshotOverride { command, comparison, setpoint: Temp { milli }, probe: b"primary".to_vec() }
}

/// A live timed override wins over the one-shot layer and the script.
#[test]
fn timed_override_precedence() {
    let mut s = state_with_probe(b"primary", 25000);
    s.timed_override = Some(TimedOverride { command: HvacRequest::Off, expiration_ms: 1000 });
    s.oneshot_override = Some(oneshot(HvacRequest::Cool, OneshotOrdering::Greater, 20000));
    let (call, effects) = arbitrate_overrides(&mut s, 500);
    assert_eq!(call, Some(HvacRequest::Off));
    assert!(effects.is_empty());
    assert!(s.timed_override.is_some());
    assert!(s.oneshot_override.is_some());
}

/// An expired timed override is cleared, republished as null, and the next
/// layer speaks.
#[test]
fn timed_override_expires() {
    let mut s = state_with_probe(b"primary", 25000);
    s.timed_override = Some(TimedOverride { command: HvacRequest::Off, expiration_ms: 1000 });
    let (call, effects) = arbitrate_overrides(&mut s, 2000);
    assert_eq!(call, None);
    assert!(s.timed_override.is_none());
    assert_eq!(effects.len(), 1);
    match &effects[0] {
        Effect::Publish(p) => {
            assert_eq!(p.topic, b"home/thermostatd/timed_override".to_vec());
            assert_eq!(p.payload, b"null".to_vec());
            assert!(p.retained);
        },
        other => panic!("unexpected effect {:?}", other),
    }
    // The next cycle no longer honors it.
    let (call2, effects2) = arbitrate_overrides(&mut s, 3000);
    assert_eq!(call2, None);
    assert!(effects2.is_empty());
}

/// A one-shot override holds its command while the goal is not reached and
/// clears, with a null republish, the first cycle the reading crosses it.
#[test]
fn oneshot_setpoint_reaches_goal() {
    // The probe ramps 22 -> 21 -> 20 against a (cool, less, 20.5) override.
    let mut s = state_with_probe(b"primary", 22000);
    s.oneshot_override = Some(oneshot(HvacRequest::Cool, OneshotOrdering::Less, 20500));

    let (call, effects) = arbitrate_overrides(&mut s, 0);
    assert_eq!(call, Some(HvacRequest::Cool));
    assert!(effects.is_empty());

    s.probe_values.insert(b"primary".to_vec(), Reading { temp: Temp { milli: 21000 }, at_ms: 10 });
    let (call, _) = arbitrate_overrides(&mut s, 10);
    assert_eq!(call, Some(HvacRequest::Cool));

    s.probe_values.insert(b"primary".to_vec(), Reading { temp: Temp { milli: 20000 }, at_ms: 20 });
    let (call, effects) = arbitrate_overrides(&mut s, 20);
    assert_eq!(call, None);
    assert!(s.oneshot_override.is_none());
    assert_eq!(effects.len(), 1);
    match &effects[0] {
        Effect::Publish(p) => {
            assert_eq!(p.topic, b"home/thermostatd/oneshot_override".to_vec());
            assert_eq!(p.payload, b"null".to_vec());
            assert!(p.retained);
        },
        other => panic!("unexpected effect {:?}", other),
    }
}

/// A one-shot override whose probe has no reading clears at once.
#[test]
fn oneshot_missing_probe_clears() {
    let mut s = CommonState::new();
    s.oneshot_override = Some(oneshot(HvacRequest::Heat, OneshotOrdering::Greater, 25000));
    let (call, effects) = arbitrate_overrides(&mut s, 0);
    assert_eq!(call, None);
    assert!(s.oneshot_override.is_none());
    assert_eq!(effects.len(), 1);
}

/// An equal reading has not crossed the setpoint yet: the override holds.
#[test]
fn oneshot_equal_reading_still_working() {
    let mut s = state_with_probe(b"primary", 20500);
    s.oneshot_override = Some(oneshot(HvacRequest::Cool, OneshotOrdering::Less, 20500));
    let (call, _) = arbitrate_overrides(&mut s, 0);
    assert_eq!(call, Some(HvacRequest::Cool));
    assert!(s.oneshot_override.is_some());
}

/// With no override, probe at 20.0 and a script that answers "heat", the
/// cycle commits heat and publishes it as the relay keep-alive.
#[test]
fn basic_heat_call() {
    let mut s = state_with_probe(b"primary", 20000);
    s.mode = HvacRequest::Heat;
    let (call, effects) = arbitrate_overrides(&mut s, 0);
    assert_eq!(call, None);
    assert!(effects.is_empty());
    // The script's verdict for a 20.0 reading against its 22 threshold.
    let script_says = HvacRequest::from_string(String::from("heat"));
    assert_eq!(script_says, Some(HvacRequest::Heat));
    let p = commit_call(&mut s, script_says);
    assert_eq!(s.last_call, HvacRequest::Heat);
    assert_eq!(p.topic, b"home/thermostat/hvac/remotestate/set".to_vec());
    assert_eq!(p.payload, b"heat".to_vec());
    assert!(!p.retained);
}

/// A timed override sent on the bus supersedes the script until it lapses,
/// then heat resumes.
#[test]
fn timed_override_supersedes_script() {
    let mut s = state_with_probe(b"primary", 20000);
    s.mode = HvacRequest::Heat;
    s.last_call = HvacRequest::Heat;
    let probes: ByteMap<Vec<u8>> = ByteMap::new();

    // The operator forces "off" for five minutes starting at t=0.
    let now = 0i64;
    let expiry = "1970-01-01T00:05:00.000Z";
    let payload = format!("{{\"command\":\"off\",\"expiration\":\"{}\"}}", expiry);
    handle_message(
        &mut s,
        &probes,
        b"home/thermostatd/timed_override/set",
        payload.as_bytes(),
        now,
    );
    assert!(s.timed_override.is_some());

    // The very next decision cycle emits off.
    let (call, _) = arbitrate_overrides(&mut s, now + 1000);
    assert_eq!(call, Some(HvacRequest::Off));
    let p = commit_call(&mut s, call);
    assert_eq!(p.payload, b"off".to_vec());

    // After five minutes the override is cleared with a retained null...
    let (call, effects) = arbitrate_overrides(&mut s, now + 5 * 60 * 1000 + 1);
    assert_eq!(call, None);
    assert_eq!(effects.len(), 1);
    match &effects[0] {
        Effect::Publish(p) => {
            assert_eq!(p.topic, b"home/thermostatd/timed_override".to_vec());
            assert_eq!(p.payload, b"null".to_vec());
            assert!(p.retained);
        },
        other => panic!("unexpected effect {:?}", other),
    }
    // ... and the script's heat resumes.
    let script_says = HvacRequest::from_string(String::from("heat"));
    let p = commit_call(&mut s, script_says);
    assert_eq!(p.payload, b"heat".to_vec());
}

/// A script verdict of nothing leaves the last call in place, and the
/// keep-alive republishes it.
#[test]
fn nil_script_keeps_last_call() {
    let mut s = CommonState::new();
    s.last_call = HvacRequest::Cool;
    let p = commit_call(&mut s, None);
    assert_eq!(s.last_call, HvacRequest::Cool);
    assert_eq!(p.payload, b"cool".to_vec());
}
