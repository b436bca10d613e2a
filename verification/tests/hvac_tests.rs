use thermostatd::dayset::{DaySet, Weekday};
use thermostatd::hvac::{AtomicHvacRequest, HvacMode, HvacRequest};
use thermostatd::probe::{Probe, Probes};
use thermostatd::supervisor::RestartTracker;
use thermostatd::temp::Temp;

#[test]
fn request_from_payload_first_letter() {
    assert_eq!(HvacRequest::from_payload(b"off"), Some(HvacRequest::Off));
    assert_eq!(HvacRequest::from_payload(b"O"), Some(HvacRequest::Off));
    assert_eq!(HvacRequest::from_payload(b"heat"), Some(HvacRequest::Heat));
    assert_eq!(HvacRequest::from_payload(b"Cool"), Some(HvacRequest::Cool));
    assert_eq!(HvacRequest::from_payload(b"charlie"), Some(HvacRequest::Cool));
    assert_eq!(HvacRequest::from_payload(b""), None);
    assert_eq!(HvacRequest::from_payload(b"warm"), None);
}

#[test]
fn request_wire_words() {
    assert_eq!(HvacRequest::Off.payload_str(), "off");
    assert_eq!(HvacRequest::Heat.payload_str(), "heat");
    assert_eq!(HvacRequest::Cool.payload_str(), "cool");
    assert_eq!(HvacRequest::Heat.payload(), b"heat".to_vec());
    assert_eq!(HvacRequest::default(), HvacRequest::Off);
}

#[test]
fn request_bitand_agreement() {
    assert_eq!(HvacRequest::Heat.bitand(HvacRequest::Heat), HvacRequest::Heat);
    assert_eq!(HvacRequest::Cool.bitand(HvacRequest::Cool), HvacRequest::Cool);
    assert_eq!(HvacRequest::Heat.bitand(HvacRequest::Cool), HvacRequest::Off);
    assert_eq!(HvacRequest::Off.bitand(HvacRequest::Off), HvacRequest::Off);
}

#[test]
fn mode_from_str_ignores_case() {
    assert_eq!(HvacMode::from_str("Off"), Ok(HvacMode::Off));
    assert_eq!(HvacMode::from_str("HEAT"), Ok(HvacMode::Heat));
    assert_eq!(HvacMode::from_str("cool"), Ok(HvacMode::Cool));
    assert_eq!(HvacMode::from_str("warm"), Err(()));
    assert_eq!(HvacMode::Heat.display_str(), "Heat");
}

#[test]
fn atomic_request_round_trips() {
    let mut cell = AtomicHvacRequest::new();
    assert_eq!(cell.load(), HvacRequest::Off);
    cell.store(HvacRequest::Cool);
    assert_eq!(cell.load(), HvacRequest::Cool);
    cell.store(HvacRequest::Heat);
    assert_eq!(cell.load(), HvacRequest::Heat);
}

#[test]
fn dayset_bits() {
    let mut d = DaySet::new();
    assert!(!d.enabled(Weekday::Monday));
    d.enable(Weekday::Monday);
    d.enable(Weekday::Friday);
    assert!(d.enabled(Weekday::Monday));
    assert!(d.enabled(Weekday::Friday));
    assert!(!d.enabled(Weekday::Sunday));
    d.disable(Weekday::Monday);
    assert!(!d.enabled(Weekday::Monday));
    assert!(d.enabled(Weekday::Friday));

    let all = DaySet::all();
    assert!(all.enabled(Weekday::Sunday));
    assert!(all.enabled(Weekday::Saturday));
    assert!(!DaySet::default().enabled(Weekday::Wednesday));
}

#[test]
fn probe_keeps_latest_reading() {
    let mut p = Probe::new(String::from("primary"), String::from("home/thermostat/temp"), 5);
    assert_eq!(p.name(), "primary");
    assert_eq!(p.endpoint(), "home/thermostat/temp");
    assert_eq!(p.value(), None);
    assert_eq!(p.last_update(), 5);
    p.ingest(b"20.5", 10);
    assert_eq!(p.value(), Some(Temp { milli: 20500 }));
    assert_eq!(p.last_update(), 10);
    // An unreadable payload leaves the reading alone.
    p.ingest(b"hot", 20);
    assert_eq!(p.value(), Some(Temp { milli: 20500 }));
    assert_eq!(p.last_update(), 10);
}

#[test]
fn probe_registry_create_and_delete() {
    let mut reg = Probes::new();
    let effects = reg.create_probe("primary", "home/thermostat/temp", 0);
    assert_eq!(effects.len(), 2);
    assert!(reg.get(b"primary").is_some());
    assert_eq!(reg.keys().len(), 1);
    let effects = reg.delete_probe(b"primary");
    assert_eq!(effects.len(), 1);
    assert!(reg.get(b"primary").is_none());
}

/// Two failures within a minute make the second restart sleep the square
/// of the pile-on count.
#[test]
fn restart_backoff_squares_clustered_failures() {
    let mut t = RestartTracker::new();
    // The first failure has no previous restart to pile on.
    assert_eq!(t.observe_failure(1000), 0);
    t.mark_restart(2000);
    // A second failure 30 s later piles on: sleep 1^2.
    assert_eq!(t.observe_failure(32000), 1);
    t.mark_restart(33000);
    // A third clustered failure sleeps 2^2.
    assert_eq!(t.observe_failure(40000), 4);
    t.mark_restart(41000);
    // A failure after a quiet hour does not pile on.
    assert_eq!(t.observe_failure(41000 + 3_600_000), 0);
}
