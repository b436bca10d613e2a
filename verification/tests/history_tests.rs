use thermostatd::history::{
    pinstate_entry, pinstate_history_step, probe_entry, probe_history_step, HISTORY_MAX_LEN,
};
use thermostatd::hvac::HvacRequest;
use thermostatd::temp::Temp;

#[test]
fn probe_entry_encoding() {
    assert_eq!(probe_entry(Temp { milli: 20500 }, 1234), b"20.5:1234".to_vec());
    assert_eq!(probe_entry(Temp { milli: -50 }, 0), b"-0.05:0".to_vec());
}

#[test]
fn pinstate_entry_encoding() {
    assert_eq!(pinstate_entry(HvacRequest::Heat, 99), b"heat:99".to_vec());
    assert_eq!(pinstate_entry(HvacRequest::Off, 5), b"off:5".to_vec());
}

/// Two consecutive identical probe readings produce exactly one entry.
#[test]
fn probe_history_dedups_identical_readings() {
    let reading = Some(Temp { milli: 20500 });
    let first = probe_history_step(None, reading, 1000);
    assert_eq!(first, Some(b"20.5:1000".to_vec()));
    let head = first.unwrap();
    let second = probe_history_step(Some(&head), reading, 1000);
    assert_eq!(second, None);
}

/// Five identical readings over a window leave exactly one head entry.
#[test]
fn probe_history_five_identical_readings_one_entry() {
    let mut list: Vec<Vec<u8>> = Vec::new();
    for _ in 0..5 {
        let head = list.first();
        if let Some(entry) = probe_history_step(head, Some(Temp { milli: 20500 }), 1000) {
            list.insert(0, entry);
        }
    }
    assert_eq!(list.len(), 1);
    assert!(list[0].starts_with(b"20.5:"));
}

/// A changed reading or timestamp pushes a new head.
#[test]
fn probe_history_pushes_on_change() {
    let head = b"20.5:1000".to_vec();
    let changed = probe_history_step(Some(&head), Some(Temp { milli: 21000 }), 2000);
    assert_eq!(changed, Some(b"21:2000".to_vec()));
}

/// A probe with no reading yet records nothing.
#[test]
fn probe_history_skips_absent_reading() {
    assert_eq!(probe_history_step(None, None, 1000), None);
}

/// Two consecutive identical pinstates produce exactly one entry; a
/// differing one produces a new head.
#[test]
fn pinstate_history_dedups_by_first_letter() {
    let first = pinstate_history_step(None, HvacRequest::Heat, 10);
    assert_eq!(first, Some(b"heat:10".to_vec()));
    let head = first.unwrap();
    let second = pinstate_history_step(Some(&head), HvacRequest::Heat, 20);
    assert_eq!(second, None);
    let third = pinstate_history_step(Some(&head), HvacRequest::Off, 30);
    assert_eq!(third, Some(b"off:30".to_vec()));
}

#[test]
fn history_bound_is_two_weeks_at_ten_seconds() {
    assert_eq!(HISTORY_MAX_LEN, 60 * 60 * 24 * 14 / 10);
}
