use thermostatd::hvac::HvacRequest;
use thermostatd::overrides::{
    parse_oneshot_override, parse_timed_override, serialize_oneshot_override,
    serialize_timed_override, OneshotOrdering, OneshotOverride, TimedOverride,
};
use thermostatd::temp::Temp;

fn ms_of(rfc: &str) -> i64 {
    chrono::DateTime::parse_from_rfc3339(rfc)
        .unwrap()
        .timestamp_millis()
}

#[test]
fn timed_parse_basic() {
    let payload = b"{\"command\":\"heat\",\"expiration\":\"2099-01-01T00:00:00.000Z\"}";
    let parsed = parse_timed_override(payload).unwrap().unwrap();
    assert_eq!(parsed.command, HvacRequest::Heat);
    assert_eq!(parsed.expiration_ms, ms_of("2099-01-01T00:00:00Z"));
}

#[test]
fn timed_parse_field_order_and_whitespace() {
    let payload = b" { \"expiration\" : \"2099-01-01T00:00:00.000Z\" , \"command\" : \"off\" } ";
    let parsed = parse_timed_override(payload).unwrap().unwrap();
    assert_eq!(parsed.command, HvacRequest::Off);
    assert_eq!(parsed.expiration_ms, ms_of("2099-01-01T00:00:00Z"));
}

#[test]
fn timed_parse_null() {
    assert_eq!(parse_timed_override(b"null").unwrap(), None);
    assert_eq!(parse_timed_override(b"  null  ").unwrap(), None);
}

#[test]
fn timed_parse_rejects_malformed() {
    assert!(parse_timed_override(b"").is_err());
    assert!(parse_timed_override(b"{}").is_err());
    assert!(parse_timed_override(b"{\"command\":\"heat\"}").is_err());
    assert!(parse_timed_override(b"{\"command\":\"warm\",\"expiration\":\"2099-01-01T00:00:00Z\"}").is_err());
    assert!(parse_timed_override(b"{\"command\":\"heat\",\"expiration\":\"yesterday\"}").is_err());
    assert!(parse_timed_override(b"{\"command\":\"heat\",\"command\":\"cool\"}").is_err());
    assert!(
        parse_timed_override(b"{\"command\":\"heat\",\"expiration\":\"2099-01-01T00:00:00Z\"} junk")
            .is_err()
    );
    assert!(
        parse_timed_override(b"{\"command\":\"heat\",\"expiration\":\"2099-01-01T00:00:00Z\",\"extra\":1}")
            .is_err()
    );
}

#[test]
fn timed_parse_keeps_to_four_digit_years() {
    // The last covered millisecond is accepted.
    let parsed =
        parse_timed_override(b"{\"command\":\"off\",\"expiration\":\"9999-12-31T23:59:59.999Z\"}")
            .unwrap()
            .unwrap();
    assert_eq!(parsed.expiration_ms, ms_of("9999-12-31T23:59:59.999Z"));
    // An offset that pushes the instant before year 0000 UTC is not: such
    // a record could not be written back as it was read.
    assert!(
        parse_timed_override(b"{\"command\":\"off\",\"expiration\":\"0000-01-01T00:00:00+01:00\"}")
            .is_err()
    );
}

#[test]
fn timed_round_trip() {
    let t = TimedOverride {
        command: HvacRequest::Cool,
        expiration_ms: ms_of("2099-06-15T12:30:45.500Z"),
    };
    let encoded = serialize_timed_override(&Some(t));
    assert_eq!(
        encoded,
        b"{\"command\":\"cool\",\"expiration\":\"2099-06-15T12:30:45.500Z\"}".to_vec()
    );
    let back = parse_timed_override(&encoded).unwrap().unwrap();
    assert_eq!(back, t);

    let none_encoded = serialize_timed_override(&None);
    assert_eq!(none_encoded, b"null".to_vec());
    assert_eq!(parse_timed_override(&none_encoded).unwrap(), None);
}

#[test]
fn oneshot_parse_basic() {
    let payload = b"{\"command\":\"cool\",\"comparison\":\"less\",\"setpoint\":20.5,\"probe\":\"primary\"}";
    let parsed = parse_oneshot_override(payload).unwrap().unwrap();
    assert_eq!(parsed.command, HvacRequest::Cool);
    assert_eq!(parsed.comparison, OneshotOrdering::Less);
    assert_eq!(parsed.setpoint, Temp { milli: 20500 });
    assert_eq!(parsed.probe, b"primary".to_vec());
}

#[test]
fn oneshot_parse_any_field_order() {
    let payload = b"{\"probe\":\"attic\",\"setpoint\":-3.25,\"comparison\":\"greater\",\"command\":\"heat\"}";
    let parsed = parse_oneshot_override(payload).unwrap().unwrap();
    assert_eq!(parsed.command, HvacRequest::Heat);
    assert_eq!(parsed.comparison, OneshotOrdering::Greater);
    assert_eq!(parsed.setpoint, Temp { milli: -3250 });
    assert_eq!(parsed.probe, b"attic".to_vec());
}

#[test]
fn oneshot_parse_rejects_malformed() {
    assert!(parse_oneshot_override(b"{}").is_err());
    assert!(
        parse_oneshot_override(b"{\"command\":\"cool\",\"comparison\":\"less\",\"setpoint\":20.5}")
            .is_err()
    );
    assert!(parse_oneshot_override(
        b"{\"command\":\"cool\",\"comparison\":\"between\",\"setpoint\":20.5,\"probe\":\"p\"}"
    )
    .is_err());
    assert!(parse_oneshot_override(
        b"{\"command\":\"cool\",\"comparison\":\"less\",\"setpoint\":\"20.5\",\"probe\":\"p\"}"
    )
    .is_err());
}

#[test]
fn oneshot_round_trip() {
    let o = OneshotOverride {
        command: HvacRequest::Cool,
        comparison: OneshotOrdering::Less,
        setpoint: Temp { milli: 20500 },
        probe: b"primary".to_vec(),
    };
    let encoded = serialize_oneshot_override(&Some(o.clone()));
    assert_eq!(
        encoded,
        b"{\"command\":\"cool\",\"comparison\":\"less\",\"setpoint\":20.5,\"probe\":\"primary\"}"
            .to_vec()
    );
    let back = parse_oneshot_override(&encoded).unwrap().unwrap();
    assert_eq!(back, o);

    assert_eq!(serialize_oneshot_override(&None), b"null".to_vec());
}

#[test]
fn oneshot_setpoint_with_long_fraction() {
    let payload = b"{\"command\":\"cool\",\"comparison\":\"less\",\"setpoint\":20.0625,\"probe\":\"primary\"}";
    let parsed = parse_oneshot_override(payload).unwrap().unwrap();
    assert_eq!(parsed.setpoint, Temp { milli: 20062 });
}

#[test]
fn oneshot_integer_setpoint() {
    let payload =
        b"{\"command\":\"heat\",\"comparison\":\"greater\",\"setpoint\":21,\"probe\":\"primary\"}";
    let parsed = parse_oneshot_override(payload).unwrap().unwrap();
    assert_eq!(parsed.setpoint, Temp { milli: 21000 });
}
