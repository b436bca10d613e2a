use thermostatd::temp::{parse_temp, render_temp, Temp};

#[test]
fn parse_plain_decimal() {
    assert_eq!(parse_temp(b"20.5"), Some(Temp { milli: 20500 }));
    assert_eq!(parse_temp(b"20"), Some(Temp { milli: 20000 }));
    assert_eq!(parse_temp(b"0"), Some(Temp { milli: 0 }));
    assert_eq!(parse_temp(b"-3.25"), Some(Temp { milli: -3250 }));
    assert_eq!(parse_temp(b"-0.125"), Some(Temp { milli: -125 }));
    assert_eq!(parse_temp(b"21.075"), Some(Temp { milli: 21075 }));
    assert_eq!(parse_temp(b".5"), Some(Temp { milli: 500 }));
    assert_eq!(parse_temp(b"5."), Some(Temp { milli: 5000 }));
    assert_eq!(parse_temp(b"-.5"), Some(Temp { milli: -500 }));
}

/// Fraction digits beyond the third are read and dropped, so the sixteenth
/// steps a one-wire sensor publishes stay readable.
#[test]
fn parse_truncates_long_fractions() {
    assert_eq!(parse_temp(b"20.0625"), Some(Temp { milli: 20062 }));
    assert_eq!(parse_temp(b"20.1234"), Some(Temp { milli: 20123 }));
    assert_eq!(parse_temp(b"-20.0625"), Some(Temp { milli: -20062 }));
    assert_eq!(parse_temp(b"0.99999999"), Some(Temp { milli: 999 }));
    assert_eq!(parse_temp(b"20.123x"), None);
}

#[test]
fn parse_rejects_other_forms() {
    assert_eq!(parse_temp(b""), None);
    assert_eq!(parse_temp(b"-"), None);
    assert_eq!(parse_temp(b"."), None);
    assert_eq!(parse_temp(b"-."), None);
    assert_eq!(parse_temp(b"1e3"), None);
    assert_eq!(parse_temp(b"inf"), None);
    assert_eq!(parse_temp(b"20.5.1"), None);
    assert_eq!(parse_temp(b" 20.5"), None);
    assert_eq!(parse_temp(b"12345678901234"), None);
}

#[test]
fn render_trims_trailing_zeros() {
    assert_eq!(render_temp(Temp { milli: 20500 }), b"20.5".to_vec());
    assert_eq!(render_temp(Temp { milli: 20050 }), b"20.05".to_vec());
    assert_eq!(render_temp(Temp { milli: 20005 }), b"20.005".to_vec());
    assert_eq!(render_temp(Temp { milli: 20000 }), b"20".to_vec());
    assert_eq!(render_temp(Temp { milli: 0 }), b"0".to_vec());
    assert_eq!(render_temp(Temp { milli: -50 }), b"-0.05".to_vec());
}

#[test]
fn render_then_parse_round_trips() {
    for milli in [0i64, 1, -1, 999, -999, 20500, -3250, 9999999999999999, -9999999999999999] {
        let t = Temp { milli };
        assert_eq!(parse_temp(&render_temp(t)), Some(t));
    }
}
