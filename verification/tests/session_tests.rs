use latency_probe::aggregate::aggregate_outcomes;
use latency_probe::aggregate::run_session;
use latency_probe::echo::EchoError;
use latency_probe::echo::EchoIdentifier;
use latency_probe::echo::FailureReason;
use latency_probe::echo::ProbeOutcome;
use latency_probe::echo::probe_outcome;
use latency_probe::records::Measurement;
use latency_probe::records::RecordWithGeolocation;

fn target(ip: &str, location: &str) -> RecordWithGeolocation {
    RecordWithGeolocation { ip: ip.to_string(), location: location.to_string() }
}

#[test]
fn mixed_fixture_keeps_the_two_valid_targets() {
    let targets = vec![
        target("203.0.113.1", "CityA"),
        target("bad-address", "CityB"),
        target("2001:db8::1", "CityC"),
    ];
    // 0.012 s and 0.034 s, in nanoseconds; the malformed entry never
    // reaches the session, so its reply value is immaterial.
    let replies = vec![Ok(12_000_000), Ok(1), Ok(34_000_000)];
    let out = run_session(&targets, &replies);
    assert_eq!(out.len(), 2);
    assert_eq!(out[0].ip, "203.0.113.1");
    assert_eq!(out[0].location, "CityA");
    assert_eq!(out[0].round_trip_nanos, 12_000_000);
    assert_eq!(out[1].ip, "2001:db8::1");
    assert_eq!(out[1].location, "CityC");
    assert_eq!(out[1].round_trip_nanos, 34_000_000);
}

#[test]
fn all_timeouts_yield_empty_output() {
    let targets = vec![
        target("203.0.113.1", "CityA"),
        target("2001:db8::1", "CityB"),
        target("10.0.0.7", "CityC"),
    ];
    let replies = vec![
        Err(EchoError::Timeout),
        Err(EchoError::Timeout),
        Err(EchoError::Timeout),
    ];
    let out = run_session(&targets, &replies);
    assert!(out.is_empty());
}

#[test]
fn all_replies_keep_every_target_with_the_fixed_time() {
    let targets = vec![
        target("203.0.113.1", "CityA"),
        target("203.0.113.2", "CityB"),
        target("2001:db8::1", "CityC"),
    ];
    let replies = vec![Ok(7_000_000), Ok(7_000_000), Ok(7_000_000)];
    let out = run_session(&targets, &replies);
    assert_eq!(out.len(), 3);
    for (m, t) in out.iter().zip(targets.iter()) {
        assert_eq!(m.ip, t.ip);
        assert_eq!(m.location, t.location);
        assert_eq!(m.round_trip_nanos, 7_000_000);
    }
}

#[test]
fn duplicate_address_yields_one_measurement() {
    let targets = vec![
        target("203.0.113.1", "CityA"),
        target("203.0.113.1", "CityA"),
    ];
    let replies = vec![Ok(5_000_000), Ok(6_000_000)];
    let out = run_session(&targets, &replies);
    assert_eq!(out.len(), 1);
    assert_eq!(out[0].ip, "203.0.113.1");
    assert_eq!(out[0].round_trip_nanos, 5_000_000);
}

#[test]
fn probe_outcome_reports_parse_failure_without_using_the_session() {
    let t = target("bad-address", "CityB");
    let out = probe_outcome(&t, &Ok(99));
    match out {
        ProbeOutcome::Failure(FailureReason::Parse(_)) => {}
        other => panic!("expected a parse failure, got {:?}", other),
    }
}

#[test]
fn probe_outcome_reports_each_echo_error() {
    let t = target("203.0.113.1", "CityA");
    for e in [EchoError::Timeout, EchoError::ProtocolError, EchoError::IoError] {
        let out = probe_outcome(&t, &Err(e));
        match out {
            ProbeOutcome::Failure(FailureReason::Echo(got)) => assert_eq!(got, e),
            other => panic!("expected an echo failure, got {:?}", other),
        }
    }
}

#[test]
fn probe_outcome_copies_the_target_verbatim() {
    let t = target("2001:db8::1", "CityC");
    let out = probe_outcome(&t, &Ok(34_000_000));
    match out {
        ProbeOutcome::Success(m) => {
            assert_eq!(m.ip, "2001:db8::1");
            assert_eq!(m.location, "CityC");
            assert_eq!(m.round_trip_nanos, 34_000_000);
        }
        other => panic!("expected a measurement, got {:?}", other),
    }
}

#[test]
fn aggregation_drops_failures_and_keeps_arrival_order() {
    let outcomes = vec![
        ProbeOutcome::Failure(FailureReason::Echo(EchoError::Timeout)),
        ProbeOutcome::Success(Measurement {
            ip: "10.0.0.2".to_string(),
            location: "B".to_string(),
            round_trip_nanos: 2,
        }),
        ProbeOutcome::Success(Measurement {
            ip: "10.0.0.1".to_string(),
            location: "A".to_string(),
            round_trip_nanos: 1,
        }),
        ProbeOutcome::Failure(FailureReason::Echo(EchoError::IoError)),
        ProbeOutcome::Success(Measurement {
            ip: "10.0.0.2".to_string(),
            location: "B".to_string(),
            round_trip_nanos: 9,
        }),
    ];
    let out = aggregate_outcomes(&outcomes);
    assert_eq!(out.len(), 2);
    assert_eq!(out[0].ip, "10.0.0.2");
    assert_eq!(out[0].round_trip_nanos, 2);
    assert_eq!(out[1].ip, "10.0.0.1");
    assert_eq!(out[1].round_trip_nanos, 1);
}

#[test]
fn fresh_identifiers_carry_sequence_zero() {
    for _ in 0..16 {
        let id = EchoIdentifier::fresh();
        assert_eq!(id.sequence, 0);
    }
}
