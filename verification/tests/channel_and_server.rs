use metrics_core::channel::submit;
use metrics_core::errors::MetricsError;
use metrics_core::registry::Registry;
use metrics_core::server::{respond, step, ServerEvent, ServerState};
use metrics_core::value::GaugeValue;

fn bv(s: &str) -> Vec<u8> {
    s.as_bytes().to_vec()
}

fn gv(s: &str) -> GaugeValue {
    GaugeValue::parse(&bv(s)).expect("valid decimal")
}

#[test]
fn malformed_input_rejected_then_valid_input_accepted() {
    let mut reg = Registry::new();
    reg.register(bv("current"), vec![bv("name")]).unwrap();
    submit(&mut reg, &bv("current"), vec![bv("a")], &bv("1.5")).unwrap();
    let before = metrics_core::encode::encode(&reg.snapshot());

    let r = submit(&mut reg, &bv("current"), vec![bv("a")], &bv("abc xyz"));
    assert_eq!(r, Err(MetricsError::ParseError));
    let after = metrics_core::encode::encode(&reg.snapshot());
    assert_eq!(before, after);

    submit(&mut reg, &bv("current"), vec![bv("a")], &bv("2.5")).unwrap();
    let out = metrics_core::encode::encode(&reg.snapshot());
    assert_eq!(out, bv("current{name=\"a\"} 2.5\n"));
}

#[test]
fn channel_forwards_registry_errors() {
    let mut reg = Registry::new();
    reg.register(bv("current"), vec![bv("name")]).unwrap();
    let r = submit(&mut reg, &bv("missing"), vec![bv("a")], &bv("1"));
    assert_eq!(r, Err(MetricsError::UnknownMetric));
    let r = submit(&mut reg, &bv("current"), vec![], &bv("1"));
    assert_eq!(r, Err(MetricsError::LabelArityMismatch));
}

#[test]
fn scrape_on_route_returns_encoded_snapshot() {
    let mut reg = Registry::new();
    reg.register(bv("temperature"), vec![bv("zone")]).unwrap();
    reg.set(&bv("temperature"), vec![bv("kitchen")], gv("21.5")).unwrap();
    let resp = respond(&reg, &bv("/metrics"), &bv("/metrics"));
    assert_eq!(resp.status, 200);
    assert_eq!(resp.body, bv("temperature{zone=\"kitchen\"} 21.5\n"));
}

#[test]
fn scrape_off_route_returns_not_found() {
    let reg = Registry::new();
    let resp = respond(&reg, &bv("/metrics"), &bv("/other"));
    assert_eq!(resp.status, 404);
    assert!(resp.body.is_empty());
}

#[test]
fn repeated_scrapes_against_a_changing_registry_stay_consistent() {
    // one producer updating, many scrapes in between: every body is the
    // complete, self-consistent exposition of the registry at that instant
    let mut reg = Registry::new();
    reg.register(bv("current"), vec![bv("name")]).unwrap();
    for round in 0..100u32 {
        let text = format!("{}.5", round);
        submit(&mut reg, &bv("current"), vec![bv("probe")], &bv(&text)).unwrap();
        let resp = respond(&reg, &bv("/metrics"), &bv("/metrics"));
        assert_eq!(resp.status, 200);
        let expected = format!("current{{name=\"probe\"}} {}.5\n", round);
        assert_eq!(resp.body, bv(&expected));
        // a scrape never mutates the registry
        let again = respond(&reg, &bv("/metrics"), &bv("/metrics"));
        assert_eq!(again.body, resp.body);
    }
}

#[test]
fn server_lifecycle_follows_the_state_machine() {
    let s = ServerState::Idle;
    let s = step(s, ServerEvent::Start);
    assert_eq!(s, ServerState::Listening);
    let s = step(s, ServerEvent::Accept);
    assert_eq!(s, ServerState::Accepting);
    let s = step(s, ServerEvent::Dispatch);
    assert_eq!(s, ServerState::Serving);
    let s = step(s, ServerEvent::Finish);
    assert_eq!(s, ServerState::Listening);
    let s = step(s, ServerEvent::Shutdown);
    assert_eq!(s, ServerState::Stopped);
}

#[test]
fn shutdown_is_deferred_while_a_request_is_in_flight() {
    let s = step(ServerState::Serving, ServerEvent::Shutdown);
    assert_eq!(s, ServerState::Serving);
    let s = step(ServerState::Accepting, ServerEvent::Shutdown);
    assert_eq!(s, ServerState::Accepting);
}

#[test]
fn stopped_is_terminal() {
    for e in [
        ServerEvent::Start,
        ServerEvent::Accept,
        ServerEvent::Dispatch,
        ServerEvent::Finish,
        ServerEvent::Shutdown,
    ] {
        assert_eq!(step(ServerState::Stopped, e), ServerState::Stopped);
    }
}
