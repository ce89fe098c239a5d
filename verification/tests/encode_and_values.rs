use metrics_core::registry::Registry;
use metrics_core::value::GaugeValue;

fn bv(s: &str) -> Vec<u8> {
    s.as_bytes().to_vec()
}

fn gv(s: &str) -> GaugeValue {
    GaugeValue::parse(&bv(s)).expect("valid decimal")
}

#[test]
fn encode_is_deterministic() {
    let mut reg = Registry::new();
    reg.register(bv("temperature"), vec![bv("zone")]).unwrap();
    reg.set(&bv("temperature"), vec![bv("kitchen")], gv("21.5")).unwrap();
    reg.set(&bv("temperature"), vec![bv("cellar")], gv("-4.5")).unwrap();
    let snap = reg.snapshot();
    let first = metrics_core::encode::encode(&snap);
    let second = metrics_core::encode::encode(&snap);
    assert_eq!(first, second);
    // a second snapshot of the unchanged registry encodes identically too
    let third = metrics_core::encode::encode(&reg.snapshot());
    assert_eq!(first, third);
}

#[test]
fn label_pairs_follow_registration_order() {
    let mut reg = Registry::new();
    reg.register(bv("m"), vec![bv("b_key"), bv("a_key")]).unwrap();
    reg.set(&bv("m"), vec![bv("1"), bv("2")], gv("5")).unwrap();
    let out = metrics_core::encode::encode(&reg.snapshot());
    assert_eq!(out, bv("m{b_key=\"1\",a_key=\"2\"} 5\n"));
}

#[test]
fn label_values_are_escaped() {
    let mut reg = Registry::new();
    reg.register(bv("m"), vec![bv("k")]).unwrap();
    reg.set(&bv("m"), vec![bv("say \"hi\"\\\n")], gv("1")).unwrap();
    let out = metrics_core::encode::encode(&reg.snapshot());
    assert_eq!(out, bv("m{k=\"say \\\"hi\\\"\\\\\\n\"} 1\n"));
}

#[test]
fn negative_and_fractional_values_keep_their_text() {
    let mut reg = Registry::new();
    reg.register(bv("m"), vec![bv("k")]).unwrap();
    reg.set(&bv("m"), vec![bv("a")], gv("-12.25")).unwrap();
    reg.set(&bv("m"), vec![bv("b")], gv("0.50")).unwrap();
    let out = metrics_core::encode::encode(&reg.snapshot());
    assert_eq!(out, bv("m{k=\"a\"} -12.25\nm{k=\"b\"} 0.50\n"));
}

#[test]
fn empty_registry_encodes_empty() {
    let reg = Registry::new();
    let out = metrics_core::encode::encode(&reg.snapshot());
    assert_eq!(out, Vec::<u8>::new());
}

#[test]
fn parse_accepts_decimals() {
    for ok in ["0", "7", "21.5", "-3.25", "100", "-0.5", "007", "1.00"] {
        let v = GaugeValue::parse(&bv(ok));
        assert!(v.is_some(), "{} should parse", ok);
        assert_eq!(v.unwrap().text(), &bv(ok));
    }
}

#[test]
fn parse_rejects_malformed_text() {
    for bad in [
        "", "-", ".", "abc", "abc xyz", "1.2.3", ".5", "5.", "-.5", "--1", "1e5", "+5", "2,5",
        " 1", "1 ", "21.5x",
    ] {
        assert!(GaugeValue::parse(&bv(bad)).is_none(), "{} should be rejected", bad);
    }
}
