use metrics_core::errors::MetricsError;
use metrics_core::registry::Registry;
use metrics_core::value::GaugeValue;

fn bv(s: &str) -> Vec<u8> {
    s.as_bytes().to_vec()
}

fn gv(s: &str) -> GaugeValue {
    GaugeValue::parse(&bv(s)).expect("valid decimal")
}

#[test]
fn register_then_set_then_snapshot() {
    let mut reg = Registry::new();
    reg.register(bv("temperature"), vec![bv("zone")]).unwrap();
    reg.set(&bv("temperature"), vec![bv("kitchen")], gv("21.5")).unwrap();
    let snap = reg.snapshot();
    let out = metrics_core::encode::encode(&snap);
    assert_eq!(out, bv("temperature{zone=\"kitchen\"} 21.5\n"));
}

#[test]
fn last_write_wins_for_each_pair() {
    let mut reg = Registry::new();
    reg.register(bv("temperature"), vec![bv("zone")]).unwrap();
    reg.set(&bv("temperature"), vec![bv("kitchen")], gv("1")).unwrap();
    reg.set(&bv("temperature"), vec![bv("cellar")], gv("7")).unwrap();
    reg.set(&bv("temperature"), vec![bv("kitchen")], gv("2")).unwrap();
    reg.set(&bv("temperature"), vec![bv("kitchen")], gv("3")).unwrap();
    let out = metrics_core::encode::encode(&reg.snapshot());
    assert_eq!(
        out,
        bv("temperature{zone=\"kitchen\"} 3\ntemperature{zone=\"cellar\"} 7\n")
    );
}

#[test]
fn overlapping_writes_show_one_whole_value() {
    // writes in either order: the snapshot shows the later value whole
    let mut a = Registry::new();
    a.register(bv("gauge"), vec![bv("k")]).unwrap();
    a.set(&bv("gauge"), vec![bv("x")], gv("1.25")).unwrap();
    a.set(&bv("gauge"), vec![bv("x")], gv("2.75")).unwrap();
    assert_eq!(
        metrics_core::encode::encode(&a.snapshot()),
        bv("gauge{k=\"x\"} 2.75\n")
    );

    let mut b = Registry::new();
    b.register(bv("gauge"), vec![bv("k")]).unwrap();
    b.set(&bv("gauge"), vec![bv("x")], gv("2.75")).unwrap();
    b.set(&bv("gauge"), vec![bv("x")], gv("1.25")).unwrap();
    assert_eq!(
        metrics_core::encode::encode(&b.snapshot()),
        bv("gauge{k=\"x\"} 1.25\n")
    );
}

#[test]
fn arity_mismatch_rejected_and_state_unchanged() {
    let mut reg = Registry::new();
    reg.register(bv("temperature"), vec![bv("zone")]).unwrap();
    reg.set(&bv("temperature"), vec![bv("kitchen")], gv("21.5")).unwrap();
    let before = metrics_core::encode::encode(&reg.snapshot());
    let r = reg.set(&bv("temperature"), vec![bv("kitchen"), bv("extra")], gv("9"));
    assert_eq!(r, Err(MetricsError::LabelArityMismatch));
    let r2 = reg.set(&bv("temperature"), vec![], gv("9"));
    assert_eq!(r2, Err(MetricsError::LabelArityMismatch));
    let after = metrics_core::encode::encode(&reg.snapshot());
    assert_eq!(before, after);
}

#[test]
fn unknown_metric_rejected_and_absent_from_snapshot() {
    let mut reg = Registry::new();
    reg.register(bv("temperature"), vec![bv("zone")]).unwrap();
    let r = reg.set(&bv("humidity"), vec![bv("kitchen")], gv("40"));
    assert_eq!(r, Err(MetricsError::UnknownMetric));
    let out = metrics_core::encode::encode(&reg.snapshot());
    let text = String::from_utf8(out).unwrap();
    assert!(!text.contains("humidity"));
}

#[test]
fn duplicate_registration_conflicting_keys() {
    let mut reg = Registry::new();
    reg.register(bv("current"), vec![bv("name"), bv("lebel")]).unwrap();
    let r = reg.register(bv("current"), vec![bv("name")]);
    assert_eq!(r, Err(MetricsError::DuplicateMetric));
}

#[test]
fn duplicate_registration_identical_is_idempotent() {
    let mut reg = Registry::new();
    reg.register(bv("target"), vec![bv("name")]).unwrap();
    let before = metrics_core::encode::encode(&reg.snapshot());
    reg.register(bv("target"), vec![bv("name")]).unwrap();
    let after = metrics_core::encode::encode(&reg.snapshot());
    assert_eq!(before, after);
}

#[test]
fn two_metrics_encode_in_registration_order() {
    let mut reg = Registry::new();
    reg.register(bv("metrics_rust_current"), vec![bv("name"), bv("lebel")]).unwrap();
    reg.register(bv("metrics_rust_target"), vec![bv("name")]).unwrap();
    reg.set(
        &bv("metrics_rust_current"),
        vec![bv("This is a test"), bv("labels name")],
        gv("3.5"),
    )
    .unwrap();
    reg.set(&bv("metrics_rust_target"), vec![bv("This is a test")], gv("7"))
        .unwrap();
    let out = metrics_core::encode::encode(&reg.snapshot());
    let expected = "metrics_rust_current{name=\"This is a test\",lebel=\"labels name\"} 3.5\nmetrics_rust_target{name=\"This is a test\"} 7\n";
    assert_eq!(out, bv(expected));
}

#[test]
fn metric_without_labels_encodes_bare() {
    let mut reg = Registry::new();
    reg.register(bv("uptime"), vec![]).unwrap();
    reg.set(&bv("uptime"), vec![], gv("12345")).unwrap();
    let out = metrics_core::encode::encode(&reg.snapshot());
    assert_eq!(out, bv("uptime 12345\n"));
}

#[test]
fn ident_check() {
    assert!(metrics_core::registry::ident(&bv("abc_DEF_123")));
    assert!(metrics_core::registry::ident(&bv("_x")));
    assert!(!metrics_core::registry::ident(&bv("1abc")));
    assert!(!metrics_core::registry::ident(&bv("")));
    assert!(!metrics_core::registry::ident(&bv("a-b")));
    assert!(!metrics_core::registry::ident(&bv("a b")));
}
