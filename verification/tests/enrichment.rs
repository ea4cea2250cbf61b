use directory_audit::enrich::{
    Dispatcher, EnrichmentMap, EnrichmentOutcome, classify_lookup, eligible_keys, run_dispatch,
};
use directory_audit::record::{PrimaryRecord, keys_unique};

fn rec(key: &str, licensed: bool) -> PrimaryRecord {
    let licenses = if licensed { vec!["sku".to_string()] } else { Vec::new() };
    PrimaryRecord::new(key.to_string(), licenses)
}

fn success(purpose: Option<&str>) -> EnrichmentOutcome {
    EnrichmentOutcome::Success { purpose: purpose.map(|p| p.to_string()) }
}

fn failure(message: &str) -> EnrichmentOutcome {
    EnrichmentOutcome::Failure { message: message.to_string() }
}

#[test]
fn pre_filter_selects_licensed_records_in_order() {
    let records = vec![rec("alice", true), rec("bob", false), rec("carol", true)];
    assert!(keys_unique(&records));
    let keys = eligible_keys(&records);
    assert_eq!(keys, vec!["alice".to_string(), "carol".to_string()]);
}

#[test]
fn duplicate_keys_are_detected() {
    let records = vec![rec("alice", true), rec("bob", true), rec("alice", false)];
    assert!(!keys_unique(&records));
    assert!(keys_unique(&Vec::new()));
}

#[test]
fn no_eligible_records_means_an_empty_dispatch() {
    let records = vec![rec("alice", false), rec("bob", false)];
    let d = Dispatcher::for_records(&records, 4);
    assert_eq!(d.task_count(), 0);
    assert!(d.finished());
    let m = d.into_outcomes();
    assert!(!m.contains("alice") && !m.contains("bob"));
}

#[test]
fn map_insert_and_get() {
    let mut m = EnrichmentMap::new();
    assert!(!m.contains("alice"));
    m.insert("alice".to_string(), success(Some("shared")));
    m.insert("bob".to_string(), failure("timeout"));
    assert!(m.contains("alice"));
    assert!(m.contains("bob"));
    assert!(!m.contains("carol"));
    match m.get("alice") {
        Some(EnrichmentOutcome::Success { purpose }) => {
            assert_eq!(purpose.as_deref(), Some("shared"))
        }
        _ => panic!("expected alice's success outcome"),
    }
    match m.get("bob") {
        Some(EnrichmentOutcome::Failure { message }) => assert_eq!(message, "timeout"),
        _ => panic!("expected bob's failure outcome"),
    }
}

#[test]
fn dispatcher_respects_concurrency_bound() {
    let keys = vec!["a".to_string(), "b".to_string(), "c".to_string()];
    let mut d = Dispatcher::new(keys, 2);
    assert_eq!(d.task_count(), 3);

    let (i0, k0) = d.try_launch().expect("first launch fits the bound");
    let (i1, k1) = d.try_launch().expect("second launch fits the bound");
    assert_eq!((i0, k0.as_str()), (0, "a"));
    assert_eq!((i1, k1.as_str()), (1, "b"));
    assert!(d.try_launch().is_none(), "two in flight is the bound");

    d.complete(i0, success(Some("shared")));
    let (i2, k2) = d.try_launch().expect("capacity freed");
    assert_eq!((i2, k2.as_str()), (2, "c"));
    assert!(d.try_launch().is_none(), "nothing left to launch");
    assert!(!d.finished());

    // Completions may arrive in any order.
    d.complete(i2, failure("timeout"));
    d.complete(i1, success(None));
    assert!(d.finished());

    let m = d.into_outcomes();
    assert!(m.contains("a") && m.contains("b") && m.contains("c"));
}

#[test]
fn dispatch_records_each_outcome_at_its_own_key() {
    let keys = vec!["a".to_string(), "b".to_string(), "c".to_string()];
    let results = vec![success(Some("shared")), failure("boom"), success(None)];
    let m = run_dispatch(keys, 2, results);
    assert!(matches!(
        m.get("a"),
        Some(EnrichmentOutcome::Success { purpose: Some(p) }) if p == "shared"
    ));
    assert!(matches!(m.get("b"), Some(EnrichmentOutcome::Failure { message }) if message == "boom"));
    assert!(matches!(m.get("c"), Some(EnrichmentOutcome::Success { purpose: None })));
    assert!(m.get("d").is_none());
}

#[test]
fn one_failure_is_isolated_to_its_key() {
    // The lookup fails for x and succeeds for every other identity.
    let keys = vec!["w".to_string(), "x".to_string(), "y".to_string(), "z".to_string()];
    let results = vec![
        success(Some("shared")),
        failure("503 service unavailable"),
        success(Some("user")),
        success(None),
    ];
    let m = run_dispatch(keys, 4, results);
    assert!(matches!(m.get("x"), Some(EnrichmentOutcome::Failure { .. })));
    for k in ["w", "y", "z"] {
        assert!(matches!(m.get(k), Some(EnrichmentOutcome::Success { .. })));
    }
}

#[test]
fn classify_lookup_cases() {
    match classify_lookup(200, Some(Some("shared".to_string())), String::new()) {
        EnrichmentOutcome::Success { purpose } => assert_eq!(purpose.as_deref(), Some("shared")),
        _ => panic!("success status with decoded body"),
    }
    match classify_lookup(200, Some(None), String::new()) {
        EnrichmentOutcome::Success { purpose } => assert_eq!(purpose, None),
        _ => panic!("success status with absent purpose"),
    }
    match classify_lookup(200, None, "not json".to_string()) {
        EnrichmentOutcome::Failure { message } => assert_eq!(message, "not json"),
        _ => panic!("undecodable body is a failure"),
    }
    match classify_lookup(404, Some(Some("shared".to_string())), "missing".to_string()) {
        EnrichmentOutcome::Failure { message } => assert_eq!(message, "missing"),
        _ => panic!("non-success status is a failure"),
    }
}
