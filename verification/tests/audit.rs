use directory_audit::aggregate::{aggregate, outcome_matches_folded, purpose_matches_folded};
use directory_audit::enrich::{
    Dispatcher, EnrichmentMap, EnrichmentOutcome, classify_lookup, eligible_keys, run_dispatch,
};
use directory_audit::fetch::{Page, PageOutcome, run_fetch};
use directory_audit::record::{PrimaryRecord, keys_unique};

fn rec(key: &str, licensed: bool) -> PrimaryRecord {
    let licenses = if licensed { vec!["sku".to_string()] } else { Vec::new() };
    PrimaryRecord::new(key.to_string(), licenses)
}

fn success(purpose: Option<&str>) -> EnrichmentOutcome {
    EnrichmentOutcome::Success { purpose: purpose.map(|p| p.to_string()) }
}

fn failure(message: &str) -> EnrichmentOutcome {
    EnrichmentOutcome::Failure { message: message.to_string() }
}

#[test]
fn report_keeps_discovery_order() {
    // Predicate holds for a and c only: the report is [a, c], never [c, a].
    let records = vec![rec("a", true), rec("b", true), rec("c", true)];
    let mut m = EnrichmentMap::new();
    m.insert("a".to_string(), success(Some("shared")));
    m.insert("b".to_string(), success(Some("user")));
    m.insert("c".to_string(), success(Some("shared")));
    let report = aggregate(&records, &m, "shared");
    assert_eq!(report.identities, vec!["a".to_string(), "c".to_string()]);
    assert_eq!(report.count(), 2);
}

#[test]
fn report_order_does_not_depend_on_insertion_order() {
    let records = vec![rec("a", true), rec("b", true), rec("c", true)];
    let mut m = EnrichmentMap::new();
    // Same outcomes as the map of `report_keeps_discovery_order`, inserted in
    // the reverse order, as a different completion timing would produce them.
    m.insert("c".to_string(), success(Some("shared")));
    m.insert("b".to_string(), success(Some("user")));
    m.insert("a".to_string(), success(Some("shared")));
    let report = aggregate(&records, &m, "shared");
    assert_eq!(report.identities, vec!["a".to_string(), "c".to_string()]);
}

#[test]
fn records_without_entry_do_not_match() {
    let records = vec![rec("a", true), rec("b", false)];
    let mut m = EnrichmentMap::new();
    m.insert("a".to_string(), success(Some("shared")));
    let report = aggregate(&records, &m, "shared");
    assert_eq!(report.identities, vec!["a".to_string()]);
}

#[test]
fn failed_lookups_are_excluded_from_the_report() {
    let records = vec![rec("a", true), rec("b", true)];
    let mut m = EnrichmentMap::new();
    m.insert("a".to_string(), failure("timeout"));
    m.insert("b".to_string(), success(Some("shared")));
    let report = aggregate(&records, &m, "shared");
    assert_eq!(report.identities, vec!["b".to_string()]);
}

/// The whole pipeline on in-memory remote data: fetch, pre-filter, dispatch
/// against the given per-identity results, aggregate.
fn run_pipeline(
    outcomes: Vec<PageOutcome>,
    lookup: &dyn Fn(&str) -> EnrichmentOutcome,
) -> Vec<String> {
    let records = run_fetch("start".to_string(), outcomes)
        .expect("terminal page present")
        .expect("fetch succeeds");
    assert!(keys_unique(&records));
    let keys = eligible_keys(&records);
    let results: Vec<EnrichmentOutcome> = keys.iter().map(|k| lookup(k)).collect();
    let m = run_dispatch(keys, 4, results);
    aggregate(&records, &m, "shared").identities
}

fn scenario_pages() -> Vec<PageOutcome> {
    vec![
        PageOutcome::Page(Page {
            records: vec![rec("alice", true), rec("bob", false)],
            next: Some("page-2".to_string()),
        }),
        PageOutcome::Page(Page { records: vec![rec("carol", true)], next: None }),
    ]
}

fn scenario_lookup(key: &str) -> EnrichmentOutcome {
    match key {
        "alice" => classify_lookup(200, Some(Some("shared".to_string())), String::new()),
        "carol" => classify_lookup(503, None, "service unavailable".to_string()),
        other => panic!("unexpected lookup for {other}"),
    }
}

#[test]
fn shared_mailbox_scenario() {
    // alice is licensed and her mailbox purpose is "shared"; bob carries no
    // license and is never dispatched; carol is licensed but her lookup
    // fails, so she is absent from the report.
    let records = run_fetch("start".to_string(), scenario_pages()).unwrap().unwrap();
    assert!(keys_unique(&records));
    let keys = eligible_keys(&records);
    assert_eq!(keys, vec!["alice".to_string(), "carol".to_string()], "bob is never dispatched");

    let results: Vec<EnrichmentOutcome> = keys.iter().map(|k| scenario_lookup(k)).collect();
    let m = run_dispatch(keys, 2, results);
    assert!(!m.contains("bob"));
    match m.get("carol") {
        Some(EnrichmentOutcome::Failure { message }) => {
            assert_eq!(message, "service unavailable", "carol's diagnostic is recorded")
        }
        _ => panic!("carol's failure must be recorded"),
    }

    let report = aggregate(&records, &m, "shared");
    assert_eq!(report.identities, vec!["alice".to_string()]);
}

#[test]
fn pipeline_is_idempotent_against_unchanged_data() {
    let first = run_pipeline(scenario_pages(), &scenario_lookup);
    let second = run_pipeline(scenario_pages(), &scenario_lookup);
    assert_eq!(first, second);
}

#[test]
fn report_does_not_depend_on_completion_order() {
    let records = vec![rec("alice", true), rec("bob", false), rec("carol", true)];
    let keys = eligible_keys(&records);

    // One run completes in launch order, the other in reverse.
    let mut forward = Dispatcher::new(keys.clone(), 2);
    let (i0, k0) = forward.try_launch().unwrap();
    let (i1, k1) = forward.try_launch().unwrap();
    forward.complete(i0, scenario_lookup(&k0));
    forward.complete(i1, scenario_lookup(&k1));
    let forward_report = aggregate(&records, &forward.into_outcomes(), "shared");

    let mut backward = Dispatcher::new(keys, 2);
    let (j0, l0) = backward.try_launch().unwrap();
    let (j1, l1) = backward.try_launch().unwrap();
    backward.complete(j1, scenario_lookup(&l1));
    backward.complete(j0, scenario_lookup(&l0));
    let backward_report = aggregate(&records, &backward.into_outcomes(), "shared");

    assert_eq!(forward_report.identities, backward_report.identities);
    assert_eq!(forward_report.identities, vec!["alice".to_string()]);
}

#[test]
fn folded_purpose_comparison() {
    assert!(purpose_matches_folded("shared", "shared"));
    assert!(purpose_matches_folded("SHARED", "shared"));
    assert!(purpose_matches_folded("Shared", "shared"));
    assert!(!purpose_matches_folded("user", "shared"));
    assert!(!purpose_matches_folded("shared ", "shared"));
}

#[test]
fn folded_outcome_judgment() {
    assert!(outcome_matches_folded(&success(Some("Shared")), "shared"));
    assert!(!outcome_matches_folded(&success(Some("user")), "shared"));
    assert!(!outcome_matches_folded(&success(None), "shared"));
    assert!(!outcome_matches_folded(&failure("timeout"), "shared"));
}
