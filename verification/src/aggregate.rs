//! The result aggregator.
//!
//! A pure join of the primary records with the enrichment outcomes: records
//! are walked in discovery order, each identity is looked up in the map, and
//! the audit predicate decides whether the identity enters the report.  A
//! record with no enrichment entry — filtered out before dispatch, or whose
//! lookup failed and was excluded — is treated as non-matching.  This
//! component performs no I/O and cannot fail.

use vstd::prelude::*;
use crate::record::PrimaryRecord;
use crate::enrich::{EnrichmentMap, OutcomeModel, insert_all, pairs_unique,
    lemma_insert_all_order_independent};
use crate::fetch::{PageOutcome, FetchErrorModel, spec_fetch};
use crate::text::{str_eq, lower_of, lowercase};

verus! {

/// The audit predicate: the record's lookup succeeded and came back with the
/// target purpose.  A record without an entry does not match.
pub open spec fn spec_matches(
    record: PrimaryRecord,
    m: Map<Seq<char>, OutcomeModel>,
    target: Seq<char>,
) -> bool {
    &&& m.dom().contains(record.key@)
    &&& m[record.key@] matches OutcomeModel::Success { purpose: Some(p) } && p == target
}

/// The report of an audit: the matching identities, in the order the records
/// were discovered.
pub open spec fn spec_audit(
    records: Seq<PrimaryRecord>,
    m: Map<Seq<char>, OutcomeModel>,
    target: Seq<char>,
) -> Seq<Seq<char>>
    decreases records.len(),
{
    if records.len() == 0 {
        Seq::empty()
    } else {
        spec_audit(records.drop_last(), m, target) + if spec_matches(records.last(), m, target) {
            seq![records.last().key@]
        } else {
            Seq::empty()
        }
    }
}

/// The ordered sequence of matching identities, plus their count.
#[derive(Debug)]
pub struct AuditReport {
    /// Identities judged to match, in discovery order.
    pub identities: Vec<String>,
}

impl AuditReport {
    /// How many records matched.
    pub fn count(&self) -> (r: usize)
        ensures
            r == self.identities@.len(),
    {
        self.identities.len()
    }
}

/// Joins the records with the enrichment outcomes and produces the report:
/// exactly the identities whose record matches the audit predicate, in
/// discovery order.
pub fn aggregate(records: &Vec<PrimaryRecord>, m: &EnrichmentMap, target: &str) -> (report:
    AuditReport)
    requires
        m.wf(),
    ensures
        report.identities@.map_values(|k: String| k@) == spec_audit(records@, m.as_map(), target@),
{
    let n = records.len();
    let mut identities: Vec<String> = Vec::new();
    let mut i: usize = 0;
    while i < n
        invariant
            m.wf(),
            n == records@.len(),
            i <= n,
            identities@.map_values(|k: String| k@) == spec_audit(
                records@.take(i as int),
                m.as_map(),
                target@,
            ),
        decreases n - i,
    {
        let ghost pre = identities@;
        let is_match = match m.get(records[i].key.as_str()) {
            Some(outcome) => match outcome {
                crate::enrich::EnrichmentOutcome::Success { purpose: Some(p) } => str_eq(
                    p.as_str(),
                    target,
                ),
                _ => false,
            },
            None => false,
        };
        if is_match {
            identities.push(records[i].key.clone());
            proof {
                assert(identities@.map_values(|k: String| k@) =~= pre.map_values(
                    |k: String| k@,
                ).push(records@[i as int].key@));
            }
        }
        proof {
            assert(records@.take(i + 1).drop_last() =~= records@.take(i as int));
            assert(records@.take(i + 1).last() == records@[i as int]);
            assert(identities@.map_values(|k: String| k@) =~= spec_audit(
                records@.take(i + 1),
                m.as_map(),
                target@,
            ));
        }
        i += 1;
    }
    proof {
        assert(records@.take(n as int) =~= records@);
    }
    AuditReport { identities }
}

/// Aggregation order: the report is exactly the identities of the matching
/// records, filtered out of the listing in discovery order — a record never
/// overtakes one discovered before it.
pub proof fn lemma_audit_order(
    records: Seq<PrimaryRecord>,
    m: Map<Seq<char>, OutcomeModel>,
    target: Seq<char>,
)
    ensures
        spec_audit(records, m, target) == records.filter(
            |r: PrimaryRecord| spec_matches(r, m, target),
        ).map_values(|r: PrimaryRecord| r.key@),
    decreases records.len(),
{
    let pred = |r: PrimaryRecord| spec_matches(r, m, target);
    if records.len() == 0 {
        assert(records.filter(pred) =~= Seq::<PrimaryRecord>::empty());
        assert(spec_audit(records, m, target) =~= records.filter(pred).map_values(
            |r: PrimaryRecord| r.key@,
        ));
    } else {
        lemma_audit_order(records.drop_last(), m, target);
        reveal_with_fuel(Seq::filter, 2);
        if pred(records.last()) {
            assert(records.filter(pred) == records.drop_last().filter(pred).push(records.last()));
            assert(records.filter(pred).map_values(|r: PrimaryRecord| r.key@)
                =~= records.drop_last().filter(pred).map_values(|r: PrimaryRecord| r.key@).push(
                records.last().key@,
            ));
            assert(spec_audit(records, m, target) =~= records.filter(pred).map_values(
                |r: PrimaryRecord| r.key@,
            ));
        } else {
            assert(records.filter(pred) == records.drop_last().filter(pred));
            assert(spec_audit(records, m, target) =~= records.filter(pred).map_values(
                |r: PrimaryRecord| r.key@,
            ));
        }
    }
}

/// What a whole run reports, as a function of the remote data alone: the
/// page outcomes the listing produces in order, and the map the enrichment
/// completions build.  `None` when the page outcomes run out with a cursor
/// pending; otherwise the fetch error, or the ordered report.
pub open spec fn spec_pipeline(
    outcomes: Seq<PageOutcome>,
    lookup: Map<Seq<char>, OutcomeModel>,
    target: Seq<char>,
) -> Option<Result<Seq<Seq<char>>, FetchErrorModel>> {
    match spec_fetch(outcomes) {
        None => None,
        Some(Err(e)) => Some(Err(e)),
        Some(Ok(records)) => Some(Ok(spec_audit(records, lookup, target))),
    }
}

/// Idempotence: two runs against an unchanged remote data set — the same
/// page outcomes and the same per-identity enrichment completions, arriving
/// in any two orders — report the same identities in the same order.
pub proof fn lemma_pipeline_idempotent(
    outcomes: Seq<PageOutcome>,
    trace1: Seq<(Seq<char>, OutcomeModel)>,
    trace2: Seq<(Seq<char>, OutcomeModel)>,
    target: Seq<char>,
)
    requires
        trace1.to_multiset() == trace2.to_multiset(),
        pairs_unique(trace1),
        pairs_unique(trace2),
    ensures
        spec_pipeline(outcomes, insert_all(trace1), target) == spec_pipeline(
            outcomes,
            insert_all(trace2),
            target,
        ),
{
    lemma_insert_all_order_independent(trace1, trace2);
}

/// The directory-role audit's judgment of one role member: its mailbox
/// lookup succeeded and the purpose field folds to the target.
pub fn outcome_matches_folded(outcome: &crate::enrich::EnrichmentOutcome, target: &str) -> (r:
    bool)
    ensures
        r == (outcome@ matches OutcomeModel::Success { purpose: Some(p) } && lower_of(p)
            == target@),
{
    match outcome {
        crate::enrich::EnrichmentOutcome::Success { purpose: Some(p) } => purpose_matches_folded(
            p.as_str(),
            target,
        ),
        _ => false,
    }
}

/// The case-insensitive form of the audit comparison, as the directory-role
/// audit applies it: whether the purpose field lowercases to the target.
pub fn purpose_matches_folded(purpose: &str, target: &str) -> (r: bool)
    ensures
        r == (lower_of(purpose@) == target@),
{
    let folded = lowercase(purpose);
    str_eq(folded.as_str(), target)
}

} // verus!
