//! Primary records: the directory objects surfaced by the paginated listing.

use vstd::prelude::*;
use crate::text::str_eq;

verus! {

/// One directory object from the primary listing: a stable identity plus the
/// attributes the pre-filter reads.  Immutable after creation.
#[derive(Debug)]
pub struct PrimaryRecord {
    /// Stable identity, e.g. a principal name or object id.
    pub key: String,
    /// Identifiers of the licenses assigned to the object.
    pub assigned_licenses: Vec<String>,
}

/// Mathematical image of a [`PrimaryRecord`].
pub struct RecordModel {
    pub key: Seq<char>,
    pub assigned_licenses: Seq<Seq<char>>,
}

impl View for PrimaryRecord {
    type V = RecordModel;

    open spec fn view(&self) -> RecordModel {
        RecordModel {
            key: self.key@,
            assigned_licenses: self.assigned_licenses.deep_view(),
        }
    }
}

/// The pre-filter: a record warrants the secondary lookup iff it carries at
/// least one assigned license.
pub open spec fn spec_eligible(r: RecordModel) -> bool {
    r.assigned_licenses.len() > 0
}

/// The identities of a record sequence, in discovery order.
pub open spec fn keys_of(records: Seq<PrimaryRecord>) -> Seq<Seq<char>> {
    records.map_values(|r: PrimaryRecord| r.key@)
}

/// No two records carry the same identity.  Pagination of a directory is
/// expected to surface each object once; the enrichment dispatcher requires
/// this so that no two lookups ever write the same key.
pub open spec fn unique_keys(records: Seq<PrimaryRecord>) -> bool {
    forall|i: int, j: int|
        0 <= i < j < records.len() ==> records[i].key@ != records[j].key@
}

impl PrimaryRecord {
    pub fn new(key: String, assigned_licenses: Vec<String>) -> (r: PrimaryRecord)
        ensures
            r.key@ == key@,
            r.assigned_licenses == assigned_licenses,
    {
        PrimaryRecord { key, assigned_licenses }
    }

    /// Executable form of the pre-filter.
    pub fn eligible(&self) -> (r: bool)
        ensures
            r == spec_eligible(self@),
    {
        self.assigned_licenses.len() > 0
    }
}

/// Decides whether every record carries a distinct identity.
pub fn keys_unique(records: &Vec<PrimaryRecord>) -> (r: bool)
    ensures
        r == unique_keys(records@),
{
    let n = records.len();
    let mut i: usize = 0;
    while i < n
        invariant
            n == records@.len(),
            i <= n,
            forall|p: int, q: int| 0 <= p < q < i ==> records@[p].key@ != records@[q].key@,
        decreases n - i,
    {
        let mut j: usize = 0;
        while j < i
            invariant
                n == records@.len(),
                i < n,
                j <= i,
                forall|q: int| 0 <= q < j ==> records@[q].key@ != records@[i as int].key@,
            decreases i - j,
        {
            if str_eq(records[j].key.as_str(), records[i].key.as_str()) {
                return false;
            }
            j += 1;
        }
        i += 1;
    }
    true
}

} // verus!
