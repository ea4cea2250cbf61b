//! The enrichment dispatcher.
//!
//! After the fetch completes, each record that passes the pre-filter gets a
//! secondary per-record lookup (e.g. its mailbox settings).  The lookups run
//! concurrently outside the library, bounded by a configurable number of
//! in-flight requests; the [`Dispatcher`] decides what may be launched and
//! collects every outcome into an [`EnrichmentMap`] keyed by record identity.
//! One record's failure is recorded against its key and never disturbs the
//! other records or the run as a whole.

use vstd::prelude::*;
use crate::record::{PrimaryRecord, spec_eligible, unique_keys};
use crate::text::str_eq;
use crate::fetch::spec_status_success;

verus! {

/// What one record's secondary lookup produced.  Written exactly once per
/// dispatched record; read-only thereafter.
#[derive(Debug)]
pub enum EnrichmentOutcome {
    /// The secondary resource's value: the purpose field of the record's
    /// mailbox, absent when the mailbox carries none.
    Success { purpose: Option<String> },
    /// The lookup failed; carries the diagnostic message.
    Failure { message: String },
}

/// Mathematical image of an [`EnrichmentOutcome`].
pub enum OutcomeModel {
    Success { purpose: Option<Seq<char>> },
    Failure { message: Seq<char> },
}

impl View for EnrichmentOutcome {
    type V = OutcomeModel;

    open spec fn view(&self) -> OutcomeModel {
        match self {
            EnrichmentOutcome::Success { purpose } => OutcomeModel::Success {
                purpose: purpose.deep_view(),
            },
            EnrichmentOutcome::Failure { message } => OutcomeModel::Failure { message: message@ },
        }
    }
}

/// The outcome a secondary lookup records, decided from the response status,
/// the decoded purpose field (`None` when the body did not decode), and the
/// response body for the diagnostic of a failed request.
pub fn classify_lookup(status: u16, decoded: Option<Option<String>>, body: String) -> (r:
    EnrichmentOutcome)
    ensures
        spec_status_success(status) ==> match decoded {
            Some(purpose) => r matches EnrichmentOutcome::Success { purpose: p } && p.deep_view()
                == purpose.deep_view(),
            None => r matches EnrichmentOutcome::Failure { message } && message@ == body@,
        },
        !spec_status_success(status) ==> (r matches EnrichmentOutcome::Failure { message }
            && message@ == body@),
{
    if 200 <= status && status < 300 {
        match decoded {
            Some(purpose) => EnrichmentOutcome::Success { purpose },
            None => EnrichmentOutcome::Failure { message: body },
        }
    } else {
        EnrichmentOutcome::Failure { message: body }
    }
}

/// The mathematical mapping an entry list denotes, later entries winning.
pub open spec fn map_of_entries(entries: Seq<(String, EnrichmentOutcome)>) -> Map<
    Seq<char>,
    OutcomeModel,
>
    decreases entries.len(),
{
    if entries.len() == 0 {
        Map::empty()
    } else {
        map_of_entries(entries.drop_last()).insert(entries.last().0@, entries.last().1@)
    }
}

/// Distinct identities across an entry list.
pub open spec fn entries_unique(entries: Seq<(String, EnrichmentOutcome)>) -> bool {
    forall|i: int, j: int| 0 <= i < j < entries.len() ==> entries[i].0@ != entries[j].0@
}

proof fn lemma_entries_dom(entries: Seq<(String, EnrichmentOutcome)>)
    ensures
        forall|k: Seq<char>|
            #[trigger] map_of_entries(entries).dom().contains(k) <==> exists|i: int|
                0 <= i < entries.len() && (#[trigger] entries[i]).0@ == k,
    decreases entries.len(),
{
    if entries.len() > 0 {
        lemma_entries_dom(entries.drop_last());
        assert forall|k: Seq<char>| #[trigger]
            map_of_entries(entries).dom().contains(k) implies exists|i: int|
            0 <= i < entries.len() && (#[trigger] entries[i]).0@ == k by {
            if k == entries.last().0@ {
                assert(entries[entries.len() - 1].0@ == k);
            } else {
                assert(map_of_entries(entries.drop_last()).dom().contains(k));
                let i = choose|i: int|
                    0 <= i < entries.drop_last().len() && (#[trigger] entries.drop_last()[i]).0@
                        == k;
                assert(entries.drop_last()[i] == entries[i]);
                assert(entries[i].0@ == k);
            }
        }
        assert forall|k: Seq<char>|
            (exists|i: int|
                0 <= i < entries.len() && (#[trigger] entries[i]).0@ == k) implies #[trigger]
            map_of_entries(entries).dom().contains(k) by {
            let i = choose|i: int| 0 <= i < entries.len() && (#[trigger] entries[i]).0@ == k;
            if i < entries.len() - 1 {
                assert(entries.drop_last()[i].0@ == k);
                assert(map_of_entries(entries.drop_last()).dom().contains(k));
            }
        }
    }
}

proof fn lemma_entries_value(entries: Seq<(String, EnrichmentOutcome)>, i: int)
    requires
        entries_unique(entries),
        0 <= i < entries.len(),
    ensures
        map_of_entries(entries).dom().contains(entries[i].0@),
        map_of_entries(entries)[entries[i].0@] == entries[i].1@,
    decreases entries.len(),
{
    if i < entries.len() - 1 {
        lemma_entries_value(entries.drop_last(), i);
        assert(entries.drop_last()[i] == entries[i]);
    }
}

/// Mapping from record identity to its enrichment outcome; identities are
/// unique, insertion order is irrelevant to the mapping it denotes.
pub struct EnrichmentMap {
    entries: Vec<(String, EnrichmentOutcome)>,
}

impl EnrichmentMap {
    /// The mapping as a mathematical map.
    pub closed spec fn as_map(self) -> Map<Seq<char>, OutcomeModel> {
        map_of_entries(self.entries@)
    }

    /// Each dispatched record writes its own key, so keys stay distinct.
    pub closed spec fn wf(self) -> bool {
        entries_unique(self.entries@)
    }

    /// An empty mapping.
    pub fn new() -> (r: EnrichmentMap)
        ensures
            r.wf(),
            r.as_map() =~= Map::<Seq<char>, OutcomeModel>::empty(),
    {
        EnrichmentMap { entries: Vec::new() }
    }

    /// Records the outcome for one identity not yet present.
    pub fn insert(&mut self, key: String, outcome: EnrichmentOutcome)
        requires
            old(self).wf(),
            !old(self).as_map().dom().contains(key@),
        ensures
            final(self).wf(),
            final(self).as_map() == old(self).as_map().insert(key@, outcome@),
    {
        proof {
            lemma_entries_dom(self.entries@);
        }
        let ghost pre = self.entries@;
        self.entries.push((key, outcome));
        proof {
            assert(self.entries@.drop_last() =~= pre);
        }
    }

    /// Looks an identity up.
    pub fn get(&self, key: &str) -> (r: Option<&EnrichmentOutcome>)
        requires
            self.wf(),
        ensures
            match r {
                Some(outcome) => self.as_map().dom().contains(key@) && outcome@ == self.as_map()[
                    key@],
                None => !self.as_map().dom().contains(key@),
            },
    {
        let n = self.entries.len();
        let mut i: usize = 0;
        while i < n
            invariant
                self.wf(),
                n == self.entries@.len(),
                i <= n,
                forall|j: int| 0 <= j < i ==> (#[trigger] self.entries@[j]).0@ != key@,
            decreases n - i,
        {
            if str_eq(self.entries[i].0.as_str(), key) {
                proof {
                    lemma_entries_value(self.entries@, i as int);
                }
                return Some(&self.entries[i].1);
            }
            i += 1;
        }
        proof {
            lemma_entries_dom(self.entries@);
        }
        None
    }

    /// Whether an identity has an outcome recorded.
    pub fn contains(&self, key: &str) -> (r: bool)
        requires
            self.wf(),
        ensures
            r == self.as_map().dom().contains(key@),
    {
        self.get(key).is_some()
    }
}

spec fn count_true(s: Seq<bool>) -> nat
    decreases s.len(),
{
    if s.len() == 0 {
        0
    } else {
        count_true(s.drop_last()) + if s.last() {
            1nat
        } else {
            0nat
        }
    }
}

proof fn lemma_count_true_all_false(s: Seq<bool>)
    requires
        forall|i: int| 0 <= i < s.len() ==> !s[i],
    ensures
        count_true(s) == 0,
    decreases s.len(),
{
    if s.len() > 0 {
        lemma_count_true_all_false(s.drop_last());
    }
}

proof fn lemma_count_true_update(s: Seq<bool>, i: int)
    requires
        0 <= i < s.len(),
        !s[i],
    ensures
        count_true(s.update(i, true)) == count_true(s) + 1,
    decreases s.len(),
{
    if i == s.len() - 1 {
        assert(s.update(i, true).drop_last() =~= s.drop_last());
        assert(s.update(i, true).last());
    } else {
        lemma_count_true_update(s.drop_last(), i);
        assert(s.update(i, true).drop_last() =~= s.drop_last().update(i, true));
        assert(s.update(i, true).last() == s.last());
    }
}

proof fn lemma_count_true_bound(s: Seq<bool>)
    ensures
        count_true(s) <= s.len(),
    decreases s.len(),
{
    if s.len() > 0 {
        lemma_count_true_bound(s.drop_last());
    }
}

proof fn lemma_count_true_full(s: Seq<bool>)
    requires
        count_true(s) == s.len(),
    ensures
        forall|i: int| 0 <= i < s.len() ==> s[i],
    decreases s.len(),
{
    if s.len() > 0 {
        lemma_count_true_bound(s.drop_last());
        lemma_count_true_full(s.drop_last());
        assert forall|i: int| 0 <= i < s.len() implies s[i] by {
            if i < s.len() - 1 {
                assert(s.drop_last()[i]);
            }
        }
    }
}

proof fn lemma_count_true_missing(s: Seq<bool>, bound: int, p: int)
    requires
        0 <= p < bound <= s.len(),
        !s[p],
        forall|i: int| 0 <= i < s.len() && s[i] ==> i < bound,
    ensures
        count_true(s) < bound,
    decreases s.len(),
{
    if s.len() > bound {
        assert(!s.last());
        lemma_count_true_missing(s.drop_last(), bound, p);
    } else if p == s.len() - 1 {
        assert(!s.last());
        lemma_count_true_bound(s.drop_last());
    } else {
        lemma_count_true_missing(s.drop_last(), bound - 1, p);
    }
}

/// The enrichment dispatcher: decides which secondary lookups may be launched,
/// keeps the number in flight within a bound, and collects each task's outcome
/// against its record's identity.
///
/// The identities are handed out in discovery order; outcomes may come back in
/// any order.  The caller that runs the lookups concurrently alternates
/// [`Dispatcher::try_launch`] and [`Dispatcher::complete`] until
/// [`Dispatcher::finished`], then takes the map with
/// [`Dispatcher::into_outcomes`].
pub struct Dispatcher {
    keys: Vec<String>,
    limit: usize,
    launched: usize,
    done: Vec<bool>,
    in_flight: usize,
    outcomes: EnrichmentMap,
}

impl Dispatcher {
    /// The identities to enrich, in discovery order.
    pub closed spec fn spec_keys(self) -> Seq<Seq<char>> {
        self.keys@.map_values(|k: String| k@)
    }

    /// The bound on simultaneously in-flight lookups.
    pub closed spec fn spec_limit(self) -> int {
        self.limit as int
    }

    /// How many lookups have been launched; always a prefix of the identities.
    pub closed spec fn spec_launched(self) -> int {
        self.launched as int
    }

    /// Which tasks have their outcome recorded.
    pub closed spec fn spec_done(self) -> Seq<bool> {
        self.done@
    }

    /// How many lookups are in flight: launched, outcome not yet recorded.
    pub closed spec fn spec_in_flight(self) -> int {
        self.in_flight as int
    }

    /// The outcomes recorded so far.
    pub closed spec fn spec_outcomes(self) -> Map<Seq<char>, OutcomeModel> {
        self.outcomes.as_map()
    }

    /// The identities of the tasks recorded so far.
    pub closed spec fn done_key_set(self) -> Set<Seq<char>> {
        Set::new(
            |k: Seq<char>|
                exists|i: int|
                    0 <= i < self.done@.len() && self.done@[i] && (#[trigger] self.keys@[i])@ == k,
        )
    }

    pub closed spec fn wf(self) -> bool {
        &&& self.done@.len() == self.keys@.len()
        &&& self.launched <= self.keys@.len()
        &&& 1 <= self.limit
        &&& forall|i: int| 0 <= i < self.done@.len() && self.done@[i] ==> i < self.launched
        &&& self.in_flight == self.launched - count_true(self.done@)
        &&& self.in_flight <= self.limit
        &&& forall|i: int, j: int|
            0 <= i < j < self.keys@.len() ==> (#[trigger] self.keys@[i])@ != (
            #[trigger] self.keys@[j])@
        &&& self.outcomes.wf()
        &&& self.outcomes.as_map().dom() == self.done_key_set()
    }

    /// A fresh dispatcher over distinct identities, with nothing launched.
    pub fn new(keys: Vec<String>, limit: usize) -> (d: Dispatcher)
        requires
            limit >= 1,
            forall|i: int, j: int|
                0 <= i < j < keys@.len() ==> (#[trigger] keys@[i])@ != (#[trigger] keys@[j])@,
        ensures
            d.wf(),
            d.spec_keys() == keys@.map_values(|k: String| k@),
            d.spec_limit() == limit,
            d.spec_launched() == 0,
            d.spec_in_flight() == 0,
            d.spec_outcomes() =~= Map::<Seq<char>, OutcomeModel>::empty(),
    {
        let n = keys.len();
        let done = vec![false; n];
        let d = Dispatcher {
            keys,
            limit,
            launched: 0,
            done,
            in_flight: 0,
            outcomes: EnrichmentMap::new(),
        };
        proof {
            lemma_count_true_all_false(d.done@);
            assert(d.outcomes.as_map().dom() =~= d.done_key_set());
        }
        d
    }

    /// How many lookups the dispatch will perform in all.
    pub fn task_count(&self) -> (r: usize)
        ensures
            r == self.spec_keys().len(),
    {
        self.keys.len()
    }

    /// Hands out the next lookup to launch — its task index and the record's
    /// identity — when one remains and the bound admits another in-flight
    /// request; `None` otherwise.
    pub fn try_launch(&mut self) -> (r: Option<(usize, String)>)
        requires
            old(self).wf(),
        ensures
            final(self).wf(),
            final(self).spec_keys() == old(self).spec_keys(),
            final(self).spec_limit() == old(self).spec_limit(),
            final(self).spec_done() == old(self).spec_done(),
            final(self).spec_outcomes() == old(self).spec_outcomes(),
            match r {
                Some((index, key)) => {
                    &&& old(self).spec_launched() < old(self).spec_keys().len()
                    &&& old(self).spec_in_flight() < old(self).spec_limit()
                    &&& index == old(self).spec_launched()
                    &&& key@ == old(self).spec_keys()[index as int]
                    &&& final(self).spec_launched() == old(self).spec_launched() + 1
                    &&& final(self).spec_in_flight() == old(self).spec_in_flight() + 1
                },
                None => {
                    &&& !(old(self).spec_launched() < old(self).spec_keys().len() && old(
                        self,
                    ).spec_in_flight() < old(self).spec_limit())
                    &&& *final(self) == *old(self)
                },
            },
    {
        if self.launched < self.keys.len() && self.in_flight < self.limit {
            let key = self.keys[self.launched].clone();
            let index = self.launched;
            self.launched += 1;
            self.in_flight += 1;
            Some((index, key))
        } else {
            None
        }
    }

    /// Records the outcome that the lookup launched as task `index` came back
    /// with.  Each task completes exactly once, so its key is new to the map.
    pub fn complete(&mut self, index: usize, outcome: EnrichmentOutcome)
        requires
            old(self).wf(),
            index < old(self).spec_launched(),
            !old(self).spec_done()[index as int],
        ensures
            final(self).wf(),
            final(self).spec_keys() == old(self).spec_keys(),
            final(self).spec_limit() == old(self).spec_limit(),
            final(self).spec_launched() == old(self).spec_launched(),
            final(self).spec_done() == old(self).spec_done().update(index as int, true),
            final(self).spec_in_flight() == old(self).spec_in_flight() - 1,
            final(self).spec_outcomes() == old(self).spec_outcomes().insert(
                old(self).spec_keys()[index as int],
                outcome@,
            ),
    {
        let key = self.keys[index].clone();
        proof {
            assert(!self.outcomes.as_map().dom().contains(key@)) by {
                if self.done_key_set().contains(key@) {
                    let i = choose|i: int|
                        0 <= i < self.done@.len() && self.done@[i] && (#[trigger] self.keys@[i])@
                            == key@;
                    assert(i != index);
                }
            }
            lemma_count_true_missing(self.done@, self.launched as int, index as int);
            lemma_count_true_update(self.done@, index as int);
        }
        let ghost pre = *self;
        self.outcomes.insert(key, outcome);
        self.done.set(index, true);
        self.in_flight -= 1;
        proof {
            assert(self.outcomes.as_map().dom() =~= self.done_key_set()) by {
                assert forall|k: Seq<char>| #[trigger]
                    self.outcomes.as_map().dom().contains(k) implies self.done_key_set().contains(
                    k,
                ) by {
                    if k == pre.keys@[index as int]@ {
                        assert(self.done@[index as int] && self.keys@[index as int]@ == k);
                    } else {
                        let i = choose|i: int|
                            0 <= i < pre.done@.len() && pre.done@[i] && (#[trigger] pre.keys@[i])@
                                == k;
                        assert(self.done@[i] && self.keys@[i]@ == k);
                    }
                }
                assert forall|k: Seq<char>| #[trigger]
                    self.done_key_set().contains(k) implies self.outcomes.as_map().dom().contains(
                    k,
                ) by {
                    let i = choose|i: int|
                        0 <= i < self.done@.len() && self.done@[i] && (#[trigger] self.keys@[i])@
                            == k;
                    if i != index {
                        assert(pre.done@[i] && pre.keys@[i]@ == k);
                        assert(pre.done_key_set().contains(k));
                    }
                }
            }
        }
    }

    /// Whether every lookup has been launched and every outcome recorded.
    pub fn finished(&self) -> (r: bool)
        requires
            self.wf(),
        ensures
            r == (self.spec_launched() == self.spec_keys().len() && self.spec_in_flight() == 0),
            r ==> forall|i: int| 0 <= i < self.spec_done().len() ==> self.spec_done()[i],
    {
        let r = self.launched == self.keys.len() && self.in_flight == 0;
        proof {
            if r {
                lemma_count_true_full(self.done@);
            }
        }
        r
    }

    /// Hands the collected outcomes out once every lookup has completed: one
    /// entry per identity, whatever order the completions arrived in.
    pub fn into_outcomes(self) -> (m: EnrichmentMap)
        requires
            self.wf(),
            self.spec_launched() == self.spec_keys().len(),
            self.spec_in_flight() == 0,
        ensures
            m.wf(),
            m.as_map() == self.spec_outcomes(),
            m.as_map().dom() =~= self.spec_keys().to_set(),
    {
        proof {
            lemma_count_true_full(self.done@);
            assert forall|k: Seq<char>| #[trigger]
                self.spec_keys().to_set().contains(k) implies self.done_key_set().contains(k) by {
                let i = choose|i: int|
                    0 <= i < self.spec_keys().len() && (#[trigger] self.spec_keys()[i]) == k;
                assert(self.done@[i] && self.keys@[i]@ == k);
            }
            assert forall|k: Seq<char>| #[trigger]
                self.done_key_set().contains(k) implies self.spec_keys().to_set().contains(k) by {
                let i = choose|i: int|
                    0 <= i < self.done@.len() && self.done@[i] && (#[trigger] self.keys@[i])@ == k;
                assert(self.spec_keys()[i] == k);
            }
        }
        self.outcomes
    }
}

/// The identities of the records that pass the pre-filter, in discovery
/// order.
pub open spec fn spec_eligible_keys(records: Seq<PrimaryRecord>) -> Seq<Seq<char>>
    decreases records.len(),
{
    if records.len() == 0 {
        Seq::empty()
    } else {
        spec_eligible_keys(records.drop_last()) + if spec_eligible(records.last()@) {
            seq![records.last().key@]
        } else {
            Seq::empty()
        }
    }
}

/// Every eligible identity is the identity of some record.
pub proof fn lemma_eligible_keys_membership(records: Seq<PrimaryRecord>)
    ensures
        forall|p: int| #![trigger spec_eligible_keys(records)[p]]
            0 <= p < spec_eligible_keys(records).len() ==> exists|i: int|
                0 <= i < records.len() && (#[trigger] records[i]).key@ == spec_eligible_keys(
                    records,
                )[p],
    decreases records.len(),
{
    if records.len() > 0 {
        lemma_eligible_keys_membership(records.drop_last());
        let prefix = spec_eligible_keys(records.drop_last());
        assert forall|p: int| #![trigger spec_eligible_keys(records)[p]]
            0 <= p < spec_eligible_keys(records).len() implies exists|i: int|
            0 <= i < records.len() && (#[trigger] records[i]).key@ == spec_eligible_keys(records)[p] by {
            if p < prefix.len() {
                let i = choose|i: int|
                    0 <= i < records.drop_last().len() && (#[trigger] records.drop_last()[i]).key@
                        == prefix[p];
                assert(records[i].key@ == spec_eligible_keys(records)[p]);
            } else {
                assert(records[records.len() - 1].key@ == spec_eligible_keys(records)[p]);
            }
        }
    }
}

/// Distinct record identities give distinct eligible identities.
pub proof fn lemma_eligible_keys_unique(records: Seq<PrimaryRecord>)
    requires
        unique_keys(records),
    ensures
        forall|p: int, q: int|
            0 <= p < q < spec_eligible_keys(records).len() ==> spec_eligible_keys(records)[p]
                != spec_eligible_keys(records)[q],
    decreases records.len(),
{
    if records.len() > 0 {
        lemma_eligible_keys_unique(records.drop_last());
        lemma_eligible_keys_membership(records.drop_last());
        let prefix = spec_eligible_keys(records.drop_last());
        assert forall|p: int, q: int|
            0 <= p < q < spec_eligible_keys(records).len() implies spec_eligible_keys(records)[p]
            != spec_eligible_keys(records)[q] by {
            if q < prefix.len() {
                assert(prefix[p] != prefix[q]);
            } else {
                // q names the appended identity, that of the last record;
                // p names the identity of some earlier record.
                let i = choose|i: int|
                    0 <= i < records.drop_last().len() && (#[trigger] records.drop_last()[i]).key@
                        == prefix[p];
                assert(records[i].key@ == prefix[p]);
                assert(records[i].key@ != records[records.len() - 1].key@);
            }
        }
    }
}

/// Applies the pre-filter: the identities of the records that warrant a
/// secondary lookup, in discovery order.
pub fn eligible_keys(records: &Vec<PrimaryRecord>) -> (r: Vec<String>)
    ensures
        r@.map_values(|k: String| k@) == spec_eligible_keys(records@),
{
    let n = records.len();
    let mut keys: Vec<String> = Vec::new();
    let mut i: usize = 0;
    while i < n
        invariant
            n == records@.len(),
            i <= n,
            keys@.map_values(|k: String| k@) == spec_eligible_keys(records@.take(i as int)),
        decreases n - i,
    {
        let ghost pre = keys@;
        if records[i].eligible() {
            keys.push(records[i].key.clone());
            proof {
                assert(keys@.map_values(|k: String| k@) =~= pre.map_values(|k: String| k@).push(
                    records@[i as int].key@,
                ));
            }
        }
        proof {
            assert(records@.take(i + 1).drop_last() =~= records@.take(i as int));
            assert(records@.take(i + 1).last() == records@[i as int]);
            assert(keys@.map_values(|k: String| k@) =~= spec_eligible_keys(
                records@.take(i + 1),
            ));
        }
        i += 1;
    }
    proof {
        assert(records@.take(n as int) =~= records@);
    }
    keys
}

impl Dispatcher {
    /// Builds the dispatcher for a listing: selects the eligible records and
    /// prepares their lookups under the given concurrency bound.
    pub fn for_records(records: &Vec<PrimaryRecord>, limit: usize) -> (d: Dispatcher)
        requires
            limit >= 1,
            unique_keys(records@),
        ensures
            d.wf(),
            d.spec_keys() == spec_eligible_keys(records@),
            d.spec_limit() == limit,
            d.spec_launched() == 0,
            d.spec_in_flight() == 0,
            d.spec_outcomes() =~= Map::<Seq<char>, OutcomeModel>::empty(),
    {
        let keys = eligible_keys(records);
        proof {
            lemma_eligible_keys_unique(records@);
            assert forall|i: int, j: int| 0 <= i < j < keys@.len() implies (#[trigger] keys@[i])@
                != (#[trigger] keys@[j])@ by {
                assert(keys@.map_values(|k: String| k@)[i] == keys@[i]@);
                assert(keys@.map_values(|k: String| k@)[j] == keys@[j]@);
                assert(spec_eligible_keys(records@)[i] != spec_eligible_keys(records@)[j]);
            }
        }
        Dispatcher::new(keys, limit)
    }
}

/// Runs a whole dispatch against pre-collected lookup results, one per
/// identity in order, completing each task as soon as it is launched.
///
/// Enrichment isolation: this accepts any mix of success and failure results
/// — a failed lookup is recorded against its own key and nothing else — and
/// the map that comes out pairs every identity with exactly the result of its
/// own lookup.
#[verifier::loop_isolation(false)]
pub fn run_dispatch(keys: Vec<String>, limit: usize, results: Vec<EnrichmentOutcome>) -> (m:
    EnrichmentMap)
    requires
        limit >= 1,
        keys@.len() == results@.len(),
        forall|i: int, j: int|
            0 <= i < j < keys@.len() ==> (#[trigger] keys@[i])@ != (#[trigger] keys@[j])@,
    ensures
        m.wf(),
        m.as_map().dom() =~= keys@.map_values(|k: String| k@).to_set(),
        forall|i: int|
            0 <= i < keys@.len() ==> m.as_map()[(#[trigger] keys@[i])@] == results@[i]@,
{
    let ghost all_keys = keys@.map_values(|k: String| k@);
    let ghost all_results = results@;
    proof {
        assert(forall|i: int|
            0 <= i < keys@.len() ==> all_keys[i] == (#[trigger] keys@[i])@);
        assert(all_keys.len() == keys@.len());
        assert(all_results.len() == keys@.len());
    }
    let mut remaining = results;
    let mut d = Dispatcher::new(keys, limit);
    loop
        invariant
            d.wf(),
            d.spec_keys() == all_keys,
            d.spec_limit() == limit,
            d.spec_in_flight() == 0,
            d.spec_launched() == all_keys.len() - remaining@.len(),
            remaining@ =~= all_results.subrange(d.spec_launched(), all_results.len() as int),
            forall|j: int| 0 <= j < d.spec_launched() ==> d.spec_done()[j],
            forall|j: int|
                0 <= j < d.spec_launched() ==> d.spec_outcomes()[all_keys[j]] == all_results[j]@,
        decreases remaining@.len(),
    {
        if remaining.len() == 0 {
            let m = d.into_outcomes();
            proof {
                assert forall|i: int| 0 <= i < keys@.len() implies m.as_map()[(
                #[trigger] keys@[i])@] == results@[i]@ by {
                    assert(m.as_map()[all_keys[i]] == all_results[i]@);
                }
            }
            return m;
        }
        let ghost launched = d.spec_launched();
        match d.try_launch() {
            Some((index, _key)) => {
                let outcome = remaining.remove(0);
                proof {
                    assert(all_results[index as int] == outcome);
                }
                d.complete(index, outcome);
                proof {
                    assert forall|j: int|
                        0 <= j < d.spec_launched() implies d.spec_outcomes()[all_keys[j]]
                        == all_results[j]@ by {
                        if j < launched {
                            assert(all_keys[j] != all_keys[index as int]);
                        }
                    }
                }
            },
            None => {
                proof {
                    assert(false);
                }
                return d.into_outcomes();
            },
        }
    }
}

/// The map a completion trace builds: each `(identity, outcome)` completion
/// recorded in trace order.
pub open spec fn insert_all(pairs: Seq<(Seq<char>, OutcomeModel)>) -> Map<Seq<char>, OutcomeModel>
    decreases pairs.len(),
{
    if pairs.len() == 0 {
        Map::empty()
    } else {
        insert_all(pairs.drop_last()).insert(pairs.last().0, pairs.last().1)
    }
}

/// Distinct identities across a completion trace.
pub open spec fn pairs_unique(pairs: Seq<(Seq<char>, OutcomeModel)>) -> bool {
    forall|i: int, j: int| 0 <= i < j < pairs.len() ==> pairs[i].0 != pairs[j].0
}

/// A trace of distinct identities builds exactly the pairing it lists: its
/// map holds the traced identities and nothing else, each at its own outcome.
pub proof fn lemma_insert_all_pairing(pairs: Seq<(Seq<char>, OutcomeModel)>)
    requires
        pairs_unique(pairs),
    ensures
        forall|k: Seq<char>|
            #[trigger] insert_all(pairs).dom().contains(k) <==> exists|i: int|
                0 <= i < pairs.len() && (#[trigger] pairs[i]).0 == k,
        forall|i: int|
            0 <= i < pairs.len() ==> insert_all(pairs)[(#[trigger] pairs[i]).0] == pairs[i].1,
    decreases pairs.len(),
{
    if pairs.len() > 0 {
        lemma_insert_all_pairing(pairs.drop_last());
        assert forall|k: Seq<char>| #[trigger]
            insert_all(pairs).dom().contains(k) implies exists|i: int|
            0 <= i < pairs.len() && (#[trigger] pairs[i]).0 == k by {
            if k == pairs.last().0 {
                assert(pairs[pairs.len() - 1].0 == k);
            } else {
                assert(insert_all(pairs.drop_last()).dom().contains(k));
                let i = choose|i: int|
                    0 <= i < pairs.drop_last().len() && (#[trigger] pairs.drop_last()[i]).0 == k;
                assert(pairs[i].0 == k);
            }
        }
        assert forall|k: Seq<char>|
            (exists|i: int| 0 <= i < pairs.len() && (#[trigger] pairs[i]).0 == k) implies #[trigger]
            insert_all(pairs).dom().contains(k) by {
            let i = choose|i: int| 0 <= i < pairs.len() && (#[trigger] pairs[i]).0 == k;
            if i < pairs.len() - 1 {
                assert(pairs.drop_last()[i].0 == k);
                assert(insert_all(pairs.drop_last()).dom().contains(k));
            }
        }
        assert forall|i: int| 0 <= i < pairs.len() implies insert_all(pairs)[(
        #[trigger] pairs[i]).0] == pairs[i].1 by {
            if i < pairs.len() - 1 {
                assert(pairs.drop_last()[i] == pairs[i]);
            }
        }
    }
}

/// Completion order is irrelevant: two traces that record the same outcomes
/// for the same identities — the same completions, in any two orders — build
/// the same map.  This is why the enrichment map, and with it the audit
/// report, does not depend on the timing of the concurrent lookups.
pub proof fn lemma_insert_all_order_independent(
    p1: Seq<(Seq<char>, OutcomeModel)>,
    p2: Seq<(Seq<char>, OutcomeModel)>,
)
    requires
        p1.to_multiset() == p2.to_multiset(),
        pairs_unique(p1),
        pairs_unique(p2),
    ensures
        insert_all(p1) == insert_all(p2),
{
    lemma_insert_all_pairing(p1);
    lemma_insert_all_pairing(p2);
    p1.to_multiset_ensures();
    p2.to_multiset_ensures();
    assert forall|k: Seq<char>| #[trigger]
        insert_all(p1).dom().contains(k) implies insert_all(p2).dom().contains(k)
        && insert_all(p2)[k] == insert_all(p1)[k] by {
        let i = choose|i: int| 0 <= i < p1.len() && (#[trigger] p1[i]).0 == k;
        let pair = p1[i];
        assert(p1.contains(pair));
        assert(p1.to_multiset().count(pair) > 0);
        assert(p2.to_multiset().count(pair) > 0);
        assert(p2.contains(pair));
        let j = choose|j: int| 0 <= j < p2.len() && p2[j] == pair;
        assert(p2[j].0 == k);
    }
    assert forall|k: Seq<char>| #[trigger]
        insert_all(p2).dom().contains(k) implies insert_all(p1).dom().contains(k) by {
        let j = choose|j: int| 0 <= j < p2.len() && (#[trigger] p2[j]).0 == k;
        let pair = p2[j];
        assert(p2.contains(pair));
        assert(p2.to_multiset().count(pair) > 0);
        assert(p1.to_multiset().count(pair) > 0);
        assert(p1.contains(pair));
        let i = choose|i: int| 0 <= i < p1.len() && p1[i] == pair;
        assert(p1[i].0 == k);
    }
    assert(insert_all(p1) =~= insert_all(p2));
}

/// Enrichment isolation: when one identity's lookup fails and every other
/// succeeds, the collected map records the failure at exactly that identity
/// and a success at every other.
pub proof fn lemma_enrichment_isolation(
    keys: Seq<String>,
    results: Seq<EnrichmentOutcome>,
    m: Map<Seq<char>, OutcomeModel>,
    x: int,
)
    requires
        keys.len() == results.len(),
        forall|i: int, j: int|
            0 <= i < j < keys.len() ==> (#[trigger] keys[i])@ != (#[trigger] keys[j])@,
        m.dom() =~= keys.map_values(|k: String| k@).to_set(),
        forall|i: int| 0 <= i < keys.len() ==> m[(#[trigger] keys[i])@] == results[i]@,
        0 <= x < keys.len(),
        results[x]@ is Failure,
        forall|i: int| 0 <= i < keys.len() && i != x ==> (#[trigger] results[i])@ is Success,
    ensures
        m[keys[x]@] is Failure,
        forall|i: int| 0 <= i < keys.len() && i != x ==> m[(#[trigger] keys[i])@] is Success,
{
}

} // verus!
