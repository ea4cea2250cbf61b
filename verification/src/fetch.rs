//! The paginated fetcher.
//!
//! The fetcher walks a cursor-linked listing: it issues one request at a time,
//! appends the page's records in server order, and follows the continuation
//! cursor until a page arrives without one.  Any failure aborts the whole
//! fetch; pages already collected are discarded, since a partial audit is
//! unsafe to report.
//!
//! The component that performs the HTTP requests lives outside the library.
//! It drives [`FetchState::step`] with one [`PageOutcome`] per request, or
//! hands a pre-collected sequence of outcomes to [`run_fetch`].

use vstd::prelude::*;
use crate::record::PrimaryRecord;

verus! {

/// A parsed page of the primary listing: a batch of records plus the optional
/// continuation cursor.  Transient; consumed by the fetcher.
#[derive(Debug)]
pub struct Page {
    pub records: Vec<PrimaryRecord>,
    /// URL of the next page, absent on the last page.
    pub next: Option<String>,
}

/// What one pagination request produced.
#[derive(Debug)]
pub enum PageOutcome {
    /// A success status whose body decoded into a page.
    Page(Page),
    /// A non-success status, with the response body.
    Http(u16, String),
    /// A success status whose body did not decode.
    Malformed,
}

/// Why a fetch aborted.
#[derive(Debug)]
pub enum FetchError {
    /// The listing rejected the bearer token.
    Unauthorized,
    /// Any other non-success response.
    RemoteError { status: u16, body: String },
    /// A page body did not decode.
    DecodeError,
}

/// Mathematical image of a [`FetchError`].
pub enum FetchErrorModel {
    Unauthorized,
    RemoteError { status: u16, body: Seq<char> },
    DecodeError,
}

impl View for FetchError {
    type V = FetchErrorModel;

    open spec fn view(&self) -> FetchErrorModel {
        match self {
            FetchError::Unauthorized => FetchErrorModel::Unauthorized,
            FetchError::RemoteError { status, body } => FetchErrorModel::RemoteError {
                status: *status,
                body: body@,
            },
            FetchError::DecodeError => FetchErrorModel::DecodeError,
        }
    }
}

/// A status outside `200..=299` is a failure.
pub open spec fn spec_status_success(status: u16) -> bool {
    200 <= status < 300
}

/// The error a non-success pagination response surfaces.
pub open spec fn spec_page_error(status: u16, body: Seq<char>) -> FetchErrorModel {
    if status == 401 {
        FetchErrorModel::Unauthorized
    } else {
        FetchErrorModel::RemoteError { status, body }
    }
}

/// Builds the [`FetchError`] for a non-success pagination response.
pub fn page_error(status: u16, body: String) -> (r: FetchError)
    ensures
        r@ == spec_page_error(status, body@),
{
    if status == 401 {
        FetchError::Unauthorized
    } else {
        FetchError::RemoteError { status, body }
    }
}

/// The fetcher, one request away from its next transition.
#[derive(Debug)]
pub enum FetchState {
    /// Pages are still being requested; `url` is the next request to issue.
    Fetching { records: Vec<PrimaryRecord>, url: String },
    /// The last page arrived; `records` is the complete listing.
    Done { records: Vec<PrimaryRecord> },
    /// A request failed; everything collected is discarded.
    Failed { error: FetchError },
}

impl FetchState {
    /// The starting state: nothing collected, the listing URL pending.
    pub fn begin(url: String) -> (r: FetchState)
        ensures
            r matches FetchState::Fetching { records, url: u } && records@ =~= Seq::<
                PrimaryRecord,
            >::empty() && u@ == url@,
    {
        FetchState::Fetching { records: Vec::new(), url }
    }

    /// Applies the outcome of one pagination request.
    ///
    /// From `Fetching`, a page's records are appended in server order and its
    /// cursor decides between fetching on and completion; any failure moves to
    /// `Failed`, dropping the records collected so far.  `Done` and `Failed`
    /// are absorbing.
    pub fn step(self, outcome: PageOutcome) -> (next: FetchState)
        ensures
            self matches FetchState::Fetching { records: prior, url: _ } ==> match outcome {
                PageOutcome::Page(page) => match page.next {
                    Some(u) => next matches FetchState::Fetching { records, url } && records@
                        == prior@ + page.records@ && url@ == u@,
                    None => next matches FetchState::Done { records } && records@ == prior@
                        + page.records@,
                },
                PageOutcome::Http(status, body) => next matches FetchState::Failed { error }
                    && error@ == spec_page_error(status, body@),
                PageOutcome::Malformed => next matches FetchState::Failed { error } && error@
                    == FetchErrorModel::DecodeError,
            },
            !(self is Fetching) ==> next == self,
    {
        match self {
            FetchState::Fetching { records, url: _ } => match outcome {
                PageOutcome::Page(page) => {
                    let mut records = records;
                    let mut page_records = page.records;
                    records.append(&mut page_records);
                    match page.next {
                        Some(u) => FetchState::Fetching { records, url: u },
                        None => FetchState::Done { records },
                    }
                },
                PageOutcome::Http(status, body) => FetchState::Failed {
                    error: page_error(status, body),
                },
                PageOutcome::Malformed => FetchState::Failed { error: FetchError::DecodeError },
            },
            other => other,
        }
    }
}

/// The result of a fetch over a sequence of page outcomes: `None` when the
/// outcomes run out with a cursor still pending, otherwise the concatenation
/// of every page's records, or the first failure with nothing surfaced.
pub open spec fn spec_fetch(outcomes: Seq<PageOutcome>) -> Option<
    Result<Seq<PrimaryRecord>, FetchErrorModel>,
>
    decreases outcomes.len(),
{
    if outcomes.len() == 0 {
        None
    } else {
        match outcomes[0] {
            PageOutcome::Page(page) => match page.next {
                None => Some(Ok(page.records@)),
                Some(_) => match spec_fetch(outcomes.drop_first()) {
                    None => None,
                    Some(Ok(rest)) => Some(Ok(page.records@ + rest)),
                    Some(Err(e)) => Some(Err(e)),
                },
            },
            PageOutcome::Http(status, body) => Some(Err(spec_page_error(status, body@))),
            PageOutcome::Malformed => Some(Err(FetchErrorModel::DecodeError)),
        }
    }
}

/// Runs a whole fetch against a pre-collected sequence of page outcomes, in
/// the order the server produced them.  Returns `None` if the sequence ran
/// out while a continuation cursor was still pending.
pub fn run_fetch(start_url: String, outcomes: Vec<PageOutcome>) -> (r: Option<
    Result<Vec<PrimaryRecord>, FetchError>,
>)
    ensures
        r is Some <==> spec_fetch(outcomes@) is Some,
        r matches Some(Ok(records)) ==> spec_fetch(outcomes@) matches Some(Ok(s)) && records@
            == s,
        r matches Some(Err(e)) ==> spec_fetch(outcomes@) matches Some(Err(m)) && e@ == m,
{
    let mut state = FetchState::begin(start_url);
    let mut rest = outcomes;
    loop
        invariant
            state is Fetching,
            ({
                let full = spec_fetch(outcomes@);
                let cur = spec_fetch(rest@);
                &&& (cur is None ==> full is None)
                &&& (cur matches Some(Err(e)) ==> full == Some(
                    Err::<Seq<PrimaryRecord>, FetchErrorModel>(e),
                ))
                &&& (cur matches Some(Ok(s)) ==> full == Some(
                    Ok::<Seq<PrimaryRecord>, FetchErrorModel>(state->Fetching_records@ + s),
                ))
            }),
        decreases rest@.len(),
    {
        if rest.len() == 0 {
            return None;
        }
        let ghost pre_rest = rest@;
        let ghost pre_records = state->Fetching_records@;
        let outcome = rest.remove(0);
        let ghost g_outcome = outcome;
        proof {
            assert(rest@ =~= pre_rest.drop_first());
            assert(pre_rest[0] == g_outcome);
        }
        match state.step(outcome) {
            FetchState::Fetching { records, url } => {
                state = FetchState::Fetching { records, url };
                proof {
                    let page = g_outcome->Page_0;
                    assert(state->Fetching_records@ == pre_records + page.records@);
                    match spec_fetch(rest@) {
                        Some(Ok(s)) => {
                            assert(spec_fetch(pre_rest) == Some(
                                Ok::<Seq<PrimaryRecord>, FetchErrorModel>(page.records@ + s),
                            ));
                            assert((pre_records + page.records@) + s =~= pre_records + (
                            page.records@ + s));
                        },
                        _ => {},
                    }
                }
            },
            FetchState::Done { records } => {
                proof {
                    let page = g_outcome->Page_0;
                    assert(spec_fetch(pre_rest) == Some(
                        Ok::<Seq<PrimaryRecord>, FetchErrorModel>(page.records@),
                    ));
                }
                return Some(Ok(records));
            },
            FetchState::Failed { error } => {
                return Some(Err(error));
            },
        }
    }
}

/// The record batches of a sequence of successful pages, in page order.
pub open spec fn pages_records(outcomes: Seq<PageOutcome>) -> Seq<Seq<PrimaryRecord>> {
    outcomes.map_values(|o: PageOutcome| o->Page_0.records@)
}

/// Pagination completeness: when every request succeeds, with a continuation
/// cursor on every page but the last, the fetch returns exactly the records
/// of every page, concatenated in page-then-within-page order.  Each record
/// of each page is surfaced exactly once, so a duplicate-free listing yields
/// a duplicate-free result.
pub proof fn lemma_fetch_completeness(outcomes: Seq<PageOutcome>)
    requires
        outcomes.len() > 0,
        forall|i: int| 0 <= i < outcomes.len() ==> outcomes[i] is Page,
        forall|i: int|
            0 <= i < outcomes.len() - 1 ==> (#[trigger] outcomes[i])->Page_0.next is Some,
        outcomes[outcomes.len() - 1]->Page_0.next is None,
    ensures
        spec_fetch(outcomes) == Some(
            Ok::<Seq<PrimaryRecord>, FetchErrorModel>(pages_records(outcomes).flatten()),
        ),
    decreases outcomes.len(),
{
    let recs = pages_records(outcomes);
    if outcomes.len() == 1 {
        assert(recs.flatten() =~= recs[0]) by {
            assert(recs.drop_first().flatten() =~= Seq::<PrimaryRecord>::empty());
        }
    } else {
        lemma_fetch_completeness(outcomes.drop_first());
        assert(pages_records(outcomes.drop_first()) =~= recs.drop_first());
        assert(recs.flatten() == recs[0] + recs.drop_first().flatten());
    }
}

/// Pagination completeness, sized: when additionally every page holds the
/// same number of records, the fetch surfaces pages-times-records-per-page
/// records in all.
pub proof fn lemma_fetch_completeness_count(outcomes: Seq<PageOutcome>, per_page: nat)
    requires
        outcomes.len() > 0,
        forall|i: int| 0 <= i < outcomes.len() ==> outcomes[i] is Page,
        forall|i: int|
            0 <= i < outcomes.len() - 1 ==> (#[trigger] outcomes[i])->Page_0.next is Some,
        outcomes[outcomes.len() - 1]->Page_0.next is None,
        forall|i: int|
            0 <= i < outcomes.len() ==> (#[trigger] outcomes[i])->Page_0.records@.len()
                == per_page,
    ensures
        spec_fetch(outcomes) matches Some(Ok(records)) && records.len() == outcomes.len()
            * per_page,
    decreases outcomes.len(),
{
    lemma_fetch_completeness(outcomes);
    let recs = pages_records(outcomes);
    assert(recs[0] == outcomes[0]->Page_0.records@);
    if outcomes.len() == 1 {
        assert(recs.flatten() =~= recs[0]) by {
            assert(recs.drop_first().flatten() =~= Seq::<PrimaryRecord>::empty());
        }
        assert(outcomes.len() * per_page == per_page) by (nonlinear_arith)
            requires outcomes.len() == 1;
    } else {
        lemma_fetch_completeness_count(outcomes.drop_first(), per_page);
        lemma_fetch_completeness(outcomes.drop_first());
        assert(pages_records(outcomes.drop_first()) =~= recs.drop_first());
        assert(recs.flatten() == recs[0] + recs.drop_first().flatten());
        assert(recs.drop_first().flatten().len() == (outcomes.len() - 1) * per_page);
        assert((outcomes.len() - 1) * per_page + per_page == outcomes.len() * per_page)
            by (nonlinear_arith);
    }

}

/// Pagination abort semantics: if the requests succeed with a continuation
/// cursor up to some point and the next one fails, the fetch surfaces that
/// failure and none of the records of any page, collected or not.
pub proof fn lemma_fetch_abort(outcomes: Seq<PageOutcome>, i: int)
    requires
        0 <= i < outcomes.len(),
        !(outcomes[i] is Page),
        forall|j: int|
            0 <= j < i ==> (#[trigger] outcomes[j]) is Page && outcomes[j]->Page_0.next is Some,
    ensures
        spec_fetch(outcomes) matches Some(Err(e)) && e == (match outcomes[i] {
            PageOutcome::Http(status, body) => spec_page_error(status, body@),
            _ => FetchErrorModel::DecodeError,
        }),
    decreases i,
{
    if i > 0 {
        lemma_fetch_abort(outcomes.drop_first(), i - 1);
    }
}

} // verus!
