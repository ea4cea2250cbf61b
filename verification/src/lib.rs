//! Verified core of a directory-audit toolkit.
//!
//! The tools built on this library authenticate against an identity provider,
//! enumerate directory objects through a cursor-paginated listing, enrich a
//! filtered subset of the records through per-record secondary lookups, and
//! report the records that match an audit predicate.  All network traffic and
//! terminal output live outside the library; what stands here is the decision
//! logic of that pipeline, with contracts:
//!
//! - [`fetch`]: the paginated fetcher, a step-driven state machine that
//!   accumulates pages in order and aborts wholesale on the first failure;
//! - [`enrich`]: the enrichment dispatcher, which pre-filters records, bounds
//!   the number of in-flight secondary lookups, and collects per-record
//!   outcomes into a map keyed by record identity;
//! - [`aggregate`]: the pure join of records and enrichment outcomes into the
//!   ordered audit report;
//! - [`auth`]: credential configuration and token-response acceptance;
//! - [`response`]: status-code classification shared by the mutating tools;
//! - [`methods`]: selection of authentication methods to delete;
//! - [`email`]: address validation and spoofed-mail checks;
//! - [`text`]: character-level string helpers.

pub mod aggregate;
pub mod auth;
pub mod email;
pub mod enrich;
pub mod fetch;
pub mod methods;
pub mod record;
pub mod response;
pub mod text;
