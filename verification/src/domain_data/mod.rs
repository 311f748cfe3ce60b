//! The per-domain key/value registry.
//!
//! One store, and exactly one: the only thing a caller varies per key is scope,
//! with the `@` sigil.
//!
//! **Provenance is what makes a captured window evidence rather than a log
//! dump**, and the failure this is built against is that *wrong information is
//! worse than none*. Hence two timestamps rather than one, `unknown` carrying a
//! cause rather than a shrug, and expiry that never mutates what it reports on.
pub mod entry;
pub mod map;
pub mod path;
pub mod persist;
pub mod store;

use vstd::prelude::*;

pub use entry::{parse_duration, render_duration, Entry, TtlParseError, TtlSpec};
pub use map::DomainDataStore;
pub use path::{Key, KeyError, MAX_KEYS, MAX_PATH_BYTES, MAX_SIGIL_KEYS, MAX_VALUE_BYTES};
pub use store::{
    is_scoped, partition_scoped, scope_one, DataEntry, DataOutcome, Outcome, Registry,
    RegistryError, RejectReason, RemoveOutcome, ScopedData, ScopedFact, UnknownCause,
};

verus! {

/// The recommended core keys: a document that lacks them cannot be acted on.
///
/// Reported against, never enforced: coverage is a property of the document, not
/// of the registry.
pub open spec fn core_key_texts() -> Seq<Seq<char>> {
    seq!["/Build/commit"@, "/Build/profile"@, "/Action"@]
}

/// The recommended core keys.
pub fn core_keys() -> (r: Vec<&'static str>)
    ensures
        r@.len() == core_key_texts().len(),
        forall|i: int| 0 <= i < r@.len() ==> (#[trigger] r@[i])@ == core_key_texts()[i],
{
    vec!["/Build/commit", "/Build/profile", "/Action"]
}

/// The registry key that holds the prefix for the file names of cases: the one
/// key that is read rather than only rendered.
pub const CASE_NAME_KEY: &'static str = "/case-name";

} // verus!
