//! What `status.get` and the start of a session report.
use crate::daemon::domain::{Domain, DomainId, DomainRegistry};
use crate::daemon::rpc::domains::{resolve_domain, vanished};
use crate::receiver::metrics::{ReceiverDropSnapshot, ReceiverLivenessNanos, TraceIngestLoss};
use crate::text;
use vstd::prelude::*;

verus! {

broadcast use vstd::string::group_string_axioms;

/// What is reported of the domain that a session is bound to.
#[derive(Debug)]
pub struct Status {
    pub current_domain: String,
    /// How many records are stored.
    pub current_size: usize,
    pub receiver_drops: ReceiverDropSnapshot,
    pub trace_ingest: TraceIngestLoss,
    /// When each listener last received something.
    pub receiver_liveness: ReceiverLivenessNanos,
}

impl Status {
    /// What is said of a domain is true of it.
    pub open spec fn tells_of(self, d: Domain) -> bool {
        &&& self.current_domain@ == d.config.name@
        &&& self.current_size == d.pipeline@.store.entries.len()
        &&& self.receiver_drops == d.metrics@.drops
        &&& self.trace_ingest == d.metrics@.trace_loss()
        &&& self.receiver_liveness == d.metrics@.last
    }
}

/// The status of the domain that a session is bound to. Where that domain is
/// gone there is none: a store that is missing must not read as an empty one.
pub fn status(domains: &DomainRegistry, bound: &DomainId) -> (r: Result<Status, String>)
    requires
        domains.wf(),
    ensures
        match r {
            Ok(s) => domains@.contains_key(bound@) && s.tells_of(domains@[bound@]),
            Err(e) => !domains@.contains_key(bound@) && e@ == vanished(bound@),
        },
{
    match resolve_domain(domains, bound) {
        Ok(d) => Ok(
            Status {
                current_domain: text::owned(d.id().as_str()),
                current_size: d.pipeline.store_len(),
                receiver_drops: d.metrics.snapshot(),
                trace_ingest: d.metrics.trace_ingest_loss(),
                receiver_liveness: d.metrics.liveness(),
            },
        ),
        Err(e) => Err(e),
    }
}

/// What a session holds.
#[derive(Debug, Clone, Copy, PartialEq, Eq, Structural)]
pub struct SessionCounts {
    pub queue_size: usize,
    pub trigger_count: usize,
    pub filter_count: usize,
}

/// What a client is told when its session has started.
#[derive(Debug)]
pub struct SessionStart {
    pub counts: SessionCounts,
    /// How many records the session's domain stores.
    pub buffer_size: usize,
    pub capabilities: Vec<&'static str>,
}

/// What a client can rely on.
pub open spec fn capability_texts() -> Seq<Seq<char>> {
    seq!["bookmarks"@, "oneshot_triggers"@, "client_info"@, "domains"@]
}

/// What a client is told when its session has started. A session that is gone
/// holds nothing, and neither does a domain that is.
pub fn session_start(
    domains: &DomainRegistry,
    bound: &DomainId,
    counts: Option<SessionCounts>,
) -> (r: SessionStart)
    requires
        domains.wf(),
    ensures
        r.counts == (match counts {
            Some(c) => c,
            None => SessionCounts { queue_size: 0, trigger_count: 0, filter_count: 0 },
        }),
        r.buffer_size == (if domains@.contains_key(bound@) {
            domains@[bound@].pipeline@.store.entries.len()
        } else {
            0
        }),
        r.capabilities@.len() == capability_texts().len(),
        forall|i: int|
            0 <= i < r.capabilities@.len() ==> (#[trigger] r.capabilities@[i])@
                == capability_texts()[i],
{
    let buffer_size: usize = match domains.get(bound) {
        Some(d) => d.pipeline.store_len(),
        None => 0,
    };
    SessionStart {
        counts: match counts {
            Some(c) => c,
            None => SessionCounts { queue_size: 0, trigger_count: 0, filter_count: 0 },
        },
        buffer_size,
        capabilities: vec!["bookmarks", "oneshot_triggers", "client_info", "domains"],
    }
}

/// A status that tells of a domain gives that domain's name, how many records it stores,
/// and what its receivers have counted.
pub proof fn statuses_are_of_one_domain(s: Status, d: Domain)
    requires
        s.tells_of(d),
    ensures
        s.current_domain@ == d.config.name@,
        s.current_size == d.pipeline@.store.entries.len(),
        s.receiver_drops == d.metrics@.drops,
        s.trace_ingest == d.metrics@.trace_loss(),
        s.receiver_liveness == d.metrics@.last,
{
}

/// A client can rely on bookmarks, oneshot triggers, what it says of itself, and domains.
pub proof fn four_things_can_be_relied_on()
    ensures
        capability_texts() == seq!["bookmarks"@, "oneshot_triggers"@, "client_info"@, "domains"@],
{
}

} // verus!
