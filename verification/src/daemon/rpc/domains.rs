//! What the `domains.*` methods and the renaming of sessions decide.
use crate::daemon::domain::{
    api_created, is_name, Domain, DomainId, DomainRegistry, DomainSource, DEFAULT_DOMAIN,
};
use crate::daemon::domain_lifecycle::DomainPortSpec;
use crate::daemon::rpc::params::MAX_DOMAIN_BUFFER_SIZE;
use crate::store::bookmarks::{owned_by, without_session};
use crate::text;
use crate::text::decimal_text;
use vstd::prelude::*;

verus! {

broadcast use vstd::string::group_string_axioms;

/// How domains may be created: the cap on their number and the buffer sizes that
/// hold where a caller names none.
#[derive(Debug, Clone, Copy, PartialEq, Eq, Structural)]
pub struct DomainPolicy {
    pub max_domains: usize,
    pub default_log_buffer_size: usize,
    pub default_span_buffer_size: usize,
    /// The idle seconds from which on a domain is reported `stale`.
    pub stale_after_secs: u64,
}

/// The later of two moments, where there are any.
pub open spec fn later(a: Option<i64>, b: Option<i64>) -> Option<i64> {
    match (a, b) {
        (Some(x), Some(y)) => if x >= y {
            Some(x)
        } else {
            Some(y)
        },
        (Some(x), None) => Some(x),
        (None, y) => y,
    }
}

fn later_of(a: Option<i64>, b: Option<i64>) -> (r: Option<i64>)
    ensures
        r == later(a, b),
{
    match a {
        Some(x) => match b {
            Some(y) => if x >= y {
                Some(x)
            } else {
                Some(y)
            },
            None => Some(x),
        },
        None => b,
    }
}

/// The whole seconds since a moment, 0 where it lies in the future.
pub open spec fn idle_since(now: i64, at: i64) -> u64 {
    if now <= at {
        0
    } else if now - at > i64::MAX {
        (i64::MAX / 1_000_000_000) as u64
    } else {
        ((now - at) / 1_000_000_000) as u64
    }
}

/// When a domain last received something, and whether that is too long ago.
#[derive(Debug, Clone, Copy, PartialEq, Eq, Structural)]
pub struct Activity {
    /// In nanoseconds since the epoch.
    pub last_log_received_at: Option<i64>,
    pub last_span_received_at: Option<i64>,
    pub idle_secs: Option<u64>,
    /// Never of a domain that has received nothing yet.
    pub stale: bool,
}

/// The activity of a domain at `now`.
///
/// Logs arrive on the GELF arms and the OTLP log arms, spans on the OTLP trace
/// arms.
pub open spec fn activity_at(d: Domain, stale_after_secs: u64, now: i64) -> Activity {
    let liv = d.metrics@.last;
    let log = later(
        later(liv.gelf_udp, liv.gelf_tcp),
        later(liv.otlp_http_logs, liv.otlp_grpc_logs),
    );
    let span = later(liv.otlp_http_traces, liv.otlp_grpc_traces);
    let idle = match later(log, span) {
        Some(at) => Some(idle_since(now, at)),
        None => None,
    };
    Activity {
        last_log_received_at: log,
        last_span_received_at: span,
        idle_secs: idle,
        stale: idle is Some && idle->0 >= stale_after_secs,
    }
}

/// What is told of a domain.
#[derive(Debug)]
pub struct DomainInfo {
    pub name: String,
    pub gelf_port: u16,
    pub otlp_grpc_port: u16,
    pub otlp_http_port: u16,
    pub source: &'static str,
    pub log_buffer_size: usize,
    pub span_buffer_size: usize,
    pub log_count: usize,
    pub span_count: usize,
    pub oldest_seq: Option<u64>,
    pub newest_seq: Option<u64>,
    pub activity: Activity,
}

/// What is told of a domain that holds `span_count` spans, at `now` nanoseconds
/// since the epoch.
pub fn domain_to_info(d: &Domain, span_count: usize, stale_after_secs: u64, now: i64) -> (r:
    DomainInfo)
    requires
        d.wf(),
    ensures
        r.name@ == d.config.name@,
        r.gelf_port == d.config.gelf_port,
        r.otlp_grpc_port == d.config.otlp_grpc_port,
        r.otlp_http_port == d.config.otlp_http_port,
        r.source@ == d.config.source.name(),
        r.log_buffer_size == d.config.log_buffer_size,
        r.span_buffer_size == d.config.span_buffer_size,
        r.log_count == d.pipeline@.store.entries.len(),
        r.span_count == span_count,
        r.oldest_seq == d.pipeline@.oldest(),
        r.newest_seq == d.pipeline@.newest(),
        r.activity == activity_at(*d, stale_after_secs, now),
{
    let liv = d.metrics.liveness();
    let log = later_of(
        later_of(liv.gelf_udp, liv.gelf_tcp),
        later_of(liv.otlp_http_logs, liv.otlp_grpc_logs),
    );
    let span = later_of(liv.otlp_http_traces, liv.otlp_grpc_traces);
    let idle = match later_of(log, span) {
        Some(at) => {
            let nanos: i64 = if now <= at {
                0
            } else {
                match now.checked_sub(at) {
                    Some(n) => n,
                    None => i64::MAX,
                }
            };
            Some((nanos / 1_000_000_000) as u64)
        },
        None => None,
    };
    let stale = match idle {
        Some(secs) => secs >= stale_after_secs,
        None => false,
    };
    DomainInfo {
        name: text::owned(d.config.name.as_str()),
        gelf_port: d.config.gelf_port,
        otlp_grpc_port: d.config.otlp_grpc_port,
        otlp_http_port: d.config.otlp_http_port,
        source: d.config.source.as_str(),
        log_buffer_size: d.config.log_buffer_size,
        span_buffer_size: d.config.span_buffer_size,
        log_count: d.pipeline.store_len(),
        span_count,
        oldest_seq: d.pipeline.oldest_log_seq(),
        newest_seq: d.pipeline.newest_log_seq(),
        activity: Activity {
            last_log_received_at: log,
            last_span_received_at: span,
            idle_secs: idle,
            stale,
        },
    }
}

/// Whether a requested port is that of a domain: one that was left open is.
pub open spec fn port_fits(existing: u16, requested: Option<u16>) -> bool {
    requested is None || requested == Some(existing)
}

/// Whether a requested port is that of a domain: one that was left open is.
pub fn port_matches(existing: u16, requested: Option<u16>) -> (r: bool)
    ensures
        r == port_fits(existing, requested),
{
    match requested {
        None => true,
        Some(p) => p == existing,
    }
}

/// Whether a domain has the ports that are asked for.
pub open spec fn ports_fit(existing: Domain, requested: DomainPortSpec) -> bool {
    port_fits(existing.config.gelf_port, requested.gelf) && port_fits(
        existing.config.otlp_grpc_port,
        requested.otlp_grpc,
    ) && port_fits(existing.config.otlp_http_port, requested.otlp_http)
}

/// The refusal to make a domain anew with other ports.
pub open spec fn different_ports(name: Seq<char>) -> Seq<char> {
    "domain \""@ + name + "\" already exists with different ports"@
}

/// A domain that exists already is made anew by doing nothing, where its ports
/// are those asked for.
pub fn ensure_idempotent(existing: &Domain, requested: &DomainPortSpec) -> (r: Result<(), String>)
    ensures
        match r {
            Ok(_) => ports_fit(*existing, *requested),
            Err(e) => !ports_fit(*existing, *requested) && e@ == different_ports(
                existing.config.name@,
            ),
        },
{
    let matches = port_matches(existing.config.gelf_port, requested.gelf) && port_matches(
        existing.config.otlp_grpc_port,
        requested.otlp_grpc,
    ) && port_matches(existing.config.otlp_http_port, requested.otlp_http);
    if matches {
        Ok(())
    } else {
        Err(
            text::join3(
                "domain \"",
                existing.config.name.as_str(),
                "\" already exists with different ports",
            ),
        )
    }
}

/// A request for a new domain.
#[derive(Debug)]
pub struct DomainsCreate {
    pub name: String,
    pub gelf_port: Option<u16>,
    pub otlp_grpc_port: Option<u16>,
    pub otlp_http_port: Option<u16>,
    pub log_buffer_size: Option<usize>,
    pub span_buffer_size: Option<usize>,
    pub persist: bool,
}

impl DomainsCreate {
    /// The ports asked for.
    pub open spec fn ports(self) -> DomainPortSpec {
        DomainPortSpec {
            gelf: self.gelf_port,
            otlp_grpc: self.otlp_grpc_port,
            otlp_http: self.otlp_http_port,
        }
    }
}

/// Whether two receivers ask for one port. Receivers that are disabled or take
/// any port do not.
pub open spec fn ports_clash(a: Option<u16>, b: Option<u16>) -> bool {
    a is Some && a == b && a->0 != 0
}

/// The refusal of two receivers on one port.
pub open spec fn clash_text(a: Seq<char>, b: Seq<char>, port: u16) -> Seq<char> {
    a + " and "@ + b + " must differ (both = "@ + decimal_text(port as nat) + ")"@
}

/// The first clash among the ports asked for, as it is refused.
pub open spec fn port_conflict(ports: DomainPortSpec) -> Option<Seq<char>> {
    if ports_clash(ports.gelf, ports.otlp_grpc) {
        Some(clash_text("gelf_port"@, "otlp_grpc_port"@, ports.gelf->0))
    } else if ports_clash(ports.gelf, ports.otlp_http) {
        Some(clash_text("gelf_port"@, "otlp_http_port"@, ports.gelf->0))
    } else if ports_clash(ports.otlp_grpc, ports.otlp_http) {
        Some(clash_text("otlp_grpc_port"@, "otlp_http_port"@, ports.otlp_grpc->0))
    } else {
        None
    }
}

fn clash(first: &str, a: Option<u16>, second: &str, b: Option<u16>) -> (r: Option<String>)
    ensures
        match r {
            Some(e) => ports_clash(a, b) && e@ == clash_text(first@, second@, a->0),
            None => !ports_clash(a, b),
        },
{
    match a {
        Some(p) => match b {
            Some(q) => if p != 0 && p == q {
                let head = text::join3(first, " and ", second);
                let mid = text::join2(&head, " must differ (both = ");
                Some(text::join3(&mid, &text::decimal(p as u64), ")"))
            } else {
                None
            },
            None => None,
        },
        None => None,
    }
}

fn refuse_conflict(ports: DomainPortSpec) -> (r: Option<String>)
    ensures
        match r {
            Some(e) => port_conflict(ports) == Some(e@),
            None => port_conflict(ports) is None,
        },
{
    if let Some(e) = clash("gelf_port", ports.gelf, "otlp_grpc_port", ports.otlp_grpc) {
        return Some(e);
    }
    if let Some(e) = clash("gelf_port", ports.gelf, "otlp_http_port", ports.otlp_http) {
        return Some(e);
    }
    clash("otlp_grpc_port", ports.otlp_grpc, "otlp_http_port", ports.otlp_http)
}

/// The refusal of a buffer that is too large.
pub open spec fn oversized(which: Seq<char>, size: usize) -> Seq<char> {
    which + decimal_text(size as nat) + " exceeds the maximum "@ + decimal_text(
        MAX_DOMAIN_BUFFER_SIZE as nat,
    )
}

fn refuse_size(which: &str, size: usize) -> (r: String)
    ensures
        r@ == oversized(which@, size),
{
    let head = text::join3(which, &text::decimal(size as u64), " exceeds the maximum ");
    text::join2(&head, &text::decimal(MAX_DOMAIN_BUFFER_SIZE))
}

/// What comes of a request for a new domain.
#[derive(Debug, Clone, Copy, PartialEq, Eq, Structural)]
pub enum CreateStep {
    /// It is there already.
    Exists,
    /// Its receivers are to be bound.
    Spawn { log_buffer_size: usize, span_buffer_size: usize },
}

/// The size asked for, or the default.
pub open spec fn size_or(size: Option<usize>, default: usize) -> usize {
    match size {
        Some(n) => n,
        None => default,
    }
}

/// What comes of a request for a new domain.
pub open spec fn creation(
    req: DomainsCreate,
    domains: Map<Seq<char>, Domain>,
    policy: DomainPolicy,
) -> Result<CreateStep, Seq<char>> {
    let name = req.name@;
    let logs = size_or(req.log_buffer_size, policy.default_log_buffer_size);
    let spans = size_or(req.span_buffer_size, policy.default_span_buffer_size);
    if req.persist {
        Err(
            "persistent domains are not yet supported — create with persist=false (ephemeral)"@,
        )
    } else if !is_name(name) {
        Err("invalid domain name: "@ + name)
    } else if port_conflict(req.ports()) is Some {
        Err(port_conflict(req.ports())->0)
    } else if domains.contains_key(name) {
        if ports_fit(domains[name], req.ports()) {
            Ok(CreateStep::Exists)
        } else {
            Err(different_ports(name))
        }
    } else if api_created(domains).len() >= policy.max_domains {
        Err(
            "max_domains ("@ + decimal_text(policy.max_domains as nat)
                + ") reached — delete a domain before creating another"@,
        )
    } else if logs > MAX_DOMAIN_BUFFER_SIZE {
        Err(oversized("log_buffer_size "@, logs))
    } else if spans > MAX_DOMAIN_BUFFER_SIZE {
        Err(oversized("span_buffer_size "@, spans))
    } else {
        Ok(CreateStep::Spawn { log_buffer_size: logs, span_buffer_size: spans })
    }
}

/// A request for a new domain that is to be carried out.
#[derive(Debug)]
pub struct CreatePlan {
    pub id: DomainId,
    pub ports: DomainPortSpec,
    pub step: CreateStep,
}

/// Create (or idempotently ensure) an ephemeral domain: what is to be done, or
/// why it is refused.
///
/// No two of a domain's ports may coincide: binding them would otherwise fail
/// with a cryptic "address in use". The cap on the number of domains counts
/// those created through the API only. A buffer size goes into an allocation
/// that cannot fail gracefully, so one that is absurd is refused here.
pub fn domains_create(req: &DomainsCreate, domains: &DomainRegistry, policy: DomainPolicy) -> (r:
    Result<CreatePlan, String>)
    requires
        domains.wf(),
    ensures
        match r {
            Ok(plan) => {
                &&& creation(*req, domains@, policy) == Ok::<CreateStep, Seq<char>>(plan.step)
                &&& plan.id@ == req.name@
                &&& plan.ports == req.ports()
            },
            Err(e) => creation(*req, domains@, policy) == Err::<CreateStep, Seq<char>>(e@),
        },
{
    if req.persist {
        return Err(
            text::owned(
                "persistent domains are not yet supported — create with persist=false (ephemeral)",
            ),
        );
    }
    let id = match DomainId::new(&req.name) {
        Ok(id) => id,
        Err(e) => return Err(e.to_text()),
    };
    let ports = DomainPortSpec {
        gelf: req.gelf_port,
        otlp_grpc: req.otlp_grpc_port,
        otlp_http: req.otlp_http_port,
    };
    if let Some(e) = refuse_conflict(ports) {
        return Err(e);
    }
    if let Some(existing) = domains.get(&id) {
        return match ensure_idempotent(existing, &ports) {
            Ok(_) => Ok(CreatePlan { id, ports, step: CreateStep::Exists }),
            Err(e) => Err(e),
        };
    }
    if domains.count_api_created() >= policy.max_domains {
        let cap = text::decimal(policy.max_domains as u64);
        return Err(
            text::join3(
                "max_domains (",
                &cap,
                ") reached — delete a domain before creating another",
            ),
        );
    }
    let log_buffer_size: usize = match req.log_buffer_size {
        Some(n) => n,
        None => policy.default_log_buffer_size,
    };
    let span_buffer_size: usize = match req.span_buffer_size {
        Some(n) => n,
        None => policy.default_span_buffer_size,
    };
    if log_buffer_size as u64 > MAX_DOMAIN_BUFFER_SIZE {
        return Err(refuse_size("log_buffer_size ", log_buffer_size));
    }
    if span_buffer_size as u64 > MAX_DOMAIN_BUFFER_SIZE {
        return Err(refuse_size("span_buffer_size ", span_buffer_size));
    }
    Ok(CreatePlan { id, ports, step: CreateStep::Spawn { log_buffer_size, span_buffer_size } })
}

/// Where the request that made a domain comes again, with the ports that the
/// domain bound or with none named, it is answered by the domain that is there:
/// nothing is bound and nothing is refused.
pub proof fn creating_again_changes_nothing(
    req: DomainsCreate,
    domains: Map<Seq<char>, Domain>,
    policy: DomainPolicy,
    made: Domain,
)
    requires
        creation(req, domains, policy) is Ok,
        ports_fit(made, req.ports()),
    ensures
        creation(req, domains.insert(req.name@, made), policy) == Ok::<CreateStep, Seq<char>>(
            CreateStep::Exists,
        ),
{
}

/// A domain is not spawned beyond the cap.
pub proof fn the_cap_on_domains_holds(
    req: DomainsCreate,
    domains: Map<Seq<char>, Domain>,
    policy: DomainPolicy,
    made: Domain,
)
    requires
        creation(req, domains, policy) matches Ok(CreateStep::Spawn { .. }),
        made.config.source == DomainSource::Ephemeral,
        domains.dom().finite(),
    ensures
        api_created(domains.insert(req.name@, made)).len() <= policy.max_domains,
{
    let after = domains.insert(req.name@, made);
    assert(api_created(after) =~= api_created(domains).insert(req.name@));
    assert(api_created(domains).finite());
}

/// The refusal where a session's domain is gone.
pub open spec fn vanished(name: Seq<char>) -> Seq<char> {
    "domain \""@ + name + "\" no longer exists — use_domain to rebind"@
}

/// The domain that a session is bound to. There is no silent fallback to the
/// default where it is gone.
pub fn resolve_domain<'a>(domains: &'a DomainRegistry, id: &DomainId) -> (r: Result<
    &'a Domain,
    String,
>)
    requires
        domains.wf(),
    ensures
        match r {
            Ok(d) => domains@.contains_key(id@) && *d == domains@[id@] && d.wf(),
            Err(e) => !domains@.contains_key(id@) && e@ == vanished(id@),
        },
{
    match domains.get(id) {
        Some(d) => Ok(d),
        None => Err(
            text::join3("domain \"", id.as_str(), "\" no longer exists — use_domain to rebind"),
        ),
    }
}

/// Why a domain cannot be deleted.
pub open spec fn undeletable(domains: Map<Seq<char>, Domain>, name: Seq<char>) -> Option<Seq<char>> {
    if !is_name(name) {
        Some("invalid domain name: "@ + name)
    } else if !domains.contains_key(name) {
        Some("domain \""@ + name + "\" does not exist"@)
    } else if domains[name].config.source == DomainSource::Config {
        Some("cannot delete config-declared domain \""@ + name + "\" — edit config.json"@)
    } else {
        None
    }
}

/// Delete a domain that was created through the API, and hand it out for its
/// receivers to be stopped. One that is declared in the configuration, the
/// default among them, is refused.
pub fn domains_delete(domains: &mut DomainRegistry, name: &str) -> (r: Result<Domain, String>)
    requires
        old(domains).wf(),
    ensures
        final(domains).wf(),
        match r {
            Ok(d) => {
                &&& undeletable(old(domains)@, name@) is None
                &&& d == old(domains)@[name@]
                &&& final(domains)@ == old(domains)@.remove(name@)
            },
            Err(e) => {
                &&& undeletable(old(domains)@, name@) == Some(e@)
                &&& final(domains)@ == old(domains)@
            },
        },
{
    let id = match DomainId::new(name) {
        Ok(id) => id,
        Err(e) => return Err(e.to_text()),
    };
    let declared = match domains.get(&id) {
        None => return Err(text::join3("domain \"", id.as_str(), "\" does not exist")),
        Some(d) => match d.config.source {
            DomainSource::Config => true,
            _ => false,
        },
    };
    if declared {
        return Err(
            text::join3(
                "cannot delete config-declared domain \"",
                id.as_str(),
                "\" — edit config.json",
            ),
        );
    }
    match domains.remove(&id) {
        Some(d) => Ok(d),
        None => Err(text::join3("domain \"", id.as_str(), "\" does not exist")),
    }
}

/// What is to be done where a session binds to a domain.
#[derive(Debug)]
pub struct UsePlan {
    pub id: DomainId,
    /// The domain that the session left is there, and its buffer of earlier
    /// records may shrink.
    pub resync_left: bool,
    pub rebind_warning: Option<String>,
}

/// The warning where a session moves from one domain of its own to another.
pub open spec fn rebind_text(session: Seq<char>, left: Seq<char>, entered: Seq<char>) -> Seq<char> {
    "session "@ + session + " was bound to \""@ + left + "\" and is now rebound to \""@ + entered
        + "\". If you did not just switch domains on purpose, another client is sharing this session (two agent conversations behind one MCP server process?) and your reads may silently target its domain. Fix the setup: give each client its own `--session <name>` — do NOT paper over it by re-binding before each query, which only hides the collision."@
}

/// Why a session cannot bind to a domain.
pub open spec fn unbindable(domains: Map<Seq<char>, Domain>, name: Seq<char>) -> Option<Seq<char>> {
    if !is_name(name) {
        Some("invalid domain name: "@ + name)
    } else if !domains.contains_key(name) {
        Some("domain \""@ + name + "\" does not exist — create it first"@)
    } else {
        None
    }
}

/// Bind a session that is bound to `left` to an existing domain.
///
/// A session's normal life is the default, then its domain, then re-binds to the
/// same. A move between two domains of its own is the signature of two clients
/// that share one session, so it is warned of, in the answer. It may be
/// deliberate, so it is carried out all the same.
pub fn domains_use(domains: &DomainRegistry, name: &str, left: &DomainId, session: &str) -> (r:
    Result<UsePlan, String>)
    requires
        domains.wf(),
    ensures
        match r {
            Ok(plan) => {
                &&& unbindable(domains@, name@) is None
                &&& plan.id@ == name@
                &&& plan.resync_left == (left@ != name@ && domains@.contains_key(left@))
                &&& text::optional_text(plan.rebind_warning) == (if left@ != name@ && left@
                    != DEFAULT_DOMAIN@ {
                    Some(rebind_text(session@, left@, name@))
                } else {
                    None
                })
            },
            Err(e) => unbindable(domains@, name@) == Some(e@),
        },
{
    let id = match DomainId::new(name) {
        Ok(id) => id,
        Err(e) => return Err(e.to_text()),
    };
    if !domains.contains(&id) {
        return Err(text::join3("domain \"", id.as_str(), "\" does not exist — create it first"));
    }
    let moved = !text::same(left.as_str(), id.as_str());
    let rebind_warning = if moved && !left.is_default() {
        let head = text::join3("session ", session, " was bound to \"");
        let mid = text::join3(&head, left.as_str(), "\" and is now rebound to \"");
        Some(
            text::join3(
                &mid,
                id.as_str(),
                "\". If you did not just switch domains on purpose, another client is sharing this session (two agent conversations behind one MCP server process?) and your reads may silently target its domain. Fix the setup: give each client its own `--session <name>` — do NOT paper over it by re-binding before each query, which only hides the collision.",
            ),
        )
    } else {
        None
    };
    let resync_left = moved && domains.contains(left);
    Ok(UsePlan { id, resync_left, rebind_warning })
}

/// Whether two sets of domains differ in the bookmarks of a session alone, which
/// are gone from the domains that are named.
pub open spec fn swept(
    before: Map<Seq<char>, Domain>,
    after: Map<Seq<char>, Domain>,
    names: Seq<Seq<char>>,
    session: Seq<char>,
) -> bool {
    &&& after.dom() == before.dom()
    &&& forall|k: Seq<char>| #[trigger]
        after.contains_key(k) ==> {
            &&& after[k].config == before[k].config
            &&& after[k].pipeline == before[k].pipeline
            &&& after[k].metrics == before[k].metrics
            &&& after[k].bookmarks@ == (if names.contains(k) {
                without_session(before[k].bookmarks@, session)
            } else {
                before[k].bookmarks@
            })
        }
}

/// The names of a list of domains.
pub open spec fn id_names(ids: Seq<DomainId>) -> Seq<Seq<char>> {
    Seq::new(ids.len(), |i: int| ids[i]@)
}

/// Sweep the bookmarks that a displaced holder of a session's name has left in
/// the domains it touched, so that the live session does not inherit them.
pub fn sweep_displaced(domains: &mut DomainRegistry, touched: &Vec<DomainId>, session: &str)
    requires
        old(domains).wf(),
    ensures
        final(domains).wf(),
        swept(old(domains)@, final(domains)@, id_names(touched@), session@),
{
    let ghost before = domains@;
    let ghost names = id_names(touched@);
    let mut i: usize = 0;
    while i < touched.len()
        invariant
            domains.wf(),
            names == id_names(touched@),
            i <= touched@.len(),
            swept(before, domains@, names.take(i as int), session@),
        decreases touched@.len() - i,
    {
        let ghost now = domains@;
        let ghost name = touched@[i as int]@;
        if let Some(d) = domains.get_mut(&touched[i]) {
            d.bookmarks.clear_session(session);
        }
        proof {
            let here = names.take(i as int);
            let next = names.take(i + 1);
            assert(next =~= here.push(name));
            assert forall|k: Seq<char>| next.contains(k) == (here.contains(k) || k == name) by {
                if here.contains(k) {
                    let j = choose|j: int| 0 <= j < here.len() && here[j] == k;
                    assert(next[j] == k);
                }
                if k == name {
                    assert(next[i as int] == k);
                }
                if next.contains(k) {
                    let j = choose|j: int| 0 <= j < next.len() && next[j] == k;
                    if j < i {
                        assert(here[j] == k);
                    }
                }
            }
            assert(domains@.dom() =~= before.dom());
            if now.contains_key(name) {
                assert(without_session(now[name].bookmarks@, session@) =~= without_session(
                    before[name].bookmarks@,
                    session@,
                ));
            }
        }
        i += 1;
    }
    proof {
        assert(names.take(names.len() as int) =~= names);
    }
}

/// Of two moments the later counts, and one counts more than none.
pub proof fn the_later_moment_counts(a: Option<i64>, b: Option<i64>)
    ensures
        later(a, b) is None <==> a is None && b is None,
        later(a, b) == a || later(a, b) == b,
        a matches Some(x) ==> later(a, b)->0 >= x,
        b matches Some(y) ==> later(a, b)->0 >= y,
{
}

/// A domain's last log is the latest that any of its log listeners received, and its last
/// span the latest of its trace listeners.
pub proof fn activity_is_the_latest_arrival(d: Domain, stale_after_secs: u64, now: i64)
    ensures
        ({
            let liv = d.metrics@.last;
            let a = activity_at(d, stale_after_secs, now);
            let logs = seq![liv.gelf_udp, liv.gelf_tcp, liv.otlp_http_logs, liv.otlp_grpc_logs];
            let spans = seq![liv.otlp_http_traces, liv.otlp_grpc_traces];
            &&& a.last_log_received_at == liv.gelf_udp || a.last_log_received_at == liv.gelf_tcp
                || a.last_log_received_at == liv.otlp_http_logs || a.last_log_received_at
                == liv.otlp_grpc_logs
            &&& forall|i: int|
                0 <= i < 4 && (#[trigger] logs[i]) is Some ==> a.last_log_received_at is Some
                    && a.last_log_received_at->0 >= logs[i]->0
            &&& a.last_span_received_at == liv.otlp_http_traces || a.last_span_received_at
                == liv.otlp_grpc_traces
            &&& forall|i: int|
                0 <= i < 2 && (#[trigger] spans[i]) is Some ==> a.last_span_received_at is Some
                    && a.last_span_received_at->0 >= spans[i]->0
        }),
{
}

/// A domain has been idle since its last arrival of either kind, in whole seconds, and is
/// stale from a number of them on. One that never received anything is neither.
pub proof fn idle_domains_become_stale(d: Domain, stale_after_secs: u64, now: i64)
    ensures
        ({
            let a = activity_at(d, stale_after_secs, now);
            let log = a.last_log_received_at;
            let span = a.last_span_received_at;
            &&& log is None && span is None ==> a.idle_secs is None && !a.stale
            &&& log is Some || span is Some ==> {
                let at = if span is None || (log is Some && log->0 >= span->0) {
                    log->0
                } else {
                    span->0
                };
                &&& a.idle_secs is Some
                &&& a.stale <==> a.idle_secs->0 >= stale_after_secs
                &&& now <= at ==> a.idle_secs->0 == 0
                &&& at < now && now - at <= i64::MAX ==> a.idle_secs->0 * 1_000_000_000 <= now - at
                    && now - at < (a.idle_secs->0 + 1) * 1_000_000_000
            }
        }),
{
}

/// A domain is created only under a name, within the limit, with buffers of the sizes that
/// were asked for, and with no port used twice.
pub proof fn domains_are_created_as_asked(
    req: DomainsCreate,
    domains: Map<Seq<char>, Domain>,
    policy: DomainPolicy,
)
    ensures
        creation(req, domains, policy) matches Ok(CreateStep::Spawn {
            log_buffer_size,
            span_buffer_size,
        }) ==> {
            &&& !req.persist
            &&& is_name(req.name@)
            &&& !domains.contains_key(req.name@)
            &&& api_created(domains).len() < policy.max_domains
            &&& req.log_buffer_size matches Some(n) ==> log_buffer_size == n
            &&& req.log_buffer_size is None ==> log_buffer_size == policy.default_log_buffer_size
            &&& req.span_buffer_size matches Some(n) ==> span_buffer_size == n
            &&& req.span_buffer_size is None ==> span_buffer_size == policy.default_span_buffer_size
            &&& log_buffer_size <= 10_000_000
            &&& span_buffer_size <= 10_000_000
        },
        creation(req, domains, policy) matches Ok(CreateStep::Exists) ==> {
            &&& domains.contains_key(req.name@)
            &&& req.gelf_port matches Some(p) ==> p == domains[req.name@].config.gelf_port
            &&& req.otlp_grpc_port matches Some(p) ==> p
                == domains[req.name@].config.otlp_grpc_port
            &&& req.otlp_http_port matches Some(p) ==> p
                == domains[req.name@].config.otlp_http_port
        },
        creation(req, domains, policy) is Ok ==> {
            &&& req.gelf_port matches Some(p) ==> p == 0 || (req.otlp_grpc_port != Some(p)
                && req.otlp_http_port != Some(p))
            &&& req.otlp_grpc_port matches Some(p) ==> p == 0 || req.otlp_http_port != Some(p)
        },
{
}

/// A domain that can be created is: nothing but what was said stands in the way.
pub proof fn nothing_else_refuses_a_domain(
    req: DomainsCreate,
    domains: Map<Seq<char>, Domain>,
    policy: DomainPolicy,
)
    requires
        !req.persist,
        is_name(req.name@),
        req.gelf_port is None || req.gelf_port == Some(0u16),
        req.otlp_grpc_port is None || req.otlp_grpc_port == Some(0u16),
    ensures
        !domains.contains_key(req.name@) && api_created(domains).len() < policy.max_domains
            && req.log_buffer_size is None && policy.default_log_buffer_size <= 10_000_000
            && req.span_buffer_size is None && policy.default_span_buffer_size <= 10_000_000
            ==> creation(req, domains, policy) is Ok,
        domains.contains_key(req.name@) && req.gelf_port is None && req.otlp_grpc_port is None
            && req.otlp_http_port is None ==> creation(req, domains, policy) == Ok::<
            CreateStep,
            Seq<char>,
        >(CreateStep::Exists),
{
}

/// Only a domain that is there and was not declared can be deleted, and only one that is
/// there can be used.
pub proof fn domains_go_by_their_names(domains: Map<Seq<char>, Domain>, name: Seq<char>)
    ensures
        undeletable(domains, name) is None <==> is_name(name) && domains.contains_key(name)
            && domains[name].config.source != DomainSource::Config,
        unbindable(domains, name) is None <==> is_name(name) && domains.contains_key(name),
{
}

/// Sweeping takes a displaced session's bookmarks out of the domains that it touched, and
/// leaves everything else as it was.
pub proof fn sweeping_spares_the_rest(
    before: Map<Seq<char>, Domain>,
    after: Map<Seq<char>, Domain>,
    names: Seq<Seq<char>>,
    session: Seq<char>,
    name: Seq<char>,
    mark: Seq<char>,
)
    requires
        swept(before, after, names, session),
        before.contains_key(name),
    ensures
        after.contains_key(name),
        after[name].config == before[name].config,
        after[name].pipeline == before[name].pipeline,
        after[name].metrics == before[name].metrics,
        !names.contains(name) ==> after[name].bookmarks@ == before[name].bookmarks@,
        names.contains(name) ==> (after[name].bookmarks@.contains_key(mark)
            <==> before[name].bookmarks@.contains_key(mark) && !owned_by(mark, session)),
        after[name].bookmarks@.contains_key(mark) ==> after[name].bookmarks@[mark]
            == before[name].bookmarks@[mark],
{
    assert(before.dom().contains(name));
    assert(after.dom().contains(name));
}

} // verus!
