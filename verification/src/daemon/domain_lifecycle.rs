//! Runtime domain lifecycle: what a `domains.create`d domain binds, and the
//! domain that comes of it.
//!
//! Binding happens before the domain exists, so that a port clash is a clean
//! error rather than a silently-dead task.
use crate::daemon::domain::{Domain, DomainConfig, DomainId, DomainSource};
use crate::engine::pipeline::fresh_pipeline;
use crate::receiver::gelf::{GelfReceiver, GelfReceiverConfig};
use crate::receiver::metrics::ReceiverMetrics;
use crate::receiver::otlp::{OtlpReceiver, OtlpReceiverConfig};
use crate::text;
use crate::text::decimal_text;
use vstd::prelude::*;

verus! {

broadcast use vstd::string::group_string_axioms;

/// Per-domain ingest channel capacity. Receivers never park, so overflow bumps
/// drop counters.
pub const LOG_CHANNEL_CAP: usize = 65_536;

pub const SPAN_CHANNEL_CAP: usize = 65_536;

/// How often a free port is tried for before giving up.
pub const GELF_ATTEMPTS: u8 = 5;

/// Requested ports for a new domain. `None`: allocate a free port; `Some(0)`:
/// disable that receiver; `Some(n)`: bind exactly `n`.
#[derive(Debug, Clone, Copy, PartialEq, Eq, Structural)]
pub struct DomainPortSpec {
    pub gelf: Option<u16>,
    pub otlp_grpc: Option<u16>,
    pub otlp_http: Option<u16>,
}

/// A port on every interface.
pub open spec fn address_of(port: u16) -> Seq<char> {
    "0.0.0.0:"@ + decimal_text(port as nat)
}

/// A port on every interface.
pub fn address(port: u16) -> (r: String)
    ensures
        r@ == address_of(port),
{
    text::join2("0.0.0.0:", &text::decimal(port as u64))
}

/// GELF on one port, UDP and TCP.
pub fn gelf_config(port: u16) -> (r: GelfReceiverConfig)
    ensures
        r.udp_addr@ == address_of(port),
        r.tcp_addr@ == address_of(port),
{
    GelfReceiverConfig { udp_addr: address(port), tcp_addr: address(port) }
}

/// The port to bind for a request: 0, for the kernel to choose, where none is
/// given.
pub open spec fn port_or_any(port: Option<u16>) -> u16 {
    match port {
        Some(p) => p,
        None => 0,
    }
}

/// Where OTLP is to listen, or `None` where it is disabled: which takes both
/// ports to be disabled.
pub fn otlp_config(ports: DomainPortSpec) -> (r: Option<OtlpReceiverConfig>)
    ensures
        match r {
            Some(c) => {
                &&& !(ports.otlp_grpc == Some(0u16) && ports.otlp_http == Some(0u16))
                &&& c.grpc_addr@ == address_of(port_or_any(ports.otlp_grpc))
                &&& c.http_addr@ == address_of(port_or_any(ports.otlp_http))
            },
            None => ports.otlp_grpc == Some(0u16) && ports.otlp_http == Some(0u16),
        },
{
    let grpc_off = match ports.otlp_grpc {
        Some(p) => p == 0,
        None => false,
    };
    let http_off = match ports.otlp_http {
        Some(p) => p == 0,
        None => false,
    };
    if grpc_off && http_off {
        return None;
    }
    let grpc: u16 = match ports.otlp_grpc {
        Some(p) => p,
        None => 0,
    };
    let http: u16 = match ports.otlp_http {
        Some(p) => p,
        None => 0,
    };
    Some(OtlpReceiverConfig { grpc_addr: address(grpc), http_addr: address(http) })
}

/// What is to be done next to start GELF.
#[derive(Debug, Clone, Copy, PartialEq, Eq, Structural)]
pub enum GelfStep {
    /// Nothing: GELF is disabled.
    Disabled,
    /// Bind exactly this port.
    BindExactly(u16),
    /// Find a free port and bind it; so many tries are left.
    BindFree(u8),
    /// Give up with the last error.
    GiveUp,
}

/// The first step for a requested port.
pub fn start_gelf(port: Option<u16>) -> (r: GelfStep)
    ensures
        r == (match port {
            Some(p) => if p == 0 {
                GelfStep::Disabled
            } else {
                GelfStep::BindExactly(p)
            },
            None => GelfStep::BindFree(GELF_ATTEMPTS),
        }),
{
    match port {
        Some(p) => if p == 0 {
            GelfStep::Disabled
        } else {
            GelfStep::BindExactly(p)
        },
        None => GelfStep::BindFree(GELF_ATTEMPTS),
    }
}

/// The step after a bind that failed.
pub open spec fn after_failed_bind(step: GelfStep) -> GelfStep {
    match step {
        GelfStep::Disabled => GelfStep::Disabled,
        GelfStep::BindExactly(_) => GelfStep::GiveUp,
        GelfStep::BindFree(left) => if left > 1 {
            GelfStep::BindFree((left - 1) as u8)
        } else {
            GelfStep::GiveUp
        },
        GelfStep::GiveUp => GelfStep::GiveUp,
    }
}

/// The step after a bind that failed. A clash on a requested port is final; a
/// free port may be taken between finding and binding it, so that is tried
/// again.
pub fn bind_failed(step: GelfStep) -> (r: GelfStep)
    ensures
        r == after_failed_bind(step),
{
    match step {
        GelfStep::Disabled => GelfStep::Disabled,
        GelfStep::BindExactly(_) => GelfStep::GiveUp,
        GelfStep::BindFree(left) => if left > 1 {
            GelfStep::BindFree(left - 1)
        } else {
            GelfStep::GiveUp
        },
        GelfStep::GiveUp => GelfStep::GiveUp,
    }
}

/// The step after that many failures.
pub open spec fn after_failures(step: GelfStep, n: nat) -> GelfStep
    decreases n,
{
    if n == 0 {
        step
    } else {
        after_failed_bind(after_failures(step, (n - 1) as nat))
    }
}

/// A free port is tried for exactly as often as it should be, and no longer.
pub proof fn free_ports_are_tried_so_often(n: nat)
    requires
        n <= GELF_ATTEMPTS,
    ensures
        after_failures(GelfStep::BindFree(GELF_ATTEMPTS), n) == (if n < GELF_ATTEMPTS {
            GelfStep::BindFree((GELF_ATTEMPTS - n) as u8)
        } else {
            GelfStep::GiveUp
        }),
    decreases n,
{
    if n > 0 {
        free_ports_are_tried_so_often((n - 1) as nat);
    }
}

/// The GELF port of a domain: 0 where GELF is disabled.
pub open spec fn gelf_port_of(gelf: Option<GelfReceiver>) -> u16 {
    match gelf {
        Some(g) => g.udp(),
        None => 0,
    }
}

/// The OTLP ports of a domain: 0 where OTLP is disabled.
pub open spec fn otlp_ports_of(otlp: Option<OtlpReceiver>) -> (u16, u16) {
    match otlp {
        Some(o) => (o.grpc(), o.http()),
        None => (0, 0),
    }
}

/// Assemble an ephemeral domain on the receivers that were bound for it. It
/// starts at seq 0, and its metrics are those that its receivers count in.
pub fn spawn_ephemeral_domain(
    id: DomainId,
    gelf: Option<GelfReceiver>,
    otlp: Option<OtlpReceiver>,
    log_buffer_size: usize,
    span_buffer_size: usize,
    metrics: ReceiverMetrics,
) -> (r: Domain)
    ensures
        r.wf(),
        r.config.name == id,
        r.config.gelf_port == gelf_port_of(gelf),
        r.config.otlp_grpc_port == otlp_ports_of(otlp).0,
        r.config.otlp_http_port == otlp_ports_of(otlp).1,
        r.config.log_buffer_size == log_buffer_size,
        r.config.span_buffer_size == span_buffer_size,
        r.config.source == DomainSource::Ephemeral,
        r.pipeline@ == fresh_pipeline(log_buffer_size as nat, 0),
        r.bookmarks@ == Map::<Seq<char>, u64>::empty(),
        r.metrics == metrics,
{
    let gelf_port: u16 = match gelf {
        Some(g) => g.udp_port(),
        None => 0,
    };
    let (otlp_grpc_port, otlp_http_port) = match otlp {
        Some(o) => (o.grpc_port(), o.http_port()),
        None => (0, 0),
    };
    let config = DomainConfig {
        name: id,
        gelf_port,
        otlp_grpc_port,
        otlp_http_port,
        log_buffer_size,
        span_buffer_size,
        source: DomainSource::Ephemeral,
    };
    Domain::new_with_metrics(config, 0, metrics)
}

/// A port that is asked for is bound, and none but that; where none is asked for, the kernel
/// chooses.
pub proof fn asked_ports_are_bound(port: u16, n: nat)
    requires
        n >= 1,
    ensures
        port_or_any(Some(port)) == port,
        port_or_any(None) == 0,
        address_of(port) == "0.0.0.0:"@ + decimal_text(port as nat),
        after_failures(GelfStep::BindExactly(port), n) == GelfStep::GiveUp,
    decreases n,
{
    if n > 1 {
        asked_ports_are_bound(port, (n - 1) as nat);
    } else {
        reveal_with_fuel(after_failures, 2);
    }
}

/// What a domain listens on is what its receivers bound.
pub proof fn domains_report_bound_ports(gelf: GelfReceiver, otlp: OtlpReceiver)
    ensures
        gelf_port_of(Some(gelf)) == gelf.udp(),
        gelf_port_of(None) == 0,
        otlp_ports_of(Some(otlp)).0 == otlp.grpc(),
        otlp_ports_of(Some(otlp)).1 == otlp.http(),
        otlp_ports_of(None) == (0u16, 0u16),
{
}

/// GELF is off where its port is 0, binds the port that it is given, and looks for a free
/// one, five times, where it is given none.
pub proof fn gelf_starts_as_asked(port: Option<u16>, r: GelfStep)
    requires
        call_ensures(start_gelf, (port,), r),
    ensures
        r == GelfStep::Disabled <==> port == Some(0u16),
        port matches Some(p) ==> p != 0 ==> r == GelfStep::BindExactly(p),
        port is None ==> r == GelfStep::BindFree(5),
{
}

/// OTLP is off where both of its ports are 0, and otherwise listens on those that it is
/// given.
pub proof fn otlp_listens_as_asked(ports: DomainPortSpec, r: Option<OtlpReceiverConfig>)
    requires
        call_ensures(otlp_config, (ports,), r),
    ensures
        r is None <==> ports.otlp_grpc == Some(0u16) && ports.otlp_http == Some(0u16),
        r matches Some(c) ==> ports.otlp_grpc matches Some(p) ==> c.grpc_addr@ == "0.0.0.0:"@
            + decimal_text(p as nat),
        r matches Some(c) ==> ports.otlp_http matches Some(p) ==> c.http_addr@ == "0.0.0.0:"@
            + decimal_text(p as nat),
{
}

} // verus!
