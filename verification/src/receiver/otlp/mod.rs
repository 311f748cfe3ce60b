//! OTLP: what its requests carry, as records of this library.
pub mod http;
pub mod mapping;

use crate::receiver::{listener_pair, listener_text, Receiver};
use vstd::prelude::*;

verus! {

/// Where to listen.
#[derive(Debug, PartialEq, Eq)]
pub struct OtlpReceiverConfig {
    pub grpc_addr: String,
    pub http_addr: String,
}

/// A receiver that has bound both of its ports.
#[derive(Debug, Clone, Copy, PartialEq, Eq, Structural)]
pub struct OtlpReceiver {
    grpc: u16,
    http: u16,
}

impl OtlpReceiver {
    /// The bound gRPC port.
    pub closed spec fn grpc(&self) -> u16 {
        self.grpc
    }

    /// The bound HTTP port.
    pub closed spec fn http(&self) -> u16 {
        self.http
    }

    /// A receiver whose listeners were given these ports.
    pub fn bound(grpc: u16, http: u16) -> (r: Self)
        ensures
            r.grpc() == grpc,
            r.http() == http,
    {
        OtlpReceiver { grpc, http }
    }

    pub fn grpc_port(&self) -> (r: u16)
        ensures
            r == self.grpc(),
    {
        self.grpc
    }

    pub fn http_port(&self) -> (r: u16)
        ensures
            r == self.http(),
    {
        self.http
    }
}

impl Receiver for OtlpReceiver {
    open spec fn called(&self) -> Seq<char> {
        "otlp"@
    }

    open spec fn listeners(&self) -> Seq<Seq<char>> {
        seq![listener_text("gRPC"@, self.grpc()), listener_text("HTTP"@, self.http())]
    }

    fn name(&self) -> (r: &str) {
        "otlp"
    }

    fn listening_on(&self) -> (r: Vec<String>) {
        listener_pair("gRPC", self.grpc, "HTTP", self.http)
    }
}

/// The receiver shows its gRPC port and then its HTTP port.
pub proof fn otlp_shows_both_ports(r: OtlpReceiver)
    ensures
        r.called() == "otlp"@,
        r.listeners().len() == 2,
        r.listeners()[0] == "gRPC"@ + ":"@ + crate::text::decimal_text(r.grpc() as nat),
        r.listeners()[1] == "HTTP"@ + ":"@ + crate::text::decimal_text(r.http() as nat),
{
}

} // verus!
