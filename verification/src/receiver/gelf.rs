//! The GELF receiver.
use crate::receiver::{listener_pair, listener_text, Receiver};
use crate::text::decimal_text;
use vstd::prelude::*;

verus! {

/// Where to listen.
#[derive(Debug, PartialEq, Eq)]
pub struct GelfReceiverConfig {
    pub udp_addr: String,
    pub tcp_addr: String,
}

/// A receiver that has bound both of its ports.
#[derive(Debug, Clone, Copy, PartialEq, Eq, Structural)]
pub struct GelfReceiver {
    udp: u16,
    tcp: u16,
}

impl GelfReceiver {
    /// The bound UDP port.
    pub closed spec fn udp(&self) -> u16 {
        self.udp
    }

    /// The bound TCP port.
    pub closed spec fn tcp(&self) -> u16 {
        self.tcp
    }

    /// A receiver whose listeners were given these ports.
    pub fn bound(udp: u16, tcp: u16) -> (r: Self)
        ensures
            r.udp() == udp,
            r.tcp() == tcp,
    {
        GelfReceiver { udp, tcp }
    }

    pub fn udp_port(&self) -> (r: u16)
        ensures
            r == self.udp(),
    {
        self.udp
    }

    pub fn tcp_port(&self) -> (r: u16)
        ensures
            r == self.tcp(),
    {
        self.tcp
    }
}

impl Receiver for GelfReceiver {
    open spec fn called(&self) -> Seq<char> {
        "gelf"@
    }

    open spec fn listeners(&self) -> Seq<Seq<char>> {
        seq![listener_text("UDP"@, self.udp()), listener_text("TCP"@, self.tcp())]
    }

    fn name(&self) -> (r: &str) {
        "gelf"
    }

    fn listening_on(&self) -> (r: Vec<String>) {
        listener_pair("UDP", self.udp, "TCP", self.tcp)
    }
}

/// The receiver shows its UDP port and then its TCP port.
pub proof fn gelf_shows_both_ports(r: GelfReceiver)
    ensures
        r.called() == "gelf"@,
        r.listeners().len() == 2,
        r.listeners()[0] == "UDP"@ + ":"@ + decimal_text(r.udp() as nat),
        r.listeners()[1] == "TCP"@ + ":"@ + decimal_text(r.tcp() as nat),
{
}

} // verus!
