//! Where logs and spans arrive, and what is counted of them.
pub mod gelf;
pub mod metrics;
pub mod otlp;

use crate::text;
use crate::text::{decimal_text, text_views};
use vstd::prelude::*;

pub use metrics::{ReceiverDropSnapshot, ReceiverMetrics, ReceiverSource};

verus! {

broadcast use vstd::string::group_string_axioms;

/// Something that listens for records.
pub trait Receiver {
    /// What it is called.
    spec fn called(&self) -> Seq<char>;

    /// Where it listens.
    spec fn listeners(&self) -> Seq<Seq<char>>;

    fn name(&self) -> (r: &str)
        ensures
            r@ == self.called(),
    ;

    fn listening_on(&self) -> (r: Vec<String>)
        ensures
            text_views(r@) == self.listeners(),
    ;
}

/// A listener: its protocol and its port.
pub open spec fn listener_text(protocol: Seq<char>, port: u16) -> Seq<char> {
    protocol + ":"@ + decimal_text(port as nat)
}

/// A list of two listeners, as it is shown.
pub(crate) fn listener_pair(first: &str, first_port: u16, second: &str, second_port: u16) -> (r: Vec<
    String,
>)
    ensures
        text_views(r@) == seq![
            listener_text(first@, first_port),
            listener_text(second@, second_port),
        ],
{
    let a = text::join3(first, ":", &text::decimal(first_port as u64));
    let b = text::join3(second, ":", &text::decimal(second_port as u64));
    let r: Vec<String> = vec![a, b];
    proof {
        assert(text_views(r@) =~= seq![
            listener_text(first@, first_port),
            listener_text(second@, second_port),
        ]);
    }
    r
}

} // verus!
