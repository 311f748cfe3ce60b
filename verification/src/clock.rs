//! Instants, as the records and the registry carry them.
use vstd::prelude::*;

verus! {

/// Seconds since the Unix epoch of the first instant that a [`Timestamp`] holds.
pub const MIN_SECS: i64 = -8_334_601_228_800;

/// Seconds since the Unix epoch of the last second that a [`Timestamp`] holds.
pub const MAX_SECS: i64 = 8_210_266_876_799;

pub const NANOS_PER_SEC: u32 = 1_000_000_000;

/// A UTC instant: whole seconds since the Unix epoch and the nanoseconds after
/// them. A leap second counts as the end of the second before it.
#[derive(Debug, Clone, Copy, PartialEq, Eq, Hash, Structural)]
pub struct Timestamp {
    secs: i64,
    nanos: u32,
}

impl Timestamp {
    #[verifier::type_invariant]
    closed spec fn in_range(self) -> bool {
        representable(self.secs as int, self.nanos as int)
    }

    /// Whole seconds since the Unix epoch.
    pub closed spec fn unix_secs(self) -> int {
        self.secs as int
    }

    /// Nanoseconds after [`Timestamp::unix_secs`].
    pub closed spec fn subsec_nanos(self) -> int {
        self.nanos as int
    }

    /// Nanoseconds since the Unix epoch.
    pub open spec fn instant(self) -> int {
        self.unix_secs() * 1_000_000_000 + self.subsec_nanos()
    }

    /// The instant `secs` seconds and `nanos` nanoseconds after the Unix epoch,
    /// where there is one.
    pub fn new(secs: i64, nanos: u32) -> (r: Option<Self>)
        ensures
            match r {
                Some(t) => representable(secs as int, nanos as int) && t.unix_secs() == secs
                    && t.subsec_nanos() == nanos,
                None => !representable(secs as int, nanos as int),
            },
    {
        if MIN_SECS <= secs && secs <= MAX_SECS && nanos < NANOS_PER_SEC {
            Some(Timestamp { secs, nanos })
        } else {
            None
        }
    }

    /// The instant `nanos` nanoseconds after the Unix epoch.
    pub closed spec fn after_epoch(nanos: u64) -> Timestamp {
        Timestamp {
            secs: (nanos / 1_000_000_000) as i64,
            nanos: (nanos % 1_000_000_000) as u32,
        }
    }

    /// The instant `nanos` nanoseconds after the Unix epoch.
    pub fn from_unix_nanos(nanos: u64) -> (t: Self)
        ensures
            t == Timestamp::after_epoch(nanos),
            t.instant() == nanos,
    {
        let secs: u64 = nanos / 1_000_000_000;
        let rest: u64 = nanos % 1_000_000_000;
        Timestamp { secs: secs as i64, nanos: rest as u32 }
    }

    /// The instant `secs` seconds before this one, where there is one.
    pub fn minus_seconds(&self, secs: u64) -> (r: Option<Self>)
        ensures
            match r {
                Some(t) => {
                    &&& t.unix_secs() == self.unix_secs() - secs
                    &&& t.subsec_nanos() == self.subsec_nanos()
                },
                None => self.unix_secs() - secs < MIN_SECS,
            },
    {
        proof {
            use_type_invariant(self);
        }
        let at: i128 = self.secs as i128 - secs as i128;
        if at < MIN_SECS as i128 {
            None
        } else {
            Some(Timestamp { secs: at as i64, nanos: self.nanos })
        }
    }

    pub fn secs(&self) -> (r: i64)
        ensures
            r == self.unix_secs(),
    {
        self.secs
    }

    pub fn nanos(&self) -> (r: u32)
        ensures
            r == self.subsec_nanos(),
    {
        self.nanos
    }

    /// Whether this instant comes before `other`.
    pub fn before(&self, other: &Timestamp) -> (r: bool)
        ensures
            r == (self.instant() < other.instant()),
    {
        proof {
            use_type_invariant(self);
            use_type_invariant(other);
        }
        self.secs < other.secs || (self.secs == other.secs && self.nanos < other.nanos)
    }

    /// The later of two instants; the first, where neither is.
    pub open spec fn later_of(self, other: Timestamp) -> Timestamp {
        if self.instant() < other.instant() {
            other
        } else {
            self
        }
    }

    /// The later of two instants.
    pub fn later(&self, other: &Timestamp) -> (r: Self)
        ensures
            r == self.later_of(*other),
    {
        if self.before(other) {
            *other
        } else {
            *self
        }
    }

    /// Whole seconds from `earlier` to this instant, rounded towards zero.
    pub fn seconds_since(&self, earlier: &Timestamp) -> (r: i64)
        ensures
            r == whole_seconds(self.instant() - earlier.instant()),
    {
        proof {
            use_type_invariant(self);
            use_type_invariant(earlier);
        }
        seconds_between(self.secs, self.nanos, earlier.secs, earlier.nanos)
    }

    /// The RFC 3339 form, as the registry records an instant in a value.
    pub fn to_rfc3339(&self) -> (text: String)
        ensures
            text@ == self.rfc3339(),
    {
        proof {
            use_type_invariant(self);
        }
        rfc3339(self.secs, self.nanos)
    }

    /// The RFC 3339 form of this instant.
    pub open spec fn rfc3339(self) -> Seq<char> {
        rfc3339_text(self.unix_secs(), self.subsec_nanos())
    }
}

/// Whether an instant can be held: the years -262143 to 262142, and a
/// nanosecond part below one second.
pub open spec fn representable(secs: int, nanos: int) -> bool {
    MIN_SECS <= secs <= MAX_SECS && 0 <= nanos < NANOS_PER_SEC
}

/// `nanos` nanoseconds in whole seconds, rounded towards zero.
pub open spec fn whole_seconds(nanos: int) -> int {
    if nanos >= 0 {
        nanos / 1_000_000_000
    } else {
        -((-nanos) / 1_000_000_000)
    }
}

/// The instant so many nanoseconds after the Unix epoch is that many after it, and
/// no two numbers give the same.
pub proof fn epoch_instants_count_nanoseconds(nanos: u64)
    ensures
        Timestamp::after_epoch(nanos).instant() == nanos,
        0 <= Timestamp::after_epoch(nanos).subsec_nanos() < 1_000_000_000,
{
}

/// What `chrono::DateTime::to_rfc3339` renders.
pub uninterp spec fn rfc3339_text(secs: int, nanos: int) -> Seq<char>;

/// `chrono::DateTime::signed_duration_since` and `TimeDelta::num_seconds`: the
/// whole seconds between two UTC instants, rounded towards zero.
#[verifier::external_body]
fn seconds_between(secs: i64, nanos: u32, earlier_secs: i64, earlier_nanos: u32) -> (r: i64)
    requires
        representable(secs as int, nanos as int),
        representable(earlier_secs as int, earlier_nanos as int),
    ensures
        r == whole_seconds(
            (secs - earlier_secs) * 1_000_000_000 + (nanos - earlier_nanos),
        ),
{
    let later = chrono::DateTime::from_timestamp(secs, nanos).unwrap();
    let earlier = chrono::DateTime::from_timestamp(earlier_secs, earlier_nanos).unwrap();
    later.signed_duration_since(earlier).num_seconds()
}

/// `chrono::DateTime::to_rfc3339`: the RFC 3339 text of a UTC instant, which
/// depends on the instant alone.
#[verifier::external_body]
fn rfc3339(secs: i64, nanos: u32) -> (text: String)
    requires
        representable(secs as int, nanos as int),
    ensures
        text@ == rfc3339_text(secs as int, nanos as int),
{
    chrono::DateTime::from_timestamp(secs, nanos).unwrap().to_rfc3339()
}

/// Whole seconds leave out what is less than one, before an instant as after it.
pub proof fn whole_seconds_leave_out_the_rest(nanos: int)
    ensures
        nanos >= 0 ==> whole_seconds(nanos) * 1_000_000_000 <= nanos < (whole_seconds(nanos) + 1)
            * 1_000_000_000,
        whole_seconds(-nanos) == -whole_seconds(nanos),
{
}

} // verus!
