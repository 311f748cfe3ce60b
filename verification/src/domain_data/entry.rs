//! Entries, timestamps and `ttl`.
use crate::clock::{whole_seconds, Timestamp};
use crate::text;
use crate::text::{all_digits, decimal_text, digits_value};
use vstd::prelude::*;

verus! {

broadcast use vstd::string::group_string_axioms;

/// One recorded belief.
///
/// Two timestamps rather than one "last modified", because that conflates two
/// questions: set six days ago and never revisited is a guess, the same value
/// confirmed five minutes ago is evidence.
#[derive(Debug, PartialEq, Eq)]
pub struct Entry {
    pub value: String,
    /// When THIS VALUE came into force. Moves only when the value changes.
    pub created_at: Timestamp,
    /// When someone last confirmed it is still true. Invariant:
    /// `validated_at >= created_at`.
    pub validated_at: Timestamp,
    /// How long after confirmation this stays believable. Absent means the
    /// document reports an age and **no verdict**, never "current".
    pub ttl_secs: Option<u64>,
}

/// What an [`Entry`] stands for.
#[verifier::ext_equal]
pub struct EntryView {
    pub value: Seq<char>,
    pub created_at: Timestamp,
    pub validated_at: Timestamp,
    pub ttl_secs: Option<u64>,
}

impl EntryView {
    /// A value was never confirmed before it came into force.
    pub open spec fn ordered(self) -> bool {
        self.created_at.instant() <= self.validated_at.instant()
    }
}

impl View for Entry {
    type V = EntryView;

    open spec fn view(&self) -> EntryView {
        EntryView {
            value: self.value@,
            created_at: self.created_at,
            validated_at: self.validated_at,
            ttl_secs: self.ttl_secs,
        }
    }
}

impl Clone for Entry {
    fn clone(&self) -> (r: Self)
        ensures
            r@ == self@,
    {
        Entry {
            value: self.value.clone(),
            created_at: self.created_at,
            validated_at: self.validated_at,
            ttl_secs: self.ttl_secs,
        }
    }
}

/// The entry that a value set at `now` makes.
pub open spec fn fresh_entry(value: Seq<char>, now: Timestamp, ttl_secs: Option<u64>) -> EntryView {
    EntryView { value, created_at: now, validated_at: now, ttl_secs }
}

impl Entry {
    pub fn new(value: String, now: Timestamp, ttl_secs: Option<u64>) -> (r: Self)
        ensures
            r@ == fresh_entry(value@, now, ttl_secs),
    {
        Entry { value, created_at: now, validated_at: now, ttl_secs }
    }

    /// Age in whole seconds since last confirmation, which is what a document
    /// renders. Negative where the confirmation lies in the future.
    pub fn age(&self, now: Timestamp) -> (secs: i64)
        ensures
            secs == whole_seconds(now.instant() - self@.validated_at.instant()),
    {
        now.seconds_since(&self.validated_at)
    }

    /// Whether the stated lifetime has elapsed **since `validated_at`**.
    ///
    /// Measured from validation, not creation, and the choice is load-bearing.
    /// From `created_at` a key restated daily for a month would read expired
    /// forever, while a confirmed value is evidence.
    ///
    /// `None` means unknown, never fresh: no `ttl`, no verdict.
    pub fn is_expired(&self, now: Timestamp) -> (r: Option<bool>)
        ensures
            r == match self@.ttl_secs {
                Some(ttl) => Some(
                    whole_seconds(now.instant() - self@.validated_at.instant()) >= ttl,
                ),
                None => None,
            },
    {
        match self.ttl_secs {
            None => None,
            Some(ttl) => {
                let elapsed: i64 = self.age(now);
                Some(elapsed >= 0 && elapsed as u64 >= ttl)
            },
        }
    }
}

/// What a caller asked to happen to one key's lifetime.
///
/// Three states, because "leave it alone", "set it" and "take it away" are
/// three different requests: absent leaves it, and these are the other two.
#[derive(Debug, Clone, Copy, PartialEq, Eq, Structural)]
pub enum TtlSpec {
    Seconds(u64),
    Clear,
}

#[derive(Debug, Clone, Copy, PartialEq, Eq, Structural)]
pub enum TtlParseError {
    /// Not `<integer><unit>`, or a unit outside `s m h d w`.
    Malformed,
    /// `0s` and friends. A zero lifetime reads as "stale immediately" at least
    /// as naturally as "no lifetime", so it is refused rather than guessed at.
    Zero,
    Overflow,
}

/// The seconds in one of a unit.
pub open spec fn unit_secs(unit: char) -> Option<u64> {
    if unit == 's' {
        Some(1)
    } else if unit == 'm' {
        Some(60)
    } else if unit == 'h' {
        Some(3600)
    } else if unit == 'd' {
        Some(86_400)
    } else if unit == 'w' {
        Some(604_800)
    } else {
        None
    }
}

/// The seconds that a duration literal names: one integer and one unit.
pub open spec fn duration_of(s: Seq<char>) -> Result<u64, TtlParseError> {
    if s.len() < 2 || unit_secs(s.last()) is None || !all_digits(s.drop_last()) {
        Err(TtlParseError::Malformed)
    } else if digits_value(s.drop_last()) == 0 {
        Err(TtlParseError::Zero)
    } else if digits_value(s.drop_last()) * unit_secs(s.last())->0 > u64::MAX {
        Err(TtlParseError::Overflow)
    } else {
        Ok((digits_value(s.drop_last()) * unit_secs(s.last())->0) as u64)
    }
}

/// The shortest exact literal of a number of seconds.
pub open spec fn duration_text(secs: u64) -> Seq<char> {
    if secs % 604_800 == 0 {
        decimal_text((secs / 604_800) as nat).push('w')
    } else if secs % 86_400 == 0 {
        decimal_text((secs / 86_400) as nat).push('d')
    } else if secs % 3600 == 0 {
        decimal_text((secs / 3600) as nat).push('h')
    } else if secs % 60 == 0 {
        decimal_text((secs / 60) as nat).push('m')
    } else {
        decimal_text(secs as nat).push('s')
    }
}

/// Parse a duration literal: one integer and one unit, no compounds.
///
/// `30s`, `5m`, `2h`, `7d`, `4w`. Deliberately narrow.
pub fn parse_duration(s: &str) -> (r: Result<u64, TtlParseError>)
    ensures
        r == duration_of(s@),
{
    let chars = text::chars_of(s);
    if chars.len() < 2 {
        return Err(TtlParseError::Malformed);
    }
    let last: usize = chars.len() - 1;
    let mult: u64 = match chars[last] {
        's' => 1,
        'm' => 60,
        'h' => 3600,
        'd' => 86_400,
        'w' => 604_800,
        _ => return Err(TtlParseError::Malformed),
    };
    proof {
        assert(chars@.subrange(0, last as int) =~= s@.drop_last());
    }
    if !text::digits_between(&chars, 0, last) {
        return Err(TtlParseError::Malformed);
    }
    let ghost value = digits_value(s@.drop_last());
    match text::number_between(&chars, 0, last) {
        None => {
            proof {
                assert(value * mult >= value) by (nonlinear_arith)
                    requires
                        mult >= 1,
                        value >= 0,
                ;
            }
            Err(TtlParseError::Overflow)
        },
        Some(n) => {
            if n == 0 {
                return Err(TtlParseError::Zero);
            }
            match n.checked_mul(mult) {
                Some(secs) => Ok(secs),
                None => Err(TtlParseError::Overflow),
            }
        },
    }
}

/// Render seconds back as the shortest exact literal, so a value round-trips.
pub fn render_duration(secs: u64) -> (r: String)
    ensures
        r@ == duration_text(secs),
{
    if secs % 604_800 == 0 {
        with_unit(secs / 604_800, 'w')
    } else if secs % 86_400 == 0 {
        with_unit(secs / 86_400, 'd')
    } else if secs % 3600 == 0 {
        with_unit(secs / 3600, 'h')
    } else if secs % 60 == 0 {
        with_unit(secs / 60, 'm')
    } else {
        with_unit(secs, 's')
    }
}

fn with_unit(n: u64, unit: char) -> (r: String)
    ensures
        r@ == decimal_text(n as nat).push(unit),
{
    let mut out = text::decimal(n);
    out.push(unit);
    out
}

/// A rendered duration parses back to the same number of seconds. Zero, which
/// no literal may name, is refused.
pub proof fn durations_round_trip(secs: u64)
    ensures
        secs > 0 ==> duration_of(duration_text(secs)) == Ok::<u64, TtlParseError>(secs),
        secs == 0 ==> duration_of(duration_text(secs)) == Err::<u64, TtlParseError>(
            TtlParseError::Zero,
        ),
{
    if secs % 604_800 == 0 {
        lemma_literal_reads_back((secs / 604_800) as nat, 'w', secs);
    } else if secs % 86_400 == 0 {
        lemma_literal_reads_back((secs / 86_400) as nat, 'd', secs);
    } else if secs % 3600 == 0 {
        lemma_literal_reads_back((secs / 3600) as nat, 'h', secs);
    } else if secs % 60 == 0 {
        lemma_literal_reads_back((secs / 60) as nat, 'm', secs);
    } else {
        lemma_literal_reads_back(secs as nat, 's', secs);
    }
}

/// The rendered literal names its number of seconds, and no literal that does is
/// shorter.
pub proof fn rendered_durations_are_the_shortest(secs: u64, s: Seq<char>)
    requires
        duration_of(s) == Ok::<u64, TtlParseError>(secs),
    ensures
        duration_of(duration_text(secs)) == Ok::<u64, TtlParseError>(secs),
        duration_text(secs).len() <= s.len(),
{
    durations_round_trip(secs);
    let n = digits_value(s.drop_last());
    let unit = unit_secs(s.last())->0;
    assert(n * unit == secs && n > 0 && unit > 0);
    assert(secs > 0) by (nonlinear_arith)
        requires
            n * unit == secs,
            n > 0,
            unit > 0,
    ;
    let shown = if secs % 604_800 == 0 {
        secs / 604_800
    } else if secs % 86_400 == 0 {
        secs / 86_400
    } else if secs % 3600 == 0 {
        secs / 3600
    } else if secs % 60 == 0 {
        secs / 60
    } else {
        secs
    };
    assert(shown <= n) by {
        if unit == 604_800 {
            assert(n * 604_800 == secs);
        } else if unit == 86_400 {
            assert(n * 86_400 == secs);
        } else if unit == 3600 {
            assert(n * 3600 == secs);
        } else if unit == 60 {
            assert(n * 60 == secs);
        } else {
            assert(n * 1 == secs);
        }
    }
    text::larger_numbers_are_no_shorter(shown as nat, n);
    text::digits_are_no_shorter(s.drop_last());
}

proof fn lemma_literal_reads_back(n: nat, unit: char, secs: u64)
    requires
        unit_secs(unit) is Some,
        n * unit_secs(unit)->0 == secs,
        n == 0 ==> secs == 0,
    ensures
        duration_of(decimal_text(n).push(unit)) == (if n == 0 {
            Err::<u64, TtlParseError>(TtlParseError::Zero)
        } else {
            Ok::<u64, TtlParseError>(secs)
        }),
{
    let literal = decimal_text(n).push(unit);
    text::decimal_reads_back(n);
    assert(literal.drop_last() =~= decimal_text(n));
    assert(literal.last() == unit);
}

/// A literal names as many seconds as its number times its unit: a second, a minute of
/// 60, an hour of 3600, a day of 24 hours, a week of seven days.
pub proof fn literals_name_number_and_unit(digits: Seq<char>, unit: char)
    requires
        digits.len() > 0,
        all_digits(digits),
        digits_value(digits) > 0,
        digits_value(digits) * 604_800 <= u64::MAX,
    ensures
        duration_of(digits.push('s')) == Ok::<u64, TtlParseError>(digits_value(digits) as u64),
        duration_of(digits.push('m')) == Ok::<u64, TtlParseError>((digits_value(digits) * 60) as u64),
        duration_of(digits.push('h')) == Ok::<u64, TtlParseError>(
            (digits_value(digits) * 60 * 60) as u64,
        ),
        duration_of(digits.push('d')) == Ok::<u64, TtlParseError>(
            (digits_value(digits) * 60 * 60 * 24) as u64,
        ),
        duration_of(digits.push('w')) == Ok::<u64, TtlParseError>(
            (digits_value(digits) * 60 * 60 * 24 * 7) as u64,
        ),
        unit != 's' && unit != 'm' && unit != 'h' && unit != 'd' && unit != 'w' ==> duration_of(
            digits.push(unit),
        ) == Err::<u64, TtlParseError>(TtlParseError::Malformed),
{
    assert(digits.push('s').drop_last() =~= digits);
    assert(digits.push('m').drop_last() =~= digits);
    assert(digits.push('h').drop_last() =~= digits);
    assert(digits.push('d').drop_last() =~= digits);
    assert(digits.push('w').drop_last() =~= digits);
    assert(digits.push(unit).last() == unit);
}

/// What is no number and one unit is no literal; a literal of nothing and one that 64 bits
/// do not hold are refused as such.
pub proof fn other_texts_are_no_durations(s: Seq<char>)
    ensures
        s.len() < 2 ==> duration_of(s) == Err::<u64, TtlParseError>(TtlParseError::Malformed),
        s.len() >= 2 && !all_digits(s.drop_last()) ==> duration_of(s) == Err::<u64, TtlParseError>(
            TtlParseError::Malformed,
        ),
        s.len() >= 2 && s.last() == 's' && all_digits(s.drop_last()) ==> {
            &&& digits_value(s.drop_last()) == 0 ==> duration_of(s) == Err::<u64, TtlParseError>(
                TtlParseError::Zero,
            )
            &&& digits_value(s.drop_last()) > u64::MAX ==> duration_of(s) == Err::<
                u64,
                TtlParseError,
            >(TtlParseError::Overflow)
        },
{
}

/// A value that was just set is in force and confirmed from that moment.
pub proof fn fresh_values_are_in_force(value: Seq<char>, now: Timestamp, ttl: Option<u64>)
    ensures
        fresh_entry(value, now, ttl).value == value,
        fresh_entry(value, now, ttl).created_at == now,
        fresh_entry(value, now, ttl).validated_at == now,
        fresh_entry(value, now, ttl).ttl_secs == ttl,
{
}

/// A value has expired once its lifetime has passed since it was confirmed, to the
/// nanosecond; one without a lifetime neither has nor has not.
pub proof fn values_expire_after_their_lifetime(e: Entry, now: Timestamp, r: Option<bool>)
    requires
        call_ensures(Entry::is_expired, (&e, now), r),
    ensures
        e@.ttl_secs is None ==> r is None,
        e@.ttl_secs matches Some(ttl) ==> ttl > 0 ==> r == Some(
            now.instant() - e@.validated_at.instant() >= ttl * 1_000_000_000,
        ),
{
}

} // verus!
