//! How OTLP spells what a record holds.
use crate::clock::Timestamp;
use crate::gelf::message::Level;
use crate::text;
use crate::text::{decimal_text, signed_text};
use vstd::prelude::*;

verus! {

broadcast use vstd::string::group_string_axioms;

/// The level of an OTLP severity: 1 to 4 trace, 5 to 8 debug, 9 to 12 info, 13
/// to 16 warn, 17 to 24 error and fatal. Anything else is unspecified, which is
/// info.
pub open spec fn level_of_severity(severity: i32) -> Level {
    if 1 <= severity <= 4 {
        Level::Trace
    } else if 5 <= severity <= 8 {
        Level::Debug
    } else if 13 <= severity <= 16 {
        Level::Warn
    } else if 17 <= severity <= 24 {
        Level::Error
    } else {
        Level::Info
    }
}

/// Map an OTLP severity number to a level.
pub fn severity_to_level(severity: i32) -> (r: Level)
    ensures
        r == level_of_severity(severity),
{
    if 1 <= severity && severity <= 4 {
        Level::Trace
    } else if 5 <= severity && severity <= 8 {
        Level::Debug
    } else if 13 <= severity && severity <= 16 {
        Level::Warn
    } else if 17 <= severity && severity <= 24 {
        Level::Error
    } else {
        Level::Info
    }
}

/// The number that bytes spell, the first of them the highest.
pub open spec fn big_endian(bytes: Seq<u8>) -> nat
    decreases bytes.len(),
{
    if bytes.len() == 0 {
        0
    } else {
        big_endian(bytes.drop_last()) * 256 + bytes.last() as nat
    }
}

/// The id that `width` bytes spell. Neither another width nor zero is an id.
pub open spec fn id_of(bytes: Seq<u8>, width: nat) -> Option<nat> {
    if bytes.len() != width || big_endian(bytes) == 0 {
        None
    } else {
        Some(big_endian(bytes))
    }
}

/// 256 to the `n`.
pub open spec fn byte_range(n: nat) -> nat
    decreases n,
{
    if n == 0 {
        1
    } else {
        byte_range((n - 1) as nat) * 256
    }
}

proof fn lemma_big_endian_bound(bytes: Seq<u8>)
    ensures
        big_endian(bytes) < byte_range(bytes.len()),
    decreases bytes.len(),
{
    if bytes.len() > 0 {
        lemma_big_endian_bound(bytes.drop_last());
    }
}

fn read_big_endian(bytes: &[u8]) -> (r: u128)
    requires
        bytes@.len() <= 16,
    ensures
        r == big_endian(bytes@),
        r < byte_range(bytes@.len()),
{
    let mut n: u128 = 0;
    let mut i: usize = 0;
    proof {
        assert(bytes@.take(0) =~= seq![]);
    }
    while i < bytes.len()
        invariant
            i <= bytes@.len() <= 16,
            n == big_endian(bytes@.take(i as int)),
        decreases bytes@.len() - i,
    {
        proof {
            let done = bytes@.take(i as int);
            lemma_big_endian_bound(done);
            reveal_with_fuel(byte_range, 17);
            assert(bytes@.take(i + 1).drop_last() =~= done);
            assert(byte_range(done.len()) <= byte_range(15));
        }
        n = n * 256 + bytes[i] as u128;
        i += 1;
    }
    proof {
        assert(bytes@.take(bytes@.len() as int) =~= bytes@);
        lemma_big_endian_bound(bytes@);
    }
    n
}

/// Convert a 16-byte trace id. None if it has another length or is zero.
pub fn bytes_to_trace_id(bytes: &[u8]) -> (r: Option<u128>)
    ensures
        match r {
            Some(id) => id_of(bytes@, 16) == Some(id as nat),
            None => id_of(bytes@, 16) is None,
        },
{
    if bytes.len() != 16 {
        return None;
    }
    let id: u128 = read_big_endian(bytes);
    if id == 0 {
        None
    } else {
        Some(id)
    }
}

/// Convert an 8-byte span id. None if it has another length or is zero.
pub fn bytes_to_span_id(bytes: &[u8]) -> (r: Option<u64>)
    ensures
        match r {
            Some(id) => id_of(bytes@, 8) == Some(id as nat),
            None => id_of(bytes@, 8) is None,
        },
{
    if bytes.len() != 8 {
        return None;
    }
    let id: u128 = read_big_endian(bytes);
    proof {
        reveal_with_fuel(byte_range, 9);
        assert(byte_range(8) == 0x1_0000_0000_0000_0000);
    }
    if id == 0 {
        None
    } else {
        Some(id as u64)
    }
}

/// The moment that is that many nanoseconds after the Unix epoch.
pub fn nanos_to_datetime(nanos: u64) -> (t: Timestamp)
    ensures
        t == Timestamp::after_epoch(nanos),
        t.instant() == nanos,
{
    Timestamp::from_unix_nanos(nanos)
}

/// The views of a list of pairs.
pub open spec fn pair_views(pairs: Seq<(String, String)>) -> Seq<(Seq<char>, Seq<char>)> {
    pairs.map_values(|p: (String, String)| (p.0@, p.1@))
}

/// The last value of a key, or `otherwise` where it has none.
pub open spec fn last_value(
    pairs: Seq<(Seq<char>, Seq<char>)>,
    key: Seq<char>,
    otherwise: Seq<char>,
) -> Seq<char>
    decreases pairs.len(),
{
    if pairs.len() == 0 {
        otherwise
    } else if pairs.last().0 == key {
        pairs.last().1
    } else {
        last_value(pairs.drop_last(), key, otherwise)
    }
}

/// Extract `service.name` and `host.name`, each `unknown` where it is not given
/// and the last one where it is given more than once.
pub fn extract_resource_attrs(attrs: &Vec<(String, String)>) -> (r: (String, String))
    ensures
        r.0@ == last_value(pair_views(attrs@), "service.name"@, "unknown"@),
        r.1@ == last_value(pair_views(attrs@), "host.name"@, "unknown"@),
{
    let ghost all = pair_views(attrs@);
    let mut service = text::owned("unknown");
    let mut host = text::owned("unknown");
    let mut i: usize = 0;
    proof {
        assert(all.take(0) =~= seq![]);
        reveal_strlit("service.name");
        reveal_strlit("host.name");
        assert("service.name"@.len() != "host.name"@.len());
    }
    while i < attrs.len()
        invariant
            all == pair_views(attrs@),
            i <= attrs@.len(),
            "service.name"@ != "host.name"@,
            service@ == last_value(all.take(i as int), "service.name"@, "unknown"@),
            host@ == last_value(all.take(i as int), "host.name"@, "unknown"@),
        decreases attrs@.len() - i,
    {
        proof {
            assert(all.take(i + 1).drop_last() =~= all.take(i as int));
            assert(all.take(i + 1).last() == all[i as int]);
            assert(all[i as int] == (attrs@[i as int].0@, attrs@[i as int].1@));
        }
        if text::same(&attrs[i].0, "service.name") {
            service = attrs[i].1.clone();
        } else if text::same(&attrs[i].0, "host.name") {
            host = attrs[i].1.clone();
        }
        i += 1;
    }
    proof {
        assert(all.take(all.len() as int) =~= all);
    }
    (service, host)
}

/// An attribute value as OTLP's binary form carries it.
#[derive(Debug, PartialEq, Eq)]
pub enum AttributeValue {
    Text(String),
    Integer(i64),
    /// A float, in its shortest exact decimal form.
    Double(String),
    Truth(bool),
    Bytes(Vec<u8>),
    List,
    KeyValues,
}

/// What an [`AttributeValue`] stands for.
#[verifier::ext_equal]
pub enum AttributeView {
    Text(Seq<char>),
    Integer(i64),
    Double(Seq<char>),
    Truth(bool),
    Bytes(Seq<u8>),
    List,
    KeyValues,
}

impl View for AttributeValue {
    type V = AttributeView;

    open spec fn view(&self) -> AttributeView {
        match self {
            AttributeValue::Text(s) => AttributeView::Text(s@),
            AttributeValue::Integer(n) => AttributeView::Integer(*n),
            AttributeValue::Double(s) => AttributeView::Double(s@),
            AttributeValue::Truth(b) => AttributeView::Truth(*b),
            AttributeValue::Bytes(b) => AttributeView::Bytes(b@),
            AttributeValue::List => AttributeView::List,
            AttributeValue::KeyValues => AttributeView::KeyValues,
        }
    }
}

/// Bytes as a list of numbers with commas between them.
pub open spec fn byte_list(bytes: Seq<u8>) -> Seq<char>
    decreases bytes.len(),
{
    if bytes.len() == 0 {
        seq![]
    } else if bytes.len() == 1 {
        decimal_text(bytes[0] as nat)
    } else {
        byte_list(bytes.drop_last()) + ", "@ + decimal_text(bytes.last() as nat)
    }
}

fn list_bytes(bytes: &Vec<u8>) -> (r: String)
    ensures
        r@ == byte_list(bytes@),
{
    let mut out = String::new();
    let mut i: usize = 0;
    proof {
        assert(bytes@.take(0) =~= seq![]);
    }
    while i < bytes.len()
        invariant
            i <= bytes@.len(),
            out@ == byte_list(bytes@.take(i as int)),
        decreases bytes@.len() - i,
    {
        proof {
            assert(bytes@.take(i + 1).drop_last() =~= bytes@.take(i as int));
            assert(bytes@.take(i + 1).last() == bytes@[i as int]);
        }
        if i > 0 {
            out.append(", ");
        }
        out.append(&text::decimal(bytes[i] as u64));
        i += 1;
    }
    proof {
        assert(bytes@.take(bytes@.len() as int) =~= bytes@);
    }
    out
}

/// A value as text. Lists and key-value lists have none.
pub open spec fn attribute_text(v: AttributeView) -> Option<Seq<char>> {
    match v {
        AttributeView::Text(s) => Some(s),
        AttributeView::Integer(n) => Some(signed_text(n as int)),
        AttributeView::Double(s) => Some(s),
        AttributeView::Truth(b) => Some(
            if b {
                "true"@
            } else {
                "false"@
            },
        ),
        AttributeView::Bytes(b) => Some("["@ + byte_list(b) + "]"@),
        AttributeView::List => None,
        AttributeView::KeyValues => None,
    }
}

fn text_of_attribute(v: &AttributeValue) -> (r: Option<String>)
    ensures
        text::optional_text(r) == attribute_text(v@),
{
    match v {
        AttributeValue::Text(s) => Some(s.clone()),
        AttributeValue::Integer(n) => Some(text::signed_decimal(*n)),
        AttributeValue::Double(s) => Some(s.clone()),
        AttributeValue::Truth(b) => Some(
            text::owned(
                if *b {
                    "true"
                } else {
                    "false"
                },
            ),
        ),
        AttributeValue::Bytes(b) => Some(text::join3("[", &list_bytes(b), "]")),
        AttributeValue::List => None,
        AttributeValue::KeyValues => None,
    }
}

/// An attribute: a key, and a value where it was given one.
#[derive(Debug, PartialEq, Eq)]
pub struct Attribute {
    pub key: String,
    pub value: Option<AttributeValue>,
}

/// The text of an attribute, where it has one.
pub open spec fn attribute_pair(a: Attribute) -> Option<(Seq<char>, Seq<char>)> {
    match a.value {
        Some(v) => match attribute_text(v@) {
            Some(s) => Some((a.key@, s)),
            None => None,
        },
        None => None,
    }
}

/// The attributes that have a text, in their order.
pub open spec fn attribute_pairs(attrs: Seq<Attribute>) -> Seq<(Seq<char>, Seq<char>)>
    decreases attrs.len(),
{
    if attrs.len() == 0 {
        seq![]
    } else {
        match attribute_pair(attrs.last()) {
            Some(p) => attribute_pairs(attrs.drop_last()).push(p),
            None => attribute_pairs(attrs.drop_last()),
        }
    }
}

/// Convert attributes to a list of keys and texts.
pub fn key_values_to_pairs(kvs: &Vec<Attribute>) -> (r: Vec<(String, String)>)
    ensures
        pair_views(r@) == attribute_pairs(kvs@),
{
    let mut out: Vec<(String, String)> = Vec::new();
    let mut i: usize = 0;
    proof {
        assert(kvs@.take(0) =~= seq![]);
        assert(pair_views(out@) =~= seq![]);
    }
    while i < kvs.len()
        invariant
            i <= kvs@.len(),
            pair_views(out@) == attribute_pairs(kvs@.take(i as int)),
        decreases kvs@.len() - i,
    {
        let ghost before = out@;
        proof {
            assert(kvs@.take(i + 1).drop_last() =~= kvs@.take(i as int));
            assert(kvs@.take(i + 1).last() == kvs@[i as int]);
        }
        match &kvs[i].value {
            Some(v) => match text_of_attribute(v) {
                Some(s) => {
                    let pair = (kvs[i].key.clone(), s);
                    let ghost pv = (pair.0@, pair.1@);
                    out.push(pair);
                    proof {
                        assert(pair_views(out@) =~= pair_views(before).push(pv));
                    }
                },
                None => {},
            },
            None => {},
        }
        i += 1;
    }
    proof {
        assert(kvs@.take(kvs@.len() as int) =~= kvs@);
    }
    out
}

/// The severities from 1 to 24 fall into bands of four: trace, debug, information,
/// warning, and two of errors. All others count as information.
pub proof fn severity_bands_become_levels(severity: i32)
    ensures
        ({
            let level = level_of_severity(severity);
            &&& level == Level::Trace <==> 1 <= severity <= 4
            &&& level == Level::Debug <==> 5 <= severity <= 8
            &&& level == Level::Info <==> 9 <= severity <= 12 || severity <= 0 || severity > 24
            &&& level == Level::Warn <==> 13 <= severity <= 16
            &&& level == Level::Error <==> 17 <= severity <= 24
        }),
{
}

/// A higher severity is no milder.
pub proof fn higher_severities_are_no_milder(a: i32, b: i32)
    requires
        1 <= a <= b <= 24,
    ensures
        level_of_severity(a).rank() <= level_of_severity(b).rank(),
{
}

/// Of the values of a key the last stands, and a key without one has the other text.
pub proof fn the_last_value_stands(
    pairs: Seq<(Seq<char>, Seq<char>)>,
    key: Seq<char>,
    otherwise: Seq<char>,
    i: int,
)
    requires
        forall|j: int| i < j < pairs.len() ==> (#[trigger] pairs[j]).0 != key,
        -1 <= i < pairs.len(),
        i >= 0 ==> pairs[i].0 == key,
    ensures
        last_value(pairs, key, otherwise) == if i >= 0 {
            pairs[i].1
        } else {
            otherwise
        },
    decreases pairs.len(),
{
    if pairs.len() > 0 && i < pairs.len() - 1 {
        let front = pairs.drop_last();
        assert(pairs[pairs.len() - 1].0 != key);
        assert forall|j: int| i < j < front.len() implies (#[trigger] front[j]).0 != key by {
            assert(front[j] == pairs[j]);
        }
        the_last_value_stands(front, key, otherwise, i);
    }
}

/// An id reads the first byte as the highest: one more byte behind it moves it up by
/// 256 and adds that byte. No id is zero, and all bytes zero is no id.
pub proof fn ids_read_high_bytes_first(bytes: Seq<u8>, last: u8, width: nat)
    requires
        bytes.len() + 1 == width,
    ensures
        id_of(bytes.push(last), width) matches Some(n) ==> n > 0 && n % 256 == last && n / 256
            == big_endian(bytes),
        id_of(bytes.push(last), width) is None <==> last == 0 && big_endian(bytes) == 0,
        id_of(bytes, width) is None,
{
    assert(bytes.push(last).drop_last() =~= bytes);
}

/// Attributes are taken one by one and in order: those of two lists are those of the
/// one and then those of the other.
pub proof fn attributes_keep_their_order(a: Seq<Attribute>, b: Seq<Attribute>)
    ensures
        attribute_pairs(a + b) == attribute_pairs(a) + attribute_pairs(b),
    decreases b.len(),
{
    if b.len() == 0 {
        assert(a + b =~= a);
        assert(attribute_pairs(a) + attribute_pairs(b) =~= attribute_pairs(a));
    } else {
        assert((a + b).drop_last() =~= a + b.drop_last());
        attributes_keep_their_order(a, b.drop_last());
        if let Some(p) = attribute_pair(b.last()) {
            assert(attribute_pairs(a) + attribute_pairs(b.drop_last()).push(p) =~= (attribute_pairs(
                a,
            ) + attribute_pairs(b.drop_last())).push(p));
        }
    }
}

/// An attribute keeps its key beside its text; one without a value, a list or a list of
/// pairs is left out, and a text stands as it is.
pub proof fn attributes_keep_their_keys(a: Attribute)
    ensures
        attribute_pairs(seq![a]) == (match a.value {
            None => seq![],
            Some(v) => match v@ {
                AttributeView::List => seq![],
                AttributeView::KeyValues => seq![],
                AttributeView::Text(t) => seq![(a.key@, t)],
                AttributeView::Double(t) => seq![(a.key@, t)],
                AttributeView::Integer(n) => seq![(a.key@, signed_text(n as int))],
                AttributeView::Truth(true) => seq![(a.key@, "true"@)],
                AttributeView::Truth(false) => seq![(a.key@, "false"@)],
                AttributeView::Bytes(b) => seq![(a.key@, "["@ + byte_list(b) + "]"@)],
            },
        }),
{
    reveal_with_fuel(attribute_pairs, 2);
    assert(seq![a].drop_last() =~= seq![]);
    assert(attribute_pairs(seq![a]) =~= match attribute_pair(a) {
        Some(p) => seq![p],
        None => seq![],
    });
}

/// Bytes are listed one after the other.
pub proof fn bytes_are_listed_in_order(bytes: Seq<u8>, b: u8)
    ensures
        byte_list(seq![]).len() == 0,
        byte_list(seq![b]) == decimal_text(b as nat),
        bytes.len() > 0 ==> byte_list(bytes.push(b)) == byte_list(bytes) + ", "@ + decimal_text(
            b as nat,
        ),
{
    assert(bytes.push(b).drop_last() =~= bytes);
}

} // verus!
