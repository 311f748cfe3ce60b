//! OTLP over HTTP: the JSON form of log and trace requests.
use crate::clock::{epoch_instants_count_nanoseconds, Timestamp};
use crate::domain_data::path::byte_len;
use crate::gelf::message::{field_views, Level, LogEntry, LogEntryView, LogSource};
use crate::json::{
    integer_number, item_views, json_text, lemma_get_smaller, lemma_items_smaller, Json, JsonView,
};
use crate::receiver::metrics::{
    accounted, warning_due, Forwarded, MetricsView, ReceiverMetrics, ReceiverSource, SendOutcome,
    TraceTransport,
};
use crate::receiver::otlp::mapping::{
    extract_resource_attrs, last_value, level_of_severity, nanos_to_datetime, pair_views,
    severity_to_level, the_last_value_stands,
};
use crate::span::types::{
    event_views, span_views, SpanEntry, SpanEntryView, SpanEvent, SpanEventView, SpanKind,
    SpanStatus, SpanStatusView,
};
use crate::store::memory::{all_wf, entry_list};
use crate::text;
use crate::text::{hex_of, hex_up_to, i64_of, optional_text, signed_text, u64_of};
use crate::text_map::TextMap;
use std::collections::VecDeque;
use vstd::prelude::*;

verus! {

broadcast use vstd::string::group_string_axioms;

/// How full a channel may be, in per cent, before requests are refused rather
/// than let them consume the remaining headroom. Compliant clients retry with
/// exponential backoff, so this is a soft brake.
pub const BACKPRESSURE_THRESHOLD_PCT: u64 = 80;

/// How much of a channel is taken, in whole per cent.
pub open spec fn used_share(max: u64, free: u64) -> u64 {
    if max == 0 || free >= max {
        0
    } else {
        ((max - free) * 100 / (max as int)) as u64
    }
}

/// How much of a channel is taken, in whole per cent, of its `max` slots `free`
/// are free.
pub fn used_pct(max: u64, free: u64) -> (r: u64)
    ensures
        r == used_share(max, free),
        r <= 100,
{
    if max == 0 || free >= max {
        return 0;
    }
    let share: u128 = (max - free) as u128 * 100 / max as u128;
    proof {
        let taken = (max - free) as int;
        assert(0 <= taken * 100 / (max as int) <= 100) by (nonlinear_arith)
            requires
                0 <= taken <= max,
                max > 0,
        ;
    }
    share as u64
}

/// The text of an attribute value: a text, an integer in either of the forms in
/// which OTLP writes one, a float or a truth value.
pub open spec fn attr_text(v: JsonView) -> Option<Seq<char>> {
    if v.text_at("stringValue"@) is Some {
        v.text_at("stringValue"@)
    } else if let Some(n) = v.get("intValue"@) {
        match n.as_str() {
            Some(s) => Some(s),
            None => match n.as_i64() {
                Some(i) => Some(signed_text(i as int)),
                None => Some(json_text(n)),
            },
        }
    } else if let Some(JsonView::Number(d)) = v.get("doubleValue"@) {
        Some(d.float_display)
    } else if let Some(JsonView::Bool(b)) = v.get("boolValue"@) {
        Some(
            if b {
                "true"@
            } else {
                "false"@
            },
        )
    } else {
        None
    }
}

fn extract_json_attr_string_value(value: &Json) -> (r: Option<String>)
    ensures
        optional_text(r) == attr_text(value@),
{
    if let Some(s) = value.text_at("stringValue") {
        return Some(text::owned(s));
    }
    if let Some(n) = value.get("intValue") {
        return match n.as_str() {
            Some(s) => Some(text::owned(s)),
            None => match n.as_i64() {
                Some(i) => Some(text::signed_decimal(i)),
                None => Some(n.to_text()),
            },
        };
    }
    if let Some(Json::Number(d)) = value.get("doubleValue") {
        return Some(d.float_display.clone());
    }
    if let Some(Json::Bool(b)) = value.get("boolValue") {
        return Some(
            text::owned(
                if *b {
                    "true"
                } else {
                    "false"
                },
            ),
        );
    }
    None
}

/// The key and text of one attribute, where it has both.
pub open spec fn attr_pair(attr: JsonView) -> Option<(Seq<char>, Seq<char>)> {
    match (attr.text_at("key"@), attr.get("value"@)) {
        (Some(key), Some(value)) => match attr_text(value) {
            Some(s) => Some((key, s)),
            None => None,
        },
        _ => None,
    }
}

/// The keys and texts of the attributes that have both.
pub open spec fn attr_pairs(attrs: Seq<JsonView>) -> Seq<(Seq<char>, Seq<char>)>
    decreases attrs.len(),
{
    if attrs.len() == 0 {
        seq![]
    } else {
        match attr_pair(attrs.last()) {
            Some(p) => attr_pairs(attrs.drop_last()).push(p),
            None => attr_pairs(attrs.drop_last()),
        }
    }
}

/// The attributes of the resource that a part of a request is about.
pub open spec fn resource_attrs(part: JsonView) -> Seq<(Seq<char>, Seq<char>)> {
    match part.get("resource"@) {
        Some(resource) => attr_pairs(resource.items_at("attributes"@)),
        None => seq![],
    }
}

fn extract_json_resource_attrs(part: &Json) -> (r: Vec<(String, String)>)
    ensures
        pair_views(r@) == resource_attrs(part@),
{
    let mut out: Vec<(String, String)> = Vec::new();
    proof {
        assert(pair_views(out@) =~= seq![]);
    }
    let resource = match part.get("resource") {
        Some(resource) => resource,
        None => return out,
    };
    let attrs = match resource.items_at("attributes") {
        Some(attrs) => attrs,
        None => return out,
    };
    let ghost all = item_views(attrs@);
    let mut i: usize = 0;
    proof {
        assert(all.take(0) =~= seq![]);
    }
    while i < attrs.len()
        invariant
            all == item_views(attrs@),
            i <= attrs@.len(),
            pair_views(out@) == attr_pairs(all.take(i as int)),
        decreases attrs@.len() - i,
    {
        let attr = &attrs[i];
        let ghost before = out@;
        proof {
            assert(all.take(i + 1).drop_last() =~= all.take(i as int));
            assert(all.take(i + 1).last() == attr@);
        }
        match (attr.text_at("key"), attr.get("value")) {
            (Some(key), Some(value)) => match extract_json_attr_string_value(value) {
                Some(s) => {
                    let pair = (text::owned(key), s);
                    let ghost pv = (pair.0@, pair.1@);
                    out.push(pair);
                    proof {
                        assert(pair_views(out@) =~= pair_views(before).push(pv));
                    }
                },
                None => {},
            },
            _ => {},
        }
        i += 1;
    }
    proof {
        assert(all.take(all.len() as int) =~= all);
    }
    out
}

/// Where a key stands among members, or the length where it does not.
pub open spec fn member_index(members: Seq<(Seq<char>, JsonView)>, key: Seq<char>) -> int
    decreases members.len(),
{
    if members.len() == 0 {
        0
    } else if members[0].0 == key {
        0
    } else {
        1 + member_index(members.skip(1), key)
    }
}

/// Members with one more: in place of what stood at that key, or behind the
/// others.
pub open spec fn with_member(
    members: Seq<(Seq<char>, JsonView)>,
    key: Seq<char>,
    value: JsonView,
) -> Seq<(Seq<char>, JsonView)> {
    let i = member_index(members, key);
    if i < members.len() {
        members.update(i, (key, value))
    } else {
        members.push((key, value))
    }
}

/// The views of a list of members.
pub open spec fn member_views(members: Seq<(String, Json)>) -> Seq<(Seq<char>, JsonView)> {
    members.map_values(|m: (String, Json)| (m.0@, m.1@))
}

fn put_member(members: &mut Vec<(String, Json)>, key: String, value: Json)
    ensures
        member_views(final(members)@) == with_member(member_views(old(members)@), key@, value@),
{
    let ghost before = member_views(members@);
    let ghost kv = (key@, value@);
    let mut i: usize = 0;
    proof {
        assert(before.skip(0) =~= before);
    }
    while i < members.len() && !text::same_owned(&members[i].0, &key)
        invariant
            before == member_views(members@),
            kv == (key@, value@),
            i <= members@.len(),
            member_index(before, key@) == i + member_index(before.skip(i as int), key@),
        decreases members@.len() - i,
    {
        proof {
            assert(before[i as int] == (members@[i as int].0@, members@[i as int].1@));
            assert(before.skip(i as int)[0] == before[i as int]);
            assert(before.skip(i as int).skip(1) =~= before.skip(i + 1));
        }
        i += 1;
    }
    if i < members.len() {
        proof {
            assert(before[i as int] == (members@[i as int].0@, members@[i as int].1@));
            assert(before.skip(i as int)[0] == before[i as int]);
        }
        members.set(i, (key, value));
        proof {
            assert(member_views(members@) =~= before.update(i as int, kv));
        }
    } else {
        members.push((key, value));
        proof {
            assert(before.skip(i as int) =~= seq![]);
            assert(member_views(members@) =~= before.push(kv));
        }
    }
}

/// An attribute value as JSON: a list becomes an array and a key-value list an
/// object, all the way down; what is none of the forms of OTLP becomes null.
pub open spec fn attr_value(v: JsonView) -> JsonView
    decreases v,
{
    proof {
        lemma_get_smaller(v, "arrayValue"@);
        lemma_get_smaller(v, "kvlistValue"@);
        if let Some(outer) = v.get("arrayValue"@) {
            lemma_get_smaller(outer, "values"@);
            if let Some(inner) = outer.get("values"@) {
                lemma_items_smaller(inner);
            }
        }
        if let Some(outer) = v.get("kvlistValue"@) {
            lemma_get_smaller(outer, "values"@);
            if let Some(inner) = outer.get("values"@) {
                lemma_items_smaller(inner);
            }
        }
    }
    if let Some(s) = v.text_at("stringValue"@) {
        JsonView::Text(s)
    } else if let Some(n) = v.get("intValue"@) {
        integer_value(n)
    } else if let Some(JsonView::Number(d)) = v.get("doubleValue"@) {
        JsonView::Number(d.as_float())
    } else if let Some(JsonView::Bool(b)) = v.get("boolValue"@) {
        JsonView::Bool(b)
    } else if let Some(JsonView::Array(items)) = v.get2("arrayValue"@, "values"@) {
        JsonView::Array(attr_items(items))
    } else if let Some(JsonView::Array(items)) = v.get2("kvlistValue"@, "values"@) {
        JsonView::Object(attr_members(items))
    } else {
        JsonView::Null
    }
}

/// An integer in either of the forms in which OTLP writes one; anything else
/// stays as it is.
pub open spec fn integer_value(n: JsonView) -> JsonView {
    match (n.as_str(), n.as_i64()) {
        (Some(s), _) => match i64_of(s) {
            Some(i) => JsonView::Number(integer_number(i)),
            None => n,
        },
        (None, Some(i)) => JsonView::Number(integer_number(i)),
        (None, None) => n,
    }
}

/// The items of a list value.
pub open spec fn attr_items(items: Seq<JsonView>) -> Seq<JsonView>
    decreases items,
{
    if items.len() == 0 {
        seq![]
    } else {
        attr_items(items.drop_last()).push(attr_value(items[items.len() - 1]))
    }
}

/// The members of a key-value list: what has a key and a value. Of two values
/// of one key the later stands, in the place of the earlier.
pub open spec fn attr_members(items: Seq<JsonView>) -> Seq<(Seq<char>, JsonView)>
    decreases items,
{
    if items.len() == 0 {
        seq![]
    } else {
        proof {
            lemma_get_smaller(items[items.len() - 1], "value"@);
            assert(decreases_to!(items => items[items.len() - 1]));
        }
        let rest = attr_members(items.drop_last());
        match (items[items.len() - 1].text_at("key"@), items[items.len() - 1].get("value"@)) {
            (Some(key), Some(value)) => with_member(rest, key, attr_value(value)),
            _ => rest,
        }
    }
}

fn read_integer(n: &Json) -> (r: Json)
    ensures
        r@ == integer_value(n@),
{
    match n.as_str() {
        Some(s) => match text::parse_i64(s) {
            Some(i) => Json::integer(i),
            None => n.clone(),
        },
        None => match n.as_i64() {
            Some(i) => Json::integer(i),
            None => n.clone(),
        },
    }
}

fn json_attr_to_json_value(value: &Json) -> (r: Json)
    ensures
        r@ == attr_value(value@),
    decreases value,
{
    if let Some(s) = value.text_at("stringValue") {
        return Json::Text(text::owned(s));
    }
    if let Some(n) = value.get("intValue") {
        return read_integer(n);
    }
    if let Some(Json::Number(d)) = value.get("doubleValue") {
        return Json::Number(d.as_float());
    }
    if let Some(Json::Bool(b)) = value.get("boolValue") {
        return Json::Bool(*b);
    }
    if let Some(list) = value.get("arrayValue") {
        if let Some(items) = list.items_at("values") {
            let mut out: Vec<Json> = Vec::new();
            let ghost all = item_views(items@);
            let mut i: usize = 0;
            proof {
                assert(all.take(0) =~= seq![]);
                assert(item_views(out@) =~= seq![]);
            }
            while i < items.len()
                invariant
                    decreases_to!(value => items),
                    all == item_views(items@),
                    i <= items@.len(),
                    item_views(out@) == attr_items(all.take(i as int)),
                decreases items@.len() - i,
            {
                let ghost before = out@;
                proof {
                    assert(all.take(i + 1).drop_last() =~= all.take(i as int));
                    assert(all.take(i + 1)[i as int] == items@[i as int]@);
                    assert(decreases_to!(items => items@[i as int]));
                }
                let item = json_attr_to_json_value(&items[i]);
                let ghost iv = item@;
                out.push(item);
                proof {
                    assert(item_views(out@) =~= item_views(before).push(iv));
                }
                i += 1;
            }
            proof {
                assert(all.take(all.len() as int) =~= all);
            }
            let r = Json::Array(out);
            proof {
                assert(r@->Array_0 =~= item_views(out@));
            }
            return r;
        }
    }
    if let Some(list) = value.get("kvlistValue") {
        if let Some(items) = list.items_at("values") {
            let mut out: Vec<(String, Json)> = Vec::new();
            let ghost all = item_views(items@);
            let mut i: usize = 0;
            proof {
                assert(all.take(0) =~= seq![]);
                assert(member_views(out@) =~= seq![]);
            }
            while i < items.len()
                invariant
                    decreases_to!(value => items),
                    all == item_views(items@),
                    i <= items@.len(),
                    member_views(out@) == attr_members(all.take(i as int)),
                decreases items@.len() - i,
            {
                let item = &items[i];
                proof {
                    assert(all.take(i + 1).drop_last() =~= all.take(i as int));
                    assert(all.take(i + 1)[i as int] == items@[i as int]@);
                    assert(decreases_to!(items => items@[i as int]));
                }
                match (item.text_at("key"), item.get("value")) {
                    (Some(key), Some(inner)) => {
                        let member = json_attr_to_json_value(inner);
                        put_member(&mut out, text::owned(key), member);
                    },
                    _ => {},
                }
                i += 1;
            }
            proof {
                assert(all.take(all.len() as int) =~= all);
            }
            let r = Json::Object(out);
            proof {
                assert(r@->Object_0 =~= member_views(out@));
            }
            return r;
        }
    }
    Json::Null
}

/// The attributes of a list as a map: what has a key and a value, the later of
/// two values of one key.
pub open spec fn attr_map(items: Seq<JsonView>) -> Map<Seq<char>, JsonView>
    decreases items.len(),
{
    if items.len() == 0 {
        Map::empty()
    } else {
        let rest = attr_map(items.drop_last());
        match (items.last().text_at("key"@), items.last().get("value"@)) {
            (Some(key), Some(value)) => rest.insert(key, attr_value(value)),
            _ => rest,
        }
    }
}

fn json_attrs_to_map(holder: &Json) -> (r: TextMap<Json>)
    ensures
        r.wf(),
        field_views(r@) == attr_map(holder@.items_at("attributes"@)),
{
    let mut out: TextMap<Json> = TextMap::new();
    proof {
        assert(field_views(out@) =~= Map::empty());
    }
    let items = match holder.items_at("attributes") {
        Some(items) => items,
        None => return out,
    };
    let ghost all = item_views(items@);
    let mut i: usize = 0;
    proof {
        assert(all.take(0) =~= seq![]);
    }
    while i < items.len()
        invariant
            all == item_views(items@),
            i <= items@.len(),
            out.wf(),
            field_views(out@) == attr_map(all.take(i as int)),
        decreases items@.len() - i,
    {
        let item = &items[i];
        let ghost before = out@;
        proof {
            assert(all.take(i + 1).drop_last() =~= all.take(i as int));
            assert(all.take(i + 1).last() == items@[i as int]@);
        }
        match (item.text_at("key"), item.get("value")) {
            (Some(key), Some(inner)) => {
                let value = json_attr_to_json_value(inner);
                let ghost vv = value@;
                out.insert(text::owned(key), value);
                proof {
                    assert(field_views(out@) =~= field_views(before).insert(key@, vv));
                }
            },
            _ => {},
        }
        i += 1;
    }
    proof {
        assert(all.take(all.len() as int) =~= all);
    }
    out
}

/// The trace id that a hexadecimal text spells. Zero is none.
pub open spec fn trace_id_of(s: Seq<char>) -> Option<u128> {
    match hex_up_to(s, u128::MAX as nat) {
        Some(n) => if n == 0 {
            None
        } else {
            Some(n as u128)
        },
        None => None,
    }
}

/// The span id that a hexadecimal text spells. Zero is none.
pub open spec fn span_id_of(s: Seq<char>) -> Option<u64> {
    match hex_up_to(s, u64::MAX as nat) {
        Some(n) => if n == 0 {
            None
        } else {
            Some(n as u64)
        },
        None => None,
    }
}

fn hex_to_trace_id(hex: &str) -> (r: Option<u128>)
    ensures
        r == trace_id_of(hex@),
{
    match text::parse_hex_u128(hex) {
        Some(n) => if n == 0 {
            None
        } else {
            Some(n)
        },
        None => None,
    }
}

fn hex_to_span_id(hex: &str) -> (r: Option<u64>)
    ensures
        r == span_id_of(hex@),
{
    match text::parse_hex_u64(hex) {
        Some(n) => if n == 0 {
            None
        } else {
            Some(n)
        },
        None => None,
    }
}

/// The trace id at a member.
pub open spec fn trace_id_at(v: JsonView, key: Seq<char>) -> Option<u128> {
    match v.text_at(key) {
        Some(s) => trace_id_of(s),
        None => None,
    }
}

/// The span id at a member.
pub open spec fn span_id_at(v: JsonView, key: Seq<char>) -> Option<u64> {
    match v.text_at(key) {
        Some(s) => span_id_of(s),
        None => None,
    }
}

/// The nanoseconds at a member, as a text or as a number; 0 where it is neither.
pub open spec fn nanos_at(v: JsonView, key: Seq<char>) -> u64 {
    match v.get(key) {
        Some(JsonView::Text(s)) => match u64_of(s) {
            Some(n) => n,
            None => 0,
        },
        Some(JsonView::Number(n)) => match n.unsigned {
            Some(n) => n,
            None => 0,
        },
        _ => 0,
    }
}

fn read_trace_id(v: &Json, key: &str) -> (r: Option<u128>)
    ensures
        r == trace_id_at(v@, key@),
{
    match v.text_at(key) {
        Some(s) => hex_to_trace_id(s),
        None => None,
    }
}

fn read_span_id(v: &Json, key: &str) -> (r: Option<u64>)
    ensures
        r == span_id_at(v@, key@),
{
    match v.text_at(key) {
        Some(s) => hex_to_span_id(s),
        None => None,
    }
}

fn parse_nanos(v: &Json, key: &str) -> (r: u64)
    ensures
        r == nanos_at(v@, key@),
{
    match v.get(key) {
        Some(Json::Text(s)) => match text::parse_u64(s) {
            Some(n) => n,
            None => 0,
        },
        Some(Json::Number(n)) => match n.unsigned {
            Some(n) => n,
            None => 0,
        },
        _ => 0,
    }
}

/// The message of a log record: the text that its body wraps, or its body where
/// that is a text; empty where it is neither.
pub open spec fn body_text(record: JsonView) -> Seq<char> {
    match record.get("body"@) {
        Some(body) => match body.text_at("stringValue"@) {
            Some(s) => s,
            None => match body.as_str() {
                Some(s) => s,
                None => seq![],
            },
        },
        None => seq![],
    }
}

fn read_body(record: &Json) -> (r: String)
    ensures
        r@ == body_text(record@),
{
    match record.get("body") {
        Some(body) => match body.text_at("stringValue") {
            Some(s) => text::owned(s),
            None => match body.as_str() {
                Some(s) => text::owned(s),
                None => String::new(),
            },
        },
        None => String::new(),
    }
}

/// A message of more bytes than this is kept as the full message too.
pub const FULL_MESSAGE_BYTES: usize = 200;

/// The severity of a record, cut to 32 bits.
pub open spec fn severity_at(record: JsonView) -> i32 {
    match record.i64_at("severityNumber"@) {
        Some(n) => n as i32,
        None => 0,
    }
}

/// The record that a log record of a request becomes. One without a message
/// becomes none; one without a time gets the time of its arrival.
pub open spec fn log_entry_of(
    record: JsonView,
    service: Seq<char>,
    host: Seq<char>,
    now: Timestamp,
) -> Option<LogEntryView> {
    let message = body_text(record);
    let nanos = nanos_at(record, "timeUnixNano"@);
    if message.len() == 0 {
        None
    } else {
        Some(
            LogEntryView {
                seq: 0,
                timestamp: if nanos > 0 {
                    Timestamp::after_epoch(nanos)
                } else {
                    now
                },
                level: level_of_severity(severity_at(record)),
                message,
                full_message: if byte_len(message) > FULL_MESSAGE_BYTES {
                    Some(message)
                } else {
                    None
                },
                host,
                facility: Some(service),
                file: None,
                line: None,
                additional_fields: attr_map(record.items_at("attributes"@)),
                trace_id: trace_id_at(record, "traceId"@),
                span_id: span_id_at(record, "spanId"@),
                matched_filters: seq![],
                source: LogSource::Filter,
            },
        )
    }
}

/// Convert a JSON log record to a record.
pub fn parse_json_log_record(record: &Json, service: &str, host: &str, now: Timestamp) -> (r:
    Option<LogEntry>)
    ensures
        match r {
            Some(e) => e.wf() && log_entry_of(record@, service@, host@, now) == Some(e@),
            None => log_entry_of(record@, service@, host@, now) is None,
        },
{
    let message = read_body(record);
    if message.as_str().is_empty() {
        return None;
    }
    let severity: i32 = match record.i64_at("severityNumber") {
        Some(n) => #[verifier::truncate]
        (n as i32),
        None => 0,
    };
    let nanos: u64 = parse_nanos(record, "timeUnixNano");
    let full_message = if message.as_str().as_bytes().len() > FULL_MESSAGE_BYTES {
        Some(message.clone())
    } else {
        None
    };
    let matched_filters: Vec<String> = Vec::new();
    proof {
        assert(text::text_views(matched_filters@) =~= seq![]);
    }
    Some(
        LogEntry {
            seq: 0,
            timestamp: if nanos > 0 {
                nanos_to_datetime(nanos)
            } else {
                now
            },
            level: severity_to_level(severity),
            message,
            full_message,
            host: text::owned(host),
            facility: Some(text::owned(service)),
            file: None,
            line: None,
            additional_fields: json_attrs_to_map(record),
            trace_id: read_trace_id(record, "traceId"),
            span_id: read_span_id(record, "spanId"),
            matched_filters,
            source: LogSource::Filter,
        },
    )
}

/// The kind of a span, by its number.
pub open spec fn kind_of_number(kind: i64) -> SpanKind {
    if kind == 1 {
        SpanKind::Internal
    } else if kind == 2 {
        SpanKind::Server
    } else if kind == 3 {
        SpanKind::Client
    } else if kind == 4 {
        SpanKind::Producer
    } else if kind == 5 {
        SpanKind::Consumer
    } else {
        SpanKind::Unspecified
    }
}

fn map_json_span_kind(kind: i64) -> (r: SpanKind)
    ensures
        r == kind_of_number(kind),
{
    match kind {
        1 => SpanKind::Internal,
        2 => SpanKind::Server,
        3 => SpanKind::Client,
        4 => SpanKind::Producer,
        5 => SpanKind::Consumer,
        _ => SpanKind::Unspecified,
    }
}

/// How a span ended, by its status.
pub open spec fn status_of(span: JsonView) -> SpanStatusView {
    match span.get("status"@) {
        Some(status) => {
            let code = status.i64_at("code"@);
            if code == Some(1i64) {
                SpanStatusView::Okay
            } else if code == Some(2i64) {
                SpanStatusView::Error(
                    match status.text_at("message"@) {
                        Some(s) => s,
                        None => seq![],
                    },
                )
            } else {
                SpanStatusView::Unset
            }
        },
        None => SpanStatusView::Unset,
    }
}

fn map_json_span_status(span: &Json) -> (r: SpanStatus)
    ensures
        r@ == status_of(span@),
{
    match span.get("status") {
        Some(status) => {
            let code: i64 = match status.i64_at("code") {
                Some(code) => code,
                None => 0,
            };
            if code == 1 {
                SpanStatus::Okay
            } else if code == 2 {
                SpanStatus::Error(
                    match status.text_at("message") {
                        Some(s) => text::owned(s),
                        None => String::new(),
                    },
                )
            } else {
                SpanStatus::Unset
            }
        },
        None => SpanStatus::Unset,
    }
}

/// An event of a span.
pub open spec fn event_of(e: JsonView) -> SpanEventView {
    SpanEventView {
        name: match e.text_at("name"@) {
            Some(s) => s,
            None => seq![],
        },
        timestamp: Timestamp::after_epoch(nanos_at(e, "timeUnixNano"@)),
        attributes: attr_map(e.items_at("attributes"@)),
    }
}

/// The events of a span.
pub open spec fn events_of(events: Seq<JsonView>) -> Seq<SpanEventView> {
    events.map_values(|e: JsonView| event_of(e))
}

fn map_json_span_events(span: &Json) -> (r: Vec<SpanEvent>)
    ensures
        event_views(r@) == events_of(span@.items_at("events"@)),
{
    let mut out: Vec<SpanEvent> = Vec::new();
    let events = match span.items_at("events") {
        Some(events) => events,
        None => {
            proof {
                assert(event_views(out@) =~= events_of(seq![]));
            }
            return out;
        },
    };
    let ghost all = item_views(events@);
    let mut i: usize = 0;
    while i < events.len()
        invariant
            all == item_views(events@),
            i <= events@.len(),
            out@.len() == i,
            forall|k: int| 0 <= k < i ==> (#[trigger] out@[k])@ == event_of(all[k]),
        decreases events@.len() - i,
    {
        let e = &events[i];
        proof {
            assert(all[i as int] == e@);
        }
        out.push(
            SpanEvent {
                name: match e.text_at("name") {
                    Some(s) => text::owned(s),
                    None => String::new(),
                },
                timestamp: nanos_to_datetime(parse_nanos(e, "timeUnixNano")),
                attributes: json_attrs_to_map(e),
            },
        );
        i += 1;
    }
    proof {
        assert(event_views(out@) =~= events_of(all));
    }
    out
}

/// The span that a span of a request becomes. One whose trace id, span id or
/// name is unusable becomes none.
pub open spec fn span_entry_of(span: JsonView, service: Seq<char>) -> Option<SpanEntryView> {
    let trace_id = trace_id_at(span, "traceId"@);
    let span_id = span_id_at(span, "spanId"@);
    let name = match span.text_at("name"@) {
        Some(s) => s,
        None => seq![],
    };
    if trace_id is None || span_id is None || name.len() == 0 {
        None
    } else {
        Some(
            SpanEntryView {
                seq: 0,
                trace_id: trace_id->0,
                span_id: span_id->0,
                parent_span_id: span_id_at(span, "parentSpanId"@),
                start_time: Timestamp::after_epoch(nanos_at(span, "startTimeUnixNano"@)),
                end_time: Timestamp::after_epoch(nanos_at(span, "endTimeUnixNano"@)),
                name,
                kind: kind_of_number(
                    match span.i64_at("kind"@) {
                        Some(kind) => kind,
                        None => 0,
                    },
                ),
                service_name: service,
                status: status_of(span),
                attributes: attr_map(span.items_at("attributes"@)),
                events: events_of(span.items_at("events"@)),
            },
        )
    }
}

/// Convert a JSON span to a span.
pub fn parse_json_span(span: &Json, service: &str) -> (r: Option<SpanEntry>)
    ensures
        match r {
            Some(s) => span_entry_of(span@, service@) == Some(s@),
            None => span_entry_of(span@, service@) is None,
        },
{
    let trace_id = match read_trace_id(span, "traceId") {
        Some(id) => id,
        None => return None,
    };
    let span_id = match read_span_id(span, "spanId") {
        Some(id) => id,
        None => return None,
    };
    let name = match span.text_at("name") {
        Some(s) => text::owned(s),
        None => String::new(),
    };
    if name.as_str().is_empty() {
        return None;
    }
    let kind: i64 = match span.i64_at("kind") {
        Some(kind) => kind,
        None => 0,
    };
    Some(
        SpanEntry {
            seq: 0,
            trace_id,
            span_id,
            parent_span_id: read_span_id(span, "parentSpanId"),
            start_time: nanos_to_datetime(parse_nanos(span, "startTimeUnixNano")),
            end_time: nanos_to_datetime(parse_nanos(span, "endTimeUnixNano")),
            name,
            kind: map_json_span_kind(kind),
            service_name: text::owned(service),
            status: map_json_span_status(span),
            attributes: json_attrs_to_map(span),
            events: map_json_span_events(span),
        },
    )
}

/// The service that a part of a request is about.
pub open spec fn service_of(part: JsonView) -> Seq<char> {
    last_value(resource_attrs(part), "service.name"@, "unknown"@)
}

/// The host that a part of a request is about.
pub open spec fn host_of(part: JsonView) -> Seq<char> {
    last_value(resource_attrs(part), "host.name"@, "unknown"@)
}

/// What a list of log records becomes.
pub open spec fn record_entries(
    records: Seq<JsonView>,
    service: Seq<char>,
    host: Seq<char>,
    now: Timestamp,
) -> Seq<LogEntryView>
    decreases records.len(),
{
    if records.len() == 0 {
        seq![]
    } else {
        let rest = record_entries(records.drop_last(), service, host, now);
        match log_entry_of(records.last(), service, host, now) {
            Some(e) => rest.push(e),
            None => rest,
        }
    }
}

/// What a list of scopes becomes.
pub open spec fn scope_entries(
    scopes: Seq<JsonView>,
    service: Seq<char>,
    host: Seq<char>,
    now: Timestamp,
) -> Seq<LogEntryView>
    decreases scopes.len(),
{
    if scopes.len() == 0 {
        seq![]
    } else {
        scope_entries(scopes.drop_last(), service, host, now) + record_entries(
            scopes.last().items_at("logRecords"@),
            service,
            host,
            now,
        )
    }
}

/// What a list of resources becomes.
pub open spec fn resource_entries(parts: Seq<JsonView>, now: Timestamp) -> Seq<LogEntryView>
    decreases parts.len(),
{
    if parts.len() == 0 {
        seq![]
    } else {
        let part = parts.last();
        resource_entries(parts.drop_last(), now) + scope_entries(
            part.items_at("scopeLogs"@),
            service_of(part),
            host_of(part),
            now,
        )
    }
}

/// The records of a log request, in its order.
pub open spec fn request_entries(body: JsonView, now: Timestamp) -> Seq<LogEntryView> {
    resource_entries(body.items_at("resourceLogs"@), now)
}

fn take_records(
    out: &mut VecDeque<LogEntry>,
    records: &Vec<Json>,
    service: &str,
    host: &str,
    now: Timestamp,
)
    requires
        all_wf(old(out)@),
    ensures
        all_wf(final(out)@),
        entry_list(final(out)@) == entry_list(old(out)@) + record_entries(
            item_views(records@),
            service@,
            host@,
            now,
        ),
{
    let ghost start = entry_list(out@);
    let ghost all = item_views(records@);
    let mut i: usize = 0;
    proof {
        assert(all.take(0) =~= seq![]);
        assert(start + record_entries(all.take(0), service@, host@, now) =~= start);
    }
    while i < records.len()
        invariant
            all == item_views(records@),
            i <= records@.len(),
            all_wf(out@),
            entry_list(out@) == start + record_entries(
                all.take(i as int),
                service@,
                host@,
                now,
            ),
        decreases records@.len() - i,
    {
        let ghost before = out@;
        proof {
            assert(all.take(i + 1).drop_last() =~= all.take(i as int));
            assert(all.take(i + 1).last() == records@[i as int]@);
        }
        match parse_json_log_record(&records[i], service, host, now) {
            Some(e) => {
                let ghost ev = e@;
                out.push_back(e);
                proof {
                    assert(entry_list(out@) =~= entry_list(before).push(ev));
                    assert(start + record_entries(all.take(i as int), service@, host@, now).push(ev)
                        =~= (start + record_entries(
                        all.take(i as int),
                        service@,
                        host@,
                        now,
                    )).push(ev));
                }
            },
            None => {},
        }
        i += 1;
    }
    proof {
        assert(all.take(all.len() as int) =~= all);
    }
}

fn take_scopes(
    out: &mut VecDeque<LogEntry>,
    scopes: &Vec<Json>,
    service: &str,
    host: &str,
    now: Timestamp,
)
    requires
        all_wf(old(out)@),
    ensures
        all_wf(final(out)@),
        entry_list(final(out)@) == entry_list(old(out)@) + scope_entries(
            item_views(scopes@),
            service@,
            host@,
            now,
        ),
{
    let ghost start = entry_list(out@);
    let ghost all = item_views(scopes@);
    let mut i: usize = 0;
    proof {
        assert(all.take(0) =~= seq![]);
        assert(start + scope_entries(all.take(0), service@, host@, now) =~= start);
    }
    while i < scopes.len()
        invariant
            all == item_views(scopes@),
            i <= scopes@.len(),
            all_wf(out@),
            entry_list(out@) == start + scope_entries(all.take(i as int), service@, host@, now),
        decreases scopes@.len() - i,
    {
        let ghost done = scope_entries(all.take(i as int), service@, host@, now);
        let ghost added = record_entries(
            scopes@[i as int]@.items_at("logRecords"@),
            service@,
            host@,
            now,
        );
        proof {
            assert(all.take(i + 1).drop_last() =~= all.take(i as int));
            assert(all.take(i + 1).last() == scopes@[i as int]@);
            assert(start + (done + added) =~= (start + done) + added);
        }
        match scopes[i].items_at("logRecords") {
            Some(records) => take_records(out, records, service, host, now),
            None => {
                proof {
                    assert(done + added =~= done);
                }
            },
        }
        i += 1;
    }
    proof {
        assert(all.take(all.len() as int) =~= all);
    }
}

/// The records of a log request, in its order.
pub fn log_entries(body: &Json, now: Timestamp) -> (r: VecDeque<LogEntry>)
    ensures
        all_wf(r@),
        entry_list(r@) == request_entries(body@, now),
{
    let mut out: VecDeque<LogEntry> = VecDeque::new();
    proof {
        assert(entry_list(out@) =~= seq![]);
    }
    let parts = match body.items_at("resourceLogs") {
        Some(parts) => parts,
        None => return out,
    };
    let ghost all = item_views(parts@);
    let mut i: usize = 0;
    proof {
        assert(all.take(0) =~= seq![]);
    }
    while i < parts.len()
        invariant
            all == item_views(parts@),
            i <= parts@.len(),
            all_wf(out@),
            entry_list(out@) == resource_entries(all.take(i as int), now),
        decreases parts@.len() - i,
    {
        let part = &parts[i];
        let attrs = extract_json_resource_attrs(part);
        let (service, host) = extract_resource_attrs(&attrs);
        proof {
            assert(all.take(i + 1).drop_last() =~= all.take(i as int));
            assert(all.take(i + 1).last() == part@);
        }
        match part.items_at("scopeLogs") {
            Some(scopes) => take_scopes(&mut out, scopes, &service, &host, now),
            None => {
                proof {
                    assert(resource_entries(all.take(i as int), now) + Seq::<LogEntryView>::empty()
                        =~= resource_entries(all.take(i as int), now));
                }
            },
        }
        i += 1;
    }
    proof {
        assert(all.take(all.len() as int) =~= all);
    }
    out
}

/// What a list of spans becomes.
pub open spec fn good_spans(spans: Seq<JsonView>, service: Seq<char>) -> Seq<SpanEntryView>
    decreases spans.len(),
{
    if spans.len() == 0 {
        seq![]
    } else {
        let rest = good_spans(spans.drop_last(), service);
        match span_entry_of(spans.last(), service) {
            Some(s) => rest.push(s),
            None => rest,
        }
    }
}

/// How many of a list of spans are unusable.
pub open spec fn bad_spans(spans: Seq<JsonView>, service: Seq<char>) -> nat
    decreases spans.len(),
{
    if spans.len() == 0 {
        0
    } else {
        bad_spans(spans.drop_last(), service) + if span_entry_of(spans.last(), service) is None {
            1nat
        } else {
            0
        }
    }
}

/// What a list of scopes becomes.
pub open spec fn scope_spans(scopes: Seq<JsonView>, service: Seq<char>) -> Seq<SpanEntryView>
    decreases scopes.len(),
{
    if scopes.len() == 0 {
        seq![]
    } else {
        scope_spans(scopes.drop_last(), service) + good_spans(
            scopes.last().items_at("spans"@),
            service,
        )
    }
}

/// How many spans of a list of scopes are unusable.
pub open spec fn scope_bad_spans(scopes: Seq<JsonView>, service: Seq<char>) -> nat
    decreases scopes.len(),
{
    if scopes.len() == 0 {
        0
    } else {
        scope_bad_spans(scopes.drop_last(), service) + bad_spans(
            scopes.last().items_at("spans"@),
            service,
        )
    }
}

/// What a list of resources becomes.
pub open spec fn resource_spans(parts: Seq<JsonView>) -> Seq<SpanEntryView>
    decreases parts.len(),
{
    if parts.len() == 0 {
        seq![]
    } else {
        resource_spans(parts.drop_last()) + scope_spans(
            parts.last().items_at("scopeSpans"@),
            service_of(parts.last()),
        )
    }
}

/// How many spans of a list of resources are unusable.
pub open spec fn resource_bad_spans(parts: Seq<JsonView>) -> nat
    decreases parts.len(),
{
    if parts.len() == 0 {
        0
    } else {
        resource_bad_spans(parts.drop_last()) + scope_bad_spans(
            parts.last().items_at("scopeSpans"@),
            service_of(parts.last()),
        )
    }
}

/// The spans of a trace request, in its order.
pub open spec fn request_spans(body: JsonView) -> Seq<SpanEntryView> {
    resource_spans(body.items_at("resourceSpans"@))
}

/// How many spans of a trace request are unusable.
pub open spec fn request_bad_spans(body: JsonView) -> nat {
    resource_bad_spans(body.items_at("resourceSpans"@))
}

/// A trace request as it was read: its spans in their order, and how many spans
/// were unusable. The count stays where it is once it is full.
pub struct ReadSpans {
    pub spans: VecDeque<SpanEntry>,
    pub malformed: u64,
}

/// The lesser of a count and what 64 bits hold.
pub open spec fn capped_count(n: nat) -> nat {
    if n <= u64::MAX {
        n
    } else {
        u64::MAX as nat
    }
}

fn take_spans(
    out: &mut ReadSpans,
    Ghost(bad): Ghost<nat>,
    spans: &Vec<Json>,
    service: &str,
)
    requires
        old(out).malformed == capped_count(bad),
    ensures
        span_views(final(out).spans@) == span_views(old(out).spans@) + good_spans(
            item_views(spans@),
            service@,
        ),
        final(out).malformed == capped_count(bad + bad_spans(item_views(spans@), service@)),
{
    let ghost start = span_views(out.spans@);
    let ghost all = item_views(spans@);
    let mut i: usize = 0;
    proof {
        assert(all.take(0) =~= seq![]);
        assert(start + good_spans(all.take(0), service@) =~= start);
    }
    while i < spans.len()
        invariant
            all == item_views(spans@),
            i <= spans@.len(),
            span_views(out.spans@) == start + good_spans(all.take(i as int), service@),
            out.malformed == capped_count(bad + bad_spans(all.take(i as int), service@)),
        decreases spans@.len() - i,
    {
        let ghost before = out.spans@;
        let ghost done = good_spans(all.take(i as int), service@);
        proof {
            assert(all.take(i + 1).drop_last() =~= all.take(i as int));
            assert(all.take(i + 1).last() == spans@[i as int]@);
        }
        match parse_json_span(&spans[i], service) {
            Some(s) => {
                let ghost sv = s@;
                out.spans.push_back(s);
                proof {
                    assert(span_views(out.spans@) =~= span_views(before).push(sv));
                    assert(start + done.push(sv) =~= (start + done).push(sv));
                }
            },
            None => {
                out.malformed = out.malformed.saturating_add(1);
            },
        }
        i += 1;
    }
    proof {
        assert(all.take(all.len() as int) =~= all);
    }
}

fn take_scope_spans(
    out: &mut ReadSpans,
    Ghost(bad): Ghost<nat>,
    scopes: &Vec<Json>,
    service: &str,
)
    requires
        old(out).malformed == capped_count(bad),
    ensures
        span_views(final(out).spans@) == span_views(old(out).spans@) + scope_spans(
            item_views(scopes@),
            service@,
        ),
        final(out).malformed == capped_count(bad + scope_bad_spans(item_views(scopes@), service@)),
{
    let ghost start = span_views(out.spans@);
    let ghost all = item_views(scopes@);
    let mut i: usize = 0;
    proof {
        assert(all.take(0) =~= seq![]);
        assert(start + scope_spans(all.take(0), service@) =~= start);
    }
    while i < scopes.len()
        invariant
            all == item_views(scopes@),
            i <= scopes@.len(),
            span_views(out.spans@) == start + scope_spans(all.take(i as int), service@),
            out.malformed == capped_count(bad + scope_bad_spans(all.take(i as int), service@)),
        decreases scopes@.len() - i,
    {
        let ghost done = scope_spans(all.take(i as int), service@);
        let ghost added = good_spans(scopes@[i as int]@.items_at("spans"@), service@);
        let ghost so_far = bad + scope_bad_spans(all.take(i as int), service@);
        proof {
            assert(all.take(i + 1).drop_last() =~= all.take(i as int));
            assert(all.take(i + 1).last() == scopes@[i as int]@);
            assert(start + (done + added) =~= (start + done) + added);
        }
        match scopes[i].items_at("spans") {
            Some(spans) => take_spans(out, Ghost(so_far), spans, service),
            None => {
                proof {
                    assert(done + added =~= done);
                }
            },
        }
        i += 1;
    }
    proof {
        assert(all.take(all.len() as int) =~= all);
    }
}

/// The spans of a trace request, in its order, and how many were unusable.
pub fn span_entries(body: &Json) -> (r: ReadSpans)
    ensures
        span_views(r.spans@) == request_spans(body@),
        r.malformed == capped_count(request_bad_spans(body@)),
{
    let mut out = ReadSpans { spans: VecDeque::new(), malformed: 0 };
    proof {
        assert(span_views(out.spans@) =~= seq![]);
    }
    let parts = match body.items_at("resourceSpans") {
        Some(parts) => parts,
        None => return out,
    };
    let ghost all = item_views(parts@);
    let mut i: usize = 0;
    proof {
        assert(all.take(0) =~= seq![]);
    }
    while i < parts.len()
        invariant
            all == item_views(parts@),
            i <= parts@.len(),
            span_views(out.spans@) == resource_spans(all.take(i as int)),
            out.malformed == capped_count(resource_bad_spans(all.take(i as int))),
        decreases parts@.len() - i,
    {
        let part = &parts[i];
        let attrs = extract_json_resource_attrs(part);
        let (service, _host) = extract_resource_attrs(&attrs);
        let ghost so_far = resource_bad_spans(all.take(i as int));
        proof {
            assert(all.take(i + 1).drop_last() =~= all.take(i as int));
            assert(all.take(i + 1).last() == part@);
        }
        match part.items_at("scopeSpans") {
            Some(scopes) => take_scope_spans(&mut out, Ghost(so_far), scopes, &service),
            None => {
                proof {
                    assert(resource_spans(all.take(i as int)) + Seq::<SpanEntryView>::empty()
                        =~= resource_spans(all.take(i as int)));
                }
            },
        }
        i += 1;
    }
    proof {
        assert(all.take(all.len() as int) =~= all);
    }
    out
}

/// The counters after entries were offered to a channel, one outcome each.
pub open spec fn offered_all(
    m: MetricsView,
    source: ReceiverSource,
    outcomes: Seq<SendOutcome>,
    now: i64,
) -> MetricsView
    decreases outcomes.len(),
{
    if outcomes.len() == 0 {
        m
    } else {
        offered_all(m, source, outcomes.drop_last(), now).offered(source, outcomes.last(), now)
    }
}

/// Whether one of the offers asked for a warning.
pub open spec fn warned(
    m: MetricsView,
    source: ReceiverSource,
    outcomes: Seq<SendOutcome>,
    now: i64,
) -> bool
    decreases outcomes.len(),
{
    if outcomes.len() == 0 {
        false
    } else {
        ||| warned(m, source, outcomes.drop_last(), now)
        ||| outcomes.last() == SendOutcome::Full && warning_due(
            offered_all(m, source, outcomes.drop_last(), now).last_warn,
            now,
        )
    }
}

/// The counters after that many spans were discarded at parse.
pub open spec fn malformed_times(m: MetricsView, n: nat) -> MetricsView
    decreases n,
{
    if n == 0 {
        m
    } else {
        malformed_times(m, (n - 1) as nat).malformed(TraceTransport::OtlpHttp)
    }
}

/// What a request is answered.
#[derive(Debug, Clone, Copy, PartialEq, Eq, Structural)]
pub enum RequestStatus {
    Accepted,
    TooManyRequests,
}

impl RequestStatus {
    /// The HTTP status code.
    pub fn code(self) -> (r: u16)
        ensures
            r == (if self == RequestStatus::Accepted {
                200u16
            } else {
                429u16
            }),
    {
        match self {
            RequestStatus::Accepted => 200,
            RequestStatus::TooManyRequests => 429,
        }
    }
}

/// What became of a request.
#[derive(Debug, Clone, Copy, PartialEq, Eq, Structural)]
pub struct Handled {
    pub status: RequestStatus,
    /// Whether a warning about backpressure is due.
    pub warn: bool,
}

/// What becomes of a request when that share of the channel is taken, in per cent.
pub open spec fn status_at(used: u64) -> RequestStatus {
    if used >= BACKPRESSURE_THRESHOLD_PCT {
        RequestStatus::TooManyRequests
    } else {
        RequestStatus::Accepted
    }
}

/// Whether a request is refused rather than read: the refusal is itself the
/// backpressure signal.
pub fn admit_request(used: u64) -> (r: RequestStatus)
    ensures
        r == status_at(used),
{
    if used >= BACKPRESSURE_THRESHOLD_PCT {
        RequestStatus::TooManyRequests
    } else {
        RequestStatus::Accepted
    }
}

/// How much of a channel is taken, in whole per cent.
pub fn channel_used_pct<T>(sender: &tokio::sync::mpsc::Sender<T>) -> (r: u64)
    ensures
        r <= 100,
{
    used_pct(max_slots(sender) as u64, free_slots(sender) as u64)
}

/// Calls `tokio::sync::mpsc::Sender::max_capacity`: how many entries the channel
/// was made for. A channel is made for one entry at least; nothing more is
/// claimed of the number.
#[verifier::external_body]
fn max_slots<T>(sender: &tokio::sync::mpsc::Sender<T>) -> (r: usize)
    ensures
        r > 0,
{
    sender.max_capacity()
}

/// Calls `tokio::sync::mpsc::Sender::capacity`: how many entries the channel
/// would take now. That rests on the other half of the channel, so nothing is
/// claimed of the number.
#[verifier::external_body]
fn free_slots<T>(sender: &tokio::sync::mpsc::Sender<T>) -> (r: usize)
{
    sender.capacity()
}

/// What a send has become, told from the counters.
proof fn outcome_of(
    before: MetricsView,
    now_view: MetricsView,
    source: ReceiverSource,
    now: i64,
    r: Forwarded,
) -> (outcome: SendOutcome)
    requires
        accounted(before, now_view, source, now, r),
    ensures
        now_view == before.offered(source, outcome, now),
        r.warn == (outcome == SendOutcome::Full && warning_due(before.last_warn, now)),
{
    if r.sent {
        SendOutcome::Sent
    } else if now_view == before.offered(source, SendOutcome::Full, now) && r.warn == warning_due(
        before.last_warn,
        now,
    ) {
        SendOutcome::Full
    } else {
        SendOutcome::Closed
    }
}

/// What holds of a log request whatever the channel does: it is refused and
/// nothing is counted, or each of its records is offered to the channel once.
pub open spec fn logs_handled(
    before: MetricsView,
    after: MetricsView,
    body: JsonView,
    now: Timestamp,
    nanos: i64,
    r: Handled,
) -> bool {
    match r.status {
        RequestStatus::TooManyRequests => after == before && !r.warn,
        RequestStatus::Accepted => exists|outcomes: Seq<SendOutcome>|
            {
                &&& outcomes.len() == request_entries(body, now).len()
                &&& after == #[trigger] offered_all(
                    before,
                    ReceiverSource::OtlpHttpLogs,
                    outcomes,
                    nanos,
                )
                &&& r.warn == warned(before, ReceiverSource::OtlpHttpLogs, outcomes, nanos)
            },
    }
}

/// Take a log request: `now` is the time of its arrival, and `nanos` the same in
/// nanoseconds since the Unix epoch. How full the channel is decides whether it is
/// refused.
pub fn handle_logs_inner(
    metrics: &mut ReceiverMetrics,
    sender: &tokio::sync::mpsc::Sender<LogEntry>,
    body: &Json,
    now: Timestamp,
    nanos: i64,
) -> (r: Handled)
    ensures
        logs_handled(old(metrics)@, final(metrics)@, body@, now, nanos, r),
{
    let used: u64 = channel_used_pct(sender);
    handle_logs_at(metrics, sender, body, now, nanos, used)
}

/// Take a log request when `used` per cent of the channel are taken: from
/// [`BACKPRESSURE_THRESHOLD_PCT`] on it is refused and nothing is counted, and
/// below it each of its records is offered to the channel once.
pub fn handle_logs_at(
    metrics: &mut ReceiverMetrics,
    sender: &tokio::sync::mpsc::Sender<LogEntry>,
    body: &Json,
    now: Timestamp,
    nanos: i64,
    used: u64,
) -> (r: Handled)
    ensures
        r.status == status_at(used),
        logs_handled(old(metrics)@, final(metrics)@, body@, now, nanos, r),
{
    let ghost before = metrics@;
    let ghost source = ReceiverSource::OtlpHttpLogs;
    let status = admit_request(used);
    if status == RequestStatus::TooManyRequests {
        return Handled { status, warn: false };
    }
    let mut entries = log_entries(body, now);
    let ghost total = entries@.len();
    proof {
        assert(entry_list(entries@).len() == total);
    }
    let mut warn = false;
    let ghost mut outcomes: Seq<SendOutcome> = seq![];
    while entries.len() > 0
        invariant
            source == ReceiverSource::OtlpHttpLogs,
            outcomes.len() + entries@.len() == total,
            metrics@ == offered_all(before, source, outcomes, nanos),
            warn == warned(before, source, outcomes, nanos),
        decreases entries@.len(),
    {
        match entries.pop_front() {
            Some(entry) => {
                let ghost held = metrics@;
                let sent = metrics.try_send_log(sender, entry, ReceiverSource::OtlpHttpLogs, nanos);
                proof {
                    let outcome = outcome_of(held, metrics@, source, nanos, sent);
                    let more = outcomes.push(outcome);
                    assert(more.drop_last() =~= outcomes);
                    outcomes = more;
                }
                warn = warn || sent.warn;
            },
            None => {},
        }
    }
    Handled { status, warn }
}

/// What holds of a trace request whatever the channel does: it is refused and
/// counted as a shed batch, or each of its usable spans is offered to the
/// channel once and each unusable one is counted as such.
pub open spec fn traces_handled(
    before: MetricsView,
    after: MetricsView,
    body: JsonView,
    nanos: i64,
    r: Handled,
) -> bool {
    match r.status {
        RequestStatus::TooManyRequests => {
            &&& after == before.shed(TraceTransport::OtlpHttp)
            &&& !r.warn
        },
        RequestStatus::Accepted => {
            let counted = malformed_times(before, capped_count(request_bad_spans(body)));
            exists|outcomes: Seq<SendOutcome>|
                {
                    &&& outcomes.len() == request_spans(body).len()
                    &&& after == #[trigger] offered_all(
                        counted,
                        ReceiverSource::OtlpHttpTraces,
                        outcomes,
                        nanos,
                    )
                    &&& r.warn == warned(counted, ReceiverSource::OtlpHttpTraces, outcomes, nanos)
                }
        },
    }
}

/// Take a trace request that arrived `nanos` nanoseconds after the Unix epoch. How
/// full the channel is decides whether it is refused.
pub fn handle_traces_inner(
    metrics: &mut ReceiverMetrics,
    sender: &tokio::sync::mpsc::Sender<SpanEntry>,
    body: &Json,
    nanos: i64,
) -> (r: Handled)
    ensures
        traces_handled(old(metrics)@, final(metrics)@, body@, nanos, r),
{
    let used: u64 = channel_used_pct(sender);
    handle_traces_at(metrics, sender, body, nanos, used)
}

/// Take a trace request when `used` per cent of the channel are taken: from
/// [`BACKPRESSURE_THRESHOLD_PCT`] on it is refused and counted as a shed batch,
/// and below it each of its usable spans is offered to the channel once.
pub fn handle_traces_at(
    metrics: &mut ReceiverMetrics,
    sender: &tokio::sync::mpsc::Sender<SpanEntry>,
    body: &Json,
    nanos: i64,
    used: u64,
) -> (r: Handled)
    ensures
        r.status == status_at(used),
        traces_handled(old(metrics)@, final(metrics)@, body@, nanos, r),
{
    let ghost before = metrics@;
    let ghost source = ReceiverSource::OtlpHttpTraces;
    let status = admit_request(used);
    if status == RequestStatus::TooManyRequests {
        metrics.record_trace_batch_shed(TraceTransport::OtlpHttp);
        return Handled { status, warn: false };
    }
    let read = span_entries(body);
    let mut spans = read.spans;
    let ghost total = spans@.len();
    proof {
        assert(span_views(spans@).len() == total);
    }
    let mut k: u64 = 0;
    while k < read.malformed
        invariant
            k <= read.malformed,
            metrics@ == malformed_times(before, k as nat),
        decreases read.malformed - k,
    {
        metrics.record_trace_malformed(TraceTransport::OtlpHttp);
        k += 1;
    }
    let ghost counted = metrics@;
    let mut warn = false;
    let ghost mut outcomes: Seq<SendOutcome> = seq![];
    while spans.len() > 0
        invariant
            source == ReceiverSource::OtlpHttpTraces,
            outcomes.len() + spans@.len() == total,
            metrics@ == offered_all(counted, source, outcomes, nanos),
            warn == warned(counted, source, outcomes, nanos),
        decreases spans@.len(),
    {
        match spans.pop_front() {
            Some(span) => {
                let ghost held = metrics@;
                let sent = metrics.try_send_span(
                    sender,
                    span,
                    ReceiverSource::OtlpHttpTraces,
                    nanos,
                );
                proof {
                    let outcome = outcome_of(held, metrics@, source, nanos, sent);
                    let more = outcomes.push(outcome);
                    assert(more.drop_last() =~= outcomes);
                    outcomes = more;
                }
                warn = warn || sent.warn;
            },
            None => {},
        }
    }
    Handled { status, warn }
}

/// A refused trace request is never counted as a drop, and a log request never
/// touches the accounting of spans.
pub proof fn refusals_are_no_drops(
    before: MetricsView,
    after: MetricsView,
    body: JsonView,
    now: Timestamp,
    nanos: i64,
    r: Handled,
)
    ensures
        r.status == RequestStatus::TooManyRequests && traces_handled(before, after, body, nanos, r)
            ==> after.drops == before.drops && after.last == before.last,
        logs_handled(before, after, body, now, nanos, r) ==> {
            &&& after.spans_dropped() == before.spans_dropped()
            &&& after.bodies_shed() == before.bodies_shed()
            &&& after.spans_malformed() == before.spans_malformed()
        },
{
    if logs_handled(before, after, body, now, nanos, r) && r.status == RequestStatus::Accepted {
        let outcomes = choose|outcomes: Seq<SendOutcome>|
            {
                &&& outcomes.len() == request_entries(body, now).len()
                &&& after == #[trigger] offered_all(
                    before,
                    ReceiverSource::OtlpHttpLogs,
                    outcomes,
                    nanos,
                )
                &&& r.warn == warned(before, ReceiverSource::OtlpHttpLogs, outcomes, nanos)
            };
        lemma_offers_keep_spans(before, outcomes, nanos);
    }
}

proof fn lemma_offers_keep_spans(m: MetricsView, outcomes: Seq<SendOutcome>, nanos: i64)
    ensures
        ({
            let after = offered_all(m, ReceiverSource::OtlpHttpLogs, outcomes, nanos);
            &&& after.spans_dropped() == m.spans_dropped()
            &&& after.bodies_shed() == m.bodies_shed()
            &&& after.spans_malformed() == m.spans_malformed()
        }),
    decreases outcomes.len(),
{
    if outcomes.len() > 0 {
        lemma_offers_keep_spans(m, outcomes.drop_last(), nanos);
    }
}

/// Every span of a request is either usable or counted as unusable.
pub proof fn no_span_goes_unaccounted(spans: Seq<JsonView>, service: Seq<char>)
    ensures
        good_spans(spans, service).len() + bad_spans(spans, service) == spans.len(),
    decreases spans.len(),
{
    if spans.len() > 0 {
        no_span_goes_unaccounted(spans.drop_last(), service);
    }
}

/// A span begins at the instant that `startTimeUnixNano` spells and ends at the one
/// that `endTimeUnixNano` spells, and so took as long as lies between them.
pub proof fn spans_begin_and_end_when_they_say(span: JsonView, service: Seq<char>)
    requires
        span_entry_of(span, service) is Some,
    ensures
        ({
            let s = span_entry_of(span, service)->0;
            let start = span.get("startTimeUnixNano"@);
            let end = span.get("endTimeUnixNano"@);
            &&& start matches Some(JsonView::Text(t)) ==> (u64_of(t) matches Some(n)
                ==> s.start_time.instant() == n)
            &&& start matches Some(JsonView::Number(t)) ==> (t.unsigned matches Some(n)
                ==> s.start_time.instant() == n)
            &&& start is None ==> s.start_time.instant() == 0
            &&& end matches Some(JsonView::Text(t)) ==> (u64_of(t) matches Some(n)
                ==> s.end_time.instant() == n)
            &&& end matches Some(JsonView::Number(t)) ==> (t.unsigned matches Some(n)
                ==> s.end_time.instant() == n)
            &&& end is None ==> s.end_time.instant() == 0
            &&& s.end_time.instant() - s.start_time.instant() == nanos_at(
                span,
                "endTimeUnixNano"@,
            ) - nanos_at(span, "startTimeUnixNano"@)
        }),
{
    epoch_instants_count_nanoseconds(nanos_at(span, "startTimeUnixNano"@));
    epoch_instants_count_nanoseconds(nanos_at(span, "endTimeUnixNano"@));
}

/// The share of a channel that is taken is told in whole per cent, rounded down: none
/// of an empty channel, all of a full one.
pub proof fn shares_are_rounded_down(max: u64, free: u64)
    requires
        max > 0,
        free <= max,
    ensures
        used_share(max, free) * max <= (max - free) * 100,
        (max - free) * 100 < (used_share(max, free) + 1) * max,
        free == max ==> used_share(max, free) == 0,
        free == 0 ==> used_share(max, free) == 100,
{
    let taken = (max - free) * 100;
    let m = max as int;
    assert(taken / m * m <= taken < (taken / m + 1) * m && 0 <= taken / m <= 100) by (nonlinear_arith)
        requires
            m > 0,
            0 <= taken <= 100 * m,
    ;
    if free == 0 {
        assert(taken / m == 100) by (nonlinear_arith)
            requires
                m > 0,
                taken == m * 100,
        ;
    }
}

/// A request is refused exactly where four fifths of the channel or more are taken.
pub proof fn requests_are_refused_from_four_fifths_on(used: u64)
    ensures
        status_at(used) == RequestStatus::TooManyRequests <==> used >= 80,
        status_at(used) == RequestStatus::Accepted <==> used < 80,
{
}

/// A span has a kind by its number, the unspecified one where that is no kind.
pub proof fn kinds_go_by_their_numbers(span: JsonView, service: Seq<char>)
    requires
        span_entry_of(span, service) is Some,
    ensures
        ({
            let kind = span_entry_of(span, service)->0.kind;
            let number = span.i64_at("kind"@);
            &&& kind == SpanKind::Internal <==> number == Some(1i64)
            &&& kind == SpanKind::Server <==> number == Some(2i64)
            &&& kind == SpanKind::Client <==> number == Some(3i64)
            &&& kind == SpanKind::Producer <==> number == Some(4i64)
            &&& kind == SpanKind::Consumer <==> number == Some(5i64)
        }),
{
}

/// A span failed exactly where its status has code 2, and then with the message of the
/// status; it went well exactly where the code is 1.
pub proof fn statuses_go_by_their_codes(span: JsonView, service: Seq<char>)
    requires
        span_entry_of(span, service) is Some,
    ensures
        ({
            let status = span_entry_of(span, service)->0.status;
            let code = span.get2("status"@, "code"@);
            let number = match code {
                Some(c) => c.as_i64(),
                None => None,
            };
            &&& status is Error <==> number == Some(2i64)
            &&& status is Okay <==> number == Some(1i64)
            &&& status matches SpanStatusView::Error(message) ==> (match span.get2(
                "status"@,
                "message"@,
            ) {
                Some(JsonView::Text(t)) => message == t,
                _ => message.len() == 0,
            })
        }),
{
}

/// A span is taken exactly where it has a trace id, an id of its own and a name. It
/// keeps each of them, its parent's id and its events under their own names, and has
/// no seq yet.
pub proof fn spans_keep_what_identifies_them(span: JsonView, service: Seq<char>)
    ensures
        span_entry_of(span, service) is Some <==> {
            &&& trace_id_at(span, "traceId"@) is Some
            &&& span_id_at(span, "spanId"@) is Some
            &&& span.text_at("name"@) matches Some(name)
            &&& name.len() > 0
        },
        span_entry_of(span, service) matches Some(s) ==> {
            &&& s.seq == 0
            &&& trace_id_at(span, "traceId"@) == Some(s.trace_id)
            &&& span_id_at(span, "spanId"@) == Some(s.span_id)
            &&& s.parent_span_id == span_id_at(span, "parentSpanId"@)
            &&& span.get("name"@) == Some(JsonView::Text(s.name))
            &&& s.service_name == service
            &&& s.events.len() == span.items_at("events"@).len()
        },
{
}

/// An event of a span keeps its place, its name and the instant that it says.
pub proof fn events_keep_their_place(span: JsonView, service: Seq<char>, i: int)
    requires
        span_entry_of(span, service) is Some,
        0 <= i < span.items_at("events"@).len(),
    ensures
        ({
            let e = span.items_at("events"@)[i];
            let kept = span_entry_of(span, service)->0.events[i];
            &&& e.get("name"@) matches Some(JsonView::Text(t)) ==> kept.name == t
            &&& e.get("timeUnixNano"@) matches Some(JsonView::Text(t)) ==> (u64_of(t) matches Some(n)
                ==> kept.timestamp.instant() == n)
            &&& e.get("timeUnixNano"@) matches Some(JsonView::Number(t)) ==> (t.unsigned matches Some(
                n,
            ) ==> kept.timestamp.instant() == n)
            &&& kept.attributes == attr_map(e.items_at("attributes"@))
        }),
{
    epoch_instants_count_nanoseconds(nanos_at(span.items_at("events"@)[i], "timeUnixNano"@));
}

/// An id is the number that its hexadecimal text spells, and never zero.
pub proof fn ids_are_read_in_hexadecimal(v: JsonView, key: Seq<char>)
    ensures
        trace_id_at(v, key) matches Some(id) ==> {
            &&& id != 0
            &&& v.get(key) matches Some(JsonView::Text(t))
            &&& hex_of(t) == Some(id as nat)
        },
        span_id_at(v, key) matches Some(id) ==> {
            &&& id != 0
            &&& v.get(key) matches Some(JsonView::Text(t))
            &&& hex_of(t) == Some(id as nat)
        },
        v.get(key) matches Some(JsonView::Text(t)) ==> (hex_of(t) matches Some(n) ==> {
            &&& 0 < n <= u128::MAX ==> trace_id_at(v, key) == Some(n as u128)
            &&& 0 < n <= u64::MAX ==> span_id_at(v, key) == Some(n as u64)
        }),
{
}

/// A log record is taken exactly where it has a message, which is its body or the
/// text that its body wraps. It has the time that it says, and that of its arrival
/// where it says none.
pub proof fn log_records_keep_their_message_and_time(
    record: JsonView,
    service: Seq<char>,
    host: Seq<char>,
    now: Timestamp,
)
    ensures
        ({
            let r = log_entry_of(record, service, host, now);
            let wrapped = record.get2("body"@, "stringValue"@);
            &&& wrapped matches Some(JsonView::Text(t)) ==> match r {
                Some(e) => e.message == t && t.len() > 0,
                None => t.len() == 0,
            }
            &&& record.get("body"@) matches Some(JsonView::Text(t)) ==> match r {
                Some(e) => e.message == t && t.len() > 0,
                None => t.len() == 0,
            }
            &&& record.get("body"@) is None ==> r is None
            &&& r matches Some(e) ==> {
                let time = record.get("timeUnixNano"@);
                &&& time matches Some(JsonView::Text(t)) ==> (u64_of(t) matches Some(n) ==> (n > 0
                    ==> e.timestamp.instant() == n))
                &&& time matches Some(JsonView::Number(t)) ==> (t.unsigned matches Some(n) ==> (n > 0
                    ==> e.timestamp.instant() == n))
                &&& time is None ==> e.timestamp == now
                &&& nanos_at(record, "timeUnixNano"@) == 0 ==> e.timestamp == now
                &&& e.full_message matches Some(full) ==> full == e.message
                &&& e.full_message is Some <==> byte_len(e.message) > 200
                &&& e.seq == 0 && e.source == LogSource::Filter && e.matched_filters.len() == 0
                &&& e.file is None && e.line is None
            }
        }),
{
    epoch_instants_count_nanoseconds(nanos_at(record, "timeUnixNano"@));
}

/// A log record has the level of its severity, the ids by which it is linked, the
/// host and the service of its resource, and its own attributes.
pub proof fn log_records_keep_their_context(
    record: JsonView,
    service: Seq<char>,
    host: Seq<char>,
    now: Timestamp,
)
    requires
        log_entry_of(record, service, host, now) is Some,
    ensures
        ({
            let e = log_entry_of(record, service, host, now)->0;
            &&& e.host == host
            &&& e.facility == Some(service)
            &&& e.trace_id == trace_id_at(record, "traceId"@)
            &&& e.span_id == span_id_at(record, "spanId"@)
            &&& e.additional_fields == attr_map(record.items_at("attributes"@))
            &&& record.i64_at("severityNumber"@) is None ==> e.level == Level::Info
            &&& record.i64_at("severityNumber"@) matches Some(n) ==> (1 <= n <= 24 ==> {
                &&& e.level == Level::Trace <==> n <= 4
                &&& e.level == Level::Debug <==> 5 <= n <= 8
                &&& e.level == Level::Info <==> 9 <= n <= 12
                &&& e.level == Level::Warn <==> 13 <= n <= 16
                &&& e.level == Level::Error <==> n >= 17
            })
        }),
{
}

/// Of the attributes of one key the last stands, and each that has a key and a value
/// is kept.
pub proof fn attributes_are_kept_by_key(items: Seq<JsonView>, i: int)
    requires
        0 <= i < items.len(),
        items[i].text_at("key"@) is Some,
        items[i].get("value"@) is Some,
        forall|j: int|
            i < j < items.len() ==> (#[trigger] items[j]).text_at("key"@) != items[i].text_at("key"@),
    ensures
        attr_map(items).contains_key(items[i].text_at("key"@)->0),
        attr_map(items)[items[i].text_at("key"@)->0] == attr_value(items[i].get("value"@)->0),
    decreases items.len(),
{
    let front = items.drop_last();
    if i < front.len() {
        assert(front[i] == items[i]);
        assert(items[items.len() - 1].text_at("key"@) != items[i].text_at("key"@));
        assert forall|j: int| i < j < front.len() implies (#[trigger] front[j]).text_at("key"@)
            != front[i].text_at("key"@) by {
            assert(front[j] == items[j]);
        }
        attributes_are_kept_by_key(front, i);
    }
}

/// No attribute is kept that was not given.
pub proof fn kept_attributes_were_given(items: Seq<JsonView>, key: Seq<char>)
    requires
        attr_map(items).contains_key(key),
    ensures
        exists|i: int|
            0 <= i < items.len() && (#[trigger] items[i]).text_at("key"@) == Some(key)
                && items[i].get("value"@) is Some,
    decreases items.len(),
{
    if items.len() > 0 {
        let front = items.drop_last();
        let last = items[items.len() - 1];
        if !(last.text_at("key"@) == Some(key) && last.get("value"@) is Some) {
            kept_attributes_were_given(front, key);
            let i = choose|i: int|
                0 <= i < front.len() && (#[trigger] front[i]).text_at("key"@) == Some(key)
                    && front[i].get("value"@) is Some;
            assert(items[i] == front[i]);
        }
    }
}

/// An attribute value is told by the form in which it comes: a text, an integer, which
/// may be spelled as a text, a float, a truth value, or a list of the values in it.
pub proof fn attribute_values_keep_their_form(v: JsonView)
    ensures
        v.get("stringValue"@) matches Some(JsonView::Text(t)) ==> attr_value(v) == JsonView::Text(t),
        v.get("stringValue"@) is None ==> {
            &&& v.get("intValue"@) matches Some(JsonView::Text(t)) ==> (i64_of(t) matches Some(n)
                ==> attr_value(v) == JsonView::Number(integer_number(n)))
            &&& v.get("intValue"@) matches Some(JsonView::Number(d)) ==> (d.signed matches Some(n)
                ==> attr_value(v) == JsonView::Number(integer_number(n)))
            &&& v.get("intValue"@) is None ==> {
                &&& v.get("doubleValue"@) matches Some(JsonView::Number(d)) ==> (attr_value(
                    v,
                ) matches JsonView::Number(f) && f.text == d.float_json && !f.is_integer())
                &&& v.get("doubleValue"@) is None ==> {
                    &&& v.get("boolValue"@) matches Some(JsonView::Bool(b)) ==> attr_value(v)
                        == JsonView::Bool(b)
                    &&& v.get("boolValue"@) is None ==> {
                        &&& v.get2("arrayValue"@, "values"@) matches Some(JsonView::Array(items)) ==> (
                        attr_value(v) matches JsonView::Array(out) && out.len() == items.len() && forall|
                            i: int,
                        | 0 <= i < items.len() ==> #[trigger] out[i] == attr_value(items[i]))
                    }
                }
            }
        },
{
    if let Some(JsonView::Array(items)) = v.get2("arrayValue"@, "values"@) {
        lemma_attr_items(items);
    }
}

proof fn lemma_attr_items(items: Seq<JsonView>)
    ensures
        attr_items(items).len() == items.len(),
        forall|i: int| 0 <= i < items.len() ==> #[trigger] attr_items(items)[i] == attr_value(items[i]),
    decreases items.len(),
{
    if items.len() > 0 {
        lemma_attr_items(items.drop_last());
    }
}

/// The service and the host of a resource are the last texts of its attributes of
/// those names, and unknown where it has none.
pub proof fn resources_name_service_and_host(part: JsonView, i: int)
    requires
        0 <= i < resource_attrs(part).len(),
        forall|j: int|
            i < j < resource_attrs(part).len() ==> (#[trigger] resource_attrs(part)[j]).0
                != resource_attrs(part)[i].0,
    ensures
        resource_attrs(part)[i].0 == "service.name"@ ==> service_of(part) == resource_attrs(
            part,
        )[i].1,
        resource_attrs(part)[i].0 == "host.name"@ ==> host_of(part) == resource_attrs(part)[i].1,
{
    let attrs = resource_attrs(part);
    if attrs[i].0 == "service.name"@ {
        the_last_value_stands(attrs, "service.name"@, "unknown"@, i);
    }
    if attrs[i].0 == "host.name"@ {
        the_last_value_stands(attrs, "host.name"@, "unknown"@, i);
    }
}

/// A resource that does not name its service or its host has an unknown one.
pub proof fn unnamed_resources_are_unknown(part: JsonView)
    ensures
        (forall|j: int|
            0 <= j < resource_attrs(part).len() ==> (#[trigger] resource_attrs(part)[j]).0
                != "service.name"@) ==> service_of(part) == "unknown"@,
        (forall|j: int|
            0 <= j < resource_attrs(part).len() ==> (#[trigger] resource_attrs(part)[j]).0
                != "host.name"@) ==> host_of(part) == "unknown"@,
{
    let attrs = resource_attrs(part);
    if forall|j: int| 0 <= j < attrs.len() ==> (#[trigger] attrs[j]).0 != "service.name"@ {
        the_last_value_stands(attrs, "service.name"@, "unknown"@, -1);
    }
    if forall|j: int| 0 <= j < attrs.len() ==> (#[trigger] attrs[j]).0 != "host.name"@ {
        the_last_value_stands(attrs, "host.name"@, "unknown"@, -1);
    }
}

/// The attributes of a resource keep their order and their keys, and only texts,
/// numbers and truth values among them count.
pub proof fn resource_attributes_keep_their_order(a: Seq<JsonView>, b: Seq<JsonView>)
    ensures
        attr_pairs(a + b) == attr_pairs(a) + attr_pairs(b),
        b.len() == 1 ==> {
            &&& attr_pairs(b).len() <= 1
            &&& attr_pairs(b).len() == 1 ==> b[0].text_at("key"@) == Some(attr_pairs(b)[0].0)
            &&& b[0].get2("value"@, "stringValue"@) matches Some(JsonView::Text(t)) ==> (b[0].text_at(
                "key"@,
            ) matches Some(key) ==> attr_pairs(b) == seq![(key, t)])
        },
    decreases b.len(),
{
    if b.len() == 0 {
        assert(a + b =~= a);
        assert(attr_pairs(a) + attr_pairs(b) =~= attr_pairs(a));
    } else {
        assert((a + b).drop_last() =~= a + b.drop_last());
        resource_attributes_keep_their_order(a, b.drop_last());
        if let Some(p) = attr_pair(b.last()) {
            assert(attr_pairs(a) + attr_pairs(b.drop_last()).push(p) =~= (attr_pairs(a)
                + attr_pairs(b.drop_last())).push(p));
        }
        if b.len() == 1 {
            assert(b.drop_last() =~= seq![]);
            assert(attr_pairs(b) =~= match attr_pair(b[0]) {
                Some(p) => seq![p],
                None => seq![],
            });
        }
    }
}

/// The records of a request come in its order: those of two resources are those of
/// the one and then those of the other, and so for their scopes and their records.
#[verifier::rlimit(40)]
pub proof fn log_requests_keep_their_order(
    a: Seq<JsonView>,
    b: Seq<JsonView>,
    service: Seq<char>,
    host: Seq<char>,
    now: Timestamp,
)
    ensures
        resource_entries(a + b, now) == resource_entries(a, now) + resource_entries(b, now),
        scope_entries(a + b, service, host, now) == scope_entries(a, service, host, now)
            + scope_entries(b, service, host, now),
        record_entries(a + b, service, host, now) == record_entries(a, service, host, now)
            + record_entries(b, service, host, now),
    decreases b.len(),
{
    if b.len() == 0 {
        assert(a + b =~= a);
        assert(resource_entries(a, now) + resource_entries(b, now) =~= resource_entries(a, now));
        assert(scope_entries(a, service, host, now) + scope_entries(b, service, host, now)
            =~= scope_entries(a, service, host, now));
        assert(record_entries(a, service, host, now) + record_entries(b, service, host, now)
            =~= record_entries(a, service, host, now));
    } else {
        let front = b.drop_last();
        assert((a + b).drop_last() =~= a + front);
        log_requests_keep_their_order(a, front, service, host, now);
        let part = b.last();
        let of_part = scope_entries(part.items_at("scopeLogs"@), service_of(part), host_of(part), now);
        assert(resource_entries(a, now) + (resource_entries(front, now) + of_part) =~= (
        resource_entries(a, now) + resource_entries(front, now)) + of_part);
        let of_scope = record_entries(part.items_at("logRecords"@), service, host, now);
        assert(scope_entries(a, service, host, now) + (scope_entries(front, service, host, now)
            + of_scope) =~= (scope_entries(a, service, host, now) + scope_entries(
            front,
            service,
            host,
            now,
        )) + of_scope);
        if let Some(e) = log_entry_of(part, service, host, now) {
            assert(record_entries(a, service, host, now) + record_entries(
                front,
                service,
                host,
                now,
            ).push(e) =~= (record_entries(a, service, host, now) + record_entries(
                front,
                service,
                host,
                now,
            )).push(e));
        }
    }
}

/// One resource gives the records of its scopes, under its own service and host.
pub proof fn log_records_belong_to_their_resource(
    part: JsonView,
    scope: JsonView,
    record: JsonView,
    now: Timestamp,
)
    requires
        part.items_at("scopeLogs"@) == seq![scope],
        scope.items_at("logRecords"@) == seq![record],
    ensures
        resource_entries(seq![part], now) == (match log_entry_of(
            record,
            last_value(resource_attrs(part), "service.name"@, "unknown"@),
            last_value(resource_attrs(part), "host.name"@, "unknown"@),
            now,
        ) {
            Some(e) => seq![e],
            None => seq![],
        }),
{
    reveal_with_fuel(resource_entries, 2);
    reveal_with_fuel(scope_entries, 2);
    reveal_with_fuel(record_entries, 2);
    assert(seq![part].drop_last() =~= seq![]);
    assert(seq![scope].drop_last() =~= seq![]);
    assert(seq![record].drop_last() =~= seq![]);
    assert(resource_entries(seq![part], now) =~= (match log_entry_of(
        record,
        service_of(part),
        host_of(part),
        now,
    ) {
        Some(e) => seq![e],
        None => seq![],
    }));
}

/// The spans of a request come in its order: those of two resources are those of the
/// one and then those of the other, and so for their scopes and their spans. What is
/// unusable adds up.
pub proof fn trace_requests_keep_their_order(
    a: Seq<JsonView>,
    b: Seq<JsonView>,
    service: Seq<char>,
)
    ensures
        resource_spans(a + b) == resource_spans(a) + resource_spans(b),
        scope_spans(a + b, service) == scope_spans(a, service) + scope_spans(b, service),
        good_spans(a + b, service) == good_spans(a, service) + good_spans(b, service),
        resource_bad_spans(a + b) == resource_bad_spans(a) + resource_bad_spans(b),
        scope_bad_spans(a + b, service) == scope_bad_spans(a, service) + scope_bad_spans(b, service),
    decreases b.len(),
{
    if b.len() == 0 {
        assert(a + b =~= a);
        assert(resource_spans(a) + resource_spans(b) =~= resource_spans(a));
        assert(scope_spans(a, service) + scope_spans(b, service) =~= scope_spans(a, service));
        assert(good_spans(a, service) + good_spans(b, service) =~= good_spans(a, service));
    } else {
        let front = b.drop_last();
        assert((a + b).drop_last() =~= a + front);
        trace_requests_keep_their_order(a, front, service);
        let part = b.last();
        let of_part = scope_spans(part.items_at("scopeSpans"@), service_of(part));
        assert(resource_spans(a) + (resource_spans(front) + of_part) =~= (resource_spans(a)
            + resource_spans(front)) + of_part);
        let of_scope = good_spans(part.items_at("spans"@), service);
        assert(scope_spans(a, service) + (scope_spans(front, service) + of_scope) =~= (scope_spans(
            a,
            service,
        ) + scope_spans(front, service)) + of_scope);
        if let Some(s) = span_entry_of(part, service) {
            assert(good_spans(a, service) + good_spans(front, service).push(s) =~= (good_spans(
                a,
                service,
            ) + good_spans(front, service)).push(s));
        }
    }
}

/// One resource gives the spans of its scopes, under its own service; a span that is
/// unusable is counted once.
pub proof fn spans_belong_to_their_resource(part: JsonView, scope: JsonView, span: JsonView)
    requires
        part.items_at("scopeSpans"@) == seq![scope],
        scope.items_at("spans"@) == seq![span],
    ensures
        ({
            let service = last_value(resource_attrs(part), "service.name"@, "unknown"@);
            &&& resource_spans(seq![part]) == (match span_entry_of(span, service) {
                Some(s) => seq![s],
                None => seq![],
            })
            &&& resource_bad_spans(seq![part]) == (if span_entry_of(span, service) is None {
                1nat
            } else {
                0
            })
        }),
{
    reveal_with_fuel(resource_spans, 2);
    reveal_with_fuel(scope_spans, 2);
    reveal_with_fuel(good_spans, 2);
    reveal_with_fuel(resource_bad_spans, 2);
    reveal_with_fuel(scope_bad_spans, 2);
    reveal_with_fuel(bad_spans, 2);
    assert(seq![part].drop_last() =~= seq![]);
    assert(seq![scope].drop_last() =~= seq![]);
    assert(seq![span].drop_last() =~= seq![]);
    assert(resource_spans(seq![part]) =~= (match span_entry_of(span, service_of(part)) {
        Some(s) => seq![s],
        None => seq![],
    }));
}

/// A request that was accepted is answered with 200, one that was not with 429.
pub proof fn refused_requests_are_told_to_wait(status: RequestStatus, r: u16)
    requires
        call_ensures(RequestStatus::code, (status,), r),
    ensures
        r == 200 <==> status == RequestStatus::Accepted,
        r != 200 ==> r == 429,
{
}

/// What is no time is the epoch: a text that spells no number, a number that is not a whole
/// one, and anything else.
pub proof fn unreadable_times_are_the_epoch(v: JsonView, key: Seq<char>)
    ensures
        v.get(key) matches Some(JsonView::Text(t)) ==> match u64_of(t) {
            Some(n) => nanos_at(v, key) == n,
            None => nanos_at(v, key) == 0,
        },
        v.get(key) matches Some(JsonView::Number(t)) ==> match t.unsigned {
            Some(n) => nanos_at(v, key) == n,
            None => nanos_at(v, key) == 0,
        },
        v.get(key) matches Some(JsonView::Bool(_)) ==> nanos_at(v, key) == 0,
        v.get(key) is None ==> nanos_at(v, key) == 0,
{
}

/// The attributes of a part are those of its `resource`.
pub proof fn parts_have_the_attributes_of_their_resource(part: JsonView)
    ensures
        part.get("resource"@) is None ==> resource_attrs(part).len() == 0,
        part.get2("resource"@, "attributes"@) matches Some(JsonView::Array(items)) ==> resource_attrs(
            part,
        ) == attr_pairs(items),
{
}

/// Every span that is discarded is counted, among those that came over HTTP.
pub proof fn discarded_spans_are_counted(m: MetricsView, n: nat)
    ensures
        malformed_times(m, 0) == m,
        malformed_times(m, n + 1) == malformed_times(m, n).malformed(TraceTransport::OtlpHttp),
        malformed_times(m, n).grpc_malformed == m.grpc_malformed,
    decreases n,
{
    if n > 0 {
        discarded_spans_are_counted(m, (n - 1) as nat);
    }
}

} // verus!
