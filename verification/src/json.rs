//! JSON values as the rest of the library reads them.
//!
//! A number keeps what is ever asked of it: its integer readings, its text, and
//! the texts that it has as a float.
use crate::text;
use crate::text::{hex_text, signed_text};
use serde_json::Value;
use vstd::prelude::*;

verus! {

broadcast use vstd::string::group_string_axioms;

/// A JSON number.
#[derive(Debug, PartialEq, Eq)]
pub struct JsonNumber {
    /// The value, where it is an integer that 64 unsigned bits hold.
    pub unsigned: Option<u64>,
    /// The value, where it is an integer that 64 signed bits hold.
    pub signed: Option<i64>,
    /// How the number is written in JSON.
    pub text: String,
    /// The value as a float, in its shortest exact decimal form.
    pub float_display: String,
    /// How the value as a float is written in JSON.
    pub float_json: String,
}

/// What a [`JsonNumber`] stands for.
#[verifier::ext_equal]
pub struct JsonNumberView {
    pub unsigned: Option<u64>,
    pub signed: Option<i64>,
    pub text: Seq<char>,
    pub float_display: Seq<char>,
    pub float_json: Seq<char>,
}

impl View for JsonNumber {
    type V = JsonNumberView;

    open spec fn view(&self) -> JsonNumberView {
        JsonNumberView {
            unsigned: self.unsigned,
            signed: self.signed,
            text: self.text@,
            float_display: self.float_display@,
            float_json: self.float_json@,
        }
    }
}

impl Clone for JsonNumber {
    fn clone(&self) -> (r: Self)
        ensures
            r@ == self@,
    {
        JsonNumber {
            unsigned: self.unsigned,
            signed: self.signed,
            text: self.text.clone(),
            float_display: self.float_display.clone(),
            float_json: self.float_json.clone(),
        }
    }
}

impl JsonNumberView {
    /// Whether the number is written as an integer.
    pub open spec fn is_integer(self) -> bool {
        self.unsigned is Some || self.signed is Some
    }

    /// The same value, written as a float.
    pub open spec fn as_float(self) -> JsonNumberView {
        JsonNumberView {
            unsigned: None,
            signed: None,
            text: self.float_json,
            float_display: self.float_display,
            float_json: self.float_json,
        }
    }
}

impl JsonNumber {
    pub fn is_integer(&self) -> (r: bool)
        ensures
            r == self@.is_integer(),
    {
        self.unsigned.is_some() || self.signed.is_some()
    }

    /// The same value, written as a float.
    pub fn as_float(&self) -> (r: JsonNumber)
        ensures
            r@ == self@.as_float(),
    {
        JsonNumber {
            unsigned: None,
            signed: None,
            text: self.float_json.clone(),
            float_display: self.float_display.clone(),
            float_json: self.float_json.clone(),
        }
    }
}

/// A JSON value. An object keeps its members in their order.
#[derive(Debug, PartialEq, Eq)]
pub enum Json {
    Null,
    Bool(bool),
    Number(JsonNumber),
    Text(String),
    Array(Vec<Json>),
    Object(Vec<(String, Json)>),
}

/// What a [`Json`] stands for.
#[verifier::ext_equal]
pub enum JsonView {
    Null,
    Bool(bool),
    Number(JsonNumberView),
    Text(Seq<char>),
    Array(Seq<JsonView>),
    Object(Seq<(Seq<char>, JsonView)>),
}

/// The first member of that key.
pub open spec fn first_member(members: Seq<(Seq<char>, JsonView)>, key: Seq<char>) -> Option<
    JsonView,
>
    decreases members.len(),
{
    if members.len() == 0 {
        None
    } else if members[0].0 == key {
        Some(members[0].1)
    } else {
        first_member(members.skip(1), key)
    }
}

impl JsonView {
    /// The member `key` of an object; of anything else, nothing.
    pub open spec fn get(self, key: Seq<char>) -> Option<JsonView> {
        match self {
            JsonView::Object(members) => first_member(members, key),
            _ => None,
        }
    }

    /// The member `key` of the member `outer` of an object.
    pub open spec fn get2(self, outer: Seq<char>, key: Seq<char>) -> Option<JsonView> {
        match self.get(outer) {
            Some(v) => v.get(key),
            None => None,
        }
    }

    pub open spec fn as_str(self) -> Option<Seq<char>> {
        match self {
            JsonView::Text(s) => Some(s),
            _ => None,
        }
    }

    pub open spec fn as_bool(self) -> Option<bool> {
        match self {
            JsonView::Bool(b) => Some(b),
            _ => None,
        }
    }

    pub open spec fn as_number(self) -> Option<JsonNumberView> {
        match self {
            JsonView::Number(n) => Some(n),
            _ => None,
        }
    }

    pub open spec fn as_u64(self) -> Option<u64> {
        match self {
            JsonView::Number(n) => n.unsigned,
            _ => None,
        }
    }

    pub open spec fn as_i64(self) -> Option<i64> {
        match self {
            JsonView::Number(n) => n.signed,
            _ => None,
        }
    }

    pub open spec fn as_array(self) -> Option<Seq<JsonView>> {
        match self {
            JsonView::Array(items) => Some(items),
            _ => None,
        }
    }

    /// The member `key`, where it is a text.
    pub open spec fn text_at(self, key: Seq<char>) -> Option<Seq<char>> {
        match self.get(key) {
            Some(v) => v.as_str(),
            None => None,
        }
    }

    /// The member `key`, where it is an unsigned integer.
    pub open spec fn u64_at(self, key: Seq<char>) -> Option<u64> {
        match self.get(key) {
            Some(v) => v.as_u64(),
            None => None,
        }
    }

    /// The member `key`, where it is a signed integer.
    pub open spec fn i64_at(self, key: Seq<char>) -> Option<i64> {
        match self.get(key) {
            Some(v) => v.as_i64(),
            None => None,
        }
    }

    /// The items of the member `key`, or none where it is no array.
    pub open spec fn items_at(self, key: Seq<char>) -> Seq<JsonView> {
        match self.get(key) {
            Some(JsonView::Array(items)) => items,
            _ => seq![],
        }
    }
}

/// A member of an object is smaller than its members.
proof fn lemma_first_member_smaller(members: Seq<(Seq<char>, JsonView)>, key: Seq<char>)
    ensures
        first_member(members, key) matches Some(v) ==> decreases_to!(members => v),
    decreases members.len(),
{
    if members.len() > 0 {
        if members[0].0 == key {
            assert(decreases_to!(members => members[0]));
            assert(decreases_to!(members[0] => members[0].1));
        } else {
            lemma_first_member_smaller(members.skip(1), key);
            assert(decreases_to!(members => members.subrange(1, members.len() as int)));
            assert(members.skip(1) =~= members.subrange(1, members.len() as int));
        }
    }
}

/// A member of a value is smaller than the value.
pub proof fn lemma_get_smaller(v: JsonView, key: Seq<char>)
    ensures
        v.get(key) matches Some(x) ==> decreases_to!(v => x),
{
    match v {
        JsonView::Object(members) => {
            lemma_first_member_smaller(members, key);
            assert(decreases_to!(v => members));
        },
        _ => {},
    }
}

/// The items of a value are smaller than the value.
pub proof fn lemma_items_smaller(v: JsonView)
    ensures
        v matches JsonView::Array(items) ==> decreases_to!(v => items),
{
    match v {
        JsonView::Array(items) => {
            assert(decreases_to!(v => items));
        },
        _ => {},
    }
}

/// A character of a text, as JSON writes it.
pub open spec fn json_char(c: char) -> Seq<char> {
    if c == '"' || c == '\\' {
        seq!['\\', c]
    } else if c == '\u{8}' {
        seq!['\\', 'b']
    } else if c == '\t' {
        seq!['\\', 't']
    } else if c == '\n' {
        seq!['\\', 'n']
    } else if c == '\u{c}' {
        seq!['\\', 'f']
    } else if c == '\r' {
        seq!['\\', 'r']
    } else if (c as u32) < 0x20 {
        seq!['\\', 'u'] + hex_text(c as nat, 4)
    } else {
        seq![c]
    }
}

/// The characters of a text, as JSON writes them.
pub open spec fn json_chars(s: Seq<char>) -> Seq<char>
    decreases s.len(),
{
    if s.len() == 0 {
        seq![]
    } else {
        json_chars(s.drop_last()) + json_char(s.last())
    }
}

/// A text as JSON: in double quotes.
pub open spec fn json_string(s: Seq<char>) -> Seq<char> {
    seq!['"'] + json_chars(s) + seq!['"']
}

/// The value as JSON text, without spaces.
pub open spec fn json_text(v: JsonView) -> Seq<char>
    decreases v,
{
    match v {
        JsonView::Null => "null"@,
        JsonView::Bool(b) => if b {
            "true"@
        } else {
            "false"@
        },
        JsonView::Number(n) => n.text,
        JsonView::Text(s) => json_string(s),
        JsonView::Array(items) => seq!['['] + items_text(items) + seq![']'],
        JsonView::Object(members) => seq!['{'] + members_text(members) + seq!['}'],
    }
}

/// The items of an array as JSON text, with commas between them.
pub open spec fn items_text(items: Seq<JsonView>) -> Seq<char>
    decreases items,
{
    if items.len() == 0 {
        seq![]
    } else if items.len() == 1 {
        json_text(items[0])
    } else {
        items_text(items.drop_last()) + seq![','] + json_text(items[items.len() - 1])
    }
}

/// The members of an object as JSON text, with commas between them.
pub open spec fn members_text(members: Seq<(Seq<char>, JsonView)>) -> Seq<char>
    decreases members,
{
    if members.len() == 0 {
        seq![]
    } else if members.len() == 1 {
        member_text(members[0])
    } else {
        members_text(members.drop_last()) + seq![','] + member_text(members[members.len() - 1])
    }
}

/// One member of an object as JSON text.
pub open spec fn member_text(member: (Seq<char>, JsonView)) -> Seq<char>
    decreases member,
{
    json_string(member.0) + seq![':'] + json_text(member.1)
}

impl Json {
    /// What this value stands for.
    pub open spec fn view(&self) -> JsonView
        decreases self,
    {
        match self {
            Json::Null => JsonView::Null,
            Json::Bool(b) => JsonView::Bool(*b),
            Json::Number(n) => JsonView::Number(n@),
            Json::Text(s) => JsonView::Text(s@),
            Json::Array(items) => JsonView::Array(
                Seq::new(
                    items@.len(),
                    |i: int|
                        if 0 <= i < items@.len() {
                            items@[i].view()
                        } else {
                            JsonView::Null
                        },
                ),
            ),
            Json::Object(members) => JsonView::Object(
                Seq::new(
                    members@.len(),
                    |i: int|
                        if 0 <= i < members@.len() {
                            (members@[i].0@, members@[i].1.view())
                        } else {
                            (Seq::empty(), JsonView::Null)
                        },
                ),
            ),
        }
    }

    /// The value that `bytes` hold as JSON.
    pub fn parse(bytes: &[u8]) -> (r: Result<Json, serde_json::Error>)
        ensures
            match r {
                Ok(v) => json_parsed(bytes@) == Some(v@),
                Err(_) => json_parsed(bytes@) is None,
            },
    {
        match parse_value(bytes) {
            Ok(v) => Ok(json_from(v)),
            Err(e) => Err(e),
        }
    }

    /// The integer `n`.
    pub fn integer(n: i64) -> (r: Json)
        ensures
            r@ == JsonView::Number(integer_number(n)),
            integer_number(n).signed == Some(n),
            integer_number(n).unsigned == if n >= 0 {
                Some(n as u64)
            } else {
                None
            },
    {
        Json::Number(integer_from(n))
    }

    pub fn clone(&self) -> (r: Json)
        ensures
            r@ == self@,
        decreases self,
    {
        match self {
            Json::Null => Json::Null,
            Json::Bool(b) => Json::Bool(*b),
            Json::Number(n) => Json::Number(n.clone()),
            Json::Text(s) => Json::Text(s.clone()),
            Json::Array(items) => {
                let mut out: Vec<Json> = Vec::new();
                let mut i: usize = 0;
                while i < items.len()
                    invariant
                        self matches Json::Array(it) && it == items,
                        i <= items@.len(),
                        out@.len() == i,
                        forall|k: int| 0 <= k < i ==> (#[trigger] out@[k])@ == items@[k]@,
                    decreases items@.len() - i,
                {
                    out.push(items[i].clone());
                    i += 1;
                }
                let r = Json::Array(out);
                proof {
                    assert(r@->Array_0 =~= self@->Array_0);
                }
                r
            },
            Json::Object(members) => {
                let mut out: Vec<(String, Json)> = Vec::new();
                let mut i: usize = 0;
                while i < members.len()
                    invariant
                        self matches Json::Object(it) && it == members,
                        i <= members@.len(),
                        out@.len() == i,
                        forall|k: int|
                            0 <= k < i ==> (#[trigger] out@[k]).0@ == members@[k].0@ && out@[k].1@
                                == members@[k].1@,
                    decreases members@.len() - i,
                {
                    let m = &members[i];
                    out.push((m.0.clone(), m.1.clone()));
                    i += 1;
                }
                let r = Json::Object(out);
                proof {
                    assert(r@->Object_0 =~= self@->Object_0);
                }
                r
            },
        }
    }

    /// The member `key` of an object; of anything else, nothing.
    pub fn get(&self, key: &str) -> (r: Option<&Json>)
        ensures
            match r {
                Some(v) => self@.get(key@) == Some(v@) && decreases_to!(self => v),
                None => self@.get(key@) is None,
            },
    {
        match self {
            Json::Object(members) => {
                let ghost all = self@->Object_0;
                let mut i: usize = 0;
                proof {
                    assert(all.skip(0) =~= all);
                }
                while i < members.len()
                    invariant
                        self matches Json::Object(it) && it == members,
                        all == self@->Object_0,
                        i <= members@.len(),
                        first_member(all, key@) == first_member(all.skip(i as int), key@),
                    decreases members@.len() - i,
                {
                    let m = &members[i];
                    proof {
                        assert(all[i as int] == (m.0@, m.1@));
                        assert(all.skip(i as int)[0] == all[i as int]);
                        assert(all.skip(i as int).skip(1) =~= all.skip(i + 1));
                    }
                    if text::same(&m.0, key) {
                        proof {
                            assert(decreases_to!(self => members@[i as int].1));
                        }
                        return Some(&m.1);
                    }
                    i += 1;
                }
                None
            },
            _ => None,
        }
    }

    pub fn as_str(&self) -> (r: Option<&str>)
        ensures
            match r {
                Some(s) => self@.as_str() == Some(s@),
                None => self@.as_str() is None,
            },
    {
        match self {
            Json::Text(s) => Some(s.as_str()),
            _ => None,
        }
    }

    pub fn as_bool(&self) -> (r: Option<bool>)
        ensures
            r == self@.as_bool(),
    {
        match self {
            Json::Bool(b) => Some(*b),
            _ => None,
        }
    }

    pub fn as_number(&self) -> (r: Option<&JsonNumber>)
        ensures
            match r {
                Some(n) => self@.as_number() == Some(n@),
                None => self@.as_number() is None,
            },
    {
        match self {
            Json::Number(n) => Some(n),
            _ => None,
        }
    }

    pub fn as_u64(&self) -> (r: Option<u64>)
        ensures
            r == self@.as_u64(),
    {
        match self {
            Json::Number(n) => n.unsigned,
            _ => None,
        }
    }

    pub fn as_i64(&self) -> (r: Option<i64>)
        ensures
            r == self@.as_i64(),
    {
        match self {
            Json::Number(n) => n.signed,
            _ => None,
        }
    }

    pub fn as_array(&self) -> (r: Option<&Vec<Json>>)
        ensures
            match r {
                Some(items) => {
                    &&& *self == Json::Array(*items)
                    &&& self@ == JsonView::Array(item_views(items@))
                },
                None => self@.as_array() is None,
            },
    {
        match self {
            Json::Array(items) => {
                proof {
                    assert(self@->Array_0 =~= item_views(items@));
                }
                Some(items)
            },
            _ => None,
        }
    }

    /// The member `key`, where it is a text.
    pub fn text_at(&self, key: &str) -> (r: Option<&str>)
        ensures
            match r {
                Some(s) => self@.text_at(key@) == Some(s@),
                None => self@.text_at(key@) is None,
            },
    {
        match self.get(key) {
            Some(v) => v.as_str(),
            None => None,
        }
    }

    /// The member `key`, where it is an unsigned integer.
    pub fn u64_at(&self, key: &str) -> (r: Option<u64>)
        ensures
            r == self@.u64_at(key@),
    {
        match self.get(key) {
            Some(v) => v.as_u64(),
            None => None,
        }
    }

    /// The member `key`, where it is a signed integer.
    pub fn i64_at(&self, key: &str) -> (r: Option<i64>)
        ensures
            r == self@.i64_at(key@),
    {
        match self.get(key) {
            Some(v) => v.as_i64(),
            None => None,
        }
    }

    /// The items of the member `key`, where it is an array.
    pub fn items_at(&self, key: &str) -> (r: Option<&Vec<Json>>)
        ensures
            match r {
                Some(items) => self@.get(key@) == Some(JsonView::Array(item_views(items@))),
                None => !(self@.get(key@) matches Some(JsonView::Array(_))),
            },
            r matches Some(items) ==> self@.items_at(key@) == item_views(items@) && decreases_to!(
                self => items
            ),
    {
        match self.get(key) {
            Some(v) => {
                let items = v.as_array();
                proof {
                    if let Some(it) = items {
                        assert(decreases_to!(v => it));
                    }
                }
                items
            },
            None => None,
        }
    }

    /// The value as JSON text, without spaces.
    pub fn to_text(&self) -> (r: String)
        ensures
            r@ == json_text(self@),
        decreases self,
    {
        match self {
            Json::Null => text::owned("null"),
            Json::Bool(b) => if *b {
                text::owned("true")
            } else {
                text::owned("false")
            },
            Json::Number(n) => n.text.clone(),
            Json::Text(s) => quoted(s),
            Json::Array(items) => {
                let ghost all = self@->Array_0;
                let mut out = String::new();
                out.push('[');
                let mut i: usize = 0;
                proof {
                    assert(out@ =~= seq!['['] + items_text(all.take(0)));
                }
                while i < items.len()
                    invariant
                        self matches Json::Array(it) && it == items,
                        all == self@->Array_0,
                        i <= items@.len(),
                        out@ == seq!['['] + items_text(all.take(i as int)),
                    decreases items@.len() - i,
                {
                    proof {
                        let now = all.take(i + 1);
                        assert(now.drop_last() =~= all.take(i as int));
                        assert(now[now.len() - 1] == items@[i as int]@);
                    }
                    if i > 0 {
                        out.push(',');
                    }
                    out.append(items[i].to_text().as_str());
                    proof {
                        assert(out@ =~= seq!['['] + items_text(all.take(i + 1)));
                    }
                    i += 1;
                }
                out.push(']');
                proof {
                    assert(all.take(all.len() as int) =~= all);
                    assert(out@ =~= seq!['['] + items_text(all) + seq![']']);
                }
                out
            },
            Json::Object(members) => {
                let ghost all = self@->Object_0;
                let mut out = String::new();
                out.push('{');
                let mut i: usize = 0;
                proof {
                    assert(out@ =~= seq!['{'] + members_text(all.take(0)));
                }
                while i < members.len()
                    invariant
                        self matches Json::Object(it) && it == members,
                        all == self@->Object_0,
                        i <= members@.len(),
                        out@ == seq!['{'] + members_text(all.take(i as int)),
                    decreases members@.len() - i,
                {
                    let m = &members[i];
                    proof {
                        let now = all.take(i + 1);
                        assert(now.drop_last() =~= all.take(i as int));
                        assert(now[now.len() - 1] == (m.0@, m.1@));
                        assert(member_text((m.0@, m.1@)) == json_string(m.0@) + seq![':']
                            + json_text(m.1@));
                    }
                    if i > 0 {
                        out.push(',');
                    }
                    out.append(quoted(&m.0).as_str());
                    out.push(':');
                    out.append(m.1.to_text().as_str());
                    proof {
                        assert(out@ =~= seq!['{'] + members_text(all.take(i + 1)));
                    }
                    i += 1;
                }
                out.push('}');
                proof {
                    assert(all.take(all.len() as int) =~= all);
                    assert(out@ =~= seq!['{'] + members_text(all) + seq!['}']);
                }
                out
            },
        }
    }
}

/// The views of a list of values.
pub open spec fn item_views(items: Seq<Json>) -> Seq<JsonView> {
    items.map_values(|v: Json| v@)
}

#[verifier::external_type_specification]
#[verifier::external_body]
pub struct ExValue(serde_json::Value);

#[verifier::external_type_specification]
#[verifier::external_body]
pub struct ExError(serde_json::Error);

/// What a `serde_json::Value` holds.
pub uninterp spec fn json_content(v: serde_json::Value) -> JsonView;

/// The value that `serde_json::from_slice` reads, where it reads one.
pub uninterp spec fn json_parsed(bytes: Seq<u8>) -> Option<JsonView>;

/// The readings and texts of the `serde_json::Number` of an integer.
pub uninterp spec fn integer_number(n: i64) -> JsonNumberView;

/// `serde_json::from_slice`: the value that the bytes hold as JSON, or an error
/// where they hold none. Which of the two it is, and the value, depend on the
/// bytes alone.
#[verifier::external_body]
fn parse_value(bytes: &[u8]) -> (r: Result<serde_json::Value, serde_json::Error>)
    ensures
        match r {
            Ok(v) => json_parsed(bytes@) == Some(json_content(v)),
            Err(_) => json_parsed(bytes@) is None,
        },
{
    serde_json::from_slice(bytes)
}

/// A `serde_json::Value` by what it holds, variant by variant: a number by
/// `Number::as_u64`, `as_i64`, its text, and the texts of `Number::as_f64`.
#[verifier::external_body]
fn json_from(v: serde_json::Value) -> (r: Json)
    ensures
        r@ == json_content(v),
{
    match v {
        Value::Null => Json::Null,
        Value::Bool(b) => Json::Bool(b),
        Value::Number(n) => Json::Number(JsonNumber {
            unsigned: n.as_u64(), signed: n.as_i64(), text: n.to_string(),
            float_display: n.as_f64().map(|d| d.to_string()).unwrap_or_default(),
            float_json: Value::from(n.as_f64()).to_string(),
        }),
        Value::String(s) => Json::Text(s),
        Value::Array(a) => Json::Array(a.into_iter().map(json_from).collect()),
        Value::Object(m) => Json::Object(m.into_iter().map(|(k, v)| (k, json_from(v))).collect()),
    }
}

/// `serde_json::Number::from` an integer, with the readings and texts that it
/// has then: read as an integer it gives that integer back, and it is written in
/// decimal. Of its texts as a float nothing is claimed but that they depend on
/// the integer alone.
#[verifier::external_body]
fn integer_from(n: i64) -> (r: JsonNumber)
    ensures
        r@ == integer_number(n),
        r.signed == Some(n),
        r.text@ == signed_text(n as int),
        r.unsigned == if n >= 0 { Some(n as u64) } else { None },
{
    let n = serde_json::Number::from(n);
    JsonNumber {
        unsigned: n.as_u64(), signed: n.as_i64(), text: n.to_string(),
        float_display: n.as_f64().map(|d| d.to_string()).unwrap_or_default(),
        float_json: serde_json::Value::from(n.as_f64()).to_string(),
    }
}

/// `serde_json::to_string` of a text: the text in double quotes, with quotes,
/// backslashes and the characters below a space escaped and all others as they
/// are. It does not fail on a text.
#[verifier::external_body]
fn quoted(s: &str) -> (r: String)
    ensures
        r@ == json_string(s@),
{
    serde_json::to_string(s).unwrap()
}

/// A member is found by its name, and the first of that name is.
pub proof fn members_go_by_their_names(
    members: Seq<(Seq<char>, JsonView)>,
    key: Seq<char>,
    i: int,
)
    requires
        0 <= i < members.len(),
    ensures
        members[i].0 == key && (forall|j: int| 0 <= j < i ==> (#[trigger] members[j]).0 != key)
            ==> JsonView::Object(members).get(key) == Some(members[i].1),
        JsonView::Object(members).get(key) is None ==> members[i].0 != key,
    decreases members.len(),
{
    if members[0].0 != key && i > 0 {
        let rest = members.skip(1);
        assert(rest[i - 1] == members[i]);
        if forall|j: int| 0 <= j < i ==> (#[trigger] members[j]).0 != key {
            assert forall|j: int| 0 <= j < i - 1 implies (#[trigger] rest[j]).0 != key by {
                assert(rest[j] == members[j + 1]);
            }
        }
        members_go_by_their_names(rest, key, i - 1);
        assert(JsonView::Object(rest).get(key) == first_member(rest, key));
    }
}

/// What is found under a name is a member of that name.
pub proof fn found_members_are_there(members: Seq<(Seq<char>, JsonView)>, key: Seq<char>) -> (i: int)
    requires
        JsonView::Object(members).get(key) is Some,
    ensures
        0 <= i < members.len(),
        members[i] == (key, JsonView::Object(members).get(key)->0),
    decreases members.len(),
{
    if members[0].0 == key {
        0
    } else {
        let rest = members.skip(1);
        assert(JsonView::Object(rest).get(key) == first_member(rest, key));
        found_members_are_there(rest, key) + 1
    }
}

/// Only an object has members, and each value is read as what it is.
pub proof fn values_are_what_they_are(v: JsonView, key: Seq<char>)
    ensures
        !(v is Object) ==> v.get(key) is None,
        v matches JsonView::Text(s) ==> v.as_str() == Some(s) && v.as_u64() is None && v.as_i64() is None
            && v.as_bool() is None && v.as_array() is None,
        v matches JsonView::Bool(b) ==> v.as_bool() == Some(b) && v.as_str() is None
            && v.as_u64() is None,
        v matches JsonView::Number(n) ==> v.as_u64() == n.unsigned && v.as_i64() == n.signed
            && v.as_str() is None,
        v matches JsonView::Array(items) ==> v.as_array() == Some(items) && v.as_str() is None,
        v is Null ==> v.as_str() is None && v.as_u64() is None && v.as_bool() is None,
        v.get(key) matches Some(JsonView::Array(items)) ==> v.items_at(key) == items,
        !(v.get(key) matches Some(JsonView::Array(_))) ==> v.items_at(key).len() == 0,
        v.get(key) matches Some(x) ==> v.text_at(key) == x.as_str() && v.u64_at(key) == x.as_u64()
            && v.i64_at(key) == x.as_i64(),
{
}

/// A text is written between quotes, character by character: quotes, backslashes and
/// control characters are escaped, all others stand for themselves.
pub proof fn texts_are_escaped(s: Seq<char>, c: char)
    ensures
        json_text(JsonView::Text(seq![])) == seq!['"', '"'],
        json_text(JsonView::Text(s.push(c))) == json_text(JsonView::Text(s)).drop_last() + json_char(c)
            + seq!['"'],
        c == '"' ==> json_char(c) == seq!['\\', '"'],
        c == '\\' ==> json_char(c) == seq!['\\', '\\'],
        c == '\n' ==> json_char(c) == seq!['\\', 'n'],
        c == '\r' ==> json_char(c) == seq!['\\', 'r'],
        c == '\t' ==> json_char(c) == seq!['\\', 't'],
        c == '\u{8}' ==> json_char(c) == seq!['\\', 'b'],
        c == '\u{c}' ==> json_char(c) == seq!['\\', 'f'],
        (c as u32) < 0x20 ==> json_char(c).len() >= 2 && json_char(c)[0] == '\\',
        (c as u32) >= 0x20 && c != '"' && c != '\\' ==> json_char(c) == seq![c],
{
    assert(s.push(c).drop_last() =~= s);
    assert(json_text(JsonView::Text(seq![])) =~= seq!['"', '"']);
    let t = json_text(JsonView::Text(s));
    assert(t.drop_last() =~= seq!['"'] + json_chars(s));
    assert(json_text(JsonView::Text(s.push(c))) =~= t.drop_last() + json_char(c) + seq!['"']);
}

/// The items of a list are written one after the other, with commas between them.
pub proof fn lists_are_written_in_order(items: Seq<JsonView>, v: JsonView)
    ensures
        json_text(JsonView::Array(seq![])) == seq!['[', ']'],
        json_text(JsonView::Array(seq![v])) == seq!['['] + json_text(v) + seq![']'],
        items.len() > 0 ==> json_text(JsonView::Array(items.push(v))) == json_text(
            JsonView::Array(items),
        ).drop_last() + seq![','] + json_text(v) + seq![']'],
        json_text(JsonView::Null) == "null"@,
        json_text(JsonView::Bool(true)) == "true"@,
        json_text(JsonView::Bool(false)) == "false"@,
{
    assert(json_text(JsonView::Array(seq![])) =~= seq!['[', ']']);
    assert(items.push(v).drop_last() =~= items);
    if items.len() > 0 {
        let t = json_text(JsonView::Array(items));
        assert(t.drop_last() =~= seq!['['] + items_text(items));
        assert(json_text(JsonView::Array(items.push(v))) =~= t.drop_last() + seq![','] + json_text(v)
            + seq![']']);
    }
}

/// The members of an object are written one after the other, each as its name, a colon and
/// its value.
pub proof fn objects_are_written_in_order(
    members: Seq<(Seq<char>, JsonView)>,
    key: Seq<char>,
    v: JsonView,
)
    ensures
        json_text(JsonView::Object(seq![])) == seq!['{', '}'],
        json_text(JsonView::Object(seq![(key, v)])) == seq!['{'] + json_text(JsonView::Text(key))
            + seq![':'] + json_text(v) + seq!['}'],
        members.len() > 0 ==> json_text(JsonView::Object(members.push((key, v)))) == json_text(
            JsonView::Object(members),
        ).drop_last() + seq![','] + json_text(JsonView::Text(key)) + seq![':'] + json_text(v)
            + seq!['}'],
{
    assert(json_text(JsonView::Object(seq![])) =~= seq!['{', '}']);
    let one = seq![(key, v)];
    let longer = members.push((key, v));
    assert(member_text((key, v)) == json_text(JsonView::Text(key)) + seq![':'] + json_text(v));
    assert(members_text(one) == member_text((key, v)));
    assert(members.len() > 0 ==> members_text(longer) == members_text(longer.drop_last()) + seq![',']
        + member_text((key, v)));
    assert(json_text(JsonView::Object(one)) =~= seq!['{'] + json_text(JsonView::Text(key)) + seq![
        ':',
    ] + json_text(v) + seq!['}']);
    assert(members.push((key, v)).drop_last() =~= members);
    if members.len() > 0 {
        let t = json_text(JsonView::Object(members));
        assert(t.drop_last() =~= seq!['{'] + members_text(members));
        assert(json_text(JsonView::Object(members.push((key, v)))) =~= t.drop_last() + seq![',']
            + json_text(JsonView::Text(key)) + seq![':'] + json_text(v) + seq!['}']);
    }
}

} // verus!
