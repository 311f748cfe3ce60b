//! Log records and the GELF messages that they are read from.
use crate::clock::Timestamp;
use crate::json::{json_parsed, Json, JsonView};
use crate::text;
use crate::text::{
    ascii_lower, ascii_upper, clone_texts, hex_up_to, optional_text, text_views, uppercase_text,
};
use crate::text_map::{lemma_prefix_map, pairs_map, TextMap};
use vstd::prelude::*;
use vstd::utf8::is_ascii_chars;

verus! {

broadcast use vstd::string::group_string_axioms;

/// How severe a record is.
#[derive(Debug, Clone, Copy, PartialEq, Eq, PartialOrd, Ord, Hash, Structural)]
pub enum Level {
    Trace,
    Debug,
    Info,
    Warn,
    Error,
}

impl Level {
    /// The place of a level in the order of severity.
    pub open spec fn rank(self) -> int {
        match self {
            Level::Trace => 0,
            Level::Debug => 1,
            Level::Info => 2,
            Level::Warn => 3,
            Level::Error => 4,
        }
    }

    /// The level of a syslog severity: 0 to 3 are errors, 4 warnings, 5 and 6
    /// information, anything above debugging.
    pub open spec fn of_syslog(level: int) -> Level {
        if level <= 3 {
            Level::Error
        } else if level == 4 {
            Level::Warn
        } else if level <= 6 {
            Level::Info
        } else {
            Level::Debug
        }
    }

    pub fn from_syslog(level: u8) -> (r: Self)
        ensures
            r == Level::of_syslog(level as int),
    {
        match level {
            0..=3 => Level::Error,
            4 => Level::Warn,
            5 | 6 => Level::Info,
            _ => Level::Debug,
        }
    }

    /// The level that a name in capitals spells.
    pub open spec fn of_capitals(name: Seq<char>) -> Option<Level> {
        if name == "ERROR"@ {
            Some(Level::Error)
        } else if name == "WARN"@ || name == "WARNING"@ {
            Some(Level::Warn)
        } else if name == "INFO"@ {
            Some(Level::Info)
        } else if name == "DEBUG"@ {
            Some(Level::Debug)
        } else if name == "TRACE"@ {
            Some(Level::Trace)
        } else {
            None
        }
    }

    /// The level that a name in any case spells.
    pub open spec fn of_name(name: Seq<char>) -> Option<Level> {
        Level::of_capitals(uppercase_text(name))
    }

    pub fn from_name(name: &str) -> (r: Option<Self>)
        ensures
            r == Level::of_name(name@),
            is_ascii_chars(name@) ==> r == Level::of_capitals(
                name@.map_values(|c: char| ascii_upper(c)),
            ),
    {
        Level::from_capitals(&text::uppercase(name))
    }

    /// The level that a name in capitals spells.
    pub fn from_capitals(name: &str) -> (r: Option<Self>)
        ensures
            r == Level::of_capitals(name@),
    {
        if text::same(name, "ERROR") {
            Some(Level::Error)
        } else if text::same(name, "WARN") || text::same(name, "WARNING") {
            Some(Level::Warn)
        } else if text::same(name, "INFO") {
            Some(Level::Info)
        } else if text::same(name, "DEBUG") {
            Some(Level::Debug)
        } else if text::same(name, "TRACE") {
            Some(Level::Trace)
        } else {
            None
        }
    }

    /// The name of a level.
    pub open spec fn name(self) -> Seq<char> {
        match self {
            Level::Error => "ERROR"@,
            Level::Warn => "WARN"@,
            Level::Info => "INFO"@,
            Level::Debug => "DEBUG"@,
            Level::Trace => "TRACE"@,
        }
    }

    pub fn as_str(&self) -> (r: &'static str)
        ensures
            r@ == self.name(),
    {
        match self {
            Level::Error => "ERROR",
            Level::Warn => "WARN",
            Level::Info => "INFO",
            Level::Debug => "DEBUG",
            Level::Trace => "TRACE",
        }
    }
}

/// A level's name, in capitals as it is or in small letters, is read back as
/// the level.
pub proof fn level_names_read_back(level: Level)
    ensures
        is_ascii_chars(level.name()),
        Level::of_capitals(level.name().map_values(|c: char| ascii_upper(c))) == Some(level),
        Level::of_capitals(
            level.name().map_values(|c: char| ascii_lower(c)).map_values(|c: char| ascii_upper(c)),
        ) == Some(level),
{
    reveal_strlit("ERROR");
    reveal_strlit("WARN");
    reveal_strlit("WARNING");
    reveal_strlit("INFO");
    reveal_strlit("DEBUG");
    reveal_strlit("TRACE");
    assert("ERROR"@[0] == 'E' && "WARN"@[0] == 'W' && "INFO"@[0] == 'I' && "DEBUG"@[0] == 'D'
        && "TRACE"@[0] == 'T' && "WARNING"@.len() == 7);
    let name = level.name();
    let upper = name.map_values(|c: char| ascii_upper(c));
    let back = name.map_values(|c: char| ascii_lower(c)).map_values(|c: char| ascii_upper(c));
    assert(upper =~= name);
    assert(back =~= name);
}

/// Why a stored record was stored.
#[derive(Debug, Clone, Copy, PartialEq, Eq, Structural)]
pub enum LogSource {
    Filter,
    PreTrigger,
    PostTrigger,
}

/// A log record.
#[derive(Debug)]
pub struct LogEntry {
    pub seq: u64,
    pub timestamp: Timestamp,
    pub level: Level,
    pub message: String,
    pub full_message: Option<String>,
    pub host: String,
    pub facility: Option<String>,
    pub file: Option<String>,
    pub line: Option<u32>,
    pub additional_fields: TextMap<Json>,
    pub trace_id: Option<u128>,
    pub span_id: Option<u64>,
    pub matched_filters: Vec<String>,
    pub source: LogSource,
}

/// What a [`LogEntry`] records.
#[verifier::ext_equal]
pub struct LogEntryView {
    pub seq: u64,
    pub timestamp: Timestamp,
    pub level: Level,
    pub message: Seq<char>,
    pub full_message: Option<Seq<char>>,
    pub host: Seq<char>,
    pub facility: Option<Seq<char>>,
    pub file: Option<Seq<char>>,
    pub line: Option<u32>,
    pub additional_fields: Map<Seq<char>, JsonView>,
    pub trace_id: Option<u128>,
    pub span_id: Option<u64>,
    pub matched_filters: Seq<Seq<char>>,
    pub source: LogSource,
}

/// The values of a map, each by what it stands for.
pub open spec fn field_views(m: Map<Seq<char>, Json>) -> Map<Seq<char>, JsonView> {
    m.map_values(|v: Json| v@)
}

impl View for LogEntry {
    type V = LogEntryView;

    open spec fn view(&self) -> LogEntryView {
        LogEntryView {
            seq: self.seq,
            timestamp: self.timestamp,
            level: self.level,
            message: self.message@,
            full_message: optional_text(self.full_message),
            host: self.host@,
            facility: optional_text(self.facility),
            file: optional_text(self.file),
            line: self.line,
            additional_fields: field_views(self.additional_fields@),
            trace_id: self.trace_id,
            span_id: self.span_id,
            matched_filters: text_views(self.matched_filters@),
            source: self.source,
        }
    }
}

/// A copy of the additional fields.
pub fn clone_fields(from: &TextMap<Json>) -> (r: TextMap<Json>)
    requires
        from.wf(),
    ensures
        r.wf(),
        field_views(r@) == field_views(from@),
{
    let ghost pairs = from.pairs();
    let mut r: TextMap<Json> = TextMap::new();
    let mut i: usize = 0;
    proof {
        lemma_prefix_map(pairs, 0);
        assert(field_views(r@) =~= field_views(pairs_map(pairs.take(0))));
    }
    while i < from.len()
        invariant
            from.wf(),
            pairs == from.pairs(),
            r.wf(),
            i <= pairs.len(),
            field_views(r@) == field_views(pairs_map(pairs.take(i as int))),
        decreases pairs.len() - i,
    {
        let ghost before = r@;
        let key = from.key_at(i).clone();
        let value = from.value_at(i).clone();
        let ghost k = key@;
        let ghost v = value@;
        r.insert(key, value);
        proof {
            lemma_prefix_map(pairs, i + 1);
            assert(field_views(r@) =~= field_views(before).insert(k, v));
            assert(field_views(
                pairs_map(pairs.take(i as int)).insert(pairs[i as int].0, pairs[i as int].1),
            ) =~= field_views(pairs_map(pairs.take(i as int))).insert(k, v));
        }
        i += 1;
    }
    proof {
        assert(pairs.take(pairs.len() as int) =~= pairs);
    }
    r
}

impl LogEntry {
    /// No additional field occurs twice.
    pub open spec fn wf(&self) -> bool {
        self.additional_fields.wf()
    }

    /// Construct a record that holds a level and a message only.
    ///
    /// `seq` is 0: it is assigned when the record passes through the pipeline.
    pub fn synthetic(level: Level, message: &str, now: Timestamp) -> (r: Self)
        ensures
            r.wf(),
            r@ == (LogEntryView {
                seq: 0,
                timestamp: now,
                level,
                message: message@,
                full_message: None,
                host: "test"@,
                facility: None,
                file: None,
                line: None,
                additional_fields: Map::empty(),
                trace_id: None,
                span_id: None,
                matched_filters: seq![],
                source: LogSource::Filter,
            }),
    {
        let r = LogEntry {
            seq: 0,
            timestamp: now,
            level,
            message: text::owned(message),
            full_message: None,
            host: text::owned("test"),
            facility: None,
            file: None,
            line: None,
            additional_fields: TextMap::new(),
            trace_id: None,
            span_id: None,
            matched_filters: Vec::new(),
            source: LogSource::Filter,
        };
        proof {
            assert(r@.additional_fields =~= Map::empty());
            assert(r@.matched_filters =~= seq![]);
        }
        r
    }

    pub fn clone(&self) -> (r: Self)
        requires
            self.wf(),
        ensures
            r.wf(),
            r@ == self@,
    {
        LogEntry {
            seq: self.seq,
            timestamp: self.timestamp,
            level: self.level,
            message: self.message.clone(),
            full_message: text::clone_optional(&self.full_message),
            host: self.host.clone(),
            facility: text::clone_optional(&self.facility),
            file: text::clone_optional(&self.file),
            line: self.line,
            additional_fields: clone_fields(&self.additional_fields),
            trace_id: self.trace_id,
            span_id: self.span_id,
            matched_filters: clone_texts(&self.matched_filters),
            source: self.source,
        }
    }
}

/// Why a GELF message is refused.
#[derive(Debug)]
pub enum GelfParseError {
    InvalidJson(serde_json::Error),
    MissingField(&'static str),
}

/// What a [`GelfParseError`] says of a value: the field that it lacks.
pub open spec fn missing_field(v: JsonView) -> Option<Seq<char>> {
    if !(v is Object) {
        Some("root object"@)
    } else if v.text_at("host"@) is None {
        Some("host"@)
    } else if v.text_at("short_message"@) is None {
        Some("short_message"@)
    } else {
        None
    }
}

/// The level of a GELF message: the additional field `_level`, where it names
/// one, or else the syslog severity, 6 where there is none.
pub open spec fn gelf_level(v: JsonView) -> Level {
    let named = match v.text_at("_level"@) {
        Some(name) => Level::of_name(name),
        None => None,
    };
    match named {
        Some(level) => level,
        None => Level::of_syslog(
            match v.u64_at("level"@) {
                Some(n) => (n % 256) as int,
                None => 6,
            },
        ),
    }
}

/// Whether a member of a message is an additional field: its key begins with
/// `_`, and it is not the level.
pub open spec fn is_additional(key: Seq<char>) -> bool {
    key.len() > 0 && key[0] == '_' && key != "_level"@
}

/// The additional fields of a message, without the `_` of their keys.
pub open spec fn additional_fields(members: Seq<(Seq<char>, JsonView)>) -> Map<Seq<char>, JsonView>
    decreases members.len(),
{
    if members.len() == 0 {
        Map::empty()
    } else {
        let before = additional_fields(members.drop_last());
        let (key, value) = members.last();
        if is_additional(key) {
            before.insert(key.skip(1), value)
        } else {
            before
        }
    }
}

/// The hexadecimal number at `key`.
pub open spec fn hex_field(fields: Map<Seq<char>, JsonView>, key: Seq<char>, max: nat) -> Option<
    nat,
> {
    if fields.contains_key(key) {
        match fields[key].as_str() {
            Some(s) => hex_up_to(s, max),
            None => None,
        }
    } else {
        None
    }
}

/// The record that a GELF message makes, at the time `now`.
pub open spec fn gelf_entry(v: JsonView, seq: u64, now: Timestamp) -> LogEntryView {
    let fields = additional_fields(v->Object_0);
    LogEntryView {
        seq,
        timestamp: now,
        level: gelf_level(v),
        message: v.text_at("short_message"@)->0,
        full_message: v.text_at("full_message"@),
        host: v.text_at("host"@)->0,
        facility: v.text_at("facility"@),
        file: v.text_at("file"@),
        line: match v.u64_at("line"@) {
            Some(n) => Some((n % 0x1_0000_0000) as u32),
            None => None,
        },
        additional_fields: fields.remove("trace_id"@).remove("span_id"@),
        trace_id: match hex_field(fields, "trace_id"@, u128::MAX as nat) {
            Some(n) => Some(n as u128),
            None => None,
        },
        span_id: match hex_field(fields, "span_id"@, u64::MAX as nat) {
            Some(n) => Some(n as u64),
            None => None,
        },
        matched_filters: seq![],
        source: LogSource::Filter,
    }
}

/// When the sender says that a message was sent, in seconds since the Unix
/// epoch, as the text of a float.
pub open spec fn sender_seconds(v: JsonView) -> Option<Seq<char>> {
    match v.get("timestamp"@) {
        Some(JsonView::Number(n)) => Some(n.float_json),
        _ => None,
    }
}

fn owned_at(v: &Json, key: &str) -> (r: Option<String>)
    ensures
        optional_text(r) == v@.text_at(key@),
{
    match v.text_at(key) {
        Some(s) => Some(text::owned(s)),
        None => None,
    }
}

/// A record from a GELF message that has been parsed, stamped `now`, and the
/// seconds that the sender put on it, where it did.
pub fn read_gelf(v: &Json, seq: u64, now: Timestamp) -> (r: Result<
    (LogEntry, Option<String>),
    &'static str,
>)
    ensures
        match r {
            Ok((entry, sent)) => {
                &&& missing_field(v@) is None
                &&& entry.wf()
                &&& entry@ == gelf_entry(v@, seq, now)
                &&& optional_text(sent) == sender_seconds(v@)
            },
            Err(field) => missing_field(v@) == Some(field@),
        },
{
    let members = match v {
        Json::Object(members) => members,
        _ => return Err("root object"),
    };
    let ghost all = v@->Object_0;
    let host = match v.text_at("host") {
        Some(s) => text::owned(s),
        None => return Err("host"),
    };
    let message = match v.text_at("short_message") {
        Some(s) => text::owned(s),
        None => return Err("short_message"),
    };
    // tracing-gelf sets `_level` for TRACE
    let named = match v.text_at("_level") {
        Some(name) => Level::from_name(name),
        None => None,
    };
    let level = match named {
        Some(level) => level,
        None => {
            let severity: u64 = match v.u64_at("level") {
                Some(n) => n % 256,
                None => 6,
            };
            Level::from_syslog(severity as u8)
        },
    };
    let line: Option<u32> = match v.u64_at("line") {
        Some(n) => Some((n % 0x1_0000_0000) as u32),
        None => None,
    };
    // Additional fields (keys starting with _), without the _ prefix
    let mut fields: TextMap<Json> = TextMap::new();
    let mut i: usize = 0;
    proof {
        assert(field_views(fields@) =~= Map::empty());
        assert(all.take(0) =~= seq![]);
    }
    while i < members.len()
        invariant
            v@ == JsonView::Object(all),
            *v == Json::Object(*members),
            i <= members@.len(),
            fields.wf(),
            field_views(fields@) == additional_fields(all.take(i as int)),
        decreases members@.len() - i,
    {
        let m = &members[i];
        proof {
            assert(all.take(i + 1).drop_last() =~= all.take(i as int));
            assert(all.take(i + 1).last() == (m.0@, m.1@));
        }
        let key = text::chars_of(&m.0);
        if key.len() > 0 && key[0] == '_' && !text::same(&m.0, "_level") {
            let ghost before = fields@;
            let name = text::text_between(&key, 1, key.len());
            let value = m.1.clone();
            let ghost name_view = name@;
            let ghost value_view = value@;
            proof {
                assert(name_view =~= m.0@.skip(1));
            }
            fields.insert(name, value);
            proof {
                assert(field_views(fields@) =~= field_views(before).insert(name_view, value_view));
            }
        }
        i += 1;
    }
    proof {
        assert(all.take(all.len() as int) =~= all);
    }
    let ghost collected = field_views(fields@);
    let trace_id = match fields.remove("trace_id") {
        Some(t) => match t.as_str() {
            Some(s) => text::parse_hex_u128(s),
            None => None,
        },
        None => None,
    };
    proof {
        reveal_strlit("trace_id");
        reveal_strlit("span_id");
        assert("trace_id"@.len() != "span_id"@.len());
        assert(field_views(fields@) =~= collected.remove("trace_id"@));
    }
    let span_id = match fields.remove("span_id") {
        Some(t) => match t.as_str() {
            Some(s) => text::parse_hex_u64(s),
            None => None,
        },
        None => None,
    };
    proof {
        assert(field_views(fields@) =~= collected.remove("trace_id"@).remove("span_id"@));
    }
    let sent = match v.get("timestamp") {
        Some(t) => match t.as_number() {
            Some(n) => Some(n.float_json.clone()),
            None => None,
        },
        None => None,
    };
    let entry = LogEntry {
        seq,
        timestamp: now,
        level,
        message,
        full_message: owned_at(v, "full_message"),
        host,
        facility: owned_at(v, "facility"),
        file: owned_at(v, "file"),
        line,
        additional_fields: fields,
        trace_id,
        span_id,
        matched_filters: Vec::new(),
        source: LogSource::Filter,
    };
    proof {
        assert(entry@.matched_filters =~= seq![]);
    }
    Ok((entry, sent))
}

/// A record from the bytes of a GELF message, stamped `now`, and the seconds
/// that the sender put on it, where it did.
pub fn parse_gelf_message(bytes: &[u8], seq: u64, now: Timestamp) -> (r: Result<
    (LogEntry, Option<String>),
    GelfParseError,
>)
    ensures
        match r {
            Ok((entry, sent)) => {
                &&& json_parsed(bytes@) is Some
                &&& missing_field(json_parsed(bytes@)->0) is None
                &&& entry.wf()
                &&& entry@ == gelf_entry(json_parsed(bytes@)->0, seq, now)
                &&& optional_text(sent) == sender_seconds(json_parsed(bytes@)->0)
            },
            Err(GelfParseError::InvalidJson(_)) => json_parsed(bytes@) is None,
            Err(GelfParseError::MissingField(field)) => json_parsed(bytes@) is Some
                && missing_field(json_parsed(bytes@)->0) == Some(field@),
        },
{
    match Json::parse(bytes) {
        Err(e) => Err(GelfParseError::InvalidJson(e)),
        Ok(v) => match read_gelf(&v, seq, now) {
            Ok(read) => Ok(read),
            Err(field) => Err(GelfParseError::MissingField(field)),
        },
    }
}

/// A message never keeps the ids that it links by among its other fields.
pub proof fn linking_ids_are_taken_out(v: JsonView, seq: u64, now: Timestamp)
    ensures
        !gelf_entry(v, seq, now).additional_fields.contains_key("trace_id"@),
        !gelf_entry(v, seq, now).additional_fields.contains_key("span_id"@),
{
}

/// The level of a record is that of the syslog severity of its message, unless the
/// message names one: errors are 0 to 3, a warning is 4, information 5 and 6, and
/// debugging all above. A message that gives no severity is information.
pub proof fn severities_become_levels(v: JsonView, seq: u64, now: Timestamp)
    requires
        v.text_at("_level"@) is None,
    ensures
        ({
            let level = gelf_entry(v, seq, now).level;
            match v.u64_at("level"@) {
                None => level == Level::Info,
                Some(n) => {
                    &&& n % 256 <= 3 <==> level == Level::Error
                    &&& n % 256 == 4 <==> level == Level::Warn
                    &&& n % 256 == 5 || n % 256 == 6 <==> level == Level::Info
                    &&& n % 256 >= 7 <==> level == Level::Debug
                },
            }
        }),
{
}

/// A severity is no more severe than a lower one, and warnings and errors are told
/// from the rest: the numbers up to 4 and no others are warnings or worse.
pub proof fn lower_severities_are_no_milder(a: int, b: int)
    requires
        a <= b,
    ensures
        Level::of_syslog(b).rank() <= Level::of_syslog(a).rank(),
        a <= 4 <==> Level::of_syslog(a).rank() >= 3,
        a <= 3 <==> Level::of_syslog(a).rank() >= 4,
        a <= 6 <==> Level::of_syslog(a).rank() >= 2,
        Level::of_syslog(a) != Level::Trace,
{
}

/// The names of the levels, in capitals, and no other texts are read as levels;
/// a warning has two.
pub proof fn levels_are_read_by_name(name: Seq<char>)
    ensures
        Level::of_capitals(name) == Some(Level::Error) <==> name == "ERROR"@,
        Level::of_capitals(name) == Some(Level::Warn) <==> name == "WARN"@ || name == "WARNING"@,
        Level::of_capitals(name) == Some(Level::Info) <==> name == "INFO"@,
        Level::of_capitals(name) == Some(Level::Debug) <==> name == "DEBUG"@,
        Level::of_capitals(name) == Some(Level::Trace) <==> name == "TRACE"@,
{
    reveal_strlit("ERROR");
    reveal_strlit("WARN");
    reveal_strlit("WARNING");
    reveal_strlit("INFO");
    reveal_strlit("DEBUG");
    reveal_strlit("TRACE");
    assert("ERROR"@[0] == 'E' && "WARN"@[0] == 'W' && "WARNING"@[0] == 'W' && "INFO"@[0] == 'I'
        && "DEBUG"@[0] == 'D' && "TRACE"@[0] == 'T');
}

/// A level that a message names stands, whatever its severity; a name that is none
/// leaves it to the severity.
pub proof fn named_levels_come_first(v: JsonView, w: JsonView, seq: u64, now: Timestamp)
    requires
        v.text_at("_level"@) is Some,
        w.text_at("_level"@) is None,
        w.u64_at("level"@) == v.u64_at("level"@),
    ensures
        ({
            let name = uppercase_text(v.text_at("_level"@)->0);
            let level = gelf_entry(v, seq, now).level;
            &&& name == "ERROR"@ ==> level == Level::Error
            &&& name == "WARN"@ || name == "WARNING"@ ==> level == Level::Warn
            &&& name == "INFO"@ ==> level == Level::Info
            &&& name == "DEBUG"@ ==> level == Level::Debug
            &&& name == "TRACE"@ ==> level == Level::Trace
            &&& name != "ERROR"@ && name != "WARN"@ && name != "WARNING"@ && name != "INFO"@ && name
                != "DEBUG"@ && name != "TRACE"@ ==> level == gelf_entry(w, seq, now).level
        }),
{
    levels_are_read_by_name(uppercase_text(v.text_at("_level"@)->0));
}

/// A record holds the members of its message under their own names, and what the
/// message does not give is left out. It has the seq and the time it was given, and
/// counts as stored for no trigger.
pub proof fn members_are_kept_under_their_names(v: JsonView, seq: u64, now: Timestamp)
    requires
        missing_field(v) is None,
    ensures
        ({
            let e = gelf_entry(v, seq, now);
            &&& e.seq == seq
            &&& e.timestamp == now
            &&& v.get("host"@) == Some(JsonView::Text(e.host))
            &&& v.get("short_message"@) == Some(JsonView::Text(e.message))
            &&& v.get("full_message"@) matches Some(JsonView::Text(t)) ==> e.full_message == Some(t)
            &&& v.get("facility"@) matches Some(JsonView::Text(t)) ==> e.facility == Some(t)
            &&& v.get("file"@) matches Some(JsonView::Text(t)) ==> e.file == Some(t)
            &&& e.full_message is Some ==> v.get("full_message"@) is Some
            &&& e.facility is Some ==> v.get("facility"@) is Some
            &&& e.file is Some ==> v.get("file"@) is Some
            &&& e.line is Some <==> v.u64_at("line"@) is Some
            &&& v.u64_at("line"@) matches Some(n) ==> (n <= u32::MAX ==> e.line == Some(n as u32))
            &&& e.matched_filters.len() == 0
            &&& e.source == LogSource::Filter
        }),
{
}

/// A message is refused exactly where it is no object or lacks a text for its host
/// or for its short message, and the first of these is named.
pub proof fn refusals_name_what_is_missing(v: JsonView)
    ensures
        missing_field(v) is None <==> v is Object && v.text_at("host"@) is Some && v.text_at(
            "short_message"@,
        ) is Some,
        !(v is Object) ==> missing_field(v) == Some("root object"@),
        v is Object && v.text_at("host"@) is None ==> missing_field(v) == Some("host"@),
        v is Object && v.text_at("host"@) is Some && v.text_at("short_message"@) is None
            ==> missing_field(v) == Some("short_message"@),
{
}

/// Each member whose name begins with `_` is an additional field under the rest of
/// its name, but for the level and the ids; where a name comes twice, the last stands.
pub proof fn underscored_members_are_additional_fields(
    v: JsonView,
    seq: u64,
    now: Timestamp,
    i: int,
)
    requires
        v is Object,
        0 <= i < v->Object_0.len(),
        v->Object_0[i].0.len() > 0,
        v->Object_0[i].0[0] == '_',
        v->Object_0[i].0 != "_level"@,
        v->Object_0[i].0.skip(1) != "trace_id"@,
        v->Object_0[i].0.skip(1) != "span_id"@,
        forall|j: int|
            i < j < v->Object_0.len() ==> (#[trigger] v->Object_0[j]).0 != v->Object_0[i].0,
    ensures
        gelf_entry(v, seq, now).additional_fields.contains_key(v->Object_0[i].0.skip(1)),
        gelf_entry(v, seq, now).additional_fields[v->Object_0[i].0.skip(1)] == v->Object_0[i].1,
{
    lemma_additional_member(v->Object_0, i);
}

proof fn lemma_additional_member(members: Seq<(Seq<char>, JsonView)>, i: int)
    requires
        0 <= i < members.len(),
        members[i].0.len() > 0,
        members[i].0[0] == '_',
        members[i].0 != "_level"@,
        forall|j: int| i < j < members.len() ==> (#[trigger] members[j]).0 != members[i].0,
    ensures
        additional_fields(members).contains_key(members[i].0.skip(1)),
        additional_fields(members)[members[i].0.skip(1)] == members[i].1,
    decreases members.len(),
{
    let front = members.drop_last();
    if i < front.len() {
        assert(front[i] == members[i]);
        assert forall|j: int| i < j < front.len() implies (#[trigger] front[j]).0 != front[i].0 by {
            assert(front[j] == members[j]);
        }
        lemma_additional_member(front, i);
        let key = members[members.len() - 1].0;
        assert(key != members[i].0);
        if is_additional(key) && key.skip(1) == members[i].0.skip(1) {
            assert(key =~= seq!['_'] + key.skip(1));
            assert(members[i].0 =~= seq!['_'] + members[i].0.skip(1));
        }
    }
}

/// Every additional field is a member of the message whose name is that of the field
/// behind a `_`.
pub proof fn additional_fields_are_underscored_members(
    v: JsonView,
    seq: u64,
    now: Timestamp,
    key: Seq<char>,
)
    requires
        v is Object,
        gelf_entry(v, seq, now).additional_fields.contains_key(key),
    ensures
        key != "trace_id"@,
        key != "span_id"@,
        seq!['_'] + key != "_level"@,
        exists|i: int|
            {
                &&& 0 <= i < v->Object_0.len()
                &&& (#[trigger] v->Object_0[i]).0 == seq!['_'] + key
                &&& v->Object_0[i].1 == gelf_entry(v, seq, now).additional_fields[key]
            },
{
    lemma_fields_have_members(v->Object_0, key);
}

proof fn lemma_fields_have_members(members: Seq<(Seq<char>, JsonView)>, key: Seq<char>)
    requires
        additional_fields(members).contains_key(key),
    ensures
        seq!['_'] + key != "_level"@,
        exists|i: int|
            {
                &&& 0 <= i < members.len()
                &&& (#[trigger] members[i]).0 == seq!['_'] + key
                &&& members[i].1 == additional_fields(members)[key]
            },
    decreases members.len(),
{
    if members.len() > 0 {
        let n = members.len() - 1;
        let front = members.drop_last();
        if is_additional(members[n].0) && members[n].0.skip(1) == key {
            assert(members[n].0 =~= seq!['_'] + key);
        } else {
            lemma_fields_have_members(front, key);
            let i = choose|i: int|
                {
                    &&& 0 <= i < front.len()
                    &&& (#[trigger] front[i]).0 == seq!['_'] + key
                    &&& front[i].1 == additional_fields(front)[key]
                };
            assert(members[i] == front[i]);
        }
    }
}

/// The ids by which a record is linked are the hexadecimal texts of `_trace_id` and
/// `_span_id`, each as its own.
pub proof fn linking_ids_are_read_from_their_members(
    v: JsonView,
    seq: u64,
    now: Timestamp,
    i: int,
)
    requires
        v is Object,
        0 <= i < v->Object_0.len(),
        v->Object_0[i].1 is Text,
        forall|j: int|
            i < j < v->Object_0.len() ==> (#[trigger] v->Object_0[j]).0 != v->Object_0[i].0,
    ensures
        v->Object_0[i].0 == "_trace_id"@ ==> gelf_entry(v, seq, now).trace_id == (match hex_up_to(
            v->Object_0[i].1->Text_0,
            u128::MAX as nat,
        ) {
            Some(n) => Some(n as u128),
            None => None,
        }),
        v->Object_0[i].0 == "_span_id"@ ==> gelf_entry(v, seq, now).span_id == (match hex_up_to(
            v->Object_0[i].1->Text_0,
            u64::MAX as nat,
        ) {
            Some(n) => Some(n as u64),
            None => None,
        }),
{
    reveal_strlit("_trace_id");
    reveal_strlit("_span_id");
    reveal_strlit("_level");
    reveal_strlit("trace_id");
    reveal_strlit("span_id");
    assert("_trace_id"@.skip(1) =~= "trace_id"@);
    assert("_span_id"@.skip(1) =~= "span_id"@);
    assert("_level"@.len() == 6 && "_trace_id"@.len() == 9 && "_span_id"@.len() == 8);
    if v->Object_0[i].0 == "_trace_id"@ || v->Object_0[i].0 == "_span_id"@ {
        lemma_additional_member(v->Object_0, i);
    }
}

/// When a message was sent is what its `timestamp` says, where that is a number.
pub proof fn senders_say_when_they_sent(v: JsonView)
    ensures
        v.get("timestamp"@) matches Some(JsonView::Number(n)) ==> sender_seconds(v) == Some(
            n.float_json,
        ),
        v.get("timestamp"@) is None ==> sender_seconds(v) is None,
        v.get("timestamp"@) matches Some(JsonView::Text(_)) ==> sender_seconds(v) is None,
{
}

/// A severity of 0 to 3 is an error, 4 a warning, 5 and 6 are information, and what is
/// above is for debugging.
pub proof fn severities_have_their_level(severity: u8, level: Level)
    requires
        call_ensures(Level::from_syslog, (severity,), level),
    ensures
        level == Level::Error <==> severity <= 3,
        level == Level::Warn <==> severity == 4,
        level == Level::Info <==> severity == 5 || severity == 6,
        level == Level::Debug <==> severity >= 7,
{
}

} // verus!
