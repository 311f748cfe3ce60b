//! `logs.profile`: how records distribute along one named axis.
//!
//! The sibling of `fields`: that one says which dimensions exist, this one says
//! how the population spreads along the one you pick.
//!
//! **The reserved buckets are the point, not the edge case.** A breakdown that
//! silently dropped the records lacking its axis would disagree with `matched`
//! on almost every call, so `__absent__` is a first-class row. `__overflow__`
//! is its sibling for the cardinality cap; "lacked the field" and "folded past
//! the cap" are different facts.
use crate::clock::Timestamp;
use crate::gelf::message::{Level, LogEntry, LogEntryView};
use crate::json::{json_text, Json, JsonView};
use crate::ranking::{at_most, place, ranked, ranking_orders_and_keeps, views, Ranked};
use crate::rejection;
use crate::store::memory::{all_wf, entry_list};
use crate::text;
use crate::text::{decimal_text, hex_text, optional_text, text_views};
use crate::text_map::{
    lemma_precedes_irreflexive, lemma_precedes_total, lemma_precedes_transitive, precedes,
    text_before,
};
use vstd::prelude::*;

verus! {

broadcast use vstd::string::group_string_axioms;

/// The label of the bucket of records that lack the axis.
pub const ABSENT_LABEL: &'static str = "__absent__";

/// The label of the bucket that keys fold into past the cap.
pub const OVERFLOW_LABEL: &'static str = "__overflow__";

/// How many distinct values are held for one axis.
pub const DEFAULT_GROUP_VALUE_CAP: usize = 1024;

/// Distinct accumulator KEYS before the fold.
///
/// The cap counts whole keys, not values per member: capping each member
/// independently would bound the table at a power of the cap, which is no
/// bound.
pub const KEY_CAP: usize = 1024;

/// The most tuple members accepted.
pub const MAX_KEYS: usize = 8;

/// Which dimension to group along.
///
/// The arms are exactly the rows `logs.fields` reports, plus `field` for the
/// open set, so that read's output is this one's input with no translation.
#[derive(Debug, Clone, Copy, PartialEq, Eq, Structural)]
pub enum Axis {
    /// `none`: the overall figures, ungrouped.
    Overall,
    Level,
    Message,
    Host,
    Facility,
    File,
    Line,
    TraceId,
    SpanId,
    /// Emitter fields, named by `group_keys`.
    Field,
}

impl Axis {
    /// The name of an axis.
    pub open spec fn name(self) -> Seq<char> {
        match self {
            Axis::Overall => "none"@,
            Axis::Level => "level"@,
            Axis::Message => "message"@,
            Axis::Host => "host"@,
            Axis::Facility => "facility"@,
            Axis::File => "file"@,
            Axis::Line => "line"@,
            Axis::TraceId => "trace_id"@,
            Axis::SpanId => "span_id"@,
            Axis::Field => "field"@,
        }
    }

    pub fn as_str(self) -> (r: &'static str)
        ensures
            r@ == self.name(),
    {
        match self {
            Axis::Overall => "none",
            Axis::Level => "level",
            Axis::Message => "message",
            Axis::Host => "host",
            Axis::Facility => "facility",
            Axis::File => "file",
            Axis::Line => "line",
            Axis::TraceId => "trace_id",
            Axis::SpanId => "span_id",
            Axis::Field => "field",
        }
    }

    /// Every axis, in the order in which a rejection names them.
    pub open spec fn every() -> Seq<Axis> {
        seq![
            Axis::Overall,
            Axis::Level,
            Axis::Message,
            Axis::Host,
            Axis::Facility,
            Axis::File,
            Axis::Line,
            Axis::TraceId,
            Axis::SpanId,
            Axis::Field,
        ]
    }

    /// Every axis, in the order in which a rejection names them.
    pub fn all() -> (r: Vec<Axis>)
        ensures
            r@ == Axis::every(),
    {
        let r: Vec<Axis> = vec![
            Axis::Overall,
            Axis::Level,
            Axis::Message,
            Axis::Host,
            Axis::Facility,
            Axis::File,
            Axis::Line,
            Axis::TraceId,
            Axis::SpanId,
            Axis::Field,
        ];
        proof {
            assert(r@ =~= Axis::every());
        }
        r
    }

    /// What a rejection should say it expected. Derived, never written out, so
    /// that it cannot leave out a spelling that is accepted.
    pub fn accepted() -> (r: String)
        ensures
            r@ == rejection::one_of_text(Axis::every().map_values(|a: Axis| a.name())),
    {
        let axes = Axis::all();
        let mut names: Vec<&str> = Vec::new();
        let mut i: usize = 0;
        while i < axes.len()
            invariant
                i <= axes@.len(),
                names@.len() == i,
                forall|k: int| 0 <= k < i ==> (#[trigger] names@[k])@ == axes@[k].name(),
            decreases axes@.len() - i,
        {
            names.push(axes[i].as_str());
            i += 1;
        }
        proof {
            assert(rejection::texts(names@) =~= Axis::every().map_values(|a: Axis| a.name()));
        }
        rejection::one_of(names.as_slice())
    }

    /// The axis that a name stands for. The empty name is `none`.
    pub open spec fn of_name(s: Seq<char>) -> Option<Axis> {
        if s == "none"@ || s.len() == 0 {
            Some(Axis::Overall)
        } else if s == "level"@ {
            Some(Axis::Level)
        } else if s == "message"@ {
            Some(Axis::Message)
        } else if s == "host"@ {
            Some(Axis::Host)
        } else if s == "facility"@ {
            Some(Axis::Facility)
        } else if s == "file"@ {
            Some(Axis::File)
        } else if s == "line"@ {
            Some(Axis::Line)
        } else if s == "trace_id"@ {
            Some(Axis::TraceId)
        } else if s == "span_id"@ {
            Some(Axis::SpanId)
        } else if s == "field"@ {
            Some(Axis::Field)
        } else {
            None
        }
    }

    pub fn parse(s: &str) -> (r: Option<Self>)
        ensures
            r == Axis::of_name(s@),
    {
        if text::same(s, "none") || s.is_empty() {
            Some(Axis::Overall)
        } else if text::same(s, "level") {
            Some(Axis::Level)
        } else if text::same(s, "message") {
            Some(Axis::Message)
        } else if text::same(s, "host") {
            Some(Axis::Host)
        } else if text::same(s, "facility") {
            Some(Axis::Facility)
        } else if text::same(s, "file") {
            Some(Axis::File)
        } else if text::same(s, "line") {
            Some(Axis::Line)
        } else if text::same(s, "trace_id") {
            Some(Axis::TraceId)
        } else if text::same(s, "span_id") {
            Some(Axis::SpanId)
        } else if text::same(s, "field") {
            Some(Axis::Field)
        } else {
            None
        }
    }
}

/// Every axis is among those that a rejection names, and its name parses back
/// to it.
pub proof fn every_axis_parses_back(axis: Axis)
    ensures
        Axis::every().contains(axis),
        Axis::of_name(axis.name()) == Some(axis),
{
    reveal_strlit("none");
    reveal_strlit("level");
    reveal_strlit("message");
    reveal_strlit("host");
    reveal_strlit("facility");
    reveal_strlit("file");
    reveal_strlit("line");
    reveal_strlit("trace_id");
    reveal_strlit("span_id");
    reveal_strlit("field");
    let all = Axis::every();
    assert(all[0] == Axis::Overall && all[1] == Axis::Level && all[2] == Axis::Message && all[3]
        == Axis::Host && all[4] == Axis::Facility && all[5] == Axis::File && all[6] == Axis::Line
        && all[7] == Axis::TraceId && all[8] == Axis::SpanId && all[9] == Axis::Field);
    assert("none"@[0] == 'n' && "level"@[0] == 'l' && "message"@[0] == 'm' && "host"@[0] == 'h'
        && "facility"@[1] == 'a' && "file"@[3] == 'e' && "line"@[0] == 'l' && "trace_id"@[0] == 't'
        && "span_id"@[0] == 's' && "field"@[0] == 'f' && "file"@[0] == 'f' && "line"@.len() == 4
        && "facility"@.len() == 8);
}

/// How many records there are of each level.
#[derive(Debug, Clone, Copy, PartialEq, Eq, Structural)]
pub struct LevelCounts {
    pub trace: usize,
    pub debug: usize,
    pub info: usize,
    pub warn: usize,
    pub error: usize,
}

impl Default for LevelCounts {
    fn default() -> (r: Self)
        ensures
            r == LevelCounts::none(),
    {
        LevelCounts { trace: 0, debug: 0, info: 0, warn: 0, error: 0 }
    }
}

impl LevelCounts {
    /// No records at all.
    pub open spec fn none() -> LevelCounts {
        LevelCounts { trace: 0, debug: 0, info: 0, warn: 0, error: 0 }
    }

    /// How many records there are of one level.
    pub open spec fn of(self, level: Level) -> int {
        match level {
            Level::Trace => self.trace as int,
            Level::Debug => self.debug as int,
            Level::Info => self.info as int,
            Level::Warn => self.warn as int,
            Level::Error => self.error as int,
        }
    }

    /// How many records there are.
    pub open spec fn sum(self) -> int {
        self.trace + self.debug + self.info + self.warn + self.error
    }

    /// One record of a level more.
    pub open spec fn bumped(self, level: Level) -> LevelCounts {
        match level {
            Level::Trace => LevelCounts { trace: (self.trace + 1) as usize, ..self },
            Level::Debug => LevelCounts { debug: (self.debug + 1) as usize, ..self },
            Level::Info => LevelCounts { info: (self.info + 1) as usize, ..self },
            Level::Warn => LevelCounts { warn: (self.warn + 1) as usize, ..self },
            Level::Error => LevelCounts { error: (self.error + 1) as usize, ..self },
        }
    }

    pub fn total(&self) -> (n: usize)
        requires
            self.sum() <= usize::MAX,
        ensures
            n == self.sum(),
    {
        self.trace + self.debug + self.info + self.warn + self.error
    }
}

fn bump(levels: &mut LevelCounts, level: Level)
    requires
        old(levels).sum() < usize::MAX,
    ensures
        *final(levels) == old(levels).bumped(level),
        final(levels).sum() == old(levels).sum() + 1,
{
    match level {
        Level::Trace => {
            levels.trace += 1;
        },
        Level::Debug => {
            levels.debug += 1;
        },
        Level::Info => {
            levels.info += 1;
        },
        Level::Warn => {
            levels.warn += 1;
        },
        Level::Error => {
            levels.error += 1;
        },
    }
}

/// One member of a group key.
///
/// **Typed rather than a text, and that is load-bearing.** An emitter field
/// valued literally `"__absent__"` would otherwise share a key with the
/// reserved bucket, merge with the genuinely-absent records, and make the
/// denominator lie.
#[derive(Debug, PartialEq, Eq)]
pub enum MemberKey {
    Value(String),
    Absent,
    Overflow,
}

/// What a [`MemberKey`] stands for.
#[verifier::ext_equal]
pub enum MemberView {
    Value(Seq<char>),
    Absent,
    Overflow,
}

impl View for MemberKey {
    type V = MemberView;

    open spec fn view(&self) -> MemberView {
        match self {
            MemberKey::Value(s) => MemberView::Value(s@),
            MemberKey::Absent => MemberView::Absent,
            MemberKey::Overflow => MemberView::Overflow,
        }
    }
}

/// The views of a key's members.
pub open spec fn member_views(key: Seq<MemberKey>) -> Seq<MemberView> {
    key.map_values(|m: MemberKey| m@)
}

/// The label of one member.
pub open spec fn member_label(m: MemberView) -> Seq<char> {
    match m {
        MemberView::Value(s) => s,
        MemberView::Absent => ABSENT_LABEL@,
        MemberView::Overflow => OVERFLOW_LABEL@,
    }
}

impl MemberKey {
    fn label(&self) -> (r: &str)
        ensures
            r@ == member_label(self@),
    {
        match self {
            MemberKey::Value(s) => s.as_str(),
            MemberKey::Absent => ABSENT_LABEL,
            MemberKey::Overflow => OVERFLOW_LABEL,
        }
    }

    fn same(&self, other: &MemberKey) -> (r: bool)
        ensures
            r == (self@ == other@),
    {
        match (self, other) {
            (MemberKey::Value(a), MemberKey::Value(b)) => text::same_owned(a, b),
            (MemberKey::Absent, MemberKey::Absent) => true,
            (MemberKey::Overflow, MemberKey::Overflow) => true,
            _ => false,
        }
    }
}

/// Which reserved bucket a whole key is, if any.
#[derive(Debug, Clone, Copy, PartialEq, Eq, Structural)]
pub enum Reserved {
    Absent,
    Overflow,
}

/// Which reserved bucket a whole key is, if any.
///
/// A *partially* absent tuple is a real row about real records that carry one
/// key and lack the other. Only an all-reserved key is a reserved bucket.
pub open spec fn reserved_of(key: Seq<MemberView>) -> Option<Reserved> {
    if forall|i: int| 0 <= i < key.len() ==> #[trigger] key[i] == MemberView::Absent {
        Some(Reserved::Absent)
    } else if forall|i: int| 0 <= i < key.len() ==> #[trigger] key[i] == MemberView::Overflow {
        Some(Reserved::Overflow)
    } else {
        None
    }
}

fn reserved_kind(key: &Vec<MemberKey>) -> (r: Option<Reserved>)
    ensures
        r == reserved_of(member_views(key@)),
{
    let ghost views = member_views(key@);
    let mut absent = true;
    let mut overflow = true;
    let mut i: usize = 0;
    while i < key.len()
        invariant
            views == member_views(key@),
            i <= key@.len(),
            absent == (forall|k: int| 0 <= k < i ==> #[trigger] views[k] == MemberView::Absent),
            overflow == (forall|k: int| 0 <= k < i ==> #[trigger] views[k] == MemberView::Overflow),
        decreases key@.len() - i,
    {
        proof {
            assert(views[i as int] == key@[i as int]@);
        }
        match &key[i] {
            MemberKey::Absent => {
                overflow = false;
            },
            MemberKey::Overflow => {
                absent = false;
            },
            MemberKey::Value(_) => {
                absent = false;
                overflow = false;
            },
        }
        i += 1;
    }
    if absent {
        Some(Reserved::Absent)
    } else if overflow {
        Some(Reserved::Overflow)
    } else {
        None
    }
}

/// The label of a key: its members' labels with ` / ` between them, so that a
/// single key reads as the value itself.
pub open spec fn key_label(key: Seq<MemberView>) -> Seq<char>
    decreases key.len(),
{
    if key.len() == 0 {
        seq![]
    } else if key.len() == 1 {
        member_label(key[0])
    } else {
        key_label(key.drop_last()) + seq![' ', '/', ' '] + member_label(key.last())
    }
}

fn label(key: &Vec<MemberKey>) -> (r: String)
    ensures
        r@ == key_label(member_views(key@)),
{
    let ghost views = member_views(key@);
    let mut out = String::new();
    let mut i: usize = 0;
    proof {
        assert(views.take(0) =~= seq![]);
        reveal_strlit(" / ");
        assert(" / "@ =~= seq![' ', '/', ' ']);
    }
    while i < key.len()
        invariant
            views == member_views(key@),
            i <= key@.len(),
            out@ == key_label(views.take(i as int)),
            " / "@ == seq![' ', '/', ' '],
        decreases key@.len() - i,
    {
        proof {
            assert(views.take(i + 1).drop_last() =~= views.take(i as int));
            assert(views.take(i + 1).last() == key@[i as int]@);
        }
        if i > 0 {
            out.append(" / ");
        }
        out.append(key[i].label());
        proof {
            if i == 0 {
                assert(out@ =~= member_label(key@[0]@));
            }
        }
        i += 1;
    }
    proof {
        assert(views.take(views.len() as int) =~= views);
    }
    out
}

fn same_key(a: &Vec<MemberKey>, b: &Vec<MemberKey>) -> (r: bool)
    ensures
        r == (member_views(a@) == member_views(b@)),
{
    if a.len() != b.len() {
        proof {
            assert(member_views(a@).len() != member_views(b@).len());
        }
        return false;
    }
    let mut i: usize = 0;
    while i < a.len()
        invariant
            a@.len() == b@.len(),
            i <= a@.len(),
            forall|k: int| 0 <= k < i ==> (#[trigger] a@[k])@ == b@[k]@,
        decreases a@.len() - i,
    {
        if !a[i].same(&b[i]) {
            proof {
                assert(member_views(a@)[i as int] != member_views(b@)[i as int]);
            }
            return false;
        }
        i += 1;
    }
    proof {
        assert(member_views(a@) =~= member_views(b@));
    }
    true
}

/// One group. Both ends of the row are kept whole.
#[derive(Debug, PartialEq, Eq)]
pub struct LogGroup {
    pub key: String,
    pub count: usize,
    pub levels: LevelCounts,
    pub first_seq: u64,
    pub first_time: Timestamp,
    pub first_exemplar: String,
    pub last_seq: u64,
    pub last_time: Timestamp,
    pub last_exemplar: String,
}

/// What a [`LogGroup`] reports.
#[verifier::ext_equal]
pub struct GroupView {
    pub key: Seq<char>,
    pub acc: AccView,
}

/// What is accumulated of the records of one key.
#[verifier::ext_equal]
pub struct AccView {
    pub count: usize,
    pub levels: LevelCounts,
    pub first_seq: u64,
    pub first_time: Timestamp,
    pub first_exemplar: Seq<char>,
    pub last_seq: u64,
    pub last_time: Timestamp,
    pub last_exemplar: Seq<char>,
}

impl View for LogGroup {
    type V = GroupView;

    open spec fn view(&self) -> GroupView {
        GroupView {
            key: self.key@,
            acc: AccView {
                count: self.count,
                levels: self.levels,
                first_seq: self.first_seq,
                first_time: self.first_time,
                first_exemplar: self.first_exemplar@,
                last_seq: self.last_seq,
                last_time: self.last_time,
                last_exemplar: self.last_exemplar@,
            },
        }
    }
}

impl AccView {
    /// One record.
    pub open spec fn of(e: LogEntryView) -> AccView {
        AccView {
            count: 1,
            levels: LevelCounts::none().bumped(e.level),
            first_seq: e.seq,
            first_time: e.timestamp,
            first_exemplar: e.message,
            last_seq: e.seq,
            last_time: e.timestamp,
            last_exemplar: e.message,
        }
    }

    /// One record more. Ends are chosen by `seq`, never by visit order, and the
    /// time and exemplar move with the seq, so a row never describes two
    /// records at once.
    pub open spec fn observed(self, e: LogEntryView) -> AccView {
        let earlier = e.seq < self.first_seq;
        let later = e.seq > self.last_seq;
        AccView {
            count: (self.count + 1) as usize,
            levels: self.levels.bumped(e.level),
            first_seq: if earlier { e.seq } else { self.first_seq },
            first_time: if earlier { e.timestamp } else { self.first_time },
            first_exemplar: if earlier { e.message } else { self.first_exemplar },
            last_seq: if later { e.seq } else { self.last_seq },
            last_time: if later { e.timestamp } else { self.last_time },
            last_exemplar: if later { e.message } else { self.last_exemplar },
        }
    }
}

/// A key and what is accumulated of its records.
#[derive(Debug)]
struct Row {
    key: Vec<MemberKey>,
    count: usize,
    levels: LevelCounts,
    first_seq: u64,
    first_time: Timestamp,
    first_exemplar: String,
    last_seq: u64,
    last_time: Timestamp,
    last_exemplar: String,
}

/// What the table holds of one key.
#[verifier::ext_equal]
pub struct RowView {
    pub key: Seq<MemberView>,
    pub acc: AccView,
}

impl View for Row {
    type V = RowView;

    closed spec fn view(&self) -> RowView {
        RowView {
            key: member_views(self.key@),
            acc: AccView {
                count: self.count,
                levels: self.levels,
                first_seq: self.first_seq,
                first_time: self.first_time,
                first_exemplar: self.first_exemplar@,
                last_seq: self.last_seq,
                last_time: self.last_time,
                last_exemplar: self.last_exemplar@,
            },
        }
    }
}

impl Row {
    fn new(key: Vec<MemberKey>, e: &LogEntry) -> (r: Self)
        ensures
            r@ == (RowView { key: member_views(key@), acc: AccView::of(e@) }),
    {
        let mut levels = LevelCounts::default();
        bump(&mut levels, e.level);
        Row {
            key,
            count: 1,
            levels,
            first_seq: e.seq,
            first_time: e.timestamp,
            first_exemplar: e.message.clone(),
            last_seq: e.seq,
            last_time: e.timestamp,
            last_exemplar: e.message.clone(),
        }
    }

    fn observe(&mut self, e: &LogEntry)
        requires
            old(self)@.acc.count < usize::MAX,
            old(self)@.acc.levels.sum() < usize::MAX,
        ensures
            final(self)@ == (RowView { acc: old(self)@.acc.observed(e@), ..old(self)@ }),
    {
        self.count += 1;
        bump(&mut self.levels, e.level);
        if e.seq < self.first_seq {
            self.first_seq = e.seq;
            self.first_time = e.timestamp;
            self.first_exemplar = e.message.clone();
        }
        if e.seq > self.last_seq {
            self.last_seq = e.seq;
            self.last_time = e.timestamp;
            self.last_exemplar = e.message.clone();
        }
    }

    fn group(&self) -> (r: LogGroup)
        ensures
            r@ == group_of(self@),
    {
        LogGroup {
            key: label(&self.key),
            count: self.count,
            levels: self.levels,
            first_seq: self.first_seq,
            first_time: self.first_time,
            first_exemplar: self.first_exemplar.clone(),
            last_seq: self.last_seq,
            last_time: self.last_time,
            last_exemplar: self.last_exemplar.clone(),
        }
    }
}

/// A row of the table as it is reported.
pub open spec fn group_of(row: RowView) -> GroupView {
    GroupView { key: key_label(row.key), acc: row.acc }
}

/// The views of the table's rows.
closed spec fn row_views(rows: Seq<Row>) -> Seq<RowView> {
    rows.map_values(|r: Row| r@)
}

/// Where the row of a key stands, or the number of rows where it has none.
pub open spec fn row_at(rows: Seq<RowView>, key: Seq<MemberView>) -> int
    decreases rows.len(),
{
    if rows.len() == 0 || rows[0].key == key {
        0
    } else {
        1 + row_at(rows.skip(1), key)
    }
}

/// The table after a record of a key.
pub open spec fn counted(rows: Seq<RowView>, key: Seq<MemberView>, e: LogEntryView) -> Seq<RowView> {
    let i = row_at(rows, key);
    if i < rows.len() {
        rows.update(i, RowView { key, acc: rows[i].acc.observed(e) })
    } else {
        rows.push(RowView { key, acc: AccView::of(e) })
    }
}

/// Whether a JSON value can be a group key. Null, arrays and objects cannot.
pub open spec fn is_dimension_view(v: JsonView) -> bool {
    v is Text || v is Number || v is Bool
}

fn is_dimension(v: &Json) -> (r: bool)
    ensures
        r == is_dimension_view(v@),
{
    match v {
        Json::Text(_) => true,
        Json::Number(_) => true,
        Json::Bool(_) => true,
        _ => false,
    }
}

/// A value the way a filter spells it: a text as it is, anything else as JSON.
pub open spec fn rendered(v: JsonView) -> Seq<char> {
    match v {
        JsonView::Text(s) => s,
        _ => json_text(v),
    }
}

/// Render a value the way a filter spells it, so that what is reported is a
/// text the caller can paste into a filter and have it match.
pub fn render(v: &Json) -> (r: String)
    ensures
        r@ == rendered(v@),
{
    match v {
        Json::Text(s) => s.clone(),
        other => other.to_text(),
    }
}

/// What a record holds in a built-in field: levels by their names, ids padded
/// with zeros to their full width, and an empty host as none at all.
pub open spec fn axis_text(axis: Axis, e: LogEntryView) -> Option<Seq<char>> {
    match axis {
        Axis::Level => Some(e.level.name()),
        Axis::Message => Some(e.message),
        Axis::Host => if e.host.len() == 0 {
            None
        } else {
            Some(e.host)
        },
        Axis::Facility => e.facility,
        Axis::File => e.file,
        Axis::Line => match e.line {
            Some(n) => Some(decimal_text(n as nat)),
            None => None,
        },
        Axis::TraceId => match e.trace_id {
            Some(t) => Some(hex_text(t as nat, 32)),
            None => None,
        },
        Axis::SpanId => match e.span_id {
            Some(s) => Some(hex_text(s as nat, 16)),
            None => None,
        },
        Axis::Overall => None,
        Axis::Field => None,
    }
}

/// What a record holds in a built-in field, spelled as every read spells it.
pub fn axis_value(axis: Axis, e: &LogEntry) -> (r: Option<String>)
    ensures
        optional_text(r) == axis_text(axis, e@),
{
    match axis {
        Axis::Level => Some(text::owned(e.level.as_str())),
        Axis::Message => Some(e.message.clone()),
        Axis::Host => if e.host.as_str().is_empty() {
            None
        } else {
            Some(e.host.clone())
        },
        Axis::Facility => text::clone_optional(&e.facility),
        Axis::File => text::clone_optional(&e.file),
        Axis::Line => match e.line {
            Some(n) => Some(text::decimal(n as u64)),
            None => None,
        },
        Axis::TraceId => match e.trace_id {
            Some(t) => Some(text::hex(t, 32)),
            None => None,
        },
        Axis::SpanId => match e.span_id {
            Some(s) => Some(text::hex(s as u128, 16)),
            None => None,
        },
        Axis::Overall => None,
        Axis::Field => None,
    }
}

/// What a record holds of one member of the axis.
#[verifier::ext_equal]
pub enum Extracted {
    Value(Seq<char>),
    /// The field is not there at all.
    Missing,
    /// Present, but null, an array or an object, which is no dimension.
    Structured,
}

/// What a record holds of the `i`th member of an axis.
pub open spec fn extracted(axis: Axis, keys: Seq<Seq<char>>, e: LogEntryView, i: int) -> Extracted {
    if axis == Axis::Field {
        if i >= keys.len() || !e.additional_fields.contains_key(keys[i]) {
            Extracted::Missing
        } else if is_dimension_view(e.additional_fields[keys[i]]) {
            Extracted::Value(rendered(e.additional_fields[keys[i]]))
        } else {
            Extracted::Structured
        }
    } else {
        match axis_text(axis, e) {
            Some(s) => Extracted::Value(s),
            None => Extracted::Missing,
        }
    }
}

/// The member of a key that an extraction makes.
pub open spec fn member_of(x: Extracted) -> MemberView {
    match x {
        Extracted::Value(s) => MemberView::Value(s),
        _ => MemberView::Absent,
    }
}

/// How many members a key has.
pub open spec fn member_count(axis: Axis, keys: nat) -> nat {
    if axis == Axis::Field && keys > 1 {
        keys
    } else {
        1
    }
}

/// The key of a record.
pub open spec fn record_key(axis: Axis, keys: Seq<Seq<char>>, e: LogEntryView) -> Seq<MemberView> {
    Seq::new(
        member_count(axis, keys.len()),
        |i: int| member_of(extracted(axis, keys, e, i)),
    )
}

/// A key that is all overflow.
pub open spec fn overflow_key(n: nat) -> Seq<MemberView> {
    Seq::new(n, |i: int| MemberView::Overflow)
}

/// The ends of the matched population.
#[derive(Debug, Clone, Copy, PartialEq, Eq, Structural)]
pub struct Bounds {
    pub first_seq: Option<u64>,
    pub last_seq: Option<u64>,
    pub first_time: Option<Timestamp>,
    pub last_time: Option<Timestamp>,
}

impl Bounds {
    /// The ends of nothing.
    pub open spec fn none() -> Bounds {
        Bounds { first_seq: None, last_seq: None, first_time: None, last_time: None }
    }

    /// The ends once a record is in.
    pub open spec fn with(self, e: LogEntryView) -> Bounds {
        let first = self.first_seq is None || e.seq < self.first_seq->0;
        let last = self.last_seq is None || e.seq > self.last_seq->0;
        Bounds {
            first_seq: if first { Some(e.seq) } else { self.first_seq },
            first_time: if first { Some(e.timestamp) } else { self.first_time },
            last_seq: if last { Some(e.seq) } else { self.last_seq },
            last_time: if last { Some(e.timestamp) } else { self.last_time },
        }
    }
}

impl Default for Bounds {
    fn default() -> (r: Self)
        ensures
            r == Bounds::none(),
    {
        Bounds { first_seq: None, last_seq: None, first_time: None, last_time: None }
    }
}

/// Folds matched records into group rows without keeping them.
#[derive(Debug)]
pub struct GroupMap {
    axis: Axis,
    keys: Vec<String>,
    rows: Vec<Row>,
    capped: bool,
    /// Per MEMBER, counted on the raw walk before any folding: an overflow fold
    /// replaces the whole key, and would take the evidence with it.
    present: Vec<usize>,
    /// Per member: records carrying the field with a value that cannot be a
    /// dimension. They land in `__absent__` and are announced.
    structured: Vec<usize>,
    /// Records carrying an ADDITIONAL field of the same name as a built-in
    /// axis: the remedy's candidate. Only meaningful off the `field` axis.
    alt: usize,
    levels: LevelCounts,
    matched: usize,
    bounds: Bounds,
}

/// What a [`GroupMap`] has gathered.
#[verifier::ext_equal]
pub struct GroupMapView {
    pub axis: Axis,
    pub keys: Seq<Seq<char>>,
    /// One row for each key, in the order in which the keys first came up.
    pub rows: Seq<RowView>,
    pub capped: bool,
    pub present: Seq<usize>,
    pub structured: Seq<usize>,
    pub alt: usize,
    pub levels: LevelCounts,
    pub matched: usize,
    pub bounds: Bounds,
}

impl View for GroupMap {
    type V = GroupMapView;

    closed spec fn view(&self) -> GroupMapView {
        GroupMapView {
            axis: self.axis,
            keys: text_views(self.keys@),
            rows: row_views(self.rows@),
            capped: self.capped,
            present: self.present@,
            structured: self.structured@,
            alt: self.alt,
            levels: self.levels,
            matched: self.matched,
            bounds: self.bounds,
        }
    }
}

impl GroupMapView {
    /// Nothing gathered yet.
    pub open spec fn fresh(axis: Axis, keys: Seq<Seq<char>>) -> GroupMapView {
        let members = member_count(axis, keys.len());
        GroupMapView {
            axis,
            keys,
            rows: seq![],
            capped: false,
            present: Seq::new(members, |i: int| 0usize),
            structured: Seq::new(members, |i: int| 0usize),
            alt: 0,
            levels: LevelCounts::none(),
            matched: 0,
            bounds: Bounds::none(),
        }
    }

    /// The key that a record is counted under: past the cap a NEW key folds
    /// whole, unless it is a reserved bucket; keys already known keep counting.
    pub open spec fn counting_key(self, e: LogEntryView) -> Seq<MemberView> {
        let key = record_key(self.axis, self.keys, e);
        if self.folds(e) {
            overflow_key(key.len())
        } else {
            key
        }
    }

    /// Whether a record's key is folded.
    pub open spec fn folds(self, e: LogEntryView) -> bool {
        let key = record_key(self.axis, self.keys, e);
        reserved_of(key) is None && row_at(self.rows, key) == self.rows.len() && self.rows.len()
            >= KEY_CAP
    }

    /// The map after one record more.
    pub open spec fn observed(self, e: LogEntryView) -> GroupMapView {
        let counted_in = GroupMapView {
            matched: (self.matched + 1) as usize,
            levels: self.levels.bumped(e.level),
            bounds: self.bounds.with(e),
            ..self
        };
        if self.axis == Axis::Overall {
            counted_in
        } else {
            GroupMapView {
                rows: counted(self.rows, self.counting_key(e), e),
                capped: self.capped || self.folds(e),
                present: Seq::new(
                    self.present.len(),
                    |i: int|
                        if extracted(self.axis, self.keys, e, i) is Value {
                            (self.present[i] + 1) as usize
                        } else {
                            self.present[i]
                        },
                ),
                structured: Seq::new(
                    self.structured.len(),
                    |i: int|
                        if extracted(self.axis, self.keys, e, i) is Structured {
                            (self.structured[i] + 1) as usize
                        } else {
                            self.structured[i]
                        },
                ),
                alt: if self.axis != Axis::Field && e.additional_fields.contains_key(
                    self.axis.name(),
                ) {
                    (self.alt + 1) as usize
                } else {
                    self.alt
                },
                ..counted_in
            }
        }
    }

    /// What holds of a map whatever it has seen: no count exceeds the number of
    /// records, and there is one counter for each member.
    pub open spec fn sound(self) -> bool {
        &&& self.present.len() == member_count(self.axis, self.keys.len())
        &&& self.structured.len() == self.present.len()
        &&& self.levels.sum() == self.matched
        &&& self.alt <= self.matched
        &&& forall|i: int|
            0 <= i < self.present.len() ==> (#[trigger] self.present[i]) <= self.matched
        &&& forall|i: int|
            0 <= i < self.structured.len() ==> (#[trigger] self.structured[i]) <= self.matched
        &&& forall|i: int|
            0 <= i < self.rows.len() ==> (#[trigger] self.rows[i]).acc.count <= self.matched
                && self.rows[i].acc.levels.sum() == self.rows[i].acc.count
    }
}

impl GroupMap {
    /// No count exceeds the number of records, and there is one counter for
    /// each member.
    pub open spec fn wf(&self) -> bool {
        self@.sound()
    }

    pub fn new(axis: Axis, keys: Vec<String>) -> (r: Self)
        ensures
            r.wf(),
            r@ == GroupMapView::fresh(axis, text_views(keys@)),
    {
        let members: usize = if axis == Axis::Field && keys.len() > 1 {
            keys.len()
        } else {
            1
        };
        let present = zeros(members);
        let structured = zeros(members);
        let r = GroupMap {
            axis,
            keys,
            rows: Vec::new(),
            capped: false,
            present,
            structured,
            alt: 0,
            levels: LevelCounts::default(),
            matched: 0,
            bounds: Bounds::default(),
        };
        proof {
            assert(r@.rows =~= seq![]);
            assert(r@.present =~= Seq::new(members as nat, |i: int| 0usize));
            assert(r@.structured =~= Seq::new(members as nat, |i: int| 0usize));
        }
        r
    }

    /// Extract one member's value, spelled exactly as `logs.fields` spells it.
    fn member(&self, e: &LogEntry, i: usize) -> (r: (MemberKey, bool))
        requires
            e.wf(),
        ensures
            r.0@ == member_of(extracted(self@.axis, self@.keys, e@, i as int)),
            r.1 == (extracted(self@.axis, self@.keys, e@, i as int) is Structured),
    {
        if self.axis == Axis::Field {
            if i >= self.keys.len() {
                return (MemberKey::Absent, false);
            }
            proof {
                assert(self@.keys[i as int] == self.keys@[i as int]@);
            }
            match e.additional_fields.get(&self.keys[i]) {
                None => (MemberKey::Absent, false),
                Some(v) => {
                    if is_dimension(v) {
                        (MemberKey::Value(render(v)), false)
                    } else {
                        (MemberKey::Absent, true)
                    }
                },
            }
        } else {
            match axis_value(self.axis, e) {
                Some(s) => (MemberKey::Value(s), false),
                None => (MemberKey::Absent, false),
            }
        }
    }

    fn find(&self, key: &Vec<MemberKey>) -> (r: usize)
        ensures
            r == row_at(self@.rows, member_views(key@)),
            r <= self@.rows.len(),
            self@.rows.len() == self.rows@.len(),
    {
        let ghost all = self@.rows;
        let ghost k = member_views(key@);
        let mut i: usize = 0;
        proof {
            assert(all.skip(0) =~= all);
        }
        while i < self.rows.len()
            invariant
                all == self@.rows,
                k == member_views(key@),
                i <= self.rows@.len(),
                row_at(all, k) == i + row_at(all.skip(i as int), k),
            decreases self.rows@.len() - i,
        {
            proof {
                assert(all.skip(i as int)[0] == self.rows@[i as int]@);
                assert(all.skip(i as int).skip(1) =~= all.skip(i + 1));
            }
            if same_key(&self.rows[i].key, key) {
                return i;
            }
            i += 1;
        }
        i
    }

    pub fn observe(&mut self, e: &LogEntry)
        requires
            old(self).wf(),
            old(self)@.matched < usize::MAX,
            e.wf(),
        ensures
            final(self).wf(),
            final(self)@ == old(self)@.observed(e@),
    {
        let ghost before = self@;
        let ghost ev = e@;
        self.matched += 1;
        bump(&mut self.levels, e.level);
        self.widen(e);
        if self.axis == Axis::Overall {
            return;
        }
        // The remedy's candidate: does an ADDITIONAL field of this built-in's
        // name exist?
        if self.axis != Axis::Field && e.additional_fields.get(self.axis.as_str()).is_some() {
            self.alt += 1;
        }
        let members: usize = self.present.len();
        let mut key: Vec<MemberKey> = Vec::new();
        let mut i: usize = 0;
        let ghost mid = self@;
        while i < members
            invariant
                e.wf(),
                e@ == ev,
                members == mid.present.len(),
                before.sound(),
                before.matched < usize::MAX,
                mid == (GroupMapView {
                    matched: mid.matched,
                    levels: mid.levels,
                    bounds: mid.bounds,
                    alt: mid.alt,
                    ..before
                }),
                self@ == (GroupMapView {
                    present: self@.present,
                    structured: self@.structured,
                    ..mid
                }),
                self@.present.len() == members,
                self@.structured.len() == members,
                i <= members,
                key@.len() == i,
                forall|k: int|
                    0 <= k < i ==> (#[trigger] key@[k])@ == member_of(
                        extracted(before.axis, before.keys, ev, k),
                    ),
                forall|k: int|
                    0 <= k < members ==> (#[trigger] self@.present[k]) == if k < i && extracted(
                        before.axis,
                        before.keys,
                        ev,
                        k,
                    ) is Value {
                        (before.present[k] + 1) as usize
                    } else {
                        before.present[k]
                    },
                forall|k: int|
                    0 <= k < members ==> (#[trigger] self@.structured[k]) == if k < i && extracted(
                        before.axis,
                        before.keys,
                        ev,
                        k,
                    ) is Structured {
                        (before.structured[k] + 1) as usize
                    } else {
                        before.structured[k]
                    },
            decreases members - i,
        {
            let (m, structured) = self.member(e, i);
            proof {
                assert(self@.present[i as int] == before.present[i as int]);
                assert(self@.structured[i as int] == before.structured[i as int]);
            }
            match &m {
                MemberKey::Value(_) => {
                    let n: usize = self.present[i];
                    self.present.set(i, n + 1);
                },
                _ => {
                    if structured {
                        let n: usize = self.structured[i];
                        self.structured.set(i, n + 1);
                    }
                },
            }
            key.push(m);
            i += 1;
        }
        let ghost whole = member_views(key@);
        proof {
            assert(whole =~= record_key(before.axis, before.keys, ev));
        }
        // Past the cap a NEW key folds whole; keys already known keep counting,
        // so what is reported stays truthful and the omission is announced.
        //
        // **The reserved buckets are exempt, and that is not a detail.** If
        // `__absent__` were capped, a full table would fold a record lacking
        // the field into `__overflow__`, conflating "lacked the field" with
        // "folded past the cap".
        let mut at: usize = self.find(&key);
        if at == self.rows.len() && self.rows.len() >= KEY_CAP && reserved_kind(&key).is_none() {
            self.capped = true;
            key = all_overflow(key.len());
            proof {
                assert(member_views(key@) =~= overflow_key(whole.len()));
            }
            at = self.find(&key);
        }
        let ghost rows = self@.rows;
        let ghost k = member_views(key@);
        if at < self.rows.len() {
            proof {
                assert(rows[at as int] == self.rows@[at as int]@);
                lemma_row_found(rows, k);
            }
            self.rows[at].observe(e);
            proof {
                assert(self@.rows =~= counted(rows, k, ev));
            }
        } else {
            self.rows.push(Row::new(key, e));
            proof {
                assert(self@.rows =~= counted(rows, k, ev));
            }
        }
        proof {
            let after = before.observed(ev);
            assert(self@.present =~= after.present);
            assert(self@.structured =~= after.structured);
            assert(self@ == after);
            lemma_observed_sound(before, ev);
        }
    }

    fn widen(&mut self, e: &LogEntry)
        ensures
            final(self)@ == (GroupMapView { bounds: old(self)@.bounds.with(e@), ..old(self)@ }),
    {
        let first = match self.bounds.first_seq {
            Some(s) => e.seq < s,
            None => true,
        };
        let last = match self.bounds.last_seq {
            Some(s) => e.seq > s,
            None => true,
        };
        if first {
            self.bounds.first_seq = Some(e.seq);
            self.bounds.first_time = Some(e.timestamp);
        }
        if last {
            self.bounds.last_seq = Some(e.seq);
            self.bounds.last_time = Some(e.timestamp);
        }
    }

    pub fn matched(&self) -> (r: usize)
        ensures
            r == self@.matched,
    {
        self.matched
    }

    pub fn levels(&self) -> (r: LevelCounts)
        ensures
            r == self@.levels,
    {
        self.levels
    }

    pub fn bounds(&self) -> (r: Bounds)
        ensures
            r == self@.bounds,
    {
        self.bounds
    }

    pub fn cardinality_capped(&self) -> (r: bool)
        ensures
            r == self@.capped,
    {
        self.capped
    }
}

fn zeros(n: usize) -> (r: Vec<usize>)
    ensures
        r@ == Seq::new(n as nat, |i: int| 0usize),
{
    let mut r: Vec<usize> = Vec::new();
    let mut i: usize = 0;
    while i < n
        invariant
            i <= n,
            r@ == Seq::new(i as nat, |k: int| 0usize),
        decreases n - i,
    {
        r.push(0);
        i += 1;
    }
    r
}

fn all_overflow(n: usize) -> (r: Vec<MemberKey>)
    ensures
        r@.len() == n,
        forall|i: int| 0 <= i < n ==> (#[trigger] r@[i])@ == MemberView::Overflow,
{
    let mut r: Vec<MemberKey> = Vec::new();
    let mut i: usize = 0;
    while i < n
        invariant
            i <= n,
            r@.len() == i,
            forall|k: int| 0 <= k < i ==> (#[trigger] r@[k])@ == MemberView::Overflow,
        decreases n - i,
    {
        r.push(MemberKey::Overflow);
        i += 1;
    }
    r
}

proof fn lemma_row_found(rows: Seq<RowView>, key: Seq<MemberView>)
    ensures
        0 <= row_at(rows, key) <= rows.len(),
        row_at(rows, key) < rows.len() ==> rows[row_at(rows, key)].key == key,
    decreases rows.len(),
{
    if rows.len() > 0 && rows[0].key != key {
        lemma_row_found(rows.skip(1), key);
    }
}

proof fn lemma_observed_sound(m: GroupMapView, e: LogEntryView)
    requires
        m.sound(),
        m.matched < usize::MAX,
    ensures
        m.observed(e).sound(),
{
    let after = m.observed(e);
    if m.axis != Axis::Overall {
        let key = m.counting_key(e);
        lemma_row_found(m.rows, key);
        let at = row_at(m.rows, key);
        assert forall|i: int| 0 <= i < after.rows.len() implies (#[trigger] after.rows[i]).acc.count
            <= after.matched && after.rows[i].acc.levels.sum() == after.rows[i].acc.count by {
            if i < m.rows.len() {
                assert(m.rows[i].acc.count <= m.matched);
            }
        }
    }
}

/// What a read leaves out or lumps together, and what would help.
#[derive(Debug, PartialEq, Eq)]
pub struct Suppressed {
    pub field: String,
    pub reason: String,
    /// The call that works, where there is one.
    pub remedy: Option<Remedy>,
}

/// An additional field that holds what a built-in one does not.
#[derive(Debug, PartialEq, Eq)]
pub struct Remedy {
    pub name: String,
    /// How many of the matched records carry it.
    pub covering: usize,
    pub matched: usize,
}

/// What a [`Suppressed`] says.
#[verifier::ext_equal]
pub struct SuppressedView {
    pub field: Seq<char>,
    pub reason: Seq<char>,
    pub remedy: Option<RemedyView>,
}

/// What a [`Remedy`] says.
#[verifier::ext_equal]
pub struct RemedyView {
    pub name: Seq<char>,
    pub covering: usize,
    pub matched: usize,
}

impl View for Remedy {
    type V = RemedyView;

    open spec fn view(&self) -> RemedyView {
        RemedyView { name: self.name@, covering: self.covering, matched: self.matched }
    }
}

impl Remedy {
    /// The remedy as it is shown, with the coverage in per cent to two places.
    pub fn to_text(&self, percent: &str) -> (r: String)
        ensures
            r@ == "an additional field named `"@ + self@.name + "` covers "@ + percent@
                + "% — use group_by=\"field\", group_keys=[\""@ + self@.name + "\"]"@,
    {
        let head = text::join3("an additional field named `", &self.name, "` covers ");
        let call = text::join3(&head, percent, "% — use group_by=\"field\", group_keys=[\"");
        text::join3(&call, &self.name, "\"]")
    }
}

impl View for Suppressed {
    type V = SuppressedView;

    open spec fn view(&self) -> SuppressedView {
        SuppressedView {
            field: self.field@,
            reason: self.reason@,
            remedy: match self.remedy {
                Some(r) => Some(r@),
                None => None,
            },
        }
    }
}

/// The views of a list of notes.
pub open spec fn suppressed_views(notes: Seq<Suppressed>) -> Seq<SuppressedView> {
    notes.map_values(|n: Suppressed| n@)
}

impl GroupMapView {
    /// The name of a member: the emitter field, or the built-in axis itself.
    pub open spec fn member_name(self, i: int) -> Seq<char> {
        if self.axis == Axis::Field {
            if i < self.keys.len() {
                self.keys[i]
            } else {
                seq![]
            }
        } else {
            self.axis.name()
        }
    }

    /// What is to be said of a member: that no record has it, or that some have
    /// it with a value that is no dimension.
    pub open spec fn note(self, i: int) -> Option<SuppressedView> {
        let name = self.member_name(i);
        let field = "group_keys["@ + decimal_text(i as nat) + "]"@;
        if self.present[i] == 0 {
            Some(
                SuppressedView {
                    field,
                    reason: "`"@ + name + "` did not appear in any of the "@ + decimal_text(
                        self.matched as nat,
                    ) + " matched records, so every row is `"@ + ABSENT_LABEL@ + "`"@,
                    remedy: if i == 0 && self.alt > 0 {
                        Some(RemedyView { name, covering: self.alt, matched: self.matched })
                    } else {
                        None
                    },
                },
            )
        } else if self.structured[i] > 0 {
            Some(
                SuppressedView {
                    field,
                    reason: decimal_text(self.structured[i] as nat) + " of "@ + decimal_text(
                        self.matched as nat,
                    ) + " records carry `"@ + name
                        + "` with a null, array or object value, which is not a dimension; they are counted in `"@
                        + ABSENT_LABEL@ + "`"@,
                    remedy: None,
                },
            )
        } else {
            None
        }
    }

    /// What is to be said of the first `n` members.
    pub open spec fn notes(self, n: int) -> Seq<SuppressedView>
        decreases n,
    {
        if n <= 0 {
            seq![]
        } else {
            match self.note(n - 1) {
                Some(note) => self.notes(n - 1).push(note),
                None => self.notes(n - 1),
            }
        }
    }

    /// What is to be said of the members. An empty population is not the axis's
    /// fault, so nothing is said of it.
    pub open spec fn suppressed(self) -> Seq<SuppressedView> {
        if self.matched == 0 || self.axis == Axis::Overall {
            seq![]
        } else {
            self.notes(self.present.len() as int)
        }
    }
}

/// Whether a group is reported before another: by count, then by key.
pub open spec fn outranks(a: GroupView, b: GroupView) -> bool {
    a.acc.count > b.acc.count || (a.acc.count == b.acc.count && precedes(a.key, b.key))
}

impl Ranked for LogGroup {
    open spec fn above(a: GroupView, b: GroupView) -> bool {
        outranks(a, b)
    }

    proof fn above_is_strict(a: GroupView, b: GroupView) {
        if a.acc.count == b.acc.count && precedes(b.key, a.key) {
            lemma_precedes_transitive(a.key, b.key, a.key);
            lemma_precedes_irreflexive(a.key);
        }
    }

    proof fn not_above_chains(a: GroupView, b: GroupView, c: GroupView) {
        if outranks(a, c) && a.acc.count == c.acc.count && a.acc.count == b.acc.count {
            lemma_precedes_total(b.key, c.key);
            lemma_precedes_total(a.key, b.key);
            if b.key != c.key && a.key != b.key {
                lemma_precedes_transitive(c.key, b.key, a.key);
                lemma_precedes_transitive(a.key, c.key, a.key);
                lemma_precedes_irreflexive(a.key);
            }
        }
    }

    fn is_above(&self, other: &Self) -> (r: bool) {
        self.count > other.count || (self.count == other.count && text_before(
            &self.key,
            &other.key,
        ))
    }
}

/// The real rows as they are reported, in the order of the table.
pub open spec fn real_groups(rows: Seq<RowView>) -> Seq<GroupView>
    decreases rows.len(),
{
    if rows.len() == 0 {
        seq![]
    } else if reserved_of(rows.last().key) is None {
        real_groups(rows.drop_last()).push(group_of(rows.last()))
    } else {
        real_groups(rows.drop_last())
    }
}

/// The reserved rows of one kind as they are reported.
pub open spec fn reserved_groups(rows: Seq<RowView>, kind: Reserved) -> Seq<GroupView>
    decreases rows.len(),
{
    if rows.len() == 0 {
        seq![]
    } else if reserved_of(rows.last().key) == Some(kind) {
        reserved_groups(rows.drop_last(), kind).push(group_of(rows.last()))
    } else {
        reserved_groups(rows.drop_last(), kind)
    }
}

/// What a table is reported as: its `top_n` highest-ranked real rows, then the
/// reserved buckets, `__absent__` first.
pub open spec fn report(rows: Seq<RowView>, top_n: nat) -> Seq<GroupView> {
    at_most(ranked::<LogGroup>(real_groups(rows)), top_n) + reserved_groups(rows, Reserved::Absent)
        + reserved_groups(rows, Reserved::Overflow)
}

impl GroupMap {
    /// Every member absent from the whole matched population, plus every member
    /// whose values were structured. `matched == 0` yields nothing: every axis
    /// is absent from an empty population, and warning about the axis would
    /// misdirect a reader whose actual problem is the filter.
    ///
    /// `remedy` is `None` when nothing would help.
    pub fn suppressed(&self) -> (r: Vec<Suppressed>)
        requires
            self.wf(),
        ensures
            suppressed_views(r@) == self@.suppressed(),
    {
        let ghost m = self@;
        let mut out: Vec<Suppressed> = Vec::new();
        proof {
            assert(suppressed_views(out@) =~= seq![]);
        }
        if self.matched == 0 || self.axis == Axis::Overall {
            return out;
        }
        let mut i: usize = 0;
        while i < self.present.len()
            invariant
                m == self@,
                m.sound(),
                i <= self.present@.len(),
                suppressed_views(out@) == m.notes(i as int),
            decreases self.present@.len() - i,
        {
            let ghost before = out@;
            match self.note(i) {
                Some(note) => {
                    out.push(note);
                    proof {
                        assert(suppressed_views(out@) =~= suppressed_views(before).push(note@));
                    }
                },
                None => {},
            }
            i += 1;
        }
        out
    }

    fn name_of(&self, i: usize) -> (r: String)
        ensures
            r@ == self@.member_name(i as int),
    {
        if self.axis == Axis::Field {
            if i < self.keys.len() {
                proof {
                    assert(self@.keys[i as int] == self.keys@[i as int]@);
                }
                self.keys[i].clone()
            } else {
                String::new()
            }
        } else {
            text::owned(self.axis.as_str())
        }
    }

    fn note(&self, i: usize) -> (r: Option<Suppressed>)
        requires
            self.wf(),
            i < self@.present.len(),
        ensures
            (match r {
                Some(n) => Some(n@),
                None => None,
            }) == self@.note(i as int),
    {
        let name = self.name_of(i);
        let field = text::join3("group_keys[", &text::decimal(i as u64), "]");
        let matched = text::decimal(self.matched as u64);
        if self.present[i] == 0 {
            let head = text::join3("`", &name, "` did not appear in any of the ");
            let mut reason = text::join3(&head, &matched, " matched records, so every row is `");
            reason.append(ABSENT_LABEL);
            reason.append("`");
            let remedy = if i == 0 && self.alt > 0 {
                Some(Remedy { name, covering: self.alt, matched: self.matched })
            } else {
                None
            };
            Some(Suppressed { field, reason, remedy })
        } else if self.structured[i] > 0 {
            let count = text::decimal(self.structured[i] as u64);
            let head = text::join3(&count, " of ", &matched);
            let mut reason = text::join3(&head, " records carry `", &name);
            reason.append(
                "` with a null, array or object value, which is not a dimension; they are counted in `",
            );
            reason.append(ABSENT_LABEL);
            reason.append("`");
            Some(Suppressed { field, reason, remedy: None })
        } else {
            None
        }
    }

    /// Close the map. Returns the rows and the number of groups **before**
    /// truncation.
    ///
    /// Reserved buckets sort last and are **outside the `top_n` budget**, so
    /// asking for 20 rows buys 20 real values.
    pub fn finish(self, top_n: usize) -> (r: (Vec<LogGroup>, usize))
        ensures
            self@.axis == Axis::Overall ==> r.0@.len() == 0 && r.1 == 0,
            self@.axis != Axis::Overall ==> {
                &&& views(r.0@) == report(self@.rows, top_n as nat)
                &&& r.1 == self@.rows.len()
            },
    {
        if self.axis == Axis::Overall {
            return (Vec::new(), 0);
        }
        let ghost all = self@.rows;
        let total: usize = self.rows.len();
        let mut standing: Vec<LogGroup> = Vec::new();
        let mut absent: Vec<LogGroup> = Vec::new();
        let mut overflow: Vec<LogGroup> = Vec::new();
        let mut i: usize = 0;
        proof {
            assert(all.take(0) =~= seq![]);
            assert(views(standing@) =~= seq![]);
            assert(views(absent@) =~= seq![]);
            assert(views(overflow@) =~= seq![]);
        }
        while i < self.rows.len()
            invariant
                all == self@.rows,
                total == self.rows@.len(),
                total == all.len(),
                i <= self.rows@.len(),
                views(standing@) == ranked::<LogGroup>(real_groups(all.take(i as int))),
                views(absent@) == reserved_groups(all.take(i as int), Reserved::Absent),
                views(overflow@) == reserved_groups(all.take(i as int), Reserved::Overflow),
            decreases self.rows@.len() - i,
        {
            let row = &self.rows[i];
            proof {
                assert(all.take(i + 1).drop_last() =~= all.take(i as int));
                assert(all.take(i + 1).last() == row@);
            }
            let group = row.group();
            let ghost gv = group@;
            match reserved_kind(&row.key) {
                Some(Reserved::Absent) => {
                    let ghost before = absent@;
                    absent.push(group);
                    proof {
                        assert(views(absent@) =~= views(before).push(gv));
                    }
                },
                Some(Reserved::Overflow) => {
                    let ghost before = overflow@;
                    overflow.push(group);
                    proof {
                        assert(views(overflow@) =~= views(before).push(gv));
                    }
                },
                None => {
                    place(&mut standing, group);
                    proof {
                        let reals = real_groups(all.take(i + 1));
                        assert(reals.drop_last() =~= real_groups(all.take(i as int)));
                    }
                },
            }
            i += 1;
        }
        proof {
            assert(all.take(all.len() as int) =~= all);
        }
        let ghost before = standing@;
        standing.truncate(top_n);
        proof {
            assert(views(standing@) =~= at_most(views(before), top_n as nat));
        }
        let ghost first = standing@;
        let ghost second = absent@;
        let ghost third = overflow@;
        standing.append(&mut absent);
        standing.append(&mut overflow);
        proof {
            assert(views(standing@) =~= views(first) + views(second) + views(
                third,
            ));
        }
        (standing, total)
    }
}

/// A map that has seen a list of records.
pub open spec fn gathered(axis: Axis, keys: Seq<Seq<char>>, entries: Seq<LogEntryView>) -> GroupMapView
    decreases entries.len(),
{
    if entries.len() == 0 {
        GroupMapView::fresh(axis, keys)
    } else {
        gathered(axis, keys, entries.drop_last()).observed(entries.last())
    }
}

/// Convenience for callers that already hold the records.
pub fn summarize(entries: &Vec<LogEntry>, axis: Axis, keys: Vec<String>, top_n: usize) -> (r: (
    Vec<LogGroup>,
    usize,
))
    requires
        all_wf(entries@),
        entries@.len() < usize::MAX,
    ensures
        axis == Axis::Overall ==> r.0@.len() == 0 && r.1 == 0,
        axis != Axis::Overall ==> {
            let rows = gathered(axis, text_views(keys@), entry_list(entries@)).rows;
            views(r.0@) == report(rows, top_n as nat) && r.1 == rows.len()
        },
{
    let ghost names = text_views(keys@);
    let ghost all = entry_list(entries@);
    let mut map = GroupMap::new(axis, keys);
    let mut i: usize = 0;
    proof {
        assert(all.take(0) =~= seq![]);
    }
    while i < entries.len()
        invariant
            all_wf(entries@),
            entries@.len() < usize::MAX,
            all == entry_list(entries@),
            i <= entries@.len(),
            map.wf(),
            map@ == gathered(axis, names, all.take(i as int)),
            map@.matched == i,
            map@.axis == axis,
        decreases entries@.len() - i,
    {
        proof {
            assert(all.take(i + 1).drop_last() =~= all.take(i as int));
            assert(all.take(i + 1).last() == entries@[i as int]@);
        }
        map.observe(&entries[i]);
        i += 1;
    }
    proof {
        assert(all.take(all.len() as int) =~= all);
    }
    map.finish(top_n)
}

/// The counts of a table's rows, added up.
pub open spec fn total_count(rows: Seq<RowView>) -> int
    decreases rows.len(),
{
    if rows.len() == 0 {
        0
    } else {
        total_count(rows.drop_last()) + rows.last().acc.count
    }
}

/// The counts of one level in a table's rows, added up.
pub open spec fn total_level(rows: Seq<RowView>, level: Level) -> int
    decreases rows.len(),
{
    if rows.len() == 0 {
        0
    } else {
        total_level(rows.drop_last(), level) + rows.last().acc.levels.of(level)
    }
}

/// No key has two rows.
pub open spec fn keys_distinct(rows: Seq<RowView>) -> bool {
    forall|i: int, j: int|
        0 <= i < j < rows.len() ==> (#[trigger] rows[i]).key != (#[trigger] rows[j]).key
}

proof fn lemma_totals_update(rows: Seq<RowView>, at: int, row: RowView, level: Level)
    requires
        0 <= at < rows.len(),
    ensures
        total_count(rows.update(at, row)) == total_count(rows) - rows[at].acc.count + row.acc.count,
        total_level(rows.update(at, row), level) == total_level(rows, level)
            - rows[at].acc.levels.of(level) + row.acc.levels.of(level),
    decreases rows.len(),
{
    let after = rows.update(at, row);
    if at == rows.len() - 1 {
        assert(after.drop_last() =~= rows.drop_last());
    } else {
        lemma_totals_update(rows.drop_last(), at, row, level);
        assert(after.drop_last() =~= rows.drop_last().update(at, row));
    }
}

proof fn lemma_not_found(rows: Seq<RowView>, key: Seq<MemberView>, i: int)
    requires
        row_at(rows, key) == rows.len(),
        0 <= i < rows.len(),
    ensures
        rows[i].key != key,
    decreases rows.len(),
{
    if i > 0 {
        lemma_row_found(rows.skip(1), key);
        lemma_not_found(rows.skip(1), key, i - 1);
    }
}

/// Every matched record lands in exactly one row: no key has two rows, and the
/// rows account for all the records and, level by level, for the levels of the
/// whole population.
pub proof fn rows_account_for_every_record(
    axis: Axis,
    keys: Seq<Seq<char>>,
    entries: Seq<LogEntryView>,
    level: Level,
)
    requires
        axis != Axis::Overall,
        entries.len() < usize::MAX,
    ensures
        ({
            let m = gathered(axis, keys, entries);
            &&& m.sound()
            &&& m.matched == entries.len()
            &&& keys_distinct(m.rows)
            &&& total_count(m.rows) == m.matched
            &&& total_level(m.rows, level) == m.levels.of(level)
        }),
    decreases entries.len(),
{
    if entries.len() > 0 {
        let front = entries.drop_last();
        let e = entries.last();
        rows_account_for_every_record(axis, keys, front, level);
        lemma_gathered_axis(axis, keys, front);
        let m = gathered(axis, keys, front);
        let after = gathered(axis, keys, entries);
        lemma_observed_sound(m, e);
        let key = m.counting_key(e);
        lemma_row_found(m.rows, key);
        let at = row_at(m.rows, key);
        if at < m.rows.len() {
            lemma_totals_update(m.rows, at, after.rows[at], level);
            assert(m.rows[at].acc.count <= m.matched);
            assert(m.rows[at].acc.levels.of(level) <= m.rows[at].acc.levels.sum());
            assert(forall|i: int|
                0 <= i < m.rows.len() ==> (#[trigger] after.rows[i]).key == m.rows[i].key);
        } else {
            assert(after.rows.drop_last() =~= m.rows);
            assert forall|i: int, j: int| 0 <= i < j < after.rows.len() implies (
            #[trigger] after.rows[i]).key != (#[trigger] after.rows[j]).key by {
                assert(after.rows[i] == m.rows[i]);
                if j == m.rows.len() {
                    lemma_not_found(m.rows, key, i);
                } else {
                    assert(after.rows[j] == m.rows[j]);
                }
            }
        }
        assert(m.levels.of(level) <= m.levels.sum());
    }
}

proof fn lemma_gathered_axis(axis: Axis, keys: Seq<Seq<char>>, entries: Seq<LogEntryView>)
    ensures
        gathered(axis, keys, entries).axis == axis,
        gathered(axis, keys, entries).keys == keys,
    decreases entries.len(),
{
    if entries.len() > 0 {
        lemma_gathered_axis(axis, keys, entries.drop_last());
    }
}

/// A field whose value reads `__absent__` or `__overflow__` is not counted with
/// the records that lack the field or were folded: the keys differ though the
/// labels agree.
pub proof fn literal_labels_stay_apart(s: Seq<char>)
    ensures
        reserved_of(seq![MemberView::Value(s)]) is None,
        seq![MemberView::Value(s)] != seq![MemberView::Absent],
        seq![MemberView::Value(s)] != seq![MemberView::Overflow],
{
    let key = seq![MemberView::Value(s)];
    assert(key[0] == MemberView::Value(s));
    assert(seq![MemberView::Absent][0] == MemberView::Absent);
    assert(seq![MemberView::Overflow][0] == MemberView::Overflow);
}

/// The ends of a row are its lowest and highest seqs, whatever the order in
/// which its records came.
pub proof fn row_ends_enclose_every_record(acc: AccView, e: LogEntryView)
    ensures
        acc.observed(e).first_seq <= e.seq <= acc.observed(e).last_seq,
        acc.observed(e).first_seq <= acc.first_seq,
        acc.last_seq <= acc.observed(e).last_seq,
        AccView::of(e).first_seq == e.seq && AccView::of(e).last_seq == e.seq,
{
}

/// Each axis reads the member of a record that it is named after.
pub proof fn axes_read_their_member(e: LogEntryView)
    ensures
        e.level == Level::Error ==> axis_text(Axis::Level, e) == Some("ERROR"@),
        e.level == Level::Warn ==> axis_text(Axis::Level, e) == Some("WARN"@),
        e.level == Level::Info ==> axis_text(Axis::Level, e) == Some("INFO"@),
        e.level == Level::Debug ==> axis_text(Axis::Level, e) == Some("DEBUG"@),
        e.level == Level::Trace ==> axis_text(Axis::Level, e) == Some("TRACE"@),
        axis_text(Axis::Message, e) == Some(e.message),
        axis_text(Axis::Host, e) is None <==> e.host.len() == 0,
        axis_text(Axis::Host, e) matches Some(h) ==> h == e.host,
        axis_text(Axis::Facility, e) == e.facility,
        axis_text(Axis::File, e) == e.file,
        e.line is None ==> axis_text(Axis::Line, e) is None,
        e.line matches Some(n) ==> axis_text(Axis::Line, e) == Some(decimal_text(n as nat)),
        e.trace_id is None ==> axis_text(Axis::TraceId, e) is None,
        e.trace_id matches Some(t) ==> axis_text(Axis::TraceId, e) == Some(hex_text(t as nat, 32)),
        e.span_id is None ==> axis_text(Axis::SpanId, e) is None,
        e.span_id matches Some(s) ==> axis_text(Axis::SpanId, e) == Some(hex_text(s as nat, 16)),
{
}

/// A record counts at its own level and at no other.
pub proof fn records_count_at_their_level(counts: LevelCounts, level: Level, other: Level)
    requires
        counts.sum() < usize::MAX,
    ensures
        counts.bumped(level).of(level) == counts.of(level) + 1,
        other != level ==> counts.bumped(level).of(other) == counts.of(other),
        counts.bumped(level).sum() == counts.sum() + 1,
        LevelCounts::none().of(level) == 0,
        counts.sum() == counts.of(Level::Trace) + counts.of(Level::Debug) + counts.of(Level::Info)
            + counts.of(Level::Warn) + counts.of(Level::Error),
{
}

/// The ends of a row are those of one record each: the first has the lowest seq that was
/// seen, and the last the highest.
pub proof fn row_ends_are_of_one_record(acc: AccView, e: LogEntryView)
    requires
        acc.count < usize::MAX,
    ensures
        ({
            let after = acc.observed(e);
            &&& after.count == acc.count + 1
            &&& e.seq < acc.first_seq ==> after.first_seq == e.seq && after.first_time == e.timestamp
                && after.first_exemplar == e.message
            &&& e.seq >= acc.first_seq ==> after.first_seq == acc.first_seq && after.first_time
                == acc.first_time && after.first_exemplar == acc.first_exemplar
            &&& e.seq > acc.last_seq ==> after.last_seq == e.seq && after.last_time == e.timestamp
                && after.last_exemplar == e.message
            &&& e.seq <= acc.last_seq ==> after.last_seq == acc.last_seq && after.last_time
                == acc.last_time && after.last_exemplar == acc.last_exemplar
            &&& after.levels == acc.levels.bumped(e.level)
        }),
        AccView::of(e).count == 1,
        AccView::of(e).levels.of(e.level) == 1,
        AccView::of(e).first_time == e.timestamp && AccView::of(e).last_time == e.timestamp,
        AccView::of(e).first_exemplar == e.message && AccView::of(e).last_exemplar == e.message,
{
}

/// The bounds of what matched are the lowest and the highest seq, each with the time of its
/// record.
pub proof fn bounds_enclose_what_matched(b: Bounds, e: LogEntryView)
    ensures
        b.with(e).first_seq is Some && b.with(e).first_seq->0 <= e.seq,
        b.with(e).last_seq is Some && b.with(e).last_seq->0 >= e.seq,
        b.first_seq matches Some(s) ==> b.with(e).first_seq->0 <= s,
        b.last_seq matches Some(s) ==> b.with(e).last_seq->0 >= s,
        b.with(e).first_seq != b.first_seq ==> b.with(e).first_seq == Some(e.seq)
            && b.with(e).first_time == Some(e.timestamp),
        b.with(e).first_seq == b.first_seq ==> b.with(e).first_time == b.first_time,
        b.with(e).last_seq != b.last_seq ==> b.with(e).last_seq == Some(e.seq) && b.with(
            e,
        ).last_time == Some(e.timestamp),
        b.with(e).last_seq == b.last_seq ==> b.with(e).last_time == b.last_time,
{
}

/// A field is grouped by where it holds a text, a number or a boolean; a record without it
/// counts as absent, and so does one that holds something else there.
pub proof fn fields_are_grouped_by_their_value(keys: Seq<Seq<char>>, e: LogEntryView, i: int)
    requires
        0 <= i < keys.len(),
    ensures
        ({
            let m = record_key(Axis::Field, keys, e)[i];
            &&& record_key(Axis::Field, keys, e).len() == keys.len()
            &&& !e.additional_fields.contains_key(keys[i]) ==> m == MemberView::Absent
            &&& e.additional_fields.contains_key(keys[i]) ==> match e.additional_fields[keys[i]] {
                JsonView::Text(s) => m == MemberView::Value(s),
                JsonView::Bool(true) => m == MemberView::Value("true"@),
                JsonView::Bool(false) => m == MemberView::Value("false"@),
                JsonView::Number(n) => m == MemberView::Value(n.text),
                _ => m == MemberView::Absent,
            }
        }),
{
}

/// Another axis has one member, which is its value or that there is none.
pub proof fn other_axes_have_one_member(axis: Axis, keys: Seq<Seq<char>>, e: LogEntryView)
    requires
        axis != Axis::Field,
    ensures
        record_key(axis, keys, e).len() == 1,
        axis_text(axis, e) matches Some(s) ==> record_key(axis, keys, e)[0] == MemberView::Value(s),
        axis_text(axis, e) is None ==> record_key(axis, keys, e)[0] == MemberView::Absent,
{
}

/// A key is shown member by member, with slashes between them.
pub proof fn keys_are_shown_in_order(key: Seq<MemberView>, s: Seq<char>)
    ensures
        key_label(seq![MemberView::Value(s)]) == s,
        key_label(seq![MemberView::Absent]) == "__absent__"@,
        key_label(seq![MemberView::Overflow]) == "__overflow__"@,
        key.len() > 0 ==> key_label(key.push(MemberView::Value(s))) == key_label(key) + seq![
            ' ',
            '/',
            ' ',
        ] + s,
{
    assert(key.push(MemberView::Value(s)).drop_last() =~= key);
}

proof fn lemma_row_at(rows: Seq<RowView>, key: Seq<MemberView>)
    ensures
        ({
            let i = row_at(rows, key);
            &&& 0 <= i <= rows.len()
            &&& i < rows.len() ==> rows[i].key == key
            &&& forall|j: int| 0 <= j < i ==> (#[trigger] rows[j]).key != key
        }),
    decreases rows.len(),
{
    if rows.len() > 0 && rows[0].key != key {
        let rest = rows.skip(1);
        lemma_row_at(rest, key);
        let i = row_at(rows, key);
        if i < rows.len() {
            assert(rows[i] == rest[i - 1]);
        }
        assert forall|j: int| 0 <= j < i implies (#[trigger] rows[j]).key != key by {
            if j > 0 {
                assert(rows[j] == rest[j - 1]);
            }
        }
    }
}

/// A record counts in the row of its key and in no other; a key without a row is given one.
pub proof fn records_count_in_their_row(
    rows: Seq<RowView>,
    key: Seq<MemberView>,
    e: LogEntryView,
) -> (i: int)
    ensures
        0 <= i <= rows.len(),
        ({
            let after = counted(rows, key, e);
            &&& after[i].key == key
            &&& i < rows.len() ==> rows[i].key == key && after.len() == rows.len() && after[i].acc
                == rows[i].acc.observed(e)
            &&& i == rows.len() ==> after.len() == rows.len() + 1 && after[i].acc == AccView::of(e)
                && forall|j: int| 0 <= j < rows.len() ==> (#[trigger] rows[j]).key != key
            &&& forall|j: int| 0 <= j < rows.len() && j != i ==> #[trigger] after[j] == rows[j]
        }),
{
    lemma_row_at(rows, key);
    row_at(rows, key)
}

/// A record is counted under its own key, unless there are 1024 rows already and none of
/// them is for it: then it is counted as overflow. That a field was absent is always told.
pub proof fn only_new_keys_overflow(m: GroupMapView, e: LogEntryView)
    ensures
        ({
            let key = record_key(m.axis, m.keys, e);
            &&& m.rows.len() < 1024 ==> m.counting_key(e) == key
            &&& (exists|i: int| 0 <= i < m.rows.len() && (#[trigger] m.rows[i]).key == key)
                ==> m.counting_key(e) == key
            &&& (forall|i: int| 0 <= i < key.len() ==> #[trigger] key[i] == MemberView::Absent)
                ==> m.counting_key(e) == key
            &&& m.counting_key(e) != key ==> {
                &&& m.counting_key(e).len() == key.len()
                &&& forall|i: int|
                    0 <= i < key.len() ==> #[trigger] m.counting_key(e)[i] == MemberView::Overflow
                &&& m.axis != Axis::Overall ==> m.observed(e).capped
            }
        }),
{
    let key = record_key(m.axis, m.keys, e);
    lemma_row_at(m.rows, key);
}

/// Every record is counted in: by number, by level and in the bounds.
pub proof fn every_record_is_counted_in(m: GroupMapView, e: LogEntryView)
    requires
        m.matched < usize::MAX,
    ensures
        m.observed(e).matched == m.matched + 1,
        m.observed(e).levels == m.levels.bumped(e.level),
        m.observed(e).bounds == m.bounds.with(e),
        m.axis == Axis::Overall ==> m.observed(e).rows == m.rows,
        m.axis != Axis::Overall ==> m.observed(e).rows == counted(m.rows, m.counting_key(e), e),
{
}

/// A member is said to be missing where no record had it, and said to be no dimension where
/// some held a structure there; a field of the same name is offered where an axis has none.
pub proof fn useless_members_are_noted(m: GroupMapView, i: int)
    ensures
        m.note(i) is None <==> m.present[i] > 0 && m.structured[i] == 0,
        m.note(i) matches Some(n) ==> {
            &&& n.remedy is Some <==> m.present[i] == 0 && i == 0 && m.alt > 0
            &&& n.remedy matches Some(r) ==> r.covering == m.alt && r.matched == m.matched
        },
        m.axis == Axis::Field && 0 <= i < m.keys.len() ==> m.member_name(i) == m.keys[i],
        m.axis != Axis::Field ==> m.member_name(i) == m.axis.name(),
{
}

/// A report lists the largest groups first, as many as were asked for, and then, whatever
/// was asked for, what lacked the axis and what overflowed.
pub proof fn reports_list_the_largest_first(rows: Seq<RowView>, top_n: nat, i: int, j: int)
    ensures
        ({
            let groups = at_most(ranked::<LogGroup>(real_groups(rows)), top_n);
            &&& groups.len() <= top_n
            &&& 0 <= i < j < groups.len() ==> groups[i].acc.count >= groups[j].acc.count
            &&& report(rows, top_n).len() == groups.len() + reserved_groups(
                rows,
                Reserved::Absent,
            ).len() + reserved_groups(rows, Reserved::Overflow).len()
            &&& 0 <= i < groups.len() ==> report(rows, top_n)[i] == groups[i]
        }),
{
    ranking_orders_and_keeps::<LogGroup>(real_groups(rows));
    let all = ranked::<LogGroup>(real_groups(rows));
    let groups = at_most(all, top_n);
    if 0 <= i < j < groups.len() {
        assert(groups[i] == all[i] && groups[j] == all[j]);
        assert(!LogGroup::above(all[j], all[i]));
    }
}

/// A row is reported among the groups or among the reserved ones, and never as both.
pub proof fn rows_are_reported_once(rows: Seq<RowView>, row: RowView)
    ensures
        real_groups(rows.push(row)).len() + reserved_groups(rows.push(row), Reserved::Absent).len()
            + reserved_groups(rows.push(row), Reserved::Overflow).len() == real_groups(rows).len()
            + reserved_groups(rows, Reserved::Absent).len() + reserved_groups(
            rows,
            Reserved::Overflow,
        ).len() + 1,
        row.key.len() > 0 && row.key[0] is Value ==> real_groups(rows.push(row)) == real_groups(
            rows,
        ).push(GroupView { key: key_label(row.key), acc: row.acc }),
        row.key == seq![MemberView::Absent] ==> reserved_groups(
            rows.push(row),
            Reserved::Absent,
        ).len() == reserved_groups(rows, Reserved::Absent).len() + 1,
        row.key == seq![MemberView::Overflow] ==> reserved_groups(
            rows.push(row),
            Reserved::Overflow,
        ).len() == reserved_groups(rows, Reserved::Overflow).len() + 1,
{
    assert(rows.push(row).drop_last() =~= rows);
    if row.key == seq![MemberView::Overflow] {
        assert(row.key[0] == MemberView::Overflow);
    }
}

/// A record that carries an additional field of the axis's own name is counted as one that
/// could be grouped by that field instead.
pub proof fn same_named_fields_are_counted(m: GroupMapView, e: LogEntryView, i: int)
    requires
        m.axis != Axis::Overall,
        m.matched < usize::MAX,
        m.sound(),
    ensures
        m.axis != Axis::Field && e.additional_fields.contains_key(m.axis.name()) ==> m.observed(e).alt
            == m.alt + 1,
        m.axis == Axis::Field || !e.additional_fields.contains_key(m.axis.name()) ==> m.observed(e).alt
            == m.alt,
        0 <= i < m.present.len() ==> {
            let key = record_key(m.axis, m.keys, e);
            &&& key[i] is Value ==> m.observed(e).present[i] == m.present[i] + 1
            &&& !(key[i] is Value) ==> m.observed(e).present[i] == m.present[i]
        },
{
    if 0 <= i < m.present.len() {
        assert(m.present[i] <= m.matched);
    }
}

/// Every member that was of no use is noted, in its order; where nothing matched and where
/// there is no axis nothing is.
pub proof fn notes_come_in_order(m: GroupMapView, n: int)
    ensures
        m.matched == 0 ==> m.suppressed().len() == 0,
        m.axis == Axis::Overall ==> m.suppressed().len() == 0,
        m.matched > 0 && m.axis != Axis::Overall ==> m.suppressed() == m.notes(
            m.present.len() as int,
        ),
        m.notes(0).len() == 0,
        n >= 0 && m.note(n) is None ==> m.notes(n + 1) == m.notes(n),
        n >= 0 && m.note(n) is Some ==> m.notes(n + 1) == m.notes(n).push(m.note(n)->0),
{
}

} // verus!
