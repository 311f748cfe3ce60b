//! `logs.fields`: what dimensions exist in this buffer.
//!
//! The map a caller needs before it can measure. `logs.profile` requires the
//! caller to name an axis; a caller arriving cold does not know which axes
//! exist, and guessing produces a silent empty result rather than an error.
//!
//! **This is also the read that makes dead axes visible.** GELF strips the `_`
//! prefix and routes those keys into `additional_fields`, while the built-in
//! `file`, `line` and `facility` come from top-level keys that many emitters
//! never send. Reporting a built-in at 0% is the whole point: absence is a fact,
//! and omitting the row would hide it.
use crate::filter::parser::{additional_field_selector, reaches_additional};
use crate::gelf::message::{LogEntry, LogEntryView};
use crate::json::{Json, JsonView};
use crate::logs::profile::{
    axis_text, axis_value, every_axis_parses_back, render, rendered, Axis, DEFAULT_GROUP_VALUE_CAP,
};
use crate::ranking::{at_most, place, ranked, ranking_orders_and_keeps, views, Ranked};
use crate::store::memory::all_wf;
use crate::text;
use crate::text::optional_text;
use crate::text_map::{
    lemma_keys_distinct, lemma_precedes_irreflexive, lemma_precedes_total,
    lemma_precedes_transitive, precedes, text_before, TextMap,
};
use vstd::prelude::*;

verus! {

broadcast use vstd::string::group_string_axioms;

/// The most rows that are kept. Past it no new names are learned, and the
/// answer says so.
pub const NAME_CAP: usize = DEFAULT_GROUP_VALUE_CAP;

/// Distinct values tracked per field before the counter gives up.
pub const DISTINCT_CAP: usize = DEFAULT_GROUP_VALUE_CAP;

/// Where a field comes from.
#[derive(Debug, Clone, Copy, PartialEq, Eq, Structural)]
pub enum FieldSource {
    /// A slot of the record itself.
    Builtin,
    /// Taken out of the additional fields: the trace and span ids.
    Promoted,
    /// Whatever else the emitter sent.
    Additional,
}

impl FieldSource {
    /// Where rows that share a name stand: by the name of the source.
    pub open spec fn place(self) -> int {
        match self {
            FieldSource::Additional => 0,
            FieldSource::Builtin => 1,
            FieldSource::Promoted => 2,
        }
    }

    fn rank(self) -> (r: u8)
        ensures
            r == self.place(),
    {
        match self {
            FieldSource::Additional => 0,
            FieldSource::Builtin => 1,
            FieldSource::Promoted => 2,
        }
    }
}

/// What the values of a field are.
#[derive(Debug, Clone, Copy, PartialEq, Eq, Structural)]
pub enum ValueKind {
    Text,
    Bool,
    Integer,
    Float,
    /// Integers and floats.
    Number,
    /// Values that do not belong together.
    Mixed,
    /// Neither a dimension nor a number.
    Other,
}

/// The kind of a value.
pub open spec fn kind_of_view(v: JsonView) -> ValueKind {
    match v {
        JsonView::Text(_) => ValueKind::Text,
        JsonView::Bool(_) => ValueKind::Bool,
        JsonView::Number(n) => if n.is_integer() {
            ValueKind::Integer
        } else {
            ValueKind::Float
        },
        _ => ValueKind::Other,
    }
}

fn kind_of(v: &Json) -> (r: ValueKind)
    ensures
        r == kind_of_view(v@),
{
    match v {
        Json::Text(_) => ValueKind::Text,
        Json::Bool(_) => ValueKind::Bool,
        Json::Number(n) => if n.is_integer() {
            ValueKind::Integer
        } else {
            ValueKind::Float
        },
        _ => ValueKind::Other,
    }
}

/// Whether values of a kind are numbers.
pub open spec fn is_numeric(k: ValueKind) -> bool {
    k == ValueKind::Integer || k == ValueKind::Float || k == ValueKind::Number
}

/// What a field holds whose values are of both kinds. An emitter writing `100`
/// for one record and `100.5` for the next is describing one quantity, and it
/// sums fine.
pub open spec fn merged_kind(a: ValueKind, b: ValueKind) -> ValueKind {
    if a == b {
        a
    } else if is_numeric(a) && is_numeric(b) {
        ValueKind::Number
    } else {
        ValueKind::Mixed
    }
}

fn merge_kind(a: ValueKind, b: ValueKind) -> (r: ValueKind)
    ensures
        r == merged_kind(a, b),
{
    if a == b {
        return a;
    }
    let a_counts = a == ValueKind::Integer || a == ValueKind::Float || a == ValueKind::Number;
    let b_counts = b == ValueKind::Integer || b == ValueKind::Float || b == ValueKind::Number;
    if a_counts && b_counts {
        ValueKind::Number
    } else {
        ValueKind::Mixed
    }
}

/// A field that is always reported.
pub struct Builtin {
    pub axis: Axis,
    pub source: FieldSource,
    /// What is typed to filter by it, which is not its name: `file` is the
    /// additional field, and the built-in one needs `fi`.
    pub selector: Option<&'static str>,
    /// Stated rather than inferred, so that a row without a value still tells
    /// the truth about what the field holds.
    pub kind: ValueKind,
}

/// What a [`Builtin`] says.
#[verifier::ext_equal]
pub struct BuiltinView {
    pub axis: Axis,
    pub source: FieldSource,
    pub selector: Option<Seq<char>>,
    pub kind: ValueKind,
}

impl View for Builtin {
    type V = BuiltinView;

    open spec fn view(&self) -> BuiltinView {
        BuiltinView {
            axis: self.axis,
            source: self.source,
            selector: match self.selector {
                Some(s) => Some(s@),
                None => None,
            },
            kind: self.kind,
        }
    }
}

/// How many fields are always reported.
pub const BUILTIN_COUNT: usize = 8;

/// The fields that are always reported, in the order in which a record is read.
///
/// The linking ids have no selector at all: they are taken out of the
/// additional fields, so `trace_id=…` matches nothing.
pub open spec fn builtin_at(i: int) -> BuiltinView {
    if i == 0 {
        BuiltinView {
            axis: Axis::Level,
            source: FieldSource::Builtin,
            selector: Some("l"@),
            kind: ValueKind::Text,
        }
    } else if i == 1 {
        BuiltinView {
            axis: Axis::Message,
            source: FieldSource::Builtin,
            selector: Some("m"@),
            kind: ValueKind::Text,
        }
    } else if i == 2 {
        BuiltinView {
            axis: Axis::Host,
            source: FieldSource::Builtin,
            selector: Some("h"@),
            kind: ValueKind::Text,
        }
    } else if i == 3 {
        BuiltinView {
            axis: Axis::Facility,
            source: FieldSource::Builtin,
            selector: Some("fa"@),
            kind: ValueKind::Text,
        }
    } else if i == 4 {
        BuiltinView {
            axis: Axis::File,
            source: FieldSource::Builtin,
            selector: Some("fi"@),
            kind: ValueKind::Text,
        }
    } else if i == 5 {
        BuiltinView {
            axis: Axis::Line,
            source: FieldSource::Builtin,
            selector: Some("ln"@),
            kind: ValueKind::Integer,
        }
    } else if i == 6 {
        BuiltinView {
            axis: Axis::TraceId,
            source: FieldSource::Promoted,
            selector: None,
            kind: ValueKind::Text,
        }
    } else {
        BuiltinView {
            axis: Axis::SpanId,
            source: FieldSource::Promoted,
            selector: None,
            kind: ValueKind::Text,
        }
    }
}

fn builtin(i: usize) -> (r: Builtin)
    ensures
        r@ == builtin_at(i as int),
{
    let (axis, selector) = if i == 0 {
        (Axis::Level, Some("l"))
    } else if i == 1 {
        (Axis::Message, Some("m"))
    } else if i == 2 {
        (Axis::Host, Some("h"))
    } else if i == 3 {
        (Axis::Facility, Some("fa"))
    } else if i == 4 {
        (Axis::File, Some("fi"))
    } else if i == 5 {
        (Axis::Line, Some("ln"))
    } else if i == 6 {
        (Axis::TraceId, None)
    } else {
        (Axis::SpanId, None)
    };
    Builtin {
        axis,
        source: if i < 6 {
            FieldSource::Builtin
        } else {
            FieldSource::Promoted
        },
        selector,
        kind: if i == 5 {
            ValueKind::Integer
        } else {
            ValueKind::Text
        },
    }
}

/// One value that a record holds in a field.
pub struct FieldValue {
    pub source: FieldSource,
    pub name: String,
    pub rendered: String,
    pub kind: ValueKind,
}

/// What a [`FieldValue`] is.
#[verifier::ext_equal]
pub struct FieldValueView {
    pub source: FieldSource,
    pub name: Seq<char>,
    pub rendered: Seq<char>,
    pub kind: ValueKind,
}

impl View for FieldValue {
    type V = FieldValueView;

    open spec fn view(&self) -> FieldValueView {
        FieldValueView {
            source: self.source,
            name: self.name@,
            rendered: self.rendered@,
            kind: self.kind,
        }
    }
}

/// What a record holds in the first `n` of the fields that are always reported.
pub open spec fn builtin_values(e: LogEntryView, n: int) -> Seq<FieldValueView>
    decreases n,
{
    if n <= 0 {
        seq![]
    } else {
        let b = builtin_at(n - 1);
        match axis_text(b.axis, e) {
            Some(text) => builtin_values(e, n - 1).push(
                FieldValueView {
                    source: b.source,
                    name: b.axis.name(),
                    rendered: text,
                    kind: b.kind,
                },
            ),
            None => builtin_values(e, n - 1),
        }
    }
}

/// The members of a map in the order in which they are walked.
pub open spec fn members(fields: TextMap<Json>) -> Seq<(Seq<char>, JsonView)> {
    fields.pairs().map_values(|p: (Seq<char>, Json)| (p.0, p.1@))
}

/// What an additional field holds.
pub open spec fn additional_value(member: (Seq<char>, JsonView)) -> FieldValueView {
    FieldValueView {
        source: FieldSource::Additional,
        name: member.0,
        rendered: rendered(member.1),
        kind: kind_of_view(member.1),
    }
}

/// What the additional fields hold.
pub open spec fn additional_values(extra: Seq<(Seq<char>, JsonView)>) -> Seq<FieldValueView> {
    extra.map_values(|m: (Seq<char>, JsonView)| additional_value(m))
}

/// Every value that a record holds, with its additional fields in order.
pub open spec fn values_of(e: LogEntryView, extra: Seq<(Seq<char>, JsonView)>) -> Seq<
    FieldValueView,
> {
    builtin_values(e, BUILTIN_COUNT as int) + additional_values(extra)
}

fn values(e: &LogEntry) -> (r: Vec<FieldValue>)
    ensures
        views(r@) == values_of(e@, members(e.additional_fields)),
{
    let mut out: Vec<FieldValue> = Vec::new();
    let mut i: usize = 0;
    proof {
        assert(views(out@) =~= seq![]);
    }
    while i < BUILTIN_COUNT
        invariant
            i <= BUILTIN_COUNT,
            views(out@) == builtin_values(e@, i as int),
        decreases BUILTIN_COUNT - i,
    {
        let b = builtin(i);
        let ghost before = out@;
        match axis_value(b.axis, e) {
            Some(value) => {
                let v = FieldValue {
                    source: b.source,
                    name: text::owned(b.axis.as_str()),
                    rendered: value,
                    kind: b.kind,
                };
                let ghost vv = v@;
                out.push(v);
                proof {
                    assert(views(out@) =~= views(before).push(vv));
                }
            },
            None => {},
        }
        i += 1;
    }
    let extra = &e.additional_fields;
    let ghost pairs = members(*extra);
    let ghost first = builtin_values(e@, BUILTIN_COUNT as int);
    let mut k: usize = 0;
    proof {
        assert(additional_values(pairs.take(0)) =~= seq![]);
        assert(views(out@) =~= first + additional_values(pairs.take(0)));
    }
    while k < extra.len()
        invariant
            k <= extra.pairs().len(),
            pairs == members(*extra),
            views(out@) == first + additional_values(pairs.take(k as int)),
        decreases extra.pairs().len() - k,
    {
        let ghost before = out@;
        let v = FieldValue {
            source: FieldSource::Additional,
            name: extra.key_at(k).clone(),
            rendered: render(extra.value_at(k)),
            kind: kind_of(extra.value_at(k)),
        };
        let ghost vv = v@;
        out.push(v);
        proof {
            assert(vv == additional_value(pairs[k as int]));
            assert(additional_values(pairs.take(k + 1)) =~= additional_values(
                pairs.take(k as int),
            ).push(vv));
            assert(views(out@) =~= views(before).push(vv));
        }
        k += 1;
    }
    proof {
        assert(pairs.take(pairs.len() as int) =~= pairs);
    }
    out
}

/// A value of a field, with how often it was seen.
#[derive(Debug, PartialEq, Eq)]
pub struct TopValue {
    pub value: String,
    pub count: usize,
}

/// What a [`TopValue`] reports.
#[verifier::ext_equal]
pub struct TopValueView {
    pub value: Seq<char>,
    pub count: usize,
}

impl View for TopValue {
    type V = TopValueView;

    open spec fn view(&self) -> TopValueView {
        TopValueView { value: self.value@, count: self.count }
    }
}

/// By count from the highest down, ties by value.
impl Ranked for TopValue {
    open spec fn above(a: TopValueView, b: TopValueView) -> bool {
        a.count > b.count || (a.count == b.count && precedes(a.value, b.value))
    }

    proof fn above_is_strict(a: TopValueView, b: TopValueView) {
        if a.count == b.count && precedes(b.value, a.value) {
            lemma_precedes_transitive(a.value, b.value, a.value);
            lemma_precedes_irreflexive(a.value);
        }
    }

    proof fn not_above_chains(a: TopValueView, b: TopValueView, c: TopValueView) {
        if Self::above(a, c) && a.count == c.count && a.count == b.count {
            lemma_precedes_total(b.value, c.value);
            lemma_precedes_total(a.value, b.value);
            if b.value != c.value && a.value != b.value {
                lemma_precedes_transitive(c.value, b.value, a.value);
                lemma_precedes_transitive(a.value, c.value, a.value);
                lemma_precedes_irreflexive(a.value);
            }
        }
    }

    fn is_above(&self, other: &Self) -> (r: bool) {
        self.count > other.count || (self.count == other.count && text_before(
            &self.value,
            &other.value,
        ))
    }
}

/// Where a value stands, or the length where it is not there.
pub open spec fn value_at(values: Seq<TopValueView>, value: Seq<char>) -> int
    decreases values.len(),
{
    if values.len() == 0 {
        0
    } else if values[0].value == value {
        0
    } else {
        1 + value_at(values.skip(1), value)
    }
}

proof fn lemma_value_at(values: Seq<TopValueView>, value: Seq<char>)
    ensures
        0 <= value_at(values, value) <= values.len(),
        value_at(values, value) < values.len() ==> values[value_at(values, value)].value == value,
        forall|k: int|
            0 <= k < value_at(values, value) ==> (#[trigger] values[k]).value != value,
    decreases values.len(),
{
    if values.len() > 0 && values[0].value != value {
        lemma_value_at(values.skip(1), value);
        let rest = values.skip(1);
        assert forall|k: int| 0 <= k < value_at(values, value) implies (
        #[trigger] values[k]).value != value by {
            if k > 0 {
                assert(rest[k - 1] == values[k]);
            }
        }
    }
}

/// What is accumulated of one field. A row is known by its source and its name,
/// never by the name alone: a payload may carry both `file` and `_file`.
struct Row {
    source: FieldSource,
    name: String,
    present: usize,
    values: Vec<TopValue>,
    capped: bool,
    kind: ValueKind,
}

/// What is known of one field.
#[verifier::ext_equal]
pub struct FieldRowView {
    pub source: FieldSource,
    pub name: Seq<char>,
    /// How many records have the field.
    pub present: usize,
    /// The values seen, in the order in which they came, with their counts.
    pub values: Seq<TopValueView>,
    /// Whether there were values that were not learned.
    pub capped: bool,
    pub kind: ValueKind,
}

impl View for Row {
    type V = FieldRowView;

    closed spec fn view(&self) -> FieldRowView {
        FieldRowView {
            source: self.source,
            name: self.name@,
            present: self.present,
            values: views(self.values@),
            capped: self.capped,
            kind: self.kind,
        }
    }
}

impl FieldRowView {
    /// The row with one value more. Past the cap no new values are learned, but
    /// those already known are counted on, so that what is reported stays true
    /// of what it saw.
    pub open spec fn observed(self, rendered: Seq<char>, kind: ValueKind) -> FieldRowView {
        let i = value_at(self.values, rendered);
        FieldRowView {
            source: self.source,
            name: self.name,
            present: (self.present + 1) as usize,
            kind: merged_kind(self.kind, kind),
            capped: self.capped || (i == self.values.len() && i >= DISTINCT_CAP),
            values: if i < self.values.len() {
                self.values.update(
                    i,
                    TopValueView { value: rendered, count: (self.values[i].count + 1) as usize },
                )
            } else if i >= DISTINCT_CAP {
                self.values
            } else {
                self.values.push(TopValueView { value: rendered, count: 1 })
            },
        }
    }

    /// A row that was made for a value.
    pub open spec fn of(v: FieldValueView) -> FieldRowView {
        FieldRowView {
            source: v.source,
            name: v.name,
            present: 1,
            values: seq![TopValueView { value: v.rendered, count: 1 }],
            capped: false,
            kind: v.kind,
        }
    }

    /// No value was counted more often than the field was there.
    pub open spec fn sound(self) -> bool {
        forall|k: int|
            0 <= k < self.values.len() ==> (#[trigger] self.values[k]).count <= self.present
    }
}

impl Row {
    fn observe(&mut self, rendered: String, kind: ValueKind)
        requires
            old(self)@.present < usize::MAX,
            old(self)@.sound(),
        ensures
            final(self)@ == old(self)@.observed(rendered@, kind),
    {
        let ghost before = self@;
        let ghost rv = rendered@;
        let mut i: usize = 0;
        proof {
            lemma_value_at(before.values, rv);
        }
        while i < self.values.len() && !text::same_owned(&self.values[i].value, &rendered)
            invariant
                self@ == before,
                rv == rendered@,
                i <= self.values@.len(),
                before.values == views(self.values@),
                forall|k: int| 0 <= k < i ==> (#[trigger] before.values[k]).value != rv,
            decreases self.values@.len() - i,
        {
            proof {
                assert(before.values[i as int] == self.values@[i as int]@);
            }
            i += 1;
        }
        proof {
            let at = value_at(before.values, rv);
            if i < self.values@.len() {
                assert(before.values[i as int] == self.values@[i as int]@);
            }
            if at < i {
                assert(before.values[at].value == rv);
            }
            assert(i == at);
        }
        self.present = self.present + 1;
        self.kind = merge_kind(self.kind, kind);
        if i < self.values.len() {
            let count: usize = self.values[i].count;
            proof {
                assert(before.values[i as int].count == count);
            }
            self.values.set(i, TopValue { value: rendered, count: count + 1 });
            proof {
                assert(views(self.values@) =~= before.values.update(
                    i as int,
                    TopValueView { value: rv, count: (count + 1) as usize },
                ));
            }
        } else if i >= DISTINCT_CAP {
            self.capped = true;
        } else {
            self.values.push(TopValue { value: rendered, count: 1 });
            proof {
                assert(views(self.values@) =~= before.values.push(
                    TopValueView { value: rv, count: 1 },
                ));
            }
        }
    }
}

/// Where the row of a field stands, or the length where it has none.
pub open spec fn field_at(rows: Seq<FieldRowView>, source: FieldSource, name: Seq<char>) -> int
    decreases rows.len(),
{
    if rows.len() == 0 {
        0
    } else if rows[0].source == source && rows[0].name == name {
        0
    } else {
        1 + field_at(rows.skip(1), source, name)
    }
}

proof fn lemma_field_at(rows: Seq<FieldRowView>, source: FieldSource, name: Seq<char>)
    ensures
        0 <= field_at(rows, source, name) <= rows.len(),
        field_at(rows, source, name) < rows.len() ==> {
            let row = rows[field_at(rows, source, name)];
            row.source == source && row.name == name
        },
        forall|k: int|
            0 <= k < field_at(rows, source, name) ==> (#[trigger] rows[k]).source != source
                || rows[k].name != name,
    decreases rows.len(),
{
    if rows.len() > 0 && !(rows[0].source == source && rows[0].name == name) {
        lemma_field_at(rows.skip(1), source, name);
        let rest = rows.skip(1);
        assert forall|k: int| 0 <= k < field_at(rows, source, name) implies (
        #[trigger] rows[k]).source != source || rows[k].name != name by {
            if k > 0 {
                assert(rest[k - 1] == rows[k]);
            }
        }
    }
}

/// Folds records into a field map without keeping them.
pub struct FieldMap {
    rows: Vec<Row>,
    names_capped: bool,
    records: usize,
}

/// What a [`FieldMap`] holds.
#[verifier::ext_equal]
pub struct FieldMapView {
    /// The fields, in the order in which they were first seen.
    pub rows: Seq<FieldRowView>,
    /// Whether there were names that were not learned.
    pub names_capped: bool,
    /// How many records were observed.
    pub records: usize,
}

impl View for FieldMap {
    type V = FieldMapView;

    closed spec fn view(&self) -> FieldMapView {
        FieldMapView {
            rows: views(self.rows@),
            names_capped: self.names_capped,
            records: self.records,
        }
    }
}

/// The row of a field that is always reported, before any record was seen.
pub open spec fn seeded_row(i: int) -> FieldRowView {
    let b = builtin_at(i);
    FieldRowView {
        source: b.source,
        name: b.axis.name(),
        present: 0,
        values: seq![],
        capped: false,
        kind: b.kind,
    }
}

impl FieldMapView {
    /// A map that has seen nothing. Seeded, so that a field that no record has
    /// is reported at 0% rather than left out.
    pub open spec fn fresh() -> FieldMapView {
        FieldMapView {
            rows: Seq::new(BUILTIN_COUNT as nat, |i: int| seeded_row(i)),
            names_capped: false,
            records: 0,
        }
    }

    /// The map with one value more. Past the cap on names no new ones are
    /// learned, and the omission is announced rather than silent.
    pub open spec fn bumped(self, v: FieldValueView) -> FieldMapView {
        let i = field_at(self.rows, v.source, v.name);
        FieldMapView {
            rows: if i < self.rows.len() {
                self.rows.update(i, self.rows[i].observed(v.rendered, v.kind))
            } else if i >= NAME_CAP {
                self.rows
            } else {
                self.rows.push(FieldRowView::of(v))
            },
            names_capped: self.names_capped || (i == self.rows.len() && i >= NAME_CAP),
            records: self.records,
        }
    }

    /// The map with a list of values more.
    pub open spec fn bumped_all(self, values: Seq<FieldValueView>) -> FieldMapView
        decreases values.len(),
    {
        if values.len() == 0 {
            self
        } else {
            self.bumped_all(values.drop_last()).bumped(values.last())
        }
    }

    /// The map with one record more, whose additional fields are walked in
    /// order.
    pub open spec fn observed(self, e: LogEntryView, extra: Seq<(Seq<char>, JsonView)>) -> FieldMapView {
        let m = self.bumped_all(values_of(e, extra));
        FieldMapView {
            rows: m.rows,
            names_capped: m.names_capped,
            records: (self.records + 1) as usize,
        }
    }

    /// Every row is sound, and no field was there in more records than there
    /// were.
    pub open spec fn sound(self) -> bool {
        forall|i: int|
            0 <= i < self.rows.len() ==> (#[trigger] self.rows[i]).sound() && self.rows[i].present
                <= self.records
    }
}

/// Whether a field is among those of a list of values.
pub open spec fn names_field(values: Seq<FieldValueView>, source: FieldSource, name: Seq<char>) -> bool {
    exists|k: int|
        0 <= k < values.len() && (#[trigger] values[k]).source == source && values[k].name == name
}

/// No field has two values in a list.
pub open spec fn fields_distinct(values: Seq<FieldValueView>) -> bool {
    forall|i: int, j: int|
        0 <= i < j < values.len() ==> (#[trigger] values[i]).source != (
        #[trigger] values[j]).source || values[i].name != values[j].name
}

/// A map in which a field has at most one record more than `records` where it is
/// among `values`, and no more than `records` elsewhere.
spec fn at_most_one_more(m: FieldMapView, values: Seq<FieldValueView>, records: usize) -> bool {
    forall|i: int|
        0 <= i < m.rows.len() ==> {
            &&& (#[trigger] m.rows[i]).sound()
            &&& m.rows[i].present <= records + 1
            &&& !names_field(values, m.rows[i].source, m.rows[i].name) ==> m.rows[i].present
                <= records
        }
}

proof fn lemma_bump_keeps_bound(
    m: FieldMapView,
    values: Seq<FieldValueView>,
    v: FieldValueView,
    records: usize,
)
    requires
        records < usize::MAX,
        at_most_one_more(m, values, records),
        !names_field(values, v.source, v.name),
    ensures
        at_most_one_more(m.bumped(v), values.push(v), records),
{
    let after = m.bumped(v);
    let more = values.push(v);
    lemma_field_at(m.rows, v.source, v.name);
    let at = field_at(m.rows, v.source, v.name);
    assert(more[values.len() as int] == v);
    assert forall|i: int| 0 <= i < after.rows.len() implies {
        &&& (#[trigger] after.rows[i]).sound()
        &&& after.rows[i].present <= records + 1
        &&& !names_field(more, after.rows[i].source, after.rows[i].name) ==> after.rows[i].present
            <= records
    } by {
        if i == at {
            if at < m.rows.len() {
                let old_row = m.rows[at];
                assert(old_row.sound() && old_row.present <= records);
                lemma_value_at(old_row.values, v.rendered);
                let new_row = after.rows[at];
                assert forall|k: int| 0 <= k < new_row.values.len() implies (
                #[trigger] new_row.values[k]).count <= new_row.present by {
                    if k < old_row.values.len() {
                        assert(old_row.values[k].count <= old_row.present);
                    }
                }
            }
            assert(names_field(more, v.source, v.name));
        } else {
            let row = m.rows[i];
            assert(after.rows[i] == row && row.sound());
            if names_field(values, row.source, row.name) {
                let k = choose|k: int|
                    0 <= k < values.len() && (#[trigger] values[k]).source == row.source
                        && values[k].name == row.name;
                assert(more[k] == values[k]);
                assert(names_field(more, row.source, row.name));
            }
        }
    }
}

proof fn lemma_bumps_keep_bound(m: FieldMapView, values: Seq<FieldValueView>)
    requires
        m.sound(),
        m.records < usize::MAX,
        fields_distinct(values),
    ensures
        at_most_one_more(m.bumped_all(values), values, m.records),
        m.bumped_all(values).records == m.records,
    decreases values.len(),
{
    if values.len() > 0 {
        let front = values.drop_last();
        let v = values.last();
        assert(fields_distinct(front)) by {
            assert forall|i: int, j: int| 0 <= i < j < front.len() implies (
            #[trigger] front[i]).source != (#[trigger] front[j]).source || front[i].name
                != front[j].name by {
                assert(values[i].source != values[j].source || values[i].name != values[j].name);
            }
        }
        lemma_bumps_keep_bound(m, front);
        assert(!names_field(front, v.source, v.name)) by {
            if names_field(front, v.source, v.name) {
                let k = choose|k: int|
                    0 <= k < front.len() && (#[trigger] front[k]).source == v.source
                        && front[k].name == v.name;
                assert(values[k] == front[k] && values[values.len() - 1] == v);
            }
        }
        lemma_bump_keeps_bound(m.bumped_all(front), front, v, m.records);
        assert(front.push(v) =~= values);
    }
}

proof fn lemma_builtin_values(e: LogEntryView, n: int)
    requires
        0 <= n <= BUILTIN_COUNT,
    ensures
        fields_distinct(builtin_values(e, n)),
        forall|k: int|
            0 <= k < builtin_values(e, n).len() ==> (#[trigger] builtin_values(e, n)[k]).source
                != FieldSource::Additional && exists|i: int|
                0 <= i < n && #[trigger] builtin_at(i).axis.name() == builtin_values(e, n)[k].name,
    decreases n,
{
    if n > 0 {
        lemma_builtin_values(e, n - 1);
        let front = builtin_values(e, n - 1);
        let all = builtin_values(e, n);
        let b = builtin_at(n - 1);
        assert forall|k: int| 0 <= k < all.len() implies (#[trigger] all[k]).source
            != FieldSource::Additional && exists|i: int|
            0 <= i < n && #[trigger] builtin_at(i).axis.name() == all[k].name by {
            if k < front.len() {
                assert(all[k] == front[k]);
                let i = choose|i: int|
                    0 <= i < n - 1 && #[trigger] builtin_at(i).axis.name() == front[k].name;
                assert(builtin_at(i).axis.name() == all[k].name);
            } else {
                assert(builtin_at(n - 1).axis.name() == all[k].name);
            }
        }
        assert forall|i: int, j: int| 0 <= i < j < all.len() implies (#[trigger] all[i]).source != (
        #[trigger] all[j]).source || all[i].name != all[j].name by {
            if j < front.len() {
                assert(all[i] == front[i] && all[j] == front[j]);
            } else {
                assert(all[i] == front[i]);
                let k = choose|k: int|
                    0 <= k < n - 1 && #[trigger] builtin_at(k).axis.name() == front[i].name;
                every_axis_parses_back(builtin_at(k).axis);
                every_axis_parses_back(b.axis);
                assert(builtin_at(k).axis != b.axis);
            }
        }
    }
}

proof fn lemma_values_distinct(e: LogEntryView, fields: TextMap<Json>)
    requires
        fields.wf(),
    ensures
        fields_distinct(values_of(e, members(fields))),
{
    let first = builtin_values(e, BUILTIN_COUNT as int);
    let extra = members(fields);
    let all = values_of(e, extra);
    lemma_builtin_values(e, BUILTIN_COUNT as int);
    assert forall|i: int, j: int| 0 <= i < j < all.len() implies (#[trigger] all[i]).source != (
    #[trigger] all[j]).source || all[i].name != all[j].name by {
        if j < first.len() {
            assert(all[i] == first[i] && all[j] == first[j]);
        } else if i < first.len() {
            assert(all[i] == first[i]);
            assert(all[j] == additional_value(extra[j - first.len()]));
        } else {
            assert(all[i] == additional_value(extra[i - first.len()]));
            assert(all[j] == additional_value(extra[j - first.len()]));
            if all[i].name == all[j].name {
                lemma_keys_distinct(fields.pairs(), i - first.len(), j - first.len());
            }
        }
    }
}

proof fn lemma_observed_sound(m: FieldMapView, e: LogEntryView, fields: TextMap<Json>)
    requires
        m.sound(),
        m.records < usize::MAX,
        fields.wf(),
    ensures
        m.observed(e, members(fields)).sound(),
{
    let values = values_of(e, members(fields));
    lemma_values_distinct(e, fields);
    lemma_bumps_keep_bound(m, values);
    let after = m.observed(e, members(fields));
    let m2 = m.bumped_all(values);
    assert forall|i: int| 0 <= i < after.rows.len() implies (#[trigger] after.rows[i]).sound()
        && after.rows[i].present <= after.records by {
        assert(m2.rows[i].sound());
    }
}

/// Deliberately the same as [`FieldMap::new`]: an empty map would skip the
/// seeding and drop every 0% row.
impl Default for FieldMap {
    fn default() -> (r: Self)
        ensures
            r.wf(),
            r@ == FieldMapView::fresh(),
    {
        Self::new()
    }
}

impl FieldMap {
    pub open spec fn wf(&self) -> bool {
        self@.sound()
    }

    pub fn new() -> (r: Self)
        ensures
            r.wf(),
            r@ == FieldMapView::fresh(),
    {
        let mut rows: Vec<Row> = Vec::new();
        let mut i: usize = 0;
        while i < BUILTIN_COUNT
            invariant
                i <= BUILTIN_COUNT,
                rows@.len() == i,
                forall|k: int| 0 <= k < i ==> (#[trigger] rows@[k])@ == seeded_row(k),
            decreases BUILTIN_COUNT - i,
        {
            let b = builtin(i);
            let values: Vec<TopValue> = Vec::new();
            proof {
                assert(views(values@) =~= seq![]);
            }
            rows.push(
                Row {
                    source: b.source,
                    name: text::owned(b.axis.as_str()),
                    present: 0,
                    values,
                    capped: false,
                    kind: b.kind,
                },
            );
            i += 1;
        }
        let r = FieldMap { rows, names_capped: false, records: 0 };
        proof {
            assert(r@.rows =~= FieldMapView::fresh().rows);
        }
        r
    }

    fn bump(&mut self, v: &FieldValue)
        requires
            forall|i: int|
                0 <= i < old(self)@.rows.len() ==> (#[trigger] old(self)@.rows[i]).sound(),
            forall|i: int|
                0 <= i < old(self)@.rows.len() && (#[trigger] old(self)@.rows[i]).source == v.source
                    && old(self)@.rows[i].name == v.name@ ==> old(self)@.rows[i].present
                    < usize::MAX,
        ensures
            final(self)@ == old(self)@.bumped(v@),
    {
        let ghost before = self@;
        let ghost vv = v@;
        let mut i: usize = 0;
        proof {
            lemma_field_at(before.rows, vv.source, vv.name);
        }
        while i < self.rows.len() && !(self.rows[i].source == v.source && text::same_owned(
            &self.rows[i].name,
            &v.name,
        ))
            invariant
                self@ == before,
                vv == v@,
                i <= self.rows@.len(),
                before.rows == views(self.rows@),
                forall|k: int|
                    0 <= k < i ==> (#[trigger] before.rows[k]).source != vv.source
                        || before.rows[k].name != vv.name,
            decreases self.rows@.len() - i,
        {
            proof {
                assert(before.rows[i as int] == self.rows@[i as int]@);
            }
            i += 1;
        }
        proof {
            let at = field_at(before.rows, vv.source, vv.name);
            if i < self.rows@.len() {
                assert(before.rows[i as int] == self.rows@[i as int]@);
            }
            if at < i {
                assert(before.rows[at].source == vv.source);
            }
            assert(i == at);
        }
        if i < self.rows.len() {
            self.rows[i].observe(v.rendered.clone(), v.kind);
            proof {
                assert(views(self.rows@) =~= before.rows.update(
                    i as int,
                    before.rows[i as int].observed(vv.rendered, vv.kind),
                ));
            }
        } else if i >= NAME_CAP {
            self.names_capped = true;
        } else {
            let values: Vec<TopValue> = vec![TopValue { value: v.rendered.clone(), count: 1 }];
            proof {
                assert(views(values@) =~= seq![TopValueView { value: vv.rendered, count: 1 }]);
            }
            self.rows.push(
                Row {
                    source: v.source,
                    name: v.name.clone(),
                    present: 1,
                    values,
                    capped: false,
                    kind: v.kind,
                },
            );
            proof {
                assert(views(self.rows@) =~= before.rows.push(FieldRowView::of(vv)));
            }
        }
    }

    /// Observe one record. Built-ins are recorded as ordinary fields.
    pub fn observe(&mut self, e: &LogEntry)
        requires
            old(self).wf(),
            e.wf(),
            old(self)@.records < usize::MAX,
        ensures
            final(self).wf(),
            final(self)@ == old(self)@.observed(e@, members(e.additional_fields)),
    {
        let ghost before = self@;
        let seen = values(e);
        let ghost all = views(seen@);
        proof {
            lemma_observed_sound(before, e@, e.additional_fields);
            lemma_values_distinct(e@, e.additional_fields);
            assert(all.take(0) =~= seq![]);
        }
        let mut i: usize = 0;
        while i < seen.len()
            invariant
                before.sound(),
                before.records < usize::MAX,
                fields_distinct(all),
                all == views(seen@),
                i <= seen@.len(),
                self@ == before.bumped_all(all.take(i as int)),
            decreases seen@.len() - i,
        {
            let v = &seen[i];
            let ghost vv = v@;
            proof {
                let done = all.take(i as int);
                assert(vv == all[i as int]);
                assert(all.take(i + 1).drop_last() =~= done);
                assert(all.take(i + 1).last() == vv);
                assert(fields_distinct(done)) by {
                    assert forall|a: int, b: int| 0 <= a < b < done.len() implies (
                    #[trigger] done[a]).source != (#[trigger] done[b]).source || done[a].name
                        != done[b].name by {
                        assert(all[a].source != all[b].source || all[a].name != all[b].name);
                    }
                }
                lemma_bumps_keep_bound(before, done);
                assert(!names_field(done, vv.source, vv.name)) by {
                    if names_field(done, vv.source, vv.name) {
                        let k = choose|k: int|
                            0 <= k < done.len() && (#[trigger] done[k]).source == vv.source
                                && done[k].name == vv.name;
                        assert(all[k] == done[k]);
                    }
                }
            }
            self.bump(v);
            i += 1;
        }
        proof {
            assert(all.take(i as int) =~= all);
            lemma_bumps_keep_bound(before, all);
        }
        self.records = self.records + 1;
    }

    /// Whether the cap on field names was hit, so that the caller can say so
    /// rather than present a truncated map as the whole one.
    pub fn names_capped(&self) -> (r: bool)
        ensures
            r == self@.names_capped,
    {
        self.names_capped
    }
}

/// What is reported of one field.
#[derive(Debug, PartialEq, Eq)]
pub struct FieldStats {
    pub field: String,
    pub source: FieldSource,
    /// What is typed to filter by the field, where there is such a thing.
    pub selector: Option<String>,
    pub kind: ValueKind,
    /// How many of the `matched` records have the field: its coverage.
    pub present: usize,
    pub matched: usize,
    /// How many values it has, unless there were too many to tell.
    pub distinct: Option<usize>,
    pub top_values: Vec<TopValue>,
}

/// What a [`FieldStats`] reports.
#[verifier::ext_equal]
pub struct FieldStatsView {
    pub field: Seq<char>,
    pub source: FieldSource,
    pub selector: Option<Seq<char>>,
    pub kind: ValueKind,
    pub present: usize,
    pub matched: usize,
    pub distinct: Option<usize>,
    pub top_values: Seq<TopValueView>,
}

impl View for FieldStats {
    type V = FieldStatsView;

    open spec fn view(&self) -> FieldStatsView {
        FieldStatsView {
            field: self.field@,
            source: self.source,
            selector: optional_text(self.selector),
            kind: self.kind,
            present: self.present,
            matched: self.matched,
            distinct: self.distinct,
            top_values: views(self.top_values@),
        }
    }
}

/// Whether a name comes before another, or is the same from a source that comes
/// first.
pub open spec fn named_before(a: FieldStatsView, b: FieldStatsView) -> bool {
    precedes(a.field, b.field) || (a.field == b.field && a.source.place() < b.source.place())
}

proof fn lemma_named_transitive(a: FieldStatsView, b: FieldStatsView, c: FieldStatsView)
    requires
        named_before(a, b),
        named_before(b, c),
    ensures
        named_before(a, c),
{
    if precedes(a.field, b.field) && precedes(b.field, c.field) {
        lemma_precedes_transitive(a.field, b.field, c.field);
    }
}

/// Coverage from the highest down, then name, then source: two rows can share a
/// name, and leaving that tie open would make two identical reads differ.
impl Ranked for FieldStats {
    open spec fn above(a: FieldStatsView, b: FieldStatsView) -> bool {
        a.present > b.present || (a.present == b.present && named_before(a, b))
    }

    proof fn above_is_strict(a: FieldStatsView, b: FieldStatsView) {
        if a.present == b.present && named_before(b, a) {
            lemma_named_transitive(a, b, a);
            lemma_precedes_irreflexive(a.field);
        }
    }

    proof fn not_above_chains(a: FieldStatsView, b: FieldStatsView, c: FieldStatsView) {
        if Self::above(a, c) && a.present == c.present && a.present == b.present {
            lemma_precedes_total(b.field, c.field);
            lemma_precedes_total(a.field, b.field);
            lemma_precedes_irreflexive(a.field);
            if named_before(c, b) && named_before(b, a) {
                lemma_named_transitive(c, b, a);
                lemma_named_transitive(a, c, a);
            } else if named_before(c, b) {
                assert(a.field == b.field && a.source.place() == b.source.place());
            } else {
                assert(b.field == c.field && b.source.place() == c.source.place());
            }
        }
    }

    fn is_above(&self, other: &Self) -> (r: bool) {
        self.present > other.present || (self.present == other.present && (text_before(
            &self.field,
            &other.field,
        ) || (text::same_owned(&self.field, &other.field) && self.source.rank()
            < other.source.rank())))
    }
}

/// The selector of a field that is always reported, looked up by source and
/// name from the `i`th on.
pub open spec fn builtin_selector_from(source: FieldSource, name: Seq<char>, i: int) -> Option<
    Seq<char>,
>
    decreases BUILTIN_COUNT - i,
{
    if i >= BUILTIN_COUNT {
        None
    } else if builtin_at(i).axis.name() == name && builtin_at(i).source == source {
        builtin_at(i).selector
    } else {
        builtin_selector_from(source, name, i + 1)
    }
}

/// What is typed to filter by a field. A built-in's selector is fixed; an
/// additional field is reached by its own name where a filter that spells it
/// reaches it at all, so that a claimed selector never matches another field.
pub open spec fn selector_for(source: FieldSource, name: Seq<char>) -> Option<Seq<char>> {
    if source != FieldSource::Additional {
        builtin_selector_from(source, name, 0)
    } else if reaches_additional(name) {
        Some(name)
    } else {
        None
    }
}

fn selector(source: FieldSource, name: &String) -> (r: Option<String>)
    ensures
        optional_text(r) == selector_for(source, name@),
{
    if source == FieldSource::Additional {
        return additional_field_selector(name);
    }
    let mut i: usize = 0;
    while i < BUILTIN_COUNT
        invariant
            i <= BUILTIN_COUNT,
            source != FieldSource::Additional,
            selector_for(source, name@) == builtin_selector_from(source, name@, i as int),
        decreases BUILTIN_COUNT - i,
    {
        let b = builtin(i);
        if b.source == source && text::same(b.axis.as_str(), name) {
            return match b.selector {
                Some(s) => Some(text::owned(s)),
                None => None,
            };
        }
        i += 1;
    }
    None
}

/// What is reported of a row. `distinct` is taken before the values are cut.
pub open spec fn stats_of(row: FieldRowView, matched: usize, top: nat) -> FieldStatsView {
    FieldStatsView {
        field: row.name,
        source: row.source,
        selector: selector_for(row.source, row.name),
        kind: row.kind,
        present: row.present,
        matched,
        distinct: if row.capped {
            None
        } else {
            Some(row.values.len() as usize)
        },
        top_values: at_most(ranked::<TopValue>(row.values), top),
    }
}

/// What is reported of a list of rows, in their order.
pub open spec fn all_stats(rows: Seq<FieldRowView>, matched: usize, top: nat) -> Seq<
    FieldStatsView,
> {
    rows.map_values(|row: FieldRowView| stats_of(row, matched, top))
}

/// The whole report.
pub open spec fn field_report(m: FieldMapView, matched: usize, top: nat) -> Seq<FieldStatsView> {
    ranked::<FieldStats>(all_stats(m.rows, matched, top))
}

impl Row {
    fn stats(&self, matched: usize, top: usize) -> (r: FieldStats)
        ensures
            r@ == stats_of(self@, matched, top as nat),
    {
        let ghost all = self@.values;
        let mut top_values: Vec<TopValue> = Vec::new();
        let mut i: usize = 0;
        proof {
            assert(all.take(0) =~= seq![]);
            assert(views(top_values@) =~= seq![]);
        }
        while i < self.values.len()
            invariant
                all == self@.values,
                all == views(self.values@),
                i <= self.values@.len(),
                views(top_values@) == ranked::<TopValue>(all.take(i as int)),
            decreases self.values@.len() - i,
        {
            let v = TopValue { value: self.values[i].value.clone(), count: self.values[i].count };
            proof {
                assert(all.take(i + 1).drop_last() =~= all.take(i as int));
                assert(all.take(i + 1).last() == v@);
            }
            place(&mut top_values, v);
            i += 1;
        }
        let ghost before = top_values@;
        top_values.truncate(top);
        proof {
            assert(all.take(all.len() as int) =~= all);
            assert(views(top_values@) =~= at_most(views(before), top as nat));
        }
        FieldStats {
            field: self.name.clone(),
            source: self.source,
            selector: selector(self.source, &self.name),
            kind: self.kind,
            present: self.present,
            matched,
            distinct: if self.capped {
                None
            } else {
                Some(self.values.len())
            },
            top_values,
        }
    }
}

impl FieldMap {
    /// Close the map.
    ///
    /// `matched` is passed in rather than counted here: the caller already has
    /// it from the walk, and a second count taken over a different iteration is
    /// how two numbers describing one population come to disagree.
    pub fn finish(self, matched: usize, top_values: usize) -> (r: Vec<FieldStats>)
        ensures
            views(r@) == field_report(self@, matched, top_values as nat),
    {
        let ghost all = all_stats(self@.rows, matched, top_values as nat);
        let mut out: Vec<FieldStats> = Vec::new();
        let mut i: usize = 0;
        proof {
            assert(all.take(0) =~= seq![]);
            assert(views(out@) =~= seq![]);
        }
        while i < self.rows.len()
            invariant
                all == all_stats(self@.rows, matched, top_values as nat),
                self@.rows == views(self.rows@),
                i <= self.rows@.len(),
                views(out@) == ranked::<FieldStats>(all.take(i as int)),
            decreases self.rows@.len() - i,
        {
            let stats = self.rows[i].stats(matched, top_values);
            proof {
                assert(all.take(i + 1).drop_last() =~= all.take(i as int));
                assert(all.take(i + 1).last() == stats@);
            }
            place(&mut out, stats);
            i += 1;
        }
        proof {
            assert(all.take(all.len() as int) =~= all);
        }
        out
    }
}

/// A record as a field map reads it.
pub open spec fn read_record(e: LogEntry) -> (LogEntryView, Seq<(Seq<char>, JsonView)>) {
    (e@, members(e.additional_fields))
}

/// A map that has seen a list of records.
pub open spec fn mapped(records: Seq<LogEntry>) -> FieldMapView
    decreases records.len(),
{
    if records.len() == 0 {
        FieldMapView::fresh()
    } else {
        let (e, extra) = read_record(records.last());
        mapped(records.drop_last()).observed(e, extra)
    }
}

/// Convenience for callers that already hold the records.
pub fn summarize(entries: &Vec<LogEntry>, matched: usize, top_values: usize) -> (r: Vec<FieldStats>)
    requires
        all_wf(entries@),
        entries@.len() < usize::MAX,
    ensures
        views(r@) == field_report(mapped(entries@), matched, top_values as nat),
{
    let mut map = FieldMap::new();
    let mut i: usize = 0;
    proof {
        assert(entries@.take(0) =~= seq![]);
    }
    while i < entries.len()
        invariant
            all_wf(entries@),
            entries@.len() < usize::MAX,
            i <= entries@.len(),
            map.wf(),
            map@ == mapped(entries@.take(i as int)),
            map@.records == i,
        decreases entries@.len() - i,
    {
        proof {
            assert(entries@.take(i + 1).drop_last() =~= entries@.take(i as int));
            assert(entries@.take(i + 1).last() == entries@[i as int]);
        }
        map.observe(&entries[i]);
        i += 1;
    }
    proof {
        assert(entries@.take(entries@.len() as int) =~= entries@);
    }
    map.finish(matched, top_values)
}

/// No field has two rows.
pub open spec fn rows_distinct(rows: Seq<FieldRowView>) -> bool {
    forall|i: int, j: int|
        0 <= i < j < rows.len() ==> (#[trigger] rows[i]).source != (#[trigger] rows[j]).source
            || rows[i].name != rows[j].name
}

/// The fields that are always reported come first, and nothing takes them out.
pub open spec fn seeded(rows: Seq<FieldRowView>) -> bool {
    &&& rows.len() >= BUILTIN_COUNT
    &&& forall|i: int|
        0 <= i < BUILTIN_COUNT ==> (#[trigger] rows[i]).source == builtin_at(i).source
            && rows[i].name == builtin_at(i).axis.name()
}

/// How often the values of a row were seen in all.
pub open spec fn value_total(values: Seq<TopValueView>) -> int
    decreases values.len(),
{
    if values.len() == 0 {
        0
    } else {
        value_total(values.drop_last()) + values.last().count
    }
}

/// The counts of a row are those of its records, all of them unless it is
/// capped.
pub open spec fn row_reconciles(row: FieldRowView) -> bool {
    &&& row.values.len() <= DISTINCT_CAP
    &&& value_total(row.values) <= row.present
    &&& !row.capped ==> value_total(row.values) == row.present
}

/// What every map that was built from records keeps: a field has one row, the
/// built-ins keep theirs, no row covers more records than there were, and the
/// counts of a row's values are those of the records that have the field.
pub open spec fn tells_the_truth(m: FieldMapView) -> bool {
    &&& m.sound()
    &&& rows_distinct(m.rows)
    &&& seeded(m.rows)
    &&& m.rows.len() <= NAME_CAP
    &&& forall|i: int| 0 <= i < m.rows.len() ==> row_reconciles(#[trigger] m.rows[i])
}

proof fn lemma_value_total_update(values: Seq<TopValueView>, at: int, v: TopValueView)
    requires
        0 <= at < values.len(),
    ensures
        value_total(values.update(at, v)) == value_total(values) - values[at].count + v.count,
    decreases values.len(),
{
    let after = values.update(at, v);
    if at == values.len() - 1 {
        assert(after.drop_last() =~= values.drop_last());
    } else {
        lemma_value_total_update(values.drop_last(), at, v);
        assert(after.drop_last() =~= values.drop_last().update(at, v));
    }
}

proof fn lemma_row_observed(row: FieldRowView, rendered: Seq<char>, kind: ValueKind)
    requires
        row_reconciles(row),
        row.sound(),
        row.present < usize::MAX,
    ensures
        row_reconciles(row.observed(rendered, kind)),
{
    lemma_value_at(row.values, rendered);
    let at = value_at(row.values, rendered);
    let after = row.observed(rendered, kind);
    if at < row.values.len() {
        assert(row.values[at].count <= row.present);
        lemma_value_total_update(row.values, at, after.values[at]);
    } else if at < DISTINCT_CAP {
        assert(after.values.drop_last() =~= row.values);
    }
}

proof fn lemma_bumped_truth(m: FieldMapView, v: FieldValueView)
    requires
        rows_distinct(m.rows),
        seeded(m.rows),
        m.rows.len() <= NAME_CAP,
        forall|i: int|
            0 <= i < m.rows.len() ==> row_reconciles(#[trigger] m.rows[i]) && m.rows[i].sound(),
        forall|i: int|
            0 <= i < m.rows.len() && (#[trigger] m.rows[i]).source == v.source && m.rows[i].name
                == v.name ==> m.rows[i].present < usize::MAX,
    ensures
        rows_distinct(m.bumped(v).rows),
        seeded(m.bumped(v).rows),
        m.bumped(v).rows.len() <= NAME_CAP,
        forall|i: int|
            0 <= i < m.bumped(v).rows.len() ==> row_reconciles(#[trigger] m.bumped(v).rows[i]),
{
    let after = m.bumped(v);
    let at = field_at(m.rows, v.source, v.name);
    lemma_field_at(m.rows, v.source, v.name);
    if at < m.rows.len() {
        lemma_row_observed(m.rows[at], v.rendered, v.kind);
        assert(after.rows[at].source == m.rows[at].source);
        assert(after.rows[at].name == m.rows[at].name);
        assert forall|i: int, j: int| 0 <= i < j < after.rows.len() implies (
        #[trigger] after.rows[i]).source != (#[trigger] after.rows[j]).source
            || after.rows[i].name != after.rows[j].name by {
            assert(m.rows[i].source != m.rows[j].source || m.rows[i].name != m.rows[j].name);
        }
        assert forall|i: int| 0 <= i < BUILTIN_COUNT implies (#[trigger] after.rows[i]).source
            == builtin_at(i).source && after.rows[i].name == builtin_at(i).axis.name() by {
            assert(m.rows[i].source == builtin_at(i).source);
        }
    } else if at < NAME_CAP {
        let row = FieldRowView::of(v);
        assert(row.values.drop_last() =~= seq![]);
        assert(row_reconciles(row)) by {
            reveal_with_fuel(value_total, 2);
        }
        assert forall|i: int, j: int| 0 <= i < j < after.rows.len() implies (
        #[trigger] after.rows[i]).source != (#[trigger] after.rows[j]).source
            || after.rows[i].name != after.rows[j].name by {
            assert(after.rows[i] == m.rows[i]);
            if j < m.rows.len() {
                assert(after.rows[j] == m.rows[j]);
            }
        }
        assert forall|i: int| 0 <= i < BUILTIN_COUNT implies (#[trigger] after.rows[i]).source
            == builtin_at(i).source && after.rows[i].name == builtin_at(i).axis.name() by {
            assert(m.rows[i].source == builtin_at(i).source);
        }
    }
}

proof fn lemma_bumps_truth(m: FieldMapView, values: Seq<FieldValueView>)
    requires
        tells_the_truth(m),
        m.records < usize::MAX,
        fields_distinct(values),
    ensures
        ({
            let after = m.bumped_all(values);
            &&& rows_distinct(after.rows)
            &&& seeded(after.rows)
            &&& after.rows.len() <= NAME_CAP
            &&& forall|i: int| 0 <= i < after.rows.len() ==> row_reconciles(#[trigger] after.rows[i])
        }),
    decreases values.len(),
{
    if values.len() > 0 {
        let front = values.drop_last();
        let v = values.last();
        assert(fields_distinct(front)) by {
            assert forall|i: int, j: int| 0 <= i < j < front.len() implies (
            #[trigger] front[i]).source != (#[trigger] front[j]).source || front[i].name
                != front[j].name by {
                assert(values[i].source != values[j].source || values[i].name != values[j].name);
            }
        }
        lemma_bumps_truth(m, front);
        lemma_bumps_keep_bound(m, front);
        assert(!names_field(front, v.source, v.name)) by {
            if names_field(front, v.source, v.name) {
                let k = choose|k: int|
                    0 <= k < front.len() && (#[trigger] front[k]).source == v.source
                        && front[k].name == v.name;
                assert(values[k] == front[k] && values[values.len() - 1] == v);
            }
        }
        lemma_bumped_truth(m.bumped_all(front), v);
    }
}

/// A field map tells the truth of the records that it was built from.
pub proof fn maps_tell_the_truth(records: Seq<LogEntry>)
    requires
        all_wf(records),
        records.len() < usize::MAX,
    ensures
        tells_the_truth(mapped(records)),
        mapped(records).records == records.len(),
    decreases records.len(),
{
    if records.len() == 0 {
        let rows = FieldMapView::fresh().rows;
        assert forall|i: int, j: int| 0 <= i < j < rows.len() implies (#[trigger] rows[i]).source
            != (#[trigger] rows[j]).source || rows[i].name != rows[j].name by {
            every_axis_parses_back(builtin_at(i).axis);
            every_axis_parses_back(builtin_at(j).axis);
            assert(builtin_at(i).axis != builtin_at(j).axis);
        }
    } else {
        let front = records.drop_last();
        let e = records.last();
        assert(all_wf(front)) by {
            assert(forall|i: int| 0 <= i < front.len() ==> #[trigger] front[i] == records[i]);
        }
        maps_tell_the_truth(front);
        let m = mapped(front);
        let values = values_of(e@, members(e.additional_fields));
        assert(records[records.len() - 1].wf());
        lemma_values_distinct(e@, e.additional_fields);
        lemma_bumps_truth(m, values);
        lemma_bumps_keep_bound(m, values);
        lemma_observed_sound(m, e@, e.additional_fields);
    }
}

/// Whether a report has a row for a field.
pub open spec fn reports(
    report: Seq<FieldStatsView>,
    source: FieldSource,
    name: Seq<char>,
) -> bool {
    exists|k: int|
        0 <= k < report.len() && (#[trigger] report[k]).source == source && report[k].field == name
}

/// The report has a row for every built-in field, whether or not any record has
/// it.
pub proof fn builtins_are_always_reported(records: Seq<LogEntry>, i: int, matched: usize, top: nat)
    requires
        all_wf(records),
        records.len() < usize::MAX,
        0 <= i < BUILTIN_COUNT,
    ensures
        reports(
            field_report(mapped(records), matched, top),
            builtin_at(i).source,
            builtin_at(i).axis.name(),
        ),
{
    broadcast use vstd::seq_lib::group_to_multiset_ensures;

    maps_tell_the_truth(records);
    let m = mapped(records);
    let rows = all_stats(m.rows, matched, top);
    let report = field_report(m, matched, top);
    crate::ranking::ranking_orders_and_keeps::<FieldStats>(rows);
    assert(rows[i] == stats_of(m.rows[i], matched, top));
    assert(rows.contains(rows[i]));
    assert(rows.to_multiset().count(rows[i]) > 0);
    assert(report.to_multiset().count(rows[i]) > 0);
    assert(report.contains(rows[i]));
    let k = choose|k: int| 0 <= k < report.len() && report[k] == rows[i];
    assert(m.rows[i].source == builtin_at(i).source);
    assert(report[k].source == builtin_at(i).source);
}

/// A selector that is claimed for an additional field is its name, and a filter
/// that spells it looks at that field.
pub proof fn claimed_selectors_reach_their_row(name: Seq<char>)
    ensures
        selector_for(FieldSource::Additional, name) matches Some(s) ==> s == name
            && reaches_additional(name),
{
}

/// What kind a field is of does not depend on the order in which its values came.
/// Integers and floats are one quantity; anything else that differs is mixed, and
/// stays so.
pub proof fn kinds_merge_alike_in_any_order(a: ValueKind, b: ValueKind, c: ValueKind)
    ensures
        merged_kind(a, b) == merged_kind(b, a),
        merged_kind(merged_kind(a, b), c) == merged_kind(a, merged_kind(b, c)),
        merged_kind(a, a) == a,
        merged_kind(ValueKind::Integer, ValueKind::Float) == ValueKind::Number,
        a != b && !(is_numeric(a) && is_numeric(b)) ==> merged_kind(a, b) == ValueKind::Mixed,
        merged_kind(ValueKind::Mixed, a) == ValueKind::Mixed,
{
}

/// A value is of the kind that it is written as.
pub proof fn kinds_are_what_was_written(v: JsonView)
    ensures
        v is Text ==> kind_of_view(v) == ValueKind::Text,
        v is Bool ==> kind_of_view(v) == ValueKind::Bool,
        v matches JsonView::Number(n) ==> (kind_of_view(v) == ValueKind::Integer <==> n.unsigned is Some
            || n.signed is Some) && (kind_of_view(v) == ValueKind::Float <==> n.unsigned is None
            && n.signed is None),
        v is Null || v is Array || v is Object ==> kind_of_view(v) == ValueKind::Other,
{
}

/// What is built in, and how a filter selects it.
pub proof fn builtins_have_their_selectors()
    ensures
        builtin_at(0).axis == Axis::Level && builtin_at(0).selector == Some("l"@),
        builtin_at(1).axis == Axis::Message && builtin_at(1).selector == Some("m"@),
        builtin_at(2).axis == Axis::Host && builtin_at(2).selector == Some("h"@),
        builtin_at(3).axis == Axis::Facility && builtin_at(3).selector == Some("fa"@),
        builtin_at(4).axis == Axis::File && builtin_at(4).selector == Some("fi"@),
        builtin_at(5).axis == Axis::Line && builtin_at(5).selector == Some("ln"@),
        builtin_at(6).axis == Axis::TraceId && builtin_at(6).selector is None,
        builtin_at(7).axis == Axis::SpanId && builtin_at(7).selector is None,
        forall|i: int|
            0 <= i < 8 ==> (#[trigger] builtin_at(i)).source == (if i < 6 {
                FieldSource::Builtin
            } else {
                FieldSource::Promoted
            }),
        forall|i: int|
            0 <= i < 8 ==> (#[trigger] builtin_at(i)).kind == (if i == 5 {
                ValueKind::Integer
            } else {
                ValueKind::Text
            }),
{
}

/// A built-in field is selected by its own selector.
pub proof fn builtin_fields_keep_their_selector(i: int, j: int)
    requires
        0 <= j <= i < 8,
    ensures
        builtin_selector_from(builtin_at(i).source, builtin_at(i).axis.name(), j) == builtin_at(
            i,
        ).selector,
    decreases i - j,
{
    every_axis_parses_back(builtin_at(i).axis);
    every_axis_parses_back(builtin_at(j).axis);
    if j < i {
        builtin_fields_keep_their_selector(i, j + 1);
    }
}

/// A record has a value for every built-in field that it carries.
pub proof fn carried_builtins_are_read(e: LogEntryView, n: int, i: int) -> (k: int)
    requires
        0 <= i < n <= 8,
        axis_text(builtin_at(i).axis, e) is Some,
    ensures
        0 <= k < builtin_values(e, n).len(),
        builtin_values(e, n)[k].source == builtin_at(i).source,
        builtin_values(e, n)[k].name == builtin_at(i).axis.name(),
        builtin_values(e, n)[k].rendered == axis_text(builtin_at(i).axis, e)->0,
        builtin_values(e, n)[k].kind == builtin_at(i).kind,
    decreases n,
{
    if i == n - 1 {
        builtin_values(e, n).len() - 1
    } else {
        let k = carried_builtins_are_read(e, n - 1, i);
        assert(builtin_values(e, n)[k] == builtin_values(e, n - 1)[k]);
        k
    }
}

/// A record has a value for every additional field that it carries, under its name and in
/// its text.
pub proof fn additional_fields_are_read(
    e: LogEntryView,
    extra: Seq<(Seq<char>, JsonView)>,
    i: int,
)
    requires
        0 <= i < extra.len(),
    ensures
        ({
            let v = values_of(e, extra)[builtin_values(e, 8).len() + i];
            &&& v.source == FieldSource::Additional
            &&& v.name == extra[i].0
            &&& extra[i].1 matches JsonView::Text(s) ==> v.rendered == s
            &&& v.kind == kind_of_view(extra[i].1)
        }),
        values_of(e, extra).len() == builtin_values(e, 8).len() + extra.len(),
{
}

/// A value counts once, in the row of its field, and in no other; a field that has no row
/// is given one, as long as there are fewer than 1024.
pub proof fn values_count_in_their_row(m: FieldMapView, v: FieldValueView) -> (i: int)
    requires
        m.sound(),
        m.records < usize::MAX,
    ensures
        0 <= i <= m.rows.len(),
        ({
            let after = m.bumped(v).rows;
            &&& i < m.rows.len() ==> {
                &&& m.rows[i].source == v.source && m.rows[i].name == v.name
                &&& after.len() == m.rows.len()
                &&& after[i].present == m.rows[i].present + 1
                &&& after[i].source == v.source && after[i].name == v.name
            }
            &&& i == m.rows.len() ==> {
                &&& forall|j: int|
                    0 <= j < m.rows.len() ==> (#[trigger] m.rows[j]).source != v.source
                        || m.rows[j].name != v.name
                &&& i < 1024 ==> after.len() == i + 1 && after[i].present == 1 && after[i].source
                    == v.source && after[i].name == v.name && after[i].values == seq![
                    TopValueView { value: v.rendered, count: 1usize },
                ]
                &&& i >= 1024 ==> after == m.rows && m.bumped(v).names_capped
            }
            &&& forall|j: int| 0 <= j < m.rows.len() && j != i ==> #[trigger] after[j] == m.rows[j]
        }),
{
    lemma_field_at(m.rows, v.source, v.name);
    let i = field_at(m.rows, v.source, v.name);
    if i < m.rows.len() {
        assert(m.rows[i].present <= m.records);
    }
    i
}

/// Within its row a value is counted under its text; a new one is listed as long as there
/// are fewer than 1024, and the row says where it stopped.
pub proof fn texts_are_counted_apart(
    row: FieldRowView,
    rendered: Seq<char>,
    kind: ValueKind,
) -> (i: int)
    requires
        row.sound(),
        row.present < usize::MAX,
    ensures
        0 <= i <= row.values.len(),
        ({
            let after = row.observed(rendered, kind);
            &&& after.present == row.present + 1
            &&& i < row.values.len() ==> {
                &&& row.values[i].value == rendered
                &&& after.values.len() == row.values.len()
                &&& after.values[i].value == rendered
                &&& after.values[i].count == row.values[i].count + 1
                &&& after.capped == row.capped
            }
            &&& i == row.values.len() ==> {
                &&& forall|j: int|
                    0 <= j < row.values.len() ==> (#[trigger] row.values[j]).value != rendered
                &&& i < 1024 ==> after.values == row.values.push(
                    TopValueView { value: rendered, count: 1usize },
                ) && after.capped == row.capped
                &&& i >= 1024 ==> after.values == row.values && after.capped
            }
            &&& forall|j: int|
                0 <= j < row.values.len() && j != i ==> #[trigger] after.values[j] == row.values[j]
        }),
{
    lemma_value_at(row.values, rendered);
    let i = value_at(row.values, rendered);
    if i < row.values.len() {
        assert(row.values[i].count <= row.present);
    }
    i
}

/// What is reported of a field is what its row counted: how often it was there, its most
/// frequent values first, and how many it has unless counting them was given up.
pub proof fn fields_are_reported_as_counted(row: FieldRowView, matched: usize, top: nat)
    requires
        row.values.len() <= usize::MAX,
    ensures
        ({
            let s = stats_of(row, matched, top);
            &&& s.field == row.name
            &&& s.source == row.source
            &&& s.kind == row.kind
            &&& s.present == row.present
            &&& s.matched == matched
            &&& row.capped ==> s.distinct is None
            &&& !row.capped ==> s.distinct is Some && s.distinct->0 == row.values.len()
            &&& s.top_values.len() <= top
            &&& forall|i: int, j: int|
                0 <= i < j < s.top_values.len() ==> (#[trigger] s.top_values[i]).count >= (
                #[trigger] s.top_values[j]).count
        }),
{
    ranking_orders_and_keeps::<TopValue>(row.values);
    let all = ranked::<TopValue>(row.values);
    let s = stats_of(row, matched, top);
    assert forall|i: int, j: int| 0 <= i < j < s.top_values.len() implies (
    #[trigger] s.top_values[i]).count >= (#[trigger] s.top_values[j]).count by {
        assert(s.top_values[i] == all[i]);
        assert(s.top_values[j] == all[j]);
        assert(!TopValue::above(all[j], all[i]));
    }
}

/// Fields that are there more often are reported first.
pub proof fn frequent_fields_come_first(
    m: FieldMapView,
    matched: usize,
    top: nat,
    i: int,
    j: int,
)
    requires
        0 <= i < j < field_report(m, matched, top).len(),
    ensures
        field_report(m, matched, top).len() == m.rows.len(),
        field_report(m, matched, top)[i].present >= field_report(m, matched, top)[j].present,
{
    let all = all_stats(m.rows, matched, top);
    ranking_orders_and_keeps::<FieldStats>(all);
    let report = field_report(m, matched, top);
    assert(!FieldStats::above(report[j], report[i]));
}

/// A map begins with a row for each built-in field, of which nothing has been seen.
pub proof fn maps_begin_with_the_builtins(i: int)
    requires
        0 <= i < 8,
    ensures
        FieldMapView::fresh().rows.len() == 8,
        FieldMapView::fresh().rows[i].source == builtin_at(i).source,
        FieldMapView::fresh().rows[i].name == builtin_at(i).axis.name(),
        FieldMapView::fresh().rows[i].present == 0,
        FieldMapView::fresh().rows[i].values.len() == 0,
        !FieldMapView::fresh().rows[i].capped,
        FieldMapView::fresh().records == 0,
        !FieldMapView::fresh().names_capped,
        selector_for(builtin_at(i).source, builtin_at(i).axis.name()) == builtin_at(i).selector,
{
    builtin_fields_keep_their_selector(i, 0);
}

} // verus!
