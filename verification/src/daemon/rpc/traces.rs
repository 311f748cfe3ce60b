//! What the `traces.*` and `spans.*` methods ask for, and what of their answers
//! is no matter of durations.
use crate::daemon::rpc::logs::{
    advance_cursor, advanced_seqs, advanced_to, optional_cursor, parse_and_resolve_filter,
    query_filter, query_seqs, size_given, size_param, LogQuery, LogQueryView, QueryFilterView,
};
use crate::daemon::rpc::params::{
    bool_param, bounded_param, given, opt_bool, opt_context_window, opt_str, opt_u64, opt_usize, req_str,
    req_u64, required_str, required_u64, str_param, u64_param, MAX_CONTEXT_WINDOW,
};
use crate::filter::parser::{
    evicted, evicted_before_window, lower_seq_range, narrowed_to, optional_filter, reading_views,
    seq_range, DurationReading, DurationReadingView, FilterView, ParsedFilter,
};
use crate::gelf::message::LogEntry;
use crate::json::{Json, JsonView};
use crate::span::types::{span_views, SpanEntry, SpanEntryView};
use crate::store::bookmarks::{BookmarkStore, CursorCommit};
use crate::store::memory::{all_wf, entry_list};
use crate::store::selection::{
    clone_at, count_matching, matching, pick, places, records_at, selection,
};
use crate::text;
use crate::text::{hex_of, hex_up_to};
use vstd::prelude::*;

verus! {

broadcast use vstd::string::group_string_axioms;

/// The refusal of a cursor. Reading through one moves it, so a method that only
/// gathers evidence does not.
pub open spec fn no_cursor(method: Seq<char>) -> Seq<char> {
    "cursor qualifier not permitted in "@ + method
}

/// The filter of a call that may not read through a cursor.
pub open spec fn cursorless_filter(
    params: JsonView,
    method: Seq<char>,
    readings: Seq<DurationReadingView>,
    seqs: Map<Seq<char>, u64>,
    session: Seq<char>,
) -> Result<Option<FilterView>, Seq<char>> {
    match str_param(params, "filter"@) {
        Err(e) => Err(e),
        Ok(filter) => match query_filter(filter, readings, seqs, session) {
            Err(e) => Err(e),
            Ok(q) => if q.cursor is Some {
                Err(no_cursor(method))
            } else {
                Ok(q.filter)
            },
        },
    }
}

/// The bookmarks after the filter of a call has been read.
pub open spec fn seqs_after_filter(
    params: JsonView,
    readings: Seq<DurationReadingView>,
    seqs: Map<Seq<char>, u64>,
    session: Seq<char>,
) -> Map<Seq<char>, u64> {
    match str_param(params, "filter"@) {
        Ok(filter) => query_seqs(filter, readings, seqs, session),
        Err(_) => seqs,
    }
}

/// Read the filter of a call of `method`, which may not read through a cursor.
pub fn filter_without_cursor(
    params: &Json,
    method: &str,
    readings: &Vec<DurationReading>,
    bookmarks: &mut BookmarkStore,
    session: &str,
) -> (r: Result<Option<ParsedFilter>, String>)
    requires
        old(bookmarks).wf(),
    ensures
        final(bookmarks).wf(),
        final(bookmarks)@ == seqs_after_filter(
            params@,
            reading_views(readings@),
            old(bookmarks)@,
            session@,
        ),
        match r {
            Ok(f) => cursorless_filter(
                params@,
                method@,
                reading_views(readings@),
                old(bookmarks)@,
                session@,
            ) == Ok::<Option<FilterView>, Seq<char>>(optional_filter(f)),
            Err(e) => cursorless_filter(
                params@,
                method@,
                reading_views(readings@),
                old(bookmarks)@,
                session@,
            ) == Err::<Option<FilterView>, Seq<char>>(e@),
        },
{
    let filter = match opt_str(params, "filter") {
        Ok(f) => f,
        Err(e) => return Err(e),
    };
    match parse_and_resolve_filter(filter, readings, bookmarks, session) {
        Err(e) => Err(e),
        Ok(q) => match q.cursor_commit {
            Some(_) => Err(text::join2("cursor qualifier not permitted in ", method)),
            None => Ok(q.filter),
        },
    }
}

/// The trace that a call names, or `invalid`.
pub open spec fn trace_param(params: JsonView, invalid: Seq<char>) -> Result<u128, Seq<char>> {
    match required_str(params, "trace_id"@) {
        Err(e) => Err(e),
        Ok(hex) => match hex_up_to(hex, u128::MAX as nat) {
            Some(id) => Ok(id as u128),
            None => Err(invalid),
        },
    }
}

/// Read the trace that a call names.
pub fn trace_of(params: &Json, invalid: &str) -> (r: Result<u128, String>)
    ensures
        match r {
            Ok(id) => trace_param(params@, invalid@) == Ok::<u128, Seq<char>>(id),
            Err(e) => trace_param(params@, invalid@) == Err::<u128, Seq<char>>(e@),
        },
{
    match req_str(params, "trace_id") {
        Err(e) => Err(e),
        Ok(hex) => match text::parse_hex_u128(hex) {
            Some(id) => Ok(id),
            None => Err(text::owned(invalid)),
        },
    }
}

/// What a call of `traces.get` asks for.
#[derive(Debug)]
pub struct TraceQuery {
    pub trace_id: u128,
    pub include_logs: bool,
    pub filter: Option<ParsedFilter>,
}

/// Read a call of `traces.get`.
pub fn traces_get(
    params: &Json,
    readings: &Vec<DurationReading>,
    bookmarks: &mut BookmarkStore,
    session: &str,
) -> (r: Result<TraceQuery, String>)
    requires
        old(bookmarks).wf(),
    ensures
        final(bookmarks).wf(),
        final(bookmarks)@ == (if trace_param(params@, "invalid trace_id: must be 32-char hex"@) is Ok
            && bool_param(params@, "include_logs"@) is Ok {
            seqs_after_filter(params@, reading_views(readings@), old(bookmarks)@, session@)
        } else {
            old(bookmarks)@
        }),
        match (
            trace_param(params@, "invalid trace_id: must be 32-char hex"@),
            bool_param(params@, "include_logs"@),
            cursorless_filter(
                params@,
                "traces.get"@,
                reading_views(readings@),
                old(bookmarks)@,
                session@,
            ),
        ) {
            (Err(why), _, _) => r matches Err(e) && e@ == why,
            (_, Err(why), _) => r matches Err(e) && e@ == why,
            (_, _, Err(why)) => r matches Err(e) && e@ == why,
            (Ok(id), Ok(logs), Ok(filter)) => {
                &&& r matches Ok(q)
                &&& q.trace_id == id
                &&& q.include_logs == (logs != Some(false))
                &&& optional_filter(q.filter) == filter
            },
        },
{
    let trace_id: u128 = match trace_of(params, "invalid trace_id: must be 32-char hex") {
        Ok(id) => id,
        Err(e) => return Err(e),
    };
    let include_logs = match opt_bool(params, "include_logs") {
        Ok(Some(b)) => b,
        Ok(None) => true,
        Err(e) => return Err(e),
    };
    match filter_without_cursor(params, "traces.get", readings, bookmarks, session) {
        Ok(filter) => Ok(TraceQuery { trace_id, include_logs, filter }),
        Err(e) => Err(e),
    }
}

/// Read a call of `traces.recent`: how many traces, 20 where none are named, and
/// which.
pub fn traces_recent(
    params: &Json,
    readings: &Vec<DurationReading>,
    bookmarks: &mut BookmarkStore,
    session: &str,
) -> (r: Result<(usize, Option<ParsedFilter>), String>)
    requires
        old(bookmarks).wf(),
    ensures
        final(bookmarks).wf(),
        final(bookmarks)@ == (if size_param(params@, "count"@) is Ok {
            seqs_after_filter(params@, reading_views(readings@), old(bookmarks)@, session@)
        } else {
            old(bookmarks)@
        }),
        match (
            size_param(params@, "count"@),
            cursorless_filter(
                params@,
                "traces.recent"@,
                reading_views(readings@),
                old(bookmarks)@,
                session@,
            ),
        ) {
            (Err(why), _) => r matches Err(e) && e@ == why,
            (_, Err(why)) => r matches Err(e) && e@ == why,
            (Ok(count), Ok(filter)) => {
                &&& r matches Ok(q)
                &&& q.0 == size_given(count, 20)
                &&& optional_filter(q.1) == filter
            },
        },
{
    let count: usize = match opt_usize(params, "count") {
        Ok(Some(n)) => n,
        Ok(None) => 20,
        Err(e) => return Err(e),
    };
    match filter_without_cursor(params, "traces.recent", readings, bookmarks, session) {
        Ok(filter) => Ok((count, filter)),
        Err(e) => Err(e),
    }
}

/// The first span without a parent.
pub open spec fn is_root(spans: Seq<SpanEntryView>, i: int) -> bool {
    &&& 0 <= i < spans.len()
    &&& spans[i].parent_span_id is None
    &&& forall|k: int| 0 <= k < i ==> (#[trigger] spans[k]).parent_span_id is Some
}

/// The spans whose parent is `parent`.
pub open spec fn spans_below(spans: Seq<SpanEntryView>, parent: u64) -> Seq<int>
    decreases spans.len(),
{
    if spans.len() == 0 {
        seq![]
    } else {
        let rest = spans_below(spans.drop_last(), parent);
        if spans.last().parent_span_id == Some(parent) {
            rest.push(spans.len() - 1)
        } else {
            rest
        }
    }
}

fn children_of(spans: &Vec<SpanEntry>, parent: u64) -> (r: Vec<usize>)
    ensures
        places(r@) == spans_below(span_views(spans@), parent),
        forall|i: int| 0 <= i < r@.len() ==> (#[trigger] r@[i]) < spans@.len(),
{
    let ghost all = span_views(spans@);
    let mut r: Vec<usize> = Vec::new();
    let mut i: usize = 0;
    proof {
        assert(places(r@) =~= seq![]);
    }
    while i < spans.len()
        invariant
            all == span_views(spans@),
            i <= spans@.len(),
            places(r@) == spans_below(all.take(i as int), parent),
            forall|k: int| 0 <= k < r@.len() ==> (#[trigger] r@[k]) < i,
        decreases spans@.len() - i,
    {
        let ghost before = r@;
        proof {
            assert(all.take(i + 1).drop_last() =~= all.take(i as int));
            assert(all.take(i + 1).last() == spans@[i as int]@);
        }
        match spans[i].parent_span_id {
            Some(p) => if p == parent {
                r.push(i);
                proof {
                    assert(places(r@) =~= places(before).push(i as int));
                }
            },
            None => {},
        }
        i += 1;
    }
    proof {
        assert(all.take(all.len() as int) =~= all);
    }
    r
}

/// A span right below the root, and those right below it: what the span itself
/// took is its duration without theirs.
#[derive(Debug, PartialEq, Eq)]
pub struct TraceChild {
    pub at: usize,
    pub below: Vec<usize>,
}

/// The parts of a trace that its summary breaks it down into.
#[derive(Debug, PartialEq, Eq)]
pub struct TraceParts {
    pub root: Option<usize>,
    pub children: Vec<TraceChild>,
}

/// What a trace is broken down into: the spans right below its root. A trace
/// without a root is broken down into nothing.
pub fn trace_parts(spans: &Vec<SpanEntry>) -> (r: TraceParts)
    ensures
        ({
            let all = span_views(spans@);
            match r.root {
                Some(root) => {
                    let below = spans_below(all, all[root as int].span_id);
                    &&& is_root(all, root as int)
                    &&& r.children@.len() == below.len()
                    &&& forall|i: int|
                        0 <= i < below.len() ==> {
                            &&& (#[trigger] r.children@[i]).at == below[i]
                            &&& r.children@[i].at < spans@.len()
                            &&& places(r.children@[i].below@) == spans_below(
                                all,
                                all[below[i]].span_id,
                            )
                        }
                },
                None => {
                    &&& forall|k: int| 0 <= k < all.len() ==> (#[trigger] all[k]).parent_span_id is Some
                    &&& r.children@.len() == 0
                },
            }
        }),
{
    let ghost all = span_views(spans@);
    let mut root: usize = 0;
    while root < spans.len()
        invariant
            all == span_views(spans@),
            root <= spans@.len(),
            forall|k: int| 0 <= k < root ==> (#[trigger] all[k]).parent_span_id is Some,
        ensures
            root == spans@.len() || is_root(all, root as int),
        decreases spans@.len() - root,
    {
        if spans[root].parent_span_id.is_none() {
            proof {
                assert(all[root as int].parent_span_id is None);
            }
            break;
        }
        proof {
            assert(all[root as int] == spans@[root as int]@);
        }
        root += 1;
    }
    if root == spans.len() {
        return TraceParts { root: None, children: Vec::new() };
    }
    let top = children_of(spans, spans[root].span_id);
    let ghost below = spans_below(all, all[root as int].span_id);
    let mut children: Vec<TraceChild> = Vec::new();
    let mut i: usize = 0;
    while i < top.len()
        invariant
            all == span_views(spans@),
            below == places(top@),
            i <= top@.len(),
            children@.len() == i,
            forall|k: int| 0 <= k < top@.len() ==> (#[trigger] top@[k]) < spans@.len(),
            forall|k: int|
                0 <= k < i ==> {
                    &&& (#[trigger] children@[k]).at == below[k]
                    &&& children@[k].at < spans@.len()
                    &&& places(children@[k].below@) == spans_below(all, all[below[k]].span_id)
                },
        decreases top@.len() - i,
    {
        let at: usize = top[i];
        proof {
            assert(all[at as int] == spans@[at as int]@);
        }
        children.push(TraceChild { at, below: children_of(spans, spans[at].span_id) });
        i += 1;
    }
    TraceParts { root: Some(root), children }
}

/// How `traces.slow` groups the spans.
#[derive(Debug, Clone, Copy, PartialEq, Eq, Structural)]
pub enum SlowGroupBy {
    Ungrouped,
    Name,
}

impl SlowGroupBy {
    /// The grouping that a name stands for. The empty name is `none`.
    pub open spec fn of_name(s: Seq<char>) -> Option<SlowGroupBy> {
        if s == "none"@ || s.len() == 0 {
            Some(SlowGroupBy::Ungrouped)
        } else if s == "name"@ {
            Some(SlowGroupBy::Name)
        } else {
            None
        }
    }

    pub fn parse(s: &str) -> (r: Option<Self>)
        ensures
            r == SlowGroupBy::of_name(s@),
    {
        if text::same(s, "none") || s.is_empty() {
            Some(SlowGroupBy::Ungrouped)
        } else if text::same(s, "name") {
            Some(SlowGroupBy::Name)
        } else {
            None
        }
    }
}

/// The grouping that a call of `traces.slow` asks for. A name that is none of
/// them is refused: a typo must not be answered by another question's answer.
pub open spec fn slow_grouping(params: JsonView) -> Result<SlowGroupBy, Seq<char>> {
    match str_param(params, "group_by"@) {
        Err(e) => Err(e),
        Ok(None) => Ok(SlowGroupBy::Ungrouped),
        Ok(Some(name)) => match SlowGroupBy::of_name(name) {
            Some(by) => Ok(by),
            None => Err("unknown group_by `"@ + name + "`: expected `none` or `name`"@),
        },
    }
}

/// What a call of `traces.slow` asks for, but for its floor on durations.
#[derive(Debug)]
pub struct SlowQuery {
    pub count: usize,
    pub filter: Option<ParsedFilter>,
    pub group_by: SlowGroupBy,
}

/// Read a call of `traces.slow`: how many rows, 20 where none are named, of which
/// spans, and how they are grouped.
pub fn traces_slow(
    params: &Json,
    readings: &Vec<DurationReading>,
    bookmarks: &mut BookmarkStore,
    session: &str,
) -> (r: Result<SlowQuery, String>)
    requires
        old(bookmarks).wf(),
    ensures
        final(bookmarks).wf(),
        final(bookmarks)@ == (if size_param(params@, "count"@) is Ok {
            seqs_after_filter(params@, reading_views(readings@), old(bookmarks)@, session@)
        } else {
            old(bookmarks)@
        }),
        match (
            size_param(params@, "count"@),
            cursorless_filter(
                params@,
                "traces.slow"@,
                reading_views(readings@),
                old(bookmarks)@,
                session@,
            ),
            slow_grouping(params@),
        ) {
            (Err(why), _, _) => r matches Err(e) && e@ == why,
            (_, Err(why), _) => r matches Err(e) && e@ == why,
            (_, _, Err(why)) => r matches Err(e) && e@ == why,
            (Ok(count), Ok(filter), Ok(by)) => {
                &&& r matches Ok(q)
                &&& q.count == size_given(count, 20)
                &&& optional_filter(q.filter) == filter
                &&& q.group_by == by
            },
        },
{
    let count: usize = match opt_usize(params, "count") {
        Ok(Some(n)) => n,
        Ok(None) => 20,
        Err(e) => return Err(e),
    };
    let filter = match filter_without_cursor(params, "traces.slow", readings, bookmarks, session) {
        Ok(f) => f,
        Err(e) => return Err(e),
    };
    let group_by = match opt_str(params, "group_by") {
        Err(e) => return Err(e),
        Ok(None) => SlowGroupBy::Ungrouped,
        Ok(Some(name)) => match SlowGroupBy::parse(name) {
            Some(by) => by,
            None => return Err(
                text::join3("unknown group_by `", name, "`: expected `none` or `name`"),
            ),
        },
    };
    Ok(SlowQuery { count, filter, group_by })
}

/// The spans that are called `name`.
pub open spec fn spans_named(spans: Seq<SpanEntryView>, name: Seq<char>) -> Seq<int>
    decreases spans.len(),
{
    if spans.len() == 0 {
        seq![]
    } else {
        let rest = spans_named(spans.drop_last(), name);
        if spans.last().name == name {
            rest.push(spans.len() - 1)
        } else {
            rest
        }
    }
}

/// All the spans of one name.
#[derive(Debug, PartialEq, Eq)]
pub struct NameGroup {
    pub name: String,
    pub at: Vec<usize>,
}

/// The groups are one for each name that a span has, with all the spans of that
/// name, in the order in which the names first occur.
pub open spec fn grouped_by_name(spans: Seq<SpanEntryView>, groups: Seq<NameGroup>) -> bool {
    &&& forall|i: int|
        0 <= i < groups.len() ==> places((#[trigger] groups[i]).at@) == spans_named(
            spans,
            groups[i].name@,
        ) && groups[i].at@.len() > 0
    &&& forall|i: int, j: int|
        0 <= i < j < groups.len() ==> (#[trigger] groups[i]).name@ != (#[trigger] groups[j]).name@
            && groups[i].at@[0] < groups[j].at@[0]
    &&& forall|k: int|
        0 <= k < spans.len() ==> exists|i: int|
            0 <= i < groups.len() && (#[trigger] groups[i]).name@ == (#[trigger] spans[k]).name
}

proof fn lemma_named_below(spans: Seq<SpanEntryView>, name: Seq<char>)
    ensures
        forall|i: int|
            0 <= i < spans_named(spans, name).len() ==> 0 <= (#[trigger] spans_named(
                spans,
                name,
            )[i]) < spans.len() && spans[spans_named(spans, name)[i]].name == name,
    decreases spans.len(),
{
    if spans.len() > 0 {
        lemma_named_below(spans.drop_last(), name);
    }
}

proof fn lemma_unnamed(spans: Seq<SpanEntryView>, name: Seq<char>)
    requires
        forall|k: int| 0 <= k < spans.len() ==> (#[trigger] spans[k]).name != name,
    ensures
        spans_named(spans, name).len() == 0,
    decreases spans.len(),
{
    if spans.len() > 0 {
        lemma_unnamed(spans.drop_last(), name);
    }
}

/// One more span goes to the group of its name, or begins it.
proof fn lemma_span_grouped(
    seen: Seq<SpanEntryView>,
    span: SpanEntryView,
    before: Seq<NameGroup>,
    groups: Seq<NameGroup>,
    g: int,
)
    requires
        grouped_by_name(seen, before),
        0 <= g <= before.len(),
        forall|k: int| 0 <= k < g ==> (#[trigger] before[k]).name@ != span.name,
        g < groups.len(),
        groups[g].name@ == span.name,
        g < before.len() ==> {
            &&& before[g].name@ == span.name
            &&& groups =~= before.update(g, groups[g])
            &&& places(groups[g].at@) =~= places(before[g].at@).push(seen.len() as int)
        },
        g == before.len() ==> {
            &&& groups =~= before.push(groups[g])
            &&& places(groups[g].at@) =~= seq![seen.len() as int]
        },
    ensures
        grouped_by_name(seen.push(span), groups),
{
    let next = seen.push(span);
    assert(next.drop_last() =~= seen);
    assert(next.last() == span);
    if g == before.len() {
        assert forall|k: int| 0 <= k < seen.len() implies (#[trigger] seen[k]).name != span.name by {
            let i = choose|i: int|
                0 <= i < before.len() && (#[trigger] before[i]).name@ == seen[k].name;
            assert(before[i].name@ != span.name);
        }
        lemma_unnamed(seen, span.name);
        assert(spans_named(next, span.name) =~= seq![seen.len() as int]);
    }
    assert(places(groups[g].at@) == spans_named(next, span.name));
    assert(groups[g].at@.len() == places(groups[g].at@).len());
    assert forall|i: int| 0 <= i < groups.len() implies places((#[trigger] groups[i]).at@)
        == spans_named(next, groups[i].name@) && groups[i].at@.len() > 0 by {
        if i != g {
            assert(groups[i] == before[i]);
            assert(before[i].name@ != span.name);
        }
    }
    assert forall|i: int, j: int| 0 <= i < j < groups.len() implies (#[trigger] groups[i]).name@
        != (#[trigger] groups[j]).name@ && groups[i].at@[0] < groups[j].at@[0] by {
        if g < before.len() {
            assert(places(groups[g].at@)[0] == places(before[g].at@)[0]);
            assert(before[i].at@[0] < before[j].at@[0]);
        } else {
            assert(groups[i] == before[i]);
            if j == g {
                lemma_named_below(seen, before[i].name@);
                assert(places(before[i].at@)[0] == before[i].at@[0]);
                assert(places(groups[g].at@)[0] == seen.len());
            } else {
                assert(groups[j] == before[j]);
            }
        }
    }
    assert forall|k: int| 0 <= k < next.len() implies exists|i: int|
        0 <= i < groups.len() && (#[trigger] groups[i]).name@ == (#[trigger] next[k]).name by {
        if k < seen.len() {
            let i = choose|i: int|
                0 <= i < before.len() && (#[trigger] before[i]).name@ == seen[k].name;
            assert(groups[i].name@ == next[k].name);
        } else {
            assert(groups[g].name@ == next[k].name);
        }
    }
}

/// Group spans by their names. Of a name all the spans are taken, however slow
/// they were: what is said of a name is said of all of them.
pub fn spans_by_name(spans: &Vec<SpanEntry>) -> (groups: Vec<NameGroup>)
    ensures
        grouped_by_name(span_views(spans@), groups@),
{
    let ghost all = span_views(spans@);
    let mut groups: Vec<NameGroup> = Vec::new();
    let mut i: usize = 0;
    while i < spans.len()
        invariant
            all == span_views(spans@),
            i <= spans@.len(),
            grouped_by_name(all.take(i as int), groups@),
        decreases spans@.len() - i,
    {
        let ghost seen = all.take(i as int);
        let ghost next = all.take(i + 1);
        let ghost name = spans@[i as int].name@;
        proof {
            assert(next.drop_last() =~= seen);
            assert(next.last() == spans@[i as int]@);
        }
        let mut g: usize = 0;
        while g < groups.len() && !text::same_owned(&groups[g].name, &spans[i].name)
            invariant
                i < spans@.len(),
                name == spans@[i as int].name@,
                g <= groups@.len(),
                forall|k: int| 0 <= k < g ==> (#[trigger] groups@[k]).name@ != name,
            decreases groups@.len() - g,
        {
            g += 1;
        }
        let ghost before = groups@;
        if g < groups.len() {
            let at: &mut Vec<usize> = &mut groups[g].at;
            at.push(i);
        } else {
            let mut at: Vec<usize> = Vec::new();
            at.push(i);
            groups.push(NameGroup { name: spans[i].name.clone(), at });
        }
        proof {
            assert(seen.push(next.last()) =~= next);
            lemma_span_grouped(seen, next.last(), before, groups@, g as int);
        }
        i += 1;
    }
    proof {
        assert(all.take(all.len() as int) =~= all);
    }
    groups
}

/// How many spans the groups hold.
pub open spec fn population(groups: Seq<NameGroup>) -> nat
    decreases groups.len(),
{
    if groups.len() == 0 {
        0
    } else {
        population(groups.drop_last()) + groups.last().at@.len()
    }
}

/// How many spans have the name of one of the groups.
spec fn spans_in(spans: Seq<SpanEntryView>, groups: Seq<NameGroup>) -> nat
    decreases spans.len(),
{
    if spans.len() == 0 {
        0
    } else {
        spans_in(spans.drop_last(), groups) + if is_grouped(spans.last(), groups) {
            1nat
        } else {
            0
        }
    }
}

spec fn is_grouped(span: SpanEntryView, groups: Seq<NameGroup>) -> bool {
    exists|i: int| 0 <= i < groups.len() && (#[trigger] groups[i]).name@ == span.name
}

proof fn lemma_one_more_group(spans: Seq<SpanEntryView>, groups: Seq<NameGroup>)
    requires
        groups.len() > 0,
        forall|i: int|
            0 <= i < groups.len() - 1 ==> (#[trigger] groups[i]).name@ != groups.last().name@,
    ensures
        spans_in(spans, groups) == spans_in(spans, groups.drop_last()) + spans_named(
            spans,
            groups.last().name@,
        ).len(),
    decreases spans.len(),
{
    if spans.len() > 0 {
        lemma_one_more_group(spans.drop_last(), groups);
        let span = spans.last();
        let rest = groups.drop_last();
        if is_grouped(span, rest) {
            let i = choose|i: int| 0 <= i < rest.len() && (#[trigger] rest[i]).name@ == span.name;
            assert(groups[i].name@ == span.name);
        }
        if span.name == groups.last().name@ {
            assert(groups[groups.len() - 1].name@ == span.name);
        } else if is_grouped(span, groups) {
            let i = choose|i: int|
                0 <= i < groups.len() && (#[trigger] groups[i]).name@ == span.name;
            assert(rest[i].name@ == span.name);
        }
    }
}

proof fn lemma_population(spans: Seq<SpanEntryView>, groups: Seq<NameGroup>)
    requires
        forall|i: int|
            0 <= i < groups.len() ==> places((#[trigger] groups[i]).at@) == spans_named(
                spans,
                groups[i].name@,
            ),
        forall|i: int, j: int|
            0 <= i < j < groups.len() ==> (#[trigger] groups[i]).name@
                != (#[trigger] groups[j]).name@,
    ensures
        population(groups) == spans_in(spans, groups),
    decreases groups.len(),
{
    if groups.len() == 0 {
        lemma_none_grouped(spans, groups);
    } else {
        let rest = groups.drop_last();
        assert forall|i: int| 0 <= i < rest.len() implies places((#[trigger] rest[i]).at@)
            == spans_named(spans, rest[i].name@) by {
            assert(rest[i] == groups[i]);
        }
        lemma_population(spans, rest);
        lemma_one_more_group(spans, groups);
        assert(places(groups.last().at@).len() == groups.last().at@.len());
    }
}

proof fn lemma_none_grouped(spans: Seq<SpanEntryView>, groups: Seq<NameGroup>)
    requires
        groups.len() == 0,
    ensures
        spans_in(spans, groups) == 0,
    decreases spans.len(),
{
    if spans.len() > 0 {
        lemma_none_grouped(spans.drop_last(), groups);
    }
}

proof fn lemma_all_grouped(spans: Seq<SpanEntryView>, groups: Seq<NameGroup>)
    requires
        forall|k: int| 0 <= k < spans.len() ==> is_grouped(#[trigger] spans[k], groups),
    ensures
        spans_in(spans, groups) == spans.len(),
    decreases spans.len(),
{
    if spans.len() > 0 {
        let rest = spans.drop_last();
        assert forall|k: int| 0 <= k < rest.len() implies is_grouped(#[trigger] rest[k], groups) by {
            assert(rest[k] == spans[k]);
        }
        lemma_all_grouped(rest, groups);
        assert(is_grouped(spans[spans.len() - 1], groups));
    }
}

/// Grouping spans by name leaves none out and counts none twice: the groups
/// together hold as many spans as there are.
pub proof fn groups_hold_the_whole_population(
    spans: Seq<SpanEntryView>,
    groups: Seq<NameGroup>,
)
    requires
        grouped_by_name(spans, groups),
    ensures
        population(groups) == spans.len(),
{
    lemma_population(spans, groups);
    assert forall|k: int| 0 <= k < spans.len() implies is_grouped(#[trigger] spans[k], groups) by {}
    lemma_all_grouped(spans, groups);
}

/// Read a call of `traces.logs`: the trace, and which of its records.
pub fn traces_logs(
    params: &Json,
    readings: &Vec<DurationReading>,
    bookmarks: &mut BookmarkStore,
    session: &str,
) -> (r: Result<(u128, LogQuery), String>)
    requires
        old(bookmarks).wf(),
    ensures
        final(bookmarks).wf(),
        final(bookmarks)@ == (if trace_param(params@, "invalid trace_id"@) is Ok {
            seqs_after_filter(params@, reading_views(readings@), old(bookmarks)@, session@)
        } else {
            old(bookmarks)@
        }),
        match (trace_param(params@, "invalid trace_id"@), str_param(params@, "filter"@)) {
            (Err(why), _) => r matches Err(e) && e@ == why,
            (_, Err(why)) => r matches Err(e) && e@ == why,
            (Ok(id), Ok(filter)) => match query_filter(
                filter,
                reading_views(readings@),
                old(bookmarks)@,
                session@,
            ) {
                Err(why) => r matches Err(e) && e@ == why,
                Ok(q) => {
                    &&& r matches Ok(plan)
                    &&& plan.0 == id
                    &&& plan.1@ == (LogQueryView {
                        count: usize::MAX as nat,
                        filter: q.filter,
                        cursor: q.cursor,
                    })
                },
            },
        },
{
    let id: u128 = match trace_of(params, "invalid trace_id") {
        Ok(id) => id,
        Err(e) => return Err(e),
    };
    let filter = match opt_str(params, "filter") {
        Ok(f) => f,
        Err(e) => return Err(e),
    };
    match parse_and_resolve_filter(filter, readings, bookmarks, session) {
        Ok(q) => Ok(
            (
                id,
                LogQuery { count: usize::MAX, filter: q.filter, cursor_commit: q.cursor_commit },
            ),
        ),
        Err(e) => Err(e),
    }
}

/// Carry out a call of `traces.logs` on the records of the trace, which come in
/// the order in which they were stored. `matches` says of each whether the filter
/// accepts it.
pub fn logs_of_trace(
    bookmarks: &mut BookmarkStore,
    commit: Option<CursorCommit>,
    logs: &Vec<LogEntry>,
    matches: &Vec<bool>,
) -> (r: (Vec<LogEntry>, Option<u64>))
    requires
        old(bookmarks).wf(),
        all_wf(logs@),
        matches@.len() == logs@.len(),
    ensures
        final(bookmarks).wf(),
        all_wf(r.0@),
        ({
            let found = records_at(
                entry_list(logs@),
                selection(matches@, matches@.len(), true),
            );
            let cursor = optional_cursor(commit);
            &&& entry_list(r.0@) == found
            &&& r.1 == advanced_to(cursor, found)
            &&& final(bookmarks)@ == advanced_seqs(old(bookmarks)@, cursor, found)
        }),
{
    let picked = pick(matches, matches.len(), true);
    let found = clone_at(logs, &picked.at);
    let advanced = advance_cursor(bookmarks, commit, &found);
    (found, advanced)
}

/// A context window of spans, or 5.
pub open spec fn span_window(params: JsonView, key: Seq<char>) -> Result<nat, Seq<char>> {
    match bounded_param(params, key, "context window "@, MAX_CONTEXT_WINDOW) {
        Ok(size) => Ok(size_given(size, 5)),
        Err(e) => Err(e),
    }
}

fn span_window_of(params: &Json, key: &str) -> (r: Result<usize, String>)
    ensures
        match r {
            Ok(n) => span_window(params@, key@) == Ok::<nat, Seq<char>>(n as nat),
            Err(e) => span_window(params@, key@) == Err::<nat, Seq<char>>(e@),
        },
{
    match opt_context_window(params, key) {
        Ok(Some(n)) => Ok(n),
        Ok(None) => Ok(5),
        Err(e) => Err(e),
    }
}

/// Read a call of `spans.context`: a seq, and how much before and after it.
pub fn spans_context(params: &Json) -> (r: Result<(u64, usize, usize), String>)
    ensures
        match (
            required_u64(params@, "seq"@),
            span_window(params@, "before"@),
            span_window(params@, "after"@),
        ) {
            (Err(why), _, _) => r matches Err(e) && e@ == why,
            (_, Err(why), _) => r matches Err(e) && e@ == why,
            (_, _, Err(why)) => r matches Err(e) && e@ == why,
            (Ok(seq), Ok(before), Ok(after)) => r matches Ok(q) && q.0 == seq && q.1 == before && q.2
                == after,
        },
{
    let seq: u64 = match req_u64(params, "seq") {
        Ok(n) => n,
        Err(e) => return Err(e),
    };
    let before: usize = match span_window_of(params, "before") {
        Ok(n) => n,
        Err(e) => return Err(e),
    };
    match span_window_of(params, "after") {
        Ok(after) => Ok((seq, before, after)),
        Err(e) => Err(e),
    }
}

/// What a call of `spans.export` asks for.
#[derive(Debug)]
pub struct SpanQuery {
    pub count: usize,
    pub filter: Option<ParsedFilter>,
}

/// What a call of `spans.export` asks for: how many spans, and which. The range
/// goes into the filter, as that of `logs.export` does.
pub open spec fn spans_request(
    params: JsonView,
    readings: Seq<DurationReadingView>,
    seqs: Map<Seq<char>, u64>,
    session: Seq<char>,
) -> Result<(nat, Option<FilterView>), Seq<char>> {
    match size_param(params, "count"@) {
        Err(e) => Err(e),
        Ok(count) => match cursorless_filter(params, "spans.export"@, readings, seqs, session) {
            Err(e) => Err(e),
            Ok(filter) => match u64_param(params, "from_seq"@) {
                Err(e) => Err(e),
                Ok(from) => match u64_param(params, "to_seq"@) {
                    Err(e) => Err(e),
                    Ok(to) => Ok((size_given(count, usize::MAX), narrowed_to(filter, from, to))),
                },
            },
        },
    }
}

/// Read a call of `spans.export`.
pub fn plan_spans_export(
    params: &Json,
    readings: &Vec<DurationReading>,
    bookmarks: &mut BookmarkStore,
    session: &str,
) -> (r: Result<SpanQuery, String>)
    requires
        old(bookmarks).wf(),
    ensures
        final(bookmarks).wf(),
        final(bookmarks)@ == (if size_param(params@, "count"@) is Ok {
            seqs_after_filter(params@, reading_views(readings@), old(bookmarks)@, session@)
        } else {
            old(bookmarks)@
        }),
        match (
            r,
            spans_request(params@, reading_views(readings@), old(bookmarks)@, session@),
        ) {
            (Ok(q), Ok(asked)) => q.count == asked.0 && optional_filter(q.filter) == asked.1,
            (Err(e), Err(why)) => e@ == why,
            _ => false,
        },
{
    let count: usize = match opt_usize(params, "count") {
        Ok(Some(n)) => n,
        Ok(None) => usize::MAX,
        Err(e) => return Err(e),
    };
    let filter = match filter_without_cursor(params, "spans.export", readings, bookmarks, session) {
        Ok(f) => f,
        Err(e) => return Err(e),
    };
    let from = match opt_u64(params, "from_seq") {
        Ok(n) => n,
        Err(e) => return Err(e),
    };
    let to = match opt_u64(params, "to_seq") {
        Ok(n) => n,
        Err(e) => return Err(e),
    };
    Ok(SpanQuery { count, filter: lower_seq_range(filter, from, to) })
}

/// What `spans.export` answers.
#[derive(Debug)]
pub struct ExportedSpans {
    /// Which of the spans walked are returned.
    pub at: Vec<usize>,
    pub matched: usize,
    pub capped: bool,
    pub evicted_before_window: Option<u64>,
}

/// Carry out a call of `spans.export`. `matches` says of each span, in the order
/// of the walk, whether the filter accepts it, and `oldest` is where the buffer
/// of spans begins: it evicts on its own, so what is known of the records over a
/// range says nothing of the spans.
pub fn export_spans(query: &SpanQuery, matches: &Vec<bool>, oldest: Option<u64>) -> (r: ExportedSpans)
    ensures
        places(r.at@) == selection(matches@, query.count as nat, true),
        r.matched == matching(matches@),
        r.capped == (matching(matches@) > query.count),
        r.evicted_before_window == (match seq_range(optional_filter(query.filter)).0 {
            Some(from) => evicted(from, oldest),
            None => None,
        }),
{
    let picked = pick(matches, query.count, true);
    let matched: usize = count_matching(matches);
    ExportedSpans {
        at: picked.at,
        matched,
        capped: matched > query.count,
        evicted_before_window: evicted_before_window(&query.filter, oldest),
    }
}

/// A trace is named by the hexadecimal text of its id.
pub proof fn traces_are_named_in_hexadecimal(params: JsonView, invalid: Seq<char>)
    ensures
        trace_param(params, invalid) matches Ok(id) ==> (params.text_at("trace_id"@) matches Some(hex)
            && hex_of(hex) == Some(id as nat)),
        params.text_at("trace_id"@) matches Some(hex) ==> (hex_of(hex) is None ==> trace_param(
            params,
            invalid,
        ) == Err::<u128, Seq<char>>(invalid)),
        params.text_at("trace_id"@) matches Some(hex) ==> (hex_of(hex) matches Some(n) ==> (n
            <= u128::MAX ==> trace_param(params, invalid) == Ok::<u128, Seq<char>>(n as u128))),
{
}

/// A method that may not read through a cursor refuses a filter that does, and otherwise
/// reads by its filter.
pub proof fn cursors_are_refused_where_they_do_not_belong(
    params: JsonView,
    method: Seq<char>,
    readings: Seq<DurationReadingView>,
    seqs: Map<Seq<char>, u64>,
    session: Seq<char>,
)
    ensures
        cursorless_filter(params, method, readings, seqs, session) matches Ok(f) ==> query_filter(
            params.text_at("filter"@),
            readings,
            seqs,
            session,
        ) == Ok::<QueryFilterView, Seq<char>>(QueryFilterView { filter: f, cursor: None }),
        query_filter(params.text_at("filter"@), readings, seqs, session) matches Ok(q) ==> (q.cursor is Some
            ==> cursorless_filter(params, method, readings, seqs, session) is Err),
{
}

/// The spans below a span are those that name it as their parent, each of them, in their
/// order.
pub proof fn children_name_their_parent(spans: Seq<SpanEntryView>, parent: u64, i: int)
    ensures
        spans_below(spans, parent).contains(i) <==> 0 <= i < spans.len() && spans[i].parent_span_id
            == Some(parent),
        forall|a: int, b: int|
            0 <= a < b < spans_below(spans, parent).len() ==> #[trigger] spans_below(spans, parent)[a]
                < #[trigger] spans_below(spans, parent)[b],
    decreases spans.len(),
{
    if spans.len() > 0 {
        let front = spans.drop_last();
        let n = spans.len() - 1;
        children_name_their_parent(front, parent, i);
        let before = spans_below(front, parent);
        let all = spans_below(spans, parent);
        assert forall|a: int, b: int| 0 <= a < b < all.len() implies #[trigger] all[a]
            < #[trigger] all[b] by {
            if b >= before.len() {
                children_name_their_parent(front, parent, all[a]);
                assert(before[a] == all[a]);
                assert(before.contains(all[a]));
            }
        }
        if all.contains(i) {
            let k = choose|k: int| 0 <= k < all.len() && all[k] == i;
            if k < before.len() {
                assert(before[k] == i);
                assert(before.contains(i));
                assert(front[i] == spans[i]);
            }
        }
        if 0 <= i < spans.len() && spans[i].parent_span_id == Some(parent) {
            if i < n {
                assert(front[i] == spans[i]);
                let k = choose|k: int| 0 <= k < before.len() && before[k] == i;
                assert(all[k] == i);
            } else {
                assert(all[all.len() - 1] == i);
            }
        }
    }
}

/// The spans of a name are those that have it, each of them, in their order.
pub proof fn named_spans_have_the_name(spans: Seq<SpanEntryView>, name: Seq<char>, i: int)
    ensures
        spans_named(spans, name).contains(i) <==> 0 <= i < spans.len() && spans[i].name == name,
    decreases spans.len(),
{
    if spans.len() > 0 {
        let front = spans.drop_last();
        let n = spans.len() - 1;
        named_spans_have_the_name(front, name, i);
        let before = spans_named(front, name);
        let all = spans_named(spans, name);
        if all.contains(i) {
            let k = choose|k: int| 0 <= k < all.len() && all[k] == i;
            if k < before.len() {
                assert(before[k] == i);
                assert(before.contains(i));
                assert(front[i] == spans[i]);
            }
        }
        if 0 <= i < spans.len() && spans[i].name == name {
            if i < n {
                assert(front[i] == spans[i]);
                let k = choose|k: int| 0 <= k < before.len() && before[k] == i;
                assert(all[k] == i);
            } else {
                assert(all[all.len() - 1] == i);
            }
        }
    }
}

/// Slow spans are grouped by name where that is asked for, one by one where nothing or
/// `none` is, and any other grouping is refused.
pub proof fn slow_spans_are_grouped_as_asked(params: JsonView)
    ensures
        slow_grouping(params) == Ok::<SlowGroupBy, Seq<char>>(SlowGroupBy::Name) <==> params.text_at(
            "group_by"@,
        ) == Some("name"@),
        given(params, "group_by"@) is None ==> slow_grouping(params) == Ok::<SlowGroupBy, Seq<char>>(
            SlowGroupBy::Ungrouped,
        ),
        slow_grouping(params) == Ok::<SlowGroupBy, Seq<char>>(SlowGroupBy::Ungrouped) ==> given(
            params,
            "group_by"@,
        ) is None || params.text_at("group_by"@) == Some("none"@) || params.text_at("group_by"@)
            == Some(Seq::<char>::empty()),
        params.text_at("group_by"@) == Some("none"@) ==> slow_grouping(params) == Ok::<
            SlowGroupBy,
            Seq<char>,
        >(SlowGroupBy::Ungrouped),
{
    reveal_strlit("none");
    reveal_strlit("name");
    assert("none"@[1] == 'o' && "name"@[1] == 'a' && "name"@.len() == 4);
    if let Some(s) = params.text_at("group_by"@) {
        if s.len() == 0 {
            assert(s =~= Seq::<char>::empty());
        }
    }
}

/// An export of spans reads as many as its call says, all where it says nothing, by its
/// own filter and from `from_seq` to `to_seq`.
pub proof fn span_exports_are_planned_as_asked(
    params: JsonView,
    readings: Seq<DurationReadingView>,
    seqs: Map<Seq<char>, u64>,
    session: Seq<char>,
)
    requires
        spans_request(params, readings, seqs, session) is Ok,
    ensures
        ({
            let (count, filter) = spans_request(params, readings, seqs, session)->Ok_0;
            &&& given(params, "count"@) is None ==> count == usize::MAX
            &&& params.u64_at("count"@) matches Some(n) ==> count == n
            &&& query_filter(params.text_at("filter"@), readings, seqs, session) matches Ok(plain)
            &&& plain.cursor is None
            &&& filter == narrowed_to(
                plain.filter,
                params.u64_at("from_seq"@),
                params.u64_at("to_seq"@),
            )
        }),
{
}

/// A context of spans is as wide on either side as was asked for, and 5 where nothing was.
pub proof fn span_windows_are_read_as_given(params: JsonView, key: Seq<char>)
    requires
        span_window(params, key) is Ok,
    ensures
        given(params, key) is None ==> span_window(params, key)->Ok_0 == 5,
        params.u64_at(key) matches Some(n) ==> span_window(params, key)->Ok_0 == n,
{
}

} // verus!
