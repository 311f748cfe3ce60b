//! What the `logs.*` methods read and answer.
use crate::daemon::rpc::params::{
    bounded_param, given, opt_context_window, opt_str, opt_u64, opt_usize, req_u64, required_u64,
    str_param, u64_param, MAX_CONTEXT_WINDOW,
};
use crate::engine::epoch::{
    evidence_verdict, span_views, verdict_of, EpochCoverageView, EvidenceVerdict,
    NarrowedSpan, NarrowedSpanView,
};
use crate::engine::pipeline::{LogPipeline, PipelineView, RecentStats};
use crate::filter::bookmark_resolver::{
    resolution, resolve_bookmarks, resolved_filters_refer_to_nothing, resolving_moves_no_bookmark,
};
use crate::filter::parser::{
    contains_cursor_qualifier, evicted, evicted_before_window, filter_of,
    folded_ranges_are_read_back, has_cursor, has_reference,
    lower_seq_range, narrowed_to, optional_filter, parse_filter, qualifiers_in, reading_views,
    resolved_seq_range, seq_range, DurationReading, DurationReadingView, FilterView, ParsedFilter,
};
use crate::gelf::message::{LogEntry, LogEntryView};
use crate::json::{Json, JsonView};
use crate::store::bookmarks::{BookmarkStore, CursorCommit};
use crate::store::memory::{all_wf, entry_list, of_trace};
use crate::store::selection::{
    clone_at, matching, oldest_first_reads_skip_nothing, pick, places, probing_returns_the_same,
    reads_keep_the_order, reads_return_what_matches, records_at, scanned, selection,
};
use crate::text;
use crate::text::{
    hex_of, hex_up_to, is_white, optional_str, trimmed, trimming_takes_white_space_only,
};
use vstd::prelude::*;

verus! {

broadcast use vstd::string::group_string_axioms;

/// A filter whose references have been resolved, and the cursor that it reads
/// through.
#[verifier::ext_equal]
pub struct QueryFilterView {
    pub filter: Option<FilterView>,
    pub cursor: Option<Seq<char>>,
}

/// What the filter of a query comes to. One that was not given, or is blank,
/// asks for everything.
pub open spec fn query_filter(
    given: Option<Seq<char>>,
    readings: Seq<DurationReadingView>,
    seqs: Map<Seq<char>, u64>,
    session: Seq<char>,
) -> Result<QueryFilterView, Seq<char>> {
    match given {
        None => Ok(QueryFilterView { filter: None, cursor: None }),
        Some(s) => if trimmed(s).len() == 0 {
            Ok(QueryFilterView { filter: None, cursor: None })
        } else {
            match filter_of(s, readings) {
                Err(e) => Err(e.message()),
                Ok(f) => {
                    let after = resolution(seqs, qualifiers_in(f), session);
                    match after.error {
                        Some(e) => Err(e.message()),
                        None => Ok(
                            QueryFilterView {
                                filter: Some(
                                    match f {
                                        FilterView::Qualifiers(_) => FilterView::Qualifiers(
                                            after.qualifiers,
                                        ),
                                        other => other,
                                    },
                                ),
                                cursor: after.cursor,
                            },
                        ),
                    }
                },
            }
        },
    }
}

/// The bookmarks after the filter of a query has been resolved: a cursor that
/// it names is there from then on.
pub open spec fn query_seqs(
    given: Option<Seq<char>>,
    readings: Seq<DurationReadingView>,
    seqs: Map<Seq<char>, u64>,
    session: Seq<char>,
) -> Map<Seq<char>, u64> {
    match given {
        Some(s) => match filter_of(s, readings) {
            Ok(f) => if trimmed(s).len() == 0 {
                seqs
            } else {
                resolution(seqs, qualifiers_in(f), session).seqs
            },
            Err(_) => seqs,
        },
        None => seqs,
    }
}

/// The name of the cursor that is to be advanced.
pub open spec fn optional_cursor(commit: Option<CursorCommit>) -> Option<Seq<char>> {
    match commit {
        Some(c) => Some(c.cursor@),
        None => None,
    }
}

/// A filter whose references have been resolved, with the right to advance the
/// cursor that it reads through.
#[derive(Debug)]
pub struct QueryFilter {
    pub filter: Option<ParsedFilter>,
    pub cursor_commit: Option<CursorCommit>,
}

impl View for QueryFilter {
    type V = QueryFilterView;

    open spec fn view(&self) -> QueryFilterView {
        QueryFilterView {
            filter: optional_filter(self.filter),
            cursor: optional_cursor(self.cursor_commit),
        }
    }
}

/// Whether a text holds nothing but white space.
fn is_blank(s: &str) -> (r: bool)
    ensures
        r == (trimmed(s@).len() == 0),
{
    text::trim(&text::chars_of(s)).len() == 0
}

/// Parse a filter and resolve its bookmarks and cursors against a domain's
/// bookmarks, for `session`.
///
/// A filter that is not given or blank is no filter. What cannot be parsed or
/// resolved is refused: a bookmark that is not there must be visible.
pub fn parse_and_resolve_filter(
    filter: Option<&str>,
    readings: &Vec<DurationReading>,
    bookmarks: &mut BookmarkStore,
    session: &str,
) -> (r: Result<QueryFilter, String>)
    requires
        old(bookmarks).wf(),
    ensures
        final(bookmarks).wf(),
        final(bookmarks)@ == query_seqs(
            optional_str(filter),
            reading_views(readings@),
            old(bookmarks)@,
            session@,
        ),
        match r {
            Ok(q) => query_filter(
                optional_str(filter),
                reading_views(readings@),
                old(bookmarks)@,
                session@,
            ) == Ok::<QueryFilterView, Seq<char>>(q@),
            Err(e) => query_filter(
                optional_str(filter),
                reading_views(readings@),
                old(bookmarks)@,
                session@,
            ) == Err::<QueryFilterView, Seq<char>>(e@),
        },
{
    let s = match filter {
        None => return Ok(QueryFilter { filter: None, cursor_commit: None }),
        Some(s) => s,
    };
    if is_blank(s) {
        return Ok(QueryFilter { filter: None, cursor_commit: None });
    }
    let parsed = match parse_filter(s, readings) {
        Ok(f) => f,
        Err(e) => return Err(e.to_text()),
    };
    match resolve_bookmarks(parsed, bookmarks, session) {
        Ok(resolved) => Ok(
            QueryFilter { filter: Some(resolved.filter), cursor_commit: resolved.cursor_commit },
        ),
        Err(e) => Err(e.to_text()),
    }
}

/// A read of stored records.
#[derive(Debug)]
pub struct LogQuery {
    pub count: usize,
    pub filter: Option<ParsedFilter>,
    pub cursor_commit: Option<CursorCommit>,
}

/// What a [`LogQuery`] asks for.
#[verifier::ext_equal]
pub struct LogQueryView {
    pub count: nat,
    pub filter: Option<FilterView>,
    pub cursor: Option<Seq<char>>,
}

impl View for LogQuery {
    type V = LogQueryView;

    open spec fn view(&self) -> LogQueryView {
        LogQueryView {
            count: self.count as nat,
            filter: optional_filter(self.filter),
            cursor: optional_cursor(self.cursor_commit),
        }
    }
}

/// What `logs.recent` is to read.
#[derive(Debug)]
pub enum RecentPlan {
    /// The records of a trace, which an index finds.
    Trace(u128),
    /// The newest records that match, or through a cursor the oldest.
    Scan(LogQuery),
}

/// What a [`RecentPlan`] asks for.
#[verifier::ext_equal]
pub enum RecentPlanView {
    Trace(u128),
    Scan(LogQueryView),
}

impl View for RecentPlan {
    type V = RecentPlanView;

    open spec fn view(&self) -> RecentPlanView {
        match self {
            RecentPlan::Trace(id) => RecentPlanView::Trace(*id),
            RecentPlan::Scan(q) => RecentPlanView::Scan(q@),
        }
    }
}

/// A size parameter.
pub open spec fn size_param(params: JsonView, key: Seq<char>) -> Result<Option<u64>, Seq<char>> {
    bounded_param(params, key, ""@, usize::MAX as u64)
}

/// A given size, or the default.
pub open spec fn size_given(size: Option<u64>, default: usize) -> nat {
    match size {
        Some(n) => n as nat,
        None => default as nat,
    }
}

/// Why the filter that comes with a trace id is refused: a cursor cannot be read
/// through where an index is.
pub open spec fn trace_filter_error(
    given: Option<Seq<char>>,
    readings: Seq<DurationReadingView>,
) -> Option<Seq<char>> {
    match given {
        None => None,
        Some(s) => if trimmed(s).len() == 0 {
            None
        } else {
            match filter_of(s, readings) {
                Err(e) => Some(e.message()),
                Ok(f) => if has_cursor(qualifiers_in(f)) {
                    Some("cursor qualifier not permitted in logs.recent with trace_id"@)
                } else {
                    None
                },
            }
        },
    }
}

/// What a call of `logs.recent` asks for. Without a count it is 50 records.
pub open spec fn recent_request(
    params: JsonView,
    readings: Seq<DurationReadingView>,
    seqs: Map<Seq<char>, u64>,
    session: Seq<char>,
) -> Result<RecentPlanView, Seq<char>> {
    match size_param(params, "count"@) {
        Err(e) => Err(e),
        Ok(count) => match str_param(params, "filter"@) {
            Err(e) => Err(e),
            Ok(filter) => match str_param(params, "trace_id"@) {
                Err(e) => Err(e),
                Ok(Some(hex)) => match trace_filter_error(filter, readings) {
                    Some(e) => Err(e),
                    None => match hex_up_to(hex, u128::MAX as nat) {
                        Some(id) => Ok(RecentPlanView::Trace(id as u128)),
                        None => Err("invalid trace_id"@),
                    },
                },
                Ok(None) => match query_filter(filter, readings, seqs, session) {
                    Err(e) => Err(e),
                    Ok(q) => Ok(
                        RecentPlanView::Scan(
                            LogQueryView {
                                count: size_given(count, 50),
                                filter: q.filter,
                                cursor: q.cursor,
                            },
                        ),
                    ),
                },
            },
        },
    }
}

/// The bookmarks after a call of `logs.recent` has been read.
pub open spec fn recent_seqs(
    params: JsonView,
    readings: Seq<DurationReadingView>,
    seqs: Map<Seq<char>, u64>,
    session: Seq<char>,
) -> Map<Seq<char>, u64> {
    match (size_param(params, "count"@), str_param(params, "filter"@), str_param(params, "trace_id"@)) {
        (Ok(_), Ok(filter), Ok(None)) => query_seqs(filter, readings, seqs, session),
        _ => seqs,
    }
}

fn check_trace_filter(filter: Option<&str>, readings: &Vec<DurationReading>) -> (r: Option<String>)
    ensures
        text::optional_text(r) == trace_filter_error(optional_str(filter), reading_views(readings@)),
{
    let s = match filter {
        None => return None,
        Some(s) => s,
    };
    if is_blank(s) {
        return None;
    }
    match parse_filter(s, readings) {
        Err(e) => Some(e.to_text()),
        Ok(f) => if contains_cursor_qualifier(&f) {
            Some(text::owned("cursor qualifier not permitted in logs.recent with trace_id"))
        } else {
            None
        },
    }
}

/// Read a call of `logs.recent`. `readings` says how the durations of its filter
/// read as numbers.
pub fn plan_recent(
    params: &Json,
    readings: &Vec<DurationReading>,
    bookmarks: &mut BookmarkStore,
    session: &str,
) -> (r: Result<RecentPlan, String>)
    requires
        old(bookmarks).wf(),
    ensures
        final(bookmarks).wf(),
        final(bookmarks)@ == recent_seqs(
            params@,
            reading_views(readings@),
            old(bookmarks)@,
            session@,
        ),
        match r {
            Ok(plan) => recent_request(
                params@,
                reading_views(readings@),
                old(bookmarks)@,
                session@,
            ) == Ok::<RecentPlanView, Seq<char>>(plan@),
            Err(e) => recent_request(
                params@,
                reading_views(readings@),
                old(bookmarks)@,
                session@,
            ) == Err::<RecentPlanView, Seq<char>>(e@),
        },
{
    let count: usize = match opt_usize(params, "count") {
        Ok(Some(n)) => n,
        Ok(None) => 50,
        Err(e) => return Err(e),
    };
    let filter = match opt_str(params, "filter") {
        Ok(f) => f,
        Err(e) => return Err(e),
    };
    match opt_str(params, "trace_id") {
        Err(e) => return Err(e),
        Ok(Some(hex)) => {
            if let Some(e) = check_trace_filter(filter, readings) {
                return Err(e);
            }
            return match text::parse_hex_u128(hex) {
                Some(id) => Ok(RecentPlan::Trace(id)),
                None => Err(text::owned("invalid trace_id")),
            };
        },
        Ok(None) => {},
    }
    match parse_and_resolve_filter(filter, readings, bookmarks, session) {
        Ok(q) => Ok(
            RecentPlan::Scan(
                LogQuery { count, filter: q.filter, cursor_commit: q.cursor_commit },
            ),
        ),
        Err(e) => Err(e),
    }
}

/// The highest seq of a list of records.
pub open spec fn highest_seq(entries: Seq<LogEntryView>) -> Option<u64>
    decreases entries.len(),
{
    if entries.len() == 0 {
        None
    } else {
        match highest_seq(entries.drop_last()) {
            Some(s) => if s >= entries.last().seq {
                Some(s)
            } else {
                Some(entries.last().seq)
            },
            None => Some(entries.last().seq),
        }
    }
}

fn max_seq(entries: &Vec<LogEntry>) -> (r: Option<u64>)
    ensures
        r == highest_seq(entry_list(entries@)),
{
    let ghost all = entry_list(entries@);
    let mut best: Option<u64> = None;
    let mut i: usize = 0;
    while i < entries.len()
        invariant
            all == entry_list(entries@),
            i <= entries@.len(),
            best == highest_seq(all.take(i as int)),
        decreases entries@.len() - i,
    {
        proof {
            assert(all.take(i + 1).drop_last() =~= all.take(i as int));
            assert(all.take(i + 1).last() == entries@[i as int]@);
        }
        let seq: u64 = entries[i].seq;
        best = match best {
            Some(s) => if s >= seq {
                Some(s)
            } else {
                Some(seq)
            },
            None => Some(seq),
        };
        i += 1;
    }
    proof {
        assert(all.take(all.len() as int) =~= all);
    }
    best
}

/// How far a read advances the cursor that it goes through: to the last record
/// returned. A read that returns none leaves it where it is.
pub open spec fn advanced_to(cursor: Option<Seq<char>>, entries: Seq<LogEntryView>) -> Option<u64> {
    match cursor {
        Some(_) => highest_seq(entries),
        None => None,
    }
}

/// The bookmarks after a read has returned `entries`.
pub open spec fn advanced_seqs(
    seqs: Map<Seq<char>, u64>,
    cursor: Option<Seq<char>>,
    entries: Seq<LogEntryView>,
) -> Map<Seq<char>, u64> {
    match (cursor, highest_seq(entries)) {
        (Some(c), Some(s)) => seqs.insert(c, s),
        _ => seqs,
    }
}

/// Advance the cursor of a read to the last record that it returned.
pub fn advance_cursor(
    bookmarks: &mut BookmarkStore,
    commit: Option<CursorCommit>,
    entries: &Vec<LogEntry>,
) -> (r: Option<u64>)
    requires
        old(bookmarks).wf(),
    ensures
        final(bookmarks).wf(),
        r == advanced_to(optional_cursor(commit), entry_list(entries@)),
        final(bookmarks)@ == advanced_seqs(
            old(bookmarks)@,
            optional_cursor(commit),
            entry_list(entries@),
        ),
{
    match commit {
        None => None,
        Some(commit) => match max_seq(entries) {
            Some(s) => {
                bookmarks.commit(commit, s);
                Some(s)
            },
            None => None,
        },
    }
}

/// What `logs.recent` answers.
#[derive(Debug)]
pub struct RecentLogs {
    pub logs: Vec<LogEntry>,
    pub stats: RecentStats,
    /// Where the buffer begins, if that is behind the beginning of the window
    /// asked for. The read is truncated where there is one.
    pub evicted_before_window: Option<u64>,
    pub cursor_advanced_to: Option<u64>,
}

/// Where the buffer begins, if that is behind the beginning of the window that a
/// filter asks for.
pub open spec fn evicted_at(filter: Option<FilterView>, p: PipelineView) -> Option<u64> {
    match seq_range(filter).0 {
        Some(from) => evicted(from, p.oldest()),
        None => None,
    }
}

/// Carry out a scan of `logs.recent`. `matches` says of each stored record
/// whether the filter of the query accepts it.
///
/// The newest records come first, so that a cap keeps the newest. Through a
/// cursor the oldest do, so that reading on skips nothing.
pub fn recent_logs(
    pipeline: &LogPipeline,
    bookmarks: &mut BookmarkStore,
    query: LogQuery,
    matches: &Vec<bool>,
) -> (r: RecentLogs)
    requires
        pipeline.wf(),
        old(bookmarks).wf(),
        matches@.len() == pipeline@.store.entries.len(),
    ensures
        final(bookmarks).wf(),
        all_wf(r.logs@),
        ({
            let q = query@;
            let oldest_first = q.cursor is Some;
            let found = records_at(
                pipeline@.store.entries,
                selection(matches@, q.count, oldest_first),
            );
            &&& entry_list(r.logs@) == found
            &&& r.stats.scanned == scanned(matches@, q.count, oldest_first)
            &&& r.stats.reports(pipeline@)
            &&& r.evicted_before_window == evicted_at(q.filter, pipeline@)
            &&& r.cursor_advanced_to == advanced_to(q.cursor, found)
            &&& final(bookmarks)@ == advanced_seqs(old(bookmarks)@, q.cursor, found)
        }),
{
    let oldest_first = query.cursor_commit.is_some();
    let (logs, stats) = pipeline.recent_logs_with_stats(query.count, matches, oldest_first);
    let cursor_advanced_to = advance_cursor(bookmarks, query.cursor_commit, &logs);
    let evicted_before_window = evicted_before_window(&query.filter, stats.buffer_oldest_seq);
    RecentLogs { logs, stats, evicted_before_window, cursor_advanced_to }
}

/// The answer of `logs.recent` for a trace. An index finds the records, so the
/// whole buffer counts as scanned: no read of a buffer that holds something
/// reports nothing scanned.
pub fn recent_trace(pipeline: &LogPipeline, trace_id: u128) -> (r: RecentLogs)
    requires
        pipeline.wf(),
    ensures
        all_wf(r.logs@),
        entry_list(r.logs@) == of_trace(pipeline@.store.entries, trace_id),
        r.stats.scanned == pipeline@.store.entries.len(),
        r.stats.reports(pipeline@),
        r.evicted_before_window is None,
        r.cursor_advanced_to is None,
{
    let logs = pipeline.logs_by_trace_id(trace_id);
    RecentLogs {
        logs,
        stats: pipeline.stats(pipeline.store_len()),
        evicted_before_window: None,
        cursor_advanced_to: None,
    }
}

/// A context window, or 10 records.
pub open spec fn window_param(params: JsonView, key: Seq<char>) -> Result<nat, Seq<char>> {
    match bounded_param(params, key, "context window "@, MAX_CONTEXT_WINDOW) {
        Ok(size) => Ok(size_given(size, 10)),
        Err(e) => Err(e),
    }
}

fn window_of(params: &Json, key: &str) -> (r: Result<usize, String>)
    ensures
        match r {
            Ok(n) => window_param(params@, key@) == Ok::<nat, Seq<char>>(n as nat),
            Err(e) => window_param(params@, key@) == Err::<nat, Seq<char>>(e@),
        },
{
    match opt_context_window(params, key) {
        Ok(Some(n)) => Ok(n),
        Ok(None) => Ok(10),
        Err(e) => Err(e),
    }
}

/// What a call of `logs.context` asks for: a seq and how much around it.
pub open spec fn context_request(params: JsonView) -> Result<(u64, nat, nat), Seq<char>> {
    match required_u64(params, "seq"@) {
        Err(e) => Err(e),
        Ok(seq) => match window_param(params, "before"@) {
            Err(e) => Err(e),
            Ok(before) => match window_param(params, "after"@) {
                Err(e) => Err(e),
                Ok(after) => Ok((seq, before, after)),
            },
        },
    }
}

/// The answer of `logs.context`.
pub fn logs_context(pipeline: &LogPipeline, params: &Json) -> (r: Result<Vec<LogEntry>, String>)
    requires
        pipeline.wf(),
    ensures
        match (r, context_request(params@)) {
            (Ok(logs), Ok(asked)) => all_wf(logs@) && entry_list(logs@) == pipeline@.store.context(
                asked.0,
                asked.1,
                asked.2,
            ),
            (Err(e), Err(why)) => e@ == why,
            _ => false,
        },
{
    let seq: u64 = match req_u64(params, "seq") {
        Ok(n) => n,
        Err(e) => return Err(e),
    };
    let before: usize = match window_of(params, "before") {
        Ok(n) => n,
        Err(e) => return Err(e),
    };
    let after: usize = match window_of(params, "after") {
        Ok(n) => n,
        Err(e) => return Err(e),
    };
    Ok(pipeline.context_by_seq(seq, before, after))
}

/// What a call of `logs.export` asks for. Without a count it is everything.
pub open spec fn export_request(
    params: JsonView,
    readings: Seq<DurationReadingView>,
    seqs: Map<Seq<char>, u64>,
    session: Seq<char>,
) -> Result<LogQueryView, Seq<char>> {
    match size_param(params, "count"@) {
        Err(e) => Err(e),
        Ok(count) => match str_param(params, "filter"@) {
            Err(e) => Err(e),
            Ok(filter) => match query_filter(filter, readings, seqs, session) {
                Err(e) => Err(e),
                Ok(q) => match u64_param(params, "from_seq"@) {
                    Err(e) => Err(e),
                    Ok(from) => match u64_param(params, "to_seq"@) {
                        Err(e) => Err(e),
                        Ok(to) => Ok(
                            LogQueryView {
                                count: size_given(count, usize::MAX),
                                filter: narrowed_to(q.filter, from, to),
                                cursor: q.cursor,
                            },
                        ),
                    },
                },
            },
        },
    }
}

/// The bookmarks after a call of `logs.export` has been read.
pub open spec fn export_seqs(
    params: JsonView,
    readings: Seq<DurationReadingView>,
    seqs: Map<Seq<char>, u64>,
    session: Seq<char>,
) -> Map<Seq<char>, u64> {
    match (size_param(params, "count"@), str_param(params, "filter"@)) {
        (Ok(_), Ok(filter)) => query_seqs(filter, readings, seqs, session),
        _ => seqs,
    }
}

/// Read a call of `logs.export`.
pub fn plan_export(
    params: &Json,
    readings: &Vec<DurationReading>,
    bookmarks: &mut BookmarkStore,
    session: &str,
) -> (r: Result<LogQuery, String>)
    requires
        old(bookmarks).wf(),
    ensures
        final(bookmarks).wf(),
        final(bookmarks)@ == export_seqs(
            params@,
            reading_views(readings@),
            old(bookmarks)@,
            session@,
        ),
        match r {
            Ok(q) => export_request(
                params@,
                reading_views(readings@),
                old(bookmarks)@,
                session@,
            ) == Ok::<LogQueryView, Seq<char>>(q@),
            Err(e) => export_request(
                params@,
                reading_views(readings@),
                old(bookmarks)@,
                session@,
            ) == Err::<LogQueryView, Seq<char>>(e@),
        },
{
    let count: usize = match opt_usize(params, "count") {
        Ok(Some(n)) => n,
        Ok(None) => usize::MAX,
        Err(e) => return Err(e),
    };
    let filter = match opt_str(params, "filter") {
        Ok(f) => f,
        Err(e) => return Err(e),
    };
    let q = match parse_and_resolve_filter(filter, readings, bookmarks, session) {
        Ok(q) => q,
        Err(e) => return Err(e),
    };
    let from = match opt_u64(params, "from_seq") {
        Ok(n) => n,
        Err(e) => return Err(e),
    };
    let to = match opt_u64(params, "to_seq") {
        Ok(n) => n,
        Err(e) => return Err(e),
    };
    let filter = lower_seq_range(q.filter, from, to);
    Ok(LogQuery { count, filter, cursor_commit: q.cursor_commit })
}

/// The window that a read is about.
///
/// It is the range asked for. Where none was, it begins with the buffer and ends
/// with the newest seq that was *assigned*, not stored: records that were dropped
/// since then belong to the window, or a reader would take the rest for all
/// there is. An empty buffer has no window, and so no claim is made about one.
pub open spec fn read_window(filter: Option<FilterView>, p: PipelineView) -> Option<(u64, u64)> {
    match p.oldest() {
        None => None,
        Some(oldest) => {
            let from = match seq_range(filter).0 {
                Some(n) => n,
                None => oldest,
            };
            let to = match seq_range(filter).1 {
                Some(n) => n,
                None => p.seq,
            };
            if from <= to {
                Some((from, to))
            } else {
                None
            }
        },
    }
}

/// What is known about the storage policy over a window.
pub open spec fn window_coverage(window: Option<(u64, u64)>, p: PipelineView) -> Option<
    EpochCoverageView,
> {
    match window {
        Some((from, to)) => Some(p.epochs.coverage(from, to)),
        None => None,
    }
}

/// The stretches of a window over which storage was narrowed.
pub open spec fn narrowed_over(coverage: Option<EpochCoverageView>) -> Seq<NarrowedSpanView> {
    match coverage {
        Some(c) => c.narrowed,
        None => seq![],
    }
}

fn window_of_read(filter: &Option<ParsedFilter>, pipeline: &LogPipeline) -> (r: Option<(u64, u64)>)
    ensures
        r == read_window(optional_filter(*filter), pipeline@),
{
    let (low, high) = resolved_seq_range(filter);
    match pipeline.oldest_log_seq() {
        None => None,
        Some(oldest) => {
            let from: u64 = match low {
                Some(n) => n,
                None => oldest,
            };
            let to: u64 = match high {
                Some(n) => n,
                None => pipeline.current_seq(),
            };
            if from <= to {
                Some((from, to))
            } else {
                None
            }
        },
    }
}

/// What `logs.export` answers.
#[derive(Debug)]
pub struct ExportedLogs {
    pub logs: Vec<LogEntry>,
    pub stats: RecentStats,
    pub evicted_before_window: Option<u64>,
    /// More records match than were asked for.
    pub capped: bool,
    pub verdict: EvidenceVerdict,
    pub narrowed_by: Vec<NarrowedSpan>,
    pub cursor_advanced_to: Option<u64>,
}

/// Carry out a call of `logs.export`. `matches` says of each stored record
/// whether the filter of the query accepts it.
///
/// One record more than asked for is looked for, so that `capped` is a fact
/// rather than an inference: as many as were asked for come back both where the
/// read was cut short and where exactly so many match.
pub fn export_logs(
    pipeline: &LogPipeline,
    bookmarks: &mut BookmarkStore,
    query: LogQuery,
    matches: &Vec<bool>,
) -> (r: ExportedLogs)
    requires
        pipeline.wf(),
        old(bookmarks).wf(),
        matches@.len() == pipeline@.store.entries.len(),
    ensures
        final(bookmarks).wf(),
        all_wf(r.logs@),
        ({
            let q = query@;
            let oldest_first = q.cursor is Some;
            let found = records_at(
                pipeline@.store.entries,
                selection(matches@, q.count, oldest_first),
            );
            let coverage = window_coverage(read_window(q.filter, pipeline@), pipeline@);
            &&& entry_list(r.logs@) == found
            &&& r.stats.reports(pipeline@)
            &&& r.stats.scanned == scanned(
                matches@,
                if q.count < usize::MAX {
                    q.count + 1
                } else {
                    q.count
                },
                oldest_first,
            )
            &&& r.evicted_before_window == evicted_at(q.filter, pipeline@)
            &&& r.capped == (matching(matches@) > q.count)
            &&& r.verdict == verdict_of(coverage, r.evicted_before_window is Some, r.capped)
            &&& span_views(r.narrowed_by@) == narrowed_over(coverage)
            &&& r.cursor_advanced_to == advanced_to(q.cursor, found)
            &&& final(bookmarks)@ == advanced_seqs(old(bookmarks)@, q.cursor, found)
        }),
{
    let oldest_first = query.cursor_commit.is_some();
    let probe: usize = query.count.saturating_add(1);
    let picked = pick(matches, probe, oldest_first);
    let mut at = picked.at;
    let capped = at.len() > query.count;
    proof {
        probing_returns_the_same(matches@, query.count as nat, probe as nat, oldest_first);
        reads_return_what_matches(matches@, probe as nat, oldest_first);
        lemma_matching_bounded(matches@);
        assert(places(at@).len() == at@.len());
    }
    if capped {
        at.truncate(query.count);
        proof {
            assert(places(at@) =~= selection(matches@, probe as nat, oldest_first).take(
                query.count as int,
            ));
        }
    }
    let logs = clone_at(pipeline.stored(), &at);
    let stats = pipeline.stats(picked.scanned);
    let cursor_advanced_to = advance_cursor(bookmarks, query.cursor_commit, &logs);
    let evicted_before_window = evicted_before_window(&query.filter, stats.buffer_oldest_seq);
    match window_of_read(&query.filter, pipeline) {
        Some((from, to)) => {
            let coverage = pipeline.epochs().coverage(from, to);
            let verdict = evidence_verdict(Some(&coverage), evicted_before_window.is_some(), capped);
            ExportedLogs {
                logs,
                stats,
                evicted_before_window,
                capped,
                verdict,
                narrowed_by: coverage.narrowed,
                cursor_advanced_to,
            }
        },
        None => {
            let verdict = evidence_verdict(None, evicted_before_window.is_some(), capped);
            let narrowed_by: Vec<NarrowedSpan> = Vec::new();
            proof {
                assert(span_views(narrowed_by@) =~= seq![]);
            }
            ExportedLogs {
                logs,
                stats,
                evicted_before_window,
                capped,
                verdict,
                narrowed_by,
                cursor_advanced_to,
            }
        },
    }
}

proof fn lemma_matching_bounded(matches: Seq<bool>)
    ensures
        matching(matches) <= matches.len(),
    decreases matches.len(),
{
    if matches.len() > 0 {
        lemma_matching_bounded(matches.drop_last());
    }
}

/// An export that is called complete lacks nothing that matches: it was not cut
/// short, its window begins no earlier than the buffer, and over the whole window
/// every record that arrived was stored.
pub proof fn complete_exports_lack_nothing(
    filter: Option<FilterView>,
    p: PipelineView,
    matches: Seq<bool>,
    count: nat,
    oldest_first: bool,
)
    requires
        verdict_of(
            window_coverage(read_window(filter, p), p),
            evicted_at(filter, p) is Some,
            matching(matches) > count,
        ) == EvidenceVerdict::Complete,
    ensures
        selection(matches, count, oldest_first).len() == matching(matches),
        read_window(filter, p) matches Some((from, to)) && {
            &&& p.oldest() matches Some(oldest)
            &&& oldest <= from <= to
            &&& p.epochs.coverage(from, to).covered
            &&& p.epochs.coverage(from, to).narrowed.len() == 0
        },
{
    reads_return_what_matches(matches, count, oldest_first);
}

proof fn lemma_last_is_highest(entries: Seq<LogEntryView>)
    requires
        entries.len() > 0,
        forall|i: int, j: int|
            0 <= i < j < entries.len() ==> (#[trigger] entries[i]).seq < (#[trigger] entries[j]).seq,
    ensures
        highest_seq(entries) == Some(entries.last().seq),
    decreases entries.len(),
{
    let rest = entries.drop_last();
    reveal_with_fuel(highest_seq, 2);
    if rest.len() > 0 {
        lemma_last_is_highest(rest);
        assert(entries[entries.len() - 2].seq < entries[entries.len() - 1].seq);
    }
}

/// A read through a cursor leaves it just behind what it returned: of the records
/// that match, those up to there were returned, and those above it were not, so
/// that reading on from there repeats nothing and skips nothing. The records are
/// in the order of their seqs.
pub proof fn reads_through_a_cursor_follow_on(
    entries: Seq<LogEntryView>,
    matches: Seq<bool>,
    count: nat,
    cursor: Seq<char>,
    i: int,
)
    requires
        matches.len() == entries.len(),
        forall|j: int, k: int|
            0 <= j < k < entries.len() ==> (#[trigger] entries[j]).seq < (#[trigger] entries[k]).seq,
        0 <= i < entries.len(),
        matches[i],
    ensures
        ({
            let at = selection(matches, count, true);
            match advanced_to(Some(cursor), records_at(entries, at)) {
                Some(seq) => at.contains(i) <==> entries[i].seq <= seq,
                None => at.len() == 0,
            }
        }),
{
    let at = selection(matches, count, true);
    let found = records_at(entries, at);
    reads_keep_the_order(matches, count, true);
    if at.len() > 0 {
        assert forall|j: int, k: int| 0 <= j < k < found.len() implies (#[trigger] found[j]).seq < (
        #[trigger] found[k]).seq by {
            assert(at[j] < at[k]);
            assert(entries[at[j]].seq < entries[at[k]].seq);
        }
        lemma_last_is_highest(found);
        let end = at[at.len() - 1];
        assert(found.last() == entries[end]);
        if at.contains(i) {
            let j = choose|j: int| 0 <= j < at.len() && at[j] == i;
            if j < at.len() - 1 {
                assert(at[j] < at[at.len() - 1]);
                assert(entries[i].seq < entries[end].seq);
            }
        } else {
            oldest_first_reads_skip_nothing(matches, count, i);
            assert(end < i);
            assert(entries[end].seq < entries[i].seq);
        }
    }
}

/// Nothing is claimed of an empty buffer.
pub proof fn empty_buffers_prove_nothing(filter: Option<FilterView>, p: PipelineView, capped: bool)
    requires
        p.store.entries.len() == 0,
    ensures
        verdict_of(
            window_coverage(read_window(filter, p), p),
            evicted_at(filter, p) is Some,
            capped,
        ) == EvidenceVerdict::CannotVerify,
{
}

/// A query that gives no filter, or a blank one, asks for everything and moves nothing.
pub proof fn blank_filters_ask_for_everything(
    filter: Option<Seq<char>>,
    readings: Seq<DurationReadingView>,
    seqs: Map<Seq<char>, u64>,
    session: Seq<char>,
)
    requires
        filter matches Some(s) ==> forall|i: int| 0 <= i < s.len() ==> is_white(#[trigger] s[i]),
    ensures
        query_filter(filter, readings, seqs, session) == Ok::<QueryFilterView, Seq<char>>(
            QueryFilterView { filter: None, cursor: None },
        ),
        query_seqs(filter, readings, seqs, session) == seqs,
{
    if let Some(s) = filter {
        let from = trimming_takes_white_space_only(s);
        if trimmed(s).len() > 0 {
            assert(trimmed(s)[0] == s[from]);
        }
    }
}

/// A call of `logs.recent` reads the trace that it names, or else as many records as it
/// says, 50 where it says nothing, by its own filter.
pub proof fn recent_reads_are_planned_as_asked(
    params: JsonView,
    readings: Seq<DurationReadingView>,
    seqs: Map<Seq<char>, u64>,
    session: Seq<char>,
)
    requires
        recent_request(params, readings, seqs, session) is Ok,
    ensures
        match recent_request(params, readings, seqs, session)->Ok_0 {
            RecentPlanView::Trace(id) => {
                &&& params.text_at("trace_id"@) matches Some(hex)
                &&& hex_of(hex) == Some(id as nat)
                &&& recent_seqs(params, readings, seqs, session) == seqs
            },
            RecentPlanView::Scan(q) => {
                &&& given(params, "trace_id"@) is None
                &&& given(params, "count"@) is None ==> q.count == 50
                &&& params.u64_at("count"@) matches Some(n) ==> q.count == n
                &&& query_filter(params.text_at("filter"@), readings, seqs, session) == Ok::<
                    QueryFilterView,
                    Seq<char>,
                >(QueryFilterView { filter: q.filter, cursor: q.cursor })
            },
        },
{
}

/// A call of `logs.export` reads as many records as it says, all where it says nothing, by
/// its own filter and from `from_seq` to `to_seq`.
pub proof fn exports_are_planned_as_asked(
    params: JsonView,
    readings: Seq<DurationReadingView>,
    seqs: Map<Seq<char>, u64>,
    session: Seq<char>,
)
    requires
        export_request(params, readings, seqs, session) is Ok,
    ensures
        ({
            let q = export_request(params, readings, seqs, session)->Ok_0;
            let from = params.u64_at("from_seq"@);
            let to = params.u64_at("to_seq"@);
            &&& given(params, "count"@) is None ==> q.count == usize::MAX
            &&& params.u64_at("count"@) matches Some(n) ==> q.count == n
            &&& query_filter(params.text_at("filter"@), readings, seqs, session) matches Ok(plain)
            &&& q.cursor == plain.cursor
            &&& q.filter == narrowed_to(plain.filter, from, to)
            &&& plain.filter is None && (from is Some || to is Some) && (from matches Some(f) ==> f
                > 0) && (to matches Some(t) ==> t < u64::MAX) ==> seq_range(q.filter) == (from, to)
        }),
{
    let q = export_request(params, readings, seqs, session)->Ok_0;
    let plain = query_filter(params.text_at("filter"@), readings, seqs, session)->Ok_0;
    let from = params.u64_at("from_seq"@);
    let to = params.u64_at("to_seq"@);
    if plain.filter is None && (from is Some || to is Some) && (from matches Some(f) ==> f > 0) && (
    to matches Some(t) ==> t < u64::MAX) {
        folded_ranges_are_read_back(from, to);
    }
}

/// A call of `logs.context` asks for a seq and for as much on either side as it says under
/// `before` and `after`, 10 records where it says nothing.
pub proof fn contexts_are_planned_as_asked(params: JsonView)
    requires
        context_request(params) is Ok,
    ensures
        ({
            let (seq, before, after) = context_request(params)->Ok_0;
            &&& params.u64_at("seq"@) == Some(seq)
            &&& params.u64_at("before"@) matches Some(n) ==> before == n
            &&& params.u64_at("after"@) matches Some(n) ==> after == n
            &&& given(params, "before"@) is None ==> before == 10
            &&& given(params, "after"@) is None ==> after == 10
        }),
{
}

/// A cursor is advanced to the highest seq of what was read through it, which is one of
/// the records read; where nothing was read, or through no cursor, no bookmark moves.
pub proof fn cursors_advance_to_the_highest(
    seqs: Map<Seq<char>, u64>,
    cursor: Seq<char>,
    entries: Seq<LogEntryView>,
    i: int,
    key: Seq<char>,
)
    ensures
        advanced_seqs(seqs, None, entries) == seqs,
        advanced_to(None, entries) is None,
        entries.len() == 0 ==> advanced_seqs(seqs, Some(cursor), entries) == seqs && advanced_to(
            Some(cursor),
            entries,
        ) is None,
        entries.len() > 0 ==> {
            let after = advanced_seqs(seqs, Some(cursor), entries);
            &&& after.contains_key(cursor)
            &&& advanced_to(Some(cursor), entries) == Some(after[cursor])
            &&& 0 <= i < entries.len() ==> entries[i].seq <= after[cursor]
            &&& exists|k: int|
                0 <= k < entries.len() && (#[trigger] entries[k]).seq == after[cursor]
            &&& key != cursor ==> after.contains_key(key) == seqs.contains_key(key) && (
            seqs.contains_key(key) ==> after[key] == seqs[key])
        },
{
    lemma_highest(entries, i);
}

proof fn lemma_highest(entries: Seq<LogEntryView>, i: int)
    ensures
        entries.len() == 0 <==> highest_seq(entries) is None,
        highest_seq(entries) matches Some(s) ==> {
            &&& 0 <= i < entries.len() ==> entries[i].seq <= s
            &&& exists|k: int| 0 <= k < entries.len() && (#[trigger] entries[k]).seq == s
        },
    decreases entries.len(),
{
    if entries.len() > 0 {
        let front = entries.drop_last();
        lemma_highest(front, i);
        let s = highest_seq(entries)->0;
        if s == entries.last().seq {
            assert(entries[entries.len() - 1].seq == s);
        } else {
            let k = choose|k: int| 0 <= k < front.len() && (#[trigger] front[k]).seq == s;
            assert(entries[k].seq == s);
        }
        if 0 <= i < front.len() {
            assert(front[i] == entries[i]);
        }
    }
}

/// The window of a read is the range that it asks for; where it asks for no beginning or
/// no end, it begins with the oldest stored record and ends with the newest seq that was
/// assigned. An empty buffer has no window.
pub proof fn windows_are_what_was_asked_for(filter: Option<FilterView>, p: PipelineView)
    ensures
        p.store.entries.len() == 0 ==> read_window(filter, p) is None,
        p.store.entries.len() > 0 && seq_range(filter) == (None::<u64>, None::<u64>) ==> {
            let oldest = p.store.entries[0].seq;
            read_window(filter, p) == (if oldest <= p.seq {
                Some((oldest, p.seq))
            } else {
                None
            })
        },
        p.store.entries.len() > 0 ==> (seq_range(filter) matches (Some(from), Some(to)) ==> (from <= to
            ==> read_window(filter, p) == Some((from, to)))),
        read_window(filter, p) matches Some((from, to)) ==> {
            &&& from <= to
            &&& seq_range(filter).0 matches Some(n) ==> from == n
            &&& seq_range(filter).1 matches Some(n) ==> to == n
            &&& seq_range(filter).1 is None ==> to == p.seq
            &&& seq_range(filter).0 is None ==> from == p.store.entries[0].seq
        },
        evicted_at(filter, p) is Some <==> (seq_range(filter).0 matches Some(from)
            && p.store.entries.len() > 0 && from < p.store.entries[0].seq),
        evicted_at(filter, p) matches Some(n) ==> n == p.store.entries[0].seq,
{
}

/// A query moves no bookmark and refers to nothing once it is resolved; a filter without
/// cursors opens none.
pub proof fn queries_move_no_bookmark(
    given: Option<Seq<char>>,
    readings: Seq<DurationReadingView>,
    seqs: Map<Seq<char>, u64>,
    session: Seq<char>,
    key: Seq<char>,
)
    ensures
        ({
            let after = query_seqs(given, readings, seqs, session);
            &&& seqs.contains_key(key) ==> after.contains_key(key) && after[key] == seqs[key]
            &&& given is None ==> after == seqs
            &&& given matches Some(s) ==> trimmed(s).len() > 0 && filter_of(s, readings) is Ok
                ==> after == resolution(
                seqs,
                qualifiers_in(filter_of(s, readings)->Ok_0),
                session,
            ).seqs
        }),
        query_filter(given, readings, seqs, session) matches Ok(q) ==> q.filter
            matches Some(FilterView::Qualifiers(qs)) ==> !has_reference(qs),
{
    if given is Some && filter_of(given->0, readings) is Ok {
        let qs = qualifiers_in(filter_of(given->0, readings)->Ok_0);
        resolving_moves_no_bookmark(seqs, qs, session, key);
        resolved_filters_refer_to_nothing(seqs, qs, session);
    }
}

} // verus!
