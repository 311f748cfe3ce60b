//! Capturing a case: an anchor, the records around it, and what can be vouched
//! for over the window that they make up.
use crate::clock::Timestamp;
use crate::daemon::rpc::logs::{size_given, size_param};
use crate::daemon::rpc::params::{
    given, opt_str, opt_u64, opt_usize, req_str, required_str, str_param, u64_param,
};
use crate::engine::epoch::{
    evidence_verdict, span_views, verdict_of, EvidenceVerdict, NarrowedSpan,
};
use crate::engine::pipeline::{LogPipeline, PipelineView};
use crate::filter::parser::{evicted, evicted_below};
use crate::gelf::message::{LogEntry, LogEntryView};
use crate::json::{Json, JsonView};
use crate::store::bookmarks::{qualified, qualify, seq_called, BookmarkStore};
use crate::store::memory::{
    all_wf, clone_range, contexts_surround_their_record, entry_list, of_trace,
    traces_gather_their_records, StoreView,
};
use crate::text;
use crate::text::{decimal_text, hex_of, hex_up_to, trimmed};
use crate::text_map::{
    lemma_precedes_total, lemma_precedes_transitive, precedes, text_before,
};
use vstd::prelude::*;

verus! {

broadcast use vstd::string::group_string_axioms;

/// Records captured on either side of the anchor where the caller says nothing:
/// enough for the shape of a failure, too little for a dump of the buffer.
pub const DEFAULT_CASE_WINDOW: usize = 350;

/// Ceiling on each side of a window. Nothing else stands between a typo and a
/// capture of many megabytes.
pub const MAX_CASE_WINDOW: usize = 5_000;

/// How many neighbours of the anchor a document shows on either side.
pub const NEIGHBOUR_WINDOW: usize = 10;

/// One side of a window.
#[derive(Debug, Clone, Copy, PartialEq, Eq, Structural)]
pub struct WindowCount {
    pub value: usize,
    /// More was asked for than the ceiling allows. This is told, not applied
    /// silently: a reader who takes the window for what was asked for draws
    /// conclusions over records that nobody read.
    pub clamped: bool,
}

/// One side of a window that is asked for.
pub open spec fn window_asked(params: JsonView, key: Seq<char>) -> Result<WindowCount, Seq<char>> {
    match size_param(params, key) {
        Err(e) => Err(e),
        Ok(size) => {
            let n = size_given(size, DEFAULT_CASE_WINDOW);
            Ok(
                WindowCount {
                    value: if n > MAX_CASE_WINDOW {
                        MAX_CASE_WINDOW
                    } else {
                        n as usize
                    },
                    clamped: n > MAX_CASE_WINDOW,
                },
            )
        },
    }
}

/// Read one side of a window.
pub fn window_count(params: &Json, key: &str) -> (r: Result<WindowCount, String>)
    ensures
        match r {
            Ok(w) => window_asked(params@, key@) == Ok::<WindowCount, Seq<char>>(w),
            Err(e) => window_asked(params@, key@) == Err::<WindowCount, Seq<char>>(e@),
        },
{
    let n: usize = match opt_usize(params, key) {
        Ok(Some(n)) => n,
        Ok(None) => DEFAULT_CASE_WINDOW,
        Err(e) => return Err(e),
    };
    let value: usize = if n > MAX_CASE_WINDOW {
        MAX_CASE_WINDOW
    } else {
        n
    };
    Ok(WindowCount { value, clamped: n > MAX_CASE_WINDOW })
}

/// What a call of `cases.create` asks for.
#[derive(Debug)]
pub struct CaseRequest {
    pub reason: String,
    pub dir: String,
    pub before: WindowCount,
    pub after: WindowCount,
}

/// What a [`CaseRequest`] asks for.
#[verifier::ext_equal]
pub struct CaseRequestView {
    pub reason: Seq<char>,
    pub dir: Seq<char>,
    pub before: WindowCount,
    pub after: WindowCount,
}

impl View for CaseRequest {
    type V = CaseRequestView;

    open spec fn view(&self) -> CaseRequestView {
        CaseRequestView {
            reason: self.reason@,
            dir: self.dir@,
            before: self.before,
            after: self.after,
        }
    }
}

impl CaseRequestView {
    /// The window is narrower than what was asked for.
    pub open spec fn clamped(self) -> bool {
        self.before.clamped || self.after.clamped
    }
}

/// The refusal of a relative directory.
pub open spec fn relative_dir(dir: Seq<char>) -> Seq<char> {
    "`dir` must be an absolute path, and `"@ + dir
        + "` is not. The broker runs as a service, so a relative path would resolve against the broker's working directory rather than yours."@
}

/// What a call of `cases.create` asks for. A reason must be given. A directory
/// that is not absolute is refused, never resolved: it would be found from where
/// the broker runs, and the archive written where nobody looks.
pub open spec fn case_request(params: JsonView) -> Result<CaseRequestView, Seq<char>> {
    match required_str(params, "reason"@) {
        Err(e) => Err(e),
        Ok(why) => if trimmed(why).len() == 0 {
            Err(
                "`reason` must not be empty: a manual case that cannot say why it was taken has no provenance, and unlike a watch there is no filter standing in for one"@,
            )
        } else {
            match required_str(params, "dir"@) {
                Err(e) => Err(e),
                Ok(dir) => if dir.len() == 0 || dir[0] != '/' {
                    Err(relative_dir(dir))
                } else {
                    match window_asked(params, "before"@) {
                        Err(e) => Err(e),
                        Ok(before) => match window_asked(params, "after"@) {
                            Err(e) => Err(e),
                            Ok(after) => Ok(
                                CaseRequestView { reason: trimmed(why), dir, before, after },
                            ),
                        },
                    }
                },
            }
        },
    }
}

/// Read a call of `cases.create`.
pub fn read_case(params: &Json) -> (r: Result<CaseRequest, String>)
    ensures
        match r {
            Ok(q) => case_request(params@) == Ok::<CaseRequestView, Seq<char>>(q@),
            Err(e) => case_request(params@) == Err::<CaseRequestView, Seq<char>>(e@),
        },
{
    let given = match req_str(params, "reason") {
        Ok(s) => s,
        Err(e) => return Err(e),
    };
    let reason = text::trim(&text::chars_of(given));
    if reason.len() == 0 {
        return Err(
            text::owned(
                "`reason` must not be empty: a manual case that cannot say why it was taken has no provenance, and unlike a watch there is no filter standing in for one",
            ),
        );
    }
    let dir = match req_str(params, "dir") {
        Ok(s) => s,
        Err(e) => return Err(e),
    };
    let path = text::chars_of(dir);
    if path.len() == 0 || path[0] != '/' {
        return Err(
            text::join3(
                "`dir` must be an absolute path, and `",
                dir,
                "` is not. The broker runs as a service, so a relative path would resolve against the broker's working directory rather than yours.",
            ),
        );
    }
    let before = match window_count(params, "before") {
        Ok(w) => w,
        Err(e) => return Err(e),
    };
    match window_count(params, "after") {
        Ok(after) => Ok(
            CaseRequest { reason: text::text_of(&reason), dir: text::owned(dir), before, after },
        ),
        Err(e) => Err(e),
    }
}

/// How an anchor was named.
#[derive(Debug, Clone, Copy, PartialEq, Eq, Structural)]
pub enum AnchorKind {
    Number,
    Bookmark,
    TraceId,
}

impl AnchorKind {
    /// The tag of a kind of anchor.
    pub open spec fn tag(self) -> Seq<char> {
        match self {
            AnchorKind::Number => "seq"@,
            AnchorKind::Bookmark => "bookmark"@,
            AnchorKind::TraceId => "trace_id"@,
        }
    }

    pub fn as_str(&self) -> (r: &'static str)
        ensures
            r@ == self.tag(),
    {
        match self {
            AnchorKind::Number => "seq",
            AnchorKind::Bookmark => "bookmark",
            AnchorKind::TraceId => "trace_id",
        }
    }
}

/// The record that a case is about.
#[derive(Debug, PartialEq, Eq)]
pub struct Anchor {
    pub kind: AnchorKind,
    pub label: String,
    pub seq: u64,
    pub at: Timestamp,
    pub message: String,
    /// How many records the anchor could have been, where there are several.
    pub of_many: Option<usize>,
}

/// What an [`Anchor`] says.
#[verifier::ext_equal]
pub struct AnchorView {
    pub kind: AnchorKind,
    pub label: Seq<char>,
    pub seq: u64,
    pub at: Timestamp,
    pub message: Seq<char>,
    pub of_many: Option<nat>,
}

impl View for Anchor {
    type V = AnchorView;

    open spec fn view(&self) -> AnchorView {
        AnchorView {
            kind: self.kind,
            label: self.label@,
            seq: self.seq,
            at: self.at,
            message: self.message@,
            of_many: match self.of_many {
                Some(n) => Some(n as nat),
                None => None,
            },
        }
    }
}

/// A record as an anchor.
pub open spec fn anchored(
    kind: AnchorKind,
    label: Seq<char>,
    e: LogEntryView,
    of_many: Option<nat>,
) -> AnchorView {
    AnchorView { kind, label, seq: e.seq, at: e.timestamp, message: e.message, of_many }
}

fn make_anchor(kind: AnchorKind, label: String, e: &LogEntry, of_many: Option<usize>) -> (r: Anchor)
    ensures
        r@ == anchored(
            kind,
            label@,
            e@,
            match of_many {
                Some(n) => Some(n as nat),
                None => None,
            },
        ),
{
    Anchor { kind, label, seq: e.seq, at: e.timestamp, message: e.message.clone(), of_many }
}

/// The first record behind a seq, in the order in which they are stored.
pub open spec fn is_first_after(entries: Seq<LogEntryView>, seq: u64, i: int) -> bool {
    &&& 0 <= i < entries.len()
    &&& entries[i].seq > seq
    &&& forall|k: int| 0 <= k < i ==> (#[trigger] entries[k]).seq <= seq
}

/// The record behind a seq that is first stored.
pub open spec fn first_after(entries: Seq<LogEntryView>, seq: u64) -> Option<LogEntryView> {
    if exists|i: int| is_first_after(entries, seq, i) {
        Some(entries[choose|i: int| is_first_after(entries, seq, i)])
    } else {
        None
    }
}

fn find_after(entries: &Vec<LogEntry>, seq: u64) -> (r: Option<usize>)
    ensures
        match r {
            Some(i) => i < entries@.len() && first_after(entry_list(entries@), seq) == Some(
                entries@[i as int]@,
            ),
            None => first_after(entry_list(entries@), seq) is None,
        },
{
    let ghost all = entry_list(entries@);
    let mut i: usize = 0;
    while i < entries.len()
        invariant
            all == entry_list(entries@),
            i <= entries@.len(),
            forall|k: int| 0 <= k < i ==> (#[trigger] all[k]).seq <= seq,
        decreases entries@.len() - i,
    {
        proof {
            assert(all[i as int] == entries@[i as int]@);
        }
        if entries[i].seq > seq {
            proof {
                assert(is_first_after(all, seq, i as int));
                let j = choose|j: int| is_first_after(all, seq, j);
                assert(i == j) by {
                    if j < i {
                        assert(all[j].seq <= seq);
                    } else if i < j {
                        assert(all[i as int].seq <= seq);
                    }
                }
            }
            return Some(i);
        }
        i += 1;
    }
    proof {
        assert forall|j: int| !is_first_after(all, seq, j) by {
            if is_first_after(all, seq, j) {
                assert(all[j].seq <= seq);
            }
        }
    }
    None
}

/// The seq of a bookmark that an anchor names: the one of that very name, or the
/// one that some session calls so.
pub open spec fn anchor_mark(seqs: Map<Seq<char>, u64>, name: Seq<char>) -> Option<u64> {
    let key = qualified(name, ""@);
    if seqs.contains_key(key) {
        Some(seqs[key])
    } else {
        seq_called(seqs, name)
    }
}

/// How many of three things were given.
pub open spec fn count_given(a: bool, b: bool, c: bool) -> nat {
    (if a {
        1nat
    } else {
        0
    }) + (if b {
        1nat
    } else {
        0
    }) + (if c {
        1nat
    } else {
        0
    })
}

/// The refusal of an anchor that is not named in exactly one way.
pub open spec fn ambiguous_anchor(given: nat) -> Seq<char> {
    "`anchor` takes exactly one of `seq`, `bookmark` or `trace_id`, and "@ + decimal_text(given)
        + " were given. It is tagged rather than sniffed because a bookmark named `12345` and a seq are indistinguishable as strings, and the failure would be a document anchored somewhere else."@
}

fn refuse_ambiguous(given: u64) -> (r: String)
    ensures
        r@ == ambiguous_anchor(given as nat),
{
    text::join3(
        "`anchor` takes exactly one of `seq`, `bookmark` or `trace_id`, and ",
        &text::decimal(given),
        " were given. It is tagged rather than sniffed because a bookmark named `12345` and a seq are indistinguishable as strings, and the failure would be a document anchored somewhere else.",
    )
}

/// The record of a seq as an anchor.
pub open spec fn seq_anchor(p: PipelineView, seq: u64) -> Result<AnchorView, Seq<char>> {
    let found = p.store.context(seq, 0, 0);
    if found.len() == 0 {
        Err(
            "no stored log entry has seq "@ + decimal_text(seq as nat)
                + ", so there is nothing to anchor on"@,
        )
    } else {
        Ok(anchored(AnchorKind::Number, decimal_text(seq as nat), found[0], None))
    }
}

/// The record that a bookmark anchors. A bookmark marks a boundary, not a
/// record, so it is the first one behind it: the one that a filter from the
/// bookmark on would hand back first.
pub open spec fn bookmark_anchor(p: PipelineView, seqs: Map<Seq<char>, u64>, name: Seq<char>) -> Result<
    AnchorView,
    Seq<char>,
> {
    match anchor_mark(seqs, name) {
        None => Err("no bookmark named `"@ + name + "` on this domain"@),
        Some(mark) => match first_after(p.store.entries, mark) {
            None => Err(
                "bookmark `"@ + name + "` is at seq "@ + decimal_text(mark as nat)
                    + ", and no stored entry follows it"@,
            ),
            Some(e) => Ok(anchored(AnchorKind::Bookmark, name, e, None)),
        },
    }
}

/// The record that a trace anchors: its earliest.
pub open spec fn trace_anchor(p: PipelineView, hex: Seq<char>) -> Result<AnchorView, Seq<char>> {
    match hex_up_to(hex, u128::MAX as nat) {
        None => Err("`"@ + hex + "` is not a hexadecimal trace id"@),
        Some(id) => {
            let found = of_trace(p.store.entries, id as u128);
            if found.len() == 0 {
                Err("no stored log entry carries trace id `"@ + hex + "`"@)
            } else {
                Ok(
                    anchored(
                        AnchorKind::TraceId,
                        hex,
                        found[0],
                        if found.len() > 1 {
                            Some(found.len())
                        } else {
                            None
                        },
                    ),
                )
            }
        },
    }
}

/// What an anchor resolves to.
pub open spec fn case_anchor(
    p: PipelineView,
    seqs: Map<Seq<char>, u64>,
    raw: Option<JsonView>,
) -> Result<AnchorView, Seq<char>> {
    match raw {
        None => Err(
            "`anchor` is required: it is `{seq}`, `{bookmark}` or `{trace_id}`, tagged rather than one string the daemon guesses at"@,
        ),
        Some(v) => match u64_param(v, "seq"@) {
            Err(e) => Err(e),
            Ok(seq) => match str_param(v, "bookmark"@) {
                Err(e) => Err(e),
                Ok(bookmark) => match str_param(v, "trace_id"@) {
                    Err(e) => Err(e),
                    Ok(trace) => {
                        let given = count_given(seq is Some, bookmark is Some, trace is Some);
                        if given != 1 {
                            Err(ambiguous_anchor(given))
                        } else if seq is Some {
                            seq_anchor(p, seq->0)
                        } else if bookmark is Some {
                            bookmark_anchor(p, seqs, bookmark->0)
                        } else {
                            trace_anchor(p, trace->0)
                        }
                    },
                },
            },
        },
    }
}

/// What a result says.
pub open spec fn anchor_result(r: Result<Anchor, String>) -> Result<AnchorView, Seq<char>> {
    match r {
        Ok(a) => Ok(a@),
        Err(e) => Err(e@),
    }
}

fn anchor_at_seq(pipeline: &LogPipeline, seq: u64) -> (r: Result<Anchor, String>)
    requires
        pipeline.wf(),
    ensures
        anchor_result(r) == seq_anchor(pipeline@, seq),
{
    let found = pipeline.context_by_seq(seq, 0, 0);
    let label = text::decimal(seq);
    if found.len() == 0 {
        return Err(
            text::join3(
                "no stored log entry has seq ",
                &label,
                ", so there is nothing to anchor on",
            ),
        );
    }
    proof {
        assert(entry_list(found@)[0] == found@[0]@);
    }
    Ok(make_anchor(AnchorKind::Number, label, &found[0], None))
}

fn anchor_at_bookmark(pipeline: &LogPipeline, bookmarks: &BookmarkStore, name: &str) -> (r: Result<
    Anchor,
    String,
>)
    requires
        pipeline.wf(),
        bookmarks.wf(),
    ensures
        anchor_result(r) == bookmark_anchor(pipeline@, bookmarks@, name@),
{
    let key = qualify(name, "");
    let mark = match bookmarks.get(&key) {
        Some(seq) => Some(seq),
        None => bookmarks.find(name),
    };
    let mark: u64 = match mark {
        Some(seq) => seq,
        None => return Err(text::join3("no bookmark named `", name, "` on this domain")),
    };
    let entries = pipeline.stored();
    match find_after(entries, mark) {
        Some(i) => Ok(make_anchor(AnchorKind::Bookmark, text::owned(name), &entries[i], None)),
        None => {
            let head = text::join3("bookmark `", name, "` is at seq ");
            Err(text::join3(&head, &text::decimal(mark), ", and no stored entry follows it"))
        },
    }
}

fn anchor_at_trace(pipeline: &LogPipeline, hex: &str) -> (r: Result<Anchor, String>)
    requires
        pipeline.wf(),
    ensures
        anchor_result(r) == trace_anchor(pipeline@, hex@),
{
    let id: u128 = match text::parse_hex_u128(hex) {
        Some(id) => id,
        None => return Err(text::join3("`", hex, "` is not a hexadecimal trace id")),
    };
    let found = pipeline.logs_by_trace_id(id);
    let n: usize = found.len();
    if n == 0 {
        return Err(text::join3("no stored log entry carries trace id `", hex, "`"));
    }
    proof {
        assert(entry_list(found@)[0] == found@[0]@);
        assert(entry_list(found@).len() == n);
    }
    let of_many = if n > 1 {
        Some(n)
    } else {
        None
    };
    Ok(make_anchor(AnchorKind::TraceId, text::owned(hex), &found[0], of_many))
}

/// Resolve a tagged anchor to a *stored* record.
///
/// One that cannot be resolved is an error, not a degraded document: the record's
/// message is the headline, and a headline that cannot identify the incident is
/// none.
pub fn resolve_case_anchor(pipeline: &LogPipeline, bookmarks: &BookmarkStore, raw: Option<&Json>) -> (r:
    Result<Anchor, String>)
    requires
        pipeline.wf(),
        bookmarks.wf(),
    ensures
        anchor_result(r) == case_anchor(
            pipeline@,
            bookmarks@,
            match raw {
                Some(v) => Some(v@),
                None => None,
            },
        ),
{
    let raw = match raw {
        Some(v) => v,
        None => return Err(
            text::owned(
                "`anchor` is required: it is `{seq}`, `{bookmark}` or `{trace_id}`, tagged rather than one string the daemon guesses at",
            ),
        ),
    };
    let seq = match opt_u64(raw, "seq") {
        Ok(n) => n,
        Err(e) => return Err(e),
    };
    let bookmark = match opt_str(raw, "bookmark") {
        Ok(s) => s,
        Err(e) => return Err(e),
    };
    let trace = match opt_str(raw, "trace_id") {
        Ok(s) => s,
        Err(e) => return Err(e),
    };
    let mut given: u64 = 0;
    if seq.is_some() {
        given += 1;
    }
    if bookmark.is_some() {
        given += 1;
    }
    if trace.is_some() {
        given += 1;
    }
    if given != 1 {
        return Err(refuse_ambiguous(given));
    }
    if let Some(n) = seq {
        return anchor_at_seq(pipeline, n);
    }
    if let Some(name) = bookmark {
        return anchor_at_bookmark(pipeline, bookmarks, name);
    }
    match trace {
        Some(hex) => anchor_at_trace(pipeline, hex),
        None => Err(refuse_ambiguous(0)),
    }
}

/// Where the record of a seq stands, the first if there are several.
pub open spec fn place_of(entries: Seq<LogEntryView>, seq: u64) -> int
    decreases entries.len(),
{
    if entries.len() == 0 || entries[0].seq == seq {
        0
    } else {
        1 + place_of(entries.skip(1), seq)
    }
}

/// The record of a seq and its neighbours: the document shows these, and the
/// rest of the window is kept beside it.
pub open spec fn neighbours(entries: Seq<LogEntryView>, seq: u64) -> Seq<LogEntryView> {
    let at = place_of(entries, seq);
    if at >= entries.len() {
        seq![]
    } else {
        entries.subrange(
            if at < NEIGHBOUR_WINDOW {
                0
            } else {
                at - NEIGHBOUR_WINDOW
            },
            if at + NEIGHBOUR_WINDOW + 1 > entries.len() {
                entries.len() as int
            } else {
                at + NEIGHBOUR_WINDOW + 1
            },
        )
    }
}

/// The anchor and its neighbours, out of the full window.
pub fn neighbourhood(logs: &Vec<LogEntry>, anchor_seq: u64) -> (r: Vec<LogEntry>)
    requires
        all_wf(logs@),
    ensures
        all_wf(r@),
        entry_list(r@) == neighbours(entry_list(logs@), anchor_seq),
{
    let ghost all = entry_list(logs@);
    let mut at: usize = 0;
    proof {
        assert(all.skip(0) =~= all);
    }
    while at < logs.len()
        invariant
            all == entry_list(logs@),
            at <= logs@.len(),
            place_of(all, anchor_seq) == at + place_of(all.skip(at as int), anchor_seq),
        ensures
            at <= logs@.len(),
            place_of(all, anchor_seq) == at,
        decreases logs@.len() - at,
    {
        proof {
            assert(all.skip(at as int)[0] == logs@[at as int]@);
            assert(all.skip(at as int).skip(1) =~= all.skip(at + 1));
        }
        if logs[at].seq == anchor_seq {
            break;
        }
        at += 1;
    }
    if at == logs.len() {
        let none: Vec<LogEntry> = Vec::new();
        proof {
            assert(entry_list(none@) =~= seq![]);
        }
        return none;
    }
    let from: usize = if at < NEIGHBOUR_WINDOW {
        0
    } else {
        at - NEIGHBOUR_WINDOW
    };
    let to: usize = if logs.len() - at <= NEIGHBOUR_WINDOW {
        logs.len()
    } else {
        at + NEIGHBOUR_WINDOW + 1
    };
    clone_range(logs, from, to)
}

/// The window that a case captures, and what can be vouched for over it.
#[derive(Debug)]
pub struct CaseWindow {
    pub logs: Vec<LogEntry>,
    pub from: u64,
    pub to: u64,
    pub verdict: EvidenceVerdict,
    pub narrowed_by: Vec<NarrowedSpan>,
    pub evicted_before_window: Option<u64>,
    pub spans_evicted_before_window: Option<u64>,
    pub neighbours: Vec<LogEntry>,
}

/// The refusal where the anchor is gone.
pub open spec fn anchor_gone(seq: u64) -> Seq<char> {
    "the anchor entry at seq "@ + decimal_text(seq as nat)
        + " was evicted while the capture was being taken"@
}

/// Capture the records around an anchor. `oldest_span` is where the buffer of
/// spans begins: the spans of the same range belong to the case, and they are
/// evicted on their own.
///
/// The sides of the window count stored records, not seqs: spans are numbered
/// along with the records, so a range of seqs holds an unpredictable number of
/// these. Nothing inside the window is cut, so its verdict is never one of a read
/// that was capped. What the sides limit is its width.
pub fn capture_window(
    pipeline: &LogPipeline,
    anchor_seq: u64,
    before: usize,
    after: usize,
    oldest_span: Option<u64>,
) -> (r: Result<CaseWindow, String>)
    requires
        pipeline.wf(),
    ensures
        ({
            let found = pipeline@.store.context(anchor_seq, before as nat, after as nat);
            match r {
                Ok(w) => {
                    let coverage = pipeline@.epochs.coverage(found.first().seq, found.last().seq);
                    &&& found.len() > 0
                    &&& all_wf(w.logs@)
                    &&& entry_list(w.logs@) == found
                    &&& w.from == found.first().seq
                    &&& w.to == found.last().seq
                    &&& w.evicted_before_window == evicted(w.from, pipeline@.oldest())
                    &&& w.spans_evicted_before_window == evicted(w.from, oldest_span)
                    &&& w.verdict == verdict_of(
                        Some(coverage),
                        w.evicted_before_window is Some,
                        false,
                    )
                    &&& span_views(w.narrowed_by@) == coverage.narrowed
                    &&& all_wf(w.neighbours@)
                    &&& entry_list(w.neighbours@) == neighbours(found, anchor_seq)
                },
                Err(e) => found.len() == 0 && e@ == anchor_gone(anchor_seq),
            }
        }),
{
    let logs = pipeline.context_by_seq(anchor_seq, before, after);
    let n: usize = logs.len();
    proof {
        assert(entry_list(logs@).len() == n);
    }
    if n == 0 {
        return Err(
            text::join3(
                "the anchor entry at seq ",
                &text::decimal(anchor_seq),
                " was evicted while the capture was being taken",
            ),
        );
    }
    let from: u64 = logs[0].seq;
    let to: u64 = logs[n - 1].seq;
    proof {
        assert(entry_list(logs@).first() == logs@[0]@);
        assert(entry_list(logs@).last() == logs@[n - 1]@);
    }
    let coverage = pipeline.epochs().coverage(from, to);
    let evicted_before_window = evicted_below(from, pipeline.oldest_log_seq());
    let verdict = evidence_verdict(Some(&coverage), evicted_before_window.is_some(), false);
    let neighbours = neighbourhood(&logs, anchor_seq);
    Ok(
        CaseWindow {
            logs,
            from,
            to,
            verdict,
            narrowed_by: coverage.narrowed,
            evicted_before_window,
            spans_evicted_before_window: evicted_below(from, oldest_span),
            neighbours,
        },
    )
}

proof fn lemma_first_exists(s: StoreView, seq: u64, n: int)
    requires
        0 <= n < s.entries.len(),
        s.entries[n].seq == seq,
    ensures
        exists|i: int| s.is_first_at(seq, i),
    decreases n,
{
    if exists|k: int| 0 <= k < n && (#[trigger] s.entries[k]).seq == seq {
        let k = choose|k: int| 0 <= k < n && (#[trigger] s.entries[k]).seq == seq;
        lemma_first_exists(s, seq, k);
    } else {
        assert(s.is_first_at(seq, n));
    }
}

proof fn lemma_trace_records_are_stored(entries: Seq<LogEntryView>, id: u128, i: int)
    requires
        0 <= i < of_trace(entries, id).len(),
    ensures
        exists|k: int| 0 <= k < entries.len() && #[trigger] entries[k] == of_trace(entries, id)[i],
    decreases entries.len(),
{
    let rest = entries.drop_last();
    if i < of_trace(rest, id).len() {
        lemma_trace_records_are_stored(rest, id, i);
        let k = choose|k: int| 0 <= k < rest.len() && #[trigger] rest[k] == of_trace(rest, id)[i];
        assert(entries[k] == of_trace(entries, id)[i]);
    } else {
        assert(entries[entries.len() - 1] == of_trace(entries, id)[i]);
    }
}

/// An anchor that resolves is a stored record, and every window around it holds
/// it: a capture never lacks the record that it is about.
pub proof fn anchors_are_captured(
    p: PipelineView,
    seqs: Map<Seq<char>, u64>,
    raw: Option<JsonView>,
    before: nat,
    after: nat,
)
    requires
        case_anchor(p, seqs, raw) is Ok,
    ensures
        ({
            let seq = case_anchor(p, seqs, raw)->Ok_0.seq;
            let found = p.store.context(seq, before, after);
            exists|i: int| 0 <= i < found.len() && (#[trigger] found[i]).seq == seq
        }),
{
    let a = case_anchor(p, seqs, raw)->Ok_0;
    let s = p.store;
    let n = if a.kind == AnchorKind::Number {
        let v = raw->0;
        let asked = u64_param(v, "seq"@)->Ok_0->0;
        let found = s.context(asked, 0, 0);
        assert(s.has_seq(asked));
        let m = choose|i: int| 0 <= i < s.entries.len() && (#[trigger] s.entries[i]).seq == asked;
        lemma_first_exists(s, asked, m);
        let i = choose|i: int| s.is_first_at(asked, i);
        assert(found[0] == s.entries[i]);
        i
    } else if a.kind == AnchorKind::Bookmark {
        let name = str_param(raw->0, "bookmark"@)->Ok_0->0;
        let mark = anchor_mark(seqs, name)->0;
        choose|i: int| is_first_after(s.entries, mark, i)
    } else {
        let hex = str_param(raw->0, "trace_id"@)->Ok_0->0;
        let id = hex_up_to(hex, u128::MAX as nat)->0 as u128;
        lemma_trace_records_are_stored(s.entries, id, 0);
        choose|k: int|
            0 <= k < s.entries.len() && #[trigger] s.entries[k] == of_trace(s.entries, id)[0]
    };
    assert(s.entries[n].seq == a.seq);
    assert(s.has_seq(a.seq));
    lemma_first_exists(s, a.seq, n);
    let i = choose|i: int| s.is_first_at(a.seq, i);
    let from = if i >= before {
        i - before
    } else {
        0
    };
    let found = s.context(a.seq, before, after);
    assert(found[i - from] == s.entries[i]);
}

/// A case as it is captured.
#[derive(Debug)]
pub struct CaseCapture {
    pub anchor: Anchor,
    pub window: CaseWindow,
    /// The window is narrower than what was asked for.
    pub clamped: bool,
}

/// Capture a case: resolve its anchor and take the window around it. The facts
/// that come with the call have been recorded before, so that they are in this
/// document rather than in the next.
pub fn capture_case(
    pipeline: &LogPipeline,
    bookmarks: &BookmarkStore,
    request: &CaseRequest,
    anchor: Option<&Json>,
    oldest_span: Option<u64>,
) -> (r: Result<CaseCapture, String>)
    requires
        pipeline.wf(),
        bookmarks.wf(),
    ensures
        ({
            let resolved = case_anchor(
                pipeline@,
                bookmarks@,
                match anchor {
                    Some(v) => Some(v@),
                    None => None,
                },
            );
            match r {
                Ok(c) => {
                    let found = pipeline@.store.context(
                        c.anchor.seq,
                        request@.before.value as nat,
                        request@.after.value as nat,
                    );
                    &&& resolved == Ok::<AnchorView, Seq<char>>(c.anchor@)
                    &&& c.clamped == request@.clamped()
                    &&& found.len() > 0
                    &&& entry_list(c.window.logs@) == found
                    &&& all_wf(c.window.logs@)
                    &&& c.window.from == found.first().seq
                    &&& c.window.to == found.last().seq
                    &&& c.window.evicted_before_window == evicted(
                        c.window.from,
                        pipeline@.oldest(),
                    )
                    &&& c.window.spans_evicted_before_window == evicted(c.window.from, oldest_span)
                    &&& c.window.verdict == verdict_of(
                        Some(pipeline@.epochs.coverage(c.window.from, c.window.to)),
                        c.window.evicted_before_window is Some,
                        false,
                    )
                    &&& span_views(c.window.narrowed_by@) == pipeline@.epochs.coverage(
                        c.window.from,
                        c.window.to,
                    ).narrowed
                    &&& entry_list(c.window.neighbours@) == neighbours(found, c.anchor.seq)
                    &&& all_wf(c.window.neighbours@)
                },
                Err(e) => resolved == Err::<AnchorView, Seq<char>>(e@),
            }
        }),
{
    let ghost raw = match anchor {
        Some(v) => Some(v@),
        None => None,
    };
    let anchor = match resolve_case_anchor(pipeline, bookmarks, anchor) {
        Ok(a) => a,
        Err(e) => return Err(e),
    };
    proof {
        anchors_are_captured(
            pipeline@,
            bookmarks@,
            raw,
            request@.before.value as nat,
            request@.after.value as nat,
        );
    }
    let window = match capture_window(
        pipeline,
        anchor.seq,
        request.before.value,
        request.after.value,
        oldest_span,
    ) {
        Ok(w) => w,
        Err(e) => return Err(e),
    };
    let clamped = request.before.clamped || request.after.clamped;
    Ok(CaseCapture { anchor, window, clamped })
}

/// What a capture is to say of itself beside what its document says.
#[derive(Debug, PartialEq, Eq)]
pub enum CaseNote {
    /// The window is narrower than what was asked for.
    Truncated(String),
    /// The facts that came with the capture could not be made durable. The
    /// capture itself stands.
    Write(String),
}

/// What a [`CaseNote`] says.
#[verifier::ext_equal]
pub enum CaseNoteView {
    Truncated(Seq<char>),
    Write(Seq<char>),
}

impl View for CaseNote {
    type V = CaseNoteView;

    open spec fn view(&self) -> CaseNoteView {
        match self {
            CaseNote::Truncated(s) => CaseNoteView::Truncated(s@),
            CaseNote::Write(s) => CaseNoteView::Write(s@),
        }
    }
}

/// The views of a list of notes.
pub open spec fn note_views(notes: Seq<CaseNote>) -> Seq<CaseNoteView> {
    Seq::new(notes.len(), |i: int| notes[i]@)
}

/// The notes of a capture.
pub open spec fn case_notes(clamped: bool, persist_error: Option<Seq<char>>) -> Seq<CaseNoteView> {
    let cut = if clamped {
        seq![
            CaseNoteView::Truncated(
                "before/after were clamped to "@ + decimal_text(MAX_CASE_WINDOW as nat)
                    + "; the window is narrower than requested"@,
            ),
        ]
    } else {
        seq![]
    };
    match persist_error {
        Some(e) => cut.push(
            CaseNoteView::Write("the domain registry could not be persisted: "@ + e),
        ),
        None => cut,
    }
}

/// The notes of a capture.
pub fn notes_of_case(clamped: bool, persist_error: &Option<String>) -> (r: Vec<CaseNote>)
    ensures
        note_views(r@) == case_notes(clamped, text::optional_text(*persist_error)),
{
    let mut notes: Vec<CaseNote> = Vec::new();
    if clamped {
        notes.push(
            CaseNote::Truncated(
                text::join3(
                    "before/after were clamped to ",
                    &text::decimal(MAX_CASE_WINDOW as u64),
                    "; the window is narrower than requested",
                ),
            ),
        );
    }
    if let Some(e) = persist_error {
        notes.push(
            CaseNote::Write(text::join2("the domain registry could not be persisted: ", e)),
        );
    }
    proof {
        assert(note_views(notes@) =~= case_notes(clamped, text::optional_text(*persist_error)));
    }
    notes
}

/// Whether the `a`th of some lines is shown before the `b`th: by name, and in
/// the order in which they came where the names are the same.
pub open spec fn shown_before(names: Seq<Seq<char>>, a: int, b: int) -> bool {
    precedes(names[a], names[b]) || (names[a] == names[b] && a < b)
}

/// The order in which a case shows its collectors: by name. The lines themselves
/// stay where they are, and `r` says which comes when.
pub fn case_collector_lines(names: &Vec<String>) -> (r: Vec<usize>)
    ensures
        r@.len() == names@.len(),
        forall|i: int| 0 <= i < r@.len() ==> (#[trigger] r@[i]) < names@.len(),
        forall|k: usize| k < names@.len() ==> #[trigger] r@.contains(k),
        forall|i: int, j: int|
            0 <= i < j < r@.len() ==> shown_before(
                text::text_views(names@),
                #[trigger] r@[i] as int,
                #[trigger] r@[j] as int,
            ),
{
    let ghost texts = text::text_views(names@);
    let mut order: Vec<usize> = Vec::new();
    let mut n: usize = 0;
    while n < names.len()
        invariant
            texts == text::text_views(names@),
            n <= names@.len(),
            order@.len() == n,
            forall|i: int| 0 <= i < n ==> (#[trigger] order@[i]) < n,
            forall|k: usize| k < n ==> #[trigger] order@.contains(k),
            forall|i: int, j: int|
                0 <= i < j < n ==> shown_before(
                    texts,
                    #[trigger] order@[i] as int,
                    #[trigger] order@[j] as int,
                ),
        decreases names@.len() - n,
    {
        let mut at: usize = n;
        while at > 0 && text_before(&names[n], &names[order[at - 1]])
            invariant
                texts == text::text_views(names@),
                at <= n < names@.len(),
                order@.len() == n,
                forall|i: int| 0 <= i < n ==> (#[trigger] order@[i]) < n,
                forall|i: int|
                    at <= i < n ==> shown_before(texts, n as int, #[trigger] order@[i] as int),
            decreases at,
        {
            at -= 1;
        }
        let ghost before = order@;
        proof {
            if at > 0 {
                lemma_precedes_total(texts[n as int], texts[before[at - 1] as int]);
            }
            assert forall|i: int| 0 <= i < at implies shown_before(
                texts,
                #[trigger] before[i] as int,
                n as int,
            ) by {
                let last = before[at - 1] as int;
                assert(shown_before(texts, last, n as int));
                if i < at - 1 {
                    assert(shown_before(texts, before[i] as int, before[at - 1] as int));
                    lemma_shown_transitive(texts, before[i] as int, last, n as int);
                }
            }
        }
        order.insert(at, n);
        proof {
            assert forall|k: usize| k < n + 1 implies #[trigger] order@.contains(k) by {
                if k == n {
                    assert(order@[at as int] == k);
                } else {
                    assert(before.contains(k));
                    let i = choose|i: int| 0 <= i < before.len() && before[i] == k;
                    if i < at {
                        assert(order@[i] == k);
                    } else {
                        assert(order@[i + 1] == k);
                    }
                }
            }
            assert forall|i: int, j: int| 0 <= i < j < n + 1 implies shown_before(
                texts,
                #[trigger] order@[i] as int,
                #[trigger] order@[j] as int,
            ) by {
                let x = if i < at {
                    i
                } else {
                    i - 1
                };
                let y = if j < at {
                    j
                } else {
                    j - 1
                };
                if i != at {
                    assert(order@[i] == before[x]);
                }
                if j != at {
                    assert(order@[j] == before[y]);
                }
            }
            assert forall|i: int| 0 <= i < n + 1 implies (#[trigger] order@[i]) < n + 1 by {
                if i < at {
                    assert(order@[i] == before[i]);
                } else if i > at {
                    assert(order@[i] == before[i - 1]);
                }
            }
        }
        n += 1;
    }
    order
}

proof fn lemma_shown_transitive(names: Seq<Seq<char>>, a: int, b: int, c: int)
    requires
        shown_before(names, a, b),
        shown_before(names, b, c),
    ensures
        shown_before(names, a, c),
{
    if precedes(names[a], names[b]) && precedes(names[b], names[c]) {
        lemma_precedes_transitive(names[a], names[b], names[c]);
    }
}

/// Whether an anchor tells the `i`th of some records: its own seq, time and message.
pub open spec fn tells_record(a: AnchorView, entries: Seq<LogEntryView>, i: int) -> bool {
    &&& 0 <= i < entries.len()
    &&& a.seq == entries[i].seq
    &&& a.at == entries[i].timestamp
    &&& a.message == entries[i].message
}

/// A seq anchors the record of that seq.
pub proof fn seqs_anchor_their_record(p: PipelineView, seq: u64)
    ensures
        seq_anchor(p, seq) matches Ok(a) ==> {
            &&& a.kind == AnchorKind::Number
            &&& a.seq == seq
            &&& a.label == decimal_text(seq as nat)
            &&& a.of_many is None
            &&& exists|i: int| #[trigger] tells_record(a, p.store.entries, i)
        },
        (exists|i: int| 0 <= i < p.store.entries.len() && (#[trigger] p.store.entries[i]).seq == seq)
            <==> seq_anchor(p, seq) is Ok,
{
    let s = p.store;
    if s.has_seq(seq) {
        let m = choose|i: int| 0 <= i < s.entries.len() && (#[trigger] s.entries[i]).seq == seq;
        lemma_first_exists(s, seq, m);
        let i = choose|i: int| s.is_first_at(seq, i);
        contexts_surround_their_record(s, seq, i, 0, 0);
        let a = seq_anchor(p, seq)->Ok_0;
        assert(tells_record(a, s.entries, i));
    }
}

/// A bookmark anchors the first stored record behind it.
pub proof fn bookmarks_anchor_what_follows(
    p: PipelineView,
    seqs: Map<Seq<char>, u64>,
    name: Seq<char>,
    mark: u64,
)
    requires
        anchor_mark(seqs, name) == Some(mark),
    ensures
        bookmark_anchor(p, seqs, name) matches Ok(a) ==> {
            &&& a.kind == AnchorKind::Bookmark
            &&& a.label == name
            &&& a.of_many is None
            &&& exists|i: int|
                {
                    &&& #[trigger] tells_record(a, p.store.entries, i)
                    &&& p.store.entries[i].seq > mark
                    &&& forall|k: int| 0 <= k < i ==> (#[trigger] p.store.entries[k]).seq <= mark
                }
        },
        (exists|i: int| 0 <= i < p.store.entries.len() && (#[trigger] p.store.entries[i]).seq > mark)
            <==> bookmark_anchor(p, seqs, name) is Ok,
{
    let entries = p.store.entries;
    if exists|i: int| 0 <= i < entries.len() && (#[trigger] entries[i]).seq > mark {
        let i = choose|i: int| 0 <= i < entries.len() && (#[trigger] entries[i]).seq > mark;
        lemma_some_follows(entries, mark, i);
    }
    if bookmark_anchor(p, seqs, name) is Ok {
        let i = choose|i: int| is_first_after(entries, mark, i);
        let a = bookmark_anchor(p, seqs, name)->Ok_0;
        assert(tells_record(a, entries, i));
    }
}

/// A trace anchors the first stored record that carries its id, and tells how many carry
/// it, where there are several.
pub proof fn traces_anchor_their_first_record(p: PipelineView, hex: Seq<char>, id: u128)
    requires
        hex_of(hex) == Some(id as nat),
    ensures
        trace_anchor(p, hex) matches Ok(a) ==> {
            &&& a.kind == AnchorKind::TraceId
            &&& a.label == hex
            &&& exists|i: int|
                {
                    &&& #[trigger] tells_record(a, p.store.entries, i)
                    &&& p.store.entries[i].trace_id == Some(id)
                    &&& forall|k: int|
                        0 <= k < i ==> (#[trigger] p.store.entries[k]).trace_id != Some(id)
                }
            &&& match a.of_many {
                Some(n) => n > 1 && n == of_trace(p.store.entries, id).len(),
                None => of_trace(p.store.entries, id).len() == 1,
            }
        },
        (exists|i: int|
            0 <= i < p.store.entries.len() && (#[trigger] p.store.entries[i]).trace_id == Some(id))
            <==> trace_anchor(p, hex) is Ok,
{
    let entries = p.store.entries;
    if exists|i: int| 0 <= i < entries.len() && (#[trigger] entries[i]).trace_id == Some(id) {
        let i = choose|i: int| 0 <= i < entries.len() && (#[trigger] entries[i]).trace_id == Some(id);
        traces_gather_their_records(entries, seq![], entries[i], id);
    }
    if trace_anchor(p, hex) is Ok {
        let i = lemma_first_of_trace(entries, id);
        let a = trace_anchor(p, hex)->Ok_0;
        assert(tells_record(a, entries, i));
    }
}

/// An anchor is named in exactly one way, and resolves as that names it.
pub proof fn anchors_are_named_in_one_way(
    p: PipelineView,
    seqs: Map<Seq<char>, u64>,
    v: JsonView,
)
    ensures
        case_anchor(p, seqs, None) is Err,
        case_anchor(p, seqs, Some(v)) is Ok ==> {
            ||| given(v, "seq"@) is Some && given(v, "bookmark"@) is None && given(v, "trace_id"@) is None
            ||| given(v, "seq"@) is None && given(v, "bookmark"@) is Some && given(v, "trace_id"@) is None
            ||| given(v, "seq"@) is None && given(v, "bookmark"@) is None && given(v, "trace_id"@) is Some
        },
        given(v, "bookmark"@) is None && given(v, "trace_id"@) is None ==> (v.u64_at(
            "seq"@,
        ) matches Some(seq) ==> case_anchor(p, seqs, Some(v)) == seq_anchor(p, seq)),
        given(v, "seq"@) is None && given(v, "trace_id"@) is None ==> (v.text_at(
            "bookmark"@,
        ) matches Some(name) ==> case_anchor(p, seqs, Some(v)) == bookmark_anchor(p, seqs, name)),
        given(v, "seq"@) is None && given(v, "bookmark"@) is None ==> (v.text_at(
            "trace_id"@,
        ) matches Some(hex) ==> case_anchor(p, seqs, Some(v)) == trace_anchor(p, hex)),
{
}

proof fn lemma_first_of_trace(entries: Seq<LogEntryView>, id: u128) -> (i: int)
    requires
        of_trace(entries, id).len() > 0,
    ensures
        0 <= i < entries.len(),
        entries[i] == of_trace(entries, id)[0],
        entries[i].trace_id == Some(id),
        forall|k: int| 0 <= k < i ==> (#[trigger] entries[k]).trace_id != Some(id),
    decreases entries.len(),
{
    let front = entries.drop_last();
    if of_trace(front, id).len() > 0 {
        let i = lemma_first_of_trace(front, id);
        assert forall|k: int| 0 <= k < i implies (#[trigger] entries[k]).trace_id != Some(id) by {
            assert(front[k] == entries[k]);
        }
        i
    } else {
        let n = entries.len() - 1;
        assert forall|k: int| 0 <= k < n implies (#[trigger] entries[k]).trace_id != Some(id) by {
            assert(front[k] == entries[k]);
            if entries[k].trace_id == Some(id) {
                traces_gather_their_records(front, seq![], front[k], id);
            }
        }
        n
    }
}

proof fn lemma_some_follows(entries: Seq<LogEntryView>, mark: u64, i: int)
    requires
        0 <= i < entries.len(),
        entries[i].seq > mark,
    ensures
        exists|k: int| is_first_after(entries, mark, k),
    decreases i,
{
    if exists|k: int| 0 <= k < i && (#[trigger] entries[k]).seq > mark {
        let k = choose|k: int| 0 <= k < i && (#[trigger] entries[k]).seq > mark;
        lemma_some_follows(entries, mark, k);
    } else {
        assert(is_first_after(entries, mark, i));
    }
}

/// A bookmark that an anchor names in full is taken before one that a session calls so.
pub proof fn full_names_are_taken_first(seqs: Map<Seq<char>, u64>, name: Seq<char>)
    ensures
        name.contains('/') && seqs.contains_key(name) ==> anchor_mark(seqs, name) == Some(
            seqs[name],
        ),
        !name.contains('/') && !seqs.contains_key(""@ + seq!['/'] + name) ==> anchor_mark(seqs, name)
            == seq_called(seqs, name),
{
}

/// A side of a window holds as many records as were asked for, 350 where nothing was
/// said, and never more than 5000; that it was cut to that is told.
pub proof fn windows_are_capped_and_say_so(params: JsonView, key: Seq<char>)
    requires
        window_asked(params, key) is Ok,
    ensures
        ({
            let w = window_asked(params, key)->Ok_0;
            &&& w.value <= 5_000
            &&& given(params, key) is None ==> w.value == 350 && !w.clamped
            &&& params.u64_at(key) matches Some(n) ==> (n <= 5_000 ==> w.value == n && !w.clamped)
            &&& w.clamped ==> w.value == 5_000
            &&& params.u64_at(key) matches Some(n) ==> (5_000 < n <= usize::MAX ==> w.clamped)
        }),
{
}

/// A case is asked for with a reason that says something and a directory from the root;
/// the sides of its window are read from `before` and `after`, each as its own.
pub proof fn case_requests_are_read_as_given(params: JsonView)
    requires
        case_request(params) is Ok,
    ensures
        ({
            let q = case_request(params)->Ok_0;
            &&& params.text_at("reason"@) matches Some(reason)
            &&& q.reason == trimmed(reason)
            &&& q.reason.len() > 0
            &&& params.text_at("dir"@) == Some(q.dir)
            &&& q.dir.len() > 0 && q.dir[0] == '/'
            &&& window_asked(params, "before"@) == Ok::<WindowCount, Seq<char>>(q.before)
            &&& window_asked(params, "after"@) == Ok::<WindowCount, Seq<char>>(q.after)
        }),
{
}

/// The neighbours of a record in a window are the record and up to ten on either side,
/// fewer only where the window ends.
pub proof fn neighbours_surround_the_anchor(entries: Seq<LogEntryView>, seq: u64, i: int)
    requires
        0 <= i < entries.len(),
        entries[i].seq == seq,
        forall|k: int| 0 <= k < i ==> (#[trigger] entries[k]).seq != seq,
    ensures
        ({
            let shown = neighbours(entries, seq);
            let ahead = if i < 10 {
                i
            } else {
                10
            };
            let behind = if entries.len() - i - 1 < 10 {
                entries.len() - i - 1
            } else {
                10
            };
            &&& shown.len() == ahead + 1 + behind
            &&& shown[ahead] == entries[i]
            &&& forall|k: int| 0 <= k < shown.len() ==> #[trigger] shown[k] == entries[i - ahead + k]
        }),
{
    lemma_place_of(entries, seq, i);
}

proof fn lemma_place_of(entries: Seq<LogEntryView>, seq: u64, i: int)
    requires
        0 <= i < entries.len(),
        entries[i].seq == seq,
        forall|k: int| 0 <= k < i ==> (#[trigger] entries[k]).seq != seq,
    ensures
        place_of(entries, seq) == i,
    decreases entries.len(),
{
    if i > 0 {
        let rest = entries.skip(1);
        assert(entries[0].seq != seq);
        assert forall|k: int| 0 <= k < i - 1 implies (#[trigger] rest[k]).seq != seq by {
            assert(rest[k] == entries[k + 1]);
        }
        lemma_place_of(rest, seq, i - 1);
    }
}

/// A capture says that its window was cut exactly where it was, and that its facts could
/// not be written exactly where they could not.
pub proof fn captures_say_what_went_wrong(clamped: bool, persist_error: Option<Seq<char>>)
    ensures
        case_notes(clamped, persist_error).len() == (if clamped {
            1nat
        } else {
            0
        }) + (if persist_error is Some {
            1nat
        } else {
            0
        }),
        clamped ==> case_notes(clamped, persist_error)[0] is Truncated,
        persist_error matches Some(e) ==> case_notes(clamped, persist_error).last()
            == CaseNoteView::Write("the domain registry could not be persisted: "@ + e),
{
}

/// A window says that it was narrowed where either of its sides was.
pub proof fn narrowed_windows_say_so(r: CaseRequestView)
    ensures
        r.before.clamped ==> r.clamped(),
        r.after.clamped ==> r.clamped(),
        r.clamped() ==> r.before.clamped || r.after.clamped,
{
}

/// Each kind of anchor is tagged with the parameter that names it.
pub proof fn anchors_are_tagged_by_kind()
    ensures
        AnchorKind::Number.tag() == "seq"@,
        AnchorKind::Bookmark.tag() == "bookmark"@,
        AnchorKind::TraceId.tag() == "trace_id"@,
{
}

} // verus!
