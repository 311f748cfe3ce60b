//! Processing one log record against the sessions of its domain.
//!
//! What the sessions say of a record (who is inside a post-trigger window,
//! which triggers match, what the filters decide) comes in as plain values; what
//! follows from it for the store, the pre-buffer and the epochs is decided here.
use crate::engine::epoch::FilterPolicy;
use crate::engine::pipeline::{LogPipeline, PipelineEvent, PipelineView};
use crate::engine::pre_buffer::last_of;
use crate::gelf::message::{LogEntry, LogEntryView, LogSource};
use crate::store::memory::{
    all_wf, appending_accounts_for_evictions, appending_keeps_the_latest,
    contexts_surround_their_record, entry_list, of_trace, traces_gather_their_records, StoreView,
};
use crate::text;
use crate::text::{clone_texts, optional_text, text_views};
use vstd::prelude::*;

verus! {

broadcast use vstd::string::group_string_axioms;

/// A trigger that a record matched.
#[derive(Debug, PartialEq, Eq)]
pub struct TriggerMatch {
    pub id: u32,
    pub description: Option<String>,
    pub filter_string: String,
    pub pre_window: u32,
    pub post_window: u32,
    pub notify_context: u32,
    pub oneshot: bool,
}

/// What one session bound to the domain says of a record. Sessions come in the
/// order of their pre-windows.
#[derive(Debug)]
pub struct SessionTurn {
    pub session_id: String,
    /// Whether the session is inside a post-trigger window; its triggers are
    /// then not evaluated.
    pub in_post_window: bool,
    pub matches: Vec<TriggerMatch>,
    /// The pre-windows of the triggers that are left in the domain once the oneshot
    /// triggers that fired, up to and with this turn, are gone.
    pub pre_windows_left: Vec<u32>,
}

/// A post-trigger window that a session is to be given.
#[derive(Debug, PartialEq, Eq)]
pub struct PostWindow {
    pub session_id: String,
    pub post_window: u32,
}

/// What a [`PostWindow`] says.
#[verifier::ext_equal]
pub struct PostWindowView {
    pub session_id: Seq<char>,
    pub post_window: u32,
}

impl View for PostWindow {
    type V = PostWindowView;

    open spec fn view(&self) -> PostWindowView {
        PostWindowView { session_id: self.session_id@, post_window: self.post_window }
    }
}

/// A trigger of a session that was to fire once, and has.
#[derive(Debug, PartialEq, Eq)]
pub struct FiredOneshot {
    pub session_id: String,
    pub trigger_id: u32,
}

/// What a [`FiredOneshot`] says.
#[verifier::ext_equal]
pub struct FiredOneshotView {
    pub session_id: Seq<char>,
    pub trigger_id: u32,
}

impl View for FiredOneshot {
    type V = FiredOneshotView;

    open spec fn view(&self) -> FiredOneshotView {
        FiredOneshotView { session_id: self.session_id@, trigger_id: self.trigger_id }
    }
}

/// The views of a list of windows.
pub open spec fn window_views(windows: Seq<PostWindow>) -> Seq<PostWindowView> {
    windows.map_values(|w: PostWindow| w@)
}

/// The views of a list of triggers.
pub open spec fn oneshot_views(fired: Seq<FiredOneshot>) -> Seq<FiredOneshotView> {
    fired.map_values(|f: FiredOneshot| f@)
}

/// What the filters of the domain's sessions decide of a record, and under
/// which policy.
#[derive(Debug)]
pub struct FilterDecision {
    pub should_store: bool,
    pub matched: Vec<String>,
    pub policy: FilterPolicy,
}

/// The widest of a list of windows, 0 where there is none.
pub open spec fn widest(windows: Seq<u32>) -> u32
    decreases windows.len(),
{
    if windows.len() == 0 {
        0
    } else if windows.last() >= widest(windows.drop_last()) {
        windows.last()
    } else {
        widest(windows.drop_last())
    }
}

/// The pre-windows of matches.
pub open spec fn pre_windows(matches: Seq<TriggerMatch>) -> Seq<u32> {
    matches.map_values(|m: TriggerMatch| m.pre_window)
}

/// The post-windows of matches.
pub open spec fn post_windows(matches: Seq<TriggerMatch>) -> Seq<u32> {
    matches.map_values(|m: TriggerMatch| m.post_window)
}

/// The post-trigger window that a session is to be given for its matches: the
/// widest of them.
pub fn post_window_of(matches: &Vec<TriggerMatch>) -> (r: u32)
    ensures
        r == widest(post_windows(matches@)),
{
    let ghost all = post_windows(matches@);
    let mut r: u32 = 0;
    let mut i: usize = 0;
    while i < matches.len()
        invariant
            all == post_windows(matches@),
            i <= matches@.len(),
            r == widest(all.take(i as int)),
        decreases matches@.len() - i,
    {
        proof {
            assert(all.take(i + 1).drop_last() =~= all.take(i as int));
            assert(all.take(i + 1).last() == matches@[i as int].post_window);
        }
        if matches[i].post_window >= r {
            r = matches[i].post_window;
        }
        i += 1;
    }
    proof {
        assert(all.take(all.len() as int) =~= all);
    }
    r
}

/// Resize a domain's pre-buffer to the widest of the pre-windows of the sessions
/// that are bound to it. To be called after triggers were added, edited or
/// removed, and after a session was bound.
pub fn sync_pre_buffer_size_for_domain(pipeline: &mut LogPipeline, windows: &Vec<u32>)
    requires
        old(pipeline).wf(),
    ensures
        final(pipeline).wf(),
        final(pipeline)@ == (PipelineView {
            pre_buffer: old(pipeline)@.pre_buffer.resized(widest(windows@) as nat),
            ..old(pipeline)@
        }),
{
    let mut r: u32 = 0;
    let mut i: usize = 0;
    while i < windows.len()
        invariant
            i <= windows@.len(),
            r == widest(windows@.take(i as int)),
        decreases windows@.len() - i,
    {
        proof {
            assert(windows@.take(i + 1).drop_last() =~= windows@.take(i as int));
        }
        if windows[i] >= r {
            r = windows[i];
        }
        i += 1;
    }
    proof {
        assert(windows@.take(windows@.len() as int) =~= windows@);
    }
    pipeline.resize_pre_buffer(r as usize);
}

/// The windows that the turns open: for each that fires, the widest of its matches.
pub open spec fn opened_windows(turns: Seq<SessionTurn>) -> Seq<PostWindowView>
    decreases turns.len(),
{
    if turns.len() == 0 {
        seq![]
    } else {
        let before = opened_windows(turns.drop_last());
        if fires(turns.last()) {
            before.push(
                PostWindowView {
                    session_id: turns.last().session_id@,
                    post_window: widest(post_windows(turns.last().matches@)),
                },
            )
        } else {
            before
        }
    }
}

/// The post-trigger windows that a record opens, in the order of the sessions.
pub fn post_windows_opened(turns: &Vec<SessionTurn>) -> (r: Vec<PostWindow>)
    ensures
        window_views(r@) == opened_windows(turns@),
{
    let mut r: Vec<PostWindow> = Vec::new();
    let mut i: usize = 0;
    proof {
        assert(window_views(r@) =~= seq![]);
        assert(turns@.take(0) =~= seq![]);
    }
    while i < turns.len()
        invariant
            i <= turns@.len(),
            window_views(r@) == opened_windows(turns@.take(i as int)),
        decreases turns@.len() - i,
    {
        let turn = &turns[i];
        proof {
            assert(turns@.take(i + 1).drop_last() =~= turns@.take(i as int));
            assert(turns@.take(i + 1).last() == *turn);
        }
        if !turn.in_post_window && turn.matches.len() > 0 {
            let ghost before = r@;
            let window = PostWindow {
                session_id: turn.session_id.clone(),
                post_window: post_window_of(&turn.matches),
            };
            let ghost wv = window@;
            r.push(window);
            proof {
                assert(window_views(r@) =~= window_views(before).push(wv));
            }
        }
        i += 1;
    }
    proof {
        assert(turns@.take(turns@.len() as int) =~= turns@);
    }
    r
}

/// The oneshot triggers among the first `n` matches of a turn.
pub open spec fn turn_oneshots(turn: SessionTurn, n: int) -> Seq<FiredOneshotView>
    decreases n,
{
    if n <= 0 {
        seq![]
    } else {
        let m = turn.matches@[n - 1];
        let before = turn_oneshots(turn, n - 1);
        if m.oneshot {
            before.push(FiredOneshotView { session_id: turn.session_id@, trigger_id: m.id })
        } else {
            before
        }
    }
}

/// The oneshot triggers that the turns fire.
pub open spec fn fired_oneshots(turns: Seq<SessionTurn>) -> Seq<FiredOneshotView>
    decreases turns.len(),
{
    if turns.len() == 0 {
        seq![]
    } else {
        let before = fired_oneshots(turns.drop_last());
        if fires(turns.last()) {
            before + turn_oneshots(turns.last(), turns.last().matches@.len() as int)
        } else {
            before
        }
    }
}

/// Whether a turn fires a oneshot trigger, which is then gone.
pub open spec fn spends_oneshot(turn: SessionTurn) -> bool {
    fires(turn) && exists|k: int|
        0 <= k < turn.matches@.len() && (#[trigger] turn.matches@[k]).oneshot
}

fn has_oneshot(matches: &Vec<TriggerMatch>) -> (r: bool)
    ensures
        r == (exists|k: int| 0 <= k < matches@.len() && (#[trigger] matches@[k]).oneshot),
{
    let mut i: usize = 0;
    while i < matches.len()
        invariant
            i <= matches@.len(),
            forall|k: int| 0 <= k < i ==> !(#[trigger] matches@[k]).oneshot,
        decreases matches@.len() - i,
    {
        if matches[i].oneshot {
            return true;
        }
        i += 1;
    }
    false
}

fn take_oneshots(out: &mut Vec<FiredOneshot>, turn: &SessionTurn)
    ensures
        oneshot_views(final(out)@) == oneshot_views(old(out)@) + turn_oneshots(
            *turn,
            turn.matches@.len() as int,
        ),
{
    let ghost start = oneshot_views(out@);
    let mut i: usize = 0;
    proof {
        assert(start + turn_oneshots(*turn, 0) =~= start);
    }
    while i < turn.matches.len()
        invariant
            i <= turn.matches@.len(),
            oneshot_views(out@) == start + turn_oneshots(*turn, i as int),
        decreases turn.matches@.len() - i,
    {
        if turn.matches[i].oneshot {
            let ghost before = out@;
            let fired = FiredOneshot {
                session_id: turn.session_id.clone(),
                trigger_id: turn.matches[i].id,
            };
            let ghost fv = fired@;
            out.push(fired);
            proof {
                assert(oneshot_views(out@) =~= oneshot_views(before).push(fv));
                assert(start + turn_oneshots(*turn, i as int).push(fv) =~= (start + turn_oneshots(
                    *turn,
                    i as int,
                )).push(fv));
            }
        }
        i += 1;
    }
}

/// The oneshot triggers that a record fires, in the order of the sessions and of
/// their matches. Each is to be removed.
pub fn oneshots_fired(turns: &Vec<SessionTurn>) -> (r: Vec<FiredOneshot>)
    ensures
        oneshot_views(r@) == fired_oneshots(turns@),
{
    let mut r: Vec<FiredOneshot> = Vec::new();
    let mut i: usize = 0;
    proof {
        assert(oneshot_views(r@) =~= seq![]);
        assert(turns@.take(0) =~= seq![]);
    }
    while i < turns.len()
        invariant
            i <= turns@.len(),
            oneshot_views(r@) == fired_oneshots(turns@.take(i as int)),
        decreases turns@.len() - i,
    {
        let turn = &turns[i];
        proof {
            assert(turns@.take(i + 1).drop_last() =~= turns@.take(i as int));
            assert(turns@.take(i + 1).last() == *turn);
        }
        if !turn.in_post_window && turn.matches.len() > 0 {
            take_oneshots(&mut r, turn);
        }
        i += 1;
    }
    proof {
        assert(turns@.take(turns@.len() as int) =~= turns@);
    }
    r
}

/// Whether the pre-buffer is sized anew for a record: where a oneshot trigger fires.
pub open spec fn is_resync_due(turns: Seq<SessionTurn>) -> bool {
    exists|i: int| 0 <= i < turns.len() && spends_oneshot(#[trigger] turns[i])
}

/// Whether the pre-buffer is to be sized anew for a record.
pub fn resync_due(turns: &Vec<SessionTurn>) -> (r: bool)
    ensures
        r == is_resync_due(turns@),
{
    let mut i: usize = 0;
    while i < turns.len()
        invariant
            i <= turns@.len(),
            forall|k: int| 0 <= k < i ==> !spends_oneshot(#[trigger] turns@[k]),
        decreases turns@.len() - i,
    {
        let turn = &turns[i];
        if !turn.in_post_window && turn.matches.len() > 0 && has_oneshot(&turn.matches) {
            proof {
                assert(spends_oneshot(turns@[i as int]));
            }
            return true;
        }
        i += 1;
    }
    false
}

fn pre_window_of(matches: &Vec<TriggerMatch>) -> (r: u32)
    ensures
        r == widest(pre_windows(matches@)),
{
    let ghost all = pre_windows(matches@);
    let mut r: u32 = 0;
    let mut i: usize = 0;
    while i < matches.len()
        invariant
            all == pre_windows(matches@),
            i <= matches@.len(),
            r == widest(all.take(i as int)),
        decreases matches@.len() - i,
    {
        proof {
            assert(all.take(i + 1).drop_last() =~= all.take(i as int));
            assert(all.take(i + 1).last() == matches@[i as int].pre_window);
        }
        if matches[i].pre_window >= r {
            r = matches[i].pre_window;
        }
        i += 1;
    }
    proof {
        assert(all.take(all.len() as int) =~= all);
    }
    r
}

/// A store after a record was stored for `source`, unless its seq is there.
pub open spec fn kept(store: StoreView, e: LogEntryView, source: LogSource) -> StoreView {
    if store.has_seq(e.seq) {
        store
    } else {
        store.appended(LogEntryView { source, ..e })
    }
}

/// A store after each record of a list was stored for `source`, unless its seq
/// was there.
pub open spec fn all_kept(
    store: StoreView,
    entries: Seq<LogEntryView>,
    source: LogSource,
) -> StoreView
    decreases entries.len(),
{
    if entries.len() == 0 {
        store
    } else {
        kept(all_kept(store, entries.drop_last(), source), entries.last(), source)
    }
}

/// A store after a trigger fired on a record: the record itself, then what the
/// pre-buffer holds of the widest pre-window, then what it holds of the record's
/// trace.
pub open spec fn after_trigger(
    store: StoreView,
    pre_buffer: Seq<LogEntryView>,
    e: LogEntryView,
    pre_window: nat,
) -> StoreView {
    let own = kept(store, e, LogSource::PreTrigger);
    let window = all_kept(own, last_of(pre_buffer, pre_window), LogSource::PreTrigger);
    match e.trace_id {
        Some(t) => all_kept(window, of_trace(pre_buffer, t), LogSource::PreTrigger),
        None => window,
    }
}

/// A turn that fires: outside a post-trigger window, with a match.
pub open spec fn fires(turn: SessionTurn) -> bool {
    !turn.in_post_window && turn.matches@.len() > 0
}

/// A pipeline after one session's turn.
pub open spec fn after_turn(p: PipelineView, e: LogEntryView, turn: SessionTurn) -> PipelineView {
    if fires(turn) {
        PipelineView {
            store: after_trigger(
                p.store,
                p.pre_buffer.entries,
                e,
                widest(pre_windows(turn.matches@)) as nat,
            ),
            pre_buffer: if spends_oneshot(turn) {
                p.pre_buffer.resized(widest(turn.pre_windows_left@) as nat)
            } else {
                p.pre_buffer
            },
            ..p
        }
    } else {
        p
    }
}

/// A pipeline after the sessions' turns.
pub open spec fn after_turns(p: PipelineView, e: LogEntryView, turns: Seq<SessionTurn>) -> PipelineView
    decreases turns.len(),
{
    if turns.len() == 0 {
        p
    } else {
        after_turn(after_turns(p, e, turns.drop_last()), e, turns.last())
    }
}

/// Whether a record falls into the aftermath of a trigger: of an earlier one, or
/// of one that it fired itself.
pub open spec fn in_aftermath(turns: Seq<SessionTurn>) -> bool {
    exists|i: int| 0 <= i < turns.len() && ((#[trigger] turns[i]).in_post_window || fires(turns[i]))
}

/// The record and the pipeline once it has a seq and stands in the pre-buffer.
pub open spec fn admitted(p: PipelineView, e: LogEntryView) -> (PipelineView, LogEntryView) {
    let seq = (p.seq + 1) as u64;
    let e = LogEntryView { seq, ..e };
    (PipelineView { seq, pre_buffer: p.pre_buffer.appended(e), ..p }, e)
}

/// The pipeline after the last step: a record that no trigger stored is stored
/// inside a post-trigger window, and otherwise where the filters want it.
pub open spec fn settled(
    p: PipelineView,
    e: LogEntryView,
    aftermath: bool,
    decision: FilterDecision,
) -> PipelineView {
    if p.store.has_seq(e.seq) {
        p
    } else if aftermath {
        PipelineView {
            store: p.store.appended(LogEntryView { source: LogSource::PostTrigger, ..e }),
            ..p
        }
    } else {
        PipelineView {
            store: if decision.should_store {
                p.store.appended(
                    LogEntryView {
                        source: LogSource::Filter,
                        matched_filters: text_views(decision.matched@),
                        ..e
                    },
                )
            } else {
                p.store
            },
            epochs: p.epochs.observed(e.seq, decision.policy@),
            ..p
        }
    }
}

/// The pipeline after a record was processed.
pub open spec fn processed(
    p: PipelineView,
    e: LogEntryView,
    turns: Seq<SessionTurn>,
    decision: FilterDecision,
) -> PipelineView {
    let (start, entry) = admitted(p, e);
    settled(after_turns(start, entry, turns), entry, in_aftermath(turns), decision)
}

/// Whether an event is the one that a match of a session calls for, given the
/// store at that moment and how many records the pre-buffer had at hand.
pub open spec fn is_event_of(
    event: PipelineEvent,
    store: StoreView,
    at_hand: nat,
    e: LogEntryView,
    turn: SessionTurn,
    m: TriggerMatch,
) -> bool {
    &&& event.session_id@ == turn.session_id@
    &&& event.trigger_id == m.id
    &&& optional_text(event.trigger_description) == optional_text(m.description)
    &&& event.filter_string@ == m.filter_string@
    &&& event.matched_entry@ == e
    &&& event.trace_summary is None
    &&& entry_list(event.context_before@) == store.context(e.seq, m.pre_window as nat, 0)
    &&& event.pre_trigger_flushed == (if m.pre_window <= at_hand {
        m.pre_window as nat
    } else {
        at_hand
    })
    &&& event.pre_window == m.pre_window
    &&& event.post_window_size == m.post_window
    &&& event.notify_context == m.notify_context
    &&& event.oneshot == m.oneshot
    &&& event.trace_id == e.trace_id
}

/// How many events the turns call for: one for each match of each that fires.
pub open spec fn event_count(turns: Seq<SessionTurn>) -> nat
    decreases turns.len(),
{
    if turns.len() == 0 {
        0
    } else {
        event_count(turns.drop_last()) + if fires(turns.last()) {
            turns.last().matches@.len()
        } else {
            0
        }
    }
}

/// Whether the events are those that the turns call for, in their order.
pub open spec fn events_match(
    events: Seq<PipelineEvent>,
    p: PipelineView,
    e: LogEntryView,
    turns: Seq<SessionTurn>,
) -> bool {
    &&& events.len() == event_count(turns)
    &&& forall|t: int, k: int|
        0 <= t < turns.len() && fires(turns[t]) && 0 <= k < turns[t].matches@.len() ==> is_event_of(
            events[event_count(turns.take(t)) + k],
            after_turn(after_turns(p, e, turns.take(t)), e, #[trigger] turns[t]).store,
            after_turns(p, e, turns.take(t)).pre_buffer.entries.len(),
            e,
            turns[t],
            #[trigger] turns[t].matches@[k],
        )
}

fn keep(pipeline: &mut LogPipeline, entry: LogEntry, source: LogSource)
    requires
        old(pipeline).wf(),
        entry.wf(),
    ensures
        final(pipeline).wf(),
        final(pipeline)@ == (PipelineView {
            store: kept(old(pipeline)@.store, entry@, source),
            ..old(pipeline)@
        }),
{
    if !pipeline.contains_seq(entry.seq) {
        let mut stored = entry;
        stored.source = source;
        pipeline.append_to_store(stored);
    }
}

fn keep_all(pipeline: &mut LogPipeline, entries: &Vec<LogEntry>, source: LogSource)
    requires
        old(pipeline).wf(),
        all_wf(entries@),
    ensures
        final(pipeline).wf(),
        final(pipeline)@ == (PipelineView {
            store: all_kept(old(pipeline)@.store, entry_list(entries@), source),
            ..old(pipeline)@
        }),
{
    let ghost before = pipeline@;
    let ghost all = entry_list(entries@);
    let mut i: usize = 0;
    proof {
        assert(all.take(0) =~= seq![]);
    }
    while i < entries.len()
        invariant
            all_wf(entries@),
            pipeline.wf(),
            all == entry_list(entries@),
            i <= entries@.len(),
            pipeline@ == (PipelineView {
                store: all_kept(before.store, all.take(i as int), source),
                ..before
            }),
        decreases entries@.len() - i,
    {
        proof {
            assert(all.take(i + 1).drop_last() =~= all.take(i as int));
            assert(all.take(i + 1).last() == entries@[i as int]@);
        }
        keep(pipeline, entries[i].clone(), source);
        i += 1;
    }
    proof {
        assert(all.take(all.len() as int) =~= all);
    }
}

/// Stores what a trigger that fired on `entry` calls for.
fn store_for_trigger(pipeline: &mut LogPipeline, entry: &LogEntry, pre_window: usize)
    requires
        old(pipeline).wf(),
        entry.wf(),
    ensures
        final(pipeline).wf(),
        final(pipeline)@ == (PipelineView {
            store: after_trigger(
                old(pipeline)@.store,
                old(pipeline)@.pre_buffer.entries,
                entry@,
                pre_window as nat,
            ),
            ..old(pipeline)@
        }),
{
    // Always store the triggering entry
    keep(pipeline, entry.clone(), LogSource::PreTrigger);
    // Copy pre_window entries from pre-buffer into store
    let pre_entries = pipeline.pre_buffer_copy(pre_window);
    keep_all(pipeline, &pre_entries, LogSource::PreTrigger);
    // Additionally, copy logs from the same trace_id
    match entry.trace_id {
        Some(t) => {
            let trace_entries = pipeline.pre_buffer_entries_by_trace_id(t);
            keep_all(pipeline, &trace_entries, LogSource::PreTrigger);
        },
        None => {},
    }
}

fn event_for(
    pipeline: &LogPipeline,
    entry: &LogEntry,
    turn: &SessionTurn,
    m: &TriggerMatch,
) -> (event: PipelineEvent)
    requires
        pipeline.wf(),
        entry.wf(),
    ensures
        is_event_of(
            event,
            pipeline@.store,
            pipeline@.pre_buffer.entries.len(),
            entry@,
            *turn,
            *m,
        ),
{
    let at_hand: usize = pipeline.pre_buffer_len();
    let pre_window: usize = m.pre_window as usize;
    PipelineEvent {
        session_id: turn.session_id.clone(),
        trigger_id: m.id,
        trigger_description: text::clone_optional(&m.description),
        filter_string: m.filter_string.clone(),
        matched_entry: entry.clone(),
        context_before: pipeline.context_by_seq(entry.seq, m.pre_window as usize, 0),
        pre_trigger_flushed: if pre_window <= at_hand {
            pre_window
        } else {
            at_hand
        },
        pre_window: m.pre_window,
        post_window_size: m.post_window,
        notify_context: m.notify_context,
        oneshot: m.oneshot,
        trace_id: entry.trace_id,
        trace_summary: None,
    }
}

/// Process one entry: assign its seq, buffer it, let the triggers of the
/// domain's sessions store it and what came before it, and otherwise store it
/// per the post-window and filter rules. Returns the notifications that the
/// matches call for, in their order.
pub fn process_entry_for_domain(
    entry: &mut LogEntry,
    pipeline: &mut LogPipeline,
    turns: &Vec<SessionTurn>,
    decision: &FilterDecision,
) -> (events: Vec<PipelineEvent>)
    requires
        old(entry).wf(),
        old(pipeline).wf(),
        old(pipeline)@.seq < u64::MAX,
    ensures
        final(entry).wf(),
        final(entry)@ == admitted(old(pipeline)@, old(entry)@).1,
        final(pipeline).wf(),
        final(pipeline)@ == processed(old(pipeline)@, old(entry)@, turns@, *decision),
        events_match(events@, admitted(old(pipeline)@, old(entry)@).0, final(entry)@, turns@),
{
    let ghost begin = pipeline@;
    let ghost raw = entry@;
    // 1. Assign seq
    let seq: u64 = pipeline.assign_seq();
    entry.seq = seq;
    // 2. Append to pre-trigger buffer
    pipeline.pre_buffer_append(entry.clone());
    let ghost start = pipeline@;
    let ghost e = entry@;
    proof {
        assert((start, e) == admitted(begin, raw));
    }
    // 3. Evaluate triggers per session
    let mut aftermath = false;
    let mut events: Vec<PipelineEvent> = Vec::new();
    let mut i: usize = 0;
    proof {
        assert(turns@.take(0) =~= seq![]);
    }
    while i < turns.len()
        invariant
            pipeline.wf(),
            entry.wf(),
            entry@ == e,
            i <= turns@.len(),
            pipeline@ == after_turns(start, e, turns@.take(i as int)),
            aftermath == in_aftermath(turns@.take(i as int)),
            events_match(events@, start, e, turns@.take(i as int)),
        decreases turns@.len() - i,
    {
        let turn = &turns[i];
        let ghost sofar = turns@.take(i as int);
        let ghost now = turns@.take(i + 1);
        let ghost here = pipeline@;
        let ghost earlier = events@;
        proof {
            assert(now.drop_last() =~= sofar);
            assert(now.last() == *turn);
            lemma_aftermath_grows(now);
        }
        if turn.in_post_window {
            aftermath = true;
            proof {
                lemma_events_grow(earlier, earlier, start, e, now);
            }
        } else if turn.matches.len() > 0 {
            aftermath = true;
            let pre_window: u32 = pre_window_of(&turn.matches);
            store_for_trigger(pipeline, entry, pre_window as usize);
            let ghost stored = pipeline@;
            let mut k: usize = 0;
            while k < turn.matches.len()
                invariant
                    pipeline.wf(),
                    pipeline@ == stored,
                    entry.wf(),
                    entry@ == e,
                    k <= turn.matches@.len(),
                    events@.len() == earlier.len() + k,
                    events@.take(earlier.len() as int) == earlier,
                    forall|j: int|
                        0 <= j < k ==> is_event_of(
                            #[trigger] events@[earlier.len() + j],
                            stored.store,
                            stored.pre_buffer.entries.len(),
                            e,
                            *turn,
                            turn.matches@[j],
                        ),
                decreases turn.matches@.len() - k,
            {
                let ghost before = events@;
                let event = event_for(pipeline, entry, turn, &turn.matches[k]);
                events.push(event);
                proof {
                    assert(events@.take(earlier.len() as int) =~= before.take(earlier.len() as int));
                    assert forall|j: int| 0 <= j < k + 1 implies is_event_of(
                        #[trigger] events@[earlier.len() + j],
                        stored.store,
                        stored.pre_buffer.entries.len(),
                        e,
                        *turn,
                        turn.matches@[j],
                    ) by {
                        if j < k {
                            assert(events@[earlier.len() + j] == before[earlier.len() + j]);
                        }
                    }
                }
                k += 1;
            }
            // A oneshot trigger whose pre_window was the domain-wide max may have
            // gone, and then the pre-buffer can shrink.
            if has_oneshot(&turn.matches) {
                sync_pre_buffer_size_for_domain(pipeline, &turn.pre_windows_left);
            }
            proof {
                assert(pipeline@ == after_turn(here, e, *turn));
                lemma_events_grow(earlier, events@, start, e, now);
            }
        } else {
            proof {
                lemma_events_grow(earlier, earlier, start, e, now);
            }
        }
        i += 1;
    }
    proof {
        assert(turns@.take(turns@.len() as int) =~= turns@);
    }
    // 4. Buffer storage (if entry not already stored by trigger logic)
    if !pipeline.contains_seq(entry.seq) {
        if aftermath {
            // Post-window active -- store unconditionally
            let mut stored = entry.clone();
            stored.source = LogSource::PostTrigger;
            pipeline.append_to_store(stored);
        } else {
            pipeline.observe_policy(entry.seq, &decision.policy);
            if decision.should_store {
                let mut stored = entry.clone();
                stored.matched_filters = clone_texts(&decision.matched);
                stored.source = LogSource::Filter;
                pipeline.append_to_store(stored);
            }
        }
    }
    events
}

proof fn lemma_aftermath_grows(turns: Seq<SessionTurn>)
    requires
        turns.len() > 0,
    ensures
        in_aftermath(turns) == (in_aftermath(turns.drop_last()) || turns.last().in_post_window
            || fires(turns.last())),
{
    let front = turns.drop_last();
    if in_aftermath(front) {
        let i = choose|i: int|
            0 <= i < front.len() && ((#[trigger] front[i]).in_post_window || fires(front[i]));
        assert(turns[i] == front[i]);
    }
    if in_aftermath(turns) {
        let i = choose|i: int|
            0 <= i < turns.len() && ((#[trigger] turns[i]).in_post_window || fires(turns[i]));
        if i < front.len() {
            assert(front[i] == turns[i]);
        }
    }
    if turns.last().in_post_window || fires(turns.last()) {
        assert(turns[turns.len() - 1] == turns.last());
    }
}

proof fn lemma_events_grow(
    before: Seq<PipelineEvent>,
    after: Seq<PipelineEvent>,
    p: PipelineView,
    e: LogEntryView,
    turns: Seq<SessionTurn>,
)
    requires
        turns.len() > 0,
        events_match(before, p, e, turns.drop_last()),
        fires(turns.last()) ==> {
            &&& after.len() == before.len() + turns.last().matches@.len()
            &&& after.take(before.len() as int) == before
            &&& forall|j: int|
                0 <= j < turns.last().matches@.len() ==> is_event_of(
                    #[trigger] after[before.len() + j],
                    after_turn(after_turns(p, e, turns.drop_last()), e, turns.last()).store,
                    after_turns(p, e, turns.drop_last()).pre_buffer.entries.len(),
                    e,
                    turns.last(),
                    turns.last().matches@[j],
                )
        },
        !fires(turns.last()) ==> after == before,
    ensures
        events_match(after, p, e, turns),
{
    let front = turns.drop_last();
    assert forall|t: int, k: int|
        0 <= t < turns.len() && fires(turns[t]) && 0 <= k < turns[t].matches@.len() implies is_event_of(
        after[event_count(turns.take(t)) + k],
        after_turn(after_turns(p, e, turns.take(t)), e, #[trigger] turns[t]).store,
        after_turns(p, e, turns.take(t)).pre_buffer.entries.len(),
        e,
        turns[t],
        #[trigger] turns[t].matches@[k],
    ) by {
        if t < front.len() {
            assert(turns.take(t) =~= front.take(t));
            assert(turns[t] == front[t]);
            assert(is_event_of(
                before[event_count(front.take(t)) + k],
                after_turn(after_turns(p, e, front.take(t)), e, front[t]).store,
                after_turns(p, e, front.take(t)).pre_buffer.entries.len(),
                e,
                front[t],
                front[t].matches@[k],
            ));
            lemma_event_count_bound(front, t);
            let at = event_count(front.take(t)) + k;
            assert(at < before.len());
            if fires(turns.last()) {
                assert(after.take(before.len() as int)[at as int] == before[at as int]);
            }
        } else {
            assert(turns.take(t) =~= front);
            assert(is_event_of(
                after[before.len() + k],
                after_turn(after_turns(p, e, front), e, turns.last()).store,
                after_turns(p, e, front).pre_buffer.entries.len(),
                e,
                turns.last(),
                turns.last().matches@[k],
            ));
        }
    }
}

proof fn lemma_event_count_bound(turns: Seq<SessionTurn>, t: int)
    requires
        0 <= t < turns.len(),
        fires(turns[t]),
    ensures
        event_count(turns.take(t)) + turns[t].matches@.len() <= event_count(turns),
    decreases turns.len(),
{
    let front = turns.drop_last();
    if t == turns.len() - 1 {
        assert(turns.take(t) =~= front);
    } else {
        assert(front.take(t) =~= turns.take(t));
        lemma_event_count_bound(front, t);
    }
}

/// Every seq in a list of records is below the last one there is.
pub open spec fn seqs_in_range(entries: Seq<LogEntryView>) -> bool {
    forall|i: int| 0 <= i < entries.len() ==> (#[trigger] entries[i]).seq < u64::MAX
}

proof fn lemma_kept(store: StoreView, e: LogEntryView, source: LogSource)
    requires
        store.bounded(),
        store.distinct(),
        seqs_in_range(store.entries),
        e.seq < u64::MAX,
    ensures
        ({
            let after = kept(store, e, source);
            &&& after.bounded()
            &&& after.distinct()
            &&& seqs_in_range(after.entries)
            &&& after.capacity == store.capacity
            &&& store.lost_below <= after.lost_below
            &&& forall|seq: u64|
                store.has_seq(seq) ==> #[trigger] after.has_seq(seq) || seq < after.lost_below
        }),
{
    if !store.has_seq(e.seq) {
        appending_accounts_for_evictions(store, LogEntryView { source, ..e });
    }
}

proof fn lemma_all_kept(store: StoreView, entries: Seq<LogEntryView>, source: LogSource)
    requires
        store.bounded(),
        store.distinct(),
        seqs_in_range(store.entries),
        seqs_in_range(entries),
    ensures
        ({
            let after = all_kept(store, entries, source);
            &&& after.bounded()
            &&& after.distinct()
            &&& seqs_in_range(after.entries)
            &&& after.capacity == store.capacity
            &&& store.lost_below <= after.lost_below
            &&& forall|seq: u64|
                store.has_seq(seq) ==> #[trigger] after.has_seq(seq) || seq < after.lost_below
        }),
    decreases entries.len(),
{
    if entries.len() > 0 {
        let front = entries.drop_last();
        assert(seqs_in_range(front)) by {
            assert forall|i: int| 0 <= i < front.len() implies (#[trigger] front[i]).seq < u64::MAX by {
                assert(entries[i] == front[i]);
            }
        }
        lemma_all_kept(store, front, source);
        let mid = all_kept(store, front, source);
        assert(entries[entries.len() - 1].seq < u64::MAX);
        lemma_kept(mid, entries.last(), source);
        let after = all_kept(store, entries, source);
        assert forall|seq: u64| store.has_seq(seq) implies #[trigger] after.has_seq(seq) || seq
            < after.lost_below by {
            assert(mid.has_seq(seq) || seq < mid.lost_below);
        }
    }
}

proof fn lemma_of_trace_in_range(entries: Seq<LogEntryView>, t: u128)
    requires
        seqs_in_range(entries),
    ensures
        seqs_in_range(of_trace(entries, t)),
    decreases entries.len(),
{
    if entries.len() > 0 {
        let front = entries.drop_last();
        assert forall|i: int| 0 <= i < front.len() implies (#[trigger] front[i]).seq < u64::MAX by {
            assert(entries[i] == front[i]);
        }
        lemma_of_trace_in_range(front, t);
        assert(entries[entries.len() - 1].seq < u64::MAX);
    }
}

/// What holds of a pipeline whatever it has processed: its store is bounded and
/// holds no seq twice, and no seq in it is the last one there is.
pub open spec fn sound(p: PipelineView) -> bool {
    &&& p.store.bounded()
    &&& p.store.distinct()
    &&& seqs_in_range(p.store.entries)
    &&& seqs_in_range(p.pre_buffer.entries)
}

proof fn lemma_turns_keep_sound(p: PipelineView, e: LogEntryView, turns: Seq<SessionTurn>)
    requires
        sound(p),
        e.seq < u64::MAX,
    ensures
        ({
            let after = after_turns(p, e, turns);
            &&& sound(after)
            &&& after.store.capacity == p.store.capacity
            &&& p.store.lost_below <= after.store.lost_below
            &&& forall|seq: u64|
                p.store.has_seq(seq) ==> #[trigger] after.store.has_seq(seq) || seq
                    < after.store.lost_below
        }),
    decreases turns.len(),
{
    if turns.len() > 0 {
        lemma_turns_keep_sound(p, e, turns.drop_last());
        let mid = after_turns(p, e, turns.drop_last());
        let turn = turns.last();
        let after = after_turns(p, e, turns);
        if fires(turn) {
            let n = widest(pre_windows(turn.matches@)) as nat;
            let buffer = mid.pre_buffer.entries;
            let window = last_of(buffer, n);
            assert(seqs_in_range(window)) by {
                let skip = buffer.len() - window.len();
                assert forall|i: int| 0 <= i < window.len() implies (#[trigger] window[i]).seq < u64::MAX by {
                    assert(window[i] == buffer[i + skip]);
                }
            }
            let own = kept(mid.store, e, LogSource::PreTrigger);
            lemma_kept(mid.store, e, LogSource::PreTrigger);
            lemma_all_kept(own, window, LogSource::PreTrigger);
            let wide = all_kept(own, window, LogSource::PreTrigger);
            if let Some(t) = e.trace_id {
                lemma_of_trace_in_range(buffer, t);
                lemma_all_kept(wide, of_trace(buffer, t), LogSource::PreTrigger);
            }
            assert(seqs_in_range(after.pre_buffer.entries)) by {
                let rest = after.pre_buffer.entries;
                let skip = buffer.len() - rest.len();
                assert forall|i: int| 0 <= i < rest.len() implies (#[trigger] rest[i]).seq < u64::MAX by {
                    assert(rest[i] == buffer[i + skip]);
                }
            }
            assert forall|seq: u64| p.store.has_seq(seq) implies #[trigger] after.store.has_seq(seq)
                || seq < after.store.lost_below by {
                assert(mid.store.has_seq(seq) || seq < mid.store.lost_below);
                assert(own.has_seq(seq) || seq < own.lost_below);
                assert(wide.has_seq(seq) || seq < wide.lost_below);
            }
        }
    }
}

/// Processing a record keeps the store bounded and free of repeated seqs, never
/// loses one without accounting for it, and counts the seq up by one.
pub proof fn processing_keeps_the_store_sound(
    p: PipelineView,
    e: LogEntryView,
    turns: Seq<SessionTurn>,
    decision: FilterDecision,
)
    requires
        sound(p),
        p.seq < u64::MAX - 1,
    ensures
        ({
            let after = processed(p, e, turns, decision);
            &&& sound(after)
            &&& after.seq == p.seq + 1
            &&& p.store.lost_below <= after.store.lost_below
            &&& forall|seq: u64|
                p.store.has_seq(seq) ==> #[trigger] after.store.has_seq(seq) || seq
                    < after.store.lost_below
        }),
{
    let (start, entry) = admitted(p, e);
    lemma_admitted_sound(p, e);
    lemma_turns_keep_sound(start, entry, turns);
    let mid = after_turns(start, entry, turns);
    lemma_turns_keep_seq(start, entry, turns);
    let after = processed(p, e, turns, decision);
    if !mid.store.has_seq(entry.seq) {
        let as_post = LogEntryView { source: LogSource::PostTrigger, ..entry };
        let as_filtered = LogEntryView {
            source: LogSource::Filter,
            matched_filters: text_views(decision.matched@),
            ..entry
        };
        appending_accounts_for_evictions(mid.store, as_post);
        appending_accounts_for_evictions(mid.store, as_filtered);
        assert(seqs_in_range(mid.store.appended(as_post).entries));
        assert(seqs_in_range(mid.store.appended(as_filtered).entries));
    }
    assert forall|seq: u64| p.store.has_seq(seq) implies #[trigger] after.store.has_seq(seq) || seq
        < after.store.lost_below by {
        assert(start.store.has_seq(seq));
        assert(mid.store.has_seq(seq) || seq < mid.store.lost_below);
    }
}

proof fn lemma_admitted_sound(p: PipelineView, e: LogEntryView)
    requires
        sound(p),
        p.seq < u64::MAX - 1,
    ensures
        sound(admitted(p, e).0),
{
    let (start, entry) = admitted(p, e);
    let all = p.pre_buffer.entries.push(entry);
    let rest = start.pre_buffer.entries;
    let skip = all.len() - rest.len();
    assert forall|i: int| 0 <= i < rest.len() implies (#[trigger] rest[i]).seq < u64::MAX by {
        assert(rest[i] == all[i + skip]);
    }
}

proof fn lemma_turns_keep_seq(p: PipelineView, e: LogEntryView, turns: Seq<SessionTurn>)
    ensures
        after_turns(p, e, turns).seq == p.seq,
        after_turns(p, e, turns).epochs == p.epochs,
    decreases turns.len(),
{
    if turns.len() > 0 {
        lemma_turns_keep_seq(p, e, turns.drop_last());
    }
}

/// A record in the aftermath of a trigger is always stored, whatever the
/// filters say, as long as there is any room at all.
pub proof fn aftermath_is_stored_unconditionally(
    p: PipelineView,
    e: LogEntryView,
    turns: Seq<SessionTurn>,
    decision: FilterDecision,
)
    requires
        sound(p),
        p.seq < u64::MAX - 1,
        p.store.capacity > 0,
        in_aftermath(turns),
    ensures
        processed(p, e, turns, decision).store.has_seq((p.seq + 1) as u64),
{
    let (start, entry) = admitted(p, e);
    lemma_admitted_sound(p, e);
    lemma_turns_keep_sound(start, entry, turns);
    let mid = after_turns(start, entry, turns);
    if !mid.store.has_seq(entry.seq) {
        appending_accounts_for_evictions(
            mid.store,
            LogEntryView { source: LogSource::PostTrigger, ..entry },
        );
    }
}

/// A record that no trigger concerns is stored exactly where the filters want
/// it, and the epoch log is told of the policy that decided it.
pub proof fn filters_decide_the_rest(
    p: PipelineView,
    e: LogEntryView,
    turns: Seq<SessionTurn>,
    decision: FilterDecision,
)
    requires
        sound(p),
        p.seq < u64::MAX - 1,
        p.store.capacity > 0,
        !in_aftermath(turns),
        !p.store.has_seq((p.seq + 1) as u64),
    ensures
        ({
            let after = processed(p, e, turns, decision);
            &&& after.store.has_seq((p.seq + 1) as u64) == decision.should_store
            &&& !decision.should_store ==> after.store == p.store
            &&& after.epochs == p.epochs.observed((p.seq + 1) as u64, decision.policy@)
        }),
{
    let (start, entry) = admitted(p, e);
    lemma_admitted_sound(p, e);
    lemma_quiet_turns(start, entry, turns);
    appending_accounts_for_evictions(
        start.store,
        LogEntryView {
            source: LogSource::Filter,
            matched_filters: text_views(decision.matched@),
            ..entry
        },
    );
}

/// The triggers to be removed are the oneshot triggers that fire, and no others. A
/// resync is due exactly where there is one, and without one the pre-buffer stays as
/// it is.
pub proof fn fired_oneshots_are_those_to_remove(
    p: PipelineView,
    e: LogEntryView,
    turns: Seq<SessionTurn>,
    f: FiredOneshotView,
)
    ensures
        fired_oneshots(turns).contains(f) <==> exists|t: int, k: int|
            0 <= t < turns.len() && #[trigger] is_oneshot_of(turns[t], k, f),
        is_resync_due(turns) <==> fired_oneshots(turns).len() > 0,
        !is_resync_due(turns) ==> after_turns(p, e, turns).pre_buffer == p.pre_buffer,
{
    lemma_fired_oneshots(turns, f);
    lemma_resync(p, e, turns);
}

/// Whether `f` is the `k`th match of a turn that fires, and a oneshot trigger.
pub open spec fn is_oneshot_of(turn: SessionTurn, k: int, f: FiredOneshotView) -> bool {
    &&& fires(turn)
    &&& 0 <= k < turn.matches@.len()
    &&& turn.matches@[k].oneshot
    &&& f == (FiredOneshotView { session_id: turn.session_id@, trigger_id: turn.matches@[k].id })
}

proof fn lemma_turn_oneshots(turn: SessionTurn, n: int, f: FiredOneshotView)
    requires
        fires(turn),
        0 <= n <= turn.matches@.len(),
    ensures
        turn_oneshots(turn, n).contains(f) <==> exists|k: int| k < n && is_oneshot_of(turn, k, f),
        turn_oneshots(turn, n).len() > 0 <==> exists|k: int|
            0 <= k < n && (#[trigger] turn.matches@[k]).oneshot,
    decreases n,
{
    if n > 0 {
        lemma_turn_oneshots(turn, n - 1, f);
        let before = turn_oneshots(turn, n - 1);
        let all = turn_oneshots(turn, n);
        if all.contains(f) {
            let i = choose|i: int| 0 <= i < all.len() && all[i] == f;
            if i < before.len() {
                assert(before[i] == f);
                assert(before.contains(f));
            } else {
                assert(is_oneshot_of(turn, n - 1, f));
            }
        }
        if exists|k: int| k < n && is_oneshot_of(turn, k, f) {
            let k = choose|k: int| k < n && is_oneshot_of(turn, k, f);
            if k < n - 1 {
                assert(before.contains(f));
                let i = choose|i: int| 0 <= i < before.len() && before[i] == f;
                assert(all[i] == f);
            } else {
                assert(all[before.len() as int] == f);
            }
        }
        if before.len() > 0 {
            let k = choose|k: int| 0 <= k < n - 1 && (#[trigger] turn.matches@[k]).oneshot;
            assert(0 <= k < n && turn.matches@[k].oneshot);
        }
        if turn.matches@[n - 1].oneshot {
            assert(all.len() > 0);
        }
    }
}

proof fn lemma_fired_oneshots(turns: Seq<SessionTurn>, f: FiredOneshotView)
    ensures
        fired_oneshots(turns).contains(f) <==> exists|t: int, k: int|
            0 <= t < turns.len() && #[trigger] is_oneshot_of(turns[t], k, f),
    decreases turns.len(),
{
    if turns.len() > 0 {
        let front = turns.drop_last();
        let last = turns.last();
        lemma_fired_oneshots(front, f);
        let before = fired_oneshots(front);
        let all = fired_oneshots(turns);
        let n = last.matches@.len() as int;
        if fires(last) {
            lemma_turn_oneshots(last, n, f);
        }
        if all.contains(f) {
            let i = choose|i: int| 0 <= i < all.len() && all[i] == f;
            if i < before.len() {
                assert(before[i] == f);
                assert(before.contains(f));
                let (t, k) = choose|t: int, k: int|
                    0 <= t < front.len() && #[trigger] is_oneshot_of(front[t], k, f);
                assert(is_oneshot_of(turns[t], k, f));
            } else {
                let own = turn_oneshots(last, n);
                assert(own[i - before.len()] == f);
                assert(own.contains(f));
                let k = choose|k: int| k < n && is_oneshot_of(last, k, f);
                assert(is_oneshot_of(turns[turns.len() - 1], k, f));
            }
        }
        if exists|t: int, k: int| 0 <= t < turns.len() && #[trigger] is_oneshot_of(turns[t], k, f) {
            let (t, k) = choose|t: int, k: int|
                0 <= t < turns.len() && #[trigger] is_oneshot_of(turns[t], k, f);
            if t < front.len() {
                assert(is_oneshot_of(front[t], k, f));
                assert(before.contains(f));
                let i = choose|i: int| 0 <= i < before.len() && before[i] == f;
                assert(all[i] == f);
            } else {
                let own = turn_oneshots(last, n);
                assert(is_oneshot_of(last, k, f));
                assert(own.contains(f));
                let i = choose|i: int| 0 <= i < own.len() && own[i] == f;
                assert(all[before.len() + i] == f);
            }
        }
    }
}

proof fn lemma_resync(p: PipelineView, e: LogEntryView, turns: Seq<SessionTurn>)
    ensures
        is_resync_due(turns) <==> fired_oneshots(turns).len() > 0,
        !is_resync_due(turns) ==> after_turns(p, e, turns).pre_buffer == p.pre_buffer,
    decreases turns.len(),
{
    if turns.len() > 0 {
        let front = turns.drop_last();
        let last = turns.last();
        lemma_resync(p, e, front);
        if fires(last) {
            lemma_turn_oneshots(
                last,
                last.matches@.len() as int,
                FiredOneshotView { session_id: seq![], trigger_id: 0 },
            );
        }
        assert(turns[turns.len() - 1] == last);
        if is_resync_due(front) {
            let i = choose|i: int| 0 <= i < front.len() && spends_oneshot(#[trigger] front[i]);
            assert(spends_oneshot(turns[i]));
        }
        if is_resync_due(turns) {
            let i = choose|i: int| 0 <= i < turns.len() && spends_oneshot(#[trigger] turns[i]);
            if i < front.len() {
                assert(spends_oneshot(front[i]));
            }
        }
    }
}

proof fn lemma_quiet_turns(p: PipelineView, e: LogEntryView, turns: Seq<SessionTurn>)
    requires
        !in_aftermath(turns),
    ensures
        after_turns(p, e, turns) == p,
    decreases turns.len(),
{
    if turns.len() > 0 {
        lemma_aftermath_grows(turns);
        lemma_quiet_turns(p, e, turns.drop_last());
    }
}

/// The widest of some windows is one of them, and none is wider.
pub proof fn the_widest_window_is_one_of_them(windows: Seq<u32>, i: int)
    ensures
        0 <= i < windows.len() ==> windows[i] <= widest(windows),
        windows.len() > 0 ==> windows.contains(widest(windows)),
        windows.len() == 0 ==> widest(windows) == 0,
    decreases windows.len(),
{
    if windows.len() > 0 {
        let front = windows.drop_last();
        the_widest_window_is_one_of_them(front, i);
        if widest(windows) == windows.last() {
            assert(windows[windows.len() - 1] == widest(windows));
        } else {
            let k = choose|k: int| 0 <= k < front.len() && front[k] == widest(front);
            assert(windows[k] == widest(windows));
        }
        if 0 <= i < front.len() {
            assert(front[i] == windows[i]);
        }
    }
}

/// Whether the store holds a record, or is known to have let go of all records with a
/// seq as low as its.
pub open spec fn holds_or_lost(store: StoreView, x: LogEntryView) -> bool {
    store.entries.contains(x) || x.seq < store.lost_below
}

/// Whether the store holds a record of that seq, or is known to have let it go.
pub open spec fn answers_for(store: StoreView, seq: u64) -> bool {
    seq < store.lost_below || exists|i: int|
        0 <= i < store.entries.len() && (#[trigger] store.entries[i]).seq == seq
}

proof fn lemma_kept_records(store: StoreView, e: LogEntryView, source: LogSource, x: LogEntryView)
    requires
        store.bounded(),
        store.distinct(),
        seqs_in_range(store.entries),
        e.seq < u64::MAX,
    ensures
        ({
            let after = kept(store, e, source);
            &&& answers_for(after, e.seq)
            &&& x.seq < u64::MAX && holds_or_lost(store, x) ==> holds_or_lost(after, x)
            &&& after.entries.contains(x) ==> store.entries.contains(x) || x == (LogEntryView {
                source,
                ..e
            })
            &&& !store.has_seq(e.seq) ==> holds_or_lost(after, LogEntryView { source, ..e })
        }),
{
    lemma_kept(store, e, source);
    if !store.has_seq(e.seq) {
        let new = LogEntryView { source, ..e };
        appending_keeps_the_latest(store, new, x);
        let after = kept(store, e, source);
        if after.entries.contains(new) {
            let i = choose|i: int| 0 <= i < after.entries.len() && after.entries[i] == new;
            assert(after.entries[i].seq == e.seq);
        }
    }
}

proof fn lemma_answers_on(store: StoreView, e: LogEntryView, source: LogSource, seq: u64)
    requires
        store.bounded(),
        store.distinct(),
        seqs_in_range(store.entries),
        e.seq < u64::MAX,
        answers_for(store, seq),
    ensures
        answers_for(kept(store, e, source), seq),
{
    lemma_kept(store, e, source);
    if seq >= store.lost_below {
        assert(store.has_seq(seq));
        assert(kept(store, e, source).has_seq(seq) || seq < kept(store, e, source).lost_below);
    }
}

proof fn lemma_all_kept_records(
    store: StoreView,
    entries: Seq<LogEntryView>,
    source: LogSource,
    x: LogEntryView,
    seq: u64,
    j: int,
)
    requires
        store.bounded(),
        store.distinct(),
        seqs_in_range(store.entries),
        seqs_in_range(entries),
    ensures
        ({
            let after = all_kept(store, entries, source);
            &&& 0 <= j < entries.len() ==> answers_for(after, entries[j].seq)
            &&& answers_for(store, seq) ==> answers_for(after, seq)
            &&& x.seq < u64::MAX && holds_or_lost(store, x) ==> holds_or_lost(after, x)
            &&& after.entries.contains(x) ==> store.entries.contains(x) || exists|i: int|
                0 <= i < entries.len() && x == (LogEntryView { source, ..#[trigger] entries[i] })
        }),
    decreases entries.len(),
{
    if entries.len() > 0 {
        let front = entries.drop_last();
        assert(seqs_in_range(front)) by {
            assert forall|i: int| 0 <= i < front.len() implies (#[trigger] front[i]).seq < u64::MAX by {
                assert(entries[i] == front[i]);
            }
        }
        assert(entries[entries.len() - 1].seq < u64::MAX);
        lemma_all_kept(store, front, source);
        lemma_all_kept_records(store, front, source, x, seq, j);
        let mid = all_kept(store, front, source);
        lemma_kept_records(mid, entries.last(), source, x);
        if answers_for(store, seq) {
            lemma_answers_on(mid, entries.last(), source, seq);
        }
        if 0 <= j < front.len() {
            assert(front[j] == entries[j]);
            lemma_answers_on(mid, entries.last(), source, entries[j].seq);
        }
        let after = all_kept(store, entries, source);
        if after.entries.contains(x) && !store.entries.contains(x) {
            if mid.entries.contains(x) {
                let i = choose|i: int|
                    0 <= i < front.len() && x == (LogEntryView { source, ..#[trigger] front[i] });
                assert(entries[i] == front[i]);
            } else {
                assert(x == (LogEntryView { source, ..entries[entries.len() - 1] }));
            }
        }
    }
}

proof fn lemma_last_of_in_range(entries: Seq<LogEntryView>, n: nat)
    requires
        seqs_in_range(entries),
    ensures
        seqs_in_range(last_of(entries, n)),
{
    let rest = last_of(entries, n);
    let skip = entries.len() - rest.len();
    assert forall|i: int| 0 <= i < rest.len() implies (#[trigger] rest[i]).seq < u64::MAX by {
        assert(rest[i] == entries[i + skip]);
    }
}

/// What a trigger that fires does to the store: it answers for the record itself, for
/// each of the last `n` records of the pre-buffer and for each of the trace of the
/// record; what was there stays, and nothing else comes in.
proof fn lemma_after_trigger(
    store: StoreView,
    buffer: Seq<LogEntryView>,
    e: LogEntryView,
    n: nat,
    x: LogEntryView,
    seq: u64,
    j: int,
)
    requires
        store.bounded(),
        store.distinct(),
        seqs_in_range(store.entries),
        seqs_in_range(buffer),
        e.seq < u64::MAX,
    ensures
        ({
            let after = after_trigger(store, buffer, e, n);
            &&& answers_for(after, e.seq)
            &&& !store.has_seq(e.seq) ==> holds_or_lost(
                after,
                LogEntryView { source: LogSource::PreTrigger, ..e },
            )
            &&& 0 <= j < buffer.len() && (buffer.len() - j <= n || (e.trace_id is Some
                && buffer[j].trace_id == e.trace_id)) ==> answers_for(after, buffer[j].seq)
            &&& answers_for(store, seq) ==> answers_for(after, seq)
            &&& x.seq < u64::MAX && holds_or_lost(store, x) ==> holds_or_lost(after, x)
            &&& after.entries.contains(x) && !store.entries.contains(x) ==> {
                ||| x == (LogEntryView { source: LogSource::PreTrigger, ..e })
                ||| exists|i: int|
                    {
                        &&& 0 <= i < buffer.len()
                        &&& x == (LogEntryView {
                            source: LogSource::PreTrigger,
                            ..#[trigger] buffer[i]
                        })
                        &&& buffer.len() - i <= n || (e.trace_id is Some && buffer[i].trace_id
                            == e.trace_id)
                    }
            }
        }),
{
    let source = LogSource::PreTrigger;
    let own_record = LogEntryView { source, ..e };
    let own = kept(store, e, source);
    lemma_kept(store, e, source);
    lemma_kept_records(store, e, source, x);
    if answers_for(store, seq) {
        lemma_answers_on(store, e, source, seq);
    }
    let window = last_of(buffer, n);
    let skip = buffer.len() - window.len();
    lemma_last_of_in_range(buffer, n);
    lemma_all_kept(own, window, source);
    let wide = all_kept(own, window, source);
    lemma_all_kept_records(own, window, source, x, seq, j - skip);
    lemma_all_kept_records(own, window, source, own_record, e.seq, j - skip);
    if 0 <= j < buffer.len() && buffer.len() - j <= n {
        assert(window[j - skip] == buffer[j]);
    }
    let after = after_trigger(store, buffer, e, n);
    if let Some(t) = e.trace_id {
        let traced = of_trace(buffer, t);
        lemma_of_trace_in_range(buffer, t);
        lemma_all_kept_records(wide, traced, source, x, seq, 0);
        lemma_all_kept_records(wide, traced, source, own_record, e.seq, 0);
        if 0 <= j < buffer.len() {
            lemma_all_kept_records(wide, traced, source, own_record, buffer[j].seq, 0);
            if buffer[j].trace_id == Some(t) {
                traces_gather_their_records(buffer, seq![], buffer[j], t);
                let k = choose|k: int| 0 <= k < traced.len() && traced[k] == buffer[j];
                lemma_all_kept_records(wide, traced, source, x, seq, k);
            }
        }
    }
    if after.entries.contains(x) && !store.entries.contains(x) && x != own_record {
        if wide.entries.contains(x) {
            let i = choose|i: int|
                0 <= i < window.len() && x == (LogEntryView { source, ..#[trigger] window[i] });
            assert(buffer[i + skip] == window[i]);
        } else {
            let t = e.trace_id->0;
            let traced = of_trace(buffer, t);
            let i = choose|i: int|
                0 <= i < traced.len() && x == (LogEntryView { source, ..#[trigger] traced[i] });
            traces_gather_their_records(buffer, seq![], traced[i], t);
            let k = choose|k: int| 0 <= k < buffer.len() && buffer[k] == traced[i];
            assert(x == (LogEntryView { source, ..buffer[k] }));
        }
    }
}

proof fn lemma_turns_keep_records(
    p: PipelineView,
    e: LogEntryView,
    turns: Seq<SessionTurn>,
    x: LogEntryView,
    seq: u64,
)
    requires
        sound(p),
        e.seq < u64::MAX,
    ensures
        ({
            let after = after_turns(p, e, turns);
            &&& answers_for(p.store, seq) ==> answers_for(after.store, seq)
            &&& x.seq < u64::MAX && holds_or_lost(p.store, x) ==> holds_or_lost(after.store, x)
        }),
    decreases turns.len(),
{
    if turns.len() > 0 {
        let front = turns.drop_last();
        lemma_turns_keep_sound(p, e, front);
        lemma_turns_keep_records(p, e, front, x, seq);
        let mid = after_turns(p, e, front);
        if fires(turns.last()) {
            let n = widest(pre_windows(turns.last().matches@)) as nat;
            lemma_after_trigger(mid.store, mid.pre_buffer.entries, e, n, x, seq, 0);
        }
    }
}

/// A trigger that fires keeps the context of its record: the record itself, each of the
/// last `pre_window` records of the pre-buffer, and each record of the pre-buffer that
/// is of its trace, whether or not it has one. The store then holds them, or is known to
/// have had no room for them.
pub proof fn triggers_keep_their_context(
    p: PipelineView,
    e: LogEntryView,
    turns: Seq<SessionTurn>,
    decision: FilterDecision,
    t: int,
    k: int,
    j: int,
)
    requires
        sound(p),
        p.seq < u64::MAX - 1,
        0 <= t < turns.len(),
        !turns[t].in_post_window,
        0 <= k < turns[t].matches@.len(),
        // No earlier turn has shrunk the pre-buffer.
        forall|i: int, m: int|
            0 <= i < t && !turns[i].in_post_window && 0 <= m < turns[i].matches@.len()
                ==> !(#[trigger] turns[i].matches@[m]).oneshot,
        0 <= j <= p.pre_buffer.entries.len(),
        p.pre_buffer.entries.len() + 1 - j <= p.pre_buffer.size,
    ensures
        ({
            let own = LogEntryView { seq: (p.seq + 1) as u64, ..e };
            let came = p.pre_buffer.entries.push(own);
            let store = processed(p, e, turns, decision).store;
            &&& answers_for(store, own.seq)
            &&& came.len() - j <= turns[t].matches@[k].pre_window ==> answers_for(
                store,
                came[j].seq,
            )
            &&& came[j].trace_id is Some && came[j].trace_id == e.trace_id ==> answers_for(
                store,
                came[j].seq,
            )
        }),
{
    let (start, own) = admitted(p, e);
    lemma_admitted_sound(p, e);
    let came = p.pre_buffer.entries.push(own);
    let first = turns.take(t);
    let upto = turns.take(t + 1);
    assert(upto.drop_last() =~= first);
    assert(upto.last() == turns[t]);
    lemma_turns_keep_sound(start, own, first);
    if is_resync_due(first) {
        let i = choose|i: int| 0 <= i < first.len() && spends_oneshot(#[trigger] first[i]);
        let m = choose|m: int|
            0 <= m < first[i].matches@.len() && (#[trigger] first[i].matches@[m]).oneshot;
        assert(first[i] == turns[i]);
        assert(!turns[i].matches@[m].oneshot);
    }
    lemma_resync(start, own, first);
    let mid = after_turns(start, own, first);
    let buffer = mid.pre_buffer.entries;
    let skip = came.len() - buffer.len();
    assert(buffer[j - skip] == came[j]);
    let windows = pre_windows(turns[t].matches@);
    the_widest_window_is_one_of_them(windows, k);
    assert(windows[k] == turns[t].matches@[k].pre_window);
    let n = widest(windows) as nat;
    lemma_after_trigger(mid.store, buffer, own, n, own, own.seq, j - skip);
    let then = after_turns(start, own, upto);
    lemma_turns_keep_sound(start, own, upto);
    let rest = turns.skip(t + 1);
    lemma_turns_compose(start, own, upto, rest);
    assert(upto + rest =~= turns);
    lemma_turns_keep_records(then, own, rest, own, own.seq);
    lemma_turns_keep_records(then, own, rest, own, came[j].seq);
    lemma_turns_keep_sound(then, own, rest);
    let last = after_turns(start, own, turns);
    lemma_settled_records(last, own, in_aftermath(turns), decision, own, own.seq);
    lemma_settled_records(last, own, in_aftermath(turns), decision, own, came[j].seq);
}

proof fn lemma_turns_compose(
    p: PipelineView,
    e: LogEntryView,
    a: Seq<SessionTurn>,
    b: Seq<SessionTurn>,
)
    ensures
        after_turns(p, e, a + b) == after_turns(after_turns(p, e, a), e, b),
    decreases b.len(),
{
    if b.len() == 0 {
        assert(a + b =~= a);
    } else {
        assert((a + b).drop_last() =~= a + b.drop_last());
        lemma_turns_compose(p, e, a, b.drop_last());
    }
}

proof fn lemma_settled_records(
    p: PipelineView,
    e: LogEntryView,
    aftermath: bool,
    decision: FilterDecision,
    x: LogEntryView,
    seq: u64,
)
    requires
        sound(p),
        e.seq < u64::MAX,
    ensures
        ({
            let after = settled(p, e, aftermath, decision);
            &&& answers_for(p.store, seq) ==> answers_for(after.store, seq)
            &&& x.seq < u64::MAX && holds_or_lost(p.store, x) ==> holds_or_lost(after.store, x)
            &&& after.store.entries.contains(x) && !p.store.entries.contains(x) ==> {
                &&& !answers_for(p.store, e.seq) || e.seq < p.store.lost_below
                &&& aftermath ==> x == (LogEntryView { source: LogSource::PostTrigger, ..e })
                &&& !aftermath ==> decision.should_store && x == (LogEntryView {
                    source: LogSource::Filter,
                    matched_filters: text_views(decision.matched@),
                    ..e
                })
            }
        }),
{
    let after = settled(p, e, aftermath, decision);
    if !p.store.has_seq(e.seq) {
        let as_post = LogEntryView { source: LogSource::PostTrigger, ..e };
        let as_filtered = LogEntryView {
            source: LogSource::Filter,
            matched_filters: text_views(decision.matched@),
            ..e
        };
        let new = if aftermath {
            as_post
        } else {
            as_filtered
        };
        if aftermath || decision.should_store {
            appending_keeps_the_latest(p.store, new, x);
            appending_accounts_for_evictions(p.store, new);
            if answers_for(p.store, seq) && seq >= p.store.lost_below {
                assert(p.store.has_seq(seq));
                assert(after.store.has_seq(seq) || seq < after.store.lost_below);
            }
        }
    }
}

/// Processing a record alters no stored record: each stays as it is, or is known to have
/// made room.
pub proof fn stored_records_are_never_altered(
    p: PipelineView,
    e: LogEntryView,
    turns: Seq<SessionTurn>,
    decision: FilterDecision,
    x: LogEntryView,
)
    requires
        sound(p),
        p.seq < u64::MAX - 1,
        p.store.entries.contains(x),
    ensures
        ({
            let store = processed(p, e, turns, decision).store;
            store.entries.contains(x) || x.seq < store.lost_below
        }),
{
    let (start, own) = admitted(p, e);
    lemma_admitted_sound(p, e);
    let i = choose|i: int| 0 <= i < p.store.entries.len() && p.store.entries[i] == x;
    assert(p.store.entries[i].seq < u64::MAX);
    lemma_turns_keep_sound(start, own, turns);
    lemma_turns_keep_records(start, own, turns, x, x.seq);
    lemma_settled_records(
        after_turns(start, own, turns),
        own,
        in_aftermath(turns),
        decision,
        x,
        x.seq,
    );
}

/// Why a record that was not in the store before is there now: it is the `j`th of the
/// pre-buffer and the record that has just come, and a trigger looked back that far, or
/// it is of the trace of a record on which a trigger fired, or it is that record.
pub open spec fn is_looked_back_at(
    came: Seq<LogEntryView>,
    turns: Seq<SessionTurn>,
    j: int,
    t: int,
    k: int,
) -> bool {
    &&& 0 <= t < turns.len()
    &&& !turns[t].in_post_window
    &&& 0 <= k < turns[t].matches@.len()
    &&& {
        ||| j == came.len() - 1
        ||| came.len() - j <= turns[t].matches@[k].pre_window
        ||| came.last().trace_id is Some && came[j].trace_id == came.last().trace_id
    }
}

proof fn lemma_turns_store_nothing_else(
    p: PipelineView,
    came: Seq<LogEntryView>,
    turns: Seq<SessionTurn>,
    x: LogEntryView,
)
    requires
        sound(p),
        came.len() > 0,
        came.last().seq < u64::MAX,
        p.pre_buffer.entries.len() <= came.len(),
        p.pre_buffer.entries == came.skip(came.len() - p.pre_buffer.entries.len()),
    ensures
        ({
            let after = after_turns(p, came.last(), turns);
            &&& after.pre_buffer.entries.len() <= came.len()
            &&& after.pre_buffer.entries == came.skip(
                came.len() - after.pre_buffer.entries.len(),
            )
            &&& after.store.entries.contains(x) && !p.store.entries.contains(x) ==> exists|
                j: int,
                t: int,
                k: int,
            |
                {
                    &&& 0 <= j < came.len()
                    &&& #[trigger] is_looked_back_at(came, turns, j, t, k)
                    &&& x == (LogEntryView { source: LogSource::PreTrigger, ..came[j] })
                }
        }),
    decreases turns.len(),
{
    if turns.len() > 0 {
        let e = came.last();
        let front = turns.drop_last();
        let turn = turns.last();
        let end = turns.len() - 1;
        lemma_turns_store_nothing_else(p, came, front, x);
        lemma_turns_keep_sound(p, e, front);
        let mid = after_turns(p, e, front);
        let after = after_turns(p, e, turns);
        let buffer = mid.pre_buffer.entries;
        let skip = came.len() - buffer.len();
        if fires(turn) {
            let windows = pre_windows(turn.matches@);
            let n = widest(windows) as nat;
            the_widest_window_is_one_of_them(windows, 0);
            let k = choose|k: int| 0 <= k < windows.len() && windows[k] == widest(windows);
            lemma_after_trigger(mid.store, buffer, e, n, x, 0, 0);
            let rest = after.pre_buffer.entries;
            assert(rest =~= came.skip(came.len() - rest.len()));
            if after.store.entries.contains(x) && !mid.store.entries.contains(x) {
                if x == (LogEntryView { source: LogSource::PreTrigger, ..e }) {
                    assert(is_looked_back_at(came, turns, came.len() - 1, end, k));
                    assert(came[came.len() - 1] == e);
                } else {
                    let i = choose|i: int|
                        {
                            &&& 0 <= i < buffer.len()
                            &&& x == (LogEntryView {
                                source: LogSource::PreTrigger,
                                ..#[trigger] buffer[i]
                            })
                            &&& buffer.len() - i <= n || (e.trace_id is Some && buffer[i].trace_id
                                == e.trace_id)
                        };
                    assert(buffer[i] == came[i + skip]);
                    assert(is_looked_back_at(came, turns, i + skip, end, k));
                }
            }
        }
        if mid.store.entries.contains(x) && !p.store.entries.contains(x) {
            let (j, t, k) = choose|j: int, t: int, k: int|
                {
                    &&& 0 <= j < came.len()
                    &&& #[trigger] is_looked_back_at(came, front, j, t, k)
                    &&& x == (LogEntryView { source: LogSource::PreTrigger, ..came[j] })
                };
            assert(front[t] == turns[t]);
            assert(is_looked_back_at(came, turns, j, t, k));
        }
    }
}

/// A record comes into the store for one of three reasons, and is marked with it: a
/// trigger looked back at it; it fell into the aftermath of a trigger; or nothing of the
/// kind concerned it and the filters wanted it, and then it names those that did. But for
/// that mark it is stored as it came.
pub proof fn records_are_stored_for_a_reason(
    p: PipelineView,
    e: LogEntryView,
    turns: Seq<SessionTurn>,
    decision: FilterDecision,
    x: LogEntryView,
)
    requires
        sound(p),
        p.seq < u64::MAX - 1,
        p.pre_buffer.entries.len() <= p.pre_buffer.size,
        processed(p, e, turns, decision).store.entries.contains(x),
        !p.store.entries.contains(x),
    ensures
        ({
            let own = LogEntryView { seq: (p.seq + 1) as u64, ..e };
            let came = p.pre_buffer.entries.push(own);
            &&& x.source == LogSource::PreTrigger ==> exists|j: int, t: int, k: int|
                {
                    &&& 0 <= j < came.len()
                    &&& #[trigger] is_looked_back_at(came, turns, j, t, k)
                    &&& x == (LogEntryView { source: LogSource::PreTrigger, ..came[j] })
                }
            &&& x.source == LogSource::PostTrigger ==> {
                &&& x == (LogEntryView { source: LogSource::PostTrigger, ..own })
                &&& exists|t: int|
                    0 <= t < turns.len() && ((#[trigger] turns[t]).in_post_window
                        || turns[t].matches@.len() > 0)
            }
            &&& x.source == LogSource::Filter ==> {
                &&& decision.should_store
                &&& x == (LogEntryView {
                    source: LogSource::Filter,
                    matched_filters: text_views(decision.matched@),
                    ..own
                })
                &&& forall|t: int|
                    0 <= t < turns.len() ==> !(#[trigger] turns[t]).in_post_window
                        && turns[t].matches@.len() == 0
            }
        }),
{
    let (start, own) = admitted(p, e);
    lemma_admitted_sound(p, e);
    let came = p.pre_buffer.entries.push(own);
    let buffer = start.pre_buffer.entries;
    assert(came.last() == own);
    assert(buffer =~= came.skip(came.len() - buffer.len()));
    lemma_turns_store_nothing_else(start, came, turns, x);
    lemma_turns_keep_sound(start, own, turns);
    let mid = after_turns(start, own, turns);
    lemma_settled_records(mid, own, in_aftermath(turns), decision, x, 0);
    if x.source == LogSource::Filter && !in_aftermath(turns) {
        assert forall|t: int| 0 <= t < turns.len() implies !(#[trigger] turns[t]).in_post_window
            && turns[t].matches@.len() == 0 by {
            assert(!(turns[t].in_post_window || fires(turns[t])));
        }
    }
}

/// A record on which a trigger fires is stored as what came before the trigger, and not
/// as its aftermath, as long as the store has room for it.
pub proof fn triggering_records_are_marked_as_such(
    p: PipelineView,
    e: LogEntryView,
    turns: Seq<SessionTurn>,
    decision: FilterDecision,
    t: int,
)
    requires
        sound(p),
        p.seq < u64::MAX - 1,
        0 <= t < turns.len(),
        !turns[t].in_post_window,
        turns[t].matches@.len() > 0,
        forall|i: int| 0 <= i < p.store.entries.len() ==> (#[trigger] p.store.entries[i]).seq <= p.seq,
    ensures
        ({
            let own = LogEntryView { seq: (p.seq + 1) as u64, ..e };
            let store = processed(p, e, turns, decision).store;
            store.entries.contains(LogEntryView { source: LogSource::PreTrigger, ..own })
                || own.seq < store.lost_below
        }),
{
    let (start, own) = admitted(p, e);
    lemma_admitted_sound(p, e);
    let x = LogEntryView { source: LogSource::PreTrigger, ..own };
    lemma_told_once(start, own, turns, t);
    lemma_turns_keep_sound(start, own, turns);
    lemma_settled_records(
        after_turns(start, own, turns),
        own,
        in_aftermath(turns),
        decision,
        x,
        own.seq,
    );
}

proof fn lemma_told_once(p: PipelineView, e: LogEntryView, turns: Seq<SessionTurn>, t: int)
    requires
        sound(p),
        e.seq < u64::MAX,
        !p.store.has_seq(e.seq),
        0 <= t < turns.len(),
        fires(turns[t]),
    ensures
        holds_or_lost(
            after_turns(p, e, turns).store,
            LogEntryView { source: LogSource::PreTrigger, ..e },
        ),
    decreases turns.len(),
{
    let x = LogEntryView { source: LogSource::PreTrigger, ..e };
    let front = turns.drop_last();
    let end = turns.len() - 1;
    lemma_turns_keep_sound(p, e, front);
    let mid = after_turns(p, e, front);
    if exists|i: int| 0 <= i < front.len() && fires(#[trigger] front[i]) {
        let i = choose|i: int| 0 <= i < front.len() && fires(#[trigger] front[i]);
        lemma_told_once(p, e, front, i);
        if fires(turns.last()) {
            let n = widest(pre_windows(turns.last().matches@)) as nat;
            lemma_after_trigger(mid.store, mid.pre_buffer.entries, e, n, x, e.seq, 0);
        }
    } else {
        if t < end {
            assert(fires(front[t]));
        }
        lemma_unfired(p, e, front);
        let n = widest(pre_windows(turns.last().matches@)) as nat;
        lemma_after_trigger(mid.store, mid.pre_buffer.entries, e, n, x, e.seq, 0);
    }
}

proof fn lemma_unfired(p: PipelineView, e: LogEntryView, turns: Seq<SessionTurn>)
    requires
        forall|i: int| 0 <= i < turns.len() ==> !fires(#[trigger] turns[i]),
    ensures
        after_turns(p, e, turns) == p,
    decreases turns.len(),
{
    if turns.len() > 0 {
        let front = turns.drop_last();
        assert forall|i: int| 0 <= i < front.len() implies !fires(#[trigger] front[i]) by {
            assert(front[i] == turns[i]);
        }
        lemma_unfired(p, e, front);
        assert(!fires(turns[turns.len() - 1]));
    }
}

/// Whether an event tells a session of a match: under the session's own name and the
/// trigger's own number, with the trigger's text and settings, and about the record.
pub open spec fn tells_of(
    event: PipelineEvent,
    e: LogEntryView,
    turn: SessionTurn,
    k: int,
) -> bool {
    &&& event.session_id@ == turn.session_id@
    &&& event.trigger_id == turn.matches@[k].id
    &&& optional_text(event.trigger_description) == optional_text(turn.matches@[k].description)
    &&& event.filter_string@ == turn.matches@[k].filter_string@
    &&& event.pre_window == turn.matches@[k].pre_window
    &&& event.post_window_size == turn.matches@[k].post_window
    &&& event.notify_context == turn.matches@[k].notify_context
    &&& event.oneshot == turn.matches@[k].oneshot
    &&& event.matched_entry@ == e
    &&& event.trace_id == e.trace_id
    &&& event.pre_trigger_flushed <= turn.matches@[k].pre_window
    &&& event.context_before@.len() <= turn.matches@[k].pre_window + 1
    &&& event.context_before@.len() > 0 ==> event.context_before@.last().seq == e.seq
}

proof fn lemma_event_tells(
    event: PipelineEvent,
    store: StoreView,
    at_hand: nat,
    e: LogEntryView,
    turn: SessionTurn,
    k: int,
)
    requires
        is_event_of(event, store, at_hand, e, turn, turn.matches@[k]),
    ensures
        tells_of(event, e, turn, k),
{
    let before = turn.matches@[k].pre_window as nat;
    let c = entry_list(event.context_before@);
    assert(c.len() == event.context_before@.len());
    if store.has_seq(e.seq) {
        let some = choose|i: int|
            0 <= i < store.entries.len() && (#[trigger] store.entries[i]).seq == e.seq;
        let i = lemma_first_of(store, e.seq, some);
        contexts_surround_their_record(store, e.seq, i, before, 0);
        assert(c.last() == event.context_before@.last()@);
    }
}

proof fn lemma_first_of(store: StoreView, seq: u64, at: int) -> (i: int)
    requires
        0 <= at < store.entries.len(),
        store.entries[at].seq == seq,
    ensures
        0 <= i <= at,
        store.entries[i].seq == seq,
        forall|k: int| 0 <= k < i ==> (#[trigger] store.entries[k]).seq != seq,
    decreases at,
{
    if exists|k: int| 0 <= k < at && (#[trigger] store.entries[k]).seq == seq {
        let k = choose|k: int| 0 <= k < at && (#[trigger] store.entries[k]).seq == seq;
        lemma_first_of(store, seq, k)
    } else {
        at
    }
}

/// Every match of a session outside its post-trigger window is told, to that session.
pub proof fn every_match_is_told(
    events: Seq<PipelineEvent>,
    p: PipelineView,
    e: LogEntryView,
    turns: Seq<SessionTurn>,
    t: int,
    k: int,
)
    requires
        events_match(events, p, e, turns),
        0 <= t < turns.len(),
        !turns[t].in_post_window,
        0 <= k < turns[t].matches@.len(),
    ensures
        exists|i: int| 0 <= i < events.len() && tells_of(#[trigger] events[i], e, turns[t], k),
{
    lemma_event_count_bound(turns, t);
    let i = event_count(turns.take(t)) + k;
    lemma_event_tells(
        events[i],
        after_turn(after_turns(p, e, turns.take(t)), e, turns[t]).store,
        after_turns(p, e, turns.take(t)).pre_buffer.entries.len(),
        e,
        turns[t],
        k,
    );
}

/// Nothing else is told: every event is of a match of a session outside its
/// post-trigger window.
pub proof fn only_matches_are_told(
    events: Seq<PipelineEvent>,
    p: PipelineView,
    e: LogEntryView,
    turns: Seq<SessionTurn>,
    i: int,
)
    requires
        events_match(events, p, e, turns),
        0 <= i < events.len(),
    ensures
        exists|t: int, k: int|
            {
                &&& 0 <= t < turns.len()
                &&& !turns[t].in_post_window
                &&& 0 <= k < turns[t].matches@.len()
                &&& #[trigger] tells_of(events[i], e, turns[t], k)
            },
{
    let (t, k) = lemma_event_place(turns, i);
    lemma_event_tells(
        events[event_count(turns.take(t)) + k],
        after_turn(after_turns(p, e, turns.take(t)), e, turns[t]).store,
        after_turns(p, e, turns.take(t)).pre_buffer.entries.len(),
        e,
        turns[t],
        k,
    );
}

proof fn lemma_event_place(turns: Seq<SessionTurn>, i: int) -> (r: (int, int))
    requires
        0 <= i < event_count(turns),
    ensures
        0 <= r.0 < turns.len(),
        fires(turns[r.0]),
        0 <= r.1 < turns[r.0].matches@.len(),
        i == event_count(turns.take(r.0)) + r.1,
    decreases turns.len(),
{
    let front = turns.drop_last();
    if i < event_count(front) {
        let r = lemma_event_place(front, i);
        assert(front.take(r.0) =~= turns.take(r.0));
        assert(front[r.0] == turns[r.0]);
        r
    } else {
        let t = turns.len() - 1;
        assert(turns.take(t) =~= front);
        (t, i - event_count(front))
    }
}

/// A session outside its post-trigger window is given a window for its matches, as wide
/// as the widest of them, and a session inside one or without a match is given none.
pub proof fn windows_open_for_matches(turn: SessionTurn)
    ensures
        ({
            let opened = opened_windows(seq![turn]);
            &&& turn.in_post_window || turn.matches@.len() == 0 ==> opened.len() == 0
            &&& !turn.in_post_window && turn.matches@.len() > 0 ==> {
                &&& opened.len() == 1
                &&& opened[0].session_id == turn.session_id@
                &&& forall|k: int|
                    0 <= k < turn.matches@.len() ==> (#[trigger] turn.matches@[k]).post_window
                        <= opened[0].post_window
                &&& exists|k: int|
                    0 <= k < turn.matches@.len() && (#[trigger] turn.matches@[k]).post_window
                        == opened[0].post_window
            }
        }),
{
    reveal_with_fuel(opened_windows, 2);
    assert(seq![turn].drop_last() =~= seq![]);
    let windows = post_windows(turn.matches@);
    assert forall|k: int| 0 <= k < turn.matches@.len() implies (#[trigger] turn.matches@[k]).post_window
        <= widest(windows) by {
        the_widest_window_is_one_of_them(windows, k);
        assert(windows[k] == turn.matches@[k].post_window);
    }
    the_widest_window_is_one_of_them(windows, 0);
    if turn.matches@.len() > 0 {
        let k = choose|k: int| 0 <= k < windows.len() && windows[k] == widest(windows);
        assert(turn.matches@[k].post_window == widest(windows));
    }
}

/// Windows are opened session by session, in their order, and so are triggers removed.
pub proof fn turns_are_taken_in_order(a: Seq<SessionTurn>, b: Seq<SessionTurn>)
    ensures
        opened_windows(a + b) == opened_windows(a) + opened_windows(b),
        fired_oneshots(a + b) == fired_oneshots(a) + fired_oneshots(b),
    decreases b.len(),
{
    if b.len() == 0 {
        assert(a + b =~= a);
        assert(opened_windows(a) + opened_windows(b) =~= opened_windows(a));
        assert(fired_oneshots(a) + fired_oneshots(b) =~= fired_oneshots(a));
    } else {
        let front = b.drop_last();
        assert((a + b).drop_last() =~= a + front);
        turns_are_taken_in_order(a, front);
        if fires(b.last()) {
            let w = PostWindowView {
                session_id: b.last().session_id@,
                post_window: widest(post_windows(b.last().matches@)),
            };
            assert(opened_windows(a) + opened_windows(front).push(w) =~= (opened_windows(a)
                + opened_windows(front)).push(w));
            let own = turn_oneshots(b.last(), b.last().matches@.len() as int);
            assert(fired_oneshots(a) + (fired_oneshots(front) + own) =~= (fired_oneshots(a)
                + fired_oneshots(front)) + own);
        }
    }
}

/// A oneshot trigger is to be removed exactly where it is among the matches of a session
/// outside its post-trigger window, and under that session's name.
pub proof fn spent_triggers_are_removed(turns: Seq<SessionTurn>, session: Seq<char>, id: u32)
    ensures
        fired_oneshots(turns).contains(FiredOneshotView { session_id: session, trigger_id: id })
            <==> exists|t: int, k: int|
            {
                &&& 0 <= t < turns.len()
                &&& !turns[t].in_post_window
                &&& turns[t].session_id@ == session
                &&& 0 <= k < turns[t].matches@.len()
                &&& (#[trigger] turns[t].matches@[k]).oneshot
                &&& turns[t].matches@[k].id == id
            },
{
    let f = FiredOneshotView { session_id: session, trigger_id: id };
    lemma_fired_oneshots(turns, f);
    if fired_oneshots(turns).contains(f) {
        let (t, k) = choose|t: int, k: int|
            0 <= t < turns.len() && #[trigger] is_oneshot_of(turns[t], k, f);
        assert(turns[t].matches@[k].oneshot);
    }
    if exists|t: int, k: int|
        {
            &&& 0 <= t < turns.len()
            &&& !turns[t].in_post_window
            &&& turns[t].session_id@ == session
            &&& 0 <= k < turns[t].matches@.len()
            &&& (#[trigger] turns[t].matches@[k]).oneshot
            &&& turns[t].matches@[k].id == id
        } {
        let (t, k) = choose|t: int, k: int|
            {
                &&& 0 <= t < turns.len()
                &&& !turns[t].in_post_window
                &&& turns[t].session_id@ == session
                &&& 0 <= k < turns[t].matches@.len()
                &&& (#[trigger] turns[t].matches@[k]).oneshot
                &&& turns[t].matches@[k].id == id
            };
        assert(is_oneshot_of(turns[t], k, f));
    }
}

/// Processing numbers a record with the next seq, puts it last into the pre-buffer, and
/// changes nothing else of it.
pub proof fn records_are_numbered_on(p: PipelineView, e: LogEntryView)
    requires
        p.seq < u64::MAX,
        p.pre_buffer.size > 0,
    ensures
        ({
            let (after, own) = admitted(p, e);
            &&& own.seq == p.seq + 1
            &&& after.seq == own.seq
            &&& own == (LogEntryView { seq: own.seq, ..e })
            &&& after.pre_buffer.entries.len() > 0
            &&& after.pre_buffer.entries.last() == own
            &&& after.store == p.store
            &&& after.epochs == p.epochs
        }),
{
}

} // verus!
