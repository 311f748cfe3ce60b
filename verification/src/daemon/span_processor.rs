//! Processing one span against the sessions of its domain.
//!
//! A span is stored whatever the sessions say of it; which of their triggers
//! fire on it is decided here.
use crate::filter::parser::{
    filter_of, has_span_qualifier, is_span_filter, parse_filter, qualifiers_in, reading_views,
    DurationReading,
};
use crate::span::types::{
    span_views, SpanEntry, SpanEntryView, SpanStatus, TraceSummary, TraceSummaryView,
};
use crate::text;
use vstd::prelude::*;

verus! {

broadcast use vstd::string::group_string_axioms;

/// A trigger of a session, with what the matcher says of the span at hand.
#[derive(Debug)]
pub struct SpanTrigger {
    pub id: u32,
    pub filter_string: String,
    /// How the duration literals of the filter read as numbers.
    pub readings: Vec<DurationReading>,
    /// Whether the filter, where it is one on spans, matches the span.
    pub matches: bool,
    pub oneshot: bool,
}

/// A session bound to the domain, with its triggers.
#[derive(Debug)]
pub struct SpanSession {
    pub session_id: String,
    pub triggers: Vec<SpanTrigger>,
}

/// A trigger that fired on a span.
#[derive(Debug, PartialEq, Eq)]
pub struct SpanFire {
    pub session_id: String,
    pub trigger_id: u32,
    /// Whether the trigger is to be removed: it was to fire once.
    pub remove: bool,
}

/// What a [`SpanFire`] says.
#[verifier::ext_equal]
pub struct SpanFireView {
    pub session_id: Seq<char>,
    pub trigger_id: u32,
    pub remove: bool,
}

impl View for SpanFire {
    type V = SpanFireView;

    open spec fn view(&self) -> SpanFireView {
        SpanFireView {
            session_id: self.session_id@,
            trigger_id: self.trigger_id,
            remove: self.remove,
        }
    }
}

/// The views of a list of firings.
pub open spec fn fire_views(fires: Seq<SpanFire>) -> Seq<SpanFireView> {
    fires.map_values(|f: SpanFire| f@)
}

/// Whether a filter text is a filter on spans. One that does not parse is not.
pub open spec fn filters_spans(filter: Seq<char>, readings: Seq<DurationReading>) -> bool {
    match filter_of(filter, reading_views(readings)) {
        Ok(f) => has_span_qualifier(qualifiers_in(f)),
        Err(_) => false,
    }
}

/// Whether a filter text is a filter on spans.
pub fn is_span_filter_str(filter: &str, readings: &Vec<DurationReading>) -> (r: bool)
    ensures
        r == filters_spans(filter@, readings@),
{
    match parse_filter(filter, readings) {
        Ok(f) => is_span_filter(&f),
        Err(_) => false,
    }
}

/// Whether a trigger fires on the span at hand.
pub open spec fn fires_on(t: SpanTrigger) -> bool {
    filters_spans(t.filter_string@, t.readings@) && t.matches
}

/// The firings of the first `n` triggers of a session.
pub open spec fn session_fires(s: SpanSession, n: int) -> Seq<SpanFireView>
    decreases n,
{
    if n <= 0 {
        seq![]
    } else {
        let t = s.triggers@[n - 1];
        if fires_on(t) {
            session_fires(s, n - 1).push(
                SpanFireView { session_id: s.session_id@, trigger_id: t.id, remove: t.oneshot },
            )
        } else {
            session_fires(s, n - 1)
        }
    }
}

/// The firings of a list of sessions.
pub open spec fn all_fires(sessions: Seq<SpanSession>) -> Seq<SpanFireView>
    decreases sessions.len(),
{
    if sessions.len() == 0 {
        seq![]
    } else {
        all_fires(sessions.drop_last()) + session_fires(
            sessions.last(),
            sessions.last().triggers@.len() as int,
        )
    }
}

/// Whether a firing removes its trigger.
pub open spec fn removes_any(fires: Seq<SpanFireView>) -> bool {
    exists|i: int| 0 <= i < fires.len() && (#[trigger] fires[i]).remove
}

fn fire_session(out: &mut Vec<SpanFire>, s: &SpanSession)
    ensures
        fire_views(final(out)@) == fire_views(old(out)@) + session_fires(
            *s,
            s.triggers@.len() as int,
        ),
{
    let ghost start = fire_views(out@);
    let mut i: usize = 0;
    proof {
        assert(start + session_fires(*s, 0) =~= start);
    }
    while i < s.triggers.len()
        invariant
            i <= s.triggers@.len(),
            fire_views(out@) == start + session_fires(*s, i as int),
        decreases s.triggers@.len() - i,
    {
        let t = &s.triggers[i];
        let ghost before = out@;
        if is_span_filter_str(&t.filter_string, &t.readings) && t.matches {
            let fire = SpanFire {
                session_id: s.session_id.clone(),
                trigger_id: t.id,
                remove: t.oneshot,
            };
            let ghost fv = fire@;
            out.push(fire);
            proof {
                assert(fire_views(out@) =~= fire_views(before).push(fv));
                assert(start + session_fires(*s, i as int).push(fv) =~= (start + session_fires(
                    *s,
                    i as int,
                )).push(fv));
            }
        }
        i += 1;
    }
}

/// The triggers that fire on a span, in the order of the sessions and of their
/// triggers, and whether the pre-buffer is to be sized anew: its size follows
/// from the triggers, so that it is where one is removed.
pub fn process_span_for_domain(sessions: &Vec<SpanSession>) -> (r: (Vec<SpanFire>, bool))
    ensures
        fire_views(r.0@) == all_fires(sessions@),
        r.1 == removes_any(all_fires(sessions@)),
{
    let mut out: Vec<SpanFire> = Vec::new();
    let mut i: usize = 0;
    proof {
        assert(sessions@.take(0) =~= seq![]);
        assert(fire_views(out@) =~= seq![]);
    }
    while i < sessions.len()
        invariant
            i <= sessions@.len(),
            fire_views(out@) == all_fires(sessions@.take(i as int)),
        decreases sessions@.len() - i,
    {
        proof {
            assert(sessions@.take(i + 1).drop_last() =~= sessions@.take(i as int));
            assert(sessions@.take(i + 1).last() == sessions@[i as int]);
        }
        fire_session(&mut out, &sessions[i]);
        i += 1;
    }
    proof {
        assert(sessions@.take(sessions@.len() as int) =~= sessions@);
    }
    let ghost fires = fire_views(out@);
    let mut removed = false;
    let mut k: usize = 0;
    while k < out.len()
        invariant
            k <= out@.len(),
            fires == fire_views(out@),
            removed == (exists|j: int| 0 <= j < k && (#[trigger] fires[j]).remove),
        decreases out@.len() - k,
    {
        proof {
            assert(fires[k as int] == out@[k as int]@);
        }
        if out[k].remove {
            removed = true;
        }
        k += 1;
    }
    (out, removed)
}

/// What fires of a session is exactly its triggers whose filter is on spans and
/// matched: every firing is of such a trigger, and every such trigger fires. A
/// trigger on logs never fires on a span.
pub proof fn only_span_triggers_fire(s: SpanSession, n: int)
    requires
        0 <= n <= s.triggers@.len(),
    ensures
        forall|k: int|
            0 <= k < session_fires(s, n).len() ==> is_some_firing(
                #[trigger] session_fires(s, n)[k],
                s,
                n,
            ),
        forall|i: int|
            0 <= i < n && fires_on(#[trigger] s.triggers@[i]) ==> has_firing_of(
                session_fires(s, n),
                s,
                i,
            ),
    decreases n,
{
    if n > 0 {
        only_span_triggers_fire(s, n - 1);
        let before = session_fires(s, n - 1);
        let fires = session_fires(s, n);
        assert forall|k: int| 0 <= k < fires.len() implies is_some_firing(
            #[trigger] fires[k],
            s,
            n,
        ) by {
            if k < before.len() {
                assert(fires[k] == before[k]);
                assert(is_some_firing(before[k], s, n - 1));
            } else {
                assert(is_firing_of(fires[k], s, n - 1));
            }
        }
        assert forall|i: int| 0 <= i < n && fires_on(#[trigger] s.triggers@[i]) implies has_firing_of(
            fires,
            s,
            i,
        ) by {
            if i < n - 1 {
                let k = choose|k: int|
                    0 <= k < before.len() && is_firing_of(#[trigger] before[k], s, i);
                assert(fires[k] == before[k]);
            } else {
                assert(is_firing_of(fires[before.len() as int], s, i));
            }
        }
    }
}

/// Whether a firing is of one of the first `n` triggers of a session.
pub open spec fn is_some_firing(fire: SpanFireView, s: SpanSession, n: int) -> bool {
    exists|i: int| 0 <= i < n && #[trigger] is_firing_of(fire, s, i)
}

/// Whether a trigger of a session is among those that fired.
pub open spec fn has_firing_of(fires: Seq<SpanFireView>, s: SpanSession, i: int) -> bool {
    exists|k: int| 0 <= k < fires.len() && is_firing_of(#[trigger] fires[k], s, i)
}

/// Whether a firing is of a trigger of a session that fires.
pub open spec fn is_firing_of(fire: SpanFireView, s: SpanSession, i: int) -> bool {
    &&& fires_on(s.triggers@[i])
    &&& fire.session_id == s.session_id@
    &&& fire.trigger_id == s.triggers@[i].id
    &&& fire.remove == s.triggers@[i].oneshot
}

/// Where the root of a trace stands: the first span without a parent, or the
/// length where it has not arrived.
pub open spec fn root_at(spans: Seq<SpanEntryView>) -> int
    decreases spans.len(),
{
    if spans.len() == 0 {
        0
    } else if spans[0].parent_span_id is None {
        0
    } else {
        1 + root_at(spans.skip(1))
    }
}

/// Whether a span of a trace failed.
pub open spec fn any_failed(spans: Seq<SpanEntryView>) -> bool {
    exists|i: int| 0 <= i < spans.len() && (#[trigger] spans[i]).status is Error
}

/// What is told of a trace, of which these spans have arrived. Nothing is told
/// of a trace without spans.
pub open spec fn summary_of(trace_id: u128, spans: Seq<SpanEntryView>) -> Option<TraceSummaryView> {
    if spans.len() == 0 {
        None
    } else {
        let at = root_at(spans);
        let complete = at < spans.len();
        Some(
            TraceSummaryView {
                trace_id,
                root_span_name: if complete {
                    spans[at].name
                } else {
                    "[incomplete]"@
                },
                service_name: if complete {
                    spans[at].service_name
                } else {
                    "unknown"@
                },
                start_time: if complete {
                    spans[at].start_time
                } else {
                    spans[0].start_time
                },
                root_end_time: if complete {
                    Some(spans[at].end_time)
                } else {
                    None
                },
                span_count: spans.len() as u32,
                has_errors: any_failed(spans),
                linked_log_count: 0,
            },
        )
    }
}

/// What is told of a trace, of which these spans have arrived.
pub fn build_trace_summary(trace_id: u128, spans: &Vec<SpanEntry>) -> (r: Option<TraceSummary>)
    ensures
        match r {
            Some(t) => summary_of(trace_id, span_views(spans@)) == Some(t@),
            None => summary_of(trace_id, span_views(spans@)) is None,
        },
{
    if spans.len() == 0 {
        return None;
    }
    let ghost all = span_views(spans@);
    let mut at: usize = 0;
    proof {
        assert(all.skip(0) =~= all);
    }
    while at < spans.len() && spans[at].parent_span_id.is_some()
        invariant
            all == span_views(spans@),
            at <= spans@.len(),
            root_at(all) == at + root_at(all.skip(at as int)),
        decreases spans@.len() - at,
    {
        proof {
            assert(all[at as int] == spans@[at as int]@);
            assert(all.skip(at as int)[0] == all[at as int]);
            assert(all.skip(at as int).skip(1) =~= all.skip(at + 1));
        }
        at += 1;
    }
    proof {
        if at < spans@.len() {
            assert(all[at as int] == spans@[at as int]@);
            assert(all.skip(at as int)[0] == all[at as int]);
        } else {
            assert(all.skip(at as int) =~= seq![]);
        }
        assert(root_at(all) == at);
        assert(all[0] == spans@[0]@);
    }
    let mut failed = false;
    let mut i: usize = 0;
    while i < spans.len()
        invariant
            all == span_views(spans@),
            i <= spans@.len(),
            failed == (exists|k: int| 0 <= k < i && (#[trigger] all[k]).status is Error),
        decreases spans@.len() - i,
    {
        proof {
            assert(all[i as int] == spans@[i as int]@);
        }
        match &spans[i].status {
            SpanStatus::Error(_) => {
                failed = true;
            },
            _ => {},
        }
        i += 1;
    }
    let complete = at < spans.len();
    let root = if complete {
        &spans[at]
    } else {
        &spans[0]
    };
    Some(
        TraceSummary {
            trace_id,
            root_span_name: if complete {
                root.name.clone()
            } else {
                text::owned("[incomplete]")
            },
            service_name: if complete {
                root.service_name.clone()
            } else {
                text::owned("unknown")
            },
            start_time: root.start_time,
            root_end_time: if complete {
                Some(root.end_time)
            } else {
                None
            },
            span_count: #[verifier::truncate]
            (spans.len() as u32),
            has_errors: failed,
            linked_log_count: 0,
        },
    )
}

/// The firings of sessions come session by session, in their order.
pub proof fn firings_come_in_order(a: Seq<SpanSession>, b: Seq<SpanSession>)
    ensures
        all_fires(a + b) == all_fires(a) + all_fires(b),
    decreases b.len(),
{
    if b.len() == 0 {
        assert(a + b =~= a);
        assert(all_fires(a) + all_fires(b) =~= all_fires(a));
    } else {
        let front = b.drop_last();
        assert((a + b).drop_last() =~= a + front);
        firings_come_in_order(a, front);
        let own = session_fires(b.last(), b.last().triggers@.len() as int);
        assert(all_fires(a) + (all_fires(front) + own) =~= (all_fires(a) + all_fires(front)) + own);
    }
}

/// A trigger of a session fires on a span exactly where its filter reads as one that only
/// spans can meet and the span meets it, and then under the session's name and its own
/// number; one that was to fire once is to be removed.
pub proof fn a_trigger_fires_for_its_session(s: SpanSession, t: SpanTrigger)
    requires
        s.triggers@ == seq![t],
    ensures
        ({
            let fires = all_fires(seq![s]);
            let f = filter_of(t.filter_string@, reading_views(t.readings@));
            let on_spans = f is Ok && has_span_qualifier(qualifiers_in(f->Ok_0));
            &&& t.matches && on_spans ==> fires == seq![
                SpanFireView { session_id: s.session_id@, trigger_id: t.id, remove: t.oneshot },
            ]
            &&& !(t.matches && on_spans) ==> fires.len() == 0
            &&& removes_any(fires) <==> t.matches && on_spans && t.oneshot
        }),
{
    reveal_with_fuel(all_fires, 2);
    reveal_with_fuel(session_fires, 2);
    assert(seq![s].drop_last() =~= seq![]);
    let fires = all_fires(seq![s]);
    if fires_on(t) {
        assert(fires =~= seq![
            SpanFireView { session_id: s.session_id@, trigger_id: t.id, remove: t.oneshot },
        ]);
        assert(fires[0].remove == t.oneshot);
    } else {
        assert(fires =~= seq![]);
    }
}

/// A trace is told by its root, the first span without a parent: its name, its service,
/// and when it began and ended. A trace whose root has not arrived is told as incomplete,
/// from when its first span began, and has no end.
pub proof fn traces_are_told_by_their_root(trace_id: u128, spans: Seq<SpanEntryView>, i: int)
    requires
        spans.len() > 0,
        0 <= i <= spans.len(),
        i < spans.len() ==> spans[i].parent_span_id is None,
        forall|k: int| 0 <= k < i ==> (#[trigger] spans[k]).parent_span_id is Some,
    ensures
        summary_of(trace_id, spans) matches Some(t) && {
            &&& t.trace_id == trace_id
            &&& i < spans.len() ==> {
                &&& t.root_span_name == spans[i].name
                &&& t.service_name == spans[i].service_name
                &&& t.start_time == spans[i].start_time
                &&& t.root_end_time == Some(spans[i].end_time)
            }
            &&& i == spans.len() ==> {
                &&& t.root_span_name == "[incomplete]"@
                &&& t.service_name == "unknown"@
                &&& t.start_time == spans[0].start_time
                &&& t.root_end_time is None
            }
            &&& spans.len() <= u32::MAX ==> t.span_count == spans.len()
            &&& t.has_errors <==> exists|k: int|
                0 <= k < spans.len() && (#[trigger] spans[k]).status is Error
            &&& t.linked_log_count == 0
        },
        summary_of(trace_id, seq![]) is None,
{
    lemma_root_at(spans, i);
}

proof fn lemma_root_at(spans: Seq<SpanEntryView>, i: int)
    requires
        0 <= i <= spans.len(),
        i < spans.len() ==> spans[i].parent_span_id is None,
        forall|k: int| 0 <= k < i ==> (#[trigger] spans[k]).parent_span_id is Some,
    ensures
        root_at(spans) == i,
    decreases spans.len(),
{
    if i > 0 {
        let rest = spans.skip(1);
        assert(spans[0].parent_span_id is Some);
        assert forall|k: int| 0 <= k < i - 1 implies (#[trigger] rest[k]).parent_span_id is Some by {
            assert(rest[k] == spans[k + 1]);
        }
        lemma_root_at(rest, i - 1);
    }
}

} // verus!
