use logmon_core::clock::Timestamp;
use logmon_core::daemon::log_processor::{
    oneshots_fired, post_window_of, post_windows_opened, process_entry_for_domain, resync_due,
    sync_pre_buffer_size_for_domain, FilterDecision, FiredOneshot, PostWindow, SessionTurn,
    TriggerMatch,
};
use logmon_core::engine::epoch::FilterPolicy;
use logmon_core::engine::pipeline::LogPipeline;
use logmon_core::engine::pre_buffer::PreTriggerBuffer;
use logmon_core::gelf::message::{Level, LogEntry, LogSource};
use logmon_core::store::memory::InMemoryStore;
use logmon_core::store::selection::{count_matching, pick};

fn now() -> Timestamp {
    Timestamp::new(1_785_000_000, 0).unwrap()
}

fn entry(seq: u64, trace_id: Option<u128>) -> LogEntry {
    let mut e = LogEntry::synthetic(Level::Info, "m", now());
    e.seq = seq;
    e.trace_id = trace_id;
    e
}

fn seqs(entries: &[LogEntry]) -> Vec<u64> {
    entries.iter().map(|e| e.seq).collect()
}

fn filled(capacity: usize, upto: u64) -> LogPipeline {
    let mut p = LogPipeline::new(capacity);
    for _ in 0..upto {
        let seq = p.assign_seq();
        p.append_to_store(entry(seq, None));
    }
    p
}

#[test]
fn a_full_store_evicts_the_oldest_and_says_what_it_lost() {
    let mut store = InMemoryStore::new(3);
    for seq in 1..=5 {
        store.append(entry(seq, None));
    }
    assert_eq!(seqs(store.entries()), vec![3, 4, 5]);
    assert_eq!(store.lost_below(), 3);
    assert_eq!((store.oldest_seq(), store.newest_seq()), (Some(3), Some(5)));
    assert!(store.contains_seq(4));
    assert!(!store.contains_seq(2));
}

#[test]
fn clearing_counts_what_goes() {
    let mut p = filled(10, 4);
    assert_eq!(p.clear_logs(), 4);
    assert_eq!(p.store_len(), 0);
    assert_eq!(p.oldest_log_seq(), None);
    assert_eq!(p.current_seq(), 4, "clearing gives no seq back");
    assert_eq!(p.lost_below(), 5, "all up to the fourth is gone");
    assert_eq!(p.clear_logs(), 0);
    assert_eq!(p.lost_below(), 5, "and stays gone");
}

#[test]
fn context_surrounds_a_seq() {
    let p = filled(10, 7);
    assert_eq!(seqs(&p.context_by_seq(4, 2, 1)), vec![2, 3, 4, 5]);
    assert_eq!(seqs(&p.context_by_seq(1, 5, 0)), vec![1]);
    assert!(p.context_by_seq(99, 1, 1).is_empty());
}

#[test]
fn records_are_found_by_trace() {
    let mut p = LogPipeline::new(10);
    p.append_to_store(entry(1, Some(7)));
    p.append_to_store(entry(2, None));
    p.append_to_store(entry(3, Some(7)));
    assert_eq!(seqs(&p.logs_by_trace_id(7)), vec![1, 3]);
    assert_eq!(p.count_by_trace_id(7), 2);
    assert!(p.logs_by_trace_id(8).is_empty());
}

#[test]
fn a_capped_read_keeps_the_newest_unless_it_reads_on() {
    let matches = vec![true, false, true, true];
    let newest = pick(&matches, 2, false);
    assert_eq!(newest.at, vec![3, 2]);
    assert_eq!(newest.scanned, 2);
    let oldest = pick(&matches, 2, true);
    assert_eq!(oldest.at, vec![0, 2]);
    assert_eq!(oldest.scanned, 3);
    assert_eq!(pick(&matches, 0, true).scanned, 0);
    assert_eq!(count_matching(&matches), 3);
}

#[test]
fn reads_report_the_buffer_they_came_from() {
    let p = filled(3, 5);
    let (logs, stats) = p.recent_logs_with_stats(2, &vec![true, true, true], false);
    assert_eq!(seqs(&logs), vec![5, 4]);
    assert_eq!(stats.buffer_total, 3);
    assert_eq!(stats.buffer_oldest_seq, Some(3));
    assert_eq!(stats.buffer_newest_seq, Some(5));
    assert_eq!(stats.scanned, 2);
    assert_eq!(p.oldest_log_timestamp(), Some(now()));
}

#[test]
fn a_population_is_read_whole() {
    let p = filled(5, 5);
    let (logs, stats) = p.for_each_log(&vec![true, false, true, false, true]);
    assert_eq!(seqs(&logs), vec![1, 3, 5]);
    assert_eq!(stats.scanned, 5);
}

#[test]
fn the_pre_buffer_keeps_the_last_so_many() {
    let mut b = PreTriggerBuffer::new(3);
    for seq in 1..=5 {
        b.append(entry(seq, if seq == 4 { Some(9) } else { None }));
    }
    assert_eq!(seqs(&b.flush(2)), vec![4, 5]);
    assert_eq!(seqs(&b.flush(10)), vec![3, 4, 5]);
    assert_eq!(seqs(&b.entries_by_trace_id(9)), vec![4]);
    b.resize(1);
    assert_eq!(seqs(&b.flush(10)), vec![5]);
    b.resize(0);
    b.append(entry(6, None));
    assert!(b.flush(10).is_empty());
}

#[test]
fn the_pre_buffer_is_as_long_as_the_longest_window() {
    let mut p = LogPipeline::new(10);
    sync_pre_buffer_size_for_domain(&mut p, &vec![2, 4, 3]);
    for seq in 1..=6 {
        p.pre_buffer_append(entry(seq, None));
    }
    assert_eq!(seqs(&p.pre_buffer_copy(10)), vec![3, 4, 5, 6]);
    sync_pre_buffer_size_for_domain(&mut p, &Vec::new());
    assert!(p.pre_buffer_copy(10).is_empty());
}

fn trigger(id: u32, pre: u32, post: u32, notify: u32) -> TriggerMatch {
    TriggerMatch {
        id,
        description: Some("d".to_string()),
        filter_string: "l>=ERROR".to_string(),
        pre_window: pre,
        post_window: post,
        notify_context: notify,
        oneshot: false,
    }
}

fn turn(session: &str, in_post_window: bool, matches: Vec<TriggerMatch>) -> SessionTurn {
    SessionTurn {
        session_id: session.to_string(),
        in_post_window,
        matches,
        pre_windows_left: Vec::new(),
    }
}

fn unfiltered(should_store: bool) -> FilterDecision {
    FilterDecision {
        should_store,
        matched: Vec::new(),
        policy: FilterPolicy::new(Vec::new()),
    }
}

#[test]
fn the_longest_window_of_those_that_fired_is_opened() {
    assert_eq!(post_window_of(&vec![trigger(1, 0, 5, 0), trigger(2, 0, 9, 0)]), 9);
    assert_eq!(post_window_of(&Vec::new()), 0);
}

#[test]
fn a_trigger_fires_with_the_context_that_came_before() {
    let mut p = LogPipeline::new(10);
    sync_pre_buffer_size_for_domain(&mut p, &vec![5]);
    for _ in 0..3 {
        let mut e = entry(0, None);
        let events = process_entry_for_domain(
            &mut e,
            &mut p,
            &vec![turn("a", false, Vec::new())],
            &unfiltered(false),
        );
        assert!(events.is_empty());
    }
    assert_eq!(p.store_len(), 0, "nothing asked for these to be stored");

    let mut hit = entry(0, None);
    let events = process_entry_for_domain(
        &mut hit,
        &mut p,
        &vec![turn("a", false, vec![trigger(7, 2, 5, 1)])],
        &unfiltered(false),
    );
    assert_eq!(hit.seq, 4);
    assert_eq!(events.len(), 1);
    let ev = &events[0];
    assert_eq!((ev.session_id.as_str(), ev.trigger_id), ("a", 7));
    assert_eq!(ev.matched_entry.seq, 4);
    assert_eq!(ev.pre_trigger_flushed, 2);
    assert_eq!(ev.context_before.len(), 1);
    assert_eq!(ev.post_window_size, 5);
    let stored = p.stored();
    assert_eq!(seqs(stored), vec![4, 3], "the record itself, then the window up to it");
    assert!(stored.iter().all(|e| e.source == LogSource::PreTrigger));
}

#[test]
fn no_more_is_flushed_than_is_at_hand() {
    let mut p = LogPipeline::new(10);
    sync_pre_buffer_size_for_domain(&mut p, &vec![9]);
    for _ in 0..2 {
        process_entry_for_domain(&mut entry(0, None), &mut p, &Vec::new(), &unfiltered(false));
    }
    assert_eq!(p.pre_buffer_len(), 2);
    let events = process_entry_for_domain(
        &mut entry(0, None),
        &mut p,
        &vec![turn("a", false, vec![trigger(1, 9, 0, 0), trigger(2, 1, 0, 0)])],
        &unfiltered(false),
    );
    let told: Vec<(u32, u32, usize)> =
        events.iter().map(|e| (e.trigger_id, e.pre_window, e.pre_trigger_flushed)).collect();
    assert_eq!(told, vec![(1, 9, 3), (2, 1, 1)]);
    assert_eq!(p.store_len(), 3);
}

fn oneshot(id: u32, pre: u32) -> TriggerMatch {
    TriggerMatch { oneshot: true, ..trigger(id, pre, 0, 0) }
}

#[test]
fn sessions_that_fire_are_given_their_longest_window() {
    let turns = vec![
        turn("quiet", false, Vec::new()),
        turn("a", false, vec![trigger(1, 0, 5, 0), trigger(2, 0, 9, 0)]),
        turn("busy", true, vec![trigger(3, 0, 7, 0)]),
        turn("b", false, vec![trigger(4, 0, 0, 0)]),
    ];
    assert_eq!(
        post_windows_opened(&turns),
        vec![
            PostWindow { session_id: "a".to_string(), post_window: 9 },
            PostWindow { session_id: "b".to_string(), post_window: 0 },
        ]
    );
    assert!(oneshots_fired(&turns).is_empty());
    assert!(!resync_due(&turns));
}

#[test]
fn oneshot_triggers_that_fire_are_to_be_removed() {
    let turns = vec![
        turn("busy", true, vec![oneshot(8, 1)]),
        turn("a", false, vec![oneshot(1, 1), trigger(2, 0, 0, 0), oneshot(3, 1)]),
        turn("b", false, vec![oneshot(1, 1)]),
    ];
    let fired: Vec<FiredOneshot> = vec![("a", 1), ("a", 3), ("b", 1)]
        .into_iter()
        .map(|(s, id)| FiredOneshot { session_id: s.to_string(), trigger_id: id })
        .collect();
    assert_eq!(oneshots_fired(&turns), fired);
    assert!(resync_due(&turns));
    assert!(!resync_due(&vec![turn("busy", true, vec![oneshot(8, 1)])]));
}

#[test]
fn the_pre_buffer_shrinks_once_a_oneshot_trigger_is_gone() {
    let mut p = LogPipeline::new(10);
    sync_pre_buffer_size_for_domain(&mut p, &vec![4, 2]);
    for _ in 0..4 {
        process_entry_for_domain(&mut entry(0, None), &mut p, &Vec::new(), &unfiltered(false));
    }
    let mut lasting = turn("a", false, vec![trigger(1, 4, 0, 0)]);
    lasting.pre_windows_left = vec![2];
    process_entry_for_domain(&mut entry(0, None), &mut p, &vec![lasting], &unfiltered(false));
    assert_eq!(p.pre_buffer_len(), 4, "no oneshot trigger went");
    let mut spent = turn("a", false, vec![oneshot(2, 4)]);
    spent.pre_windows_left = vec![2, 1];
    let events =
        process_entry_for_domain(&mut entry(0, None), &mut p, &vec![spent], &unfiltered(false));
    assert_eq!(events[0].pre_trigger_flushed, 4, "counted before it shrinks");
    assert!(events[0].oneshot);
    assert_eq!(seqs(&p.pre_buffer_copy(10)), vec![5, 6]);
}

#[test]
fn aftermath_is_stored_whatever_the_filters_say() {
    let mut p = LogPipeline::new(10);
    let mut e = entry(0, None);
    let events = process_entry_for_domain(
        &mut e,
        &mut p,
        &vec![turn("a", true, Vec::new())],
        &unfiltered(false),
    );
    assert!(events.is_empty());
    assert_eq!(p.store_len(), 1);
    assert_eq!(p.stored()[0].source, LogSource::PostTrigger);
}

#[test]
fn a_record_that_a_filter_accepts_is_stored_with_its_name() {
    let mut p = LogPipeline::new(10);
    let mut e = entry(0, None);
    process_entry_for_domain(
        &mut e,
        &mut p,
        &vec![turn("a", false, Vec::new())],
        &FilterDecision {
            should_store: true,
            matched: vec!["noise".to_string()],
            policy: FilterPolicy::new(vec!["m=x".to_string()]),
        },
    );
    assert_eq!(p.stored()[0].matched_filters, vec!["noise".to_string()]);
    assert_eq!(p.stored()[0].source, LogSource::Filter);
    assert_eq!(p.epochs().epochs().len(), 1);
}
