use logmon_core::clock::Timestamp;
use logmon_core::daemon::rpc::logs::{
    advance_cursor, export_logs, logs_context, parse_and_resolve_filter, plan_export, plan_recent,
    recent_logs, recent_trace, LogQuery, RecentPlan,
};
use logmon_core::engine::epoch::{EvidenceVerdict, FilterPolicy};
use logmon_core::engine::pipeline::LogPipeline;
use logmon_core::filter::parser::{ParsedFilter, Qualifier, SeqOp};
use logmon_core::gelf::message::{Level, LogEntry};
use logmon_core::json::Json;
use logmon_core::store::bookmarks::BookmarkStore;

fn now() -> Timestamp {
    Timestamp::new(1_785_000_000, 0).unwrap()
}

fn json(text: &str) -> Json {
    Json::parse(text.as_bytes()).unwrap()
}

fn seqs(entries: &[LogEntry]) -> Vec<u64> {
    entries.iter().map(|e| e.seq).collect()
}

fn filled(capacity: usize, upto: u64) -> LogPipeline {
    let mut p = LogPipeline::new(capacity);
    let open = FilterPolicy::new(Vec::new());
    for _ in 0..upto {
        let seq = p.assign_seq();
        let mut e = LogEntry::synthetic(Level::Info, "m", now());
        e.seq = seq;
        e.trace_id = if seq % 2 == 0 { Some(5) } else { None };
        p.observe_policy(seq, &open);
        p.append_to_store(e);
    }
    p
}

fn scan(params: &str, bookmarks: &mut BookmarkStore) -> LogQuery {
    match plan_recent(&json(params), &Vec::new(), bookmarks, "me") {
        Ok(RecentPlan::Scan(q)) => q,
        other => panic!("unexpected: {other:?}"),
    }
}

#[test]
fn a_blank_filter_is_no_filter() {
    let mut b = BookmarkStore::new();
    let q = parse_and_resolve_filter(Some("  "), &Vec::new(), &mut b, "me").unwrap();
    assert!(q.filter.is_none() && q.cursor_commit.is_none());
    let q = parse_and_resolve_filter(None, &Vec::new(), &mut b, "me").unwrap();
    assert!(q.filter.is_none());
}

#[test]
fn a_bookmark_that_is_not_there_is_an_error() {
    let mut b = BookmarkStore::new();
    let e = parse_and_resolve_filter(Some("b>=gone"), &Vec::new(), &mut b, "me").unwrap_err();
    assert!(e.contains("gone"), "{e}");
}

#[test]
fn recent_reads_fifty_unless_told_otherwise() {
    let mut b = BookmarkStore::new();
    assert_eq!(scan("{}", &mut b).count, 50);
    assert_eq!(scan("{\"count\":3}", &mut b).count, 3);
    let e = plan_recent(&json("{\"count\":\"3\"}"), &Vec::new(), &mut b, "me").unwrap_err();
    assert!(e.contains("`count` must be"), "{e}");
}

#[test]
fn a_trace_id_is_read_as_hex_and_takes_no_cursor() {
    let mut b = BookmarkStore::new();
    match plan_recent(&json("{\"trace_id\":\"ff\"}"), &Vec::new(), &mut b, "me") {
        Ok(RecentPlan::Trace(id)) => assert_eq!(id, 255),
        other => panic!("unexpected: {other:?}"),
    }
    let refused = |p: &str, b: &mut BookmarkStore| {
        plan_recent(&json(p), &Vec::new(), b, "me").unwrap_err()
    };
    assert_eq!(refused("{\"trace_id\":\"xyz\"}", &mut b), "invalid trace_id");
    assert_eq!(
        refused("{\"trace_id\":\"ff\",\"filter\":\"c>=mine\"}", &mut b),
        "cursor qualifier not permitted in logs.recent with trace_id"
    );
}

#[test]
fn recent_returns_the_newest_first() {
    let p = filled(10, 6);
    let mut b = BookmarkStore::new();
    let q = scan("{\"count\":2}", &mut b);
    let r = recent_logs(&p, &mut b, q, &vec![true; 6]);
    assert_eq!(seqs(&r.logs), vec![6, 5]);
    assert_eq!(r.cursor_advanced_to, None);
    assert_eq!(r.evicted_before_window, None);
}

#[test]
fn a_cursor_reads_on_without_skipping() {
    let p = filled(10, 5);
    let mut b = BookmarkStore::new();
    let q = scan("{\"count\":2,\"filter\":\"c>=mine\"}", &mut b);
    assert_eq!(b.get("me/mine"), Some(0), "a cursor that is not there starts at the beginning");
    let r = recent_logs(&p, &mut b, q, &vec![true; 5]);
    assert_eq!(seqs(&r.logs), vec![1, 2]);
    assert_eq!(r.cursor_advanced_to, Some(2));
    assert_eq!(b.get("me/mine"), Some(2));

    let q = scan("{\"count\":2,\"filter\":\"c>=mine\"}", &mut b);
    match &q.filter {
        Some(ParsedFilter::Qualifiers(qs)) => {
            assert!(matches!(qs[0], Qualifier::SeqFilter { op: SeqOp::Gt, value: 2 }));
        }
        other => panic!("unexpected: {other:?}"),
    }
    let r = recent_logs(&p, &mut b, q, &vec![false, false, true, true, true]);
    assert_eq!(seqs(&r.logs), vec![3, 4]);
    assert_eq!(b.get("me/mine"), Some(4));

    let q = scan("{\"filter\":\"c>=mine\"}", &mut b);
    let r = recent_logs(&p, &mut b, q, &vec![false; 5]);
    assert_eq!(r.cursor_advanced_to, None);
    assert_eq!(b.get("me/mine"), Some(4), "a read of nothing leaves the cursor alone");
}

#[test]
fn without_a_commit_nothing_is_advanced() {
    let p = filled(10, 3);
    let mut b = BookmarkStore::new();
    assert_eq!(advance_cursor(&mut b, None, p.stored()), None);
    assert!(b.list(None).is_empty());
}

#[test]
fn a_window_that_begins_before_the_buffer_is_called_evicted() {
    let p = filled(3, 6);
    let mut b = BookmarkStore::new();
    b.add("me", "start", 1, false).unwrap();
    let q = scan("{\"filter\":\"b>=start\"}", &mut b);
    let r = recent_logs(&p, &mut b, q, &vec![true; 3]);
    assert_eq!(r.evicted_before_window, Some(4));
}

#[test]
fn a_trace_counts_the_whole_buffer_as_scanned() {
    let p = filled(10, 6);
    let r = recent_trace(&p, 5);
    assert_eq!(seqs(&r.logs), vec![2, 4, 6]);
    assert_eq!(r.stats.scanned, 6);
}

#[test]
fn context_needs_a_seq_and_bounds_its_window() {
    let p = filled(30, 30);
    assert_eq!(
        seqs(&logs_context(&p, &json("{\"seq\":15,\"before\":1,\"after\":2}")).unwrap()),
        vec![14, 15, 16, 17]
    );
    assert_eq!(logs_context(&p, &json("{\"seq\":15}")).unwrap().len(), 21);
    let e = logs_context(&p, &json("{}")).unwrap_err();
    assert!(e.contains("missing required parameter: seq"), "{e}");
    let e = logs_context(&p, &json("{\"seq\":15,\"before\":10000001}")).unwrap_err();
    assert!(e.contains("before"), "{e}");
}

fn export(params: &str, p: &LogPipeline, matches: Vec<bool>) -> logmon_core::daemon::rpc::logs::ExportedLogs {
    let mut b = BookmarkStore::new();
    let q = plan_export(&json(params), &Vec::new(), &mut b, "me").unwrap();
    export_logs(p, &mut b, q, &matches)
}

#[test]
fn an_export_of_everything_is_complete() {
    let p = filled(10, 4);
    let r = export("{}", &p, vec![true; 4]);
    assert_eq!(r.logs.len(), 4);
    assert!(!r.capped);
    assert_eq!(r.verdict, EvidenceVerdict::Complete);
    assert!(r.narrowed_by.is_empty());
}

#[test]
fn capped_is_a_fact_rather_than_an_inference() {
    let p = filled(10, 4);
    let exact = export("{\"count\":4}", &p, vec![true; 4]);
    assert!(!exact.capped, "exactly as many match as were asked for");
    let cut = export("{\"count\":3}", &p, vec![true; 4]);
    assert!(cut.capped);
    assert_eq!(seqs(&cut.logs), vec![4, 3, 2]);
    assert_ne!(cut.verdict, EvidenceVerdict::Complete);
}

#[test]
fn an_empty_buffer_proves_nothing() {
    let p = LogPipeline::new(10);
    let r = export("{}", &p, Vec::new());
    assert_eq!(r.verdict, EvidenceVerdict::CannotVerify);
}

#[test]
fn narrowed_storage_is_named() {
    let mut p = filled(10, 2);
    let policy = FilterPolicy::new(vec!["l>=ERROR".to_string()]);
    let seq = p.assign_seq();
    p.observe_policy(seq, &policy);
    let r = export("{}", &p, vec![true; 2]);
    assert_ne!(r.verdict, EvidenceVerdict::Complete);
    assert_eq!(r.narrowed_by.len(), 1);
    assert_eq!((r.narrowed_by[0].from_seq, r.narrowed_by[0].to_seq), (3, 3));
}

#[test]
fn an_export_takes_its_range_from_the_parameters() {
    let mut b = BookmarkStore::new();
    let q = plan_export(&json("{\"from_seq\":3,\"to_seq\":9}"), &Vec::new(), &mut b, "me").unwrap();
    match q.filter {
        Some(ParsedFilter::Qualifiers(qs)) => {
            assert!(matches!(qs[0], Qualifier::SeqFilter { op: SeqOp::Gt, value: 2 }));
            assert!(matches!(qs[1], Qualifier::SeqFilter { op: SeqOp::Lt, value: 10 }));
        }
        other => panic!("unexpected: {other:?}"),
    }
    assert_eq!(q.count, usize::MAX);
    let e = plan_export(&json("{\"to_seq\":true}"), &Vec::new(), &mut b, "me").unwrap_err();
    assert!(e.contains("to_seq"), "{e}");
}

#[test]
fn bookmarks_are_listed_by_session_and_removed_by_name() {
    let mut b = BookmarkStore::new();
    b.add("me", "x", 3, false).unwrap();
    b.add("you", "x", 4, false).unwrap();
    b.add("me", "a", 5, false).unwrap();
    let names = |l: Vec<(String, u64)>| l.into_iter().map(|e| e.0).collect::<Vec<_>>();
    assert_eq!(names(b.list(None)), vec!["me/a", "me/x", "you/x"]);
    assert_eq!(names(b.list(Some("me"))), vec!["me/a", "me/x"]);
    assert!(b.remove("me/x"));
    assert!(!b.remove("me/x"));
    assert_eq!(b.get("you/x"), Some(4));
    assert_eq!(b.find("x"), Some(4));
    assert!(b.add("you", "x", 9, false).is_err());
    assert_eq!(b.add("you", "x", 9, true), Ok(true));
    b.clear_session("you");
    assert_eq!(names(b.list(None)), vec!["me/a"]);
}
