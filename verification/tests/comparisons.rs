use logmon_core::clock::Timestamp;
use logmon_core::daemon::rpc::collectors::{
    durability_warning, edit_note, grouping_of, suppressed_by_merging, Grouping,
};
use logmon_core::daemon::rpc::comparisons::{collectors_document, diff_options, DocumentFormat};
use logmon_core::daemon::rpc::data::entries_given;
use logmon_core::daemon::rpc::traces::{spans_by_name, traces_slow, SlowGroupBy};
use logmon_core::json::Json;
use logmon_core::span::types::{SpanEntry, SpanKind, SpanStatus};
use logmon_core::store::bookmarks::BookmarkStore;
use logmon_core::text_map::TextMap;

fn json(text: &str) -> Json {
    Json::parse(text.as_bytes()).unwrap()
}

fn called(seq: u64, name: &str) -> SpanEntry {
    let at = Timestamp::new(1_785_000_000, 0).unwrap();
    SpanEntry {
        seq,
        trace_id: 1,
        span_id: seq,
        parent_span_id: None,
        start_time: at,
        end_time: at,
        name: name.into(),
        kind: SpanKind::Internal,
        service_name: "s".into(),
        status: SpanStatus::Unset,
        attributes: TextMap::new(),
        events: vec![],
    }
}

#[test]
fn slow_traces_are_grouped_by_a_known_name_only() {
    let mut b = BookmarkStore::new();
    let q = traces_slow(&json("{}"), &Vec::new(), &mut b, "me").unwrap();
    assert_eq!((q.count, q.group_by), (20, SlowGroupBy::Ungrouped));
    let q = traces_slow(
        &json(r#"{"count":3,"group_by":"name","filter":"sn=api"}"#),
        &Vec::new(),
        &mut b,
        "me",
    )
    .unwrap();
    assert_eq!((q.count, q.group_by, q.filter.is_some()), (3, SlowGroupBy::Name, true));
    let e = traces_slow(&json(r#"{"group_by":"NAME"}"#), &Vec::new(), &mut b, "me").unwrap_err();
    assert_eq!(e, "unknown group_by `NAME`: expected `none` or `name`");
    let e = traces_slow(&json(r#"{"filter":"c>=x"}"#), &Vec::new(), &mut b, "me").unwrap_err();
    assert_eq!(e, "cursor qualifier not permitted in traces.slow");
}

#[test]
fn grouping_by_name_counts_every_span() {
    let spans = vec![called(1, "b"), called(2, "a"), called(3, "b"), called(4, "c"), called(5, "b")];
    let groups: Vec<(String, Vec<usize>)> =
        spans_by_name(&spans).into_iter().map(|g| (g.name, g.at)).collect();
    assert_eq!(
        groups,
        vec![
            ("b".to_string(), vec![0, 2, 4]),
            ("a".to_string(), vec![1]),
            ("c".to_string(), vec![3]),
        ]
    );
    assert_eq!(groups.iter().map(|g| g.1.len()).sum::<usize>(), spans.len());
    assert!(spans_by_name(&Vec::new()).is_empty());
}

#[test]
fn reads_are_grouped_by_a_known_name_only() {
    assert_eq!(grouping_of(&json("{}")), Ok(Grouping::Ungrouped));
    assert_eq!(grouping_of(&json(r#"{"group_by":""}"#)), Ok(Grouping::Ungrouped));
    assert_eq!(grouping_of(&json(r#"{"group_by":"trace"}"#)), Ok(Grouping::Trace));
    let e = grouping_of(&json(r#"{"group_by":"NAME"}"#)).unwrap_err();
    assert!(e.starts_with("unknown group_by `NAME`: expected"));
    assert!(grouping_of(&json(r#"{"group_by":7}"#)).is_err());
}

#[test]
fn runs_are_compared_by_what_they_retain() {
    let o = diff_options(&json("{}")).unwrap();
    assert_eq!((o.group_by, o.top_n, o.allow.lossy), (Grouping::Ungrouped, 20, false));
    let o = diff_options(&json(r#"{"group_by":"group","top_n":3,"allow_lossy":true}"#)).unwrap();
    assert_eq!((o.group_by, o.top_n, o.allow.lossy), (Grouping::Group, 3, true));
    let e = diff_options(&json(r#"{"group_by":"path"}"#)).unwrap_err();
    assert!(e.starts_with("unknown group_by `path` for a diff: expected `none`, `name` or `group`."));
    assert!(diff_options(&json(r#"{"top_n":"3"}"#)).is_err());
}

#[test]
fn a_document_keeps_the_prose_that_it_is_sent() {
    let q = collectors_document(&json(r#"{"names":["a"],"finding":"faster"}"#)).unwrap();
    assert_eq!((q.format, q.group_by, q.top_n), (DocumentFormat::Md, Grouping::Name, 15));
    assert_eq!((q.finding.as_deref(), q.question), (Some("faster"), None));
    let q = collectors_document(&json(r#"{"names":["a"],"format":"folded"}"#)).unwrap();
    assert_eq!(q.format, DocumentFormat::Folded);
    let e = collectors_document(&json(r#"{"names":["a"],"format":"html"}"#)).unwrap_err();
    assert_eq!(e, "unknown format `html`: expected `md`, `json` or `folded`");
    assert!(collectors_document(&json(r#"{"names":["a"],"finding":7}"#)).is_err());
    let e = collectors_document(&json(r#"{"names":["a"],"group_by":"trace"}"#)).unwrap_err();
    assert_eq!(e, "unknown group_by `trace`: expected `none`, `name` or `group`");
    assert!(collectors_document(&json("{}")).unwrap_err().starts_with("missing required parameter"));
}

#[test]
fn what_a_run_lost_is_said_with_it() {
    assert_eq!(edit_note(false), "nothing was discarded");
    assert!(edit_note(true).starts_with("the live window was discarded"));
    assert!(durability_warning("disk full").ends_with("daemon restart: disk full"));
    assert_eq!(suppressed_by_merging().field, "merged.sampled");
}

#[test]
fn entries_that_are_null_are_none() {
    assert!(entries_given(&json(r#"{"data":null}"#)).is_none());
    assert!(entries_given(&json("{}")).is_none());
    assert!(entries_given(&json(r#"{"data":[]}"#)).is_some());
}
