use logmon_core::filter::bookmark_resolver::{resolve_bookmarks, BookmarkResolutionError};
use logmon_core::filter::parser;
use logmon_core::filter::parser::{FilterParseError, ParsedFilter, Qualifier, SeqOp};
use logmon_core::store::bookmarks::BookmarkStore;

fn parse_filter(filter: &str) -> Result<ParsedFilter, FilterParseError> {
    parser::parse_filter(filter, &vec![])
}

#[test]
fn bare_name_resolves_against_current_session() {
    let mut store = BookmarkStore::new();
    store.add("A", "before", 7, false).unwrap();
    let filter = parse_filter("b>=before").unwrap();
    let resolved = resolve_bookmarks(filter, &mut store, "A").unwrap();
    if let ParsedFilter::Qualifiers(qs) = resolved.filter {
        assert_eq!(qs.len(), 1);
        assert!(matches!(
            qs[0],
            Qualifier::SeqFilter {
                op: SeqOp::Gt,
                value: 7
            }
        ));
    } else {
        panic!("expected qualifiers");
    }
    assert!(resolved.cursor_commit.is_none());
}

#[test]
fn qualified_name_resolves_directly() {
    let mut store = BookmarkStore::new();
    store.add("B", "x", 12, false).unwrap();
    let filter = parse_filter("b<=B/x").unwrap();
    let resolved = resolve_bookmarks(filter, &mut store, "A").unwrap();
    if let ParsedFilter::Qualifiers(qs) = resolved.filter {
        assert!(matches!(
            qs[0],
            Qualifier::SeqFilter {
                op: SeqOp::Lt,
                value: 12
            }
        ));
    } else {
        panic!("expected qualifiers");
    }
    assert!(resolved.cursor_commit.is_none());
}

#[test]
fn missing_bookmark_returns_not_found() {
    let mut store = BookmarkStore::new();
    let filter = parse_filter("b>=ghost").unwrap();
    let err = resolve_bookmarks(filter, &mut store, "A").unwrap_err();
    assert!(matches!(err, BookmarkResolutionError::NotFound(ref n) if n == "A/ghost"));
}

#[test]
fn non_bookmark_qualifiers_pass_through() {
    let mut store = BookmarkStore::new();
    let filter = parse_filter("l>=warn").unwrap();
    let resolved = resolve_bookmarks(filter, &mut store, "A").unwrap();
    if let ParsedFilter::Qualifiers(qs) = resolved.filter {
        assert!(matches!(qs[0], Qualifier::LevelFilter { .. }));
    } else {
        panic!("expected qualifiers");
    }
    assert!(resolved.cursor_commit.is_none());
}

#[test]
fn multiple_bookmarks_all_resolved() {
    let mut store = BookmarkStore::new();
    store.add("A", "start", 1, false).unwrap();
    store.add("A", "end", 99, false).unwrap();
    let filter = parse_filter("b>=start, b<=end, l>=info").unwrap();
    let resolved = resolve_bookmarks(filter, &mut store, "A").unwrap();
    if let ParsedFilter::Qualifiers(qs) = resolved.filter {
        assert_eq!(qs.len(), 3);
        assert!(matches!(qs[0], Qualifier::SeqFilter { value: 1, .. }));
        assert!(matches!(qs[1], Qualifier::SeqFilter { value: 99, .. }));
        assert!(matches!(qs[2], Qualifier::LevelFilter { .. }));
    } else {
        panic!("expected qualifiers");
    }
    assert!(resolved.cursor_commit.is_none());
}

#[test]
fn all_and_none_filters_pass_through_unchanged() {
    let mut store = BookmarkStore::new();
    let resolved = resolve_bookmarks(ParsedFilter::All, &mut store, "A").unwrap();
    assert!(matches!(resolved.filter, ParsedFilter::All));
    assert!(resolved.cursor_commit.is_none());
    let resolved = resolve_bookmarks(ParsedFilter::Nothing, &mut store, "A").unwrap();
    assert!(matches!(resolved.filter, ParsedFilter::Nothing));
    assert!(resolved.cursor_commit.is_none());
}

#[test]
fn resolves_cursor_qualifier_to_seq_filter_with_auto_create() {
    let mut store = BookmarkStore::new();
    let filter = parse_filter("c>=mycur").unwrap();
    let resolved = resolve_bookmarks(filter, &mut store, "A").unwrap();
    if let ParsedFilter::Qualifiers(qs) = resolved.filter {
        assert!(matches!(
            qs[0],
            Qualifier::SeqFilter {
                op: SeqOp::Gt,
                value: 0
            }
        ));
    } else {
        panic!("expected qualifiers");
    }
    assert!(resolved.cursor_commit.is_some());
}

#[test]
fn rejects_cross_session_cursor_advance() {
    let mut store = BookmarkStore::new();
    let filter = parse_filter("c>=other-session/cur").unwrap();
    let err = resolve_bookmarks(filter, &mut store, "A").unwrap_err();
    assert!(matches!(
        err,
        BookmarkResolutionError::CrossSessionCursorAdvance(_)
    ));
}

#[test]
fn cursor_qualifier_uses_existing_seq_for_existing_entry() {
    let mut store = BookmarkStore::new();
    let _ = store.add("A", "existing", 100, false).unwrap();
    let filter = parse_filter("c>=existing").unwrap();
    let resolved = resolve_bookmarks(filter, &mut store, "A").unwrap();
    if let ParsedFilter::Qualifiers(qs) = resolved.filter {
        assert!(matches!(
            qs[0],
            Qualifier::SeqFilter {
                op: SeqOp::Gt,
                value: 100
            }
        ));
    } else {
        panic!("expected qualifiers");
    }
    assert!(resolved.cursor_commit.is_some());
}

#[test]
fn a_cursor_moves_to_the_last_record_read_through_it() {
    let mut store = BookmarkStore::new();
    let resolved =
        resolve_bookmarks(parse_filter("c>=cur").unwrap(), &mut store, "A").unwrap();
    store.commit(resolved.cursor_commit.unwrap(), 41);
    assert_eq!(store.get("A/cur"), Some(41));
    let again = resolve_bookmarks(parse_filter("c>=cur").unwrap(), &mut store, "A").unwrap();
    match again.filter {
        ParsedFilter::Qualifiers(qs) => assert!(matches!(
            qs[0],
            Qualifier::SeqFilter {
                op: SeqOp::Gt,
                value: 41
            }
        )),
        other => panic!("unexpected: {other:?}"),
    }
}

#[test]
fn resolution_errors_name_the_bookmark() {
    let mut store = BookmarkStore::new();
    let e = resolve_bookmarks(parse_filter("b>=ghost").unwrap(), &mut store, "A").unwrap_err();
    assert_eq!(e.to_text(), "bookmark not found: A/ghost");
    let e = resolve_bookmarks(parse_filter("c>=B/cur").unwrap(), &mut store, "A").unwrap_err();
    assert_eq!(e.to_text(), "cross-session cursor advance is not permitted: B/cur");
}

#[test]
fn a_sessions_bookmarks_go_together() {
    let mut store = BookmarkStore::new();
    store.add("A", "x", 1, false).unwrap();
    store.add("A", "y", 2, false).unwrap();
    store.add("AB", "x", 3, false).unwrap();
    assert!(store.add("A", "x", 4, false).is_err());
    assert_eq!(store.add("A", "x", 4, true).unwrap(), true);
    assert_eq!(store.find("x"), Some(4));
    store.clear_session("A");
    assert_eq!(store.get("A/x"), None);
    assert_eq!(store.get("A/y"), None);
    assert_eq!(store.get("AB/x"), Some(3));
    assert_eq!(store.find("x"), Some(3));
    assert_eq!(store.find("y"), None);
}
