use logmon_core::clock::Timestamp;
use logmon_core::json::Json;
use logmon_core::engine::seq_counter::SeqCounter;
use logmon_core::rejection::one_of;

#[test]
fn renders_by_length() {
    assert_eq!(one_of(&[]), "");
    assert_eq!(one_of(&["name"]), "`name`");
    assert_eq!(one_of(&["name", "group"]), "`name` or `group`");
    assert_eq!(
        one_of(&["none", "name", "group", "trace", "path"]),
        "`none`, `name`, `group`, `trace` or `path`"
    );
}

/// A cursor that has read nothing stands at 0, which is never assigned.
#[test]
fn next_never_returns_zero_from_default() {
    let mut c = SeqCounter::new();
    assert_eq!(c.next(), 1);
}

#[test]
fn next_never_returns_zero_from_initial_zero() {
    let mut c = SeqCounter::new_with_initial(0);
    assert_eq!(c.next(), 1);
}

#[test]
fn next_returns_initial_plus_one() {
    let mut c = SeqCounter::new_with_initial(42);
    assert_eq!(c.next(), 43);
    assert_eq!(c.current(), 43);
}

#[test]
fn the_current_seq_is_the_last_that_was_returned() {
    let mut c = SeqCounter::new_with_initial(7);
    assert_eq!(c.current(), 7, "none was returned yet");
    for _ in 0..5 {
        let seq = c.next();
        assert_eq!(c.current(), seq);
    }
    assert_eq!(c.current(), 12);
}

#[test]
fn texts_are_escaped_as_json() {
    let text = Json::Text("a\"b\\c\n\t\r\u{8}\u{c}\u{1}\u{7f}é".to_string());
    assert_eq!(text.to_text(), "\"a\\\"b\\\\c\\n\\t\\r\\b\\f\\u0001\u{7f}é\"");
    assert_eq!(Json::integer(-12).to_text(), "-12");
    let back = Json::parse(text.to_text().as_bytes()).unwrap();
    assert_eq!(back, text);
}

#[test]
fn instants_are_ordered_and_shown() {
    let a = Timestamp::new(1_700_000_000, 5).unwrap();
    let b = Timestamp::new(1_700_000_001, 4).unwrap();
    assert!(a.before(&b) && !b.before(&a));
    assert_eq!((b.seconds_since(&a), a.seconds_since(&b)), (0, 0));
    assert_eq!(a.minus_seconds(1_700_000_000).unwrap().to_rfc3339(), "1970-01-01T00:00:00.000000005+00:00");
    assert_eq!(Timestamp::new(0, 1_000_000_000), None);
    assert_eq!(Timestamp::new(i64::MAX, 0), None);
}
