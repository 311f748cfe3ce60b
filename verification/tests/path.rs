use logmon_core::domain_data::path::{is_reserved, matches_prefix};
use logmon_core::domain_data::{Key, KeyError, MAX_PATH_BYTES};

fn ok(raw: &str) -> Key {
    Key::parse(raw, true).unwrap_or_else(|e| panic!("{raw} should parse, got {e:?}"))
}

fn err(raw: &str) -> KeyError {
    Key::parse(raw, true).unwrap_err()
}

#[test]
fn accepts_the_shapes_the_key_set_uses() {
    for raw in [
        "/Build/commit",
        "/Action",
        "/Versions/ht_server",
        "/Env/os",
        "/a.b-c_d/e",
        "/1",
    ] {
        assert_eq!(ok(raw).path(), raw);
    }
}

#[test]
fn rejects_every_way_a_path_can_be_malformed() {
    for raw in [
        "", "Action", "/", "//a", "/a//b", "/a/", "/a b", "/a\tb", "/héllo", "/a/*", "/a?b",
    ] {
        assert_eq!(err(raw), KeyError::Malformed, "{raw} should be malformed");
    }
}

#[test]
fn a_path_over_the_cap_is_too_long_not_malformed() {
    let long = format!("/{}", "a".repeat(MAX_PATH_BYTES));
    assert_eq!(err(&long), KeyError::TooLong);
    let at_cap = format!("/{}", "a".repeat(MAX_PATH_BYTES - 1));
    assert_eq!(ok(&at_cap).path().len(), MAX_PATH_BYTES);
}

#[test]
fn the_sigil_does_not_change_what_lengths_are_legal() {
    // `@/x` and `/x` are the same fact at two scopes, so one must not be
    // legal where the other is not.
    let at_cap = format!("/{}", "a".repeat(MAX_PATH_BYTES - 1));
    assert!(Key::parse(&format!("@{at_cap}"), true).is_ok());
    let over = format!("/{}", "a".repeat(MAX_PATH_BYTES));
    assert_eq!(
        Key::parse(&format!("@{over}"), true),
        Err(KeyError::TooLong)
    );
}

#[test]
fn the_bare_reserved_segment_is_reserved_too() {
    // The guard an implementer reaches for first — `starts_with("/logmon/")`
    // — accepts this, and it is then unremovable.
    assert!(ok("/logmon").is_reserved());
    assert!(ok("/logmon/version").is_reserved());
}

#[test]
fn reservation_is_by_segment_not_by_byte_prefix() {
    assert!(!ok("/logmonster").is_reserved());
    assert!(!ok("/logmon2/x").is_reserved());
    assert!(!ok("/x/logmon").is_reserved());
}

#[test]
fn every_pattern_that_matches_a_reserved_key_is_itself_reserved() {
    // This is what makes one check cover both directions. If it ever fails,
    // `remove` has a hole that silently deletes H3's and H6's defence.
    let reserved = ["/logmon", "/logmon/version", "/logmon/incarnation"];
    for pattern in ["/logmon", "/logmon/version", "/logmonster", "/x"] {
        let matches_any = reserved.iter().any(|k| matches_prefix(pattern, k));
        if matches_any {
            assert!(
                is_reserved(pattern),
                "{pattern} matches a reserved key but is not itself reserved"
            );
        }
    }
}

#[test]
fn prefix_matching_stops_at_segment_boundaries() {
    assert!(matches_prefix("/Versions", "/Versions/ht_server"));
    assert!(matches_prefix("/Versions", "/Versions"));
    assert!(!matches_prefix("/Ver", "/Versions/ht_server"));
    assert!(!matches_prefix("/Versions", "/VersionsOld/x"));
}

#[test]
fn a_sigil_key_is_a_path_plus_scope() {
    let k = ok("@/Data/seed");
    assert!(k.is_scoped());
    assert_eq!(k.path(), "/Data/seed");
    assert_eq!(k.rendered(), "@/Data/seed");
}

#[test]
fn the_sigil_survives_rendering_so_two_greps_stay_two_questions() {
    assert_ne!(ok("@/Data/seed").rendered(), ok("/Data/seed").rendered());
}

#[test]
fn scoped_and_unscoped_are_different_keys() {
    assert_ne!(ok("@/Data/seed"), ok("/Data/seed"));
}

#[test]
fn a_sigil_is_refused_where_there_is_no_document_to_put_it_in() {
    assert_eq!(
        Key::parse("@/Data/seed", false),
        Err(KeyError::SigilNotAllowed)
    );
    assert!(Key::parse("/Data/seed", false).is_ok());
}

#[test]
fn path_a_sigil_does_not_launder_the_reservation() {
    // Reported as Reserved rather than SigilNotAllowed: the laundering
    // attempt is the more useful thing to name.
    assert!(ok("@/logmon/version").is_reserved());
    assert_eq!(
        Key::parse("@/logmon/version", false),
        Err(KeyError::SigilNotAllowed)
    );
}

#[test]
fn a_lone_sigil_is_malformed_not_a_key() {
    assert_eq!(err("@"), KeyError::Malformed);
    assert_eq!(err("@/"), KeyError::Malformed);
}

#[test]
fn a_sigil_anywhere_but_the_front_is_not_a_sigil() {
    assert_eq!(err("/Data/@seed"), KeyError::Malformed);
    assert_eq!(err("/@"), KeyError::Malformed);
}

#[test]
fn keys_are_compared_byte_wise() {
    assert_ne!(ok("/Build/Commit"), ok("/Build/commit"));
}
