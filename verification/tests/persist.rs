use chrono::DateTime;
use logmon_core::clock::Timestamp;
use logmon_core::domain_data::persist::{
    file_name_for, load, note_seq_origin, path_for, stamp_boot, DomainRegistry, PersistedRegistry,
    StoredRegistry, DOMAIN_DATA_DIR, FORMAT_VERSION,
};
use logmon_core::domain_data::{
    DataEntry, Entry, Outcome, Registry, RejectReason, TtlSpec, UnknownCause,
};
use logmon_core::text_map::TextMap;
use std::path::Path;

fn t(s: &str) -> Timestamp {
    let at = DateTime::parse_from_rfc3339(s).unwrap();
    Timestamp::new(at.timestamp(), at.timestamp_subsec_nanos()).unwrap()
}

fn set(path: &str, value: &str) -> DataEntry {
    DataEntry {
        path: path.into(),
        value: Some(value.into()),
        ttl: None,
    }
}

fn open(domain: &str) -> DomainRegistry {
    DomainRegistry::new(
        domain.to_string(),
        path_for("/tmp/logmon", domain),
        load(StoredRegistry::Missing, false),
    )
}

/// What the next process reads of what this one has written.
fn restart(reg: DomainRegistry) -> DomainRegistry {
    let written = reg.snapshot().expect("kept in a file");
    DomainRegistry::new(
        reg.domain().to_string(),
        reg.path().to_string(),
        load(StoredRegistry::Parsed(written), false),
    )
}

#[test]
fn two_domains_differing_only_in_case_get_two_files() {
    // On APFS and on Windows, `Build.json` and `build.json` are one file, and
    // two distinct domains would silently overwrite each other's provenance.
    assert_ne!(file_name_for("Build"), file_name_for("build"));
    let a = file_name_for("Build").to_lowercase();
    let b = file_name_for("build").to_lowercase();
    assert_ne!(
        a, b,
        "the names must differ even after the filesystem folds them"
    );
}

#[test]
fn the_file_name_is_deterministic_across_runs() {
    assert_eq!(file_name_for("t3"), file_name_for("t3"));
    // Pinned, because this lands in a filename: a change orphans every registry
    // on disk. FNV-1a is fixed by definition, unlike DefaultHasher.
    assert_eq!(file_name_for("default"), "default-8620c5fe.json");
    assert_eq!(
        file_name_for("default").len(),
        "default-".len() + 8 + ".json".len()
    );
}

#[test]
fn the_registry_lives_in_its_own_subdirectory() {
    let dir = "/home/someone/.config/logmon";
    let path = path_for(dir, "state");
    let p = Path::new(&path);
    assert_eq!(p.parent().unwrap().file_name().unwrap(), DOMAIN_DATA_DIR);
    // `state` and `config` are legal domain names, and DaemonState parses any
    // JSON object successfully — a flat layout would lose every session.
    assert_ne!(p, Path::new(dir).join("state.json"));
}

#[test]
fn a_name_that_is_a_path_from_the_root_is_taken_as_one() {
    let dir = "/home/someone/.config/logmon";
    let expected = Path::new(dir).join(DOMAIN_DATA_DIR).join(file_name_for("/t3"));
    assert_eq!(Path::new(&path_for(dir, "/t3")), expected);
    assert_eq!(path_for(dir, "/t3"), file_name_for("/t3"));
}

#[test]
fn a_registry_survives_a_restart_with_both_timestamps() {
    let mut reg = open("t3");
    let got = reg
        .mutate()
        .update(&[set("/Build/commit", "abc")], t("2026-07-31T12:00:00Z"));
    assert_eq!(got[0].outcome, Outcome::Created);

    let reg = restart(reg);
    let e = reg.read().get("/Build/commit").expect("survives");
    assert_eq!(e.value, "abc");
    assert_eq!(e.created_at, t("2026-07-31T12:00:00Z"));
    assert_eq!(e.validated_at, t("2026-07-31T12:00:00Z"));
}

#[test]
fn a_ttl_survives_a_restart() {
    let mut reg = open("t3");
    reg.mutate().update(
        &[DataEntry {
            path: "/Action".into(),
            value: Some("suite".into()),
            ttl: Some(TtlSpec::Seconds(1800)),
        }],
        t("2026-07-31T12:00:00Z"),
    );
    let reg = restart(reg);
    assert_eq!(reg.read().get("/Action").unwrap().ttl_secs, Some(1800));
}

#[test]
fn a_missing_file_is_a_new_registry_not_an_error() {
    let reg = open("never-written");
    assert!(reg.read().entries().is_empty());
}

#[test]
fn a_corrupt_file_is_quarantined_and_the_cause_is_recorded() {
    assert!(StoredRegistry::Corrupt.needs_quarantine());
    let mut r = load(StoredRegistry::Corrupt, true);
    let cause = r.update(
        &[DataEntry {
            path: "/a".into(),
            value: None,
            ttl: None,
        }],
        t("2026-07-31T12:00:00Z"),
    );
    assert_eq!(
        cause[0].outcome,
        Outcome::Unknown {
            cause: UnknownCause::NoRegistry
        },
        "a quarantine artifact is the only evidence that tells a lost registry \
         from a new one"
    );
}

#[test]
fn a_file_from_a_newer_build_is_quarantined_rather_than_guessed_at() {
    let mut entries: TextMap<Entry> = TextMap::new();
    entries.insert(
        "/a".to_string(),
        Entry::new("1".to_string(), t("2026-07-31T12:00:00Z"), None),
    );
    let stored = StoredRegistry::Parsed(PersistedRegistry {
        format_version: FORMAT_VERSION + 1,
        domain: "t3".to_string(),
        entries,
    });
    assert!(stored.needs_quarantine());
    assert!(load(stored, true).entries().is_empty());
}

#[test]
fn a_corrupt_registry_does_not_stop_the_domain_working() {
    let mut r = load(StoredRegistry::Corrupt, true);
    let got = r.update(&[set("/a", "1")], t("2026-07-31T12:00:00Z"));
    assert_eq!(got[0].outcome, Outcome::Created);
}

#[test]
fn a_postmortem_registry_has_nothing_to_write() {
    let mut reg = DomainRegistry::in_memory("t3".to_string(), Registry::new());
    reg.mutate().update(&[set("/a", "1")], t("2026-07-31T12:00:00Z"));
    assert!(reg.is_ephemeral());
    assert!(reg.snapshot().is_none());
}

#[test]
fn boot_stamps_the_broker_keys_and_seeds_era_one() {
    let mut reg = open("t3");
    stamp_boot(reg.mutate(), "t3", "0.9.0", t("2026-07-28T09:00:00Z"));
    let r = reg.read();
    assert_eq!(r.get("/logmon/domain").unwrap().value, "t3");
    assert_eq!(r.get("/logmon/version").unwrap().value, "0.9.0");
    assert!(r.get("/logmon/first_seen").is_some());
    assert_eq!(r.get("/logmon/incarnation").unwrap().value, "1");
}

#[test]
fn a_same_version_boot_moves_only_validated_at() {
    let mut reg = open("t3");
    stamp_boot(reg.mutate(), "t3", "0.9.0", t("2026-07-28T09:00:00Z"));
    stamp_boot(reg.mutate(), "t3", "0.9.0", t("2026-07-31T09:14:22Z"));
    let v = reg.read().get("/logmon/version").unwrap();
    assert_eq!(v.created_at, t("2026-07-28T09:00:00Z"));
    assert_eq!(v.validated_at, t("2026-07-31T09:14:22Z"));
}

#[test]
fn an_upgrade_moves_both_timestamps() {
    let mut reg = open("t3");
    stamp_boot(reg.mutate(), "t3", "0.9.0", t("2026-07-28T09:00:00Z"));
    stamp_boot(reg.mutate(), "t3", "0.10.0", t("2026-07-31T09:14:22Z"));
    let v = reg.read().get("/logmon/version").unwrap();
    assert_eq!(v.created_at, t("2026-07-31T09:14:22Z"));
    assert_eq!(v.validated_at, t("2026-07-31T09:14:22Z"));
}

#[test]
fn first_seen_is_not_rewritten_on_a_later_boot() {
    let first = t("2026-07-28T09:00:00Z");
    let mut reg = open("t3");
    stamp_boot(reg.mutate(), "t3", "0.9.0", first);
    let mut reg = restart(reg);
    stamp_boot(reg.mutate(), "t3", "0.9.0", t("2026-07-31T09:00:00Z"));
    assert_eq!(
        reg.read().get("/logmon/first_seen").unwrap().value,
        first.to_rfc3339()
    );
    assert_eq!(
        reg.read().get("/logmon/first_seen").unwrap().value,
        "2026-07-28T09:00:00+00:00"
    );
}

#[test]
fn a_seq_origin_on_an_existing_registry_advances_the_era() {
    // Two unrelated `t3`s a week apart share a registry, and a re-created
    // domain restarts seq at 0 — so without this the two eras' seq ranges are
    // indistinguishable in the archive.
    let mut reg = open("t3");
    stamp_boot(reg.mutate(), "t3", "0.9.0", t("2026-07-24T09:00:00Z"));
    let mut reg = restart(reg);
    assert!(note_seq_origin(reg.mutate(), t("2026-07-31T09:00:00Z")));
    let r = reg.read();
    assert_eq!(r.get("/logmon/incarnation").unwrap().value, "2");
    assert_eq!(
        r.get("/logmon/incarnation_started").unwrap().value,
        t("2026-07-31T09:00:00Z").to_rfc3339()
    );
}

#[test]
fn a_seq_origin_on_a_brand_new_registry_does_not_advance_past_one() {
    // The counter marks *reuse*. A first-ever domain is era 1, not era 2.
    let mut reg = open("t3");
    assert!(!note_seq_origin(reg.mutate(), t("2026-07-31T09:00:00Z")));
    assert!(reg.read().get("/logmon/incarnation").is_none());
    stamp_boot(reg.mutate(), "t3", "0.9.0", t("2026-07-31T09:00:00Z"));
    assert_eq!(reg.read().get("/logmon/incarnation").unwrap().value, "1");
}

#[test]
fn the_incarnation_counter_is_monotone_across_many_eras() {
    let mut reg = open("t3");
    stamp_boot(reg.mutate(), "t3", "0.9.0", t("2026-07-01T09:00:00Z"));
    for i in 0..4 {
        reg = restart(reg);
        let base = t("2026-07-31T09:00:00Z");
        note_seq_origin(
            reg.mutate(),
            Timestamp::new(base.secs() + i * 86_400, 0).unwrap(),
        );
    }
    let reg = restart(reg);
    assert_eq!(reg.read().get("/logmon/incarnation").unwrap().value, "5");
}

#[test]
fn agents_cannot_reach_the_keys_boot_writes() {
    let mut reg = open("t3");
    stamp_boot(reg.mutate(), "t3", "0.9.0", t("2026-07-28T09:00:00Z"));
    let got = reg.mutate().update(
        &[set("/logmon/version", "99"), set("/logmon", "x")],
        t("2026-07-31T12:00:00Z"),
    );
    for o in &got {
        assert!(matches!(o.outcome, Outcome::Rejected { .. }));
        assert_eq!(
            o.outcome,
            Outcome::Rejected {
                reason: RejectReason::ReservedPrefix
            }
        );
    }
    assert_eq!(reg.read().get("/logmon/version").unwrap().value, "0.9.0");
}
