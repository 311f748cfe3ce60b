use logmon_core::clock::Timestamp;
use logmon_core::daemon::rpc::data::domain_data_of;
use logmon_core::domain_data::persist::{
    path_for, DomainRegistry, PersistedRegistry, StoredRegistry,
};
use logmon_core::domain_data::{DataEntry, DomainDataStore};
use std::collections::BTreeMap;

/// The files of a config directory.
#[derive(Default)]
struct Disk {
    files: BTreeMap<String, PersistedRegistry>,
}

impl Disk {
    fn read(&mut self, path: &str) -> StoredRegistry {
        match self.files.remove(path) {
            Some(p) => StoredRegistry::Parsed(p),
            None => StoredRegistry::Missing,
        }
    }

    fn write(&mut self, reg: &DomainRegistry) {
        if let Some(p) = reg.snapshot() {
            self.files.insert(reg.path().to_string(), p);
        }
    }
}

fn now() -> Timestamp {
    Timestamp::new(1_785_000_000, 0).unwrap()
}

fn store() -> DomainDataStore {
    DomainDataStore::new("/tmp/logmon".to_string(), "0.9.0".to_string())
}

fn for_domain<'a>(s: &'a mut DomainDataStore, disk: &mut Disk, domain: &str) -> &'a mut DomainRegistry {
    if !s.is_open(domain) {
        let stored = disk.read(&s.path_of(domain));
        assert!(s.for_domain(domain, stored, false, now()));
        disk.write(s.registry(domain).unwrap());
    }
    s.registry_mut(domain).unwrap()
}

fn note_seq_origin(s: &mut DomainDataStore, disk: &mut Disk, domain: &str) {
    let path = s.path_of(domain);
    let exists = disk.files.contains_key(&path);
    let stored = if exists && !s.is_open(domain) {
        disk.read(&path)
    } else {
        StoredRegistry::Missing
    };
    if s.note_seq_origin(domain, exists, stored, false, now()) {
        disk.write(s.registry(domain).unwrap());
    }
}

fn write_value(s: &mut DomainDataStore, disk: &mut Disk, domain: &str, path: &str, value: &str) {
    for_domain(s, disk, domain).mutate().update(
        &[DataEntry {
            path: path.into(),
            value: Some(value.into()),
            ttl: None,
        }],
        now(),
    );
    disk.write(s.registry(domain).unwrap());
}

#[test]
fn a_domain_gets_one_registry_however_many_times_it_is_asked_for() {
    let mut disk = Disk::default();
    let mut s = store();
    write_value(&mut s, &mut disk, "t3", "/a", "1");
    assert!(!s.for_domain("t3", StoredRegistry::Missing, false, now()));
    assert!(s.registry("t3").unwrap().read().get("/a").is_some());
    assert!(for_domain(&mut s, &mut disk, "t4").read().get("/a").is_none());
}

#[test]
fn opening_stamps_the_broker_keys() {
    let mut disk = Disk::default();
    let mut s = store();
    let reg = for_domain(&mut s, &mut disk, "t3");
    let r = reg.read();
    assert_eq!(r.get("/logmon/domain").unwrap().value, "t3");
    assert_eq!(r.get("/logmon/version").unwrap().value, "0.9.0");
    assert_eq!(r.get("/logmon/incarnation").unwrap().value, "1");
}

#[test]
fn a_domain_nobody_touches_leaves_no_file() {
    // One domain per test run is usual; opening eagerly would leave a permanent
    // file for every one of them.
    let mut disk = Disk::default();
    let mut s = store();
    note_seq_origin(&mut s, &mut disk, "never-used");
    assert!(!disk
        .files
        .contains_key(&path_for("/tmp/logmon", "never-used")));
    assert!(!s.is_open("never-used"));
}

#[test]
fn a_seq_origin_advances_the_era_only_once_a_registry_exists() {
    let mut disk = Disk::default();
    {
        let mut s = store();
        for_domain(&mut s, &mut disk, "t3");
    }
    let mut s = store();
    note_seq_origin(&mut s, &mut disk, "t3");
    let reg = for_domain(&mut s, &mut disk, "t3");
    assert_eq!(reg.read().get("/logmon/incarnation").unwrap().value, "2");
}

#[test]
fn forgetting_a_domain_keeps_its_file_so_a_recreated_name_adopts_it() {
    let mut disk = Disk::default();
    let mut s = store();
    write_value(&mut s, &mut disk, "t3", "/Build/commit", "abc");
    s.forget("t3");
    let reg = for_domain(&mut s, &mut disk, "t3");
    assert_eq!(reg.read().get("/Build/commit").unwrap().value, "abc");
}

#[test]
fn two_domains_differing_only_in_case_do_not_share_a_registry() {
    let mut disk = Disk::default();
    let mut s = store();
    write_value(&mut s, &mut disk, "Build", "/x", "upper");
    write_value(&mut s, &mut disk, "build", "/x", "lower");
    // On APFS these would be one file, and one would have silently
    // overwritten the other's provenance.
    s.forget("Build");
    s.forget("build");
    assert_eq!(
        for_domain(&mut s, &mut disk, "Build").read().get("/x").unwrap().value,
        "upper"
    );
    assert_eq!(
        for_domain(&mut s, &mut disk, "build").read().get("/x").unwrap().value,
        "lower"
    );
}

#[test]
fn asking_about_an_untouched_domain_conjures_no_registry() {
    let mut s = store();
    assert!(!s.for_reading("t3", false, StoredRegistry::Missing, false, now()));
    assert!(!s.is_open("t3"));
    let answer = domain_data_of(&s, "t3", None, None, now());
    assert_eq!((answer.keys.len(), answer.total), (0, 0));
    assert!(!answer.missing_core.is_empty());
    let mut disk = Disk::default();
    write_value(&mut s, &mut disk, "t3", "/Build/commit", "abc");
    let answer = domain_data_of(&s, "t3", Some("/Build"), None, now());
    assert_eq!(answer.keys.len(), 1);
    assert!(answer.total > 1);
    // One that has a file is opened to be read.
    let mut s = store();
    let stored = disk.read(&s.path_of("t3"));
    assert!(s.for_reading("t3", true, stored, false, now()));
    assert_eq!(domain_data_of(&s, "t3", Some("/Build"), None, now()).keys.len(), 1);
}
