use logmon_core::daemon::domain::{
    Domain, DomainConfig, DomainId, DomainRegistry, DomainSource, DomainError,
};

fn cfg(name: &str) -> DomainConfig {
    DomainConfig {
        name: DomainId::new(name).unwrap(),
        gelf_port: 0,
        otlp_grpc_port: 0,
        otlp_http_port: 0,
        log_buffer_size: 100,
        span_buffer_size: 100,
        source: DomainSource::Ephemeral,
    }
}

#[test]
fn domain_id_validates_charset() {
    assert!(DomainId::new("t3").is_ok());
    assert!(DomainId::new("production").is_ok());
    assert!(DomainId::new("a_b-1").is_ok());
    assert!(DomainId::new("").is_err());
    assert!(DomainId::new("bad name").is_err());
    assert!(DomainId::new("bad/slash").is_err());
}

#[test]
fn an_invalid_name_is_named_in_the_error() {
    let e = DomainId::new("bad name").unwrap_err();
    assert_eq!(e, DomainError::InvalidName("bad name".to_string()));
    assert_eq!(e.to_text(), "invalid domain name: bad name");
}

#[test]
fn default_domain_is_default() {
    let d = DomainId::default_domain();
    assert_eq!(d.as_str(), "default");
    assert!(d.is_default());
    assert!(!DomainId::new("t3").unwrap().is_default());
}

#[test]
fn registry_insert_get_remove() {
    let mut reg = DomainRegistry::new();
    assert!(reg.is_empty());

    let id = DomainId::new("t3").unwrap();
    reg.insert(Domain::new(cfg("t3"), 0));
    assert_eq!(reg.len(), 1);
    assert!(reg.contains(&id));

    let got = reg.get(&id).expect("t3 present");
    assert_eq!(got.id().as_str(), "t3");

    assert!(reg.get(&DomainId::new("nope").unwrap()).is_none());

    let removed = reg.remove(&id).expect("removed t3");
    assert_eq!(removed.id().as_str(), "t3");
    assert!(reg.get(&id).is_none());
    assert!(reg.is_empty());
}

#[test]
fn get_clones_out_of_guard_survives_remove() {
    // The delete-while-bound contract: what was removed from the registry stays
    // usable by whoever holds it.
    let mut reg = DomainRegistry::new();
    let id = DomainId::new("t3").unwrap();
    reg.insert(Domain::new(cfg("t3"), 0));

    let held = reg.remove(&id).expect("t3 present");
    assert!(reg.get(&id).is_none());
    // Its pipeline still answers.
    assert_eq!(held.id().as_str(), "t3");
    assert_eq!(held.pipeline.store_len(), 0);
}

#[test]
fn each_domain_has_independent_seq_and_store() {
    // Two fresh domains do not share seq space or buffers.
    let mut a = Domain::new(cfg("a"), 0);
    let mut b = Domain::new(cfg("b"), 0);
    let s1 = a.pipeline.assign_seq();
    let s2 = a.pipeline.assign_seq();
    assert_eq!((s1, s2), (1, 2));
    // b's counter is independent — its first seq is also 1, not 3.
    assert_eq!(b.pipeline.assign_seq(), 1);
}

#[test]
fn domains_are_listed_by_name() {
    let mut reg = DomainRegistry::default();
    for name in ["zeta", "alpha", "mid"] {
        reg.insert(Domain::new(cfg(name), 0));
    }
    let names: Vec<&str> = reg.list().iter().map(|d| d.id().as_str()).collect();
    assert_eq!(names, vec!["alpha", "mid", "zeta"]);
    assert_eq!(reg.count_api_created(), 3);
    let mut declared = cfg("declared");
    declared.source = DomainSource::Config;
    reg.insert(Domain::new(declared, 0));
    assert_eq!(reg.len(), 4);
    assert_eq!(reg.count_api_created(), 3);
}
