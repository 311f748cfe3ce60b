use logmon_core::daemon::persistence::{
    config_dir_from, ignored_config_dir_override, is_temp_name, load_state, quarantine,
    quarantine_candidate, temp_name, DaemonConfig, DaemonState, StoredState,
    QUARANTINE_SLOTS, TEMP_SUFFIX,
};

#[test]
fn a_corrupt_state_file_is_quarantined_rather_than_blocking_the_boot() {
    let (state, aside) = load_state(StoredState::Corrupt);
    assert!(state.named_sessions.is_empty(), "started with no state");
    assert!(aside, "the unreadable file is moved out of the way");
    assert_eq!(
        quarantine("/tmp/state.json", &vec![false]),
        "/tmp/state.json.corrupt",
        "and kept, because it is the only evidence of what went wrong"
    );
}

#[test]
fn repeated_corruption_does_not_overwrite_the_first_evidence() {
    let mut taken = Vec::new();
    let mut names = Vec::new();
    for _ in 0..3 {
        names.push(quarantine("state.json", &taken));
        taken.push(true);
    }
    assert_eq!(
        names,
        vec!["state.json.corrupt", "state.json.corrupt.1", "state.json.corrupt.2"]
    );
    assert_eq!(quarantine_candidate("state.json", 2), names[2]);
    assert_eq!(
        quarantine("state.json", &vec![true; QUARANTINE_SLOTS]),
        names[0],
        "with every place taken the first is used again"
    );
}

#[test]
fn a_missing_state_file_is_not_an_error() {
    let (state, aside) = load_state(StoredState::Missing);
    assert!(state.named_sessions.is_empty());
    assert!(!aside);
}

#[test]
fn a_file_that_cannot_be_read_stays_where_it_is() {
    let (state, aside) = load_state(StoredState::Unreadable);
    assert_eq!(state.seq_block, 0);
    assert!(!aside);
}

#[test]
fn state_round_trips_through_an_atomic_write() {
    let state = DaemonState {
        seq_block: 4242,
        ..Default::default()
    };
    assert_eq!(load_state(StoredState::Parsed(state)).0.seq_block, 4242);
}

#[test]
fn the_boot_sweep_removes_temp_files_a_crash_left_behind() {
    let names = [
        format!("state.json{TEMP_SUFFIX}"),
        temp_name("other.json"),
        "state.json".to_string(),
    ];
    let swept: Vec<bool> = names.iter().map(|n| is_temp_name(n)).collect();
    assert_eq!(swept, vec![true, true, false], "and touches nothing else");
}

#[test]
fn the_env_var_overrides_the_home_derived_default() {
    let got = config_dir_from(Some("/tmp/elsewhere"), Some("/home/u"));
    assert_eq!(got, "/tmp/elsewhere");
}

#[test]
fn without_the_var_the_default_is_dot_config_logmon_under_home() {
    let got = config_dir_from(None, Some("/home/u"));
    assert_eq!(got, "/home/u/.config/logmon");
}

#[test]
fn an_empty_var_is_ignored_rather_than_resolving_against_the_cwd() {
    // `LOGMON_CONFIG_DIR= cmd` is the shell idiom for "unset for this
    // invocation"; honoring the empty string would make the config dir
    // whatever directory the daemon happened to start in.
    let got = config_dir_from(Some(""), Some("/home/u"));
    assert_eq!(got, "/home/u/.config/logmon");
}

#[test]
fn a_relative_override_is_ignored_because_processes_share_no_cwd() {
    // The variable's whole purpose is cross-process redirection, and a
    // relative path would resolve differently in the daemon and in a client
    // started from another directory — the one failure it must not cause.
    for rel in ["probe", "./probe", "../probe"] {
        let got = config_dir_from(Some(rel), Some("/home/u"));
        assert_eq!(
            got, "/home/u/.config/logmon",
            "{rel} must fall back to the default, not resolve against a cwd"
        );
        assert!(ignored_config_dir_override(rel));
    }
    // And absolute still works, or the check above would be vacuous.
    let got = config_dir_from(Some("/tmp/probe"), Some("/home/u"));
    assert_eq!(got, "/tmp/probe");
    assert!(!ignored_config_dir_override("/tmp/probe"));
}

#[test]
fn a_whitespace_only_override_counts_as_blank() {
    let got = config_dir_from(Some("   "), Some("/home/u"));
    assert_eq!(got, "/home/u/.config/logmon");
    assert!(!ignored_config_dir_override("   "));
}

#[test]
fn no_home_falls_back_to_the_current_directory_as_before() {
    let got = config_dir_from(None, None);
    assert_eq!(got, "./.config/logmon");
    let got = config_dir_from(None, Some(""));
    assert_eq!(got, "./.config/logmon");
}

#[test]
fn the_default_configuration_listens_on_the_usual_ports() {
    let config = DaemonConfig::default();
    assert_eq!(config.gelf_port, 12201);
    assert_eq!(config.otlp_grpc_port, 4317);
    assert_eq!(config.otlp_http_port, 4318);
    assert!(config.domains.is_empty());
}
