//! What the daemon keeps between runs, and where.
use crate::clock::Timestamp;
use crate::domain_data::persist::directory_prefix;
use crate::json::Json;
use crate::text;
use crate::text::decimal_text;
use crate::text_map::TextMap;
use vstd::prelude::*;

verus! {

broadcast use vstd::string::group_string_axioms;

/// How many seqs are reserved at a time.
pub const SEQ_BLOCK_SIZE: u64 = 1000;

/// A named session as it is kept.
#[derive(Debug, PartialEq, Eq)]
pub struct PersistedSession {
    pub triggers: Vec<PersistedTrigger>,
    pub filters: Vec<PersistedFilter>,
    /// What the caller said of itself when it last started the session.
    pub client_info: Option<Json>,
    pub bookmarks: Vec<PersistedBookmark>,
}

/// A bookmark as it is kept, by its bare name: the owning session is the one
/// that it is kept under.
#[derive(Debug, PartialEq, Eq)]
pub struct PersistedBookmark {
    pub name: String,
    /// The seq that the bookmark was created at.
    pub seq: u64,
    /// For display only.
    pub created_at: Timestamp,
    pub description: Option<String>,
}

/// A trigger as it is kept.
#[derive(Debug, PartialEq, Eq)]
pub struct PersistedTrigger {
    pub filter: String,
    pub pre_window: u32,
    pub post_window: u32,
    pub notify_context: u32,
    pub description: Option<String>,
    pub oneshot: bool,
}

/// A filter as it is kept.
#[derive(Debug, PartialEq, Eq)]
pub struct PersistedFilter {
    pub filter: String,
    pub description: Option<String>,
}

/// What is kept between runs.
#[derive(Debug, PartialEq, Eq)]
pub struct DaemonState {
    /// Where the block of seqs that was reserved last begins.
    pub seq_block: u64,
    pub named_sessions: TextMap<PersistedSession>,
}

impl Default for DaemonState {
    fn default() -> (r: Self)
        ensures
            r.seq_block == 0,
            r.named_sessions.wf(),
            r.named_sessions@ == Map::<Seq<char>, PersistedSession>::empty(),
    {
        DaemonState { seq_block: 0, named_sessions: TextMap::new() }
    }
}

/// A durable, user-declared domain, re-created at boot with its declared ports;
/// buffers start empty and seq at 0. Ports as in `domains.create`: omitted,
/// allocate; 0, disable; `n`, bind exactly `n`.
#[derive(Debug, PartialEq, Eq)]
pub struct ConfigDomain {
    pub name: String,
    pub gelf_port: Option<u16>,
    pub otlp_grpc_port: Option<u16>,
    pub otlp_http_port: Option<u16>,
    pub log_buffer_size: Option<usize>,
    pub span_buffer_size: Option<usize>,
}

/// The configuration of the daemon.
#[derive(Debug, PartialEq, Eq)]
pub struct DaemonConfig {
    pub gelf_port: u16,
    pub gelf_udp_port: Option<u16>,
    pub gelf_tcp_port: Option<u16>,
    pub buffer_size: usize,
    pub persist_buffer_on_exit: bool,
    pub idle_timeout_secs: u64,
    pub otlp_grpc_port: u16,
    pub otlp_http_port: u16,
    pub span_buffer_size: usize,
    /// Cap on the number of API-created domains. Declared domains and the
    /// implicit `default` do not count against it.
    pub max_domains: usize,
    /// Domains that are re-created at boot.
    pub domains: Vec<ConfigDomain>,
    /// A domain is reported stale once it has been idle longer than this.
    pub stale_after_secs: u64,
    /// A session that stays disconnected longer than this is disposed of.
    /// Connected sessions never expire.
    pub session_ttl_secs: u64,
}

impl Default for DaemonConfig {
    fn default() -> (r: Self)
        ensures
            r.gelf_port == 12201,
            r.gelf_udp_port is None,
            r.gelf_tcp_port is None,
            r.buffer_size == 10000,
            !r.persist_buffer_on_exit,
            r.idle_timeout_secs == 1800,
            r.otlp_grpc_port == 4317,
            r.otlp_http_port == 4318,
            r.span_buffer_size == 10000,
            r.max_domains == 32,
            r.domains@.len() == 0,
            r.stale_after_secs == 60,
            r.session_ttl_secs == 86_400,
    {
        DaemonConfig {
            gelf_port: 12201,
            gelf_udp_port: None,
            gelf_tcp_port: None,
            buffer_size: 10000,
            persist_buffer_on_exit: false,
            idle_timeout_secs: 1800,
            otlp_grpc_port: 4317,
            otlp_http_port: 4318,
            span_buffer_size: 10000,
            max_domains: 32,
            domains: Vec::new(),
            stale_after_secs: 60,
            session_ttl_secs: 86_400,
        }
    }
}

/// Suffix for the temp file an atomic write goes through. A crash between write
/// and rename leaves one behind, which the boot sweep clears.
pub const TEMP_SUFFIX: &'static str = ".tmp-write";

/// The name of the temp file for a file, in the same directory.
pub open spec fn temp_name_of(file_name: Seq<char>) -> Seq<char> {
    file_name + TEMP_SUFFIX@
}

/// The name of the temp file for a file.
pub fn temp_name(file_name: &str) -> (r: String)
    ensures
        r@ == temp_name_of(file_name@),
{
    text::join2(file_name, TEMP_SUFFIX)
}

/// Whether a name ends with a suffix.
pub open spec fn ends_with(s: Seq<char>, suffix: Seq<char>) -> bool {
    suffix.len() <= s.len() && s.skip(s.len() - suffix.len()) == suffix
}

/// Whether a file is one that a crash in the middle of a write left behind.
pub fn is_temp_name(file_name: &str) -> (r: bool)
    ensures
        r == ends_with(file_name@, TEMP_SUFFIX@),
{
    let name = text::chars_of(file_name);
    let suffix = text::chars_of(TEMP_SUFFIX);
    if suffix.len() > name.len() {
        return false;
    }
    let from: usize = name.len() - suffix.len();
    let mut i: usize = 0;
    while i < suffix.len()
        invariant
            name@ == file_name@,
            suffix@ == TEMP_SUFFIX@,
            suffix@.len() <= name@.len(),
            from + suffix.len() == name.len(),
            i <= suffix@.len(),
            forall|k: int| 0 <= k < i ==> name@[from + k] == #[trigger] suffix@[k],
        decreases suffix@.len() - i,
    {
        if name[from + i] != suffix[i] {
            proof {
                assert(name@.skip(from as int)[i as int] != suffix@[i as int]);
            }
            return false;
        }
        i += 1;
    }
    proof {
        assert(name@.skip(from as int) =~= suffix@);
    }
    true
}

/// The sweep finds what an interrupted write left, whatever was being written.
pub proof fn the_sweep_finds_every_temp_file(file_name: Seq<char>)
    ensures
        ends_with(temp_name_of(file_name), TEMP_SUFFIX@),
{
    let t = temp_name_of(file_name);
    assert(t.skip(file_name.len() as int) =~= TEMP_SUFFIX@);
}

/// How many files are kept aside before the first is written over.
pub const QUARANTINE_SLOTS: usize = 10;

/// Where an unreadable file goes: the first of these that is free, and the first
/// of all where none is.
pub open spec fn quarantine_path(path: Seq<char>, n: nat) -> Seq<char> {
    if n == 0 {
        path + ".corrupt"@
    } else {
        path + ".corrupt"@ + "."@ + decimal_text(n)
    }
}

/// Whether the `i`th place holds a file. A place beyond the list holds none.
pub open spec fn is_taken(taken: Seq<bool>, i: nat) -> bool {
    i < taken.len() && taken[i as int]
}

/// The first place that is free, from the `i`th on, or the first of all.
pub open spec fn free_slot(taken: Seq<bool>, i: nat) -> nat
    decreases QUARANTINE_SLOTS - i,
{
    if i >= QUARANTINE_SLOTS {
        0
    } else if !is_taken(taken, i) {
        i
    } else {
        free_slot(taken, i + 1)
    }
}

/// The `n`th place for an unreadable file.
pub fn quarantine_candidate(path: &str, n: usize) -> (r: String)
    ensures
        r@ == quarantine_path(path@, n as nat),
{
    let base = text::join2(path, ".corrupt");
    if n == 0 {
        base
    } else {
        text::join3(&base, ".", &text::decimal(n as u64))
    }
}

/// Where an unreadable file is to be moved, so that the next boot is not blocked
/// by it. `taken` says which of the places hold a file already.
///
/// Renamed rather than deleted: it is the only evidence of whatever went wrong.
/// With every place taken, stop accumulating and reuse the first.
pub fn quarantine(path: &str, taken: &Vec<bool>) -> (r: String)
    ensures
        r@ == quarantine_path(path@, free_slot(taken@, 0)),
{
    let mut i: usize = 0;
    while i < QUARANTINE_SLOTS && i < taken.len() && taken[i]
        invariant
            i <= QUARANTINE_SLOTS,
            free_slot(taken@, 0) == free_slot(taken@, i as nat),
        decreases QUARANTINE_SLOTS - i,
    {
        i += 1;
    }
    if i < QUARANTINE_SLOTS {
        quarantine_candidate(path, i)
    } else {
        quarantine_candidate(path, 0)
    }
}

/// As long as a place is free, no evidence is written over.
pub proof fn evidence_is_not_overwritten(taken: Seq<bool>, i: nat, free: nat)
    requires
        i <= free < QUARANTINE_SLOTS,
        !is_taken(taken, free),
    ensures
        free_slot(taken, i) < QUARANTINE_SLOTS,
        !is_taken(taken, free_slot(taken, i)),
    decreases QUARANTINE_SLOTS - i,
{
    if is_taken(taken, i) {
        evidence_is_not_overwritten(taken, i + 1, free);
    }
}

/// What reading the file came to.
#[derive(Debug)]
pub enum StoredState {
    /// There is no file.
    Missing,
    /// The file could not be read.
    Unreadable,
    /// The file does not hold a state.
    Corrupt,
    Parsed(DaemonState),
}

/// The state to start with, and whether the file is to be moved aside.
///
/// **A corrupt file is never an error.** The file is written on a path that can
/// be interrupted by a crash or a full disk, and refusing to start over it turns
/// a recoverable loss of bookkeeping into an outage of the whole broker.
pub fn load_state(stored: StoredState) -> (r: (DaemonState, bool))
    ensures
        match stored {
            StoredState::Parsed(state) => r.0 == state && !r.1,
            _ => {
                &&& r.0.seq_block == 0
                &&& r.0.named_sessions.wf()
                &&& r.0.named_sessions@ == Map::<Seq<char>, PersistedSession>::empty()
                &&& r.1 == (stored is Corrupt)
            },
        },
{
    match stored {
        StoredState::Missing => (DaemonState::default(), false),
        StoredState::Unreadable => (DaemonState::default(), false),
        StoredState::Corrupt => (DaemonState::default(), true),
        StoredState::Parsed(state) => (state, false),
    }
}

/// ASCII white space.
pub open spec fn is_ascii_space(c: char) -> bool {
    c == ' ' || c == '\t' || c == '\n' || c == '\r' || c == '\u{c}'
}

/// Whether a value says nothing: it is empty, or white space only.
pub open spec fn is_blank_text(s: Seq<char>) -> bool {
    forall|i: int| 0 <= i < s.len() ==> is_ascii_space(#[trigger] s[i])
}

fn is_blank(s: &str) -> (r: bool)
    ensures
        r == is_blank_text(s@),
{
    let chars = text::chars_of(s);
    let mut i: usize = 0;
    while i < chars.len()
        invariant
            chars@ == s@,
            i <= chars@.len(),
            forall|k: int| 0 <= k < i ==> is_ascii_space(#[trigger] s@[k]),
        decreases chars@.len() - i,
    {
        let c = chars[i];
        if !(c == ' ' || c == '\t' || c == '\n' || c == '\r' || c == '\u{c}') {
            proof {
                assert(!is_ascii_space(s@[i as int]));
            }
            return false;
        }
        i += 1;
    }
    true
}

/// Whether an override of the configuration directory can be used. Blank means
/// that it is unset for this invocation; a relative one would resolve
/// differently in a daemon and in its clients.
pub open spec fn is_usable_override(dir: Seq<char>) -> bool {
    !is_blank_text(dir) && dir[0] == '/'
}

/// Whether an override of the configuration directory can be used.
pub fn usable_override(dir: &str) -> (r: bool)
    ensures
        r == is_usable_override(dir@),
{
    let chars = text::chars_of(dir);
    if is_blank(dir) {
        return false;
    }
    proof {
        assert(dir@.len() > 0);
    }
    chars[0] == '/'
}

/// Whether an override was given that will not be used, so that a caller can say
/// so instead of silently using the default. A blank one is no mistake.
pub fn ignored_config_dir_override(dir: &str) -> (r: bool)
    ensures
        r == (!is_blank_text(dir@) && !is_usable_override(dir@)),
{
    !is_blank(dir) && !usable_override(dir)
}

/// The configuration directory: the override where it can be used, else under
/// the home directory, else under the current one.
pub open spec fn config_dir_of(
    override_dir: Option<Seq<char>>,
    home: Option<Seq<char>>,
) -> Seq<char> {
    if override_dir matches Some(dir) && is_usable_override(dir) {
        override_dir->0
    } else {
        directory_prefix(
            match home {
                Some(h) => if is_blank_text(h) {
                    "."@
                } else {
                    h
                },
                None => "."@,
            },
        ) + ".config/logmon"@
    }
}

/// The configuration directory.
pub fn config_dir_from(override_dir: Option<&str>, home: Option<&str>) -> (r: String)
    ensures
        r@ == config_dir_of(text::optional_str(override_dir), text::optional_str(home)),
{
    if let Some(dir) = override_dir {
        if usable_override(dir) {
            return text::owned(dir);
        }
    }
    let base = match home {
        Some(h) => if is_blank(h) {
            "."
        } else {
            h
        },
        None => ".",
    };
    let chars = text::chars_of(base);
    if chars.len() == 0 || chars[chars.len() - 1] == '/' {
        text::join2(base, ".config/logmon")
    } else {
        proof {
            reveal_strlit("/");
            assert("/"@ =~= seq!['/']);
            assert(base@ + "/"@ =~= base@.push('/'));
        }
        text::join3(base, "/", ".config/logmon")
    }
}

/// Processes that share an environment agree on the directory, whatever
/// directories they run in: it is absolute, or it is found without regard to the
/// override.
pub proof fn overrides_never_depend_on_the_working_directory(
    override_dir: Option<Seq<char>>,
    home: Option<Seq<char>>,
)
    ensures
        override_dir matches Some(dir) && is_usable_override(dir) ==> config_dir_of(
            override_dir,
            home,
        ) == override_dir->0 && override_dir->0[0] == '/',
        !(override_dir matches Some(dir) && is_usable_override(dir)) ==> config_dir_of(
            override_dir,
            home,
        ) == config_dir_of(None, home),
{
}

/// Two files that are kept aside never share a place.
pub proof fn evidence_is_kept_apart(path: Seq<char>, m: nat, n: nat)
    requires
        quarantine_path(path, m) == quarantine_path(path, n),
    ensures
        m == n,
{
    let head = path + ".corrupt"@;
    if m > 0 && n > 0 {
        let a = head + "."@ + decimal_text(m);
        let b = head + "."@ + decimal_text(n);
        assert(a == b);
        let k = (head + "."@).len() as int;
        assert(a.skip(k) =~= decimal_text(m));
        assert(b.skip(k) =~= decimal_text(n));
        text::decimal_reads_back(m);
        text::decimal_reads_back(n);
    } else if m > 0 || n > 0 {
        reveal_strlit(".");
        assert(quarantine_path(path, if m > 0 { m } else { n }).len() > head.len());
    }
}

/// A file is kept aside in the first place that is free: all before it are taken.
pub proof fn the_first_free_place_is_taken(taken: Seq<bool>, i: nat, k: nat)
    requires
        i <= k < free_slot(taken, i),
    ensures
        k < taken.len(),
        taken[k as int],
    decreases 10 - i,
{
    if i < k {
        the_first_free_place_is_taken(taken, i + 1, k);
    }
}

/// Where all ten places are taken, the first of all is used again.
pub proof fn full_places_begin_again(taken: Seq<bool>, i: nat)
    requires
        i <= 10,
        10 <= taken.len(),
        forall|j: int| 0 <= j < 10 ==> (#[trigger] taken[j]) == true,
    ensures
        free_slot(taken, i) == 0,
    decreases 10 - i,
{
    if i < 10 {
        assert(taken[i as int] == true);
        full_places_begin_again(taken, i + 1);
    }
}

/// Without an override the configuration lies under the home directory, and under the
/// current one where there is no home.
pub proof fn configuration_lies_under_the_home(home: Seq<char>, blank: Seq<char>, i: int)
    requires
        0 <= i < home.len(),
        home[i] != ' ' && home[i] != '\t' && home[i] != '\n' && home[i] != '\r' && home[i]
            != '\u{c}',
    ensures
        home.last() == '/' ==> config_dir_of(None, Some(home)) == home + ".config/logmon"@,
        home.last() != '/' ==> config_dir_of(None, Some(home)) == home + "/.config/logmon"@,
        config_dir_of(None, None) == "./.config/logmon"@,
        config_dir_of(None, Some(seq![])) == "./.config/logmon"@,
        is_blank_text(blank) ==> config_dir_of(Some(blank), Some(home)) == config_dir_of(
            None,
            Some(home),
        ),
        home[0] == '/' ==> config_dir_of(Some(home), None) == home,
        home[0] != '/' ==> config_dir_of(Some(home), None) == config_dir_of(None, None),
{
    reveal_strlit(".");
    reveal_strlit(".config/logmon");
    reveal_strlit("/.config/logmon");
    reveal_strlit("./.config/logmon");
    assert(!is_blank_text(home)) by {
        assert(!is_ascii_space(home[i]));
    }
    assert(!is_blank_text("."@)) by {
        assert(!is_ascii_space("."@[0]));
    }
    assert(home.push('/') + ".config/logmon"@ =~= home + "/.config/logmon"@);
    assert("."@.push('/') + ".config/logmon"@ =~= "./.config/logmon"@);
}

/// A state that was kept is taken up as it was; without one a daemon starts afresh, and
/// only a file that holds no state is moved aside.
pub proof fn kept_states_are_taken_up(stored: StoredState, r: (DaemonState, bool))
    requires
        call_ensures(load_state, (stored,), r),
    ensures
        stored matches StoredState::Parsed(state) ==> r.0 == state,
        !(stored is Parsed) ==> r.0.seq_block == 0 && r.0.named_sessions@ == Map::<
            Seq<char>,
            PersistedSession,
        >::empty(),
        r.1 <==> stored is Corrupt,
{
}

} // verus!
