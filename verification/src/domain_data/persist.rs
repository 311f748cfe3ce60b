//! Registry persistence: which file a domain's registry lives in, what a file
//! found there becomes, and logmon's own keys.
//!
//! Registries are keyed by **domain**, and many sessions bind one domain by
//! design, so a write serializes a snapshot and replaces the file while no
//! other write of that domain runs.
use super::entry::{Entry, EntryView};
use super::path::{reserved, reserved_root};
use super::store::{entry_views, reserved_set, Registry, RegistryView};
use crate::clock::Timestamp;
use crate::text;
use crate::text::{decimal_text, hex_text, lowercase_text, u64_of};
use crate::text_map::{lemma_prefix_map, pairs_map, TextMap};
use vstd::prelude::*;
use vstd::utf8::encode_utf8;

verus! {

broadcast use vstd::string::group_string_axioms;

/// Bumped only when a change cannot be expressed additively. A file whose
/// version this build does not know is quarantined rather than guessed at.
pub const FORMAT_VERSION: u32 = 1;

/// Subdirectory under the config dir.
///
/// Not optional, and not cosmetic. `config` and `state` are both legal domain
/// names, so a flat layout would put a registry's `state.json` on top of the
/// daemon's.
pub const DOMAIN_DATA_DIR: &'static str = "domain_data";

/// A registry as a file holds it.
#[derive(Debug)]
pub struct PersistedRegistry {
    pub format_version: u32,
    /// The domain name as spelled, since the filename is case-folded.
    pub domain: String,
    pub entries: TextMap<Entry>,
}

/// One round of FNV-1a.
pub open spec fn fnv1a_step(h: u64, b: u8) -> u64 {
    (((h ^ (b as u64)) * 0x0000_0100_0000_01b3) % 0x1_0000_0000_0000_0000) as u64
}

/// FNV-1a over bytes.
pub open spec fn fnv1a_of(bytes: Seq<u8>) -> u64
    decreases bytes.len(),
{
    if bytes.len() == 0 {
        0xcbf2_9ce4_8422_2325
    } else {
        fnv1a_step(fnv1a_of(bytes.drop_last()), bytes.last())
    }
}

/// FNV-1a, written out.
///
/// This hash lands in a **filename**: a hash whose output may change across
/// releases would orphan every registry on disk. FNV-1a is fixed by its own
/// definition.
fn fnv1a(s: &str) -> (h: u64)
    ensures
        h == fnv1a_of(encode_utf8(s@)),
{
    let bytes = s.as_bytes();
    let mut h: u64 = 0xcbf2_9ce4_8422_2325;
    let mut i: usize = 0;
    while i < bytes.len()
        invariant
            bytes@ == encode_utf8(s@),
            i <= bytes@.len(),
            h == fnv1a_of(bytes@.take(i as int)),
        decreases bytes@.len() - i,
    {
        proof {
            assert(bytes@.take(i + 1).drop_last() =~= bytes@.take(i as int));
        }
        h = (h ^ (bytes[i] as u64)).wrapping_mul(0x0000_0100_0000_01b3);
        i += 1;
    }
    proof {
        assert(bytes@.take(bytes@.len() as int) =~= bytes@);
    }
    h
}

/// The name of the file that a domain's registry lives in.
pub open spec fn file_name_of(domain: Seq<char>) -> Seq<char> {
    lowercase_text(domain) + seq!['-'] + hex_text(
        (fnv1a_of(encode_utf8(domain)) % 0x1_0000_0000) as nat,
        8,
    ) + ".json"@
}

/// The file a domain's registry lives in.
///
/// Case-folded, with a short hash of the **original** name appended. Domain
/// names are case-sensitive, so `Build` and `build` are distinct domains, and
/// on some filesystems `Build.json` and `build.json` are the same file. Folding
/// plus a hash of the unfolded name makes distinct domains land in distinct
/// files there while keeping the mapping deterministic.
pub fn file_name_for(domain: &str) -> (r: String)
    ensures
        r@ == file_name_of(domain@),
{
    // Low 32 bits, so the suffix is a fixed 8 characters. The collision space
    // this has to separate is tiny (case variants of one name), so a short hash
    // is ample, and a name a human can still recognise matters more.
    let short: u64 = fnv1a(domain) % 0x1_0000_0000;
    let mut r = text::lowercase(domain);
    r.push('-');
    r.append(text::hex(short as u128, 8).as_str());
    r.append(".json");
    proof {
        assert(r@ =~= file_name_of(domain@));
    }
    r
}

/// `dir` as the beginning of a path: a separator behind it, where it needs one.
pub open spec fn directory_prefix(dir: Seq<char>) -> Seq<char> {
    if dir.len() == 0 || dir.last() == '/' {
        dir
    } else {
        dir.push('/')
    }
}

/// Where a domain's registry lives. A name that begins with a separator, which no
/// valid domain has, is a path of its own.
pub open spec fn path_of(config_dir: Seq<char>, domain: Seq<char>) -> Seq<char> {
    if file_name_of(domain)[0] == '/' {
        file_name_of(domain)
    } else {
        directory_prefix(config_dir) + DOMAIN_DATA_DIR@ + seq!['/'] + file_name_of(domain)
    }
}

/// Where a domain's registry lives: in [`DOMAIN_DATA_DIR`] under `config_dir`,
/// unless its file has a path of its own.
pub fn path_for(config_dir: &str, domain: &str) -> (r: String)
    ensures
        r@ == path_of(config_dir@, domain@),
{
    let name = file_name_for(domain);
    if text::chars_of(name.as_str())[0] == '/' {
        return name;
    }
    let chars = text::chars_of(config_dir);
    let mut r = text::owned(config_dir);
    if chars.len() > 0 && chars[chars.len() - 1] != '/' {
        r.push('/');
    }
    r.append(DOMAIN_DATA_DIR);
    r.push('/');
    r.append(name.as_str());
    proof {
        assert(r@ =~= directory_prefix(config_dir@) + DOMAIN_DATA_DIR@ + seq!['/'] + file_name_of(
            domain@,
        ));
    }
    r
}

/// One domain's registry and where it is kept.
#[derive(Debug)]
pub struct DomainRegistry {
    domain: String,
    path: String,
    registry: Registry,
    /// When true, mutations stay in memory and never reach `path`.
    ///
    /// **This exists for postmortem domains, and it is not a convenience.** The
    /// registry file is keyed by domain NAME and outlives the domain. Writing a
    /// three-month-old case's provenance into that file would leave it there
    /// after the postmortem domain is deleted, for the next live domain of the
    /// same name to adopt as its own.
    ephemeral: bool,
}

/// What a [`DomainRegistry`] holds.
#[verifier::ext_equal]
pub struct DomainRegistryView {
    pub domain: Seq<char>,
    pub path: Seq<char>,
    pub registry: RegistryView,
    pub ephemeral: bool,
}

impl View for DomainRegistry {
    type V = DomainRegistryView;

    closed spec fn view(&self) -> DomainRegistryView {
        DomainRegistryView {
            domain: self.domain@,
            path: self.path@,
            registry: self.registry@,
            ephemeral: self.ephemeral,
        }
    }
}

impl DomainRegistry {
    /// The registry is well formed.
    pub closed spec fn wf(&self) -> bool {
        self.registry.wf()
    }

    pub fn new(domain: String, path: String, registry: Registry) -> (r: Self)
        requires
            registry.wf(),
        ensures
            r.wf(),
            r@ == (DomainRegistryView {
                domain: domain@,
                path: path@,
                registry: registry@,
                ephemeral: false,
            }),
    {
        DomainRegistry { domain, path, registry, ephemeral: false }
    }

    /// A registry that lives and dies with its domain.
    pub fn in_memory(domain: String, registry: Registry) -> (r: Self)
        requires
            registry.wf(),
        ensures
            r.wf(),
            r@ == (DomainRegistryView {
                domain: domain@,
                path: Seq::empty(),
                registry: registry@,
                ephemeral: true,
            }),
    {
        DomainRegistry { domain, path: String::new(), registry, ephemeral: true }
    }

    pub fn domain(&self) -> (r: &str)
        ensures
            r@ == self@.domain,
    {
        self.domain.as_str()
    }

    pub fn path(&self) -> (r: &str)
        ensures
            r@ == self@.path,
    {
        self.path.as_str()
    }

    pub fn is_ephemeral(&self) -> (r: bool)
        ensures
            r == self@.ephemeral,
    {
        self.ephemeral
    }

    /// The registry, for reading.
    pub fn read(&self) -> (r: &Registry)
        requires
            self.wf(),
        ensures
            r.wf(),
            r@ == self@.registry,
    {
        &self.registry
    }

    /// The registry, for writing. What is written reaches the file only by a
    /// [`DomainRegistry::snapshot`] taken afterwards.
    pub fn mutate(&mut self) -> (r: &mut Registry)
        requires
            old(self).wf(),
        ensures
            (*r).wf(),
            (*r)@ == old(self)@.registry,
            final(r).wf() ==> final(self).wf(),
            final(self)@ == (DomainRegistryView { registry: final(r)@, ..old(self)@ }),
    {
        &mut self.registry
    }

    /// What a write puts into the file: the whole registry, or nothing where
    /// there is no file to put it in.
    pub fn snapshot(&self) -> (r: Option<PersistedRegistry>)
        requires
            self.wf(),
        ensures
            match r {
                None => self@.ephemeral,
                Some(p) => {
                    &&& !self@.ephemeral
                    &&& p.format_version == FORMAT_VERSION
                    &&& p.domain@ == self@.domain
                    &&& p.entries.wf()
                    &&& entry_views(p.entries@) == self@.registry.entries
                },
            },
    {
        if self.ephemeral {
            return None;
        }
        Some(
            PersistedRegistry {
                format_version: FORMAT_VERSION,
                domain: self.domain.clone(),
                entries: copy_entries(self.registry.entries()),
            },
        )
    }
}

fn copy_entries(from: &TextMap<Entry>) -> (r: TextMap<Entry>)
    requires
        from.wf(),
    ensures
        r.wf(),
        entry_views(r@) == entry_views(from@),
{
    let ghost pairs = from.pairs();
    let mut r: TextMap<Entry> = TextMap::new();
    let mut i: usize = 0;
    proof {
        lemma_prefix_map(pairs, 0);
        assert(entry_views(r@) =~= entry_views(pairs_map(pairs.take(0))));
    }
    while i < from.len()
        invariant
            from.wf(),
            pairs == from.pairs(),
            r.wf(),
            i <= pairs.len(),
            entry_views(r@) == entry_views(pairs_map(pairs.take(i as int))),
        decreases pairs.len() - i,
    {
        let ghost before = r@;
        let key = from.key_at(i).clone();
        let entry = from.value_at(i).clone();
        let ghost k = key@;
        let ghost v = entry@;
        r.insert(key, entry);
        proof {
            lemma_prefix_map(pairs, i + 1);
            assert(entry_views(r@) =~= entry_views(before).insert(k, v));
            assert(entry_views(pairs_map(pairs.take(i as int)).insert(pairs[i as int].0, pairs[i as int].1))
                =~= entry_views(pairs_map(pairs.take(i as int))).insert(k, v));
        }
        i += 1;
    }
    proof {
        assert(pairs.take(pairs.len() as int) =~= pairs);
    }
    r
}

/// What reading a registry's file came to.
#[derive(Debug)]
pub enum StoredRegistry {
    /// There is no file.
    Missing,
    /// The file could not be read.
    Unreadable,
    /// The file does not hold a registry.
    Corrupt,
    Parsed(PersistedRegistry),
}

impl StoredRegistry {
    /// Whether the file is one that this build cannot use and moves aside.
    pub open spec fn unusable(self) -> bool {
        match self {
            StoredRegistry::Missing => false,
            StoredRegistry::Unreadable => false,
            StoredRegistry::Corrupt => true,
            StoredRegistry::Parsed(p) => p.format_version > FORMAT_VERSION,
        }
    }

    /// Whether the file is to be quarantined before [`load`] is called: it holds
    /// no registry, or one that a newer build wrote.
    pub fn needs_quarantine(&self) -> (r: bool)
        ensures
            r == self.unusable(),
    {
        match self {
            StoredRegistry::Missing => false,
            StoredRegistry::Unreadable => false,
            StoredRegistry::Corrupt => true,
            StoredRegistry::Parsed(p) => p.format_version > FORMAT_VERSION,
        }
    }
}

/// What a registry holds after reading its file.
pub open spec fn loaded(stored: StoredRegistry, quarantined: bool) -> RegistryView {
    RegistryView {
        entries: match stored {
            StoredRegistry::Parsed(p) => if p.format_version <= FORMAT_VERSION {
                entry_views(p.entries@)
            } else {
                Map::empty()
            },
            _ => Map::empty(),
        },
        saw_quarantine: stored is Unreadable || (stored.unusable() && quarantined),
    }
}

/// One domain's registry, from what reading its file came to. `quarantined`
/// says whether a file that needed it was moved aside.
///
/// A missing file is a new registry, not an error. An unusable one leaves the
/// registry empty **with the quarantine recorded**, because that artifact is
/// the only thing that distinguishes a lost registry from a never-written one,
/// which is what `unknown`'s cause leans on.
pub fn load(stored: StoredRegistry, quarantined: bool) -> (r: Registry)
    requires
        stored matches StoredRegistry::Parsed(p) ==> p.entries.wf(),
    ensures
        r.wf(),
        r@ == loaded(stored, quarantined),
{
    let unusable = stored.needs_quarantine();
    match stored {
        StoredRegistry::Missing => Registry::new(),
        StoredRegistry::Unreadable => {
            let mut r = Registry::new();
            r.note_quarantined();
            r
        },
        StoredRegistry::Corrupt => lost(quarantined),
        StoredRegistry::Parsed(p) => {
            if unusable {
                lost(quarantined)
            } else {
                Registry::from_entries(p.entries)
            }
        },
    }
}

fn lost(quarantined: bool) -> (r: Registry)
    ensures
        r.wf(),
        r@ == (RegistryView { entries: Map::empty(), saw_quarantine: quarantined }),
{
    let mut r = Registry::new();
    if quarantined {
        r.note_quarantined();
    }
    r
}

/// `r` after logmon stamped its own keys at boot.
pub open spec fn booted(
    r: RegistryView,
    domain: Seq<char>,
    version: Seq<char>,
    now: Timestamp,
) -> RegistryView {
    let named = reserved_set(r, "/logmon/domain"@, domain, now);
    let versioned = reserved_set(named, "/logmon/version"@, version, now);
    if r.entries == Map::<Seq<char>, EntryView>::empty() {
        let seen = reserved_set(versioned, "/logmon/first_seen"@, now.rfc3339(), now);
        let era = reserved_set(seen, "/logmon/incarnation"@, "1"@, now);
        reserved_set(era, "/logmon/incarnation_started"@, now.rfc3339(), now)
    } else {
        versioned
    }
}

/// Logmon's own keys, refreshed at boot.
///
/// `/logmon/version` moves only `validated_at` on a same-version boot and both
/// timestamps on an upgrade. The key then reads *"0.9.0, created 3 days ago,
/// validated 2 minutes ago"*: on this version for three days, and running now.
pub fn stamp_boot(r: &mut Registry, domain: &str, version: &str, now: Timestamp)
    requires
        old(r).wf(),
    ensures
        final(r).wf(),
        final(r)@ == booted(old(r)@, domain@, version@, now),
{
    let is_new = r.has_no_entries();
    let _ = r.set_reserved("/logmon/domain", text::owned(domain), now);
    let _ = r.set_reserved("/logmon/version", text::owned(version), now);
    if is_new {
        let _ = r.set_reserved("/logmon/first_seen", now.to_rfc3339(), now);
        let _ = r.set_reserved("/logmon/incarnation", text::owned("1"), now);
        let _ = r.set_reserved("/logmon/incarnation_started", now.to_rfc3339(), now);
    }
}

/// The era that a registry has recorded.
pub open spec fn recorded_era(r: RegistryView) -> Option<u64> {
    if r.entries.contains_key("/logmon/incarnation"@) {
        u64_of(r.entries["/logmon/incarnation"@].value)
    } else {
        None
    }
}

/// The era after `n`.
pub open spec fn next_era(n: u64) -> nat {
    if n == u64::MAX {
        n as nat
    } else {
        (n + 1) as nat
    }
}

/// `r` after a new era was counted.
pub open spec fn era_counted(r: RegistryView, now: Timestamp) -> RegistryView {
    match recorded_era(r) {
        None => r,
        Some(n) => reserved_set(
            reserved_set(r, "/logmon/incarnation"@, decimal_text(next_era(n)), now),
            "/logmon/incarnation_started"@,
            now.rfc3339(),
            now,
        ),
    }
}

/// Count a new era. Says whether there was one to count, which is when the
/// registry has changed and is to be written.
///
/// **Anchored to the seq origin, not to domain creation**: the event that makes
/// two seq ranges incomparable is a counter seeded at 0 for a name whose
/// registry already exists. That is the only thing this counter is for.
pub fn note_seq_origin(r: &mut Registry, now: Timestamp) -> (counted: bool)
    requires
        old(r).wf(),
    ensures
        final(r).wf(),
        final(r)@ == era_counted(old(r)@, now),
        counted == (recorded_era(old(r)@) is Some),
{
    let previous: Option<u64> = match r.get("/logmon/incarnation") {
        Some(e) => text::parse_u64(&e.value),
        None => None,
    };
    match previous {
        // No prior registry: `stamp_boot` seeds era 1. Nothing to advance.
        None => false,
        Some(n) => {
            let next: u64 = n.saturating_add(1);
            let _ = r.set_reserved("/logmon/incarnation", text::decimal(next), now);
            let _ = r.set_reserved("/logmon/incarnation_started", now.to_rfc3339(), now);
            true
        },
    }
}

proof fn lemma_own_keys_are_reserved()
    ensures
        reserved("/logmon/domain"@),
        reserved("/logmon/version"@),
        reserved("/logmon/first_seen"@),
        reserved("/logmon/incarnation"@),
        reserved("/logmon/incarnation_started"@),
        "/logmon/domain"@ != "/logmon/version"@,
        "/logmon/domain"@ != "/logmon/first_seen"@,
        "/logmon/domain"@ != "/logmon/incarnation"@,
        "/logmon/version"@ != "/logmon/first_seen"@,
        "/logmon/version"@ != "/logmon/incarnation"@,
        "/logmon/first_seen"@ != "/logmon/incarnation"@,
        "/logmon/incarnation"@ != "/logmon/incarnation_started"@,
{
    let root = reserved_root();
    reveal_strlit("/logmon/domain");
    reveal_strlit("/logmon/version");
    reveal_strlit("/logmon/first_seen");
    reveal_strlit("/logmon/incarnation");
    reveal_strlit("/logmon/incarnation_started");
    assert("/logmon/domain"@.take(7) =~= root);
    assert("/logmon/version"@.take(7) =~= root);
    assert("/logmon/first_seen"@.take(7) =~= root);
    assert("/logmon/incarnation"@.take(7) =~= root);
    assert("/logmon/incarnation_started"@.take(7) =~= root);
    assert("/logmon/domain"@.len() != "/logmon/version"@.len());
    assert("/logmon/first_seen"@[8] == 'f' && "/logmon/incarnation"@[8] == 'i');
    assert("/logmon/version"@[8] == 'v' && "/logmon/domain"@[8] == 'd');
}

/// A boot on the same version confirms what is recorded and rewrites none of it:
/// the name and the version keep their values and their dates of creation, and
/// every other key, the era and the first sighting among them, stays as it is.
pub proof fn same_version_boots_only_confirm(
    r: RegistryView,
    domain: Seq<char>,
    version: Seq<char>,
    now: Timestamp,
    key: Seq<char>,
)
    requires
        r.entries.contains_key("/logmon/domain"@),
        r.entries["/logmon/domain"@].value == domain,
        r.entries.contains_key("/logmon/version"@),
        r.entries["/logmon/version"@].value == version,
    ensures
        ({
            let after = booted(r, domain, version, now);
            &&& after.entries["/logmon/version"@].value == version
            &&& after.entries["/logmon/version"@].created_at
                == r.entries["/logmon/version"@].created_at
            &&& after.entries["/logmon/version"@].validated_at == now.later_of(
                r.entries["/logmon/version"@].created_at,
            )
            &&& after.entries["/logmon/domain"@].value == domain
            &&& after.entries["/logmon/domain"@].created_at
                == r.entries["/logmon/domain"@].created_at
            &&& after.entries.contains_key(key) == r.entries.contains_key(key)
            &&& key != "/logmon/domain"@ && key != "/logmon/version"@ && r.entries.contains_key(key)
                ==> after.entries[key] == r.entries[key]
        }),
{
    lemma_own_keys_are_reserved();
    assert(r.entries != Map::<Seq<char>, EntryView>::empty());
}

/// An upgrade moves both dates of the version, and the first sighting of an old
/// registry is never written again.
pub proof fn upgrades_are_dated(
    r: RegistryView,
    domain: Seq<char>,
    version: Seq<char>,
    now: Timestamp,
)
    requires
        r.entries.contains_key("/logmon/version"@),
        r.entries["/logmon/version"@].value != version,
    ensures
        ({
            let after = booted(r, domain, version, now);
            &&& after.entries["/logmon/version"@].value == version
            &&& after.entries["/logmon/version"@].created_at == now
            &&& after.entries["/logmon/version"@].validated_at == now
            &&& r.entries.contains_key("/logmon/first_seen"@)
                ==> after.entries["/logmon/first_seen"@] == r.entries["/logmon/first_seen"@]
        }),
{
    lemma_own_keys_are_reserved();
    assert(r.entries != Map::<Seq<char>, EntryView>::empty());
}

/// A new registry starts in the first era, first seen now.
pub proof fn new_registries_start_in_the_first_era(
    domain: Seq<char>,
    version: Seq<char>,
    now: Timestamp,
    quarantined: bool,
)
    ensures
        ({
            let r = RegistryView { entries: Map::empty(), saw_quarantine: quarantined };
            let after = booted(r, domain, version, now);
            &&& recorded_era(after) == Some(1u64)
            &&& after.entries["/logmon/first_seen"@].value == now.rfc3339()
            &&& after.entries["/logmon/domain"@].value == domain
            &&& after.entries["/logmon/version"@].value == version
        }),
{
    lemma_own_keys_are_reserved();
    reveal_strlit("1");
    assert("1"@ =~= decimal_text(1));
    text::decimal_parses_back(1);
    let r = RegistryView { entries: Map::empty(), saw_quarantine: quarantined };
    assert(r.entries == Map::<Seq<char>, EntryView>::empty());
    assert("/logmon/first_seen"@ != "/logmon/incarnation_started"@
        && "/logmon/domain"@ != "/logmon/incarnation_started"@
        && "/logmon/version"@ != "/logmon/incarnation_started"@) by {
        reveal_strlit("/logmon/domain");
        reveal_strlit("/logmon/version");
        reveal_strlit("/logmon/first_seen");
        reveal_strlit("/logmon/incarnation_started");
    }
}

/// A seq origin advances the era by one, and only where an era was recorded.
pub proof fn eras_advance_by_one(r: RegistryView, now: Timestamp)
    ensures
        match recorded_era(r) {
            None => era_counted(r, now) == r,
            Some(n) => recorded_era(era_counted(r, now)) == Some(next_era(n) as u64),
        },
{
    lemma_own_keys_are_reserved();
    if let Some(n) = recorded_era(r) {
        text::decimal_parses_back(next_era(n) as u64);
    }
}

/// A registry lives in the directory of registries, in a file that its domain's name begins
/// and `.json` ends.
pub proof fn registries_live_under_their_names(config_dir: Seq<char>, domain: Seq<char>)
    requires
        lowercase_text(domain).len() > 0,
        lowercase_text(domain)[0] != '/',
    ensures
        ({
            let path = path_of(config_dir, domain);
            let begin = if config_dir.len() == 0 || config_dir.last() == '/' {
                config_dir + "domain_data/"@ + lowercase_text(domain) + "-"@
            } else {
                config_dir + "/domain_data/"@ + lowercase_text(domain) + "-"@
            };
            &&& begin.len() < path.len()
            &&& path.take(begin.len() as int) == begin
            &&& path.skip(path.len() - 5) == ".json"@
        }),
{
    reveal_strlit("domain_data");
    reveal_strlit("domain_data/");
    reveal_strlit("/domain_data/");
    reveal_strlit("-");
    reveal_strlit(".json");
    let file = file_name_of(domain);
    assert(file[0] == lowercase_text(domain)[0]);
    let path = path_of(config_dir, domain);
    let begin = if config_dir.len() == 0 || config_dir.last() == '/' {
        config_dir + "domain_data/"@ + lowercase_text(domain) + "-"@
    } else {
        config_dir + "/domain_data/"@ + lowercase_text(domain) + "-"@
    };
    assert(path.take(begin.len() as int) =~= begin);
    assert(path.skip(path.len() - 5) =~= ".json"@);
}

/// A registry that was kept is read back as it was; one that cannot be read is none, and
/// that it was there is remembered where it was moved aside or could not be read at all.
pub proof fn kept_registries_are_read_back(stored: StoredRegistry, quarantined: bool)
    ensures
        stored matches StoredRegistry::Parsed(p) ==> {
            &&& p.format_version <= 1 ==> loaded(stored, quarantined).entries == entry_views(
                p.entries@,
            ) && !loaded(stored, quarantined).saw_quarantine
            &&& p.format_version > 1 ==> loaded(stored, quarantined).entries == Map::<
                Seq<char>,
                EntryView,
            >::empty() && loaded(stored, quarantined).saw_quarantine == quarantined
        },
        stored is Missing ==> loaded(stored, quarantined).entries == Map::<Seq<char>, EntryView>::empty()
            && !loaded(stored, quarantined).saw_quarantine,
        stored is Corrupt ==> loaded(stored, quarantined).entries == Map::<Seq<char>, EntryView>::empty()
            && loaded(stored, quarantined).saw_quarantine == quarantined,
        stored is Unreadable ==> loaded(stored, quarantined).entries == Map::<
            Seq<char>,
            EntryView,
        >::empty() && loaded(stored, quarantined).saw_quarantine,
        stored.unusable() ==> !(stored is Missing) && !(stored is Unreadable),
{
}

/// A registry's file name is its domain's name, a hyphen, eight hexadecimal digits and
/// `.json`; the digits tell names apart that only differ in case, as far as 32 bits can.
pub proof fn file_names_end_in_eight_digits(domain: Seq<char>)
    ensures
        ({
            let n = lowercase_text(domain).len() as int;
            let file = file_name_of(domain);
            &&& file.len() == n + 14
            &&& file.take(n) == lowercase_text(domain)
            &&& file[n] == '-'
            &&& text::hex_of(file.subrange(n + 1, n + 9)) == Some(
                (fnv1a_of(encode_utf8(domain)) % 0x1_0000_0000) as nat,
            )
            &&& file.skip(n + 9) == ".json"@
        }),
{
    reveal_strlit(".json");
    let n = lowercase_text(domain).len() as int;
    let file = file_name_of(domain);
    let h = (fnv1a_of(encode_utf8(domain)) % 0x1_0000_0000) as nat;
    reveal_with_fuel(text::hex_range, 9);
    assert(text::hex_range(8) == 0x1_0000_0000);
    text::hexadecimal_reads_back(h, 8);
    assert(file.take(n) =~= lowercase_text(domain));
    assert(file.subrange(n + 1, n + 9) =~= hex_text(h, 8));
    assert(file.skip(n + 9) =~= ".json"@);
}

/// The digits come of every byte of the name, one after the other, from a fixed beginning.
pub proof fn digests_take_every_byte(bytes: Seq<u8>, b: u8)
    ensures
        fnv1a_of(seq![]) == 0xcbf2_9ce4_8422_2325,
        fnv1a_of(bytes.push(b)) == ((fnv1a_of(bytes) ^ (b as u64)) * 0x0000_0100_0000_01b3)
            % 0x1_0000_0000_0000_0000,
{
    assert(bytes.push(b).drop_last() =~= bytes);
}

} // verus!
