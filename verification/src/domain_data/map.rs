//! The daemon-wide map of per-domain registries.
use crate::clock::Timestamp;
use crate::domain_data::persist;
use crate::domain_data::persist::{
    booted, era_counted, loaded, recorded_era, DomainRegistry, DomainRegistryView, StoredRegistry,
};
use crate::domain_data::store::RegistryView;
use crate::text;
use crate::text_map::{lemma_updated, TextMap};
use vstd::prelude::*;

verus! {

broadcast use vstd::string::group_string_axioms;

/// Holds one [`DomainRegistry`] per domain that has been touched.
///
/// **Registries open lazily, on the first `domain_data` call for a domain.**
/// Opening at domain creation would write a permanent file for every domain that
/// ever existed, and one domain per test run is a topology worth recommending.
///
/// The visible consequence: a `get` on a never-touched domain returns nothing at
/// all, which is the honest answer, as no provenance was ever recorded there.
#[derive(Debug)]
pub struct DomainDataStore {
    config_dir: String,
    broker_version: String,
    open: TextMap<DomainRegistry>,
}

/// What a [`DomainDataStore`] holds.
#[verifier::ext_equal]
pub struct DomainDataView {
    pub config_dir: Seq<char>,
    pub broker_version: Seq<char>,
    pub open: Map<Seq<char>, DomainRegistryView>,
}

/// The registries of a map, each by what it holds.
pub open spec fn registry_views(m: Map<Seq<char>, DomainRegistry>) -> Map<
    Seq<char>,
    DomainRegistryView,
> {
    m.map_values(|r: DomainRegistry| r@)
}

impl View for DomainDataStore {
    type V = DomainDataView;

    closed spec fn view(&self) -> DomainDataView {
        DomainDataView {
            config_dir: self.config_dir@,
            broker_version: self.broker_version@,
            open: registry_views(self.open@),
        }
    }
}

/// A registry that was just opened.
pub open spec fn opened_registry(
    s: DomainDataView,
    domain: Seq<char>,
    stored: StoredRegistry,
    quarantined: bool,
    now: Timestamp,
) -> DomainRegistryView {
    DomainRegistryView {
        domain,
        path: persist::path_of(s.config_dir, domain),
        registry: booted(loaded(stored, quarantined), domain, s.broker_version, now),
        ephemeral: false,
    }
}

impl DomainDataView {
    /// With a domain's registry open. One that is open already stays as it is.
    pub open spec fn with_open(
        self,
        domain: Seq<char>,
        stored: StoredRegistry,
        quarantined: bool,
        now: Timestamp,
    ) -> DomainDataView {
        if self.open.contains_key(domain) {
            self
        } else {
            DomainDataView {
                open: self.open.insert(
                    domain,
                    opened_registry(self, domain, stored, quarantined, now),
                ),
                ..self
            }
        }
    }

    /// With a domain's registry open for reading: only where it has a file.
    pub open spec fn with_read(
        self,
        domain: Seq<char>,
        file_exists: bool,
        stored: StoredRegistry,
        quarantined: bool,
        now: Timestamp,
    ) -> DomainDataView {
        if file_exists {
            self.with_open(domain, stored, quarantined, now)
        } else {
            self
        }
    }

    /// What is recorded of a domain: nothing, where its registry is not open.
    pub open spec fn held(self, domain: Seq<char>) -> RegistryView {
        if self.open.contains_key(domain) {
            self.open[domain].registry
        } else {
            RegistryView { entries: Map::empty(), saw_quarantine: false }
        }
    }

    /// With a new era counted in an open registry.
    pub open spec fn with_era(self, domain: Seq<char>, now: Timestamp) -> DomainDataView {
        DomainDataView {
            open: self.open.insert(
                domain,
                DomainRegistryView {
                    registry: era_counted(self.open[domain].registry, now),
                    ..self.open[domain]
                },
            ),
            ..self
        }
    }
}

/// Whether what was read of a file can be used: its entries are in key order.
pub open spec fn readable(stored: StoredRegistry) -> bool {
    stored matches StoredRegistry::Parsed(p) ==> p.entries.wf()
}

impl DomainDataStore {
    /// Every open registry is well formed.
    pub closed spec fn wf(&self) -> bool {
        &&& self.open.wf()
        &&& forall|k: Seq<char>| #[trigger] self.open@.contains_key(k) ==> self.open@[k].wf()
    }

    pub fn new(config_dir: String, broker_version: String) -> (r: Self)
        ensures
            r.wf(),
            r@ == (DomainDataView {
                config_dir: config_dir@,
                broker_version: broker_version@,
                open: Map::empty(),
            }),
    {
        let r = DomainDataStore { config_dir, broker_version, open: TextMap::new() };
        proof {
            assert(r@.open =~= Map::empty());
        }
        r
    }

    /// Where a domain's registry is kept.
    pub fn path_of(&self, domain: &str) -> (r: String)
        ensures
            r@ == persist::path_of(self@.config_dir, domain@),
    {
        persist::path_for(&self.config_dir, domain)
    }

    /// Whether a domain's registry is open, so that its file need not be read.
    pub fn is_open(&self, domain: &str) -> (r: bool)
        requires
            self.wf(),
        ensures
            r == self@.open.contains_key(domain@),
    {
        self.open.get(domain).is_some()
    }

    /// Open a domain's registry, unless it is open: from what reading its file
    /// came to, with logmon's own keys stamped. Says whether it was opened,
    /// which is when it is to be written.
    pub fn for_domain(
        &mut self,
        domain: &str,
        stored: StoredRegistry,
        quarantined: bool,
        now: Timestamp,
    ) -> (opened: bool)
        requires
            old(self).wf(),
            readable(stored),
        ensures
            final(self).wf(),
            final(self)@ == old(self)@.with_open(domain@, stored, quarantined, now),
            final(self)@.open.contains_key(domain@),
            opened == !old(self)@.open.contains_key(domain@),
    {
        if self.is_open(domain) {
            return false;
        }
        let ghost before = self@;
        let path = persist::path_for(&self.config_dir, domain);
        let mut registry = persist::load(stored, quarantined);
        persist::stamp_boot(&mut registry, domain, &self.broker_version, now);
        let opened = DomainRegistry::new(text::owned(domain), path, registry);
        let ghost view = opened@;
        self.open.insert(text::owned(domain), opened);
        proof {
            assert(self@.open =~= before.open.insert(domain@, view));
        }
        true
    }

    /// Open a domain's registry to be read, unless it is open or there is no file.
    /// Reading conjures none up: of a domain that nobody recorded anything for,
    /// nothing is reported. Says whether it was opened, which is when it is to be
    /// written.
    pub fn for_reading(
        &mut self,
        domain: &str,
        file_exists: bool,
        stored: StoredRegistry,
        quarantined: bool,
        now: Timestamp,
    ) -> (opened: bool)
        requires
            old(self).wf(),
            readable(stored),
        ensures
            final(self).wf(),
            final(self)@ == old(self)@.with_read(domain@, file_exists, stored, quarantined, now),
            opened == (file_exists && !old(self)@.open.contains_key(domain@)),
    {
        if !file_exists {
            return false;
        }
        self.for_domain(domain, stored, quarantined, now)
    }

    /// A domain's registry, where it is open.
    pub fn registry(&self, domain: &str) -> (r: Option<&DomainRegistry>)
        requires
            self.wf(),
        ensures
            match r {
                Some(reg) => {
                    &&& self@.open.contains_key(domain@)
                    &&& reg.wf()
                    &&& reg@ == self@.open[domain@]
                },
                None => !self@.open.contains_key(domain@),
            },
    {
        self.open.get(domain)
    }

    /// A domain's registry for writing, where it is open.
    pub fn registry_mut(&mut self, domain: &str) -> (r: Option<&mut DomainRegistry>)
        requires
            old(self).wf(),
        ensures
            match r {
                Some(reg) => {
                    &&& old(self)@.open.contains_key(domain@)
                    &&& (*reg).wf()
                    &&& (*reg)@ == old(self)@.open[domain@]
                    &&& final(reg).wf() ==> final(self).wf()
                    &&& final(self)@ == (DomainDataView {
                        open: old(self)@.open.insert(domain@, final(reg)@),
                        ..old(self)@
                    })
                },
                None => {
                    &&& !old(self)@.open.contains_key(domain@)
                    &&& final(self).wf()
                    &&& final(self)@ == old(self)@
                },
            },
    {
        match self.open.index_of(domain) {
            Some(i) => {
                let ghost before = self.open.pairs();
                let reg = self.open.value_mut(i);
                proof {
                    lemma_updated(before, i as int, *final(reg));
                    assert(registry_views(
                        crate::text_map::pairs_map(before).insert(domain@, *final(reg)),
                    ) =~= registry_views(crate::text_map::pairs_map(before)).insert(
                        domain@,
                        final(reg)@,
                    ));
                }
                Some(reg)
            },
            None => None,
        }
    }

    /// Count a new era for a domain whose registry file already exists. Says
    /// whether the registry is to be written.
    ///
    /// Called when a domain's seq counter is seeded at 0, the event that makes
    /// two archived seq ranges for one name incomparable. **Does nothing when no
    /// file exists**: a domain nobody recorded provenance for does not gain a
    /// registry just by being created twice.
    pub fn note_seq_origin(
        &mut self,
        domain: &str,
        file_exists: bool,
        stored: StoredRegistry,
        quarantined: bool,
        now: Timestamp,
    ) -> (changed: bool)
        requires
            old(self).wf(),
            readable(stored),
        ensures
            final(self).wf(),
            !file_exists ==> final(self)@ == old(self)@ && !changed,
            file_exists ==> {
                let held = old(self)@.with_open(domain@, stored, quarantined, now);
                &&& final(self)@ == held.with_era(domain@, now)
                &&& changed == (!old(self)@.open.contains_key(domain@) || recorded_era(
                    held.open[domain@].registry,
                ) is Some)
            },
    {
        if !file_exists {
            return false;
        }
        let opened = self.for_domain(domain, stored, quarantined, now);
        match self.registry_mut(domain) {
            Some(reg) => {
                let counted = persist::note_seq_origin(reg.mutate(), now);
                opened || counted
            },
            None => opened,
        }
    }

    /// Drop a domain's registry from memory without touching its file.
    ///
    /// Lifetime is by file, not by domain: a deleted domain that is re-created
    /// adopts its own history.
    pub fn forget(&mut self, domain: &str)
        requires
            old(self).wf(),
        ensures
            final(self).wf(),
            final(self)@ == (DomainDataView { open: old(self)@.open.remove(domain@), ..old(self)@ }),
    {
        let ghost before = self@;
        let _ = self.open.remove(domain);
        proof {
            assert(self@.open =~= before.open.remove(domain@));
        }
    }
}

/// Opening a domain twice gives the registry that the first opening gave,
/// whatever its file has come to hold, and leaves every other domain's alone.
pub proof fn a_domain_has_one_registry(
    s: DomainDataView,
    domain: Seq<char>,
    other: Seq<char>,
    first: StoredRegistry,
    second: StoredRegistry,
    quarantined: bool,
    now: Timestamp,
    later: Timestamp,
)
    ensures
        ({
            let once = s.with_open(domain, first, quarantined, now);
            &&& once.with_open(domain, second, quarantined, later) == once
            &&& other != domain && s.open.contains_key(other) ==> once.open[other] == s.open[other]
            &&& other != domain ==> once.open.contains_key(other) == s.open.contains_key(other)
        }),
{
}

/// A domain that was forgotten is read from its file again.
pub proof fn forgotten_domains_are_read_again(
    s: DomainDataView,
    domain: Seq<char>,
    stored: StoredRegistry,
    quarantined: bool,
    now: Timestamp,
)
    ensures
        ({
            let gone = DomainDataView { open: s.open.remove(domain), ..s };
            gone.with_open(domain, stored, quarantined, now).open[domain] == opened_registry(
                s,
                domain,
                stored,
                quarantined,
                now,
            )
        }),
{
}

/// A domain that is opened is read from its own file and stamped with its name and this
/// version; the others stay as they are. A domain without a file is not opened by reading.
pub proof fn domains_are_opened_from_their_file(
    s: DomainDataView,
    domain: Seq<char>,
    other: Seq<char>,
    stored: StoredRegistry,
    quarantined: bool,
    now: Timestamp,
)
    requires
        !s.open.contains_key(domain),
    ensures
        ({
            let after = s.with_read(domain, true, stored, quarantined, now);
            &&& after.open.contains_key(domain)
            &&& after.open[domain].domain == domain
            &&& after.open[domain].path == persist::path_of(s.config_dir, domain)
            &&& !after.open[domain].ephemeral
            &&& after.held(domain) == booted(
                loaded(stored, quarantined),
                domain,
                s.broker_version,
                now,
            )
            &&& other != domain ==> after.held(other) == s.held(other)
            &&& s.with_read(domain, false, stored, quarantined, now) == s
            &&& s.held(domain).entries == Map::<
                Seq<char>,
                crate::domain_data::entry::EntryView,
            >::empty()
        }),
{
}

/// A new era is counted in the domain that it begins in, and in no other.
pub proof fn eras_are_counted_by_domain(
    s: DomainDataView,
    domain: Seq<char>,
    other: Seq<char>,
    now: Timestamp,
)
    requires
        s.open.contains_key(domain),
    ensures
        s.with_era(domain, now).held(domain) == era_counted(s.held(domain), now),
        other != domain ==> s.with_era(domain, now).held(other) == s.held(other),
        s.with_era(domain, now).open[domain].path == s.open[domain].path,
{
}

} // verus!
