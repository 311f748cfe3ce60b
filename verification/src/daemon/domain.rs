//! Domains: each is a full, isolated instance of the per-broker machinery.
//!
//! A [`Domain`] owns its own seq-referencing state, all fed by a single
//! per-domain seq counter. Domains share nothing with each other, so a record
//! ingested on one domain's port is invisible to consumers bound to another.
//!
//! Sessions are global and merely bind to a domain; only data is partitioned.
//! The `default` domain is always present.
use crate::engine::pipeline::{fresh_pipeline, LogPipeline};
use crate::engine::seq_counter::SeqCounter;
use crate::receiver::metrics::ReceiverMetrics;
use crate::store::bookmarks::BookmarkStore;
use crate::text;
use crate::text_map::{
    count_keys, has_key, key_index, lemma_count_keys, lemma_map_len, lemma_pair_in_map,
    lemma_updated, precedes, TextMap,
};
use vstd::prelude::*;

verus! {

broadcast use vstd::string::group_string_axioms;

/// Whether a character may stand in the name of a session or a domain.
pub open spec fn is_name_char(c: char) -> bool {
    ('a' <= c && c <= 'z') || ('A' <= c && c <= 'Z') || ('0' <= c && c <= '9') || c == '_' || c
        == '-'
}

/// Whether a text is the name of a session or a domain.
pub open spec fn is_name(name: Seq<char>) -> bool {
    name.len() > 0 && forall|i: int| 0 <= i < name.len() ==> is_name_char(#[trigger] name[i])
}

/// Whether a text is the name of a session or a domain: one or more letters,
/// digits, `_` or `-`.
pub fn is_valid_name(name: &str) -> (r: bool)
    ensures
        r == is_name(name@),
{
    let chars = text::chars_of(name);
    let mut i: usize = 0;
    while i < chars.len()
        invariant
            chars@ == name@,
            i <= chars@.len(),
            forall|k: int| 0 <= k < i ==> is_name_char(#[trigger] name@[k]),
        decreases chars@.len() - i,
    {
        let c = chars[i];
        let letter = ('a' <= c && c <= 'z') || ('A' <= c && c <= 'Z');
        if !(letter || ('0' <= c && c <= '9') || c == '_' || c == '-') {
            proof {
                assert(!is_name_char(name@[i as int]));
            }
            return false;
        }
        i += 1;
    }
    chars.len() > 0
}

/// The name of the always-present default domain.
pub const DEFAULT_DOMAIN: &'static str = "default";

/// A validated domain identifier, by which the registry knows a domain.
#[derive(Debug, PartialEq, Eq, Hash)]
pub struct DomainId {
    name: String,
}

impl View for DomainId {
    type V = Seq<char>;

    closed spec fn view(&self) -> Seq<char> {
        self.name@
    }
}

#[derive(Debug, PartialEq, Eq)]
pub enum DomainError {
    InvalidName(String),
}

impl DomainError {
    /// The error as it is shown.
    pub fn to_text(&self) -> (r: String)
        ensures
            self matches DomainError::InvalidName(name) ==> r@ == "invalid domain name: "@ + name@,
    {
        match self {
            DomainError::InvalidName(name) => text::join2("invalid domain name: ", name),
        }
    }
}

impl DomainId {
    #[verifier::type_invariant]
    closed spec fn valid(self) -> bool {
        is_name(self.name@)
    }

    /// Construct a validated domain id, rejecting empty and out-of-charset
    /// names.
    pub fn new(name: &str) -> (r: Result<Self, DomainError>)
        ensures
            match r {
                Ok(id) => is_name(name@) && id@ == name@,
                Err(DomainError::InvalidName(s)) => !is_name(name@) && s@ == name@,
            },
    {
        if !is_valid_name(name) {
            return Err(DomainError::InvalidName(text::owned(name)));
        }
        Ok(DomainId { name: text::owned(name) })
    }

    /// The always-present `default` domain.
    pub fn default_domain() -> (r: Self)
        ensures
            r@ == DEFAULT_DOMAIN@,
    {
        proof {
            reveal_strlit("default");
            let name = "default"@;
            assert forall|i: int| 0 <= i < name.len() implies is_name_char(#[trigger] name[i]) by {
                assert(i == 0 || i == 1 || i == 2 || i == 3 || i == 4 || i == 5 || i == 6);
            }
        }
        DomainId { name: text::owned(DEFAULT_DOMAIN) }
    }

    pub fn as_str(&self) -> (r: &str)
        ensures
            r@ == self@,
    {
        self.name.as_str()
    }

    /// True for the `default` domain, the one that `domains.delete` refuses and
    /// that every session binds to until it asks for another.
    pub fn is_default(&self) -> (r: bool)
        ensures
            r == (self@ == DEFAULT_DOMAIN@),
    {
        text::same(&self.name, DEFAULT_DOMAIN)
    }

    pub fn clone(&self) -> (r: Self)
        ensures
            r@ == self@,
    {
        proof {
            use_type_invariant(self);
        }
        DomainId { name: self.name.clone() }
    }
}

/// Where a domain came from.
#[derive(Debug, Clone, Copy, PartialEq, Eq, Structural)]
pub enum DomainSource {
    /// Declared in the configuration, the implicit `default` among them;
    /// `domains.delete` refuses these.
    Config,
    /// Created to outlive a restart.
    Persistent,
    /// Created through the API; gone on restart.
    Ephemeral,
}

impl DomainSource {
    /// The name of a source.
    pub open spec fn name(self) -> Seq<char> {
        match self {
            DomainSource::Config => "config"@,
            DomainSource::Persistent => "persistent"@,
            DomainSource::Ephemeral => "ephemeral"@,
        }
    }

    pub fn as_str(&self) -> (r: &'static str)
        ensures
            r@ == self.name(),
    {
        match self {
            DomainSource::Config => "config",
            DomainSource::Persistent => "persistent",
            DomainSource::Ephemeral => "ephemeral",
        }
    }
}

/// Static description of a domain: identity, ingest ports, buffer sizes, and
/// provenance. The ports are those the domain's receivers bound; `0` means that
/// the receiver is disabled.
#[derive(Debug, PartialEq, Eq)]
pub struct DomainConfig {
    pub name: DomainId,
    pub gelf_port: u16,
    pub otlp_grpc_port: u16,
    pub otlp_http_port: u16,
    pub log_buffer_size: usize,
    pub span_buffer_size: usize,
    pub source: DomainSource,
}

/// A fully isolated instance of the per-broker machinery.
pub struct Domain {
    pub config: DomainConfig,
    pub pipeline: LogPipeline,
    pub bookmarks: BookmarkStore,
    pub metrics: ReceiverMetrics,
}

impl Domain {
    /// The parts are well formed.
    pub open spec fn wf(&self) -> bool {
        self.pipeline.wf() && self.bookmarks.wf()
    }

    /// Assemble a domain from already-constructed parts.
    pub fn from_parts(
        config: DomainConfig,
        pipeline: LogPipeline,
        bookmarks: BookmarkStore,
        metrics: ReceiverMetrics,
    ) -> (r: Self)
        requires
            pipeline.wf(),
            bookmarks.wf(),
        ensures
            r.wf(),
            r.config == config,
            r.pipeline == pipeline,
            r.bookmarks == bookmarks,
            r.metrics == metrics,
    {
        Domain { config, pipeline, bookmarks, metrics }
    }

    /// Build a brand-new domain with its own seq space, buffers, bookmarks and
    /// metrics. `initial_seq` seeds the domain's seq counter.
    pub fn new(config: DomainConfig, initial_seq: u64) -> (r: Self)
        ensures
            r.wf(),
            r.config == config,
            r.pipeline@ == fresh_pipeline(config.log_buffer_size as nat, initial_seq),
            r.bookmarks@ == Map::<Seq<char>, u64>::empty(),
            r.metrics@.fresh(),
    {
        Self::new_with_metrics(config, initial_seq, ReceiverMetrics::new())
    }

    /// Like [`Domain::new`], with metrics that are there already.
    pub fn new_with_metrics(
        config: DomainConfig,
        initial_seq: u64,
        metrics: ReceiverMetrics,
    ) -> (r: Self)
        ensures
            r.wf(),
            r.config == config,
            r.pipeline@ == fresh_pipeline(config.log_buffer_size as nat, initial_seq),
            r.bookmarks@ == Map::<Seq<char>, u64>::empty(),
            r.metrics == metrics,
    {
        let pipeline = LogPipeline::new_with_seq_counter(
            config.log_buffer_size,
            SeqCounter::new_with_initial(initial_seq),
        );
        Self::from_parts(config, pipeline, BookmarkStore::new(), metrics)
    }

    /// This domain's id.
    pub fn id(&self) -> (r: &DomainId)
        ensures
            r == &self.config.name,
    {
        &self.config.name
    }
}

/// Those of a set of domains that were created through the API.
pub open spec fn api_created(domains: Map<Seq<char>, Domain>) -> Set<Seq<char>> {
    domains.dom().filter(|k: Seq<char>| domains[k].config.source != DomainSource::Config)
}

/// The set of live domains, each under its own name.
pub struct DomainRegistry {
    domains: TextMap<Domain>,
}

impl View for DomainRegistry {
    type V = Map<Seq<char>, Domain>;

    closed spec fn view(&self) -> Map<Seq<char>, Domain> {
        self.domains@
    }
}

impl DomainRegistry {
    /// Every domain is well formed and stands under its own name.
    pub closed spec fn wf(&self) -> bool {
        &&& self.domains.wf()
        &&& forall|k: Seq<char>| #[trigger]
            self.domains@.contains_key(k) ==> self.domains@[k].wf()
                && self.domains@[k].config.name@ == k
    }

    pub fn new() -> (r: Self)
        ensures
            r.wf(),
            r@ == Map::<Seq<char>, Domain>::empty(),
    {
        DomainRegistry { domains: TextMap::new() }
    }

    /// Resolve a domain by id.
    pub fn get(&self, id: &DomainId) -> (r: Option<&Domain>)
        requires
            self.wf(),
        ensures
            match r {
                Some(d) => {
                    &&& self@.contains_key(id@)
                    &&& *d == self@[id@]
                    &&& d.wf()
                    &&& d.config.name@ == id@
                },
                None => !self@.contains_key(id@),
            },
    {
        self.domains.get(id.as_str())
    }

    /// Resolve a domain by id, for writing.
    pub fn get_mut(&mut self, id: &DomainId) -> (r: Option<&mut Domain>)
        requires
            old(self).wf(),
        ensures
            match r {
                Some(d) => {
                    &&& old(self)@.contains_key(id@)
                    &&& *d == old(self)@[id@]
                    &&& (*d).wf()
                    &&& (*d).config.name@ == id@
                    &&& final(d).wf() && final(d).config.name@ == id@ ==> final(self).wf()
                    &&& final(self)@ == old(self)@.insert(id@, *final(d))
                },
                None => {
                    &&& !old(self)@.contains_key(id@)
                    &&& *final(self) == *old(self)
                },
            },
    {
        match self.domains.index_of(id.as_str()) {
            Some(i) => {
                let ghost before = self.domains.pairs();
                let d = self.domains.value_mut(i);
                proof {
                    lemma_updated(before, i as int, *final(d));
                }
                Some(d)
            },
            None => None,
        }
    }

    /// Insert (or replace) a domain, under its own name.
    pub fn insert(&mut self, domain: Domain)
        requires
            old(self).wf(),
            domain.wf(),
        ensures
            final(self).wf(),
            final(self)@ == old(self)@.insert(domain.config.name@, domain),
    {
        let name = text::owned(domain.config.name.as_str());
        self.domains.insert(name, domain);
    }

    /// Remove a domain, returning it if it was present.
    pub fn remove(&mut self, id: &DomainId) -> (r: Option<Domain>)
        requires
            old(self).wf(),
        ensures
            final(self).wf(),
            final(self)@ == old(self)@.remove(id@),
            match r {
                Some(d) => old(self)@.contains_key(id@) && d == old(self)@[id@],
                None => !old(self)@.contains_key(id@),
            },
    {
        self.domains.remove(id.as_str())
    }

    pub fn contains(&self, id: &DomainId) -> (r: bool)
        requires
            self.wf(),
        ensures
            r == self@.contains_key(id@),
    {
        self.domains.get(id.as_str()).is_some()
    }

    /// All live domains, in the order of their names.
    pub fn list(&self) -> (r: Vec<&Domain>)
        requires
            self.wf(),
        ensures
            forall|i: int|
                0 <= i < r@.len() ==> self@.contains_key((#[trigger] r@[i]).config.name@)
                    && self@[r@[i].config.name@] == *r@[i],
            forall|k: Seq<char>| #[trigger]
                self@.contains_key(k) ==> exists|i: int|
                    0 <= i < r@.len() && (#[trigger] r@[i]).config.name@ == k,
            forall|i: int, j: int|
                0 <= i < j < r@.len() ==> precedes(
                    (#[trigger] r@[i]).config.name@,
                    (#[trigger] r@[j]).config.name@,
                ),
    {
        let ghost pairs = self.domains.pairs();
        let mut out: Vec<&Domain> = Vec::new();
        let mut i: usize = 0;
        while i < self.domains.len()
            invariant
                self.wf(),
                pairs == self.domains.pairs(),
                i <= pairs.len(),
                out@.len() == i,
                forall|k: int| 0 <= k < i ==> *(#[trigger] out@[k]) == pairs[k].1,
            decreases pairs.len() - i,
        {
            out.push(self.domains.value_at(i));
            i += 1;
        }
        proof {
            assert forall|k: int| 0 <= k < out@.len() implies (#[trigger] out@[k]).config.name@
                == pairs[k].0 && self@.contains_key(pairs[k].0) && self@[pairs[k].0] == *out@[k] by {
                lemma_pair_in_map(pairs, k);
            }
            assert forall|k: Seq<char>| #[trigger] self@.contains_key(k) implies exists|i: int|
                0 <= i < out@.len() && (#[trigger] out@[i]).config.name@ == k by {
                let i = key_index(pairs, k);
                assert(has_key(pairs, k));
                assert(out@[i].config.name@ == k);
            }
            assert forall|a: int, b: int| 0 <= a < b < out@.len() implies precedes(
                (#[trigger] out@[a]).config.name@,
                (#[trigger] out@[b]).config.name@,
            ) by {
                assert(precedes(pairs[a].0, pairs[b].0));
            }
        }
        out
    }

    /// How many domains were created through the API rather than declared in the
    /// configuration.
    pub fn count_api_created(&self) -> (n: usize)
        requires
            self.wf(),
        ensures
            api_created(self@).finite(),
            n == api_created(self@).len(),
    {
        let ghost pairs = self.domains.pairs();
        let ghost f = |k: Seq<char>| self@[k].config.source != DomainSource::Config;
        let mut n: usize = 0;
        let mut i: usize = 0;
        while i < self.domains.len()
            invariant
                self.wf(),
                pairs == self.domains.pairs(),
                f == (|k: Seq<char>| self@[k].config.source != DomainSource::Config),
                i <= pairs.len(),
                n <= i,
                n == count_keys(pairs.take(i as int), f),
            decreases pairs.len() - i,
        {
            proof {
                assert(pairs.take(i + 1).drop_last() =~= pairs.take(i as int));
                lemma_pair_in_map(pairs, i as int);
            }
            match self.domains.value_at(i).config.source {
                DomainSource::Config => {},
                _ => {
                    n += 1;
                },
            }
            i += 1;
        }
        proof {
            assert(pairs.take(pairs.len() as int) =~= pairs);
            lemma_count_keys(pairs, f);
        }
        n
    }

    pub fn len(&self) -> (n: usize)
        requires
            self.wf(),
        ensures
            self@.dom().finite(),
            n == self@.dom().len(),
    {
        proof {
            lemma_map_len(self.domains.pairs());
        }
        self.domains.len()
    }

    pub fn is_empty(&self) -> (r: bool)
        requires
            self.wf(),
        ensures
            r == (self@ == Map::<Seq<char>, Domain>::empty()),
    {
        self.domains.is_empty()
    }
}

impl Default for DomainRegistry {
    fn default() -> (r: Self)
        ensures
            r.wf(),
            r@ == Map::<Seq<char>, Domain>::empty(),
    {
        Self::new()
    }
}

/// A name is made of letters, digits, `_` and `-`, and of at least one of them.
pub proof fn names_are_plain(name: Seq<char>, c: char)
    ensures
        !is_name(seq![]),
        is_name(seq![c]) <==> {
            ||| 'a' <= c <= 'z'
            ||| 'A' <= c <= 'Z'
            ||| '0' <= c <= '9'
            ||| c == '_'
            ||| c == '-'
        },
        name.len() > 0 ==> (is_name(name.push(c)) <==> is_name(name) && is_name(seq![c])),
{
    let one = seq![c];
    assert(one[0] == c);
    let longer = name.push(c);
    if name.len() > 0 {
        assert(longer[name.len() as int] == c);
        if is_name(longer) {
            assert forall|i: int| 0 <= i < name.len() implies is_name_char(#[trigger] name[i]) by {
                assert(longer[i] == name[i]);
            }
            assert forall|i: int| 0 <= i < one.len() implies is_name_char(#[trigger] one[i]) by {
                assert(one[i] == longer[name.len() as int]);
            }
        }
    }
}

/// Domains that were declared are not counted as created through the API; all others are.
pub proof fn declared_domains_are_not_counted(domains: Map<Seq<char>, Domain>, name: Seq<char>)
    requires
        domains.contains_key(name),
    ensures
        domains[name].config.source == DomainSource::Config ==> !api_created(domains).contains(name),
        domains[name].config.source == DomainSource::Persistent || domains[name].config.source
            == DomainSource::Ephemeral ==> api_created(domains).contains(name),
{
}

/// The words for where a domain came from.
pub proof fn sources_have_their_words()
    ensures
        DomainSource::Config.name() == "config"@,
        DomainSource::Persistent.name() == "persistent"@,
        DomainSource::Ephemeral.name() == "ephemeral"@,
{
}

} // verus!
