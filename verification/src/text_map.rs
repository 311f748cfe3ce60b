//! A map keyed by text that walks its keys in order.
//!
//! Keys are ordered by their code points, which is how UTF-8 orders their
//! bytes, so two maps of the same contents are always walked alike.
use crate::text;
use vstd::prelude::*;

verus! {

broadcast use vstd::string::group_string_axioms;

/// Whether `a` comes before `b`: at the first difference, or as its beginning.
pub open spec fn precedes(a: Seq<char>, b: Seq<char>) -> bool
    decreases a.len(),
{
    if b.len() == 0 {
        false
    } else if a.len() == 0 {
        true
    } else if a[0] != b[0] {
        a[0] < b[0]
    } else {
        precedes(a.skip(1), b.skip(1))
    }
}

/// Nothing precedes itself.
pub proof fn lemma_precedes_irreflexive(a: Seq<char>)
    ensures
        !precedes(a, a),
    decreases a.len(),
{
    if a.len() > 0 {
        lemma_precedes_irreflexive(a.skip(1));
    }
}

/// The order is transitive.
pub proof fn lemma_precedes_transitive(a: Seq<char>, b: Seq<char>, c: Seq<char>)
    requires
        precedes(a, b),
        precedes(b, c),
    ensures
        precedes(a, c),
    decreases a.len(),
{
    if a.len() > 0 && b.len() > 0 && c.len() > 0 && a[0] == b[0] && b[0] == c[0] {
        lemma_precedes_transitive(a.skip(1), b.skip(1), c.skip(1));
    }
}

/// Of two different texts one precedes the other.
pub proof fn lemma_precedes_total(a: Seq<char>, b: Seq<char>)
    ensures
        a == b || precedes(a, b) || precedes(b, a),
    decreases a.len(),
{
    if a.len() > 0 && b.len() > 0 && a[0] == b[0] {
        lemma_precedes_total(a.skip(1), b.skip(1));
        if a.skip(1) == b.skip(1) {
            assert(a =~= seq![a[0]] + a.skip(1));
            assert(b =~= seq![b[0]] + b.skip(1));
        }
    } else if a.len() == 0 && b.len() == 0 {
        assert(a =~= b);
    }
}

/// Whether `a` comes before `b` in the order of their code points.
pub fn text_before(a: &str, b: &str) -> (r: bool)
    ensures
        r == precedes(a@, b@),
{
    let x = text::chars_of(a);
    let y = text::chars_of(b);
    let mut i: usize = 0;
    proof {
        assert(x@.skip(0) =~= x@);
        assert(y@.skip(0) =~= y@);
    }
    while i < x.len() && i < y.len()
        invariant
            x@ == a@,
            y@ == b@,
            i <= x@.len(),
            i <= y@.len(),
            precedes(a@, b@) == precedes(x@.skip(i as int), y@.skip(i as int)),
        decreases x@.len() - i,
    {
        proof {
            assert(x@.skip(i as int).skip(1) =~= x@.skip(i + 1));
            assert(y@.skip(i as int).skip(1) =~= y@.skip(i + 1));
        }
        if x[i] != y[i] {
            return x[i] < y[i];
        }
        i += 1;
    }
    x.len() == i && i < y.len()
}

/// Whether a list of pairs is ordered by its keys, none of them twice.
pub open spec fn keys_ascend<T>(pairs: Seq<(Seq<char>, T)>) -> bool {
    forall|i: int, j: int|
        0 <= i < j < pairs.len() ==> precedes(#[trigger] pairs[i].0, #[trigger] pairs[j].0)
}

/// Whether `key` is the key of a pair.
pub open spec fn has_key<T>(pairs: Seq<(Seq<char>, T)>, key: Seq<char>) -> bool {
    exists|i: int| 0 <= i < pairs.len() && #[trigger] pairs[i].0 == key
}

/// A place where `key` stands.
pub open spec fn key_index<T>(pairs: Seq<(Seq<char>, T)>, key: Seq<char>) -> int {
    choose|i: int| 0 <= i < pairs.len() && #[trigger] pairs[i].0 == key
}

/// The map that a list of pairs spells.
pub open spec fn pairs_map<T>(pairs: Seq<(Seq<char>, T)>) -> Map<Seq<char>, T> {
    Map::new(
        |key: Seq<char>| has_key(pairs, key),
        |key: Seq<char>| pairs[key_index(pairs, key)].1,
    )
}

/// A key of an ordered list stands in one place.
pub proof fn lemma_keys_distinct<T>(pairs: Seq<(Seq<char>, T)>, i: int, j: int)
    requires
        keys_ascend(pairs),
        0 <= i < pairs.len(),
        0 <= j < pairs.len(),
        pairs[i].0 == pairs[j].0,
    ensures
        i == j,
{
    lemma_precedes_irreflexive(pairs[i].0);
    if i < j {
        assert(precedes(pairs[i].0, pairs[j].0));
    } else if j < i {
        assert(precedes(pairs[j].0, pairs[i].0));
    }
}

/// An ordered list's map holds each pair.
pub proof fn lemma_pair_in_map<T>(pairs: Seq<(Seq<char>, T)>, i: int)
    requires
        keys_ascend(pairs),
        0 <= i < pairs.len(),
    ensures
        pairs_map(pairs).contains_key(pairs[i].0),
        pairs_map(pairs)[pairs[i].0] == pairs[i].1,
{
    let key = pairs[i].0;
    assert(has_key(pairs, key));
    lemma_keys_distinct(pairs, i, key_index(pairs, key));
}

/// How many pairs have a key that `f` accepts.
pub open spec fn count_keys<T>(pairs: Seq<(Seq<char>, T)>, f: spec_fn(Seq<char>) -> bool) -> nat
    decreases pairs.len(),
{
    if pairs.len() == 0 {
        0
    } else {
        count_keys(pairs.drop_last(), f) + if f(pairs.last().0) {
            1nat
        } else {
            0nat
        }
    }
}

/// Counting the pairs of an ordered list is counting the keys of its map.
pub proof fn lemma_count_keys<T>(pairs: Seq<(Seq<char>, T)>, f: spec_fn(Seq<char>) -> bool)
    requires
        keys_ascend(pairs),
    ensures
        pairs_map(pairs).dom().finite(),
        pairs_map(pairs).dom().filter(f).finite(),
        count_keys(pairs, f) == pairs_map(pairs).dom().filter(f).len(),
    decreases pairs.len(),
{
    let all = pairs_map(pairs).dom();
    if pairs.len() == 0 {
        assert(all =~= Set::empty());
        assert(all.filter(f) =~= Set::empty());
    } else {
        let rest = pairs.drop_last();
        let key = pairs.last().0;
        lemma_count_keys(rest, f);
        assert(!has_key(rest, key)) by {
            if has_key(rest, key) {
                let i = choose|i: int| 0 <= i < rest.len() && #[trigger] rest[i].0 == key;
                assert(pairs[i].0 == key);
                lemma_keys_distinct(pairs, i, pairs.len() - 1);
            }
        }
        assert forall|k: Seq<char>| has_key(pairs, k) == (has_key(rest, k) || k == key) by {
            if has_key(pairs, k) {
                let i = choose|i: int| 0 <= i < pairs.len() && #[trigger] pairs[i].0 == k;
                if i < rest.len() {
                    assert(rest[i].0 == k);
                }
            }
            if has_key(rest, k) {
                let i = choose|i: int| 0 <= i < rest.len() && #[trigger] rest[i].0 == k;
                assert(pairs[i].0 == k);
            }
            if k == key {
                assert(pairs[pairs.len() - 1].0 == k);
            }
        }
        assert(all =~= pairs_map(rest).dom().insert(key));
        if f(key) {
            assert(all.filter(f) =~= pairs_map(rest).dom().filter(f).insert(key));
        } else {
            assert(all.filter(f) =~= pairs_map(rest).dom().filter(f));
        }
    }
}

/// A map has as many keys as its ordered list has pairs.
pub proof fn lemma_map_len<T>(pairs: Seq<(Seq<char>, T)>)
    requires
        keys_ascend(pairs),
    ensures
        pairs_map(pairs).dom().finite(),
        pairs_map(pairs).dom().len() == pairs.len(),
{
    let f = |k: Seq<char>| true;
    lemma_count_keys(pairs, f);
    lemma_count_all(pairs, f);
    assert(pairs_map(pairs).dom().filter(f) =~= pairs_map(pairs).dom());
}

proof fn lemma_count_all<T>(pairs: Seq<(Seq<char>, T)>, f: spec_fn(Seq<char>) -> bool)
    requires
        forall|k: Seq<char>| #[trigger] f(k),
    ensures
        count_keys(pairs, f) == pairs.len(),
    decreases pairs.len(),
{
    if pairs.len() > 0 {
        lemma_count_all(pairs.drop_last(), f);
    }
}

/// A map from text to `T`, walked in key order.
#[derive(Debug, PartialEq, Eq)]
pub struct TextMap<T> {
    items: Vec<(String, T)>,
}

impl<T> View for TextMap<T> {
    type V = Map<Seq<char>, T>;

    open spec fn view(&self) -> Map<Seq<char>, T> {
        pairs_map(self.pairs())
    }
}

impl<T> TextMap<T> {
    /// The pairs, in the order in which they are walked.
    pub closed spec fn pairs(&self) -> Seq<(Seq<char>, T)> {
        self.items@.map_values(|p: (String, T)| (p.0@, p.1))
    }

    /// The pairs are in key order and no key occurs twice.
    pub open spec fn wf(&self) -> bool {
        keys_ascend(self.pairs())
    }

    pub fn new() -> (r: Self)
        ensures
            r.wf(),
            r.pairs() == Seq::<(Seq<char>, T)>::empty(),
            r@ == Map::<Seq<char>, T>::empty(),
    {
        let r = TextMap { items: Vec::new() };
        proof {
            assert(r.pairs() =~= Seq::empty());
            assert(r@ =~= Map::empty());
        }
        r
    }

    pub fn len(&self) -> (n: usize)
        ensures
            n == self.pairs().len(),
    {
        self.items.len()
    }

    pub fn is_empty(&self) -> (r: bool)
        requires
            self.wf(),
        ensures
            r == (self@ == Map::<Seq<char>, T>::empty()),
    {
        proof {
            if self.pairs().len() == 0 {
                assert(self@ =~= Map::empty());
            } else {
                lemma_pair_in_map(self.pairs(), 0);
                assert(self@.contains_key(self.pairs()[0].0));
            }
        }
        self.items.len() == 0
    }

    /// The `i`th key.
    pub fn key_at(&self, i: usize) -> (key: &String)
        requires
            i < self.pairs().len(),
        ensures
            key@ == self.pairs()[i as int].0,
    {
        &self.items[i].0
    }

    /// The `i`th value.
    pub fn value_at(&self, i: usize) -> (value: &T)
        requires
            i < self.pairs().len(),
        ensures
            *value == self.pairs()[i as int].1,
    {
        &self.items[i].1
    }

    /// The `i`th value, for writing.
    pub fn value_mut(&mut self, i: usize) -> (value: &mut T)
        requires
            i < old(self).pairs().len(),
        ensures
            *value == old(self).pairs()[i as int].1,
            final(self).pairs() == old(self).pairs().update(
                i as int,
                (old(self).pairs()[i as int].0, *final(value)),
            ),
    {
        &mut self.items[i].1
    }

    /// How many keys come before `key`, which is where it stands if it is here.
    fn position(&self, key: &str) -> (at: usize)
        requires
            self.wf(),
        ensures
            at <= self.pairs().len(),
            forall|i: int| 0 <= i < at ==> precedes(#[trigger] self.pairs()[i].0, key@),
            at < self.pairs().len() ==> !precedes(self.pairs()[at as int].0, key@),
    {
        let mut at: usize = 0;
        while at < self.items.len() && text_before(self.items[at].0.as_str(), key)
            invariant
                at <= self.items@.len(),
                self.items@.len() == self.pairs().len(),
                forall|i: int| 0 <= i < self.items@.len() ==> (#[trigger] self.pairs()[i]).0
                    == self.items@[i].0@,
                forall|i: int| 0 <= i < at ==> precedes(#[trigger] self.pairs()[i].0, key@),
            decreases self.items@.len() - at,
        {
            assert(self.pairs()[at as int].0 == self.items@[at as int].0@);
            at += 1;
        }
        proof {
            if at < self.pairs().len() {
                assert(self.pairs()[at as int].0 == self.items@[at as int].0@);
            }
        }
        at
    }

    /// Where `key` stands, if it is here.
    pub fn index_of(&self, key: &str) -> (r: Option<usize>)
        requires
            self.wf(),
        ensures
            match r {
                Some(i) => i < self.pairs().len() && self.pairs()[i as int].0 == key@
                    && self@.contains_key(key@) && self@[key@] == self.pairs()[i as int].1,
                None => !self@.contains_key(key@),
            },
    {
        let at: usize = self.position(key);
        let ghost pairs = self.pairs();
        if at < self.items.len() && text::same(self.items[at].0.as_str(), key) {
            proof {
                assert(pairs[at as int].0 == self.items@[at as int].0@);
                lemma_pair_in_map(pairs, at as int);
            }
            return Some(at);
        }
        proof {
            if has_key(pairs, key@) {
                let i = choose|i: int| 0 <= i < pairs.len() && #[trigger] pairs[i].0 == key@;
                lemma_precedes_irreflexive(key@);
                assert(i >= at);
                assert(pairs[at as int].0 == self.items@[at as int].0@);
                if i > at {
                    assert(precedes(pairs[at as int].0, pairs[i].0));
                }
            }
        }
        None
    }

    pub fn get(&self, key: &str) -> (r: Option<&T>)
        requires
            self.wf(),
        ensures
            match r {
                Some(v) => self@.contains_key(key@) && self@[key@] == *v,
                None => !self@.contains_key(key@),
            },
    {
        match self.index_of(key) {
            Some(i) => Some(self.value_at(i)),
            None => None,
        }
    }

    /// Puts `value` at `key`, in place of what stood there.
    pub fn insert(&mut self, key: String, value: T)
        requires
            old(self).wf(),
        ensures
            final(self).wf(),
            final(self)@ == old(self)@.insert(key@, value),
    {
        let at: usize = self.position(key.as_str());
        let ghost before = self.pairs();
        let ghost k = key@;
        if at < self.items.len() && text::same(self.items[at].0.as_str(), key.as_str()) {
            assert(before[at as int].0 == self.items@[at as int].0@);
            self.items.set(at, (key, value));
            proof {
                let after = self.pairs();
                assert(after =~= before.update(at as int, (k, value)));
                lemma_updated(before, at as int, value);
            }
        } else {
            proof {
                if at < before.len() {
                    assert(before[at as int].0 == self.items@[at as int].0@);
                }
            }
            self.items.insert(at, (key, value));
            proof {
                let after = self.pairs();
                assert(after =~= before.insert(at as int, (k, value)));
                lemma_inserted(before, at as int, k, value);
            }
        }
    }

    /// Takes out what stands at `key`.
    pub fn remove(&mut self, key: &str) -> (r: Option<T>)
        requires
            old(self).wf(),
        ensures
            final(self).wf(),
            final(self)@ == old(self)@.remove(key@),
            match r {
                Some(v) => old(self)@.contains_key(key@) && old(self)@[key@] == v,
                None => !old(self)@.contains_key(key@),
            },
    {
        let ghost before = self.pairs();
        match self.index_of(key) {
            Some(i) => {
                let (_, value) = self.items.remove(i);
                proof {
                    assert(self.pairs() =~= before.remove(i as int));
                    lemma_removed(before, i as int);
                }
                Some(value)
            },
            None => {
                proof {
                    assert(self@ =~= self@.remove(key@));
                }
                None
            },
        }
    }

    /// Removes the `i`th pair.
    pub fn remove_at(&mut self, i: usize)
        requires
            i < old(self).pairs().len(),
        ensures
            final(self).pairs() == old(self).pairs().remove(i as int),
    {
        let ghost before = self.pairs();
        self.items.remove(i);
        proof {
            assert(self.pairs() =~= before.remove(i as int));
        }
    }
}

proof fn lemma_removed<T>(pairs: Seq<(Seq<char>, T)>, at: int)
    requires
        keys_ascend(pairs),
        0 <= at < pairs.len(),
    ensures
        keys_ascend(pairs.remove(at)),
        pairs_map(pairs.remove(at)) == pairs_map(pairs).remove(pairs[at].0),
{
    let k = pairs[at].0;
    let after = pairs.remove(at);
    assert forall|i: int, j: int| 0 <= i < j < after.len() implies precedes(
        #[trigger] after[i].0,
        #[trigger] after[j].0,
    ) by {
        let a = if i < at { i } else { i + 1 };
        let b = if j < at { j } else { j + 1 };
        assert(precedes(pairs[a].0, pairs[b].0));
    }
    assert forall|key: Seq<char>| has_key(after, key) == (has_key(pairs, key) && key != k) by {
        if has_key(after, key) {
            let i = key_index(after, key);
            let a = if i < at { i } else { i + 1 };
            assert(pairs[a].0 == key);
            if key == k {
                lemma_keys_distinct(pairs, a, at);
            }
        }
        if has_key(pairs, key) && key != k {
            let a = key_index(pairs, key);
            if a < at {
                assert(after[a].0 == key);
            } else {
                assert(after[a - 1].0 == key);
            }
        }
    }
    assert forall|key: Seq<char>| has_key(after, key) implies pairs_map(after)[key] == pairs_map(
        pairs,
    )[key] by {
        let i = key_index(after, key);
        lemma_pair_in_map(after, i);
        let a = if i < at { i } else { i + 1 };
        lemma_pair_in_map(pairs, a);
    }
    assert(pairs_map(after) =~= pairs_map(pairs).remove(k));
}

/// Giving the `at`th key another value puts that value at the key.
pub proof fn lemma_updated<T>(pairs: Seq<(Seq<char>, T)>, at: int, value: T)
    requires
        keys_ascend(pairs),
        0 <= at < pairs.len(),
    ensures
        keys_ascend(pairs.update(at, (pairs[at].0, value))),
        pairs_map(pairs.update(at, (pairs[at].0, value))) == pairs_map(pairs).insert(
            pairs[at].0,
            value,
        ),
{
    let k = pairs[at].0;
    let after = pairs.update(at, (k, value));
    assert(forall|i: int| 0 <= i < pairs.len() ==> (#[trigger] after[i]).0 == pairs[i].0);
    assert(keys_ascend(after));
    assert forall|key: Seq<char>| has_key(after, key) == has_key(pairs, key) by {
        if has_key(pairs, key) {
            let i = choose|i: int| 0 <= i < pairs.len() && #[trigger] pairs[i].0 == key;
            assert(after[i].0 == key);
        }
        if has_key(after, key) {
            let i = choose|i: int| 0 <= i < after.len() && #[trigger] after[i].0 == key;
            assert(pairs[i].0 == key);
        }
    }
    assert(has_key(pairs, k));
    assert forall|key: Seq<char>| has_key(after, key) implies pairs_map(after)[key] == pairs_map(
        pairs,
    ).insert(k, value)[key] by {
        let i = choose|i: int| 0 <= i < after.len() && #[trigger] after[i].0 == key;
        lemma_pair_in_map(after, i);
        lemma_pair_in_map(pairs, i);
        if key == k {
            lemma_keys_distinct(pairs, i, at);
        }
    }
    assert(pairs_map(after) =~= pairs_map(pairs).insert(k, value));
}

proof fn lemma_inserted<T>(pairs: Seq<(Seq<char>, T)>, at: int, k: Seq<char>, value: T)
    requires
        keys_ascend(pairs),
        0 <= at <= pairs.len(),
        forall|i: int| 0 <= i < at ==> precedes(#[trigger] pairs[i].0, k),
        at < pairs.len() ==> !precedes(pairs[at].0, k) && pairs[at].0 != k,
    ensures
        keys_ascend(pairs.insert(at, (k, value))),
        pairs_map(pairs.insert(at, (k, value))) == pairs_map(pairs).insert(k, value),
{
    let after = pairs.insert(at, (k, value));
    assert forall|i: int| at <= i < pairs.len() implies precedes(k, #[trigger] pairs[i].0) by {
        lemma_precedes_total(pairs[at].0, k);
        if i > at {
            assert(precedes(pairs[at].0, pairs[i].0));
            lemma_precedes_transitive(k, pairs[at].0, pairs[i].0);
        }
    }
    assert forall|i: int, j: int| 0 <= i < j < after.len() implies precedes(
        #[trigger] after[i].0,
        #[trigger] after[j].0,
    ) by {
        let a = if i < at { i } else { i - 1 };
        let b = if j < at { j } else { j - 1 };
        if i != at {
            assert(after[i] == pairs[a]);
        }
        if j != at {
            assert(after[j] == pairs[b]);
        }
        if i != at && j != at {
            assert(precedes(pairs[a].0, pairs[b].0));
        }
    }
    assert forall|key: Seq<char>| has_key(after, key) == (has_key(pairs, key) || key == k) by {
        if has_key(pairs, key) {
            let i = choose|i: int| 0 <= i < pairs.len() && #[trigger] pairs[i].0 == key;
            if i < at {
                assert(after[i].0 == key);
            } else {
                assert(after[i + 1].0 == key);
            }
        }
        if key == k {
            assert(after[at].0 == k);
        }
        if has_key(after, key) {
            let i = choose|i: int| 0 <= i < after.len() && #[trigger] after[i].0 == key;
            if i < at {
                assert(pairs[i].0 == key);
            } else if i > at {
                assert(pairs[i - 1].0 == key);
            }
        }
    }
    assert forall|key: Seq<char>| has_key(after, key) implies pairs_map(after)[key] == pairs_map(
        pairs,
    ).insert(k, value)[key] by {
        let i = choose|i: int| 0 <= i < after.len() && #[trigger] after[i].0 == key;
        lemma_pair_in_map(after, i);
        if i < at {
            lemma_pair_in_map(pairs, i);
            lemma_precedes_irreflexive(k);
        } else if i > at {
            lemma_pair_in_map(pairs, i - 1);
            lemma_precedes_irreflexive(k);
        }
    }
    assert(pairs_map(after) =~= pairs_map(pairs).insert(k, value));
}

/// One pair more of an ordered list is one key more in its map.
pub proof fn lemma_prefix_map<T>(pairs: Seq<(Seq<char>, T)>, n: int)
    requires
        keys_ascend(pairs),
        0 <= n <= pairs.len(),
    ensures
        keys_ascend(pairs.take(n)),
        n == 0 ==> pairs_map(pairs.take(n)) == Map::<Seq<char>, T>::empty(),
        n > 0 ==> pairs_map(pairs.take(n)) == pairs_map(pairs.take(n - 1)).insert(
            pairs[n - 1].0,
            pairs[n - 1].1,
        ),
{
    let now = pairs.take(n);
    assert(forall|i: int| 0 <= i < n ==> #[trigger] now[i] == pairs[i]);
    assert(keys_ascend(now));
    if n == 0 {
        assert(pairs_map(now) =~= Map::empty());
    } else {
        let before = pairs.take(n - 1);
        let key = pairs[n - 1].0;
        assert(forall|i: int| 0 <= i < n - 1 ==> #[trigger] before[i] == pairs[i]);
        assert(keys_ascend(before));
        assert forall|k: Seq<char>| has_key(now, k) == (has_key(before, k) || k == key) by {
            if has_key(now, k) {
                let i = key_index(now, k);
                if i < n - 1 {
                    assert(before[i].0 == k);
                }
            }
            if has_key(before, k) {
                assert(now[key_index(before, k)].0 == k);
            }
            if k == key {
                assert(now[n - 1].0 == k);
            }
        }
        assert forall|k: Seq<char>| has_key(now, k) implies pairs_map(now)[k] == pairs_map(before).insert(
            key,
            pairs[n - 1].1,
        )[k] by {
            let i = key_index(now, k);
            lemma_pair_in_map(now, i);
            if i < n - 1 {
                lemma_pair_in_map(before, i);
                if k == key {
                    lemma_keys_distinct(now, i, n - 1);
                }
            }
        }
        assert(pairs_map(now) =~= pairs_map(before).insert(key, pairs[n - 1].1));
    }
}

/// Texts are ordered by the first character in which they differ, and a beginning comes
/// before what it begins.
pub proof fn texts_are_ordered_by_their_first_difference(
    common: Seq<char>,
    a: Seq<char>,
    b: Seq<char>,
)
    requires
        b.len() > 0,
        a.len() == 0 || a[0] < b[0],
    ensures
        precedes(common + a, common + b),
        !precedes(common + b, common + a),
    decreases common.len(),
{
    if common.len() == 0 {
        assert(common + a =~= a);
        assert(common + b =~= b);
    } else {
        let rest = common.skip(1);
        texts_are_ordered_by_their_first_difference(rest, a, b);
        assert((common + a).skip(1) =~= rest + a);
        assert((common + b).skip(1) =~= rest + b);
        assert((common + a)[0] == (common + b)[0]);
    }
}

} // verus!
