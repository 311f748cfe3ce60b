//! Bookmarks: named places in the order of arrival.
use crate::text;
use crate::text::{first_and_last_places, first_at};
use crate::text_map::{
    has_key, key_index, lemma_pair_in_map, lemma_precedes_irreflexive, lemma_precedes_total,
    lemma_precedes_transitive, lemma_prefix_map, pairs_map, precedes, TextMap,
};
use vstd::prelude::*;

verus! {

broadcast use vstd::string::group_string_axioms;

/// A bookmark's name with its session in front: a name that already holds a
/// `/` is taken as it is.
pub open spec fn qualified(name: Seq<char>, session: Seq<char>) -> Seq<char> {
    if name.contains('/') {
        name
    } else {
        session + seq!['/'] + name
    }
}

/// A bookmark's name with its session in front.
pub fn qualify(name: &str, session: &str) -> (r: String)
    ensures
        r@ == qualified(name@, session@),
        r@.contains('/'),
{
    let chars = text::chars_of(name);
    let at: usize = text::find_first(&chars, '/');
    if at < chars.len() {
        proof {
            assert(name@[at as int] == '/');
        }
        text::owned(name)
    } else {
        proof {
            assert(!name@.contains('/'));
        }
        let mut r = text::owned(session);
        r.push('/');
        r.append(name);
        proof {
            assert(r@ =~= session@ + seq!['/'] + name@);
            assert(r@[session@.len() as int] == '/');
        }
        r
    }
}

/// The bookmarks of a domain, by qualified name.
#[derive(Debug)]
pub struct BookmarkStore {
    seqs: TextMap<u64>,
}

impl View for BookmarkStore {
    type V = Map<Seq<char>, u64>;

    closed spec fn view(&self) -> Map<Seq<char>, u64> {
        self.seqs@
    }
}

/// The right to advance one cursor once what it selected has been read.
#[derive(Debug, PartialEq, Eq)]
pub struct CursorCommit {
    /// The cursor's qualified name.
    pub cursor: String,
}

/// A bookmark of that name is already there.
#[derive(Debug, Clone, Copy, PartialEq, Eq, Structural)]
pub struct AlreadyExists;

impl BookmarkStore {
    /// No name occurs twice.
    pub closed spec fn wf(&self) -> bool {
        self.seqs.wf()
    }

    pub fn new() -> (r: Self)
        ensures
            r.wf(),
            r@ == Map::<Seq<char>, u64>::empty(),
    {
        BookmarkStore { seqs: TextMap::new() }
    }

    /// Puts a bookmark of `session` at `seq`, and says whether it took the
    /// place of another, which it does only where `replace` allows it.
    pub fn add(&mut self, session: &str, name: &str, seq: u64, replace: bool) -> (r: Result<
        bool,
        AlreadyExists,
    >)
        requires
            old(self).wf(),
        ensures
            final(self).wf(),
            match r {
                Ok(replaced) => {
                    &&& replaced == old(self)@.contains_key(qualified(name@, session@))
                    &&& replaced ==> replace
                    &&& final(self)@ == old(self)@.insert(qualified(name@, session@), seq)
                },
                Err(_) => {
                    &&& old(self)@.contains_key(qualified(name@, session@))
                    &&& !replace
                    &&& final(self)@ == old(self)@
                },
            },
    {
        let key = qualify(name, session);
        let found = self.seqs.index_of(&key).is_some();
        if found && !replace {
            return Err(AlreadyExists);
        }
        self.seqs.insert(key, seq);
        Ok(found)
    }

    /// The seq of a bookmark, by its qualified name.
    pub fn get(&self, name: &str) -> (r: Option<u64>)
        requires
            self.wf(),
        ensures
            r == if self@.contains_key(name@) {
                Some(self@[name@])
            } else {
                None
            },
    {
        match self.seqs.get(name) {
            Some(seq) => Some(*seq),
            None => None,
        }
    }

    /// Where a cursor stands, and the right to advance it. A cursor that is not
    /// there yet is put at 0, before every record.
    pub fn cursor_read_and_advance(&mut self, cursor: &str) -> (r: (u64, CursorCommit))
        requires
            old(self).wf(),
        ensures
            final(self).wf(),
            final(self)@ == opened(old(self)@, cursor@),
            r.0 == opened(old(self)@, cursor@)[cursor@],
            r.1.cursor@ == cursor@,
    {
        let commit = CursorCommit { cursor: text::owned(cursor) };
        match self.get(cursor) {
            Some(seq) => (seq, commit),
            None => {
                self.seqs.insert(text::owned(cursor), 0);
                (0, commit)
            },
        }
    }
}

impl BookmarkStore {
    /// Advances a cursor to the last record that was read through it.
    pub fn commit(&mut self, commit: CursorCommit, seq: u64)
        requires
            old(self).wf(),
        ensures
            final(self).wf(),
            final(self)@ == old(self)@.insert(commit.cursor@, seq),
    {
        self.seqs.insert(commit.cursor, seq);
    }
}

/// Whether a bookmark is a session's own.
pub open spec fn owned_by(name: Seq<char>, session: Seq<char>) -> bool {
    text::begins_with(name, session + seq!['/'])
}

/// The bookmarks without those of a session.
pub open spec fn without_session(seqs: Map<Seq<char>, u64>, session: Seq<char>) -> Map<
    Seq<char>,
    u64,
> {
    Map::new(|k: Seq<char>| seqs.contains_key(k) && !owned_by(k, session), |k: Seq<char>| seqs[k])
}

impl BookmarkStore {
    /// Drops every bookmark of a session.
    pub fn clear_session(&mut self, session: &str)
        requires
            old(self).wf(),
        ensures
            final(self).wf(),
            final(self)@ == without_session(old(self)@, session@),
    {
        let ghost pairs = self.seqs.pairs();
        let mut prefix = text::owned(session);
        prefix.push('/');
        let mut kept: TextMap<u64> = TextMap::new();
        let mut i: usize = 0;
        proof {
            assert(prefix@ =~= session@ + seq!['/']);
            lemma_prefix_map(pairs, 0);
            assert(kept@ =~= without_session(pairs_map(pairs.take(0)), session@));
        }
        while i < self.seqs.len()
            invariant
                self.wf(),
                pairs == self.seqs.pairs(),
                prefix@ == session@ + seq!['/'],
                kept.wf(),
                i <= pairs.len(),
                kept@ == without_session(pairs_map(pairs.take(i as int)), session@),
            decreases pairs.len() - i,
        {
            proof {
                lemma_prefix_map(pairs, i + 1);
            }
            let name = self.seqs.key_at(i);
            let ghost before = kept@;
            let ghost now = without_session(pairs_map(pairs.take(i + 1)), session@);
            if text::starts_with(&text::chars_of(name), &prefix) {
                proof {
                    assert(before =~= now);
                }
            } else {
                let seq: u64 = *self.seqs.value_at(i);
                kept.insert(name.clone(), seq);
                proof {
                    assert(kept@ =~= now);
                }
            }
            i += 1;
        }
        proof {
            assert(pairs.take(pairs.len() as int) =~= pairs);
        }
        self.seqs = kept;
    }
}

/// Whether a qualified name is that of a bookmark that its session calls `name`.
pub open spec fn is_called(key: Seq<char>, name: Seq<char>) -> bool {
    first_at(key, '/') < key.len() && key.skip(first_at(key, '/') + 1) == name
}

/// The first of the bookmarks that some session calls `name`.
pub open spec fn first_called(seqs: Map<Seq<char>, u64>, name: Seq<char>, key: Seq<char>) -> bool {
    &&& seqs.contains_key(key)
    &&& is_called(key, name)
    &&& forall|k: Seq<char>| #[trigger]
        seqs.contains_key(k) && is_called(k, name) ==> !precedes(k, key)
}

/// The seq of the bookmark called `name`, whoever's it is: the first one's, in
/// the order of the qualified names.
pub open spec fn seq_called(seqs: Map<Seq<char>, u64>, name: Seq<char>) -> Option<u64> {
    if exists|key: Seq<char>| first_called(seqs, name, key) {
        Some(seqs[choose|key: Seq<char>| first_called(seqs, name, key)])
    } else {
        None
    }
}

proof fn lemma_first_called_unique(
    seqs: Map<Seq<char>, u64>,
    name: Seq<char>,
    a: Seq<char>,
    b: Seq<char>,
)
    requires
        first_called(seqs, name, a),
        first_called(seqs, name, b),
    ensures
        a == b,
{
    lemma_precedes_total(a, b);
}

fn called(key: &str, name: &str) -> (r: bool)
    ensures
        r == is_called(key@, name@),
{
    let chars = text::chars_of(key);
    let at: usize = text::find_first(&chars, '/');
    if at == chars.len() {
        return false;
    }
    let rest = text::text_between(&chars, at + 1, chars.len());
    proof {
        assert(key@.skip(at + 1) =~= chars@.subrange(at + 1, chars@.len() as int));
    }
    text::same(&rest, name)
}

impl BookmarkStore {
    /// The seq of the bookmark called `name`, whoever's it is.
    pub fn find(&self, name: &str) -> (r: Option<u64>)
        requires
            self.wf(),
        ensures
            r == seq_called(self@, name@),
    {
        let ghost pairs = self.seqs.pairs();
        let mut i: usize = 0;
        while i < self.seqs.len()
            invariant
                self.wf(),
                pairs == self.seqs.pairs(),
                i <= pairs.len(),
                forall|k: int| 0 <= k < i ==> !is_called((#[trigger] pairs[k]).0, name@),
            decreases pairs.len() - i,
        {
            if called(self.seqs.key_at(i), name) {
                let seq: u64 = *self.seqs.value_at(i);
                proof {
                    let key = pairs[i as int].0;
                    lemma_pair_in_map(pairs, i as int);
                    assert forall|k: Seq<char>| #[trigger] self@.contains_key(k) && is_called(
                        k,
                        name@,
                    ) implies !precedes(k, key) by {
                        let j = key_index(pairs, k);
                        assert(has_key(pairs, k));
                        assert(pairs[j].0 == k);
                        if precedes(k, key) {
                            if j == i {
                                lemma_precedes_irreflexive(k);
                            } else if j > i {
                                lemma_precedes_transitive(k, key, k);
                                lemma_precedes_irreflexive(k);
                            }
                        }
                    }
                    assert(first_called(self@, name@, key));
                    lemma_first_called_unique(
                        self@,
                        name@,
                        key,
                        choose|key: Seq<char>| first_called(self@, name@, key),
                    );
                }
                return Some(seq);
            }
            i += 1;
        }
        proof {
            assert forall|key: Seq<char>| !first_called(self@, name@, key) by {
                if first_called(self@, name@, key) {
                    let j = key_index(pairs, key);
                    assert(has_key(pairs, key));
                    assert(pairs[j].0 == key);
                }
            }
        }
        None
    }
}

/// Whether a bookmark is listed: each one is where no session is asked for, and
/// only that session's own where one is.
pub open spec fn is_listed(key: Seq<char>, session: Option<Seq<char>>) -> bool {
    match session {
        Some(s) => owned_by(key, s),
        None => true,
    }
}

impl BookmarkStore {
    /// Takes a bookmark out, by its qualified name, and says whether it was there.
    pub fn remove(&mut self, name: &str) -> (r: bool)
        requires
            old(self).wf(),
        ensures
            final(self).wf(),
            final(self)@ == old(self)@.remove(name@),
            r == old(self)@.contains_key(name@),
    {
        self.seqs.remove(name).is_some()
    }

    /// The bookmarks with their seqs, or those of one session, in the order of
    /// their qualified names.
    pub fn list(&self, session: Option<&str>) -> (r: Vec<(String, u64)>)
        requires
            self.wf(),
        ensures
            forall|i: int|
                0 <= i < r@.len() ==> self@.contains_key((#[trigger] r@[i]).0@)
                    && self@[r@[i].0@] == r@[i].1 && is_listed(
                    r@[i].0@,
                    text::optional_str(session),
                ),
            forall|k: Seq<char>| #[trigger]
                self@.contains_key(k) && is_listed(k, text::optional_str(session))
                    ==> exists|i: int| 0 <= i < r@.len() && (#[trigger] r@[i]).0@ == k,
            forall|i: int, j: int|
                0 <= i < j < r@.len() ==> precedes((#[trigger] r@[i]).0@, (#[trigger] r@[j]).0@),
    {
        let ghost pairs = self.seqs.pairs();
        let ghost wanted = text::optional_str(session);
        let prefix = match session {
            Some(s) => {
                let mut p = text::owned(s);
                p.push('/');
                p
            },
            None => String::new(),
        };
        let whole = session.is_none();
        let mut out: Vec<(String, u64)> = Vec::new();
        let mut i: usize = 0;
        proof {
            if let Some(s) = wanted {
                assert(prefix@ =~= s + seq!['/']);
            }
        }
        while i < self.seqs.len()
            invariant
                self.wf(),
                pairs == self.seqs.pairs(),
                whole == (wanted is None),
                wanted matches Some(s) ==> prefix@ == s + seq!['/'],
                i <= pairs.len(),
                forall|a: int|
                    0 <= a < out@.len() ==> is_listed((#[trigger] out@[a]).0@, wanted) && exists|b:
                        int|
                        0 <= b < i && (#[trigger] pairs[b]).0 == out@[a].0@ && pairs[b].1
                            == out@[a].1,
                forall|b: int|
                    0 <= b < i && is_listed((#[trigger] pairs[b]).0, wanted) ==> exists|a: int|
                        0 <= a < out@.len() && (#[trigger] out@[a]).0@ == pairs[b].0,
                forall|a: int, c: int|
                    0 <= a < c < out@.len() ==> precedes(
                        (#[trigger] out@[a]).0@,
                        (#[trigger] out@[c]).0@,
                    ),
            decreases pairs.len() - i,
        {
            let name = self.seqs.key_at(i);
            if whole || text::starts_with(&text::chars_of(name), &prefix) {
                let seq: u64 = *self.seqs.value_at(i);
                let ghost before = out@;
                out.push((name.clone(), seq));
                proof {
                    assert(pairs[i as int].0 == name@ && pairs[i as int].1 == seq);
                    assert(out@[before.len() as int].0@ == pairs[i as int].0);
                    assert forall|a: int| 0 <= a < before.len() implies precedes(
                        (#[trigger] out@[a]).0@,
                        name@,
                    ) by {
                        let b = choose|b: int|
                            0 <= b < i && (#[trigger] pairs[b]).0 == before[a].0@ && pairs[b].1
                                == before[a].1;
                        assert(precedes(pairs[b].0, pairs[i as int].0));
                    }
                    assert forall|b: int|
                        0 <= b < i + 1 && is_listed(
                            (#[trigger] pairs[b]).0,
                            wanted,
                        ) implies exists|a: int|
                        0 <= a < out@.len() && (#[trigger] out@[a]).0@ == pairs[b].0 by {
                        if b < i {
                            let a = choose|a: int|
                                0 <= a < before.len() && (#[trigger] before[a]).0@ == pairs[b].0;
                            assert(out@[a] == before[a]);
                        }
                    }
                }
            }
            i += 1;
        }
        proof {
            assert forall|a: int| 0 <= a < out@.len() implies self@.contains_key(
                (#[trigger] out@[a]).0@,
            ) && self@[out@[a].0@] == out@[a].1 by {
                let b = choose|b: int|
                    0 <= b < pairs.len() && (#[trigger] pairs[b]).0 == out@[a].0@ && pairs[b].1
                        == out@[a].1;
                lemma_pair_in_map(pairs, b);
            }
            assert forall|k: Seq<char>| #[trigger] self@.contains_key(k) && is_listed(
                k,
                wanted,
            ) implies exists|a: int| 0 <= a < out@.len() && (#[trigger] out@[a]).0@ == k by {
                let b = key_index(pairs, k);
                assert(has_key(pairs, k));
                assert(pairs[b].0 == k);
            }
        }
        out
    }
}

/// The bookmarks once a cursor has been opened.
pub open spec fn opened(seqs: Map<Seq<char>, u64>, cursor: Seq<char>) -> Map<Seq<char>, u64> {
    if seqs.contains_key(cursor) {
        seqs
    } else {
        seqs.insert(cursor, 0)
    }
}

/// A bookmark belongs to the session in front of its name, and to no other; a bare name
/// is put under the session that gives it.
pub proof fn bare_names_belong_to_their_session(
    name: Seq<char>,
    session: Seq<char>,
    other: Seq<char>,
)
    requires
        !name.contains('/'),
        !session.contains('/'),
        !other.contains('/'),
    ensures
        owned_by(qualified(name, session), session),
        owned_by(qualified(name, session), other) ==> other == session,
        qualified(name, session) == session + seq!['/'] + name,
        qualified(qualified(name, session), other) == qualified(name, session),
        is_called(qualified(name, session), name),
{
    let key = qualified(name, session);
    let mark = session + seq!['/'];
    assert(key.take(mark.len() as int) =~= mark);
    assert(key[session.len() as int] == '/');
    if owned_by(key, other) {
        let theirs = other + seq!['/'];
        assert(theirs[other.len() as int] == '/');
        assert(key.take(theirs.len() as int)[other.len() as int] == key[other.len() as int]);
        if other.len() < session.len() {
            assert(key[other.len() as int] == session[other.len() as int]);
        } else if session.len() < other.len() {
            assert(key.take(theirs.len() as int)[session.len() as int] == theirs[session.len() as int]);
            assert(theirs[session.len() as int] == other[session.len() as int]);
        } else {
            assert(other =~= session) by {
                assert forall|i: int| 0 <= i < other.len() implies other[i] == session[i] by {
                    assert(key.take(theirs.len() as int)[i] == key[i]);
                    assert(theirs[i] == other[i]);
                    assert(key[i] == session[i]);
                }
            }
        }
    }
    first_and_last_places(key, '/');
    assert(first_at(key, '/') == session.len()) by {
        let at = first_at(key, '/');
        if at < session.len() {
            assert(key[at] == session[at]);
        }
    }
    assert(key.skip(session.len() as int + 1) =~= name);
}

/// Clearing a session drops its bookmarks and leaves all others where they stand.
pub proof fn clearing_spares_other_sessions(
    seqs: Map<Seq<char>, u64>,
    session: Seq<char>,
    key: Seq<char>,
)
    ensures
        without_session(seqs, session).contains_key(key) <==> seqs.contains_key(key) && !(key.len()
            > session.len() && key.take(session.len() as int) == session
            && key[session.len() as int] == '/'),
        without_session(seqs, session).contains_key(key) ==> without_session(seqs, session)[key]
            == seqs[key],
{
    let mark = session + seq!['/'];
    if key.len() > session.len() {
        if owned_by(key, session) {
            assert(key.take(mark.len() as int)[session.len() as int] == '/');
            assert(key.take(session.len() as int) =~= mark.take(session.len() as int));
            assert(mark.take(session.len() as int) =~= session);
        }
        if key.take(session.len() as int) == session && key[session.len() as int] == '/' {
            assert(key.take(mark.len() as int) =~= mark);
        }
    }
}

/// A cursor that is opened stands at the beginning; one that was there stays where it
/// stands, and no other bookmark is touched.
pub proof fn opened_cursors_begin_at_the_start(
    seqs: Map<Seq<char>, u64>,
    cursor: Seq<char>,
    key: Seq<char>,
)
    ensures
        opened(seqs, cursor).contains_key(cursor),
        !seqs.contains_key(cursor) ==> opened(seqs, cursor)[cursor] == 0,
        seqs.contains_key(key) ==> opened(seqs, cursor).contains_key(key) && opened(
            seqs,
            cursor,
        )[key] == seqs[key],
        key != cursor ==> opened(seqs, cursor).contains_key(key) == seqs.contains_key(key),
{
}

/// Who calls a bookmark by a bare name: where no session does, it has no seq, and where
/// one does, it is that bookmark's.
pub proof fn bare_names_are_looked_up(seqs: Map<Seq<char>, u64>, name: Seq<char>, key: Seq<char>)
    ensures
        seq_called(seqs, name) matches Some(seq) ==> exists|k: Seq<char>|
            #![trigger seqs.contains_key(k)]
            seqs.contains_key(k) && is_called(k, name) && seqs[k] == seq && (seqs.contains_key(key)
                && is_called(key, name) ==> !precedes(key, k)),
        seqs.contains_key(key) && is_called(key, name) && (forall|k: Seq<char>| #[trigger]
            seqs.contains_key(k) && is_called(k, name) ==> !precedes(k, key)) ==> seq_called(
            seqs,
            name,
        ) == Some(seqs[key]),
{
    if seq_called(seqs, name) is Some {
        let k = choose|k: Seq<char>| first_called(seqs, name, k);
        assert(seqs.contains_key(k));
    }
    if first_called(seqs, name, key) {
        lemma_first_called_unique(
            seqs,
            name,
            key,
            choose|k: Seq<char>| first_called(seqs, name, k),
        );
    }
}

/// Without a session every bookmark is listed; with one, those that its name and a slash
/// begin.
pub proof fn sessions_list_their_own(key: Seq<char>, session: Seq<char>)
    ensures
        is_listed(key, None),
        is_listed(key, Some(session)) <==> owned_by(key, session),
{
}

} // verus!
