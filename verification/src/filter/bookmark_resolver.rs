//! Resolving bookmarks and cursors to the seqs that they stand for.
use crate::filter::parser::{
    has_reference, is_reference, qualifier_views, qualifiers_in, BookmarkOp, FilterView,
    ParsedFilter, Qualifier, QualifierView, SeqOp,
};
use crate::store::bookmarks::{opened, qualified, qualify, BookmarkStore, CursorCommit};
use crate::text;
use crate::text::{first_and_last_places, first_at};
use vstd::prelude::*;

verus! {

broadcast use vstd::string::group_string_axioms;

#[derive(Debug, PartialEq, Eq)]
pub enum BookmarkResolutionError {
    NotFound(String),
    CrossSessionCursorAdvance(String),
}

/// What a [`BookmarkResolutionError`] says.
#[verifier::ext_equal]
pub enum ResolutionErrorView {
    NotFound(Seq<char>),
    CrossSessionCursorAdvance(Seq<char>),
}

impl View for BookmarkResolutionError {
    type V = ResolutionErrorView;

    open spec fn view(&self) -> ResolutionErrorView {
        match self {
            BookmarkResolutionError::NotFound(n) => ResolutionErrorView::NotFound(n@),
            BookmarkResolutionError::CrossSessionCursorAdvance(n) =>
                ResolutionErrorView::CrossSessionCursorAdvance(n@),
        }
    }
}

impl ResolutionErrorView {
    /// The message that a caller is shown.
    pub open spec fn message(self) -> Seq<char> {
        match self {
            ResolutionErrorView::NotFound(n) => "bookmark not found: "@ + n,
            ResolutionErrorView::CrossSessionCursorAdvance(n) =>
                "cross-session cursor advance is not permitted: "@ + n,
        }
    }
}

impl BookmarkResolutionError {
    /// The message that a caller is shown.
    pub fn to_text(&self) -> (r: String)
        ensures
            r@ == self@.message(),
    {
        match self {
            BookmarkResolutionError::NotFound(n) => text::join2("bookmark not found: ", n),
            BookmarkResolutionError::CrossSessionCursorAdvance(n) => text::join2(
                "cross-session cursor advance is not permitted: ",
                n,
            ),
        }
    }
}

/// Result of resolving bookmark/cursor qualifiers in a filter.
///
/// `filter` is the rewritten filter (every `BookmarkFilter` and `CursorFilter`
/// has been replaced with the corresponding internal `SeqFilter`). When the
/// input contained a `CursorFilter`, `cursor_commit` carries the right to
/// advance it after the query. A parsed filter never contains more than one
/// `CursorFilter`, so a single `Option<CursorCommit>` is sufficient.
#[derive(Debug)]
pub struct ResolvedFilter {
    pub filter: ParsedFilter,
    pub cursor_commit: Option<CursorCommit>,
}

/// How far resolving a list of qualifiers has come.
#[verifier::ext_equal]
pub struct Resolution {
    /// The bookmarks, with the cursors that were opened on the way.
    pub seqs: Map<Seq<char>, u64>,
    pub qualifiers: Seq<QualifierView>,
    /// The last cursor that was opened.
    pub cursor: Option<Seq<char>>,
    /// What stopped the resolving.
    pub error: Option<ResolutionErrorView>,
}

/// The strict comparison that a bookmark's resolves to.
pub open spec fn strict(op: BookmarkOp) -> SeqOp {
    match op {
        BookmarkOp::Gte => SeqOp::Gt,
        BookmarkOp::Lte => SeqOp::Lt,
    }
}

/// One qualifier more.
pub open spec fn resolve_step(r: Resolution, q: QualifierView, session: Seq<char>) -> Resolution {
    if r.error is Some {
        r
    } else {
        match q {
            QualifierView::BookmarkFilter { op, name } => {
                let key = qualified(name, session);
                if r.seqs.contains_key(key) {
                    Resolution {
                        qualifiers: r.qualifiers.push(
                            QualifierView::SeqFilter { op: strict(op), value: r.seqs[key] },
                        ),
                        ..r
                    }
                } else {
                    Resolution { error: Some(ResolutionErrorView::NotFound(key)), ..r }
                }
            },
            QualifierView::CursorFilter { name } => {
                let key = qualified(name, session);
                if key.take(first_at(key, '/')) != session {
                    Resolution {
                        error: Some(ResolutionErrorView::CrossSessionCursorAdvance(key)),
                        ..r
                    }
                } else {
                    Resolution {
                        seqs: opened(r.seqs, key),
                        qualifiers: r.qualifiers.push(
                            QualifierView::SeqFilter {
                                op: SeqOp::Gt,
                                value: opened(r.seqs, key)[key],
                            },
                        ),
                        cursor: Some(key),
                        error: None,
                    }
                }
            },
            _ => Resolution { qualifiers: r.qualifiers.push(q), ..r },
        }
    }
}

/// What resolving a list of qualifiers comes to.
pub open spec fn resolution(
    seqs: Map<Seq<char>, u64>,
    qs: Seq<QualifierView>,
    session: Seq<char>,
) -> Resolution
    decreases qs.len(),
{
    if qs.len() == 0 {
        Resolution { seqs, qualifiers: seq![], cursor: None, error: None }
    } else {
        resolve_step(resolution(seqs, qs.drop_last(), session), qs.last(), session)
    }
}

proof fn lemma_error_stays(
    seqs: Map<Seq<char>, u64>,
    qs: Seq<QualifierView>,
    session: Seq<char>,
    n: int,
)
    requires
        0 <= n <= qs.len(),
        resolution(seqs, qs.take(n), session).error is Some,
    ensures
        resolution(seqs, qs, session) == resolution(seqs, qs.take(n), session),
    decreases qs.len() - n,
{
    if n < qs.len() {
        assert(qs.take(n + 1).drop_last() =~= qs.take(n));
        lemma_error_stays(seqs, qs, session, n + 1);
    } else {
        assert(qs.take(n) =~= qs);
    }
}

/// Walk a parsed filter and rewrite every `BookmarkFilter` / `CursorFilter`
/// qualifier to a `SeqFilter` by looking up the bookmark in the store.
///
/// - `BookmarkFilter` qualifiers: bare names are qualified against
///   `current_session`; `BookmarkOp::Gte` maps to `SeqOp::Gt`,
///   `BookmarkOp::Lte` maps to `SeqOp::Lt`. Returns `NotFound` on the first
///   missing bookmark.
/// - `CursorFilter` qualifiers: cross-session names (qualified to a session
///   other than `current_session`) are rejected with
///   `CrossSessionCursorAdvance`: advancing another session's cursor would
///   silently corrupt that session's read state. For same-session cursors the
///   current lower bound is read (auto-creating at seq 0 if absent) and becomes
///   a strict lower bound.
pub fn resolve_bookmarks(
    filter: ParsedFilter,
    store: &mut BookmarkStore,
    current_session: &str,
) -> (r: Result<ResolvedFilter, BookmarkResolutionError>)
    requires
        old(store).wf(),
    ensures
        final(store).wf(),
        ({
            let after = resolution(old(store)@, qualifiers_in(filter@), current_session@);
            &&& final(store)@ == after.seqs
            &&& match r {
                Err(e) => after.error == Some(e@),
                Ok(resolved) => {
                    &&& after.error is None
                    &&& resolved.filter@ == match filter@ {
                        FilterView::Qualifiers(_) => FilterView::Qualifiers(after.qualifiers),
                        f => f,
                    }
                    &&& after.cursor == match resolved.cursor_commit {
                        Some(c) => Some(c.cursor@),
                        None => None,
                    }
                },
            }
        }),
{
    let ghost views = qualifiers_in(filter@);
    let ghost before = store@;
    let ghost session = current_session@;
    let qs = match filter {
        ParsedFilter::All => {
            return Ok(ResolvedFilter { filter: ParsedFilter::All, cursor_commit: None });
        },
        ParsedFilter::Nothing => {
            return Ok(ResolvedFilter { filter: ParsedFilter::Nothing, cursor_commit: None });
        },
        ParsedFilter::Qualifiers(qs) => qs,
    };
    let mut rest = qs;
    let mut out: Vec<Qualifier> = Vec::new();
    let mut cursor_commit: Option<CursorCommit> = None;
    let mut done: usize = 0;
    let total: usize = rest.len();
    proof {
        assert(qualifier_views(out@) =~= seq![]);
        assert(views.skip(0) =~= views);
        assert(views.take(0) =~= seq![]);
    }
    while done < total
        invariant
            store.wf(),
            before == old(store)@,
            session == current_session@,
            total == views.len(),
            done <= total,
            views == qualifiers_in(filter@),
            filter@ is Qualifiers,
            qualifier_views(rest@) == views.skip(done as int),
            ({
                let r = resolution(before, views.take(done as int), session);
                &&& r.error is None
                &&& r.seqs == store@
                &&& r.qualifiers == qualifier_views(out@)
                &&& r.cursor == match cursor_commit {
                    Some(c) => Some(c.cursor@),
                    None => None,
                }
            }),
        decreases total - done,
    {
        let ghost sofar = out@;
        proof {
            assert(views.take(done + 1).drop_last() =~= views.take(done as int));
            assert(views.take(done + 1).last() == views[done as int]);
            assert(qualifier_views(rest@)[0] == views[done as int]);
            assert(rest@.len() == qualifier_views(rest@).len());
        }
        let ghost was = rest@;
        let q = rest.remove(0);
        proof {
            assert(qualifier_views(rest@) =~= views.skip(done + 1)) by {
                assert(rest@ =~= was.skip(1));
                assert(qualifier_views(was) == views.skip(done as int));
                assert forall|k: int| 0 <= k < rest@.len() implies #[trigger] qualifier_views(rest@)[k]
                    == views.skip(done + 1)[k] by {
                    assert(qualifier_views(was)[k + 1] == views.skip(done as int)[k + 1]);
                }
            }
            assert(q@ == views[done as int]);
        }
        match q {
            Qualifier::BookmarkFilter { op, name } => {
                let key = qualify(&name, current_session);
                match store.get(&key) {
                    None => {
                        proof {
                            lemma_error_stays(before, views, session, done + 1);
                        }
                        return Err(BookmarkResolutionError::NotFound(key));
                    },
                    Some(value) => {
                        let op = match op {
                            BookmarkOp::Gte => SeqOp::Gt,
                            BookmarkOp::Lte => SeqOp::Lt,
                        };
                        out.push(Qualifier::SeqFilter { op, value });
                    },
                }
            },
            Qualifier::CursorFilter { name } => {
                let key = qualify(&name, current_session);
                let target = target_session(&key);
                if !text::same(&target, current_session) {
                    proof {
                        lemma_error_stays(before, views, session, done + 1);
                    }
                    return Err(BookmarkResolutionError::CrossSessionCursorAdvance(key));
                }
                let (lower, commit) = store.cursor_read_and_advance(&key);
                out.push(Qualifier::SeqFilter { op: SeqOp::Gt, value: lower });
                cursor_commit = Some(commit);
            },
            other => {
                out.push(other);
            },
        }
        proof {
            assert(qualifier_views(out@) =~= qualifier_views(sofar).push(out@.last()@));
        }
        done += 1;
    }
    proof {
        assert(views.take(views.len() as int) =~= views);
    }
    Ok(ResolvedFilter { filter: ParsedFilter::Qualifiers(out), cursor_commit })
}

/// The session of a qualified name: what stands before its first `/`.
fn target_session(key: &str) -> (r: String)
    ensures
        r@ == key@.take(first_at(key@, '/')),
{
    let chars = text::chars_of(key);
    let at: usize = text::find_first(&chars, '/');
    let r = text::text_between(&chars, 0, at);
    proof {
        assert(r@ =~= key@.take(at as int));
    }
    r
}

/// A resolved filter refers to no bookmark and no cursor any more.
pub proof fn resolved_filters_refer_to_nothing(
    seqs: Map<Seq<char>, u64>,
    qs: Seq<QualifierView>,
    session: Seq<char>,
)
    ensures
        !has_reference(resolution(seqs, qs, session).qualifiers),
    decreases qs.len(),
{
    if qs.len() > 0 {
        resolved_filters_refer_to_nothing(seqs, qs.drop_last(), session);
        let before = resolution(seqs, qs.drop_last(), session).qualifiers;
        let after = resolution(seqs, qs, session).qualifiers;
        assert forall|i: int| 0 <= i < after.len() implies !is_reference(#[trigger] after[i]) by {
            if i < before.len() {
                assert(after[i] == before[i]);
                assert(!is_reference(before[i]));
            }
        }
    }
}

/// Resolving keeps every bookmark where it stands: it only opens cursors of the
/// caller's own session, at 0.
pub proof fn resolving_moves_no_bookmark(
    seqs: Map<Seq<char>, u64>,
    qs: Seq<QualifierView>,
    session: Seq<char>,
    key: Seq<char>,
)
    ensures
        ({
            let after = resolution(seqs, qs, session).seqs;
            &&& seqs.contains_key(key) ==> after.contains_key(key) && after[key] == seqs[key]
            &&& after.contains_key(key) && !seqs.contains_key(key) ==> after[key] == 0 && key.take(
                first_at(key, '/'),
            ) == session
        }),
    decreases qs.len(),
{
    if qs.len() > 0 {
        resolving_moves_no_bookmark(seqs, qs.drop_last(), session, key);
    }
}

/// A filter without bookmarks and cursors resolves to itself, and opens nothing.
pub proof fn other_qualifiers_pass_through(
    seqs: Map<Seq<char>, u64>,
    qs: Seq<QualifierView>,
    session: Seq<char>,
)
    requires
        !has_reference(qs),
    ensures
        resolution(seqs, qs, session) == (Resolution {
            seqs,
            qualifiers: qs,
            cursor: None,
            error: None,
        }),
    decreases qs.len(),
{
    if qs.len() == 0 {
        assert(qs =~= seq![]);
    } else {
        let front = qs.drop_last();
        assert forall|i: int| 0 <= i < front.len() implies !is_reference(#[trigger] front[i]) by {
            assert(front[i] == qs[i]);
            assert(!is_reference(qs[i]));
        }
        other_qualifiers_pass_through(seqs, front, session);
        assert(!is_reference(qs[qs.len() - 1]));
        assert(front.push(qs.last()) =~= qs);
    }
}

/// Qualifiers are resolved one by one and in their order: what follows resolves against
/// the bookmarks as they are then.
pub proof fn qualifiers_resolve_in_order(
    seqs: Map<Seq<char>, u64>,
    a: Seq<QualifierView>,
    b: Seq<QualifierView>,
    session: Seq<char>,
)
    requires
        resolution(seqs, a, session).error is None,
    ensures
        ({
            let first = resolution(seqs, a, session);
            let then = resolution(first.seqs, b, session);
            let both = resolution(seqs, a + b, session);
            &&& both.seqs == then.seqs
            &&& both.error == then.error
            &&& both.qualifiers == first.qualifiers + then.qualifiers
        }),
    decreases b.len(),
{
    let first = resolution(seqs, a, session);
    if b.len() == 0 {
        assert(a + b =~= a);
        assert(first.qualifiers + Seq::<QualifierView>::empty() =~= first.qualifiers);
    } else {
        assert((a + b).drop_last() =~= a + b.drop_last());
        qualifiers_resolve_in_order(seqs, a, b.drop_last(), session);
        let both = resolution(seqs, a + b, session).qualifiers;
        let then = resolution(first.seqs, b, session).qualifiers;
        assert(both =~= first.qualifiers + then);
    }
}

/// A comparison with a bookmark becomes a strict one with where the bookmark stands, on
/// the same side: records at the mark itself are on neither. A name without a session is
/// that of the caller's own bookmark. One that is not there is named in the refusal.
pub proof fn bookmarks_resolve_to_strict_bounds(
    seqs: Map<Seq<char>, u64>,
    name: Seq<char>,
    session: Seq<char>,
)
    ensures
        ({
            let key = if name.contains('/') {
                name
            } else {
                session + seq!['/'] + name
            };
            let above = resolution(
                seqs,
                seq![QualifierView::BookmarkFilter { op: BookmarkOp::Gte, name }],
                session,
            );
            let below = resolution(
                seqs,
                seq![QualifierView::BookmarkFilter { op: BookmarkOp::Lte, name }],
                session,
            );
            &&& seqs.contains_key(key) ==> {
                &&& above.error is None && below.error is None
                &&& above.qualifiers == seq![
                    QualifierView::SeqFilter { op: SeqOp::Gt, value: seqs[key] },
                ]
                &&& below.qualifiers == seq![
                    QualifierView::SeqFilter { op: SeqOp::Lt, value: seqs[key] },
                ]
            }
            &&& !seqs.contains_key(key) ==> {
                &&& above.error == Some(ResolutionErrorView::NotFound(key))
                &&& below.error == Some(ResolutionErrorView::NotFound(key))
            }
            &&& above.cursor is None && below.cursor is None
            &&& above.seqs == seqs && below.seqs == seqs
        }),
{
    reveal_with_fuel(resolution, 2);
    let above = seq![QualifierView::BookmarkFilter { op: BookmarkOp::Gte, name }];
    let below = seq![QualifierView::BookmarkFilter { op: BookmarkOp::Lte, name }];
    assert(above.drop_last() =~= seq![]);
    assert(below.drop_last() =~= seq![]);
    let key = qualified(name, session);
    if seqs.contains_key(key) {
        assert(resolution(seqs, above, session).qualifiers =~= seq![
            QualifierView::SeqFilter { op: SeqOp::Gt, value: seqs[key] },
        ]);
        assert(resolution(seqs, below, session).qualifiers =~= seq![
            QualifierView::SeqFilter { op: SeqOp::Lt, value: seqs[key] },
        ]);
    }
}

/// A cursor asks for what lies behind where it stands, from the very beginning where it
/// is new, and is named as the one to be advanced. A cursor of another session is refused.
pub proof fn cursors_resolve_to_what_follows(
    seqs: Map<Seq<char>, u64>,
    name: Seq<char>,
    session: Seq<char>,
)
    requires
        !session.contains('/'),
    ensures
        ({
            let key = if name.contains('/') {
                name
            } else {
                session + seq!['/'] + name
            };
            let r = resolution(seqs, seq![QualifierView::CursorFilter { name }], session);
            let own = key.len() > session.len() && key.take(session.len() as int) == session
                && key[session.len() as int] == '/';
            &&& own ==> {
                &&& r.error is None
                &&& r.cursor == Some(key)
                &&& r.qualifiers == seq![
                    QualifierView::SeqFilter {
                        op: SeqOp::Gt,
                        value: if seqs.contains_key(key) {
                            seqs[key]
                        } else {
                            0
                        },
                    },
                ]
                &&& r.seqs == seqs.insert(
                    key,
                    if seqs.contains_key(key) {
                        seqs[key]
                    } else {
                        0
                    },
                )
            }
            &&& !own ==> {
                &&& r.error == Some(ResolutionErrorView::CrossSessionCursorAdvance(key))
                &&& r.seqs == seqs
                &&& r.cursor is None
            }
        }),
{
    reveal_with_fuel(resolution, 2);
    let qs = seq![QualifierView::CursorFilter { name }];
    assert(qs.drop_last() =~= seq![]);
    let key = qualified(name, session);
    let r = resolution(seqs, qs, session);
    let at = first_at(key, '/');
    first_and_last_places(key, '/');
    assert(key.contains('/')) by {
        if !name.contains('/') {
            assert(key[session.len() as int] == '/');
        }
    }
    let some = choose|i: int| 0 <= i < key.len() && key[i] == '/';
    assert(at <= some);
    let own = key.len() > session.len() && key.take(session.len() as int) == session
        && key[session.len() as int] == '/';
    if own {
        assert(at == session.len()) by {
            if at < session.len() {
                assert(key.take(session.len() as int)[at] == '/');
                assert(session[at] == '/');
            }
        }
        assert(seqs.contains_key(key) ==> seqs.insert(key, seqs[key]) =~= seqs);
        assert(r.qualifiers =~= seq![
            QualifierView::SeqFilter {
                op: SeqOp::Gt,
                value: if seqs.contains_key(key) {
                    seqs[key]
                } else {
                    0
                },
            },
        ]);
    } else {
        assert(key.take(at) != session) by {
            if key.take(at) == session {
                assert(at == session.len());
            }
        }
    }
}

} // verus!
