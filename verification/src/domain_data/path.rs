//! Key syntax for the domain registry.
//!
//! A key is an optional `@` sigil followed by a path. The sigil scopes the fact
//! to one case document instead of to the domain; strip it and what remains is
//! an ordinary path, so `@/Data/seed` and `/Data/seed` are the same fact at two
//! scopes rather than two spellings of one.
use crate::text;
use crate::text::begins_with;
use vstd::prelude::*;
use vstd::utf8::encode_utf8;

verus! {

broadcast use vstd::string::group_string_axioms;

/// Longest legal path, sigil excluded. The sigil is excluded deliberately: a
/// fact and its document-scoped twin must be legal in exactly the same cases.
pub const MAX_PATH_BYTES: usize = 256;

/// Longest legal value. The registry is copied into every never-deleted
/// document, so it is not a payload store.
pub const MAX_VALUE_BYTES: usize = 4096;

/// Keys per domain, `/logmon/*` excluded: otherwise logmon could lock an agent
/// out of its own registry.
pub const MAX_KEYS: usize = 256;

/// Document-scoped keys per case. Separate from [`MAX_KEYS`] because these
/// never reach the registry.
pub const MAX_SIGIL_KEYS: usize = 64;

/// The one reserved first segment. Everything logmon itself produces lives
/// under it and no agent may write there.
pub const RESERVED_SEGMENT: &'static str = "logmon";

/// The document-scope marker. It cannot occur inside a path, so `@/x` needs no
/// escaping to be unambiguous.
pub const SIGIL: char = '@';

#[derive(Debug, Clone, Copy, PartialEq, Eq, Structural)]
pub enum KeyError {
    /// Empty, missing the leading `/`, an empty segment, or an out-of-charset
    /// byte.
    Malformed,
    TooLong,
    /// A `@` key arrived somewhere with no document to put it in.
    SigilNotAllowed,
}

/// A parsed key: a path, and whether it was sigilled.
#[derive(Debug, Clone, PartialEq, Eq, Hash, PartialOrd, Ord)]
pub struct Key {
    path: String,
    sigil: bool,
}

/// What a [`Key`] stands for.
pub struct KeyView {
    pub path: Seq<char>,
    pub sigil: bool,
}

impl View for Key {
    type V = KeyView;

    closed spec fn view(&self) -> KeyView {
        KeyView { path: self.path@, sigil: self.sigil }
    }
}

/// The bytes that `text` takes.
pub open spec fn byte_len(text: Seq<char>) -> nat {
    encode_utf8(text).len()
}

/// ASCII letters, digits, `_`, `-`, `.`.
pub open spec fn is_segment_char(c: char) -> bool {
    ('a' <= c && c <= 'z') || ('A' <= c && c <= 'Z') || ('0' <= c && c <= '9') || c == '_' || c
        == '-' || c == '.'
}

/// Slash-separated, non-empty segments of legal characters, each behind a `/`.
pub open spec fn is_path_shape(p: Seq<char>) -> bool {
    &&& p.len() >= 2
    &&& p[0] == '/'
    &&& p.last() != '/'
    &&& forall|i: int| 0 <= i < p.len() ==> #[trigger] p[i] == '/' || is_segment_char(p[i])
    &&& forall|i: int| 0 < i < p.len() && #[trigger] p[i] == '/' ==> p[i - 1] != '/'
}

/// What is wrong with a path, if anything.
pub open spec fn path_error(p: Seq<char>) -> Option<KeyError> {
    if byte_len(p) > MAX_PATH_BYTES {
        Some(KeyError::TooLong)
    } else if !is_path_shape(p) {
        Some(KeyError::Malformed)
    } else {
        None
    }
}

/// A raw key split into its path and whether the sigil stood before it.
pub open spec fn split_sigil(raw: Seq<char>) -> KeyView {
    if raw.len() > 0 && raw[0] == SIGIL {
        KeyView { path: raw.skip(1), sigil: true }
    } else {
        KeyView { path: raw, sigil: false }
    }
}

/// What parsing a raw key comes to.
pub open spec fn key_of(raw: Seq<char>, allow_sigil: bool) -> Result<KeyView, KeyError> {
    match path_error(split_sigil(raw).path) {
        Some(e) => Err(e),
        None => if split_sigil(raw).sigil && !allow_sigil {
            Err(KeyError::SigilNotAllowed)
        } else {
            Ok(split_sigil(raw))
        },
    }
}

/// A key with its sigil in front of it.
pub open spec fn rendered_key(k: KeyView) -> Seq<char> {
    if k.sigil {
        seq![SIGIL] + k.path
    } else {
        k.path
    }
}

/// `/logmon`.
pub open spec fn reserved_root() -> Seq<char> {
    seq!['/', 'l', 'o', 'g', 'm', 'o', 'n']
}

/// Whether the first segment of a path is the reserved one.
pub open spec fn reserved(p: Seq<char>) -> bool {
    begins_with(p, reserved_root()) && (p.len() == reserved_root().len() || p[reserved_root().len() as int]
        == '/')
}

/// Whether `pattern` matches `path` on segment boundaries.
pub open spec fn prefix_matches(pattern: Seq<char>, path: Seq<char>) -> bool {
    path == pattern || (begins_with(path, pattern) && path.len() > pattern.len() && path[pattern.len() as int]
        == '/')
}

impl Key {
    /// Parse a key. `allow_sigil` is false on every surface that writes the
    /// registry and true only where a document exists to receive it.
    ///
    /// **Syntax only: the reservation is policy and is checked by the caller**
    /// via [`Key::is_reserved`], because `set_reserved` is a legitimate writer
    /// of `/logmon/*` and shares this parser. So `@/logmon/x` on a registry
    /// surface reports `SigilNotAllowed`.
    pub fn parse(raw: &str, allow_sigil: bool) -> (r: Result<Self, KeyError>)
        ensures
            match r {
                Ok(k) => key_of(raw@, allow_sigil) == Ok::<KeyView, KeyError>(k@),
                Err(e) => key_of(raw@, allow_sigil) == Err::<KeyView, KeyError>(e),
            },
    {
        let chars = text::chars_of(raw);
        let sigil = chars.len() > 0 && chars[0] == SIGIL;
        let from: usize = if sigil {
            1
        } else {
            0
        };
        let path = text::text_between(&chars, from, chars.len());
        proof {
            assert(path@ =~= split_sigil(raw@).path);
        }
        match validate_path(&path) {
            Err(e) => Err(e),
            Ok(_) => {
                if sigil && !allow_sigil {
                    return Err(KeyError::SigilNotAllowed);
                }
                Ok(Key { path, sigil })
            },
        }
    }

    /// The path with no sigil: what prefix matching and the reservation see.
    pub fn path(&self) -> (r: &str)
        ensures
            r@ == self@.path,
    {
        self.path.as_str()
    }

    /// Whether this key belongs to one document rather than to the domain.
    pub fn is_scoped(&self) -> (r: bool)
        ensures
            r == self@.sigil,
    {
        self.sigil
    }

    /// True for `/logmon/...` and for the bare `/logmon`.
    pub fn is_reserved(&self) -> (r: bool)
        ensures
            r == reserved(self@.path),
    {
        is_reserved(&self.path)
    }

    /// How the key renders: with its sigil, so a reader sees the scope in the
    /// key itself and `grep '/Data/seed'` and `grep '@/Data/seed'` stay two
    /// different questions.
    pub fn rendered(&self) -> (r: String)
        ensures
            r@ == rendered_key(self@),
    {
        if self.sigil {
            let mut out = String::new();
            out.push(SIGIL);
            out.append(self.path.as_str());
            out
        } else {
            self.path.clone()
        }
    }
}

/// Whether a path's **first segment** is the reserved one.
///
/// Stated over segments rather than as a byte prefix, and that is the whole
/// point. A `starts_with("/logmon/")` guard accepts the bare `/logmon`, a legal
/// path, which an agent could then seat a value at and which `remove` would
/// refuse to delete.
pub fn is_reserved(path: &str) -> (r: bool)
    ensures
        r == reserved(path@),
{
    let chars = text::chars_of(path);
    proof {
        reveal_strlit("/logmon");
        assert("/logmon"@ =~= reserved_root());
    }
    text::starts_with(&chars, "/logmon") && (chars.len() == 7 || chars[7] == '/')
}

/// Whether `pattern` matches `path` on segment boundaries.
///
/// `/Versions` matches `/Versions/ht_server` and `/Versions`; it does **not**
/// match `/VersionsOld/x`. Byte-prefix matching would let `/Ver` delete
/// `/Versions/*`.
pub fn matches_prefix(pattern: &str, path: &str) -> (r: bool)
    ensures
        r == prefix_matches(pattern@, path@),
{
    if text::same(path, pattern) {
        return true;
    }
    let chars = text::chars_of(path);
    let n: usize = text::chars_of(pattern).len();
    text::starts_with(&chars, pattern) && chars.len() > n && chars[n] == '/'
}

fn validate_path(path: &str) -> (r: Result<(), KeyError>)
    ensures
        match r {
            Ok(_) => path_error(path@) is None,
            Err(e) => path_error(path@) == Some(e),
        },
{
    if path.as_bytes().len() > MAX_PATH_BYTES {
        return Err(KeyError::TooLong);
    }
    let p = text::chars_of(path);
    if p.len() < 2 || p[0] != '/' || p[p.len() - 1] == '/' {
        return Err(KeyError::Malformed);
    }
    let mut i: usize = 1;
    while i < p.len()
        invariant
            p@ == path@,
            byte_len(path@) <= MAX_PATH_BYTES,
            1 <= i <= p@.len(),
            p@[0] == '/',
            forall|k: int| 0 <= k < i ==> #[trigger] p@[k] == '/' || is_segment_char(p@[k]),
            forall|k: int| 0 < k < i && #[trigger] p@[k] == '/' ==> p@[k - 1] != '/',
        decreases p@.len() - i,
    {
        let c = p[i];
        if c == '/' {
            if p[i - 1] == '/' {
                return Err(KeyError::Malformed);
            }
        } else if !is_segment(c) {
            return Err(KeyError::Malformed);
        }
        i += 1;
    }
    Ok(())
}

/// ASCII letters, digits, `_`, `-`, `.`: what a session name may hold, and `.`
/// for versions and hostnames.
fn is_segment(c: char) -> (r: bool)
    ensures
        r == is_segment_char(c),
{
    ('a' <= c && c <= 'z') || ('A' <= c && c <= 'Z') || ('0' <= c && c <= '9') || c == '_' || c
        == '-' || c == '.'
}

/// A pattern matches a reserved key only if it is itself reserved, and a
/// reserved pattern matches nothing else: prefix matching only ever strips
/// whole trailing segments and so can never change the first one. This is what
/// lets one check guard every removal. The empty pattern, which is no key,
/// stands outside it.
pub proof fn reserved_keys_have_reserved_patterns(pattern: Seq<char>, key: Seq<char>)
    requires
        pattern.len() > 0,
        prefix_matches(pattern, key),
    ensures
        reserved(key) == reserved(pattern),
{
    let root = reserved_root();
    let n = pattern.len() as int;
    if n < root.len() {
        if reserved(key) && key != pattern {
            assert(key.take(7)[n] == root[n]);
        }
    } else if key != pattern {
        assert(key.take(7) =~= key.take(n).take(7));
        assert(n > 7 ==> key.take(n)[7] == key[7]);
    }
}

/// The sigil does not change what paths are legal: `@p` parses exactly where
/// `p` does, and to the same path.
pub proof fn the_sigil_changes_only_scope(path: Seq<char>)
    requires
        path.len() == 0 || path[0] != SIGIL,
    ensures
        match key_of(path, true) {
            Ok(k) => key_of(seq![SIGIL] + path, true) == Ok::<KeyView, KeyError>(
                KeyView { path: k.path, sigil: true },
            ) && !k.sigil,
            Err(e) => key_of(seq![SIGIL] + path, true) == Err::<KeyView, KeyError>(e),
        },
{
    assert((seq![SIGIL] + path).skip(1) =~= path);
}

/// A key's rendering parses back to that key, where sigils are allowed.
pub proof fn rendering_parses_back(raw: Seq<char>)
    requires
        key_of(raw, true) is Ok,
    ensures
        rendered_key(key_of(raw, true)->Ok_0) == raw,
{
    let k = split_sigil(raw);
    if k.sigil {
        assert(seq![SIGIL] + raw.skip(1) =~= raw);
    }
}

/// A pattern takes the path that it spells and all that lies below it, and no path that
/// only begins alike.
pub proof fn patterns_take_whole_segments(pattern: Seq<char>, rest: Seq<char>, path: Seq<char>)
    ensures
        prefix_matches(pattern, pattern),
        prefix_matches(pattern, pattern + seq!['/'] + rest),
        prefix_matches(pattern, path) ==> path == pattern || exists|below: Seq<char>|
            path == #[trigger] (pattern + seq!['/'] + below),
        rest.len() > 0 && rest[0] != '/' ==> !prefix_matches(pattern, pattern + rest),
{
    let below = pattern + seq!['/'] + rest;
    assert(below.take(pattern.len() as int) =~= pattern);
    assert(below[pattern.len() as int] == '/');
    if prefix_matches(pattern, path) && path != pattern {
        let tail = path.skip(pattern.len() as int + 1);
        assert(path =~= pattern + seq!['/'] + tail) by {
            assert forall|i: int| 0 <= i < path.len() implies path[i] == (pattern + seq!['/'] + tail)[i] by {
                if i < pattern.len() {
                    assert(path.take(pattern.len() as int)[i] == path[i]);
                }
            }
        }
    }
    if rest.len() > 0 && rest[0] != '/' {
        let longer = pattern + rest;
        assert(longer[pattern.len() as int] == rest[0]);
        assert(longer.len() > pattern.len());
    }
}

/// What is under `/logmon` is reserved, and nothing else is.
pub proof fn only_logmon_is_reserved(path: Seq<char>, rest: Seq<char>)
    ensures
        reserved("/logmon"@),
        reserved("/logmon/"@ + rest),
        reserved(path) ==> path == "/logmon"@ || exists|below: Seq<char>|
            path == #[trigger] ("/logmon/"@ + below),
{
    reveal_strlit("/logmon");
    reveal_strlit("/logmon/");
    let root = reserved_root();
    assert("/logmon"@ =~= root);
    assert("/logmon/"@ =~= root + seq!['/']);
    assert(root.take(root.len() as int) =~= root);
    let below = "/logmon/"@ + rest;
    assert(below.take(root.len() as int) =~= root);
    assert(below[root.len() as int] == '/');
    if reserved(path) {
        if path.len() == root.len() {
            assert(path.take(root.len() as int) =~= path);
        } else {
            let tail = path.skip(root.len() as int + 1);
            assert(path =~= "/logmon/"@ + tail) by {
                assert forall|i: int| 0 <= i < path.len() implies path[i] == ("/logmon/"@ + tail)[i] by {
                    if i < root.len() {
                        assert(path.take(root.len() as int)[i] == path[i]);
                    }
                }
            }
        }
    }
}

/// A key is a path of segments, each behind a slash and made of letters, digits, `_`, `-`
/// and `.`, of at most 256 bytes. An `@` before it puts it into one document.
pub proof fn keys_are_paths(raw: Seq<char>, allow_sigil: bool)
    requires
        key_of(raw, allow_sigil) is Ok,
    ensures
        ({
            let k = key_of(raw, allow_sigil)->Ok_0;
            &&& k.sigil <==> raw.len() > 0 && raw[0] == '@'
            &&& k.sigil ==> allow_sigil && raw == seq!['@'] + k.path
            &&& !k.sigil ==> raw == k.path
            &&& byte_len(k.path) <= 256
            &&& k.path.len() >= 2 && k.path[0] == '/' && k.path.last() != '/'
            &&& forall|i: int|
                0 <= i < k.path.len() ==> {
                    ||| #[trigger] k.path[i] == '/'
                    ||| 'a' <= k.path[i] <= 'z'
                    ||| 'A' <= k.path[i] <= 'Z'
                    ||| '0' <= k.path[i] <= '9'
                    ||| k.path[i] == '_'
                    ||| k.path[i] == '-'
                    ||| k.path[i] == '.'
                }
            &&& forall|i: int|
                0 < i < k.path.len() && #[trigger] k.path[i] == '/' ==> k.path[i - 1] != '/'
        }),
{
    let k = key_of(raw, allow_sigil)->Ok_0;
    if k.sigil {
        assert(raw =~= seq!['@'] + k.path);
    }
    assert forall|i: int| 0 <= i < k.path.len() implies {
        ||| #[trigger] k.path[i] == '/'
        ||| 'a' <= k.path[i] <= 'z'
        ||| 'A' <= k.path[i] <= 'Z'
        ||| '0' <= k.path[i] <= '9'
        ||| k.path[i] == '_'
        ||| k.path[i] == '-'
        ||| k.path[i] == '.'
    } by {
        assert(k.path[i] == '/' || is_segment_char(k.path[i]));
    }
}

/// Why a key is refused: it is too long, it is no path, or it belongs to a document where
/// there is none.
pub proof fn keys_are_refused_for_a_reason(raw: Seq<char>)
    ensures
        key_of(raw, false) == Err::<KeyView, KeyError>(KeyError::SigilNotAllowed) ==> raw[0] == '@'
            && key_of(raw, true) is Ok,
        raw.len() > 0 && raw[0] == '@' ==> key_of(raw, false) is Err,
        raw.len() == 0 || raw[0] != '@' ==> {
            &&& byte_len(raw) > 256 <==> key_of(raw, true) == Err::<KeyView, KeyError>(
                KeyError::TooLong,
            )
            &&& key_of(raw, false) == key_of(raw, true)
            &&& byte_len(raw) <= 256 && !is_path_shape(raw) <==> key_of(raw, true) == Err::<
                KeyView,
                KeyError,
            >(KeyError::Malformed)
        },
{
}

/// Every character that a segment may hold can be added to a key, and so can a segment;
/// nothing else can.
pub proof fn plain_characters_make_keys(path: Seq<char>, c: char)
    ensures
        is_path_shape(seq!['/', c]) <==> {
            ||| 'a' <= c <= 'z'
            ||| 'A' <= c <= 'Z'
            ||| '0' <= c <= '9'
            ||| c == '_'
            ||| c == '-'
            ||| c == '.'
        },
        is_path_shape(path) ==> (is_path_shape(path.push(c)) <==> is_path_shape(seq!['/', c])),
        is_path_shape(path) ==> (is_path_shape(path + seq!['/', c]) <==> is_path_shape(seq!['/', c])),
{
    let one = seq!['/', c];
    assert(one[0] == '/' && one[1] == c && one.last() == c);
    let longer = path.push(c);
    let deeper = path + seq!['/', c];
    if is_path_shape(path) {
        let n = path.len() as int;
        assert(longer[n] == c && deeper[n] == '/' && deeper[n + 1] == c);
        assert(path[n - 1] == path.last());
        if is_segment_char(c) && c != '/' {
            assert forall|i: int| 0 <= i < longer.len() implies #[trigger] longer[i] == '/'
                || is_segment_char(longer[i]) by {
                if i < n {
                    assert(longer[i] == path[i]);
                }
            }
            assert forall|i: int| 0 < i < longer.len() && #[trigger] longer[i] == '/' implies longer[i
                - 1] != '/' by {
                assert(longer[i] == path[i]);
                assert(longer[i - 1] == path[i - 1]);
            }
            assert forall|i: int| 0 <= i < deeper.len() implies #[trigger] deeper[i] == '/'
                || is_segment_char(deeper[i]) by {
                if i < n {
                    assert(deeper[i] == path[i]);
                }
            }
            assert forall|i: int| 0 < i < deeper.len() && #[trigger] deeper[i] == '/' implies deeper[i
                - 1] != '/' by {
                if i < n {
                    assert(deeper[i] == path[i]);
                }
                assert(deeper[i - 1] == path[i - 1]);
            }
            assert(is_path_shape(longer));
            assert(is_path_shape(deeper));
        }
    }
}

} // verus!
