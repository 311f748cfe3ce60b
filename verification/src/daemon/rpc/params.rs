//! Reading parameters: absent, `null`, and present but wrong-typed are three
//! different things, and only two of them mean the same.
//!
//! **Absent, or an explicit `null`, takes the default; a present value of the
//! wrong type is refused, naming the parameter and what was expected.** A client
//! that serialises an omitted field as `null` must not thereby mean something
//! different from a client that omits it.
use crate::json::{item_views, Json, JsonNumber, JsonView};
use crate::text;
use crate::text::{decimal_text, text_views};
use vstd::prelude::*;

verus! {

broadcast use vstd::string::group_string_axioms;

/// How a JSON value reads in an error message: its type, never its value, which
/// may be arbitrarily large.
pub open spec fn kind_word(v: JsonView) -> Seq<char> {
    match v {
        JsonView::Null => "null"@,
        JsonView::Bool(_) => "a boolean"@,
        JsonView::Number(_) => "a number"@,
        JsonView::Text(_) => "a string"@,
        JsonView::Array(_) => "an array"@,
        JsonView::Object(_) => "an object"@,
    }
}

/// How a JSON value reads in an error message.
pub fn json_type(v: &Json) -> (r: &'static str)
    ensures
        r@ == kind_word(v@),
{
    match v {
        Json::Null => "null",
        Json::Bool(_) => "a boolean",
        Json::Number(_) => "a number",
        Json::Text(_) => "a string",
        Json::Array(_) => "an array",
        Json::Object(_) => "an object",
    }
}

/// The value of a parameter that was given: neither absent nor `null`.
pub open spec fn given(params: JsonView, key: Seq<char>) -> Option<JsonView> {
    match params.get(key) {
        None => None,
        Some(JsonView::Null) => None,
        Some(v) => Some(v),
    }
}

pub(crate) fn given_value<'a>(params: &'a Json, key: &str) -> (r: Option<&'a Json>)
    ensures
        match r {
            Some(v) => given(params@, key@) == Some(v@),
            None => given(params@, key@) is None,
        },
{
    match params.get(key) {
        None => None,
        Some(Json::Null) => None,
        Some(v) => Some(v),
    }
}

/// The refusal of a value of the wrong type.
pub open spec fn wrong_type(key: Seq<char>, expected: Seq<char>, got: JsonView) -> Seq<char> {
    "`"@ + key + "` must be "@ + expected + ", not "@ + kind_word(got)
}

fn refuse_type(key: &str, expected: &str, got: &Json) -> (r: String)
    ensures
        r@ == wrong_type(key@, expected@, got@),
{
    let head = text::join3("`", key, "` must be ");
    let mid = text::join3(&head, expected, ", not ");
    text::join2(&mid, json_type(got))
}

/// The refusal of a call without a parameter that it needs.
pub open spec fn missing_text(key: Seq<char>) -> Seq<char> {
    "missing required parameter: "@ + key
}

fn missing(key: &str) -> (r: String)
    ensures
        r@ == missing_text(key@),
{
    text::join2("missing required parameter: ", key)
}

/// A text parameter.
pub open spec fn str_param(params: JsonView, key: Seq<char>) -> Result<Option<Seq<char>>, Seq<char>> {
    match given(params, key) {
        None => Ok(None),
        Some(v) => match v.as_str() {
            Some(s) => Ok(Some(s)),
            None => Err(wrong_type(key, "a string"@, v)),
        },
    }
}

/// A text parameter.
pub fn opt_str<'a>(params: &'a Json, key: &str) -> (r: Result<Option<&'a str>, String>)
    ensures
        match r {
            Ok(s) => str_param(params@, key@) == Ok::<Option<Seq<char>>, Seq<char>>(
                text::optional_str(s),
            ),
            Err(e) => str_param(params@, key@) == Err::<Option<Seq<char>>, Seq<char>>(e@),
        },
{
    match given_value(params, key) {
        None => Ok(None),
        Some(v) => match v.as_str() {
            Some(s) => Ok(Some(s)),
            None => Err(refuse_type(key, "a string", v)),
        },
    }
}

/// A text parameter that must be given.
pub open spec fn required_str(params: JsonView, key: Seq<char>) -> Result<Seq<char>, Seq<char>> {
    match str_param(params, key) {
        Ok(Some(s)) => Ok(s),
        Ok(None) => Err(missing_text(key)),
        Err(e) => Err(e),
    }
}

/// A text parameter that must be given.
pub fn req_str<'a>(params: &'a Json, key: &str) -> (r: Result<&'a str, String>)
    ensures
        match r {
            Ok(s) => required_str(params@, key@) == Ok::<Seq<char>, Seq<char>>(s@),
            Err(e) => required_str(params@, key@) == Err::<Seq<char>, Seq<char>>(e@),
        },
{
    match opt_str(params, key) {
        Ok(Some(s)) => Ok(s),
        Ok(None) => Err(missing(key)),
        Err(e) => Err(e),
    }
}

/// A boolean parameter. A stringified boolean is the common client mistake, and
/// its refusal names the remedy.
pub open spec fn bool_param(params: JsonView, key: Seq<char>) -> Result<Option<bool>, Seq<char>> {
    match given(params, key) {
        None => Ok(None),
        Some(JsonView::Bool(b)) => Ok(Some(b)),
        Some(v) => if v == JsonView::Text("true"@) || v == JsonView::Text("false"@) {
            Err(
                "`"@ + key + "` must be a boolean, not the string \""@ + v->Text_0 + "\" — send "@
                    + v->Text_0 + " unquoted"@,
            )
        } else {
            Err(wrong_type(key, "a boolean"@, v))
        },
    }
}

/// A boolean parameter.
pub fn opt_bool(params: &Json, key: &str) -> (r: Result<Option<bool>, String>)
    ensures
        match r {
            Ok(b) => bool_param(params@, key@) == Ok::<Option<bool>, Seq<char>>(b),
            Err(e) => bool_param(params@, key@) == Err::<Option<bool>, Seq<char>>(e@),
        },
{
    match given_value(params, key) {
        None => Ok(None),
        Some(Json::Bool(b)) => Ok(Some(*b)),
        Some(Json::Text(s)) => if text::same(s, "true") || text::same(s, "false") {
            let head = text::join3("`", key, "` must be a boolean, not the string \"");
            let mid = text::join3(&head, s, "\" — send ");
            Err(text::join3(&mid, s, " unquoted"))
        } else {
            let v = Json::Text(s.clone());
            Err(refuse_type(key, "a boolean", &v))
        },
        Some(v) => Err(refuse_type(key, "a boolean", v)),
    }
}

/// An unsigned integer parameter.
pub open spec fn u64_param(params: JsonView, key: Seq<char>) -> Result<Option<u64>, Seq<char>> {
    match given(params, key) {
        None => Ok(None),
        Some(v) => match v.as_u64() {
            Some(n) => Ok(Some(n)),
            None => Err(wrong_type(key, "a non-negative integer"@, v)),
        },
    }
}

/// An unsigned integer parameter.
pub fn opt_u64(params: &Json, key: &str) -> (r: Result<Option<u64>, String>)
    ensures
        match r {
            Ok(n) => u64_param(params@, key@) == Ok::<Option<u64>, Seq<char>>(n),
            Err(e) => u64_param(params@, key@) == Err::<Option<u64>, Seq<char>>(e@),
        },
{
    match given_value(params, key) {
        None => Ok(None),
        Some(v) => match v.as_u64() {
            Some(n) => Ok(Some(n)),
            None => Err(refuse_type(key, "a non-negative integer", v)),
        },
    }
}

/// An unsigned integer parameter that must be given.
pub open spec fn required_u64(params: JsonView, key: Seq<char>) -> Result<u64, Seq<char>> {
    match u64_param(params, key) {
        Ok(Some(n)) => Ok(n),
        Ok(None) => Err(missing_text(key)),
        Err(e) => Err(e),
    }
}

/// An unsigned integer parameter that must be given.
pub fn req_u64(params: &Json, key: &str) -> (r: Result<u64, String>)
    ensures
        match r {
            Ok(n) => required_u64(params@, key@) == Ok::<u64, Seq<char>>(n),
            Err(e) => required_u64(params@, key@) == Err::<u64, Seq<char>>(e@),
        },
{
    match opt_u64(params, key) {
        Ok(Some(n)) => Ok(n),
        Ok(None) => Err(missing(key)),
        Err(e) => Err(e),
    }
}

/// The refusal of a number that is too large.
pub open spec fn too_large(key: Seq<char>, n: u64, limit: Seq<char>, max: nat) -> Seq<char> {
    "`"@ + key + "` is "@ + decimal_text(n as nat) + ", which exceeds the maximum "@ + limit
        + decimal_text(max)
}

fn refuse_size(key: &str, n: u64, limit: &str, max: u64) -> (r: String)
    ensures
        r@ == too_large(key@, n, limit@, max as nat),
{
    let head = text::join3("`", key, "` is ");
    let mid = text::join3(&head, &text::decimal(n), ", which exceeds the maximum ");
    text::join3(&mid, limit, &text::decimal(max))
}

/// An unsigned integer parameter that may not exceed `max`.
pub open spec fn bounded_param(
    params: JsonView,
    key: Seq<char>,
    limit: Seq<char>,
    max: u64,
) -> Result<Option<u64>, Seq<char>> {
    match u64_param(params, key) {
        Ok(Some(n)) => if n > max {
            Err(too_large(key, n, limit, max as nat))
        } else {
            Ok(Some(n))
        },
        Ok(None) => Ok(None),
        Err(e) => Err(e),
    }
}

fn opt_bounded(params: &Json, key: &str, limit: &str, max: u64) -> (r: Result<Option<u64>, String>)
    ensures
        match r {
            Ok(n) => bounded_param(params@, key@, limit@, max) == Ok::<Option<u64>, Seq<char>>(n)
                && (n matches Some(k) ==> k <= max),
            Err(e) => bounded_param(params@, key@, limit@, max) == Err::<Option<u64>, Seq<char>>(e@),
        },
{
    match opt_u64(params, key) {
        Ok(Some(n)) => if n > max {
            Err(refuse_size(key, n, limit, max))
        } else {
            Ok(Some(n))
        },
        Ok(None) => Ok(None),
        Err(e) => Err(e),
    }
}

/// A 32-bit parameter, refused rather than cut where it does not fit: a cast
/// would make the largest window that a caller can ask for none at all.
pub fn opt_u32(params: &Json, key: &str) -> (r: Result<Option<u32>, String>)
    ensures
        match r {
            Ok(n) => bounded_param(params@, key@, ""@, u32::MAX as u64) == Ok::<
                Option<u64>,
                Seq<char>,
            >(
                match n {
                    Some(k) => Some(k as u64),
                    None => None,
                },
            ),
            Err(e) => bounded_param(params@, key@, ""@, u32::MAX as u64) == Err::<
                Option<u64>,
                Seq<char>,
            >(e@),
        },
{
    match opt_bounded(params, key, "", u32::MAX as u64) {
        Ok(Some(n)) => Ok(Some(n as u32)),
        Ok(None) => Ok(None),
        Err(e) => Err(e),
    }
}

/// A 32-bit parameter that must be given.
pub fn req_u32(params: &Json, key: &str) -> (r: Result<u32, String>)
    ensures
        match r {
            Ok(n) => bounded_param(params@, key@, ""@, u32::MAX as u64) == Ok::<
                Option<u64>,
                Seq<char>,
            >(Some(n as u64)),
            Err(e) => match bounded_param(params@, key@, ""@, u32::MAX as u64) {
                Ok(Some(_)) => false,
                Ok(None) => e@ == missing_text(key@),
                Err(s) => e@ == s,
            },
        },
{
    match opt_u32(params, key) {
        Ok(Some(n)) => Ok(n),
        Ok(None) => Err(missing(key)),
        Err(e) => Err(e),
    }
}

/// A size parameter, refused where this machine has no such size.
pub fn opt_usize(params: &Json, key: &str) -> (r: Result<Option<usize>, String>)
    ensures
        match r {
            Ok(n) => bounded_param(params@, key@, ""@, usize::MAX as u64) == Ok::<
                Option<u64>,
                Seq<char>,
            >(
                match n {
                    Some(k) => Some(k as u64),
                    None => None,
                },
            ),
            Err(e) => bounded_param(params@, key@, ""@, usize::MAX as u64) == Err::<
                Option<u64>,
                Seq<char>,
            >(e@),
        },
{
    match opt_bounded(params, key, "", usize::MAX as u64) {
        Ok(Some(n)) => Ok(Some(n as usize)),
        Ok(None) => Ok(None),
        Err(e) => Err(e),
    }
}

/// Upper bound on the size of a domain's buffer. The size flows into an
/// allocation that aborts the whole process where it fails.
pub const MAX_DOMAIN_BUFFER_SIZE: u64 = 10_000_000;

/// Upper bound on a context window: one wider than any possible buffer asks for
/// records that cannot exist.
pub const MAX_CONTEXT_WINDOW: u64 = MAX_DOMAIN_BUFFER_SIZE;

/// A context window.
pub fn opt_context_window(params: &Json, key: &str) -> (r: Result<Option<usize>, String>)
    ensures
        match r {
            Ok(n) => bounded_param(params@, key@, "context window "@, MAX_CONTEXT_WINDOW) == Ok::<
                Option<u64>,
                Seq<char>,
            >(
                match n {
                    Some(k) => Some(k as u64),
                    None => None,
                },
            ) && (n matches Some(k) ==> k <= MAX_CONTEXT_WINDOW),
            Err(e) => bounded_param(params@, key@, "context window "@, MAX_CONTEXT_WINDOW) == Err::<
                Option<u64>,
                Seq<char>,
            >(e@),
        },
{
    match opt_bounded(params, key, "context window ", MAX_CONTEXT_WINDOW) {
        Ok(Some(n)) => Ok(Some(n as usize)),
        Ok(None) => Ok(None),
        Err(e) => Err(e),
    }
}

/// The texts of a list, or the refusal of its first item that is none. Items are
/// checked, not left out: `["service", 7]` must not group by one key where two
/// were asked for.
pub open spec fn texts_of(key: Seq<char>, items: Seq<JsonView>) -> Result<
    Seq<Seq<char>>,
    Seq<char>,
>
    decreases items.len(),
{
    if items.len() == 0 {
        Ok(seq![])
    } else {
        match texts_of(key, items.drop_last()) {
            Err(e) => Err(e),
            Ok(front) => match items.last().as_str() {
                Some(s) => Ok(front.push(s)),
                None => Err(
                    "`"@ + key + "["@ + decimal_text((items.len() - 1) as nat)
                        + "]` must be a string, not "@ + kind_word(items.last()),
                ),
            },
        }
    }
}

proof fn lemma_texts_stop(key: Seq<char>, items: Seq<JsonView>, n: int)
    requires
        0 <= n <= items.len(),
        texts_of(key, items.take(n)) is Err,
    ensures
        texts_of(key, items) == texts_of(key, items.take(n)),
    decreases items.len() - n,
{
    if n < items.len() {
        assert(items.take(n + 1).drop_last() =~= items.take(n));
        lemma_texts_stop(key, items, n + 1);
    } else {
        assert(items.take(n) =~= items);
    }
}

/// A parameter that is a list of texts. An empty list and no list are not the
/// same: an empty list of group keys is a change that discards a measurement.
pub open spec fn str_array_param(params: JsonView, key: Seq<char>) -> Result<
    Option<Seq<Seq<char>>>,
    Seq<char>,
> {
    match given(params, key) {
        None => Ok(None),
        Some(JsonView::Array(items)) => match texts_of(key, items) {
            Ok(texts) => Ok(Some(texts)),
            Err(e) => Err(e),
        },
        Some(v) => Err(wrong_type(key, "an array of strings"@, v)),
    }
}

/// A list of texts that was given, as the contract speaks of it.
pub open spec fn optional_texts(texts: Option<Vec<String>>) -> Option<Seq<Seq<char>>> {
    match texts {
        Some(t) => Some(text_views(t@)),
        None => None,
    }
}

/// A parameter that is a list of texts.
pub fn opt_str_array(params: &Json, key: &str) -> (r: Result<Option<Vec<String>>, String>)
    ensures
        match r {
            Ok(t) => str_array_param(params@, key@) == Ok::<Option<Seq<Seq<char>>>, Seq<char>>(
                optional_texts(t),
            ),
            Err(e) => str_array_param(params@, key@) == Err::<Option<Seq<Seq<char>>>, Seq<char>>(
                e@,
            ),
        },
{
    let value = match given_value(params, key) {
        None => return Ok(None),
        Some(v) => v,
    };
    let items = match value.as_array() {
        None => return Err(refuse_type(key, "an array of strings", value)),
        Some(items) => items,
    };
    let ghost all = item_views(items@);
    let mut out: Vec<String> = Vec::new();
    let mut i: usize = 0;
    proof {
        assert(all.take(0) =~= seq![]);
        assert(text_views(out@) =~= seq![]);
    }
    while i < items.len()
        invariant
            value@ == JsonView::Array(all),
            given(params@, key@) == Some(value@),
            all == item_views(items@),
            i <= items@.len(),
            texts_of(key@, all.take(i as int)) == Ok::<Seq<Seq<char>>, Seq<char>>(text_views(out@)),
        decreases items@.len() - i,
    {
        let item = &items[i];
        let ghost before = out@;
        proof {
            assert(all.take(i + 1).drop_last() =~= all.take(i as int));
            assert(all.take(i + 1).last() == item@);
        }
        match item.as_str() {
            Some(s) => {
                let s = text::owned(s);
                let ghost sv = s@;
                out.push(s);
                proof {
                    assert(text_views(out@) =~= text_views(before).push(sv));
                }
            },
            None => {
                let head = text::join3("`", key, "[");
                let mid = text::join3(&head, &text::decimal(i as u64), "]` must be a string, not ");
                let e = text::join2(&mid, json_type(item));
                proof {
                    lemma_texts_stop(key@, all, i + 1);
                }
                return Err(e);
            },
        }
        i += 1;
    }
    proof {
        assert(all.take(all.len() as int) =~= all);
    }
    Ok(Some(out))
}

/// The most group keys that a collector keeps.
pub const MAX_GROUP_KEYS: usize = 8;

/// The `group_keys` parameter, refused where there are more than the sample tier
/// will allocate for.
pub open spec fn group_keys_param(params: JsonView) -> Result<Option<Seq<Seq<char>>>, Seq<char>> {
    match str_array_param(params, "group_keys"@) {
        Ok(Some(keys)) => if keys.len() > MAX_GROUP_KEYS {
            Err(
                "too many group_keys ("@ + decimal_text(keys.len()) + " > "@ + decimal_text(
                    MAX_GROUP_KEYS as nat,
                )
                    + "): each one costs a column in every retained sample, and the width is not covered by max_sample_bytes. Group by one attribute — that is the case this is built for"@,
            )
        } else {
            Ok(Some(keys))
        },
        other => other,
    }
}

/// The `group_keys` parameter. Refused with the number rather than cut: a caller
/// who asked to group by fifty things wants to know that they did not get it.
pub fn group_keys_of(params: &Json) -> (r: Result<Option<Vec<String>>, String>)
    ensures
        match r {
            Ok(t) => group_keys_param(params@) == Ok::<Option<Seq<Seq<char>>>, Seq<char>>(
                optional_texts(t),
            ),
            Err(e) => group_keys_param(params@) == Err::<Option<Seq<Seq<char>>>, Seq<char>>(e@),
        },
{
    match opt_str_array(params, "group_keys") {
        Ok(Some(keys)) => if keys.len() > MAX_GROUP_KEYS {
            let head = text::join3(
                "too many group_keys (",
                &text::decimal(keys.len() as u64),
                " > ",
            );
            Err(
                text::join3(
                    &head,
                    &text::decimal(MAX_GROUP_KEYS as u64),
                    "): each one costs a column in every retained sample, and the width is not covered by max_sample_bytes. Group by one attribute — that is the case this is built for",
                ),
            )
        } else {
            Ok(Some(keys))
        },
        Ok(None) => Ok(None),
        Err(e) => Err(e),
    }
}

/// A text member that a threshold must have.
pub open spec fn threshold_word(t: JsonView, key: Seq<char>) -> Result<Seq<char>, Seq<char>> {
    match t.get(key) {
        None => Err("threshold is missing `"@ + key + "`"@),
        Some(v) => match v.as_str() {
            Some(s) => Ok(s),
            None => Err("threshold."@ + key + " must be a string"@),
        },
    }
}

/// A text member that a threshold must have: its `metric` or its `op`.
pub fn threshold_text<'a>(t: &'a Json, key: &str) -> (r: Result<&'a str, String>)
    ensures
        match r {
            Ok(s) => threshold_word(t@, key@) == Ok::<Seq<char>, Seq<char>>(s@),
            Err(e) => threshold_word(t@, key@) == Err::<Seq<char>, Seq<char>>(e@),
        },
{
    match t.get(key) {
        None => Err(text::join3("threshold is missing `", key, "`")),
        Some(v) => match v.as_str() {
            Some(s) => Ok(s),
            None => Err(text::join3("threshold.", key, " must be a string")),
        },
    }
}

/// What a threshold holds beside its metric and its operator.
#[derive(Debug, PartialEq, Eq)]
pub struct ThresholdBounds {
    pub value: JsonNumber,
    pub window_ms: u64,
    pub group: Option<String>,
}

/// What a [`ThresholdBounds`] says.
#[verifier::ext_equal]
pub struct ThresholdBoundsView {
    pub value: crate::json::JsonNumberView,
    pub window_ms: u64,
    pub group: Option<Seq<char>>,
}

impl View for ThresholdBounds {
    type V = ThresholdBoundsView;

    open spec fn view(&self) -> ThresholdBoundsView {
        ThresholdBoundsView {
            value: self.value@,
            window_ms: self.window_ms,
            group: text::optional_text(self.group),
        }
    }
}

/// What a threshold holds beside its metric and its operator. A wrong-typed
/// group is refused: read as absent it would move the guard from the named group
/// onto the total.
pub open spec fn threshold_limits(t: JsonView) -> Result<ThresholdBoundsView, Seq<char>> {
    match (t.get("value"@), t.get("window_ms"@)) {
        (None, _) => Err("threshold is missing `value`"@),
        (Some(value), window) => match (value.as_number(), window) {
            (None, _) => Err("threshold.value must be a number"@),
            (Some(_), None) => Err("threshold is missing `window_ms`"@),
            (Some(n), Some(window)) => match (window.as_u64(), given(t, "group"@)) {
                (None, _) => Err("threshold.window_ms must be a positive integer"@),
                (Some(ms), None) => Ok(
                    ThresholdBoundsView { value: n, window_ms: ms, group: None },
                ),
                (Some(ms), Some(JsonView::Text(g))) => Ok(
                    ThresholdBoundsView { value: n, window_ms: ms, group: Some(g) },
                ),
                (Some(_), Some(g)) => Err("threshold.group must be a string, not "@ + kind_word(g)),
            },
        },
    }
}

/// What a threshold holds beside its metric and its operator.
pub fn threshold_bounds(t: &Json) -> (r: Result<ThresholdBounds, String>)
    ensures
        match r {
            Ok(b) => threshold_limits(t@) == Ok::<ThresholdBoundsView, Seq<char>>(b@),
            Err(e) => threshold_limits(t@) == Err::<ThresholdBoundsView, Seq<char>>(e@),
        },
{
    let value = match t.get("value") {
        None => return Err(text::owned("threshold is missing `value`")),
        Some(v) => match v.as_number() {
            None => return Err(text::owned("threshold.value must be a number")),
            Some(n) => n,
        },
    };
    let window_ms: u64 = match t.get("window_ms") {
        None => return Err(text::owned("threshold is missing `window_ms`")),
        Some(v) => match v.as_u64() {
            None => return Err(text::owned("threshold.window_ms must be a positive integer")),
            Some(n) => n,
        },
    };
    let group = match given_value(t, "group") {
        None => None,
        Some(Json::Text(g)) => Some(g.clone()),
        Some(g) => {
            return Err(text::join2("threshold.group must be a string, not ", json_type(g)));
        },
    };
    Ok(ThresholdBounds { value: value.clone(), window_ms, group })
}

/// A threshold that is asked for.
#[derive(Debug, PartialEq, Eq)]
pub struct ThresholdRequest {
    pub metric: String,
    pub op: String,
    pub bounds: ThresholdBounds,
}

/// What a [`ThresholdRequest`] says.
#[verifier::ext_equal]
pub struct ThresholdRequestView {
    pub metric: Seq<char>,
    pub op: Seq<char>,
    pub bounds: ThresholdBoundsView,
}

impl View for ThresholdRequest {
    type V = ThresholdRequestView;

    open spec fn view(&self) -> ThresholdRequestView {
        ThresholdRequestView { metric: self.metric@, op: self.op@, bounds: self.bounds@ }
    }
}

/// What is to become of a collector's threshold. Absent leaves it alone, and an
/// explicit `null` takes it away: conflating the two would make it impossible to
/// clear a guard once set.
#[derive(Debug, PartialEq, Eq)]
pub enum ThresholdChange {
    Keep,
    Clear,
    Replace(ThresholdRequest),
}

/// What a [`ThresholdChange`] says.
#[verifier::ext_equal]
pub enum ThresholdChangeView {
    Keep,
    Clear,
    Replace(ThresholdRequestView),
}

impl View for ThresholdChange {
    type V = ThresholdChangeView;

    open spec fn view(&self) -> ThresholdChangeView {
        match self {
            ThresholdChange::Keep => ThresholdChangeView::Keep,
            ThresholdChange::Clear => ThresholdChangeView::Clear,
            ThresholdChange::Replace(t) => ThresholdChangeView::Replace(t@),
        }
    }
}

/// The threshold that an object asks for: it must have a metric, an operator, a
/// value and a window.
pub open spec fn threshold_request(t: JsonView) -> Result<ThresholdRequestView, Seq<char>> {
    match threshold_word(t, "metric"@) {
        Err(e) => Err(e),
        Ok(metric) => match threshold_word(t, "op"@) {
            Err(e) => Err(e),
            Ok(op) => match threshold_limits(t) {
                Err(e) => Err(e),
                Ok(bounds) => Ok(ThresholdRequestView { metric, op, bounds }),
            },
        },
    }
}

fn threshold_in(t: &Json) -> (r: Result<ThresholdRequest, String>)
    ensures
        match r {
            Ok(q) => threshold_request(t@) == Ok::<ThresholdRequestView, Seq<char>>(q@),
            Err(e) => threshold_request(t@) == Err::<ThresholdRequestView, Seq<char>>(e@),
        },
{
    let metric = match threshold_text(t, "metric") {
        Ok(s) => s,
        Err(e) => return Err(e),
    };
    let op = match threshold_text(t, "op") {
        Ok(s) => s,
        Err(e) => return Err(e),
    };
    match threshold_bounds(t) {
        Ok(bounds) => Ok(
            ThresholdRequest { metric: text::owned(metric), op: text::owned(op), bounds },
        ),
        Err(e) => Err(e),
    }
}

/// What a `threshold` parameter asks for.
pub open spec fn threshold_param(params: JsonView) -> Result<ThresholdChangeView, Seq<char>> {
    match params.get("threshold"@) {
        None => Ok(ThresholdChangeView::Keep),
        Some(t) => match t {
            JsonView::Null => Ok(ThresholdChangeView::Clear),
            JsonView::Object(_) => match threshold_request(t) {
                Ok(q) => Ok(ThresholdChangeView::Replace(q)),
                Err(e) => Err(e),
            },
            _ => Err("threshold must be an object: { metric, op, value, window_ms, group? }"@),
        },
    }
}

/// Read what a `threshold` parameter asks for.
pub fn threshold_of(params: &Json) -> (r: Result<ThresholdChange, String>)
    ensures
        match r {
            Ok(c) => threshold_param(params@) == Ok::<ThresholdChangeView, Seq<char>>(c@),
            Err(e) => threshold_param(params@) == Err::<ThresholdChangeView, Seq<char>>(e@),
        },
{
    match params.get("threshold") {
        None => Ok(ThresholdChange::Keep),
        Some(t) => match t {
            Json::Null => Ok(ThresholdChange::Clear),
            Json::Object(_) => match threshold_in(t) {
                Ok(q) => Ok(ThresholdChange::Replace(q)),
                Err(e) => Err(e),
            },
            _ => Err(
                text::owned(
                    "threshold must be an object: { metric, op, value, window_ms, group? }",
                ),
            ),
        },
    }
}

/// A parameter that is `null` means what an absent one does, for every reader of
/// optional parameters.
pub proof fn null_means_absent(params: JsonView, key: Seq<char>)
    requires
        params.get(key) == Some(JsonView::Null),
    ensures
        str_param(params, key) == Ok::<Option<Seq<char>>, Seq<char>>(None),
        bool_param(params, key) == Ok::<Option<bool>, Seq<char>>(None),
        u64_param(params, key) == Ok::<Option<u64>, Seq<char>>(None),
        str_array_param(params, key) == Ok::<Option<Seq<Seq<char>>>, Seq<char>>(None),
{
}

/// A value that is given is read or refused, and never read as absent.
pub proof fn wrong_types_are_refused(params: JsonView, key: Seq<char>)
    requires
        given(params, key) is Some,
    ensures
        str_param(params, key) != Ok::<Option<Seq<char>>, Seq<char>>(None),
        bool_param(params, key) != Ok::<Option<bool>, Seq<char>>(None),
        u64_param(params, key) != Ok::<Option<u64>, Seq<char>>(None),
        str_array_param(params, key) != Ok::<Option<Seq<Seq<char>>>, Seq<char>>(None),
{
}

/// A parameter is read from the member of its own name and as what it is: a text, a truth
/// value, a number. What is of another type is refused.
pub proof fn parameters_are_read_as_given(params: JsonView, key: Seq<char>)
    ensures
        params.get(key) is None ==> given(params, key) is None,
        params.get(key) == Some(JsonView::Null) ==> given(params, key) is None,
        params.get(key) matches Some(JsonView::Text(t)) ==> {
            &&& str_param(params, key) == Ok::<Option<Seq<char>>, Seq<char>>(Some(t))
            &&& required_str(params, key) == Ok::<Seq<char>, Seq<char>>(t)
            &&& u64_param(params, key) is Err
            &&& bool_param(params, key) is Err
        },
        params.get(key) matches Some(JsonView::Bool(b)) ==> {
            &&& bool_param(params, key) == Ok::<Option<bool>, Seq<char>>(Some(b))
            &&& str_param(params, key) is Err
            &&& u64_param(params, key) is Err
        },
        params.get(key) matches Some(JsonView::Number(n)) ==> {
            &&& n.unsigned matches Some(v) ==> u64_param(params, key) == Ok::<Option<u64>, Seq<char>>(
                Some(v),
            )
            &&& n.unsigned is None ==> u64_param(params, key) is Err
            &&& str_param(params, key) is Err
            &&& bool_param(params, key) is Err
        },
        given(params, key) is None ==> {
            &&& required_str(params, key) is Err
            &&& required_u64(params, key) is Err
        },
{
}

/// A number is taken up to its bound, and refused above it.
pub proof fn bounds_are_kept(params: JsonView, key: Seq<char>, limit: Seq<char>, max: u64, n: u64)
    requires
        params.u64_at(key) == Some(n),
    ensures
        n <= max ==> bounded_param(params, key, limit, max) == Ok::<Option<u64>, Seq<char>>(Some(n)),
        n > max ==> bounded_param(params, key, limit, max) is Err,
{
}

/// A list of texts is taken whole and in its order, and refused where one item is none.
pub proof fn lists_of_texts_are_taken_whole(key: Seq<char>, items: Seq<JsonView>, i: int)
    requires
        0 <= i < items.len(),
    ensures
        texts_of(key, items) matches Ok(texts) ==> {
            &&& texts.len() == items.len()
            &&& items[i] == JsonView::Text(texts[i])
        },
        !(items[i] is Text) ==> texts_of(key, items) is Err,
    decreases items.len(),
{
    let front = items.drop_last();
    if i < front.len() {
        lists_of_texts_are_taken_whole(key, front, i);
        assert(front[i] == items[i]);
        if let Ok(texts) = texts_of(key, front) {
            lemma_texts_len(key, front);
        }
    } else {
        lemma_texts_len(key, front);
    }
}

proof fn lemma_texts_len(key: Seq<char>, items: Seq<JsonView>)
    ensures
        texts_of(key, items) matches Ok(texts) ==> texts.len() == items.len(),
    decreases items.len(),
{
    if items.len() > 0 {
        lemma_texts_len(key, items.drop_last());
    }
}

/// No more than eight group keys are taken.
pub proof fn group_keys_are_few(params: JsonView)
    ensures
        group_keys_param(params) matches Ok(Some(keys)) ==> keys.len() <= 8,
        str_array_param(params, "group_keys"@) matches Ok(Some(keys)) ==> (keys.len() <= 8
            ==> group_keys_param(params) == Ok::<Option<Seq<Seq<char>>>, Seq<char>>(Some(keys))),
        str_array_param(params, "group_keys"@) matches Ok(Some(keys)) ==> (keys.len() > 8
            ==> group_keys_param(params) is Err),
        given(params, "group_keys"@) is None ==> group_keys_param(params) == Ok::<
            Option<Seq<Seq<char>>>,
            Seq<char>,
        >(None),
{
}

/// A threshold holds the members of its object under their own names, all of which but
/// the group it must have.
pub proof fn thresholds_are_read_as_given(t: JsonView)
    requires
        threshold_request(t) is Ok,
    ensures
        ({
            let q = threshold_request(t)->Ok_0;
            &&& t.get("metric"@) == Some(JsonView::Text(q.metric))
            &&& t.get("op"@) == Some(JsonView::Text(q.op))
            &&& t.get("value"@) == Some(JsonView::Number(q.bounds.value))
            &&& t.u64_at("window_ms"@) == Some(q.bounds.window_ms)
            &&& q.bounds.group is None <==> given(t, "group"@) is None
            &&& q.bounds.group matches Some(g) ==> t.get("group"@) == Some(JsonView::Text(g))
        }),
{
}

/// A threshold that is not spoken of stays, one that is null goes, and an object takes its
/// place.
pub proof fn absent_and_null_thresholds_differ(params: JsonView)
    ensures
        params.get("threshold"@) is None ==> threshold_param(params) == Ok::<
            ThresholdChangeView,
            Seq<char>,
        >(ThresholdChangeView::Keep),
        params.get("threshold"@) == Some(JsonView::Null) ==> threshold_param(params) == Ok::<
            ThresholdChangeView,
            Seq<char>,
        >(ThresholdChangeView::Clear),
        threshold_param(params) matches Ok(ThresholdChangeView::Replace(q)) ==> (params.get(
            "threshold"@,
        ) matches Some(t) && t is Object && threshold_request(t) == Ok::<
            ThresholdRequestView,
            Seq<char>,
        >(q)),
        params.get("threshold"@) matches Some(t) ==> (!(t is Null) && !(t is Object)
            ==> threshold_param(params) is Err),
{
}

} // verus!
