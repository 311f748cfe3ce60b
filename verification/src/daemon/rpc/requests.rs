//! What the `filters.*`, `triggers.*`, `bookmarks.*` and `sessions.*` methods
//! ask for.
use crate::daemon::rpc::params::{
    bool_param, bounded_param, given, missing_text, opt_bool, opt_str, opt_u32, opt_u64, req_str, req_u32,
    required_str, str_param, u64_param,
};
use crate::filter::parser::{
    contains_bookmark_qualifier, filter_of, has_reference, is_reference, parse_filter,
    qualifiers_in,
    reading_views, DurationReading, DurationReadingView,
};
use crate::json::{Json, JsonView};
use crate::store::bookmarks::{qualified, qualify};
use crate::text;
use crate::text::{optional_str, optional_text};
use vstd::prelude::*;

verus! {

broadcast use vstd::string::group_string_axioms;

/// Windows of a trigger that names none: an ad-hoc trigger captures context.
pub const DEFAULT_TRIGGER_PRE_WINDOW: u32 = 500;

pub const DEFAULT_TRIGGER_POST_WINDOW: u32 = 200;

pub const DEFAULT_TRIGGER_NOTIFY_CONTEXT: u32 = 5;

/// Why a filter cannot be registered. What a bookmark or a cursor stands for
/// changes, so a filter that is kept cannot hold one.
pub open spec fn registration_error(filter: Seq<char>, readings: Seq<DurationReadingView>) -> Option<
    Seq<char>,
> {
    match filter_of(filter, readings) {
        Err(e) => Some(e.message()),
        Ok(f) => if has_reference(qualifiers_in(f)) {
            Some(
                "bookmarks and cursors (b>=, b<=, c>=) are not allowed in registered filters/triggers — use them only in query tools"@,
            )
        } else {
            None
        },
    }
}

fn check_registration(filter: &str, readings: &Vec<DurationReading>) -> (r: Option<String>)
    ensures
        optional_text(r) == registration_error(filter@, reading_views(readings@)),
{
    match parse_filter(filter, readings) {
        Err(e) => Some(e.to_text()),
        Ok(f) => if contains_bookmark_qualifier(&f) {
            Some(
                text::owned(
                    "bookmarks and cursors (b>=, b<=, c>=) are not allowed in registered filters/triggers — use them only in query tools",
                ),
            )
        } else {
            None
        },
    }
}

/// The filter of a registration, or why it cannot be registered.
pub open spec fn registered_filter(params: JsonView, readings: Seq<DurationReadingView>) -> Result<
    Seq<char>,
    Seq<char>,
> {
    match required_str(params, "filter"@) {
        Err(e) => Err(e),
        Ok(filter) => match registration_error(filter, readings) {
            Some(e) => Err(e),
            None => Ok(filter),
        },
    }
}

fn filter_to_register<'a>(params: &'a Json, readings: &Vec<DurationReading>) -> (r: Result<
    &'a str,
    String,
>)
    ensures
        match r {
            Ok(f) => registered_filter(params@, reading_views(readings@)) == Ok::<
                Seq<char>,
                Seq<char>,
            >(f@),
            Err(e) => registered_filter(params@, reading_views(readings@)) == Err::<
                Seq<char>,
                Seq<char>,
            >(e@),
        },
{
    let filter = match req_str(params, "filter") {
        Ok(f) => f,
        Err(e) => return Err(e),
    };
    match check_registration(filter, readings) {
        Some(e) => Err(e),
        None => Ok(filter),
    }
}

fn owned_optional(s: Option<&str>) -> (r: Option<String>)
    ensures
        optional_text(r) == optional_str(s),
{
    match s {
        Some(s) => Some(text::owned(s)),
        None => None,
    }
}

/// A filter to be registered.
#[derive(Debug, PartialEq, Eq)]
pub struct FilterRequest {
    pub filter: String,
    pub description: Option<String>,
}

/// What a [`FilterRequest`] asks for.
#[verifier::ext_equal]
pub struct FilterRequestView {
    pub filter: Seq<char>,
    pub description: Option<Seq<char>>,
}

impl View for FilterRequest {
    type V = FilterRequestView;

    open spec fn view(&self) -> FilterRequestView {
        FilterRequestView { filter: self.filter@, description: optional_text(self.description) }
    }
}

/// What a call of `filters.add` asks for.
pub open spec fn filter_request(params: JsonView, readings: Seq<DurationReadingView>) -> Result<
    FilterRequestView,
    Seq<char>,
> {
    match registered_filter(params, readings) {
        Err(e) => Err(e),
        Ok(filter) => match str_param(params, "description"@) {
            Err(e) => Err(e),
            Ok(description) => Ok(FilterRequestView { filter, description }),
        },
    }
}

/// Read a call of `filters.add`.
pub fn filters_add(params: &Json, readings: &Vec<DurationReading>) -> (r: Result<
    FilterRequest,
    String,
>)
    ensures
        match r {
            Ok(q) => filter_request(params@, reading_views(readings@)) == Ok::<
                FilterRequestView,
                Seq<char>,
            >(q@),
            Err(e) => filter_request(params@, reading_views(readings@)) == Err::<
                FilterRequestView,
                Seq<char>,
            >(e@),
        },
{
    let filter = match filter_to_register(params, readings) {
        Ok(f) => f,
        Err(e) => return Err(e),
    };
    match opt_str(params, "description") {
        Ok(d) => Ok(FilterRequest { filter: text::owned(filter), description: owned_optional(d) }),
        Err(e) => Err(e),
    }
}

/// A trigger to be registered.
#[derive(Debug, PartialEq, Eq)]
pub struct TriggerRequest {
    pub filter: String,
    pub pre_window: u32,
    pub post_window: u32,
    pub notify_context: u32,
    pub description: Option<String>,
    pub oneshot: bool,
}

/// What a [`TriggerRequest`] asks for.
#[verifier::ext_equal]
pub struct TriggerRequestView {
    pub filter: Seq<char>,
    pub pre_window: u32,
    pub post_window: u32,
    pub notify_context: u32,
    pub description: Option<Seq<char>>,
    pub oneshot: bool,
}

impl View for TriggerRequest {
    type V = TriggerRequestView;

    open spec fn view(&self) -> TriggerRequestView {
        TriggerRequestView {
            filter: self.filter@,
            pre_window: self.pre_window,
            post_window: self.post_window,
            notify_context: self.notify_context,
            description: optional_text(self.description),
            oneshot: self.oneshot,
        }
    }
}

/// A 32-bit parameter.
pub open spec fn u32_param(params: JsonView, key: Seq<char>) -> Result<Option<u32>, Seq<char>> {
    match bounded_param(params, key, ""@, u32::MAX as u64) {
        Ok(Some(n)) => Ok(Some(n as u32)),
        Ok(None) => Ok(None),
        Err(e) => Err(e),
    }
}

/// A window of a trigger. One that is given holds, 0 among them; one that is not
/// is the default.
pub open spec fn trigger_window(params: JsonView, key: Seq<char>, default: u32) -> Result<
    u32,
    Seq<char>,
> {
    match u32_param(params, key) {
        Ok(Some(n)) => Ok(n),
        Ok(None) => Ok(default),
        Err(e) => Err(e),
    }
}

fn window_or(params: &Json, key: &str, default: u32) -> (r: Result<u32, String>)
    ensures
        match r {
            Ok(n) => trigger_window(params@, key@, default) == Ok::<u32, Seq<char>>(n),
            Err(e) => trigger_window(params@, key@, default) == Err::<u32, Seq<char>>(e@),
        },
{
    match opt_u32(params, key) {
        Ok(Some(n)) => Ok(n),
        Ok(None) => Ok(default),
        Err(e) => Err(e),
    }
}

/// What a call of `triggers.add` asks for.
pub open spec fn trigger_request(params: JsonView, readings: Seq<DurationReadingView>) -> Result<
    TriggerRequestView,
    Seq<char>,
> {
    match registered_filter(params, readings) {
        Err(e) => Err(e),
        Ok(filter) => match trigger_window(params, "pre_window"@, DEFAULT_TRIGGER_PRE_WINDOW) {
            Err(e) => Err(e),
            Ok(pre_window) => match trigger_window(
                params,
                "post_window"@,
                DEFAULT_TRIGGER_POST_WINDOW,
            ) {
                Err(e) => Err(e),
                Ok(post_window) => match trigger_window(
                    params,
                    "notify_context"@,
                    DEFAULT_TRIGGER_NOTIFY_CONTEXT,
                ) {
                    Err(e) => Err(e),
                    Ok(notify_context) => match str_param(params, "description"@) {
                        Err(e) => Err(e),
                        Ok(description) => match bool_param(params, "oneshot"@) {
                            Err(e) => Err(e),
                            Ok(oneshot) => Ok(
                                TriggerRequestView {
                                    filter,
                                    pre_window,
                                    post_window,
                                    notify_context,
                                    description,
                                    oneshot: oneshot == Some(true),
                                },
                            ),
                        },
                    },
                },
            },
        },
    }
}

/// Read a call of `triggers.add`.
pub fn triggers_add(params: &Json, readings: &Vec<DurationReading>) -> (r: Result<
    TriggerRequest,
    String,
>)
    ensures
        match r {
            Ok(q) => trigger_request(params@, reading_views(readings@)) == Ok::<
                TriggerRequestView,
                Seq<char>,
            >(q@),
            Err(e) => trigger_request(params@, reading_views(readings@)) == Err::<
                TriggerRequestView,
                Seq<char>,
            >(e@),
        },
{
    let filter = match filter_to_register(params, readings) {
        Ok(f) => f,
        Err(e) => return Err(e),
    };
    let pre_window: u32 = match window_or(params, "pre_window", DEFAULT_TRIGGER_PRE_WINDOW) {
        Ok(n) => n,
        Err(e) => return Err(e),
    };
    let post_window: u32 = match window_or(params, "post_window", DEFAULT_TRIGGER_POST_WINDOW) {
        Ok(n) => n,
        Err(e) => return Err(e),
    };
    let notify_context: u32 = match window_or(
        params,
        "notify_context",
        DEFAULT_TRIGGER_NOTIFY_CONTEXT,
    ) {
        Ok(n) => n,
        Err(e) => return Err(e),
    };
    let description = match opt_str(params, "description") {
        Ok(d) => owned_optional(d),
        Err(e) => return Err(e),
    };
    let oneshot = match opt_bool(params, "oneshot") {
        Ok(Some(b)) => b,
        Ok(None) => false,
        Err(e) => return Err(e),
    };
    Ok(
        TriggerRequest {
            filter: text::owned(filter),
            pre_window,
            post_window,
            notify_context,
            description,
            oneshot,
        },
    )
}

/// A change to a trigger: what is absent stays as it is.
#[derive(Debug, PartialEq, Eq)]
pub struct TriggerEdit {
    pub id: u32,
    pub filter: Option<String>,
    pub pre_window: Option<u32>,
    pub post_window: Option<u32>,
    pub notify_context: Option<u32>,
    pub description: Option<String>,
    pub oneshot: Option<bool>,
}

/// What a [`TriggerEdit`] asks for.
#[verifier::ext_equal]
pub struct TriggerEditView {
    pub id: u32,
    pub filter: Option<Seq<char>>,
    pub pre_window: Option<u32>,
    pub post_window: Option<u32>,
    pub notify_context: Option<u32>,
    pub description: Option<Seq<char>>,
    pub oneshot: Option<bool>,
}

impl View for TriggerEdit {
    type V = TriggerEditView;

    open spec fn view(&self) -> TriggerEditView {
        TriggerEditView {
            id: self.id,
            filter: optional_text(self.filter),
            pre_window: self.pre_window,
            post_window: self.post_window,
            notify_context: self.notify_context,
            description: optional_text(self.description),
            oneshot: self.oneshot,
        }
    }
}

/// A 32-bit parameter that must be given.
pub open spec fn required_u32(params: JsonView, key: Seq<char>) -> Result<u32, Seq<char>> {
    match u32_param(params, key) {
        Ok(Some(n)) => Ok(n),
        Ok(None) => Err(missing_text(key)),
        Err(e) => Err(e),
    }
}

/// What a call of `triggers.edit` asks for.
pub open spec fn trigger_edit(params: JsonView) -> Result<TriggerEditView, Seq<char>> {
    match required_u32(params, "id"@) {
        Err(e) => Err(e),
        Ok(id) => match str_param(params, "filter"@) {
            Err(e) => Err(e),
            Ok(filter) => match u32_param(params, "pre_window"@) {
                Err(e) => Err(e),
                Ok(pre_window) => match u32_param(params, "post_window"@) {
                    Err(e) => Err(e),
                    Ok(post_window) => match u32_param(params, "notify_context"@) {
                        Err(e) => Err(e),
                        Ok(notify_context) => match str_param(params, "description"@) {
                            Err(e) => Err(e),
                            Ok(description) => match bool_param(params, "oneshot"@) {
                                Err(e) => Err(e),
                                Ok(oneshot) => Ok(
                                    TriggerEditView {
                                        id,
                                        filter,
                                        pre_window,
                                        post_window,
                                        notify_context,
                                        description,
                                        oneshot,
                                    },
                                ),
                            },
                        },
                    },
                },
            },
        },
    }
}

/// Read a call of `triggers.edit`.
pub fn triggers_edit(params: &Json) -> (r: Result<TriggerEdit, String>)
    ensures
        match r {
            Ok(q) => trigger_edit(params@) == Ok::<TriggerEditView, Seq<char>>(q@),
            Err(e) => trigger_edit(params@) == Err::<TriggerEditView, Seq<char>>(e@),
        },
{
    let id: u32 = match req_u32(params, "id") {
        Ok(n) => n,
        Err(e) => return Err(e),
    };
    let filter = match opt_str(params, "filter") {
        Ok(f) => owned_optional(f),
        Err(e) => return Err(e),
    };
    let pre_window = match opt_u32(params, "pre_window") {
        Ok(n) => n,
        Err(e) => return Err(e),
    };
    let post_window = match opt_u32(params, "post_window") {
        Ok(n) => n,
        Err(e) => return Err(e),
    };
    let notify_context = match opt_u32(params, "notify_context") {
        Ok(n) => n,
        Err(e) => return Err(e),
    };
    let description = match opt_str(params, "description") {
        Ok(d) => owned_optional(d),
        Err(e) => return Err(e),
    };
    let oneshot = match opt_bool(params, "oneshot") {
        Ok(b) => b,
        Err(e) => return Err(e),
    };
    Ok(TriggerEdit { id, filter, pre_window, post_window, notify_context, description, oneshot })
}

/// A change to a filter: what is absent stays as it is.
#[derive(Debug, PartialEq, Eq)]
pub struct FilterEdit {
    pub id: u32,
    pub filter: Option<String>,
    pub description: Option<String>,
}

/// Read a call of `filters.edit`.
pub fn filters_edit(params: &Json) -> (r: Result<FilterEdit, String>)
    ensures
        match (
            required_u32(params@, "id"@),
            str_param(params@, "filter"@),
            str_param(params@, "description"@),
        ) {
            (Err(why), _, _) => r matches Err(e) && e@ == why,
            (_, Err(why), _) => r matches Err(e) && e@ == why,
            (_, _, Err(why)) => r matches Err(e) && e@ == why,
            (Ok(id), Ok(filter), Ok(description)) => {
                &&& r matches Ok(q)
                &&& q.id == id
                &&& optional_text(q.filter) == filter
                &&& optional_text(q.description) == description
            },
        },
{
    let id: u32 = match req_u32(params, "id") {
        Ok(n) => n,
        Err(e) => return Err(e),
    };
    let filter = match opt_str(params, "filter") {
        Ok(f) => owned_optional(f),
        Err(e) => return Err(e),
    };
    match opt_str(params, "description") {
        Ok(d) => Ok(FilterEdit { id, filter, description: owned_optional(d) }),
        Err(e) => Err(e),
    }
}

/// A bookmark to be set.
#[derive(Debug, PartialEq, Eq)]
pub struct BookmarkRequest {
    pub name: String,
    pub replace: bool,
    pub start_seq: u64,
    pub description: Option<String>,
}

/// What a [`BookmarkRequest`] asks for.
#[verifier::ext_equal]
pub struct BookmarkRequestView {
    pub name: Seq<char>,
    pub replace: bool,
    pub start_seq: u64,
    pub description: Option<Seq<char>>,
}

impl View for BookmarkRequest {
    type V = BookmarkRequestView;

    open spec fn view(&self) -> BookmarkRequestView {
        BookmarkRequestView {
            name: self.name@,
            replace: self.replace,
            start_seq: self.start_seq,
            description: optional_text(self.description),
        }
    }
}

/// What a call of `bookmarks.add` asks for. Without a seq the bookmark is set at
/// the newest that was assigned.
pub open spec fn bookmark_request(params: JsonView, current: u64) -> Result<
    BookmarkRequestView,
    Seq<char>,
> {
    match required_str(params, "name"@) {
        Err(e) => Err(e),
        Ok(name) => match bool_param(params, "replace"@) {
            Err(e) => Err(e),
            Ok(replace) => match u64_param(params, "start_seq"@) {
                Err(e) => Err(e),
                Ok(seq) => match str_param(params, "description"@) {
                    Err(e) => Err(e),
                    Ok(description) => Ok(
                        BookmarkRequestView {
                            name,
                            replace: replace == Some(true),
                            start_seq: match seq {
                                Some(n) => n,
                                None => current,
                            },
                            description,
                        },
                    ),
                },
            },
        },
    }
}

/// Read a call of `bookmarks.add`.
pub fn bookmarks_add(params: &Json, current: u64) -> (r: Result<BookmarkRequest, String>)
    ensures
        match r {
            Ok(q) => bookmark_request(params@, current) == Ok::<BookmarkRequestView, Seq<char>>(q@),
            Err(e) => bookmark_request(params@, current) == Err::<BookmarkRequestView, Seq<char>>(
                e@,
            ),
        },
{
    let name = match req_str(params, "name") {
        Ok(s) => s,
        Err(e) => return Err(e),
    };
    let replace = match opt_bool(params, "replace") {
        Ok(Some(b)) => b,
        Ok(None) => false,
        Err(e) => return Err(e),
    };
    let start_seq: u64 = match opt_u64(params, "start_seq") {
        Ok(Some(n)) => n,
        Ok(None) => current,
        Err(e) => return Err(e),
    };
    match opt_str(params, "description") {
        Ok(d) => Ok(
            BookmarkRequest {
                name: text::owned(name),
                replace,
                start_seq,
                description: owned_optional(d),
            },
        ),
        Err(e) => Err(e),
    }
}

/// Read a call of `bookmarks.clear`: whose bookmarks go. They are the caller's
/// where nobody is named, so a name of the wrong type is refused: read as absent
/// it would clear the caller's in place of those meant.
pub fn bookmarks_clear(params: &Json, caller: &str) -> (r: Result<String, String>)
    ensures
        match str_param(params@, "session"@) {
            Ok(Some(s)) => r matches Ok(name) && name@ == s,
            Ok(None) => r matches Ok(name) && name@ == caller@,
            Err(why) => r matches Err(e) && e@ == why,
        },
{
    match opt_str(params, "session") {
        Ok(Some(s)) => Ok(text::owned(s)),
        Ok(None) => Ok(text::owned(caller)),
        Err(e) => Err(e),
    }
}

/// Read a call of `bookmarks.remove`: the qualified name of the bookmark that
/// goes. A name without a session is the caller's own.
pub fn bookmarks_remove(params: &Json, caller: &str) -> (r: Result<String, String>)
    ensures
        match required_str(params@, "name"@) {
            Ok(name) => r matches Ok(key) && key@ == qualified(name, caller@),
            Err(why) => r matches Err(e) && e@ == why,
        },
{
    match req_str(params, "name") {
        Ok(name) => Ok(qualify(name, caller)),
        Err(e) => Err(e),
    }
}

/// What dropping a session comes to. Its collectors were released first, and
/// whether or not the session was still there. Where some were, a missing session
/// is no failure: this was the only way to release them.
pub fn sessions_drop(collectors_released: usize, dropped: Result<(), String>) -> (r: Result<
    usize,
    String,
>)
    ensures
        r == (match dropped {
            Err(e) if collectors_released == 0 => Err::<usize, String>(e),
            _ => Ok(collectors_released),
        }),
{
    if collectors_released == 0 {
        match dropped {
            Err(e) => return Err(e),
            Ok(_) => {},
        }
    }
    Ok(collectors_released)
}

/// A filter is registered exactly where it can be read and refers to no bookmark and no
/// cursor.
pub proof fn registered_filters_refer_to_nothing(
    filter: Seq<char>,
    readings: Seq<DurationReadingView>,
)
    ensures
        registration_error(filter, readings) is None <==> (filter_of(filter, readings) matches Ok(f)
            && forall|i: int|
            0 <= i < qualifiers_in(f).len() ==> !((#[trigger] qualifiers_in(f)[i]) is BookmarkFilter)
                && !(qualifiers_in(f)[i] is CursorFilter)),
{
    if let Ok(f) = filter_of(filter, readings) {
        let qs = qualifiers_in(f);
        if has_reference(qs) {
            let i = choose|i: int| 0 <= i < qs.len() && is_reference(#[trigger] qs[i]);
            assert(qs[i] is BookmarkFilter || qs[i] is CursorFilter);
        } else {
            assert forall|i: int| 0 <= i < qs.len() implies !((#[trigger] qs[i]) is BookmarkFilter)
                && !(qs[i] is CursorFilter) by {
                assert(!is_reference(qs[i]));
            }
        }
    }
}

/// A trigger is registered with what its call says, each under its own name; what it does
/// not say is 500 records before, 200 behind and 5 in the notification, and no end to its
/// firing.
pub proof fn triggers_are_registered_as_asked(
    params: JsonView,
    readings: Seq<DurationReadingView>,
)
    requires
        trigger_request(params, readings) is Ok,
    ensures
        ({
            let t = trigger_request(params, readings)->Ok_0;
            &&& params.get("filter"@) == Some(JsonView::Text(t.filter))
            &&& registration_error(t.filter, readings) is None
            &&& params.u64_at("pre_window"@) matches Some(n) ==> t.pre_window == n
            &&& params.u64_at("post_window"@) matches Some(n) ==> t.post_window == n
            &&& params.u64_at("notify_context"@) matches Some(n) ==> t.notify_context == n
            &&& given(params, "pre_window"@) is None ==> t.pre_window == 500
            &&& given(params, "post_window"@) is None ==> t.post_window == 200
            &&& given(params, "notify_context"@) is None ==> t.notify_context == 5
            &&& t.description == params.text_at("description"@)
            &&& t.oneshot <==> params.get("oneshot"@) == Some(JsonView::Bool(true))
        }),
{
}

/// A filter is registered under the text and the description of its call.
pub proof fn filters_are_registered_as_asked(
    params: JsonView,
    readings: Seq<DurationReadingView>,
)
    requires
        filter_request(params, readings) is Ok,
    ensures
        ({
            let f = filter_request(params, readings)->Ok_0;
            &&& params.get("filter"@) == Some(JsonView::Text(f.filter))
            &&& registration_error(f.filter, readings) is None
            &&& f.description == params.text_at("description"@)
        }),
{
}

/// An edit of a trigger changes what its call names and nothing else.
pub proof fn edits_change_what_they_name(params: JsonView)
    requires
        trigger_edit(params) is Ok,
    ensures
        ({
            let t = trigger_edit(params)->Ok_0;
            &&& params.u64_at("id"@) matches Some(n)
            &&& t.id == n
            &&& t.filter == params.text_at("filter"@)
            &&& t.description == params.text_at("description"@)
            &&& t.pre_window is Some <==> given(params, "pre_window"@) is Some
            &&& t.pre_window matches Some(w) ==> params.u64_at("pre_window"@) == Some(w as u64)
            &&& t.post_window is Some <==> given(params, "post_window"@) is Some
            &&& t.post_window matches Some(w) ==> params.u64_at("post_window"@) == Some(w as u64)
            &&& t.notify_context is Some <==> given(params, "notify_context"@) is Some
            &&& t.notify_context matches Some(w) ==> params.u64_at("notify_context"@) == Some(
                w as u64,
            )
            &&& t.oneshot is Some <==> given(params, "oneshot"@) is Some
            &&& t.oneshot matches Some(b) ==> params.get("oneshot"@) == Some(JsonView::Bool(b))
        }),
{
}

/// A bookmark is set where its call says, and at the newest seq where it says nothing; it
/// takes the place of another only where the call allows that.
pub proof fn bookmarks_are_set_as_asked(params: JsonView, current: u64)
    requires
        bookmark_request(params, current) is Ok,
    ensures
        ({
            let b = bookmark_request(params, current)->Ok_0;
            &&& params.get("name"@) == Some(JsonView::Text(b.name))
            &&& params.u64_at("start_seq"@) matches Some(n) ==> b.start_seq == n
            &&& given(params, "start_seq"@) is None ==> b.start_seq == current
            &&& b.replace <==> params.get("replace"@) == Some(JsonView::Bool(true))
            &&& b.description == params.text_at("description"@)
        }),
{
}

} // verus!
