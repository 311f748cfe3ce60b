//! The life of a client's connection: its session is started first, and what it
//! is sent from then on is its own.
use crate::engine::pipeline::PipelineEvent;
use crate::json::{integer_number, json_text, Json, JsonView};
use crate::text;
use crate::text::{decimal_text, optional_text};
use vstd::prelude::*;
use vstd::utf8::encode_utf8;

verus! {

broadcast use vstd::string::group_string_axioms;

/// The name of the notification of a fired trigger.
pub const TRIGGER_FIRED_METHOD: &'static str = "trigger_fired";

/// The most bytes that a client may say of itself.
pub const MAX_CLIENT_INFO: usize = 4096;

/// The code of a request that cannot be served.
pub const INVALID_REQUEST: i64 = -32600;

/// The code of parameters that cannot be taken.
pub const INVALID_PARAMS: i64 = -32602;

/// What a client sends to start a session.
#[derive(Debug, PartialEq, Eq)]
pub struct StartParams {
    /// The session to take up, or none to be given one.
    pub name: Option<String>,
    pub protocol_version: u32,
    pub client_info: Option<Json>,
}

/// What a [`StartParams`] asks for.
#[verifier::ext_equal]
pub struct StartParamsView {
    pub name: Option<Seq<char>>,
    pub protocol_version: u32,
    pub client_info: Option<JsonView>,
}

impl View for StartParams {
    type V = StartParamsView;

    open spec fn view(&self) -> StartParamsView {
        StartParamsView {
            name: optional_text(self.name),
            protocol_version: self.protocol_version,
            client_info: match self.client_info {
                Some(v) => Some(v@),
                None => None,
            },
        }
    }
}

/// How far a connection has come.
#[derive(Debug, Clone, Copy, PartialEq, Eq, Structural)]
pub enum ConnectionPhase {
    /// Nothing has been asked yet.
    AwaitingStart,
    /// The session is being made.
    Creating,
    /// The session was there, and is being taken up.
    Reconnecting,
    Open,
    Closed,
}

/// A client's connection.
#[derive(Debug)]
pub struct Connection {
    pub phase: ConnectionPhase,
    /// The version of the protocol that is spoken here.
    pub version: u32,
    /// The id of the request that starts the session.
    pub start_id: u64,
    /// The session, once it is known.
    pub session: String,
    /// The session is one that was made for a client that named none.
    pub anonymous: bool,
    /// The client has said something of itself.
    pub introduced: bool,
}

/// What a [`Connection`] holds.
#[verifier::ext_equal]
pub struct ConnectionView {
    pub phase: ConnectionPhase,
    pub version: u32,
    pub start_id: u64,
    pub session: Seq<char>,
    pub anonymous: bool,
    pub introduced: bool,
}

impl View for Connection {
    type V = ConnectionView;

    open spec fn view(&self) -> ConnectionView {
        ConnectionView {
            phase: self.phase,
            version: self.version,
            start_id: self.start_id,
            session: self.session@,
            anonymous: self.anonymous,
            introduced: self.introduced,
        }
    }
}

/// What happened on a connection.
#[derive(Debug)]
pub enum ConnectionEvent {
    /// The first request.
    First { id: u64, method: String, params: StartParams },
    /// A session of that name was made, or the one asked for was there.
    Created(bool),
    /// A session was made for a client that named none.
    Assigned(String),
    /// The session was taken up, or this is why not.
    Reconnected(Result<(), String>),
    /// Another request.
    Request,
    /// A request was answered by giving the session that name.
    Renamed(String),
    /// A trigger of that session has fired.
    Fired(String),
    /// Events were lost on the way.
    Lagged,
    /// There are no more events.
    EventsClosed,
    /// The client is gone, or cannot be read from or written to.
    Gone,
}

/// What a [`ConnectionEvent`] says.
#[verifier::ext_equal]
pub enum ConnectionEventView {
    First { id: u64, method: Seq<char>, params: StartParamsView },
    Created(bool),
    Assigned(Seq<char>),
    Reconnected(Result<(), Seq<char>>),
    Request,
    Renamed(Seq<char>),
    Fired(Seq<char>),
    Lagged,
    EventsClosed,
    Gone,
}

impl View for ConnectionEvent {
    type V = ConnectionEventView;

    open spec fn view(&self) -> ConnectionEventView {
        match self {
            ConnectionEvent::First { id, method, params } => ConnectionEventView::First {
                id: *id,
                method: method@,
                params: params@,
            },
            ConnectionEvent::Created(made) => ConnectionEventView::Created(*made),
            ConnectionEvent::Assigned(id) => ConnectionEventView::Assigned(id@),
            ConnectionEvent::Reconnected(Ok(_)) => ConnectionEventView::Reconnected(Ok(())),
            ConnectionEvent::Reconnected(Err(e)) => ConnectionEventView::Reconnected(Err(e@)),
            ConnectionEvent::Request => ConnectionEventView::Request,
            ConnectionEvent::Renamed(name) => ConnectionEventView::Renamed(name@),
            ConnectionEvent::Fired(s) => ConnectionEventView::Fired(s@),
            ConnectionEvent::Lagged => ConnectionEventView::Lagged,
            ConnectionEvent::EventsClosed => ConnectionEventView::EventsClosed,
            ConnectionEvent::Gone => ConnectionEventView::Gone,
        }
    }
}

/// What is to be done on a connection.
#[derive(Debug)]
pub enum ConnectionAction {
    /// Answer the first request with an error, and close.
    Refuse { id: u64, code: i64, message: String },
    CreateNamed(String),
    CreateAnonymous,
    Reconnect(String),
    /// The session has started. Keep what the client said of itself, where it
    /// did: one that comes back without a word keeps what it said before. Then
    /// answer the first request and send what has been waiting.
    Greet { id: u64, is_new: bool, keep_client_info: bool },
    Answer,
    /// Send the event to the client.
    Forward,
    Ignore,
    /// Let the session go, and close. What a session without a name has left
    /// behind is forgotten: nobody can come back for it.
    Disconnect { forget: bool },
    /// Close without a session.
    Close,
}

/// What a [`ConnectionAction`] asks for.
#[verifier::ext_equal]
pub enum ConnectionActionView {
    Refuse { id: u64, code: i64, message: Seq<char> },
    CreateNamed(Seq<char>),
    CreateAnonymous,
    Reconnect(Seq<char>),
    Greet { id: u64, is_new: bool, keep_client_info: bool },
    Answer,
    Forward,
    Ignore,
    Disconnect { forget: bool },
    Close,
}

impl View for ConnectionAction {
    type V = ConnectionActionView;

    open spec fn view(&self) -> ConnectionActionView {
        match self {
            ConnectionAction::Refuse { id, code, message } => ConnectionActionView::Refuse {
                id: *id,
                code: *code,
                message: message@,
            },
            ConnectionAction::CreateNamed(n) => ConnectionActionView::CreateNamed(n@),
            ConnectionAction::CreateAnonymous => ConnectionActionView::CreateAnonymous,
            ConnectionAction::Reconnect(n) => ConnectionActionView::Reconnect(n@),
            ConnectionAction::Greet { id, is_new, keep_client_info } => ConnectionActionView::Greet {
                id: *id,
                is_new: *is_new,
                keep_client_info: *keep_client_info,
            },
            ConnectionAction::Answer => ConnectionActionView::Answer,
            ConnectionAction::Forward => ConnectionActionView::Forward,
            ConnectionAction::Ignore => ConnectionActionView::Ignore,
            ConnectionAction::Disconnect { forget } => ConnectionActionView::Disconnect {
                forget: *forget,
            },
            ConnectionAction::Close => ConnectionActionView::Close,
        }
    }
}

/// Whether a client says more of itself than it may.
pub open spec fn says_too_much(params: StartParamsView) -> bool {
    params.client_info is Some && encode_utf8(json_text(params.client_info->0)).len()
        > MAX_CLIENT_INFO
}

/// Why a first request starts no session.
pub open spec fn start_error(version: u32, method: Seq<char>, params: StartParamsView) -> Option<
    (i64, Seq<char>),
> {
    if method != "session.start"@ {
        Some((INVALID_REQUEST, "first request must be session.start"@))
    } else if params.protocol_version != version {
        Some(
            (
                INVALID_REQUEST,
                "unsupported protocol version: "@ + decimal_text(params.protocol_version as nat)
                    + " (expected "@ + decimal_text(version as nat) + ")"@,
            ),
        )
    } else if says_too_much(params) {
        Some((INVALID_PARAMS, "client_info exceeds 4 KB limit"@))
    } else {
        None
    }
}

fn refuse_start(version: u32, method: &str, params: &StartParams) -> (r: Option<(i64, String)>)
    ensures
        match r {
            Some(e) => start_error(version, method@, params@) == Some((e.0, e.1@)),
            None => start_error(version, method@, params@) is None,
        },
{
    if !text::same(method, "session.start") {
        return Some((INVALID_REQUEST, text::owned("first request must be session.start")));
    }
    if params.protocol_version != version {
        let given = text::decimal(params.protocol_version as u64);
        let head = text::join3("unsupported protocol version: ", &given, " (expected ");
        return Some(
            (INVALID_REQUEST, text::join3(&head, &text::decimal(version as u64), ")")),
        );
    }
    if let Some(info) = &params.client_info {
        let said = info.to_text();
        if said.as_str().as_bytes().len() > MAX_CLIENT_INFO {
            return Some((INVALID_PARAMS, text::owned("client_info exceeds 4 KB limit")));
        }
    }
    None
}

impl ConnectionView {
    /// Whether an event is one of those that can happen now.
    pub open spec fn expects(self, e: ConnectionEventView) -> bool {
        match self.phase {
            ConnectionPhase::AwaitingStart => e is First || e is Gone,
            ConnectionPhase::Creating => e is Created || e is Assigned,
            ConnectionPhase::Reconnecting => e is Reconnected,
            ConnectionPhase::Open => e is Request || e is Renamed || e is Fired || e is Lagged
                || e is EventsClosed || e is Gone,
            ConnectionPhase::Closed => false,
        }
    }

    /// The connection in another phase.
    pub open spec fn at(self, phase: ConnectionPhase) -> ConnectionView {
        ConnectionView { phase, ..self }
    }

    /// The greeting of a session that has started.
    pub open spec fn greeting(self, is_new: bool) -> ConnectionActionView {
        ConnectionActionView::Greet {
            id: self.start_id,
            is_new,
            keep_client_info: self.introduced,
        }
    }
}

/// What follows an event.
pub open spec fn next(c: ConnectionView, e: ConnectionEventView) -> (
    ConnectionView,
    ConnectionActionView,
) {
    match (c.phase, e) {
        (
            ConnectionPhase::AwaitingStart,
            ConnectionEventView::First { id, method, params },
        ) => match start_error(c.version, method, params) {
            Some((code, message)) => (
                c.at(ConnectionPhase::Closed),
                ConnectionActionView::Refuse { id, code, message },
            ),
            None => {
                let asked = ConnectionView {
                    phase: ConnectionPhase::Creating,
                    start_id: id,
                    introduced: params.client_info is Some,
                    ..c
                };
                match params.name {
                    Some(name) => (
                        ConnectionView { session: name, ..asked },
                        ConnectionActionView::CreateNamed(name),
                    ),
                    None => (asked, ConnectionActionView::CreateAnonymous),
                }
            },
        },
        (ConnectionPhase::Creating, ConnectionEventView::Created(made)) => if made {
            (c.at(ConnectionPhase::Open), c.greeting(true))
        } else {
            (c.at(ConnectionPhase::Reconnecting), ConnectionActionView::Reconnect(c.session))
        },
        (ConnectionPhase::Creating, ConnectionEventView::Assigned(id)) => (
            ConnectionView { phase: ConnectionPhase::Open, session: id, anonymous: true, ..c },
            c.greeting(true),
        ),
        (ConnectionPhase::Reconnecting, ConnectionEventView::Reconnected(Ok(_))) => (
            c.at(ConnectionPhase::Open),
            c.greeting(false),
        ),
        (ConnectionPhase::Reconnecting, ConnectionEventView::Reconnected(Err(why))) => (
            c.at(ConnectionPhase::Closed),
            ConnectionActionView::Refuse {
                id: c.start_id,
                code: INVALID_REQUEST,
                message: "session error: "@ + why,
            },
        ),
        (ConnectionPhase::Open, ConnectionEventView::Request) => (c, ConnectionActionView::Answer),
        (ConnectionPhase::Open, ConnectionEventView::Renamed(name)) => (
            ConnectionView { session: name, anonymous: false, ..c },
            ConnectionActionView::Ignore,
        ),
        (ConnectionPhase::Open, ConnectionEventView::Fired(session)) => if session == c.session {
            (c, ConnectionActionView::Forward)
        } else {
            (c, ConnectionActionView::Ignore)
        },
        (ConnectionPhase::Open, ConnectionEventView::Lagged) => (c, ConnectionActionView::Ignore),
        (ConnectionPhase::Open, _) => (
            c.at(ConnectionPhase::Closed),
            ConnectionActionView::Disconnect { forget: c.anonymous },
        ),
        _ => (c.at(ConnectionPhase::Closed), ConnectionActionView::Close),
    }
}

impl Connection {
    /// A connection on which nothing has been asked yet.
    pub fn new(version: u32) -> (r: Self)
        ensures
            r@ == (ConnectionView {
                phase: ConnectionPhase::AwaitingStart,
                version,
                start_id: 0,
                session: seq![],
                anonymous: false,
                introduced: false,
            }),
    {
        Connection {
            phase: ConnectionPhase::AwaitingStart,
            version,
            start_id: 0,
            session: String::new(),
            anonymous: false,
            introduced: false,
        }
    }

    /// What follows an event.
    ///
    /// A client must start a session before anything else. What it says of
    /// itself is held against the limit before a session is made, so that one
    /// that says too much leaves no session behind. The events of all sessions
    /// come by here; those of others are not sent on. A session that is renamed
    /// goes by its new name here too.
    pub fn step(&mut self, event: ConnectionEvent) -> (r: ConnectionAction)
        requires
            old(self)@.expects(event@),
        ensures
            (final(self)@, r@) == next(old(self)@, event@),
    {
        match self.phase {
            ConnectionPhase::AwaitingStart => match event {
                ConnectionEvent::First { id, method, params } => match refuse_start(
                    self.version,
                    &method,
                    &params,
                ) {
                    Some((code, message)) => {
                        self.phase = ConnectionPhase::Closed;
                        ConnectionAction::Refuse { id, code, message }
                    },
                    None => {
                        self.phase = ConnectionPhase::Creating;
                        self.start_id = id;
                        self.introduced = params.client_info.is_some();
                        match params.name {
                            Some(name) => {
                                self.session = name.clone();
                                ConnectionAction::CreateNamed(name)
                            },
                            None => ConnectionAction::CreateAnonymous,
                        }
                    },
                },
                _ => {
                    self.phase = ConnectionPhase::Closed;
                    ConnectionAction::Close
                },
            },
            ConnectionPhase::Creating => match event {
                ConnectionEvent::Assigned(id) => {
                    self.session = id;
                    self.anonymous = true;
                    self.greet(true)
                },
                ConnectionEvent::Created(true) => self.greet(true),
                _ => {
                    self.phase = ConnectionPhase::Reconnecting;
                    ConnectionAction::Reconnect(self.session.clone())
                },
            },
            ConnectionPhase::Reconnecting => match event {
                ConnectionEvent::Reconnected(Err(why)) => {
                    self.phase = ConnectionPhase::Closed;
                    ConnectionAction::Refuse {
                        id: self.start_id,
                        code: INVALID_REQUEST,
                        message: text::join2("session error: ", &why),
                    }
                },
                _ => self.greet(false),
            },
            ConnectionPhase::Open => match event {
                ConnectionEvent::Request => ConnectionAction::Answer,
                ConnectionEvent::Renamed(name) => {
                    self.session = name;
                    self.anonymous = false;
                    ConnectionAction::Ignore
                },
                ConnectionEvent::Fired(session) => if text::same_owned(&session, &self.session) {
                    ConnectionAction::Forward
                } else {
                    ConnectionAction::Ignore
                },
                ConnectionEvent::Lagged => ConnectionAction::Ignore,
                _ => {
                    self.phase = ConnectionPhase::Closed;
                    ConnectionAction::Disconnect { forget: self.anonymous }
                },
            },
            ConnectionPhase::Closed => ConnectionAction::Close,
        }
    }

    fn greet(&mut self, is_new: bool) -> (r: ConnectionAction)
        ensures
            final(self)@ == old(self)@.at(ConnectionPhase::Open),
            r@ == old(self)@.greeting(is_new),
    {
        self.phase = ConnectionPhase::Open;
        ConnectionAction::Greet { id: self.start_id, is_new, keep_client_info: self.introduced }
    }
}

/// A connection never sends on the event of another session, and never keeps one
/// of its own back.
pub proof fn events_reach_their_session_alone(c: ConnectionView, session: Seq<char>)
    requires
        c.phase == ConnectionPhase::Open,
    ensures
        next(c, ConnectionEventView::Fired(session)).1 == ConnectionActionView::Forward <==> session
            == c.session,
        next(c, ConnectionEventView::Fired(session)).0 == c,
{
}

/// Once its session has been renamed, a connection sends on the events of the new
/// name, and no others.
pub proof fn renamed_sessions_keep_their_connection(
    c: ConnectionView,
    name: Seq<char>,
    session: Seq<char>,
)
    requires
        c.phase == ConnectionPhase::Open,
    ensures
        ({
            let renamed = next(c, ConnectionEventView::Renamed(name)).0;
            next(renamed, ConnectionEventView::Fired(session)).1 == ConnectionActionView::Forward
                <==> session == name
        }),
{
}

/// What happens on a connection, one event after the other.
pub open spec fn after_events(c: ConnectionView, events: Seq<ConnectionEventView>) -> ConnectionView
    decreases events.len(),
{
    if events.len() == 0 {
        c
    } else {
        next(after_events(c, events.drop_last()), events.last()).0
    }
}

/// Nothing is ever forgotten of a session that a client named: whatever happens on
/// its connection, it is let go with all that it left behind.
pub proof fn named_sessions_are_kept(
    c: ConnectionView,
    events: Seq<ConnectionEventView>,
    e: ConnectionEventView,
)
    requires
        !c.anonymous,
        forall|i: int| 0 <= i < events.len() ==> !((#[trigger] events[i]) is Assigned),
    ensures
        !after_events(c, events).anonymous,
        next(after_events(c, events), e).1 != (ConnectionActionView::Disconnect { forget: true }),
    decreases events.len(),
{
    if events.len() > 0 {
        let rest = events.drop_last();
        assert forall|i: int| 0 <= i < rest.len() implies !((#[trigger] rest[i]) is Assigned) by {
            assert(rest[i] == events[i]);
        }
        named_sessions_are_kept(c, rest, events.last());
        assert(!(events[events.len() - 1] is Assigned));
    }
}

/// A first request that is refused has no session made for it.
pub proof fn refused_starts_make_no_session(
    c: ConnectionView,
    id: u64,
    method: Seq<char>,
    params: StartParamsView,
)
    requires
        c.phase == ConnectionPhase::AwaitingStart,
        method != "session.start"@ || params.protocol_version != c.version || says_too_much(params),
    ensures
        ({
            let after = next(c, ConnectionEventView::First { id, method, params });
            &&& after.0.phase == ConnectionPhase::Closed
            &&& after.1 is Refuse
            &&& after.1->Refuse_id == id
        }),
{
}

/// An optional text as JSON.
pub open spec fn text_or_null(s: Option<Seq<char>>) -> JsonView {
    match s {
        Some(s) => JsonView::Text(s),
        None => JsonView::Null,
    }
}

/// A number as JSON.
pub open spec fn number(n: u32) -> JsonView {
    JsonView::Number(integer_number(n as i64))
}

/// What a client is sent of a trigger that has fired.
pub open spec fn fired_payload(ev: PipelineEvent, matched: JsonView, context: JsonView) -> JsonView {
    JsonView::Object(
        seq![
            ("trigger_id"@, number(ev.trigger_id)),
            ("description"@, text_or_null(optional_text(ev.trigger_description))),
            ("filter_string"@, JsonView::Text(ev.filter_string@)),
            ("pre_window"@, number(ev.pre_window)),
            ("post_window"@, number(ev.post_window_size)),
            ("notify_context"@, number(ev.notify_context)),
            ("oneshot"@, JsonView::Bool(ev.oneshot)),
            ("matched_entry"@, matched),
            ("context_before"@, context),
        ],
    )
}

/// What a client is sent of a trigger that has fired. `matched` and `context` are
/// the records of the event as JSON. What only the engine needs to know is left
/// out.
pub fn pipeline_event_to_trigger_fired(ev: &PipelineEvent, matched: Json, context: Json) -> (r: Json)
    ensures
        r@ == fired_payload(*ev, matched@, context@),
{
    let description = match &ev.trigger_description {
        Some(s) => Json::Text(s.clone()),
        None => Json::Null,
    };
    let mut members: Vec<(String, Json)> = Vec::new();
    members.push((text::owned("trigger_id"), Json::integer(ev.trigger_id as i64)));
    members.push((text::owned("description"), description));
    members.push((text::owned("filter_string"), Json::Text(ev.filter_string.clone())));
    members.push((text::owned("pre_window"), Json::integer(ev.pre_window as i64)));
    members.push((text::owned("post_window"), Json::integer(ev.post_window_size as i64)));
    members.push((text::owned("notify_context"), Json::integer(ev.notify_context as i64)));
    members.push((text::owned("oneshot"), Json::Bool(ev.oneshot)));
    members.push((text::owned("matched_entry"), matched));
    members.push((text::owned("context_before"), context));
    let r = Json::Object(members);
    proof {
        reveal_with_fuel(Json::view, 3);
        assert(r@->Object_0 =~= fired_payload(*ev, matched@, context@)->Object_0);
    }
    r
}

/// A session that is asked for by name is made under that name, or taken up where it was
/// there, and the request that asked for it is the one that is answered.
pub proof fn named_starts_reach_their_session(
    c: ConnectionView,
    id: u64,
    params: StartParamsView,
    name: Seq<char>,
    why: Seq<char>,
)
    requires
        c.phase == ConnectionPhase::AwaitingStart,
        params.name == Some(name),
        params.protocol_version == c.version,
        !says_too_much(params),
    ensures
        ({
            let asked = next(
                c,
                ConnectionEventView::First { id, method: "session.start"@, params },
            );
            let made = next(asked.0, ConnectionEventView::Created(true));
            let there = next(asked.0, ConnectionEventView::Created(false));
            let back = next(there.0, ConnectionEventView::Reconnected(Ok(())));
            let failed = next(there.0, ConnectionEventView::Reconnected(Err(why)));
            &&& asked.1 == ConnectionActionView::CreateNamed(name)
            &&& asked.0.expects(ConnectionEventView::Created(true))
            &&& made.1 == ConnectionActionView::Greet {
                id,
                is_new: true,
                keep_client_info: params.client_info is Some,
            }
            &&& made.0.phase == ConnectionPhase::Open
            &&& made.0.session == name
            &&& made.0.anonymous == c.anonymous
            &&& there.1 == ConnectionActionView::Reconnect(name)
            &&& there.0.expects(ConnectionEventView::Reconnected(Ok(())))
            &&& back.1 == ConnectionActionView::Greet {
                id,
                is_new: false,
                keep_client_info: params.client_info is Some,
            }
            &&& back.0.phase == ConnectionPhase::Open
            &&& back.0.session == name
            &&& failed.0.phase == ConnectionPhase::Closed
            &&& failed.1 == ConnectionActionView::Refuse {
                id,
                code: -32600i64,
                message: "session error: "@ + why,
            }
        }),
{
}

/// A client that names no session is given one, and what that one left behind is
/// forgotten when the client goes, unless it has taken a name by then.
pub proof fn unnamed_starts_are_given_a_session(
    c: ConnectionView,
    id: u64,
    params: StartParamsView,
    given: Seq<char>,
    name: Seq<char>,
)
    requires
        c.phase == ConnectionPhase::AwaitingStart,
        params.name is None,
        params.protocol_version == c.version,
        !says_too_much(params),
    ensures
        ({
            let asked = next(
                c,
                ConnectionEventView::First { id, method: "session.start"@, params },
            );
            let open = next(asked.0, ConnectionEventView::Assigned(given));
            let named = next(open.0, ConnectionEventView::Renamed(name));
            &&& asked.1 == ConnectionActionView::CreateAnonymous
            &&& open.1 == ConnectionActionView::Greet {
                id,
                is_new: true,
                keep_client_info: params.client_info is Some,
            }
            &&& open.0.phase == ConnectionPhase::Open
            &&& open.0.session == given
            &&& next(open.0, ConnectionEventView::Gone).1 == ConnectionActionView::Disconnect {
                forget: true,
            }
            &&& named.0.phase == ConnectionPhase::Open
            &&& named.0.session == name
            &&& next(named.0, ConnectionEventView::Gone).1 == ConnectionActionView::Disconnect {
                forget: false,
            }
        }),
{
}

/// What a first request is refused for: another method, another version of the protocol, or
/// more than 4096 bytes that the client says of itself.
pub proof fn starts_are_refused_for_a_reason(
    c: ConnectionView,
    id: u64,
    method: Seq<char>,
    params: StartParamsView,
)
    requires
        c.phase == ConnectionPhase::AwaitingStart,
    ensures
        ({
            let after = next(c, ConnectionEventView::First { id, method, params });
            let too_much = params.client_info is Some && encode_utf8(
                json_text(params.client_info->0),
            ).len() > 4096;
            &&& method != "session.start"@ || params.protocol_version != c.version ==> {
                &&& after.1 is Refuse
                &&& after.1->code == -32600
                &&& after.1->Refuse_id == id
                &&& after.0.phase == ConnectionPhase::Closed
            }
            &&& method == "session.start"@ && params.protocol_version == c.version && too_much ==> {
                &&& after.1 is Refuse
                &&& after.1->code == -32602
                &&& after.1->Refuse_id == id
                &&& after.0.phase == ConnectionPhase::Closed
            }
            &&& method == "session.start"@ && params.protocol_version == c.version && !too_much
                ==> !(after.1 is Refuse)
        }),
{
}

/// An open connection answers every request, and stays open until the client is gone or
/// there are no more events; then its session is let go.
pub proof fn open_connections_last(c: ConnectionView)
    requires
        c.phase == ConnectionPhase::Open,
    ensures
        next(c, ConnectionEventView::Request) == (c, ConnectionActionView::Answer),
        next(c, ConnectionEventView::Lagged) == (c, ConnectionActionView::Ignore),
        next(c, ConnectionEventView::Gone).0.phase == ConnectionPhase::Closed,
        next(c, ConnectionEventView::Gone).1 == (ConnectionActionView::Disconnect {
            forget: c.anonymous,
        }),
        next(c, ConnectionEventView::EventsClosed) == next(c, ConnectionEventView::Gone),
{
}

/// What a client is told of a fired trigger is what the event says.
pub proof fn fired_triggers_are_told_in_full(ev: PipelineEvent, matched: JsonView, context: JsonView)
    ensures
        ({
            let told = fired_payload(ev, matched, context)->Object_0;
            &&& told.len() == 9
            &&& told[0] == ("trigger_id"@, JsonView::Number(integer_number(ev.trigger_id as i64)))
            &&& told[1].0 == "description"@
            &&& ev.trigger_description matches Some(d) ==> told[1].1 == JsonView::Text(d@)
            &&& ev.trigger_description is None ==> told[1].1 == JsonView::Null
            &&& told[2] == ("filter_string"@, JsonView::Text(ev.filter_string@))
            &&& told[3] == ("pre_window"@, JsonView::Number(integer_number(ev.pre_window as i64)))
            &&& told[4] == (
                "post_window"@,
                JsonView::Number(integer_number(ev.post_window_size as i64)),
            )
            &&& told[5] == (
                "notify_context"@,
                JsonView::Number(integer_number(ev.notify_context as i64)),
            )
            &&& told[6] == ("oneshot"@, JsonView::Bool(ev.oneshot))
            &&& told[7] == ("matched_entry"@, matched)
            &&& told[8] == ("context_before"@, context)
        }),
{
}

} // verus!
