//! The life of the daemon: in which order it starts, what it leaves alone, and
//! how it stops.
use crate::daemon::domain_lifecycle::{address, address_of};
use crate::daemon::persistence::{DaemonConfig, SEQ_BLOCK_SIZE};
use crate::receiver::gelf::GelfReceiverConfig;
use crate::receiver::otlp::OtlpReceiverConfig;
use crate::text;
use crate::text::{decimal_text, text_views, trimmed, u64_of};
use vstd::prelude::*;

verus! {

broadcast use vstd::string::group_string_axioms;

/// The process that a pid file names, if it names one.
pub open spec fn pid_of(contents: Seq<char>) -> Option<u32> {
    match u64_of(trimmed(contents)) {
        Some(n) => if n <= u32::MAX {
            Some(n as u32)
        } else {
            None
        },
        None => None,
    }
}

/// The process that a pid file names, if it names one.
pub fn recorded_pid(contents: &str) -> (r: Option<u32>)
    ensures
        r == pid_of(contents@),
{
    let word = text::text_of(&text::trim(&text::chars_of(contents)));
    match text::parse_u64(&word) {
        Some(n) => if n <= u32::MAX as u64 {
            Some(n as u32)
        } else {
            None
        },
        None => None,
    }
}

/// The block of seqs after one that is handed out from `initial` on.
pub open spec fn reserved(initial: u64) -> int {
    initial + SEQ_BLOCK_SIZE
}

/// What the daemon listens on.
#[derive(Debug, Clone, Copy, PartialEq, Eq)]
pub struct Listeners {
    pub gelf_udp: u16,
    pub gelf_tcp: u16,
    /// The gRPC and the HTTP port, where either is enabled.
    pub otlp: Option<(u16, u16)>,
}

/// A port, or the one for all.
pub open spec fn port_or(port: Option<u16>, shared: u16) -> u16 {
    match port {
        Some(p) => p,
        None => shared,
    }
}

/// What a configuration asks the daemon to listen on.
pub open spec fn configured(config: DaemonConfig) -> Listeners {
    Listeners {
        gelf_udp: port_or(config.gelf_udp_port, config.gelf_port),
        gelf_tcp: port_or(config.gelf_tcp_port, config.gelf_port),
        otlp: if config.otlp_grpc_port > 0 || config.otlp_http_port > 0 {
            Some((config.otlp_grpc_port, config.otlp_http_port))
        } else {
            None
        },
    }
}

/// What a configuration asks the daemon to listen on.
pub fn listeners(config: &DaemonConfig) -> (r: Listeners)
    ensures
        r == configured(*config),
{
    let gelf_udp: u16 = match config.gelf_udp_port {
        Some(p) => p,
        None => config.gelf_port,
    };
    let gelf_tcp: u16 = match config.gelf_tcp_port {
        Some(p) => p,
        None => config.gelf_port,
    };
    let otlp = if config.otlp_grpc_port > 0 || config.otlp_http_port > 0 {
        Some((config.otlp_grpc_port, config.otlp_http_port))
    } else {
        None
    };
    Listeners { gelf_udp, gelf_tcp, otlp }
}

/// How far the daemon has come: what it is waiting to hear of.
#[derive(Debug, Clone, Copy, PartialEq, Eq, Structural)]
pub enum Phase {
    CreatingDir,
    ReadingPid,
    AskingAlive { pid: u32 },
    RemovingStale,
    LoadingState,
    Reserving,
    BindingGelf,
    BindingOtlp,
    Announcing,
    WritingPid,
    Binding,
    Serving,
    Disconnecting,
    Retiring,
    Saving,
    Cleaning,
    Stopped,
}

/// What happened.
#[derive(Debug)]
pub enum Event {
    /// What was to be done is done.
    Done,
    /// It failed.
    Failed(String),
    /// The contents of the pid file, where there is one.
    PidFile(Option<String>),
    Alive(bool),
    /// The state was read, with this block of seqs.
    Loaded(u64),
    /// A receiver listens on these.
    Listening(Vec<String>),
    /// The daemon is asked to stop.
    Stop,
}

/// What an [`Event`] says.
#[verifier::ext_equal]
pub enum EventView {
    Done,
    Failed(Seq<char>),
    PidFile(Option<Seq<char>>),
    Alive(bool),
    Loaded(u64),
    Listening(Seq<Seq<char>>),
    Stop,
}

impl View for Event {
    type V = EventView;

    open spec fn view(&self) -> EventView {
        match self {
            Event::Done => EventView::Done,
            Event::Failed(e) => EventView::Failed(e@),
            Event::PidFile(c) => EventView::PidFile(text::optional_text(*c)),
            Event::Alive(b) => EventView::Alive(*b),
            Event::Loaded(n) => EventView::Loaded(*n),
            Event::Listening(l) => EventView::Listening(text_views(l@)),
            Event::Stop => EventView::Stop,
        }
    }
}

/// What is to be done next.
#[derive(Debug)]
pub enum Action {
    CreateDir,
    ReadPid,
    AskAlive(u32),
    /// Remove the pid file and the socket of a run that is over.
    RemoveStale,
    LoadState,
    /// Save the state, with this block of seqs.
    SaveState(u64),
    BindGelf(GelfReceiverConfig),
    BindOtlp(OtlpReceiverConfig),
    /// Tell whoever waits for a collector.
    Announce(&'static str),
    WritePid,
    /// Bind the socket for clients.
    BindSocket,
    Serve,
    /// Drop the connections that are still open, so that stopping disconnects
    /// the clients.
    DropConnections,
    /// Remove the socket and the pid file.
    Clean,
    Exit,
    /// Give up.
    Abort(String),
}

/// What an [`Action`] asks for.
#[verifier::ext_equal]
pub enum ActionView {
    CreateDir,
    ReadPid,
    AskAlive(u32),
    RemoveStale,
    LoadState,
    SaveState(u64),
    BindGelf { udp: Seq<char>, tcp: Seq<char> },
    BindOtlp { grpc: Seq<char>, http: Seq<char> },
    Announce(Seq<char>),
    WritePid,
    BindSocket,
    Serve,
    DropConnections,
    Clean,
    Exit,
    Abort(Seq<char>),
}

impl View for Action {
    type V = ActionView;

    open spec fn view(&self) -> ActionView {
        match self {
            Action::CreateDir => ActionView::CreateDir,
            Action::ReadPid => ActionView::ReadPid,
            Action::AskAlive(pid) => ActionView::AskAlive(*pid),
            Action::RemoveStale => ActionView::RemoveStale,
            Action::LoadState => ActionView::LoadState,
            Action::SaveState(n) => ActionView::SaveState(*n),
            Action::BindGelf(c) => ActionView::BindGelf { udp: c.udp_addr@, tcp: c.tcp_addr@ },
            Action::BindOtlp(c) => ActionView::BindOtlp { grpc: c.grpc_addr@, http: c.http_addr@ },
            Action::Announce(s) => ActionView::Announce(s@),
            Action::WritePid => ActionView::WritePid,
            Action::BindSocket => ActionView::BindSocket,
            Action::Serve => ActionView::Serve,
            Action::DropConnections => ActionView::DropConnections,
            Action::Clean => ActionView::Clean,
            Action::Exit => ActionView::Exit,
            Action::Abort(e) => ActionView::Abort(e@),
        }
    }
}

/// The daemon, as far as the order of its steps goes.
#[derive(Debug)]
pub struct Daemon {
    pub phase: Phase,
    pub listeners: Listeners,
    /// The records come from elsewhere, and no receiver is started.
    pub injected: bool,
    /// The seq before the first that is handed out.
    pub initial_seq: u64,
    /// What the receivers listen on.
    pub listening: Vec<String>,
}

/// What a [`Daemon`] holds.
#[verifier::ext_equal]
pub struct DaemonView {
    pub phase: Phase,
    pub listeners: Listeners,
    pub injected: bool,
    pub initial_seq: u64,
    pub listening: Seq<Seq<char>>,
}

impl View for Daemon {
    type V = DaemonView;

    open spec fn view(&self) -> DaemonView {
        DaemonView {
            phase: self.phase,
            listeners: self.listeners,
            injected: self.injected,
            initial_seq: self.initial_seq,
            listening: text_views(self.listening@),
        }
    }
}

impl DaemonView {
    /// The block of seqs behind the one in use can be named.
    pub open spec fn wf(self) -> bool {
        reserved(self.initial_seq) <= u64::MAX
    }

    /// Whether an event is one of those that the daemon waits for.
    pub open spec fn expects(self, e: EventView) -> bool {
        match self.phase {
            Phase::CreatingDir => e is Done || e is Failed,
            Phase::ReadingPid => e is PidFile,
            Phase::AskingAlive { .. } => e is Alive,
            Phase::RemovingStale => e is Done || e is Failed,
            Phase::LoadingState => e is Failed || (e is Loaded && reserved(e->Loaded_0) <= u64::MAX),
            Phase::Reserving => e is Done || e is Failed,
            Phase::BindingGelf | Phase::BindingOtlp => e is Listening || e is Failed,
            Phase::Announcing => e is Done || e is Failed,
            Phase::WritingPid => e is Done || e is Failed,
            Phase::Binding => e is Done || e is Failed,
            Phase::Serving => e is Stop,
            Phase::Disconnecting => e is Done,
            Phase::Retiring => e is Done || e is Failed,
            Phase::Saving => e is Done || e is Failed,
            Phase::Cleaning => e is Done || e is Failed,
            Phase::Stopped => false,
        }
    }

    /// The daemon in another phase.
    pub open spec fn at(self, phase: Phase) -> DaemonView {
        DaemonView { phase, ..self }
    }

    /// What follows once OTLP listens or is not to.
    pub open spec fn received(self, listening: Seq<Seq<char>>) -> DaemonView {
        DaemonView { listening: self.listening + listening, ..self }
    }
}

/// The refusal to run beside another daemon.
pub open spec fn already_running(pid: u32) -> Seq<char> {
    "another broker is already running (pid "@ + decimal_text(pid as nat) + "); abort"@
}

/// What follows an event.
pub open spec fn next(d: DaemonView, e: EventView) -> (DaemonView, ActionView) {
    match (d.phase, e) {
        (Phase::CreatingDir, EventView::Done) => (d.at(Phase::ReadingPid), ActionView::ReadPid),
        (Phase::ReadingPid, EventView::PidFile(None)) => (
            d.at(Phase::LoadingState),
            ActionView::LoadState,
        ),
        (Phase::ReadingPid, EventView::PidFile(Some(contents))) => match pid_of(contents) {
            Some(pid) => (d.at(Phase::AskingAlive { pid }), ActionView::AskAlive(pid)),
            None => (d.at(Phase::RemovingStale), ActionView::RemoveStale),
        },
        (Phase::AskingAlive { pid }, EventView::Alive(alive)) => if alive {
            (d.at(Phase::Stopped), ActionView::Abort(already_running(pid)))
        } else {
            (d.at(Phase::RemovingStale), ActionView::RemoveStale)
        },
        (Phase::RemovingStale, _) => (d.at(Phase::LoadingState), ActionView::LoadState),
        (Phase::LoadingState, EventView::Loaded(n)) => (
            DaemonView { initial_seq: n, phase: Phase::Reserving, ..d },
            ActionView::SaveState(reserved(n) as u64),
        ),
        (Phase::Reserving, EventView::Done) => if d.injected {
            (d.at(Phase::WritingPid), ActionView::WritePid)
        } else {
            (
                d.at(Phase::BindingGelf),
                ActionView::BindGelf {
                    udp: address_of(d.listeners.gelf_udp),
                    tcp: address_of(d.listeners.gelf_tcp),
                },
            )
        },
        (Phase::BindingGelf, EventView::Listening(on)) => match d.listeners.otlp {
            Some((grpc, http)) => (
                d.received(on).at(Phase::BindingOtlp),
                ActionView::BindOtlp { grpc: address_of(grpc), http: address_of(http) },
            ),
            None => (d.received(on).at(Phase::WritingPid), ActionView::WritePid),
        },
        (Phase::BindingOtlp, EventView::Listening(on)) => (
            d.received(on).at(Phase::Announcing),
            ActionView::Announce("OTEL:ONLINE\n"@),
        ),
        (Phase::Announcing, _) => (d.at(Phase::WritingPid), ActionView::WritePid),
        (Phase::WritingPid, EventView::Done) => (d.at(Phase::Binding), ActionView::BindSocket),
        (Phase::Binding, EventView::Done) => (d.at(Phase::Serving), ActionView::Serve),
        (Phase::Serving, _) => (d.at(Phase::Disconnecting), ActionView::DropConnections),
        (Phase::Disconnecting, _) => (
            d.at(Phase::Retiring),
            ActionView::Announce("OTEL:OFFLINE\n"@),
        ),
        (Phase::Retiring, _) => (
            d.at(Phase::Saving),
            ActionView::SaveState(reserved(d.initial_seq) as u64),
        ),
        (Phase::Saving, _) => (d.at(Phase::Cleaning), ActionView::Clean),
        (Phase::Cleaning, _) => (d.at(Phase::Stopped), ActionView::Exit),
        (_, EventView::Failed(why)) => (d.at(Phase::Stopped), ActionView::Abort(why)),
        _ => (d.at(Phase::Stopped), ActionView::Exit),
    }
}

/// The daemon as it is started.
pub open spec fn started(listeners: Listeners, injected: bool) -> DaemonView {
    DaemonView {
        phase: Phase::CreatingDir,
        listeners,
        injected,
        initial_seq: 0,
        listening: seq![],
    }
}

impl Daemon {
    /// The daemon as it is started, and what it does first.
    pub fn start(config: &DaemonConfig, injected: bool) -> (r: (Daemon, Action))
        ensures
            r.0@.wf(),
            r.0@ == started(configured(*config), injected),
            r.1@ == ActionView::CreateDir,
    {
        let d = Daemon {
            phase: Phase::CreatingDir,
            listeners: listeners(config),
            injected,
            initial_seq: 0,
            listening: Vec::new(),
        };
        proof {
            assert(text_views(d.listening@) =~= seq![]);
        }
        (d, Action::CreateDir)
    }

    fn go(&mut self, phase: Phase, action: Action) -> (r: Action)
        ensures
            final(self)@ == old(self)@.at(phase),
            r == action,
    {
        self.phase = phase;
        action
    }

    fn note(&mut self, on: Vec<String>)
        ensures
            final(self)@ == old(self)@.received(text_views(on@)),
    {
        let ghost before = self.listening@;
        let mut i: usize = 0;
        proof {
            assert(text_views(on@).take(0) =~= seq![]);
            assert(text_views(before) + Seq::<Seq<char>>::empty() =~= text_views(before));
        }
        while i < on.len()
            invariant
                i <= on@.len(),
                self.phase == old(self).phase,
                self.listeners == old(self).listeners,
                self.injected == old(self).injected,
                self.initial_seq == old(self).initial_seq,
                before == old(self).listening@,
                text_views(self.listening@) == text_views(before) + text_views(on@).take(i as int),
            decreases on@.len() - i,
        {
            let ghost here = self.listening@;
            self.listening.push(on[i].clone());
            proof {
                assert(text_views(self.listening@) =~= text_views(here).push(on@[i as int]@));
                assert(text_views(on@).take(i + 1) =~= text_views(on@).take(i as int).push(
                    on@[i as int]@,
                ));
                assert(text_views(self.listening@) =~= text_views(before) + text_views(on@).take(
                    i + 1,
                ));
            }
            i += 1;
        }
        proof {
            assert(text_views(on@).take(on@.len() as int) =~= text_views(on@));
        }
    }

    /// What follows an event.
    ///
    /// A pid file whose process is alive belongs to another daemon, and nothing
    /// of it is touched. Any other is a leftover and is removed, together with
    /// the socket that nobody owns. The next block of seqs is saved before a
    /// receiver is started, so that a run that ends badly has taken no seq that
    /// the next one hands out.
    pub fn step(&mut self, event: Event) -> (r: Action)
        requires
            old(self)@.wf(),
            old(self)@.expects(event@),
        ensures
            final(self)@.wf(),
            (final(self)@, r@) == next(old(self)@, event@),
    {
        match self.phase {
            Phase::CreatingDir => match event {
                Event::Failed(why) => self.go(Phase::Stopped, Action::Abort(why)),
                _ => self.go(Phase::ReadingPid, Action::ReadPid),
            },
            Phase::ReadingPid => match event {
                Event::PidFile(Some(contents)) => match recorded_pid(&contents) {
                    Some(pid) => self.go(Phase::AskingAlive { pid }, Action::AskAlive(pid)),
                    None => self.go(Phase::RemovingStale, Action::RemoveStale),
                },
                _ => self.go(Phase::LoadingState, Action::LoadState),
            },
            Phase::AskingAlive { pid } => match event {
                Event::Alive(true) => {
                    let why = text::join3(
                        "another broker is already running (pid ",
                        &text::decimal(pid as u64),
                        "); abort",
                    );
                    self.go(Phase::Stopped, Action::Abort(why))
                },
                _ => self.go(Phase::RemovingStale, Action::RemoveStale),
            },
            Phase::RemovingStale => self.go(Phase::LoadingState, Action::LoadState),
            Phase::LoadingState => match event {
                Event::Loaded(n) => {
                    self.initial_seq = n;
                    self.go(Phase::Reserving, Action::SaveState(n + SEQ_BLOCK_SIZE))
                },
                Event::Failed(why) => self.go(Phase::Stopped, Action::Abort(why)),
                _ => self.go(Phase::Stopped, Action::Exit),
            },
            Phase::Reserving => match event {
                Event::Failed(why) => self.go(Phase::Stopped, Action::Abort(why)),
                _ => if self.injected {
                    self.go(Phase::WritingPid, Action::WritePid)
                } else {
                    let config = GelfReceiverConfig {
                        udp_addr: address(self.listeners.gelf_udp),
                        tcp_addr: address(self.listeners.gelf_tcp),
                    };
                    self.go(Phase::BindingGelf, Action::BindGelf(config))
                },
            },
            Phase::BindingGelf => match event {
                Event::Listening(on) => {
                    self.note(on);
                    match self.listeners.otlp {
                        Some((grpc, http)) => {
                            let config = OtlpReceiverConfig {
                                grpc_addr: address(grpc),
                                http_addr: address(http),
                            };
                            self.go(Phase::BindingOtlp, Action::BindOtlp(config))
                        },
                        None => self.go(Phase::WritingPid, Action::WritePid),
                    }
                },
                Event::Failed(why) => self.go(Phase::Stopped, Action::Abort(why)),
                _ => self.go(Phase::Stopped, Action::Exit),
            },
            Phase::BindingOtlp => match event {
                Event::Listening(on) => {
                    self.note(on);
                    self.go(Phase::Announcing, Action::Announce("OTEL:ONLINE\n"))
                },
                Event::Failed(why) => self.go(Phase::Stopped, Action::Abort(why)),
                _ => self.go(Phase::Stopped, Action::Exit),
            },
            Phase::Announcing => self.go(Phase::WritingPid, Action::WritePid),
            Phase::WritingPid => match event {
                Event::Failed(why) => self.go(Phase::Stopped, Action::Abort(why)),
                _ => self.go(Phase::Binding, Action::BindSocket),
            },
            Phase::Binding => match event {
                Event::Failed(why) => self.go(Phase::Stopped, Action::Abort(why)),
                _ => self.go(Phase::Serving, Action::Serve),
            },
            Phase::Serving => self.go(Phase::Disconnecting, Action::DropConnections),
            Phase::Disconnecting => self.go(Phase::Retiring, Action::Announce("OTEL:OFFLINE\n")),
            Phase::Retiring => {
                let block: u64 = self.initial_seq + SEQ_BLOCK_SIZE;
                self.go(Phase::Saving, Action::SaveState(block))
            },
            Phase::Saving => self.go(Phase::Cleaning, Action::Clean),
            Phase::Cleaning => self.go(Phase::Stopped, Action::Exit),
            Phase::Stopped => self.go(Phase::Stopped, Action::Exit),
        }
    }
}

/// The daemon after a number of events.
pub open spec fn after_events(d: DaemonView, events: Seq<EventView>) -> DaemonView
    decreases events.len(),
{
    if events.len() == 0 {
        d
    } else {
        next(after_events(d, events.drop_last()), events.last()).0
    }
}

/// What the daemon has done after a number of events.
pub open spec fn done_so_far(d: DaemonView, events: Seq<EventView>) -> Seq<ActionView>
    decreases events.len(),
{
    if events.len() == 0 {
        seq![ActionView::CreateDir]
    } else {
        done_so_far(d, events.drop_last()).push(
            next(after_events(d, events.drop_last()), events.last()).1,
        )
    }
}

/// Whether each event was one that the daemon waited for.
pub open spec fn orderly(d: DaemonView, events: Seq<EventView>) -> bool
    decreases events.len(),
{
    events.len() == 0 || (orderly(d, events.drop_last()) && after_events(
        d,
        events.drop_last(),
    ).expects(events.last()))
}

/// Whether a step lets records in or clients.
pub open spec fn opens_up(a: ActionView) -> bool {
    a is BindGelf || a is BindOtlp || a is BindSocket || a is Serve
}

/// Whether a step touches what another daemon may own.
pub open spec fn takes_over(a: ActionView) -> bool {
    a is RemoveStale || a is SaveState || a is WritePid || a is BindSocket || a is Clean
}

spec fn is_early(phase: Phase) -> bool {
    match phase {
        Phase::CreatingDir | Phase::ReadingPid | Phase::AskingAlive { .. } => true,
        _ => false,
    }
}

spec fn is_late(phase: Phase) -> bool {
    match phase {
        Phase::CreatingDir | Phase::ReadingPid | Phase::AskingAlive { .. } | Phase::RemovingStale
        | Phase::LoadingState | Phase::Stopped => false,
        _ => true,
    }
}

proof fn lemma_early_steps_are_harmless(d: DaemonView, events: Seq<EventView>)
    requires
        d.phase == Phase::CreatingDir,
        orderly(d, events),
        is_early(after_events(d, events).phase),
    ensures
        forall|i: int|
            0 <= i < done_so_far(d, events).len() ==> !takes_over(#[trigger] done_so_far(d, events)[i]),
    decreases events.len(),
{
    if events.len() > 0 {
        let rest = events.drop_last();
        assert(is_early(after_events(d, rest).phase));
        lemma_early_steps_are_harmless(d, rest);
        lemma_earlier_steps_stay(d, events);
    }
}

proof fn lemma_earlier_steps_stay(d: DaemonView, events: Seq<EventView>)
    requires
        events.len() > 0,
    ensures
        ({
            let done = done_so_far(d, events);
            let earlier = done_so_far(d, events.drop_last());
            &&& done.len() == earlier.len() + 1
            &&& forall|i: int| 0 <= i < earlier.len() ==> #[trigger] done[i] == earlier[i]
            &&& done.last() == next(after_events(d, events.drop_last()), events.last()).1
        }),
{
}

/// A daemon that finds another one alive gives up, and has touched nothing that
/// the other owns.
pub proof fn a_live_daemon_is_left_alone(
    listeners: Listeners,
    injected: bool,
    events: Seq<EventView>,
)
    requires
        orderly(started(listeners, injected), events),
        events.len() > 0,
        events.last() == EventView::Alive(true),
    ensures
        after_events(started(listeners, injected), events).phase == Phase::Stopped,
        forall|i: int|
            0 <= i < done_so_far(started(listeners, injected), events).len() ==> !takes_over(
                #[trigger] done_so_far(started(listeners, injected), events)[i],
            ),
{
    let d = started(listeners, injected);
    let rest = events.drop_last();
    assert(is_early(after_events(d, rest).phase));
    lemma_early_steps_are_harmless(d, rest);
    lemma_earlier_steps_stay(d, events);
}

proof fn lemma_reserved_first(d: DaemonView, events: Seq<EventView>)
    requires
        d.phase == Phase::CreatingDir,
        orderly(d, events),
    ensures
        ({
            let now = after_events(d, events);
            let done = done_so_far(d, events);
            let saved = ActionView::SaveState(reserved(now.initial_seq) as u64);
            &&& is_late(now.phase) ==> exists|j: int| 0 <= j < done.len() && #[trigger] done[j] == saved
            &&& forall|i: int|
                0 <= i < done.len() && opens_up(#[trigger] done[i]) ==> exists|j: int|
                    0 <= j < i && #[trigger] done[j] == saved
        }),
    decreases events.len(),
{
    if events.len() > 0 {
        let rest = events.drop_last();
        lemma_reserved_first(d, rest);
        let before = after_events(d, rest);
        let now = after_events(d, events);
        let done = done_so_far(d, events);
        let earlier = done_so_far(d, rest);
        let last = done.len() - 1;
        let saved = ActionView::SaveState(reserved(now.initial_seq) as u64);
        if !is_late(before.phase) && before.phase != Phase::Stopped {
            lemma_nothing_opens_before_loading(d, rest);
        }
        lemma_earlier_steps_stay(d, events);
        if is_late(now.phase) {
            if before.phase == Phase::LoadingState {
                assert(done[last] == saved);
            } else {
                let j = choose|j: int| 0 <= j < earlier.len() && #[trigger] earlier[j] == saved;
                assert(done[j] == saved);
            }
        }
        assert forall|i: int| 0 <= i < done.len() && opens_up(#[trigger] done[i]) implies exists|j: int|
            0 <= j < i && #[trigger] done[j] == saved by {
            if i < last {
                assert(opens_up(earlier[i]));
                assert(now.initial_seq == before.initial_seq);
                let j = choose|j: int| 0 <= j < i && #[trigger] earlier[j] == saved;
                assert(done[j] == saved);
            } else {
                assert(is_late(before.phase));
                let j = choose|j: int| 0 <= j < earlier.len() && #[trigger] earlier[j] == saved;
                assert(done[j] == saved);
            }
        }
    }
}

proof fn lemma_nothing_opens_before_loading(d: DaemonView, events: Seq<EventView>)
    requires
        d.phase == Phase::CreatingDir,
        orderly(d, events),
        !is_late(after_events(d, events).phase),
        after_events(d, events).phase != Phase::Stopped,
    ensures
        forall|i: int|
            0 <= i < done_so_far(d, events).len() ==> !opens_up(#[trigger] done_so_far(d, events)[i]),
    decreases events.len(),
{
    if events.len() > 0 {
        lemma_nothing_opens_before_loading(d, events.drop_last());
        lemma_earlier_steps_stay(d, events);
    }
}

/// No record is let in and no client served before the next block of seqs has
/// been saved.
pub proof fn seqs_are_reserved_first(
    listeners: Listeners,
    injected: bool,
    events: Seq<EventView>,
    i: int,
)
    requires
        orderly(started(listeners, injected), events),
        0 <= i < done_so_far(started(listeners, injected), events).len(),
        opens_up(done_so_far(started(listeners, injected), events)[i]),
    ensures
        exists|j: int|
            0 <= j < i && #[trigger] done_so_far(started(listeners, injected), events)[j]
                == ActionView::SaveState(
                reserved(after_events(started(listeners, injected), events).initial_seq) as u64,
            ),
{
    lemma_reserved_first(started(listeners, injected), events);
}

spec fn is_unread(phase: Phase) -> bool {
    is_early(phase) || phase == Phase::RemovingStale || phase == Phase::LoadingState
}

proof fn lemma_saved_blocks(d: DaemonView, events: Seq<EventView>)
    requires
        d.phase == Phase::CreatingDir,
        orderly(d, events),
    ensures
        ({
            let now = after_events(d, events);
            let done = done_so_far(d, events);
            &&& is_unread(now.phase) ==> forall|i: int|
                0 <= i < done.len() ==> !(#[trigger] done[i] is SaveState)
            &&& forall|i: int|
                0 <= i < done.len() && (#[trigger] done[i] is SaveState) ==> done[i]->SaveState_0
                    == reserved(now.initial_seq)
        }),
    decreases events.len(),
{
    if events.len() > 0 {
        let rest = events.drop_last();
        lemma_saved_blocks(d, rest);
        lemma_earlier_steps_stay(d, events);
        lemma_block_fits(d, rest);
        let before = after_events(d, rest);
        let now = after_events(d, events);
        let done = done_so_far(d, events);
        let earlier = done_so_far(d, rest);
        assert forall|i: int| 0 <= i < done.len() && (#[trigger] done[i] is SaveState) implies done[i]->SaveState_0
            == reserved(now.initial_seq) by {
            if i < earlier.len() {
                assert(earlier[i] is SaveState);
            }
        }
        assert forall|i: int| is_unread(now.phase) && 0 <= i < done.len() implies !(
        #[trigger] done[i] is SaveState) by {
            assert(is_unread(before.phase));
            if i < earlier.len() {
                assert(!(earlier[i] is SaveState));
            }
        }
    }
}

proof fn lemma_block_fits(d: DaemonView, events: Seq<EventView>)
    requires
        d.phase == Phase::CreatingDir,
        orderly(d, events),
    ensures
        !is_unread(after_events(d, events).phase) && after_events(d, events).phase
            != Phase::Stopped ==> after_events(d, events).wf(),
    decreases events.len(),
{
    if events.len() > 0 {
        lemma_block_fits(d, events.drop_last());
    }
}

/// A run hands out no seq that the run before it did, as long as that one handed
/// out no more than a block: whatever block the one has saved, its `n`th seq lies
/// below the `m`th of a run that begins there.
pub proof fn restarts_do_not_reuse_seqs(
    listeners: Listeners,
    injected: bool,
    events: Seq<EventView>,
    i: int,
    n: nat,
    m: nat,
)
    requires
        orderly(started(listeners, injected), events),
        0 <= i < done_so_far(started(listeners, injected), events).len(),
        done_so_far(started(listeners, injected), events)[i] is SaveState,
        n <= SEQ_BLOCK_SIZE,
        m > 0,
    ensures
        after_events(started(listeners, injected), events).initial_seq + n < done_so_far(
            started(listeners, injected),
            events,
        )[i]->SaveState_0 + m,
{
    lemma_saved_blocks(started(listeners, injected), events);
}

/// The pid that a daemon writes is the pid that the next one reads, white space around it
/// or not.
pub proof fn pids_are_read_back(pid: u32)
    ensures
        pid_of(decimal_text(pid as nat)) == Some(pid),
        pid_of(decimal_text(pid as nat).push('\n')) == Some(pid),
{
    let t = decimal_text(pid as nat);
    text::decimal_parses_back(pid as u64);
    text::decimal_reads_back(pid as nat);
    assert(text::is_digit(t[0]) && text::is_digit(t.last()));
    text::trimmed_texts_stay(t);
    let longer = t.push('\n');
    assert(longer[0] == t[0]);
    assert(longer.drop_last() =~= t);
    reveal_with_fuel(text::trimmed_end, 3);
    reveal_with_fuel(text::trimmed_start, 2);
    assert(trimmed(longer) =~= t);
}

/// Each GELF listener has its own port where it is given one, and otherwise shares theirs;
/// OTLP listens unless both of its ports are 0.
pub proof fn listeners_are_configured(config: DaemonConfig)
    ensures
        ({
            let l = configured(config);
            &&& config.gelf_udp_port matches Some(p) ==> l.gelf_udp == p
            &&& config.gelf_udp_port is None ==> l.gelf_udp == config.gelf_port
            &&& config.gelf_tcp_port matches Some(p) ==> l.gelf_tcp == p
            &&& config.gelf_tcp_port is None ==> l.gelf_tcp == config.gelf_port
            &&& l.otlp is None <==> config.otlp_grpc_port == 0 && config.otlp_http_port == 0
            &&& l.otlp matches Some((grpc, http)) ==> grpc == config.otlp_grpc_port && http
                == config.otlp_http_port
        }),
{
}

/// What a daemon that is gone left behind is taken away; one that lives is not disturbed.
pub proof fn only_dead_daemons_are_replaced(d: DaemonView, contents: Seq<char>, pid: u32)
    requires
        d.phase == Phase::ReadingPid,
    ensures
        ({
            let read = next(d, EventView::PidFile(Some(contents)));
            pid_of(contents) == Some(pid) ==> {
                &&& read.1 == ActionView::AskAlive(pid)
                &&& next(read.0, EventView::Alive(false)).1 == ActionView::RemoveStale
                &&& next(read.0, EventView::Alive(true)).1 is Abort
                &&& next(read.0, EventView::Alive(true)).0.phase == Phase::Stopped
            }
        }),
        pid_of(contents) is None ==> next(d, EventView::PidFile(Some(contents))).1
            == ActionView::RemoveStale,
        next(d, EventView::PidFile(None)).1 == ActionView::LoadState,
{
}

/// A daemon reserves its seqs beyond those that were given out, binds where it is
/// configured to, tells that it listens, and only then writes its pid, binds its socket and
/// serves.
pub proof fn daemons_start_in_order(
    d: DaemonView,
    n: u64,
    gelf: Seq<Seq<char>>,
    otlp: Seq<Seq<char>>,
    told: EventView,
)
    requires
        d.phase == Phase::LoadingState,
        !d.injected,
        n + 1000 <= u64::MAX,
    ensures
        ({
            let loaded = next(d, EventView::Loaded(n));
            let kept = next(loaded.0, EventView::Done);
            let listening = next(kept.0, EventView::Listening(gelf));
            &&& loaded.1 == ActionView::SaveState((n + 1000) as u64)
            &&& loaded.0.initial_seq == n
            &&& kept.1 == ActionView::BindGelf {
                udp: "0.0.0.0:"@ + decimal_text(d.listeners.gelf_udp as nat),
                tcp: "0.0.0.0:"@ + decimal_text(d.listeners.gelf_tcp as nat),
            }
            &&& d.listeners.otlp is None ==> {
                &&& listening.1 == ActionView::WritePid
                &&& listening.0.listening == d.listening + gelf
            }
            &&& d.listeners.otlp matches Some((grpc, http)) ==> {
                let both = next(listening.0, EventView::Listening(otlp));
                let announced = next(both.0, told);
                let written = next(announced.0, EventView::Done);
                let bound = next(written.0, EventView::Done);
                &&& listening.1 == ActionView::BindOtlp {
                    grpc: "0.0.0.0:"@ + decimal_text(grpc as nat),
                    http: "0.0.0.0:"@ + decimal_text(http as nat),
                }
                &&& both.1 == ActionView::Announce("OTEL:ONLINE\n"@)
                &&& both.0.listening == d.listening + gelf + otlp
                &&& announced.1 == ActionView::WritePid
                &&& written.1 == ActionView::BindSocket
                &&& bound.1 == ActionView::Serve
                &&& bound.0.initial_seq == n
            }
        }),
{
}

/// A daemon stops in order, whatever fails on the way: it drops its connections, tells that
/// it is gone, keeps where the next one is to begin, and clears what it left.
pub proof fn daemons_stop_in_order(
    d: DaemonView,
    stop: EventView,
    dropped: EventView,
    told: EventView,
    saved: EventView,
    cleared: EventView,
)
    requires
        d.phase == Phase::Serving,
        d.initial_seq + 1000 <= u64::MAX,
    ensures
        ({
            let a = next(d, stop);
            let b = next(a.0, dropped);
            let c = next(b.0, told);
            let e = next(c.0, saved);
            let f = next(e.0, cleared);
            &&& a.1 == ActionView::DropConnections
            &&& b.1 == ActionView::Announce("OTEL:OFFLINE\n"@)
            &&& c.1 == ActionView::SaveState((d.initial_seq + 1000) as u64)
            &&& e.1 == ActionView::Clean
            &&& f.1 == ActionView::Exit
            &&& f.0.phase == Phase::Stopped
        }),
{
}

/// What fails while a daemon starts ends it, and it says why; only what a dead daemon left
/// behind and who listens to announcements do not matter.
pub proof fn failed_starts_say_why(d: DaemonView, why: Seq<char>)
    ensures
        d.phase == Phase::CreatingDir || d.phase == Phase::LoadingState || d.phase
            == Phase::Reserving || d.phase == Phase::BindingGelf || d.phase == Phase::BindingOtlp
            || d.phase == Phase::WritingPid || d.phase == Phase::Binding ==> {
            &&& next(d, EventView::Failed(why)).1 == ActionView::Abort(why)
            &&& next(d, EventView::Failed(why)).0.phase == Phase::Stopped
        },
        d.phase == Phase::RemovingStale || d.phase == Phase::Announcing ==> next(
            d,
            EventView::Failed(why),
        ) == next(d, EventView::Done),
{
}

} // verus!
