//! What a driver does with received datagrams, events, errors and timers.
//!
//! A driver waits for one of five things: a datagram, a request of the
//! application, the end of a retransmission delay, the periodic tick, or the
//! cover deadline. These machines decide what follows: what is sent, what the
//! application is told, which timers are set anew, and when the driver stops.
//! Timers are set anew only when a decision says so, so that traffic cannot
//! postpone them.
use crate::codec::{WirePacket, SESSION_ID_LEN};
use crate::error::CodecError;
use crate::handshake_v2::fragment::datagrams;
use crate::handshake_v2::outcome::HandshakeV2Error;
use crate::handshake_v2::run::RecvVerdict;
use crate::net::PeerAddr;
use crate::scheduler::{CoverPolicy, CoverScheduler, ScheduleView};
use crate::session_manager::event::{
    CloseReason, EventView, ManagerError, ManagerEvent, ManagerNotification,
};
use crate::time::{Duration, Instant};
use crate::wire_session::SessionError;
use vstd::prelude::*;

verus! {

/// Seconds between two ticks.
pub const TICK_INTERVAL_SECS: u64 = 1;

/// What a driver has to do.
pub enum Action {
    Nothing,
    /// Send these datagrams, in order.
    Transmit(Vec<WirePacket>, PeerAddr),
    /// Tell the application.
    Notify(ManagerNotification),
    /// Client: tell the application, then start a fresh handshake.
    Restart(ManagerNotification),
}

/// What a notification says.
pub enum NoteView {
    Established([u8; SESSION_ID_LEN], PeerAddr),
    Ready([u8; SESSION_ID_LEN]),
    Data([u8; SESSION_ID_LEN], Seq<u8>),
    Closed([u8; SESSION_ID_LEN], CloseReason),
}

impl View for ManagerNotification {
    type V = NoteView;

    open spec fn view(&self) -> NoteView {
        match *self {
            ManagerNotification::Established { sid, peer } => NoteView::Established(sid, peer),
            ManagerNotification::Ready { sid } => NoteView::Ready(sid),
            ManagerNotification::Data { sid, inner } => NoteView::Data(sid, inner.encoding()),
            ManagerNotification::Closed { sid, reason } => NoteView::Closed(sid, reason),
        }
    }
}

/// What an action says.
pub enum ActionView {
    Nothing,
    Transmit(Seq<Seq<u8>>, PeerAddr),
    Notify(NoteView),
    Restart(NoteView),
}

impl View for Action {
    type V = ActionView;

    open spec fn view(&self) -> ActionView {
        match *self {
            Action::Nothing => ActionView::Nothing,
            Action::Transmit(packets, peer) => ActionView::Transmit(datagrams(packets@), peer),
            Action::Notify(n) => ActionView::Notify(n@),
            Action::Restart(n) => ActionView::Restart(n@),
        }
    }
}

/// An action, and the timers that are set anew after it.
pub struct Decision {
    pub action: Action,
    /// The cover timer is set to the schedule's next deadline.
    pub cover: bool,
    /// The retransmission timer is set to the manager's current delay.
    pub retransmit: bool,
}

impl Decision {
    pub open spec fn calls_for(self, action: ActionView, cover: bool, retransmit: bool) -> bool {
        self.action@ == action && self.cover == cover && self.retransmit == retransmit
    }
}

/// What a server does with an event.
pub open spec fn server_reaction(e: EventView) -> ActionView {
    match e {
        EventView::Send(d, peer) => ActionView::Transmit(d, peer),
        EventView::SendPacket(p, peer) => ActionView::Transmit(seq![p], peer),
        EventView::Established(sid, peer) => ActionView::Notify(NoteView::Established(sid, peer)),
        EventView::AppData(sid, pt) => ActionView::Notify(NoteView::Data(sid, pt)),
        EventView::Closed(sid, reason) => ActionView::Notify(NoteView::Closed(sid, reason)),
        EventView::Nothing => ActionView::Nothing,
    }
}

/// What a client does with an event: every closure leads to a fresh handshake.
pub open spec fn client_reaction(e: EventView) -> ActionView {
    match e {
        EventView::Send(d, peer) => ActionView::Transmit(d, peer),
        EventView::SendPacket(p, peer) => ActionView::Transmit(seq![p], peer),
        EventView::AppData(sid, pt) => ActionView::Notify(NoteView::Data(sid, pt)),
        EventView::Closed(sid, reason) => ActionView::Restart(NoteView::Closed(sid, reason)),
        EventView::Established(..) | EventView::Nothing => ActionView::Nothing,
    }
}

/// A failed request of the application that only concerns the application:
/// there is no such session, or the payload is too long for its slot.
pub open spec fn benign(e: ManagerError) -> bool {
    ||| e is NoSession
    ||| e matches ManagerError::Session(SessionError::Codec(c)) && c is WrongLength
}

fn is_benign(e: &ManagerError) -> (r: bool)
    ensures
        r == benign(*e),
{
    match e {
        ManagerError::NoSession => true,
        ManagerError::Session(SessionError::Codec(CodecError::WrongLength { .. })) => true,
        _ => false,
    }
}

fn single(packet: WirePacket) -> (r: Vec<WirePacket>)
    ensures
        datagrams(r@) == seq![packet@],
{
    let mut packets: Vec<WirePacket> = Vec::new();
    packets.push(packet);
    assert(datagrams(packets@) =~= seq![packet@]);
    packets
}

/// Decisions of a server driver.
pub struct ServerDriver {
    cover: CoverScheduler,
    reset_noticed: bool,
}

/// What a server driver holds.
pub struct ServerDriverView {
    pub cover: ScheduleView,
    /// The current episode of resets was logged.
    pub reset_noticed: bool,
}

impl View for ServerDriver {
    type V = ServerDriverView;

    closed spec fn view(&self) -> ServerDriverView {
        ServerDriverView { cover: self.cover@, reset_noticed: self.reset_noticed }
    }
}

impl ServerDriverView {
    /// The driver after an event: cover starts with the first session.
    pub open spec fn after(self, e: EventView, now: Instant) -> Self {
        match e {
            EventView::Established(..) => ServerDriverView {
                cover: self.cover.started(now),
                ..self
            },
            _ => self,
        }
    }

    /// The driver after a failed receive.
    pub open spec fn after_error(self, e: HandshakeV2Error) -> Self {
        ServerDriverView { reset_noticed: self.reset_noticed || e is TransportReset, ..self }
    }

    /// What a failed receive means: one vanished peer never stops a server.
    pub open spec fn verdict(self, e: HandshakeV2Error) -> RecvVerdict {
        match e {
            HandshakeV2Error::DatagramRejected => RecvVerdict::Skip,
            HandshakeV2Error::TransportReset => if self.reset_noticed {
                RecvVerdict::Skip
            } else {
                RecvVerdict::Warn
            },
            _ => RecvVerdict::Stop(e),
        }
    }
}

/// A server survives any number of resets and logs one line per episode: after
/// the first reset the following ones are skipped, until a datagram arrives.
pub proof fn one_warning_per_episode(s: ServerDriverView)
    ensures
        !(s.verdict(HandshakeV2Error::TransportReset) is Stop),
        s.after_error(HandshakeV2Error::TransportReset).verdict(HandshakeV2Error::TransportReset)
            is Skip,
        s.after_error(HandshakeV2Error::TransportReset).after_error(
            HandshakeV2Error::TransportReset,
        ) == s.after_error(HandshakeV2Error::TransportReset),
{
}

/// A server without sessions emits no cover: a new driver is inert, and only an
/// established session starts the schedule.
pub proof fn cover_needs_a_session(s: ServerDriverView, e: EventView, now: Instant)
    requires
        s.cover.next is None,
        !(e is Established),
    ensures
        s.after(e, now).cover.next is None,
        !s.after(e, now).cover.due(now),
{
}

impl ServerDriver {
    /// A driver without sessions.
    pub fn new(cover: CoverPolicy) -> (r: Self)
        ensures
            r@.cover == (ScheduleView { policy: cover, next: None }),
            !r@.reset_noticed,
    {
        ServerDriver { cover: CoverScheduler::new(cover), reset_noticed: false }
    }

    /// When the cover timer has to fire; never, if nothing is scheduled.
    pub fn next_cover(&self) -> (r: Option<Instant>)
        ensures
            match (r, self@.cover.next) {
                (Some(t), Some(n)) => t.nanos() == n,
                (None, None) => true,
                _ => false,
            },
    {
        self.cover.next_deadline()
    }

    /// A receive failed.
    pub fn on_recv_error(&mut self, e: HandshakeV2Error) -> (r: RecvVerdict)
        ensures
            r == old(self)@.verdict(e),
            final(self)@ == old(self)@.after_error(e),
    {
        match e {
            HandshakeV2Error::DatagramRejected => RecvVerdict::Skip,
            HandshakeV2Error::TransportReset => {
                if self.reset_noticed {
                    RecvVerdict::Skip
                } else {
                    self.reset_noticed = true;
                    RecvVerdict::Warn
                }
            },
            _ => RecvVerdict::Stop(e),
        }
    }

    /// A datagram arrived: an episode of resets is over.
    pub fn on_datagram(&mut self)
        ensures
            final(self)@ == (ServerDriverView { reset_noticed: false, ..old(self)@ }),
    {
        self.reset_noticed = false;
    }

    /// The manager gave an event for a datagram.
    pub fn on_event(&mut self, event: ManagerEvent, now: Instant) -> (r: Decision)
        requires
            event@ is Established ==> old(self)@.cover.can_start(now),
        ensures
            final(self)@ == old(self)@.after(event@, now),
            r.calls_for(server_reaction(event@), event@ is Established, false),
    {
        match event {
            ManagerEvent::Send { packets, peer } => plain(Action::Transmit(packets, peer)),
            ManagerEvent::SendPacket { packet, peer } => plain(
                Action::Transmit(single(packet), peer),
            ),
            ManagerEvent::Established { sid, peer } => {
                self.cover.start(now);
                Decision {
                    action: Action::Notify(ManagerNotification::Established { sid, peer }),
                    cover: true,
                    retransmit: false,
                }
            },
            ManagerEvent::AppData { sid, inner } => plain(
                Action::Notify(ManagerNotification::Data { sid, inner }),
            ),
            ManagerEvent::Closed { sid, reason } => plain(
                Action::Notify(ManagerNotification::Closed { sid, reason }),
            ),
            ManagerEvent::Nothing => plain(Action::Nothing),
        }
    }

    /// The manager answered a request of the application. Benign failures are
    /// dropped; any other one stops the driver.
    pub fn on_command(&self, answer: Result<ManagerEvent, ManagerError>) -> (r: Result<
        Decision,
        ManagerError,
    >)
        ensures
            match answer {
                Ok(e) => r matches Ok(d) && d.calls_for(
                    match e@ {
                        EventView::SendPacket(..) | EventView::Closed(..) => server_reaction(e@),
                        _ => ActionView::Nothing,
                    },
                    false,
                    false,
                ),
                Err(x) => if benign(x) {
                    r matches Ok(d) && d.calls_for(ActionView::Nothing, false, false)
                } else {
                    r == Err::<Decision, ManagerError>(x)
                },
            },
    {
        match answer {
            Ok(ManagerEvent::SendPacket { packet, peer }) => Ok(
                plain(Action::Transmit(single(packet), peer)),
            ),
            Ok(ManagerEvent::Closed { sid, reason }) => Ok(
                plain(Action::Notify(ManagerNotification::Closed { sid, reason })),
            ),
            Ok(_) => Ok(plain(Action::Nothing)),
            Err(x) => {
                if is_benign(&x) {
                    Ok(plain(Action::Nothing))
                } else {
                    Err(x)
                }
            },
        }
    }

    /// One event of a tick.
    pub fn on_tick_event(&self, event: ManagerEvent) -> (r: Decision)
        ensures
            r.calls_for(
                match event@ {
                    EventView::Closed(..) => server_reaction(event@),
                    _ => ActionView::Nothing,
                },
                false,
                false,
            ),
    {
        match event {
            ManagerEvent::Closed { sid, reason } => plain(
                Action::Notify(ManagerNotification::Closed { sid, reason }),
            ),
            _ => plain(Action::Nothing),
        }
    }

    /// The cover timer fired: whether every session sends a cover packet now.
    pub fn on_cover_deadline(&mut self, now: Instant) -> (r: bool)
        requires
            old(self)@.cover.due(now) ==> old(self)@.cover.has_room(now),
        ensures
            r == old(self)@.cover.due(now),
            final(self)@ == (ServerDriverView { cover: old(self)@.cover.woken(now), ..old(self)@ }),
    {
        self.cover.on_deadline(now)
    }

    /// One event of a round of cover packets.
    pub fn on_cover_event(&self, event: ManagerEvent) -> (r: Decision)
        ensures
            r.calls_for(
                match event@ {
                    EventView::SendPacket(..) | EventView::Closed(..) => server_reaction(event@),
                    _ => ActionView::Nothing,
                },
                false,
                false,
            ),
    {
        match event {
            ManagerEvent::SendPacket { packet, peer } => plain(
                Action::Transmit(single(packet), peer),
            ),
            ManagerEvent::Closed { sid, reason } => plain(
                Action::Notify(ManagerNotification::Closed { sid, reason }),
            ),
            _ => plain(Action::Nothing),
        }
    }

    /// A round of cover packets is over: without sessions the schedule stops.
    pub fn on_cover_sent(&mut self, sessions: usize)
        ensures
            final(self)@ == if sessions == 0 {
                ServerDriverView { cover: old(self)@.cover.stopped(), ..old(self)@ }
            } else {
                old(self)@
            },
    {
        if sessions == 0 {
            self.cover.stop();
        }
    }
}

fn plain(action: Action) -> (r: Decision)
    ensures
        r.calls_for(action@, false, false),
{
    Decision { action, cover: false, retransmit: false }
}

/// Decisions of a client driver.
pub struct ClientDriver {
    cover: CoverScheduler,
    was_ready: bool,
}

/// What a client driver holds.
pub struct ClientDriverView {
    pub cover: ScheduleView,
    /// The application was told that the session is ready.
    pub was_ready: bool,
}

impl View for ClientDriver {
    type V = ClientDriverView;

    closed spec fn view(&self) -> ClientDriverView {
        ClientDriverView { cover: self.cover@, was_ready: self.was_ready }
    }
}

impl ClientDriverView {
    /// Cover is scheduled only while the session is confirmed.
    pub open spec fn wf(self) -> bool {
        self.cover.next is Some ==> self.was_ready
    }

    /// The driver after an event: a closure ends readiness and cover.
    pub open spec fn after(self, e: EventView) -> Self {
        match e {
            EventView::Closed(..) => ClientDriverView {
                cover: self.cover.stopped(),
                was_ready: false,
            },
            _ => self,
        }
    }

    /// The driver after it looked at the manager's readiness.
    pub open spec fn checked(self, ready: bool, now: Instant) -> Self {
        if ready && !self.was_ready {
            ClientDriverView { cover: self.cover.started(now), was_ready: true }
        } else {
            self
        }
    }
}

/// A client that is not confirmed never emits cover: a new driver, and one
/// whose session has closed, is inert until the next session is ready.
pub proof fn cover_needs_confirmation(
    s: ClientDriverView,
    sid: [u8; SESSION_ID_LEN],
    reason: CloseReason,
    ready: bool,
    now: Instant,
    later: Instant,
)
    requires
        s.wf(),
    ensures
        !s.was_ready ==> !s.cover.due(now),
        !s.after(EventView::Closed(sid, reason)).cover.due(now),
        !s.after(EventView::Closed(sid, reason)).checked(false, now).cover.due(later),
        s.after(EventView::Closed(sid, reason)).wf(),
        s.checked(ready, now).wf(),
        (ClientDriverView { cover: s.cover.woken(now), ..s }).wf(),
{
}

/// The application is told once that a session is ready: looking again changes
/// nothing until the session closes.
pub proof fn ready_is_told_once(s: ClientDriverView, now: Instant, later: Instant)
    ensures
        s.checked(true, now).checked(true, later) == s.checked(true, now),
{
}

impl ClientDriver {
    /// A driver without a session.
    pub fn new(cover: CoverPolicy) -> (r: Self)
        ensures
            r@.cover == (ScheduleView { policy: cover, next: None }),
            !r@.was_ready,
            r@.wf(),
    {
        ClientDriver { cover: CoverScheduler::new(cover), was_ready: false }
    }

    /// When the cover timer has to fire; never, if nothing is scheduled.
    pub fn next_cover(&self) -> (r: Option<Instant>)
        ensures
            match (r, self@.cover.next) {
                (Some(t), Some(n)) => t.nanos() == n,
                (None, None) => true,
                _ => false,
            },
    {
        self.cover.next_deadline()
    }

    /// Looks at the manager's readiness, before every wait.
    pub fn check_ready(
        &mut self,
        ready: bool,
        sid: Option<[u8; SESSION_ID_LEN]>,
        now: Instant,
    ) -> (r: Decision)
        requires
            old(self)@.wf(),
            ready && !old(self)@.was_ready ==> old(self)@.cover.can_start(now),
        ensures
            final(self)@.wf(),
            final(self)@ == old(self)@.checked(ready, now),
            r.calls_for(
                match sid {
                    Some(s) => if ready && !old(self)@.was_ready {
                        ActionView::Notify(NoteView::Ready(s))
                    } else {
                        ActionView::Nothing
                    },
                    None => ActionView::Nothing,
                },
                ready && !old(self)@.was_ready,
                false,
            ),
    {
        if !ready || self.was_ready {
            return plain(Action::Nothing);
        }
        self.was_ready = true;
        self.cover.start(now);
        let action = match sid {
            Some(sid) => Action::Notify(ManagerNotification::Ready { sid }),
            None => Action::Nothing,
        };
        Decision { action, cover: true, retransmit: false }
    }

    fn on_closed(&mut self, sid: [u8; SESSION_ID_LEN], reason: CloseReason) -> (r: Decision)
        ensures
            final(self)@.wf(),
            final(self)@ == old(self)@.after(EventView::Closed(sid, reason)),
            r.calls_for(client_reaction(EventView::Closed(sid, reason)), false, true),
    {
        self.was_ready = false;
        self.cover.stop();
        Decision {
            action: Action::Restart(ManagerNotification::Closed { sid, reason }),
            cover: false,
            retransmit: true,
        }
    }

    /// The manager gave an event for a datagram.
    pub fn on_event(&mut self, event: ManagerEvent) -> (r: Decision)
        requires
            old(self)@.wf(),
        ensures
            final(self)@.wf(),
            final(self)@ == old(self)@.after(event@),
            r.calls_for(client_reaction(event@), false, event@ is Closed),
    {
        match event {
            ManagerEvent::Send { packets, peer } => plain(Action::Transmit(packets, peer)),
            ManagerEvent::SendPacket { packet, peer } => plain(
                Action::Transmit(single(packet), peer),
            ),
            ManagerEvent::AppData { sid, inner } => plain(
                Action::Notify(ManagerNotification::Data { sid, inner }),
            ),
            ManagerEvent::Closed { sid, reason } => self.on_closed(sid, reason),
            ManagerEvent::Established { .. } => plain(Action::Nothing),
            ManagerEvent::Nothing => plain(Action::Nothing),
        }
    }

    /// The manager answered a request of the application. Benign failures are
    /// dropped; any other one stops the driver.
    pub fn on_command(&mut self, answer: Result<ManagerEvent, ManagerError>) -> (r: Result<
        Decision,
        ManagerError,
    >)
        requires
            old(self)@.wf(),
        ensures
            final(self)@.wf(),
            match answer {
                Ok(e) => final(self)@ == old(self)@.after(e@) && (r matches Ok(d) && d.calls_for(
                    match e@ {
                        EventView::SendPacket(..) | EventView::Closed(..) => client_reaction(e@),
                        _ => ActionView::Nothing,
                    },
                    false,
                    e@ is Closed,
                )),
                Err(x) => final(self)@ == old(self)@ && if benign(x) {
                    r matches Ok(d) && d.calls_for(ActionView::Nothing, false, false)
                } else {
                    r == Err::<Decision, ManagerError>(x)
                },
            },
    {
        match answer {
            Ok(ManagerEvent::SendPacket { packet, peer }) => Ok(
                plain(Action::Transmit(single(packet), peer)),
            ),
            Ok(ManagerEvent::Closed { sid, reason }) => Ok(self.on_closed(sid, reason)),
            Ok(_) => Ok(plain(Action::Nothing)),
            Err(x) => {
                if is_benign(&x) {
                    Ok(plain(Action::Nothing))
                } else {
                    Err(x)
                }
            },
        }
    }

    /// The retransmission timer fired, and the manager gave an event. The timer
    /// is set anew in any case.
    pub fn on_timer_event(&mut self, event: ManagerEvent) -> (r: Decision)
        requires
            old(self)@.wf(),
        ensures
            final(self)@.wf(),
            final(self)@ == old(self)@.after(event@),
            r.calls_for(
                match event@ {
                    EventView::Send(..) | EventView::Closed(..) => client_reaction(event@),
                    _ => ActionView::Nothing,
                },
                false,
                true,
            ),
    {
        match event {
            ManagerEvent::Send { packets, peer } => Decision {
                action: Action::Transmit(packets, peer),
                cover: false,
                retransmit: true,
            },
            ManagerEvent::Closed { sid, reason } => self.on_closed(sid, reason),
            _ => Decision { action: Action::Nothing, cover: false, retransmit: true },
        }
    }

    /// One event of a tick.
    pub fn on_tick_event(&mut self, event: ManagerEvent) -> (r: Decision)
        requires
            old(self)@.wf(),
        ensures
            final(self)@.wf(),
            final(self)@ == old(self)@.after(event@),
            r.calls_for(
                match event@ {
                    EventView::Closed(..) => client_reaction(event@),
                    _ => ActionView::Nothing,
                },
                false,
                event@ is Closed,
            ),
    {
        match event {
            ManagerEvent::Closed { sid, reason } => self.on_closed(sid, reason),
            _ => plain(Action::Nothing),
        }
    }

    /// The cover timer fired: whether a cover packet is sent now.
    pub fn on_cover_deadline(&mut self, now: Instant) -> (r: bool)
        requires
            old(self)@.wf(),
            old(self)@.cover.due(now) ==> old(self)@.cover.has_room(now),
        ensures
            final(self)@.wf(),
            r == old(self)@.cover.due(now),
            final(self)@ == (ClientDriverView { cover: old(self)@.cover.woken(now), ..old(self)@ }),
    {
        self.cover.on_deadline(now)
    }

    /// The manager answered the request for a cover packet. A missing session is
    /// no failure; any other one stops the driver.
    pub fn on_cover_answer(&mut self, answer: Result<ManagerEvent, ManagerError>) -> (r: Result<
        Decision,
        ManagerError,
    >)
        requires
            old(self)@.wf(),
        ensures
            final(self)@.wf(),
            match answer {
                Ok(e) => final(self)@ == old(self)@.after(e@) && (r matches Ok(d) && d.calls_for(
                    match e@ {
                        EventView::SendPacket(..) | EventView::Closed(..) => client_reaction(e@),
                        _ => ActionView::Nothing,
                    },
                    false,
                    e@ is Closed,
                )),
                Err(x) => final(self)@ == old(self)@ && if x is NoSession {
                    r matches Ok(d) && d.calls_for(ActionView::Nothing, false, false)
                } else {
                    r == Err::<Decision, ManagerError>(x)
                },
            },
    {
        match answer {
            Ok(ManagerEvent::SendPacket { packet, peer }) => Ok(
                plain(Action::Transmit(single(packet), peer)),
            ),
            Ok(ManagerEvent::Closed { sid, reason }) => Ok(self.on_closed(sid, reason)),
            Ok(_) => Ok(plain(Action::Nothing)),
            Err(ManagerError::NoSession) => Ok(plain(Action::Nothing)),
            Err(x) => Err(x),
        }
    }
}

/// Seconds from the start of 1601 to the start of 1970.
pub const FILETIME_UNIX_OFFSET: u64 = 11_644_473_600;

/// A moment as the waitable timers of one platform count it: in steps of 100 ns
/// since 1601, given the time since 1970.
pub fn filetime_ticks(since_epoch: Duration) -> (r: u64)
    requires
        since_epoch.nanos() / 100 + FILETIME_UNIX_OFFSET * 10_000_000 <= u64::MAX,
    ensures
        r == since_epoch.nanos() / 100 + FILETIME_UNIX_OFFSET * 10_000_000,
{
    let secs: u64 = since_epoch.as_secs();
    let sub: u32 = since_epoch.subsec_nanos();
    (secs + FILETIME_UNIX_OFFSET) * 10_000_000 + (sub as u64) / 100
}

/// A driver sends what it is told to send, where it is told to, and in one piece.
pub proof fn driver_sends_what_it_is_told(d: Seq<Seq<u8>>, p: Seq<u8>, peer: PeerAddr)
    ensures
        server_reaction(EventView::Send(d, peer)) == ActionView::Transmit(d, peer),
        client_reaction(EventView::Send(d, peer)) == ActionView::Transmit(d, peer),
        server_reaction(EventView::SendPacket(p, peer)) == ActionView::Transmit(seq![p], peer),
        client_reaction(EventView::SendPacket(p, peer)) == ActionView::Transmit(seq![p], peer),
        server_reaction(EventView::Nothing) is Nothing,
        client_reaction(EventView::Nothing) is Nothing,
{
}

/// A driver tells the application of every piece of data and of every closure; a
/// client starts afresh after each closure, a server never does. A server tells of
/// every session that is established.
pub proof fn driver_tells_the_application(
    sid: [u8; SESSION_ID_LEN],
    pt: Seq<u8>,
    reason: CloseReason,
    peer: PeerAddr,
)
    ensures
        server_reaction(EventView::AppData(sid, pt)) == ActionView::Notify(
            NoteView::Data(sid, pt),
        ),
        client_reaction(EventView::AppData(sid, pt)) == ActionView::Notify(
            NoteView::Data(sid, pt),
        ),
        server_reaction(EventView::Closed(sid, reason)) == ActionView::Notify(
            NoteView::Closed(sid, reason),
        ),
        client_reaction(EventView::Closed(sid, reason)) == ActionView::Restart(
            NoteView::Closed(sid, reason),
        ),
        server_reaction(EventView::Established(sid, peer)) == ActionView::Notify(
            NoteView::Established(sid, peer),
        ),
        client_reaction(EventView::Established(sid, peer)) is Nothing,
{
}

/// A failed request of the application is harmless exactly if there is no such
/// session or the payload does not fit.
pub proof fn harmless_failures_are_the_applications_own(e: ManagerError)
    ensures
        benign(ManagerError::NoSession),
        e is Handshake || e is InvalidState || e is InvalidConfig || e is AppClosed ==> !benign(e),
        e matches ManagerError::Session(x) ==> (benign(e) <==> (x matches SessionError::Codec(c)
            && c is WrongLength)),
{
}

/// A datagram of the wrong size is skipped, a reset is skipped or logged, and any
/// other failure of the transport stops a server with that failure. Only a reset is
/// remembered.
pub proof fn only_real_failures_stop_a_server(s: ServerDriverView, e: HandshakeV2Error)
    ensures
        e is DatagramRejected ==> s.verdict(e) is Skip,
        e is TransportReset ==> (s.verdict(e) is Warn <==> !s.reset_noticed) && (s.verdict(
            e,
        ) is Skip <==> s.reset_noticed),
        !(e is DatagramRejected) && !(e is TransportReset) ==> s.verdict(e) == RecvVerdict::Stop(e),
        s.after_error(e).reset_noticed <==> s.reset_noticed || e is TransportReset,
        s.after_error(e).cover == s.cover,
{
}

/// The first session of a server starts its cover, one interval ahead; any other
/// event leaves the schedule alone, and no event ends an episode of resets.
pub proof fn first_session_starts_cover(
    s: ServerDriverView,
    sid: [u8; SESSION_ID_LEN],
    peer: PeerAddr,
    e: EventView,
    now: Instant,
)
    ensures
        s.cover.policy.enabled && s.cover.next is None ==> s.after(
            EventView::Established(sid, peer),
            now,
        ).cover.next == Some(now.nanos() + s.cover.policy.interval.nanos()),
        s.cover.next is Some ==> s.after(EventView::Established(sid, peer), now) == s,
        !(e is Established) ==> s.after(e, now) == s,
        s.after(e, now).reset_noticed == s.reset_noticed,
{
}

/// A client's cover starts when its session is confirmed, one interval ahead, and
/// stops with the session; in between nothing but a closure ends readiness.
pub proof fn cover_follows_readiness(
    s: ClientDriverView,
    e: EventView,
    sid: [u8; SESSION_ID_LEN],
    reason: CloseReason,
    now: Instant,
)
    requires
        s.wf(),
    ensures
        !s.was_ready && s.cover.policy.enabled ==> s.checked(true, now).was_ready && s.checked(
            true,
            now,
        ).cover.next == Some(now.nanos() + s.cover.policy.interval.nanos()),
        s.checked(false, now) == s,
        s.was_ready ==> s.checked(true, now) == s,
        !s.after(EventView::Closed(sid, reason)).was_ready,
        s.after(EventView::Closed(sid, reason)).cover.next is None,
        s.after(EventView::Closed(sid, reason)).cover.policy == s.cover.policy,
        !(e is Closed) ==> s.after(e) == s,
{
}

/// A decision that is called for has the action and sets the timers that are
/// called for.
pub proof fn decision_is_what_is_called_for(
    d: Decision,
    action: ActionView,
    cover: bool,
    retransmit: bool,
)
    requires
        d.calls_for(action, cover, retransmit),
    ensures
        d.action@ == action,
        d.cover == cover,
        d.retransmit == retransmit,
{
}

/// What is seen of an action and of a notification is what it holds.
pub proof fn actions_say_what_they_hold(a: Action, n: ManagerNotification)
    ensures
        a is Nothing <==> a@ is Nothing,
        a matches Action::Transmit(packets, peer) ==> a@ == ActionView::Transmit(
            Seq::new(packets@.len(), |i: int| packets@[i].bytes@),
            peer,
        ),
        a matches Action::Notify(x) ==> a@ == ActionView::Notify(x@),
        a matches Action::Restart(x) ==> a@ == ActionView::Restart(x@),
        n matches ManagerNotification::Established { sid, peer } ==> n@ == NoteView::Established(
            sid,
            peer,
        ),
        n matches ManagerNotification::Ready { sid } ==> n@ == NoteView::Ready(sid),
        n matches ManagerNotification::Data { sid, inner } ==> (n@ matches NoteView::Data(s, pt)
            && s == sid && pt[0] == inner.msg_type.code() && pt.subrange(2, 1247)
            == inner.payload@),
        n matches ManagerNotification::Closed { sid, reason } ==> n@ == NoteView::Closed(
            sid,
            reason,
        ),
{
    if let ManagerNotification::Data { sid, inner } = n {
        crate::codec::inner_layout(inner);
    }
    if let Action::Transmit(packets, peer) = a {
        assert(datagrams(packets@) =~= Seq::new(packets@.len(), |i: int| packets@[i].bytes@));
    }
}

} // verus!
