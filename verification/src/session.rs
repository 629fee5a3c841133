use vstd::prelude::*;
use crate::codes::{JoinToken, RoomCode};
use crate::error::Error;
use crate::message::{delivery_views, Delivery, DeliveryView, ParticipantId, Role};
use crate::registry::RoomRegistry;
use crate::registry_model::RegistryView;
use crate::room::{token_view, Attached, Routing};

verus! {

/// Where a session stands.
#[derive(Clone, Copy, Debug, PartialEq, Eq, Structural)]
pub enum Phase {
    /// The request has not been checked yet.
    Connecting,
    /// The participant is attached; its messages are relayed.
    Attached,
    /// The session is over. Nothing brings it back.
    Closed,
}

/// What the connection reports to its session.
#[derive(Debug, PartialEq, Eq)]
pub enum Event {
    /// A message arrived.
    Message(String),
    /// A frame arrived that is no message.
    Malformed,
    /// The transport failed, on receiving or on sending.
    Failed,
    /// The connection was closed, by the peer or by the server.
    Closed,
}

/// The mathematical content of an [`Event`].
pub enum EventView {
    Message(Seq<char>),
    Malformed,
    Failed,
    Closed,
}

impl View for Event {
    type V = EventView;

    open spec fn view(&self) -> EventView {
        match *self {
            Event::Message(payload) => EventView::Message(payload@),
            Event::Malformed => EventView::Malformed,
            Event::Failed => EventView::Failed,
            Event::Closed => EventView::Closed,
        }
    }
}

impl EventView {
    /// The error that the event stands for; a message stands for none.
    pub open spec fn cause(self) -> Option<Error> {
        match self {
            EventView::Message(_) => None,
            EventView::Malformed => Some(Error::InvalidRequest),
            EventView::Failed => Some(Error::Io),
            EventView::Closed => Some(Error::Closed),
        }
    }
}

impl EventView {
    /// The event that an outcome of receiving stands for.
    pub open spec fn of_receive(received: Result<Seq<char>, Error>) -> EventView {
        match received {
            Ok(payload) => EventView::Message(payload),
            Err(Error::Closed) => EventView::Closed,
            Err(Error::Io) => EventView::Failed,
            Err(_) => EventView::Malformed,
        }
    }
}

/// What a receive returned, as the model sees it.
pub open spec fn received_view(received: Result<String, Error>) -> Result<Seq<char>, Error> {
    match received {
        Ok(text) => Ok(text@),
        Err(e) => Err(e),
    }
}

impl Event {
    /// The event that an outcome of receiving stands for: a message, the
    /// close of the connection, a failure of the transport, or, for any
    /// other error, a frame that is no message.
    pub fn from_receive(received: Result<String, Error>) -> (event: Event)
        ensures
            event@ == EventView::of_receive(received_view(received)),
    {
        match received {
            Ok(payload) => Event::Message(payload),
            Err(Error::Closed) => Event::Closed,
            Err(Error::Io) => Event::Failed,
            Err(_) => Event::Malformed,
        }
    }

    /// Why the event ends the session, or `None` for a message, which does
    /// not end it.
    pub fn cause(&self) -> (cause: Option<Error>)
        ensures
            cause == self@.cause(),
    {
        match self {
            Event::Message(_) => None,
            Event::Malformed => Some(Error::InvalidRequest),
            Event::Failed => Some(Error::Io),
            Event::Closed => Some(Error::Closed),
        }
    }
}

/// What the caller has to do after an event.
#[derive(Debug, PartialEq, Eq)]
pub enum Action {
    /// Send these and go on receiving.
    Forward(Vec<Delivery>),
    /// The message could not be routed and was dropped: log a warning and go
    /// on receiving.
    Dropped,
    /// The session has ended: send these departure notices, release the
    /// connection and stop receiving.
    Release(Vec<Delivery>),
    /// The session had ended before: there is nothing to do.
    Idle,
}

/// The mathematical content of an [`Action`].
pub enum ActionView {
    Forward(Seq<DeliveryView>),
    Dropped,
    Release(Seq<DeliveryView>),
    Idle,
}

impl View for Action {
    type V = ActionView;

    open spec fn view(&self) -> ActionView {
        match *self {
            Action::Forward(batch) => ActionView::Forward(delivery_views(batch@)),
            Action::Dropped => ActionView::Dropped,
            Action::Release(batch) => ActionView::Release(delivery_views(batch@)),
            Action::Idle => ActionView::Idle,
        }
    }
}

/// The mathematical state of a session.
pub enum SessionView {
    Connecting,
    Attached { code: Seq<char>, id: ParticipantId },
    Closed,
}

impl SessionView {
    /// Where the session stands.
    pub open spec fn phase(self) -> Phase {
        match self {
            SessionView::Connecting => Phase::Connecting,
            SessionView::Attached { .. } => Phase::Attached,
            SessionView::Closed => Phase::Closed,
        }
    }

    /// How a connect ends: only a session that is still connecting can
    /// attach, and it attaches exactly when the registry lets it join.
    pub open spec fn connect_outcome(
        self,
        registry: RegistryView,
        code: Seq<char>,
        role: Role,
        name: Seq<char>,
        token: Option<Seq<char>>,
        now: u64,
    ) -> Result<ParticipantId, Error> {
        match self {
            SessionView::Connecting => registry.join_outcome(code, role, name, token, now),
            _ => Err(Error::InvalidRequest),
        }
    }

    /// The session after a connect: attached where it succeeds, closed where
    /// a connecting session is turned away, and otherwise as it was.
    pub open spec fn connected(
        self,
        registry: RegistryView,
        code: Seq<char>,
        role: Role,
        name: Seq<char>,
        token: Option<Seq<char>>,
        now: u64,
    ) -> SessionView {
        match self {
            SessionView::Connecting => match registry.join_outcome(code, role, name, token, now) {
                Ok(id) => SessionView::Attached { code, id },
                Err(_) => SessionView::Closed,
            },
            _ => self,
        }
    }

    /// The registry after a connect.
    pub open spec fn registry_connected(
        self,
        registry: RegistryView,
        code: Seq<char>,
        role: Role,
        name: Seq<char>,
        token: Option<Seq<char>>,
        now: u64,
    ) -> RegistryView {
        match self {
            SessionView::Connecting => registry.joined(code, role, name, token, now),
            _ => registry,
        }
    }

    /// The session after an event: a message keeps an attached session
    /// attached, and everything else closes the session.
    pub open spec fn after(self, event: EventView) -> SessionView {
        match (self, event) {
            (SessionView::Attached { .. }, EventView::Message(_)) => self,
            _ => SessionView::Closed,
        }
    }

    /// The registry after an event: the participant is detached when an
    /// attached session closes, and at no other time.
    pub open spec fn registry_after(self, registry: RegistryView, event: EventView, now: u64)
        -> RegistryView {
        match (self, event) {
            (SessionView::Attached { .. }, EventView::Message(_)) => registry,
            (SessionView::Attached { code, id }, _) => registry.left(code, id, now),
            _ => registry,
        }
    }

    /// What the caller is told to do after an event.
    pub open spec fn action(self, registry: RegistryView, event: EventView) -> ActionView {
        match (self, event) {
            (SessionView::Attached { code, id }, EventView::Message(payload)) => {
                match registry.routing(code, id, payload) {
                    Some(batch) => ActionView::Forward(batch),
                    None => ActionView::Dropped,
                }
            },
            (SessionView::Attached { code, id }, _) => ActionView::Release(
                registry.leave_deliveries(code, id),
            ),
            (SessionView::Connecting, _) => ActionView::Release(Seq::empty()),
            (SessionView::Closed, _) => ActionView::Idle,
        }
    }
}

enum State {
    Connecting,
    Attached { code: RoomCode, id: ParticipantId },
    Closed,
}

/// The control flow of one connection: it connects once, relays while it is
/// attached, and detaches exactly once when it closes.
pub struct Session {
    state: State,
}

impl View for Session {
    type V = SessionView;

    closed spec fn view(&self) -> SessionView {
        match self.state {
            State::Connecting => SessionView::Connecting,
            State::Attached { code, id } => SessionView::Attached { code: code@, id },
            State::Closed => SessionView::Closed,
        }
    }
}

impl Session {
    /// A session that has not connected yet.
    pub fn new() -> (session: Session)
        ensures
            session@ == SessionView::Connecting,
    {
        Session { state: State::Connecting }
    }

    /// Where the session stands.
    pub fn phase(&self) -> (phase: Phase)
        ensures
            phase == self@.phase(),
    {
        match &self.state {
            State::Connecting => Phase::Connecting,
            State::Attached { .. } => Phase::Attached,
            State::Closed => Phase::Closed,
        }
    }

    /// The id under which the session is attached, if it is.
    pub fn participant_id(&self) -> (id: Option<ParticipantId>)
        ensures
            id == (match self@ {
                SessionView::Attached { id, .. } => Some(id),
                _ => None,
            }),
    {
        match &self.state {
            State::Attached { id, .. } => Some(*id),
            _ => None,
        }
    }

    /// Checks the request of a connecting session and attaches it to the
    /// room `code`. On success the session is attached, and the deliveries
    /// hold the welcome and, for a player, the roster update for the host.
    /// On failure the registry is unchanged and the session is closed. A
    /// session that has connected before is refused with `InvalidRequest`
    /// and stays as it is.
    pub fn connect(
        &mut self,
        registry: &mut RoomRegistry,
        code: &RoomCode,
        role: Role,
        name: String,
        token: Option<JoinToken>,
        now: u64,
    ) -> (res: Result<Attached, Error>)
        requires
            old(registry).wf(),
        ensures
            final(registry).wf(),
            final(self)@ == old(self)@.connected(
                old(registry)@,
                code@,
                role,
                name@,
                token_view(token),
                now,
            ),
            final(registry)@ == old(self)@.registry_connected(
                old(registry)@,
                code@,
                role,
                name@,
                token_view(token),
                now,
            ),
            match res {
                Ok(a) => {
                    &&& old(self)@.connect_outcome(
                        old(registry)@,
                        code@,
                        role,
                        name@,
                        token_view(token),
                        now,
                    ) == Ok::<ParticipantId, Error>(a.id)
                    &&& delivery_views(a.deliveries@) == old(registry)@.join_deliveries(
                        code@,
                        role,
                        name@,
                        token_view(token),
                        now,
                    )
                },
                Err(e) => old(self)@.connect_outcome(
                    old(registry)@,
                    code@,
                    role,
                    name@,
                    token_view(token),
                    now,
                ) == Err::<ParticipantId, Error>(e),
            },
    {
        match &self.state {
            State::Connecting => {},
            _ => {
                return Err(Error::InvalidRequest);
            },
        }
        match registry.join(code, role, name, token, now) {
            Ok(attached) => {
                self.state = State::Attached { code: code.clone(), id: attached.id };
                Ok(attached)
            },
            Err(e) => {
                self.state = State::Closed;
                Err(e)
            },
        }
    }

    /// Handles one event of the connection. A message of an attached session
    /// is relayed. Every other event closes the session; if it was attached,
    /// the participant is detached, once. A closed session ignores every
    /// event, so closing twice is closing once.
    pub fn handle(&mut self, registry: &mut RoomRegistry, event: Event, now: u64) -> (action:
        Action)
        requires
            old(registry).wf(),
        ensures
            final(registry).wf(),
            final(self)@ == old(self)@.after(event@),
            final(registry)@ == old(self)@.registry_after(old(registry)@, event@, now),
            action@ == old(self)@.action(old(registry)@, event@),
    {
        let action = match &self.state {
            State::Attached { code, id } => {
                match &event {
                    Event::Message(payload) => {
                        return match registry.relay(code, *id, payload) {
                            Routing::Deliver(batch) => Action::Forward(batch),
                            Routing::Drop => Action::Dropped,
                        };
                    },
                    _ => Action::Release(registry.leave(code, *id, now)),
                }
            },
            State::Connecting => {
                let none: Vec<Delivery> = Vec::new();
                assert(delivery_views(none@) =~= Seq::<DeliveryView>::empty());
                Action::Release(none)
            },
            State::Closed => Action::Idle,
        };
        self.state = State::Closed;
        action
    }

    /// Ends the session from the server's side: the same as the event
    /// `Closed`.
    pub fn close(&mut self, registry: &mut RoomRegistry, now: u64) -> (action: Action)
        requires
            old(registry).wf(),
        ensures
            final(registry).wf(),
            final(self)@ == SessionView::Closed,
            final(registry)@ == old(self)@.registry_after(old(registry)@, EventView::Closed, now),
            action@ == old(self)@.action(old(registry)@, EventView::Closed),
    {
        self.handle(registry, Event::Closed, now)
    }
}

/// A closed session is terminal: whatever happens, it stays closed, leaves
/// the registry alone and asks for nothing.
pub proof fn theorem_closed_is_terminal(registry: RegistryView, event: EventView, now: u64)
    ensures
        SessionView::Closed.after(event) == SessionView::Closed,
        SessionView::Closed.registry_after(registry, event, now) == registry,
        SessionView::Closed.action(registry, event) == ActionView::Idle,
{
}

/// A session detaches exactly once: the event that closes an attached session
/// detaches its participant from its room, and no event after that touches
/// the registry again.
pub proof fn theorem_detaches_once(
    session: SessionView,
    registry: RegistryView,
    closing: EventView,
    next: EventView,
    now: u64,
    later: u64,
)
    requires
        session is Attached,
        !(closing is Message),
    ensures
        session.after(closing) == SessionView::Closed,
        session.registry_after(registry, closing, now) == registry.left(
            session->code,
            session->id,
            now,
        ),
        session.action(registry, closing) == ActionView::Release(
            registry.leave_deliveries(session->code, session->id),
        ),
        session.after(closing).registry_after(
            session.registry_after(registry, closing, now),
            next,
            later,
        ) == session.registry_after(registry, closing, now),
{
}

/// A message never ends a session and never changes the registry: it is
/// routed by the rules of the room, or dropped.
pub proof fn theorem_message_keeps_session(
    session: SessionView,
    registry: RegistryView,
    payload: Seq<char>,
    now: u64,
)
    requires
        session is Attached,
    ensures
        session.after(EventView::Message(payload)) == session,
        session.registry_after(registry, EventView::Message(payload), now) == registry,
        session.action(registry, EventView::Message(payload)) == (match registry.routing(
            session->code,
            session->id,
            payload,
        ) {
            Some(batch) => ActionView::Forward(batch),
            None => ActionView::Dropped,
        }),
{
}

/// A session that never attached closes without touching the registry: no
/// participant is detached for it.
pub proof fn theorem_closing_unattached(registry: RegistryView, event: EventView, now: u64)
    ensures
        SessionView::Connecting.after(event) == SessionView::Closed,
        SessionView::Connecting.registry_after(registry, event, now) == registry,
        SessionView::Connecting.action(registry, event) == ActionView::Release(Seq::empty()),
{
}

/// A connect that is refused attaches nobody: the registry is unchanged and
/// the session is closed. One that succeeds leaves the session attached to
/// the room under the id that the registry assigned.
pub proof fn theorem_connect_is_all_or_nothing(
    registry: RegistryView,
    code: Seq<char>,
    role: Role,
    name: Seq<char>,
    token: Option<Seq<char>>,
    now: u64,
)
    ensures
        match SessionView::Connecting.connect_outcome(registry, code, role, name, token, now) {
            Ok(id) => {
                &&& SessionView::Connecting.connected(registry, code, role, name, token, now)
                    == (SessionView::Attached { code, id })
                &&& SessionView::Connecting.registry_connected(
                    registry,
                    code,
                    role,
                    name,
                    token,
                    now,
                ) == registry.joined(code, role, name, token, now)
            },
            Err(_) => {
                &&& SessionView::Connecting.connected(registry, code, role, name, token, now)
                    == SessionView::Closed
                &&& SessionView::Connecting.registry_connected(
                    registry,
                    code,
                    role,
                    name,
                    token,
                    now,
                ) == registry
            },
        },
{
}

} // verus!
