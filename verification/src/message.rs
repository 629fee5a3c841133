use vstd::prelude::*;

verus! {

/// Identifies one attached participant. Ids grow over the life of the process
/// and are never handed out twice.
pub type ParticipantId = u64;

/// The part a participant plays in a room.
#[derive(Clone, Copy, Debug, PartialEq, Eq, Structural)]
pub enum Role {
    Host,
    Player,
}

/// What the server tells a participant.
#[derive(Debug, PartialEq, Eq)]
pub enum Message {
    /// First message after a successful attach, carrying the assigned id.
    Welcome { participant_id: ParticipantId, reconnect: bool },
    /// Roster update: a player has joined the room.
    Joined { participant_id: ParticipantId, name: String },
    /// Departure notice: a participant has left the room.
    Left { participant_id: ParticipantId },
    /// A payload passed through unchanged from another participant.
    Relay { from: ParticipantId, payload: String },
}

/// The mathematical content of a [`Message`].
pub enum MessageView {
    Welcome { participant_id: ParticipantId, reconnect: bool },
    Joined { participant_id: ParticipantId, name: Seq<char> },
    Left { participant_id: ParticipantId },
    Relay { from: ParticipantId, payload: Seq<char> },
}

impl View for Message {
    type V = MessageView;

    open spec fn view(&self) -> MessageView {
        match *self {
            Message::Welcome { participant_id, reconnect } => MessageView::Welcome {
                participant_id,
                reconnect,
            },
            Message::Joined { participant_id, name } => MessageView::Joined {
                participant_id,
                name: name@,
            },
            Message::Left { participant_id } => MessageView::Left { participant_id },
            Message::Relay { from, payload } => MessageView::Relay { from, payload: payload@ },
        }
    }
}

/// One message on its way to one participant.
#[derive(Debug, PartialEq, Eq)]
pub struct Delivery {
    pub to: ParticipantId,
    pub message: Message,
}

/// The mathematical content of a [`Delivery`].
pub struct DeliveryView {
    pub to: ParticipantId,
    pub message: MessageView,
}

impl View for Delivery {
    type V = DeliveryView;

    open spec fn view(&self) -> DeliveryView {
        DeliveryView { to: self.to, message: self.message@ }
    }
}

/// The contents of a batch of deliveries, in sending order.
pub open spec fn delivery_views(batch: Seq<Delivery>) -> Seq<DeliveryView> {
    batch.map_values(|d: Delivery| d@)
}

/// The recipients of a batch of deliveries, in sending order.
pub open spec fn recipients(batch: Seq<DeliveryView>) -> Seq<ParticipantId> {
    batch.map_values(|d: DeliveryView| d.to)
}

impl Message {
    /// A copy of the message with the same content.
    pub fn duplicate(&self) -> (copy: Message)
        ensures
            copy@ == self@,
    {
        match self {
            Message::Welcome { participant_id, reconnect } => Message::Welcome {
                participant_id: *participant_id,
                reconnect: *reconnect,
            },
            Message::Joined { participant_id, name } => Message::Joined {
                participant_id: *participant_id,
                name: name.clone(),
            },
            Message::Left { participant_id } => Message::Left { participant_id: *participant_id },
            Message::Relay { from, payload } => Message::Relay {
                from: *from,
                payload: payload.clone(),
            },
        }
    }

    /// The opcode under which a welcome travels on the wire.
    pub fn welcome_opcode() -> (opcode: &'static str)
        ensures
            opcode@ == "client/welcome"@,
    {
        "client/welcome"
    }
}

} // verus!
