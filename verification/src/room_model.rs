use vstd::prelude::*;
use crate::error::Error;
use crate::ids::fresh_id;
use crate::message::{recipients, DeliveryView, MessageView, ParticipantId, Role};

verus! {

/// What a welcome says about `reconnect` when a host attaches to a room that
/// has had a host before.
#[derive(Clone, Copy, Debug, PartialEq, Eq, Structural)]
pub enum ReconnectPolicy {
    /// Every attach is a fresh one: `reconnect` is always false.
    Fresh,
    /// A host that follows an earlier host is welcomed with `reconnect` true.
    Resume,
}

/// One attached participant, as the model sees it.
pub struct Member {
    pub id: ParticipantId,
    pub name: Seq<char>,
}

/// The mathematical state of a room.
pub struct RoomView {
    pub code: Seq<char>,
    pub token: Seq<char>,
    pub host: Option<Member>,
    /// The attached players, in the order in which they attached.
    pub players: Seq<Member>,
    /// When the room was created.
    pub created_at: u64,
    /// When the room was last seen to become empty (at creation, or when its
    /// last participant left).
    pub idle_since: u64,
    /// The highest id ever attached to the room; 0 if there was none.
    pub last_id: ParticipantId,
    /// Whether a host has ever been attached.
    pub had_host: bool,
    pub policy: ReconnectPolicy,
}

impl RoomView {
    /// A room that nobody has attached to yet.
    pub open spec fn fresh(
        code: Seq<char>,
        token: Seq<char>,
        now: u64,
        policy: ReconnectPolicy,
    ) -> RoomView {
        RoomView {
            code,
            token,
            host: None,
            players: Seq::empty(),
            created_at: now,
            idle_since: now,
            last_id: 0,
            had_host: false,
            policy,
        }
    }

    /// The ids of the attached players, in attach order.
    pub open spec fn player_ids(self) -> Seq<ParticipantId> {
        self.players.map_values(|m: Member| m.id)
    }

    /// Whether `id` is the attached host.
    pub open spec fn is_host(self, id: ParticipantId) -> bool {
        self.host matches Some(h) && h.id == id
    }

    /// Whether `id` is one of the attached players.
    pub open spec fn is_player(self, id: ParticipantId) -> bool {
        self.player_ids().contains(id)
    }

    /// Whether `id` is attached, under either role.
    pub open spec fn is_attached(self, id: ParticipantId) -> bool {
        self.is_host(id) || self.is_player(id)
    }

    /// The role under which `id` is attached, if it is.
    pub open spec fn role_of(self, id: ParticipantId) -> Option<Role> {
        if self.is_host(id) {
            Some(Role::Host)
        } else if self.is_player(id) {
            Some(Role::Player)
        } else {
            None
        }
    }

    /// The ids of everybody attached: the host first, then the players.
    pub open spec fn everyone(self) -> Seq<ParticipantId> {
        match self.host {
            Some(h) => seq![h.id] + self.player_ids(),
            None => self.player_ids(),
        }
    }

    /// How many participants are attached.
    pub open spec fn count(self) -> nat {
        self.everyone().len()
    }

    /// Whether nobody is attached.
    pub open spec fn is_empty(self) -> bool {
        self.host is None && self.players.len() == 0
    }

    /// Whether the room has been empty for longer than `timeout` at time `now`.
    pub open spec fn is_expired(self, now: u64, timeout: u64) -> bool {
        self.is_empty() && now - self.idle_since > timeout
    }

    /// How an attach ends when the id source stands at `next_id`: the id that
    /// is assigned, or the error. A host must present the room's token and
    /// find the host slot free; a player needs no token.
    pub open spec fn attach_outcome(
        self,
        next_id: u64,
        role: Role,
        token: Option<Seq<char>>,
    ) -> Result<ParticipantId, Error> {
        if role == Role::Host && token != Some(self.token) {
            Err(Error::Unauthorized)
        } else if role == Role::Host && self.host is Some {
            Err(Error::RoleConflict)
        } else {
            match fresh_id(next_id, self.last_id) {
                Some(id) => Ok(id),
                None => Err(Error::ResourceExhausted),
            }
        }
    }

    /// The room after `id` has attached under `role` with display name `name`.
    pub open spec fn attached(self, role: Role, name: Seq<char>, id: ParticipantId) -> RoomView {
        match role {
            Role::Host => RoomView {
                host: Some(Member { id, name }),
                last_id: id,
                had_host: true,
                ..self
            },
            Role::Player => RoomView {
                players: self.players.push(Member { id, name }),
                last_id: id,
                ..self
            },
        }
    }

    /// The `reconnect` flag of the welcome for an attach under `role`.
    pub open spec fn welcomes_back(self, role: Role) -> bool {
        role == Role::Host && self.had_host && self.policy == ReconnectPolicy::Resume
    }

    /// What is sent when `id` attaches: the welcome to the newcomer and, for
    /// a player, the roster update to the host if one is attached.
    pub open spec fn attach_deliveries(
        self,
        role: Role,
        name: Seq<char>,
        id: ParticipantId,
    ) -> Seq<DeliveryView> {
        let welcome = DeliveryView {
            to: id,
            message: MessageView::Welcome {
                participant_id: id,
                reconnect: self.welcomes_back(role),
            },
        };
        match (role, self.host) {
            (Role::Player, Some(h)) => seq![
                welcome,
                DeliveryView { to: h.id, message: MessageView::Joined { participant_id: id, name } },
            ],
            _ => seq![welcome],
        }
    }

    /// Where in `players` the player `id` stands.
    pub open spec fn position(self, id: ParticipantId) -> int {
        choose|i: int| 0 <= i < self.players.len() && self.players[i].id == id
    }

    /// The room with `id` taken out, if it is attached.
    pub open spec fn without(self, id: ParticipantId) -> RoomView {
        if self.is_host(id) {
            RoomView { host: None, ..self }
        } else if self.is_player(id) {
            RoomView { players: self.players.remove(self.position(id)), ..self }
        } else {
            self
        }
    }

    /// The room after `id` has detached at `now`. Detaching somebody who is
    /// not attached changes nothing; the departure of the last participant
    /// starts the idle clock.
    pub open spec fn detached(self, id: ParticipantId, now: u64) -> RoomView {
        if self.is_attached(id) {
            let rest = self.without(id);
            if rest.is_empty() {
                RoomView { idle_since: now, ..rest }
            } else {
                rest
            }
        } else {
            self
        }
    }

    /// One copy of `message` for each of `to`, in that order.
    pub open spec fn fan_out(to: Seq<ParticipantId>, message: MessageView) -> Seq<DeliveryView> {
        to.map_values(|id: ParticipantId| DeliveryView { to: id, message })
    }

    /// What is sent when `id` detaches: a departure notice to everybody who
    /// remains, and nothing if `id` was not attached.
    pub open spec fn detach_deliveries(self, id: ParticipantId) -> Seq<DeliveryView> {
        if self.is_attached(id) {
            Self::fan_out(self.without(id).everyone(), MessageView::Left { participant_id: id })
        } else {
            Seq::empty()
        }
    }

    /// Where a payload sent by `from` goes: from the host to every player,
    /// from a player to the host alone. `None` when it cannot be routed: the
    /// sender is not attached, or is a player in a room without a host.
    pub open spec fn routing(self, from: ParticipantId, payload: Seq<char>) -> Option<
        Seq<DeliveryView>,
    > {
        let message = MessageView::Relay { from, payload };
        if self.is_host(from) {
            Some(Self::fan_out(self.player_ids(), message))
        } else if self.is_player(from) {
            match self.host {
                Some(h) => Some(seq![DeliveryView { to: h.id, message }]),
                None => None,
            }
        } else {
            None
        }
    }

    /// The invariant of a room: player ids grow in attach order, the host is
    /// not among the players, and no attached id is above `last_id`.
    pub open spec fn wf(self) -> bool {
        &&& forall|i: int, j: int|
            0 <= i < j < self.players.len() ==> self.players[i].id < self.players[j].id
        &&& forall|i: int|
            0 <= i < self.players.len() ==> 1 <= (#[trigger] self.players[i]).id <= self.last_id
        &&& self.host matches Some(h) ==> 1 <= h.id <= self.last_id && !self.is_player(h.id)
        &&& self.host is Some ==> self.had_host
        &&& self.last_id < u64::MAX
    }
}

/// Taking a participant out of a valid room leaves a valid room.
pub proof fn lemma_without_keeps_wf(room: RoomView, id: ParticipantId)
    requires
        room.wf(),
    ensures
        room.without(id).wf(),
        !room.without(id).is_attached(id),
{
    let rest = room.without(id);
    if room.is_host(id) {
        assert(rest.player_ids() =~= room.player_ids());
    } else if room.is_player(id) {
        let at = room.position(id);
        let ids = room.player_ids();
        assert(ids.contains(id));
        let w = choose|k: int| 0 <= k < ids.len() && ids[k] == id;
        assert(room.players[w].id == id);
        assert(0 <= at < room.players.len() && room.players[at].id == id);
        assert forall|k: int| 0 <= k < rest.players.len() implies (#[trigger] rest.players[k]).id
            != id && 1 <= rest.players[k].id <= rest.last_id by {
            if k < at {
                assert(rest.players[k] == room.players[k]);
            } else {
                assert(rest.players[k] == room.players[k + 1]);
            }
        }
        assert forall|i: int, j: int| 0 <= i < j < rest.players.len() implies rest.players[i].id
            < rest.players[j].id by {
            let a = if i < at { i } else { i + 1 };
            let b = if j < at { j } else { j + 1 };
            assert(rest.players[i] == room.players[a]);
            assert(rest.players[j] == room.players[b]);
        }
        let rest_ids = rest.player_ids();
        assert forall|k: int| 0 <= k < rest_ids.len() implies rest_ids[k] != id by {
            assert(rest_ids[k] == rest.players[k].id);
        }
        if let Some(h) = rest.host {
            assert forall|k: int| 0 <= k < rest_ids.len() implies rest_ids[k] != h.id by {
                let a = if k < at { k } else { k + 1 };
                assert(rest.players[k] == room.players[a]);
                assert(ids[a] == room.players[a].id);
            }
        }
    } else {
    }
}

/// The `n` first players of a valid room have ids of at least 1, 2, ..., so a
/// room never holds more players than its highest id.
pub proof fn lemma_players_fit(room: RoomView, n: int)
    requires
        room.wf(),
        0 <= n <= room.players.len(),
    ensures
        n <= room.last_id,
        n > 0 ==> room.players[n - 1].id >= n,
    decreases n,
{
    if n > 1 {
        lemma_players_fit(room, n - 1);
        assert(room.players[n - 2].id < room.players[n - 1].id);
    } else if n == 1 {
        assert(1 <= room.players[0].id);
    }
}

/// A successful attach leaves a valid room, in which the newcomer is attached
/// under the role it asked for and holds an id that the room has never seen.
pub proof fn theorem_attach_keeps_wf(
    room: RoomView,
    next_id: u64,
    role: Role,
    name: Seq<char>,
    token: Option<Seq<char>>,
)
    requires
        room.wf(),
        room.attach_outcome(next_id, role, token) is Ok,
    ensures
        ({
            let id = room.attach_outcome(next_id, role, token)->Ok_0;
            let after = room.attached(role, name, id);
            &&& after.wf()
            &&& id > room.last_id
            &&& id >= next_id
            &&& !room.is_attached(id)
            &&& after.role_of(id) == Some(role)
            &&& after.count() == room.count() + 1
        }),
{
    let id = room.attach_outcome(next_id, role, token)->Ok_0;
    let after = room.attached(role, name, id);
    let ids = room.player_ids();
    assert forall|k: int| 0 <= k < ids.len() implies ids[k] != id by {
        assert(ids[k] == room.players[k].id);
    }
    match role {
        Role::Host => {
            assert(after.player_ids() =~= ids);
        },
        Role::Player => {
            assert(after.player_ids() =~= ids.push(id));
            assert(after.player_ids()[ids.len() as int] == id);
            if let Some(h) = room.host {
                let after_ids = after.player_ids();
                assert forall|k: int| 0 <= k < after_ids.len() implies after_ids[k] != h.id by {
                    if k < ids.len() {
                        assert(after_ids[k] == ids[k]);
                    }
                }
            }
        },
    }
}

/// A player is never asked for a token: whatever it presents, the attach ends
/// the same way, and never with `Unauthorized` or `RoleConflict`.
pub proof fn theorem_player_needs_no_token(
    room: RoomView,
    next_id: u64,
    token: Option<Seq<char>>,
    other: Option<Seq<char>>,
)
    ensures
        room.attach_outcome(next_id, Role::Player, token) == room.attach_outcome(
            next_id,
            Role::Player,
            other,
        ),
        room.attach_outcome(next_id, Role::Player, token) != Err::<ParticipantId, Error>(
            Error::Unauthorized,
        ),
        room.attach_outcome(next_id, Role::Player, token) != Err::<ParticipantId, Error>(
            Error::RoleConflict,
        ),
{
}

/// A host that presents no token, or one that is not the room's, is turned
/// away with `Unauthorized`, whatever else holds of the room.
pub proof fn theorem_host_needs_the_token(room: RoomView, next_id: u64, token: Option<Seq<char>>)
    requires
        token != Some(room.token),
    ensures
        room.attach_outcome(next_id, Role::Host, token) == Err::<ParticipantId, Error>(
            Error::Unauthorized,
        ),
{
}

/// A room has at most one host. Of two requests for the host role that
/// present the room's token, the first succeeds if the slot is free and an id
/// is left, and the second then fails with `RoleConflict`; so does every
/// later one until the host detaches.
pub proof fn theorem_one_host(
    room: RoomView,
    name: Seq<char>,
    next_id: u64,
    later_id: u64,
)
    requires
        room.host is None,
        fresh_id(next_id, room.last_id) is Some,
    ensures
        room.attach_outcome(next_id, Role::Host, Some(room.token)) is Ok,
        ({
            let id = room.attach_outcome(next_id, Role::Host, Some(room.token))->Ok_0;
            let after = room.attached(Role::Host, name, id);
            &&& after.is_host(id)
            &&& after.attach_outcome(later_id, Role::Host, Some(room.token)) == Err::<
                ParticipantId,
                Error,
            >(Error::RoleConflict)
        }),
{
}

/// While the host slot is occupied, nobody else becomes host, whatever token
/// is presented.
pub proof fn theorem_occupied_host_slot(room: RoomView, next_id: u64, token: Option<Seq<char>>)
    requires
        room.host is Some,
    ensures
        room.attach_outcome(next_id, Role::Host, token) is Err,
        token == Some(room.token) ==> room.attach_outcome(next_id, Role::Host, token) == Err::<
            ParticipantId,
            Error,
        >(Error::RoleConflict),
{
}

/// What the host sends reaches every attached player exactly once, unchanged,
/// and never the host.
pub proof fn theorem_host_relay(room: RoomView, from: ParticipantId, payload: Seq<char>)
    requires
        room.wf(),
        room.is_host(from),
    ensures
        room.routing(from, payload) is Some,
        ({
            let batch = room.routing(from, payload)->Some_0;
            &&& recipients(batch) == room.player_ids()
            &&& recipients(batch).no_duplicates()
            &&& !recipients(batch).contains(from)
            &&& forall|id: ParticipantId| room.is_player(id) <==> recipients(batch).contains(id)
            &&& forall|k: int|
                0 <= k < batch.len() ==> (#[trigger] batch[k]).message == (MessageView::Relay {
                    from,
                    payload,
                })
        }),
{
    let batch = room.routing(from, payload)->Some_0;
    let ids = room.player_ids();
    assert(recipients(batch) =~= ids);
    assert forall|i: int, j: int| 0 <= i < ids.len() && 0 <= j < ids.len() && i != j implies ids[i]
        != ids[j] by {
        if i < j {
            assert(room.players[i].id < room.players[j].id);
        } else {
            assert(room.players[j].id < room.players[i].id);
        }
    }
}

/// What a player sends reaches the host alone, unchanged, and no player; if
/// no host is attached it reaches nobody.
pub proof fn theorem_player_relay(room: RoomView, from: ParticipantId, payload: Seq<char>)
    requires
        room.wf(),
        room.is_player(from),
    ensures
        match room.host {
            Some(h) => room.routing(from, payload) == Some(
                seq![DeliveryView { to: h.id, message: MessageView::Relay { from, payload } }],
            ) && !room.is_player(h.id),
            None => room.routing(from, payload) is None,
        },
{
    assert(!room.is_host(from));
}

/// A payload from somebody who is not attached goes nowhere.
pub proof fn theorem_stranger_relay(room: RoomView, from: ParticipantId, payload: Seq<char>)
    requires
        !room.is_attached(from),
    ensures
        room.routing(from, payload) is None,
{
}

/// Detaching keeps the room valid, takes out the one participant and nobody
/// else, and leaves the token in place, so that a new host can attach later.
pub proof fn theorem_detach_keeps_wf(room: RoomView, id: ParticipantId, now: u64)
    requires
        room.wf(),
    ensures
        room.detached(id, now).wf(),
        !room.detached(id, now).is_attached(id),
        room.detached(id, now).token == room.token,
        room.detached(id, now).code == room.code,
        room.is_attached(id) ==> room.detached(id, now).count() + 1 == room.count(),
        forall|other: ParticipantId|
            other != id ==> room.detached(id, now).role_of(other) == room.role_of(other),
{
    lemma_without_keeps_wf(room, id);
    let rest = room.without(id);
    let after = room.detached(id, now);
    assert(after.players == rest.players);
    assert(after.host == rest.host);
    assert(after.player_ids() == rest.player_ids());
    if room.is_host(id) {
        assert(rest.player_ids() =~= room.player_ids());
    } else if room.is_player(id) {
        let at = room.position(id);
        let ids = room.player_ids();
        let w = choose|k: int| 0 <= k < ids.len() && ids[k] == id;
        assert(room.players[w].id == id);
        assert(0 <= at < room.players.len() && room.players[at].id == id);
        assert(rest.player_ids() =~= ids.remove(at));
        assert forall|other: ParticipantId| other != id implies rest.is_player(other)
            == room.is_player(other) by {
            if room.is_player(other) {
                let k = choose|k: int| 0 <= k < ids.len() && ids[k] == other;
                let m = if k < at { k } else { k - 1 };
                assert(ids.remove(at)[m] == other);
            }
            if rest.is_player(other) {
                let m = choose|m: int| 0 <= m < ids.remove(at).len() && ids.remove(at)[m] == other;
                let k = if m < at { m } else { m + 1 };
                assert(ids[k] == other);
            }
        }
    }
}

/// Detaching twice is detaching once: the second call changes nothing and
/// sends nothing.
pub proof fn theorem_detach_idempotent(room: RoomView, id: ParticipantId, now: u64, later: u64)
    requires
        room.wf(),
    ensures
        room.detached(id, now).detached(id, later) == room.detached(id, now),
        room.detached(id, now).detach_deliveries(id) == Seq::<DeliveryView>::empty(),
{
    theorem_detach_keeps_wf(room, id, now);
}

/// An id above the highest that a valid room has seen is not attached to it.
pub proof fn lemma_unseen_id_is_absent(room: RoomView, id: ParticipantId)
    requires
        room.wf(),
        id > room.last_id,
    ensures
        !room.is_attached(id),
{
    let ids = room.player_ids();
    assert forall|k: int| 0 <= k < ids.len() implies ids[k] != id by {
        assert(ids[k] == room.players[k].id);
    }
}

} // verus!
