use vstd::prelude::*;
use crate::codes::{JoinToken, RoomCode};
use crate::error::Error;
use crate::ids::ParticipantIds;
use crate::message::{delivery_views, Delivery, DeliveryView, Message, ParticipantId, Role};
use crate::room_model::{
    lemma_players_fit, lemma_without_keeps_wf, Member, ReconnectPolicy, RoomView,
};

verus! {

/// The outcome of a successful attach.
#[derive(Debug, PartialEq, Eq)]
pub struct Attached {
    /// The id assigned to the newcomer.
    pub id: ParticipantId,
    /// What has to be sent, in this order.
    pub deliveries: Vec<Delivery>,
}

/// The token that a request presents, if any.
pub open spec fn token_view(token: Option<String>) -> Option<Seq<char>> {
    match token {
        Some(t) => Some(t@),
        None => None,
    }
}

/// Where a relayed payload goes.
#[derive(Debug, PartialEq, Eq)]
pub enum Routing {
    /// Send these, in this order.
    Deliver(Vec<Delivery>),
    /// Nobody can receive the payload: it is dropped, which is worth a
    /// warning in the log and is no error for the sender.
    Drop,
}

/// One attached participant.
struct Participant {
    id: ParticipantId,
    name: String,
}

impl View for Participant {
    type V = Member;

    closed spec fn view(&self) -> Member {
        Member { id: self.id, name: self.name@ }
    }
}

/// A game session: at most one host, any number of players.
pub struct Room {
    code: RoomCode,
    token: JoinToken,
    host: Option<Participant>,
    players: Vec<Participant>,
    created_at: u64,
    idle_since: u64,
    last_id: ParticipantId,
    had_host: bool,
    policy: ReconnectPolicy,
}

impl View for Room {
    type V = RoomView;

    closed spec fn view(&self) -> RoomView {
        RoomView {
            code: self.code@,
            token: self.token@,
            host: match self.host {
                Some(h) => Some(h@),
                None => None,
            },
            players: self.players@.map_values(|p: Participant| p@),
            created_at: self.created_at,
            idle_since: self.idle_since,
            last_id: self.last_id,
            had_host: self.had_host,
            policy: self.policy,
        }
    }
}

impl Room {
    /// The invariant that every operation keeps.
    pub open spec fn wf(&self) -> bool {
        self@.wf()
    }

    /// An empty room with the given code and join token, created at `now`.
    pub fn new(code: RoomCode, token: JoinToken, now: u64, policy: ReconnectPolicy) -> (room:
        Room)
        ensures
            room.wf(),
            room@ == RoomView::fresh(code@, token@, now, policy),
    {
        let room = Room {
            code,
            token,
            host: None,
            players: Vec::new(),
            created_at: now,
            idle_since: now,
            last_id: 0,
            had_host: false,
            policy,
        };
        assert(room@.players =~= Seq::empty());
        room
    }

    /// True when neither a host nor a player is attached.
    pub fn is_empty(&self) -> (empty: bool)
        ensures
            empty == self@.is_empty(),
    {
        self.host.is_none() && self.players.len() == 0
    }

    /// Whether the room has been empty for longer than `timeout` at `now`.
    pub fn is_expired(&self, now: u64, timeout: u64) -> (expired: bool)
        ensures
            expired == self@.is_expired(now, timeout),
    {
        self.is_empty() && now > self.idle_since && now - self.idle_since > timeout
    }

    /// The code under which the room is known.
    pub fn code(&self) -> (code: &RoomCode)
        ensures
            code@ == self@.code,
    {
        &self.code
    }

    /// The token that a host has to present.
    pub fn token(&self) -> (token: &JoinToken)
        ensures
            token@ == self@.token,
    {
        &self.token
    }

    /// When the room was created.
    pub fn created_at(&self) -> (at: u64)
        ensures
            at == self@.created_at,
    {
        self.created_at
    }

    /// The id of the attached host, if there is one.
    pub fn host_id(&self) -> (id: Option<ParticipantId>)
        ensures
            id == (match self@.host {
                Some(h) => Some(h.id),
                None => None,
            }),
    {
        match &self.host {
            Some(h) => Some(h.id),
            None => None,
        }
    }

    /// Attaches a participant under `role`. A host must present the room's
    /// join token and find the host slot free; a player needs no token. On
    /// success the participant has a fresh id, and the deliveries hold its
    /// welcome and, for a player, the roster update for the host. On failure
    /// neither the room nor the id source changes.
    pub fn attach(
        &mut self,
        ids: &mut ParticipantIds,
        role: Role,
        name: String,
        token: Option<JoinToken>,
    ) -> (res: Result<Attached, Error>)
        requires
            old(self).wf(),
        ensures
            final(self).wf(),
            match res {
                Ok(a) => {
                    &&& old(self)@.attach_outcome(old(ids).next_id(), role, token_view(token))
                        == Ok::<ParticipantId, Error>(a.id)
                    &&& final(self)@ == old(self)@.attached(role, name@, a.id)
                    &&& delivery_views(a.deliveries@) == old(self)@.attach_deliveries(
                        role,
                        name@,
                        a.id,
                    )
                    &&& final(ids).next_id() == a.id + 1
                },
                Err(e) => {
                    &&& old(self)@.attach_outcome(old(ids).next_id(), role, token_view(token))
                        == Err::<ParticipantId, Error>(e)
                    &&& final(self)@ == old(self)@
                    &&& final(ids).next_id() == old(ids).next_id()
                },
            },
    {
        let is_host = match role {
            Role::Host => true,
            Role::Player => false,
        };
        if is_host {
            let authorized = match &token {
                Some(t) => *t == self.token,
                None => false,
            };
            if !authorized {
                return Err(Error::Unauthorized);
            }
            if self.host.is_some() {
                return Err(Error::RoleConflict);
            }
        }
        let id = match ids.allocate_after(self.last_id) {
            Some(id) => id,
            None => {
                return Err(Error::ResourceExhausted);
            },
        };
        let reconnect = is_host && self.had_host && match self.policy {
            ReconnectPolicy::Resume => true,
            ReconnectPolicy::Fresh => false,
        };
        let mut deliveries: Vec<Delivery> = Vec::new();
        deliveries.push(
            Delivery { to: id, message: Message::Welcome { participant_id: id, reconnect } },
        );
        let ghost before = self@;
        if is_host {
            self.host = Some(Participant { id, name });
            self.had_host = true;
            self.last_id = id;
            assert(self@.players =~= before.players);
        } else {
            match &self.host {
                Some(h) => {
                    deliveries.push(
                        Delivery {
                            to: h.id,
                            message: Message::Joined { participant_id: id, name: name.clone() },
                        },
                    );
                },
                None => {},
            }
            self.players.push(Participant { id, name });
            self.last_id = id;
            assert(self@.players =~= before.players.push(Member { id, name: name@ }));
            assert(self@.player_ids() =~= before.player_ids().push(id));
        }
        assert(delivery_views(deliveries@) =~= before.attach_deliveries(role, name@, id));
        Ok(Attached { id, deliveries })
    }

    /// The index of the player `id` in `players`, if it is one.
    fn find_player(&self, id: ParticipantId) -> (at: Option<usize>)
        requires
            self.wf(),
        ensures
            match at {
                Some(i) => self@.is_player(id) && i == self@.position(id) && i < self.players.len(),
                None => !self@.is_player(id),
            },
    {
        let mut i: usize = 0;
        while i < self.players.len()
            invariant
                i <= self.players.len(),
                self.wf(),
                forall|k: int| 0 <= k < i ==> self@.players[k].id != id,
            decreases self.players.len() - i,
        {
            if self.players[i].id == id {
                proof {
                    let ids = self@.player_ids();
                    assert(ids[i as int] == id);
                    let j = self@.position(id);
                    assert(0 <= j < self@.players.len() && self@.players[j].id == id);
                }
                return Some(i);
            }
            i += 1;
        }
        proof {
            let ids = self@.player_ids();
            assert(forall|k: int| 0 <= k < ids.len() ==> ids[k] == self@.players[k].id);
        }
        None
    }

    /// One departure notice or relay per recipient: `message` for the host,
    /// if there is one and `with_host` says so, then for every player.
    fn notify_all(&self, message: &Message, with_host: bool) -> (out: Vec<Delivery>)
        ensures
            delivery_views(out@) == RoomView::fan_out(
                if with_host {
                    self@.everyone()
                } else {
                    self@.player_ids()
                },
                message@,
            ),
    {
        let mut out: Vec<Delivery> = Vec::new();
        if with_host {
            match &self.host {
                Some(h) => {
                    out.push(Delivery { to: h.id, message: message.duplicate() });
                },
                None => {},
            }
        }
        let ghost head = delivery_views(out@);
        let mut i: usize = 0;
        while i < self.players.len()
            invariant
                i <= self.players.len(),
                delivery_views(out@) == head + RoomView::fan_out(
                    self@.player_ids().take(i as int),
                    message@,
                ),
            decreases self.players.len() - i,
        {
            let ghost before = delivery_views(out@);
            out.push(Delivery { to: self.players[i].id, message: message.duplicate() });
            i += 1;
            proof {
                let to = self@.player_ids();
                assert(to.take(i as int) =~= to.take(i - 1).push(to[i - 1]));
                assert(delivery_views(out@) =~= before.push(
                    DeliveryView { to: to[i - 1], message: message@ },
                ));
                assert(delivery_views(out@) =~= head + RoomView::fan_out(
                    to.take(i as int),
                    message@,
                ));
            }
        }
        proof {
            let to = self@.player_ids();
            assert(to.take(i as int) =~= to);
            if with_host && self@.host is Some {
                assert(head + RoomView::fan_out(to, message@) =~= RoomView::fan_out(
                    self@.everyone(),
                    message@,
                ));
            } else {
                assert(head =~= Seq::<DeliveryView>::empty());
                assert(head + RoomView::fan_out(to, message@) =~= RoomView::fan_out(to, message@));
            }
        }
        out
    }

    /// Detaches `id` at time `now` and returns the departure notices for
    /// those who remain. Detaching an id that is not attached does nothing
    /// and returns nothing, so a second detach is harmless. The room stays
    /// open when its host leaves.
    pub fn detach(&mut self, id: ParticipantId, now: u64) -> (out: Vec<Delivery>)
        requires
            old(self).wf(),
        ensures
            final(self).wf(),
            final(self)@ == old(self)@.detached(id, now),
            delivery_views(out@) == old(self)@.detach_deliveries(id),
    {
        let ghost before = self@;
        let is_host = match &self.host {
            Some(h) => h.id == id,
            None => false,
        };
        if is_host {
            self.host = None;
            assert(self@.players =~= before.players);
        } else {
            match self.find_player(id) {
                Some(i) => {
                    self.players.remove(i);
                    assert(self@.players =~= before.players.remove(i as int));
                    assert(self@.player_ids() =~= before.player_ids().remove(i as int));
                },
                None => {
                    return Vec::new();
                },
            }
        }
        assert(self@ == before.without(id));
        proof {
            lemma_without_keeps_wf(before, id);
        }
        let out = self.notify_all(&Message::Left { participant_id: id }, true);
        if self.is_empty() {
            self.idle_since = now;
            assert(self@.players =~= before.without(id).players);
        }
        out
    }

    /// Routes a payload sent by `from`: from the host to every player, from a
    /// player to the host alone. A payload that cannot be routed is dropped.
    pub fn relay(&self, from: ParticipantId, payload: &String) -> (out: Routing)
        requires
            self.wf(),
        ensures
            match out {
                Routing::Deliver(batch) => self@.routing(from, payload@) == Some(
                    delivery_views(batch@),
                ),
                Routing::Drop => self@.routing(from, payload@) is None,
            },
    {
        let message = Message::Relay { from, payload: payload.clone() };
        let is_host = match &self.host {
            Some(h) => h.id == from,
            None => false,
        };
        if is_host {
            return Routing::Deliver(self.notify_all(&message, false));
        }
        match self.find_player(from) {
            Some(_) => {},
            None => {
                return Routing::Drop;
            },
        }
        match &self.host {
            Some(h) => {
                let mut batch: Vec<Delivery> = Vec::new();
                batch.push(Delivery { to: h.id, message });
                assert(delivery_views(batch@) =~= seq![
                    DeliveryView { to: h@.id, message: message@ },
                ]);
                Routing::Deliver(batch)
            },
            None => Routing::Drop,
        }
    }

    /// How many participants are attached.
    pub fn participant_count(&self) -> (n: u64)
        requires
            self.wf(),
        ensures
            n == self@.count(),
    {
        proof {
            lemma_players_fit(self@, self@.players.len() as int);
        }
        let players = self.players.len() as u64;
        if self.host.is_some() {
            players + 1
        } else {
            players
        }
    }

    /// The ids of the attached players, in attach order.
    pub fn player_ids(&self) -> (out: Vec<ParticipantId>)
        ensures
            out@ == self@.player_ids(),
    {
        let mut out: Vec<ParticipantId> = Vec::new();
        let mut i: usize = 0;
        while i < self.players.len()
            invariant
                i <= self.players.len(),
                out@ == self@.player_ids().take(i as int),
            decreases self.players.len() - i,
        {
            out.push(self.players[i].id);
            i += 1;
            proof {
                let to = self@.player_ids();
                assert(to.take(i as int) =~= to.take(i - 1).push(to[i - 1]));
            }
        }
        assert(self@.player_ids().take(i as int) =~= self@.player_ids());
        out
    }

    /// The role under which `id` is attached, if it is.
    pub fn role_of(&self, id: ParticipantId) -> (role: Option<Role>)
        requires
            self.wf(),
        ensures
            role == self@.role_of(id),
    {
        let is_host = match &self.host {
            Some(h) => h.id == id,
            None => false,
        };
        if is_host {
            Some(Role::Host)
        } else {
            match self.find_player(id) {
                Some(_) => Some(Role::Player),
                None => None,
            }
        }
    }
}

} // verus!
