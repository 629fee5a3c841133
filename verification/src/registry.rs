use vstd::prelude::*;
use crate::codes::{Generator, JoinToken, RoomCode, CODE_LENGTH, TOKEN_LENGTH};
use crate::error::Error;
use crate::ids::ParticipantIds;
use crate::message::{delivery_views, Delivery, DeliveryView, ParticipantId, Role};
use crate::registry_model::{
    by_code, distinct_codes, has_code,
    lemma_add_empty_room, lemma_by_code_at, lemma_by_code_push, lemma_by_code_remove,
    lemma_by_code_update, lemma_first_free_is_unique, lemma_no_first_free, lemma_state_at_next,
    lemma_closed_keeps_wf, lemma_left_keeps_wf, theorem_join_assigns_new_id, Config, RegistryView,
};
use crate::room::{token_view, Attached, Room, Routing};
use crate::room_model::{theorem_detach_keeps_wf, RoomView};

verus! {

/// The rooms of one process, by their codes, together with the sources of
/// participant ids and of room codes.
pub struct RoomRegistry {
    rooms: Vec<Room>,
    ids: ParticipantIds,
    codes: Generator,
    config: Config,
}

impl View for RoomRegistry {
    type V = RegistryView;

    closed spec fn view(&self) -> RegistryView {
        RegistryView {
            rooms: by_code(self.room_views()),
            next_id: self.ids.next_id(),
            generator: self.codes.state(),
            config: self.config,
        }
    }
}

impl RoomRegistry {
    /// The rooms in the order in which they are stored.
    closed spec fn room_views(&self) -> Seq<RoomView> {
        self.rooms@.map_values(|r: Room| r@)
    }

    /// The invariant that every operation keeps: no two rooms share a code,
    /// every room is valid, every id that a room has seen was handed out,
    /// and no id is attached to two rooms.
    pub closed spec fn wf(&self) -> bool {
        &&& self.stored_wf()
        &&& self@.ids_unique()
    }

    /// What the invariant asks of the rooms one by one.
    closed spec fn stored_wf(&self) -> bool {
        &&& distinct_codes(self.room_views())
        &&& self.ids.next_id() >= 1
        &&& forall|i: int|
            0 <= i < self.rooms.len() ==> (#[trigger] self.rooms[i]).wf() && self.rooms[i]@.last_id
                < self.ids.next_id()
    }

    /// A valid registry has a valid model.
    pub proof fn lemma_view_wf(&self)
        requires
            self.wf(),
        ensures
            self@.wf(),
    {
        let views = self.room_views();
        assert forall|code: Seq<char>| #[trigger] self@.rooms.contains_key(code) implies {
            &&& self@.rooms[code].wf()
            &&& self@.rooms[code].code == code
            &&& self@.rooms[code].last_id < self@.next_id
        } by {
            let i = choose|i: int| 0 <= i < views.len() && (#[trigger] views[i]).code == code;
            lemma_by_code_at(views, i);
            assert(self.rooms[i].wf());
        }
    }

    /// A registry without rooms, whose code generator starts from `seed`.
    pub fn new(seed: u64, config: Config) -> (registry: RoomRegistry)
        ensures
            registry.wf(),
            registry@ == RegistryView::fresh(seed, config),
    {
        let registry = RoomRegistry {
            rooms: Vec::new(),
            ids: ParticipantIds::new(),
            codes: Generator::new(seed),
            config,
        };
        assert(registry@.rooms =~= Map::empty());
        assert(registry.room_views() =~= Seq::empty());
        registry
    }

    /// Restarts the code generator from `seed`. The rooms stay as they are;
    /// codes in use are still never handed out again.
    pub fn reseed(&mut self, seed: u64)
        requires
            old(self).wf(),
        ensures
            final(self).wf(),
            final(self)@ == (RegistryView { generator: seed, ..old(self)@ }),
    {
        self.codes = Generator::new(seed);
    }

    /// The settings that the registry was made with.
    pub fn config(&self) -> (config: Config)
        ensures
            config == self@.config,
    {
        self.config
    }

    /// Where the room with this code is stored.
    fn find(&self, code: &RoomCode) -> (at: Option<usize>)
        requires
            self.wf(),
        ensures
            match at {
                Some(i) => i < self.rooms.len() && self.rooms[i as int]@.code == code@
                    && self@.rooms.contains_key(code@) && self@.rooms[code@]
                    == self.rooms[i as int]@,
                None => !self@.rooms.contains_key(code@),
            },
    {
        let mut i: usize = 0;
        while i < self.rooms.len()
            invariant
                i <= self.rooms.len(),
                self.wf(),
                forall|k: int| 0 <= k < i ==> (#[trigger] self.room_views()[k]).code != code@,
            decreases self.rooms.len() - i,
        {
            if *self.rooms[i].code() == *code {
                proof {
                    assert(self.room_views()[i as int] == self.rooms[i as int]@);
                    lemma_by_code_at(self.room_views(), i as int);
                }
                return Some(i);
            }
            assert(self.room_views()[i as int] == self.rooms[i as int]@);
            i += 1;
        }
        None
    }

    /// Registers an empty room under a code that is not in use.
    fn register(&mut self, code: RoomCode, token: JoinToken, now: u64)
        requires
            old(self).wf(),
            !old(self)@.rooms.contains_key(code@),
        ensures
            final(self).wf(),
            final(self)@ == (RegistryView {
                rooms: old(self)@.rooms.insert(
                    code@,
                    RoomView::fresh(code@, token@, now, old(self)@.config.policy),
                ),
                ..old(self)@
            }),
    {
        let ghost start = self@;
        let ghost views = self.room_views();
        let ghost before = self.rooms@;
        let room = Room::new(code, token, now, self.config.policy);
        proof {
            self.lemma_view_wf();
            lemma_add_empty_room(start, code@, token@, now);
            assert(!has_code(views, room@.code));
            lemma_by_code_push(views, room@);
        }
        self.rooms.push(room);
        assert(self.room_views() =~= views.push(room@));
        assert forall|i: int| 0 <= i < self.rooms.len() implies (#[trigger] self.rooms[i]).wf()
            && self.rooms[i]@.last_id < self.ids.next_id() by {
            if i < before.len() {
                assert(self.rooms[i] == before[i]);
            }
        }
    }

    /// Creates an empty room under a code that is not in use and returns the
    /// code and the join token. Candidate codes are drawn from the generator,
    /// at most `retry_budget` of them; if all are in use the call fails with
    /// `ResourceExhausted` and registers nothing.
    pub fn create(&mut self, now: u64) -> (res: Result<(RoomCode, JoinToken), Error>)
        requires
            old(self).wf(),
        ensures
            final(self).wf(),
            final(self)@ == old(self)@.after_create(now),
            match res {
                Ok((code, token)) => old(self)@.create_outcome() == Ok::<
                    (Seq<char>, Seq<char>),
                    Error,
                >((code@, token@)),
                Err(e) => old(self)@.create_outcome() == Err::<(Seq<char>, Seq<char>), Error>(e),
            },
    {
        let ghost start = self@;
        let mut attempt: u32 = 0;
        proof {
            lemma_state_at_next(start, 0);
        }
        while attempt < self.config.retry_budget
            invariant
                self.wf(),
                start == old(self)@,
                attempt <= self.config.retry_budget,
                self@.rooms == start.rooms,
                self@.next_id == start.next_id,
                self@.config == start.config,
                self@.generator == start.state_at(attempt as nat),
                forall|j: nat|
                    j < attempt ==> start.rooms.contains_key(#[trigger] start.candidate(j)),
            decreases self.config.retry_budget - attempt,
        {
            let code = self.codes.draw(CODE_LENGTH);
            proof {
                lemma_state_at_next(start, attempt as nat);
            }
            if self.find(&code).is_none() {
                let token = self.codes.draw(TOKEN_LENGTH);
                self.register(code.clone(), token.clone(), now);
                proof {
                    lemma_first_free_is_unique(start, attempt as nat);
                }
                return Ok((code, token));
            }
            attempt += 1;
        }
        proof {
            lemma_no_first_free(start);
        }
        Err(Error::ResourceExhausted)
    }

    /// Looks a room up by its code. Returns nothing if no room is registered
    /// under the code, or if the room has expired at `now`.
    pub fn get(&self, code: &RoomCode, now: u64) -> (room: Option<&Room>)
        requires
            self.wf(),
        ensures
            match room {
                Some(r) => self@.lookup(code@, now) == Some(r@) && r.wf(),
                None => self@.lookup(code@, now) is None,
            },
    {
        match self.find(code) {
            Some(i) => {
                let room = &self.rooms[i];
                if room.is_expired(now, self.config.idle_timeout) {
                    None
                } else {
                    Some(room)
                }
            },
            None => None,
        }
    }

    /// Removes the rooms that have been empty for longer than the idle
    /// timeout at `now`. Every other room stays as it is.
    pub fn sweep(&mut self, now: u64)
        requires
            old(self).wf(),
        ensures
            final(self).wf(),
            final(self)@ == old(self)@.swept(now),
    {
        let ghost start = self@;
        let mut i: usize = 0;
        while i < self.rooms.len()
            invariant
                i <= self.rooms.len(),
                self.wf(),
                self@.swept(now) == start.swept(now),
                forall|k: int|
                    0 <= k < i ==> !(#[trigger] self.room_views()[k]).is_expired(
                        now,
                        self.config.idle_timeout,
                    ),
            decreases self.rooms.len() - i,
        {
            let ghost before = self@;
            let ghost views = self.room_views();
            assert(views[i as int] == self.rooms[i as int]@);
            if self.rooms[i].is_expired(now, self.config.idle_timeout) {
                proof {
                    self.lemma_view_wf();
                    lemma_closed_keeps_wf(before, views[i as int].code);
                }
                self.rooms.remove(i);
                proof {
                    lemma_by_code_at(views, i as int);
                    lemma_by_code_remove(views, i as int);
                    assert(self.room_views() =~= views.remove(i as int));
                    assert(self@ == before.closed(views[i as int].code));
                    assert(self@.swept(now).rooms =~= before.swept(now).rooms);
                    assert forall|k: int| 0 <= k < i implies !(#[trigger] self.room_views()[
                        k
                    ]).is_expired(now, self.config.idle_timeout) by {
                        assert(self.room_views()[k] == views[k]);
                    }
                }
            } else {
                i += 1;
            }
        }
        proof {
            let views = self.room_views();
            assert forall|code: Seq<char>| self@.rooms.contains_key(code) implies self@.is_live(
                code,
                now,
            ) by {
                let k = choose|k: int| 0 <= k < views.len() && (#[trigger] views[k]).code == code;
                lemma_by_code_at(views, k);
            }
            assert(self@.swept(now).rooms =~= self@.rooms);
        }
    }

    /// Closes the room `code`, whoever is attached to it, and says whether
    /// there was such a room. Its join token dies with it.
    pub fn close(&mut self, code: &RoomCode) -> (found: bool)
        requires
            old(self).wf(),
        ensures
            final(self).wf(),
            found == old(self)@.rooms.contains_key(code@),
            final(self)@ == old(self)@.closed(code@),
    {
        let ghost start = self@;
        let ghost views = self.room_views();
        proof {
            self.lemma_view_wf();
            lemma_closed_keeps_wf(start, code@);
        }
        match self.find(code) {
            Some(i) => {
                self.rooms.remove(i);
                proof {
                    assert(views[i as int].code == code@);
                    lemma_by_code_remove(views, i as int);
                    assert(self.room_views() =~= views.remove(i as int));
                    assert(self@ == start.closed(code@));
                }
                true
            },
            None => {
                assert(self@.rooms =~= self@.rooms.remove(code@));
                false
            },
        }
    }

    /// Attaches a participant to the room `code`. The request is checked in
    /// this order: the room must be registered and not expired
    /// (`RoomNotFound`), a host must present the room's join token
    /// (`Unauthorized`), the display name must not be empty
    /// (`InvalidRequest`), the host slot must be free (`RoleConflict`), and
    /// an id must be left (`ResourceExhausted`). A request that fails changes
    /// nothing.
    pub fn join(
        &mut self,
        code: &RoomCode,
        role: Role,
        name: String,
        token: Option<JoinToken>,
        now: u64,
    ) -> (res: Result<Attached, Error>)
        requires
            old(self).wf(),
        ensures
            final(self).wf(),
            final(self)@ == old(self)@.joined(code@, role, name@, token_view(token), now),
            match res {
                Ok(a) => {
                    &&& old(self)@.join_outcome(code@, role, name@, token_view(token), now)
                        == Ok::<ParticipantId, Error>(a.id)
                    &&& delivery_views(a.deliveries@) == old(self)@.join_deliveries(
                        code@,
                        role,
                        name@,
                        token_view(token),
                        now,
                    )
                },
                Err(e) => old(self)@.join_outcome(code@, role, name@, token_view(token), now)
                    == Err::<ParticipantId, Error>(e),
            },
    {
        let ghost start = self@;
        let ghost views = self.room_views();
        let ghost stored = self.rooms@;
        proof {
            self.lemma_view_wf();
        }
        let at = match self.find(code) {
            Some(i) => i,
            None => {
                return Err(Error::RoomNotFound);
            },
        };
        if self.rooms[at].is_expired(now, self.config.idle_timeout) {
            return Err(Error::RoomNotFound);
        }
        let is_host = match role {
            Role::Host => true,
            Role::Player => false,
        };
        if is_host {
            let authorized = match &token {
                Some(t) => *t == *self.rooms[at].token(),
                None => false,
            };
            if !authorized {
                return Err(Error::Unauthorized);
            }
        }
        if name.as_str().is_empty() {
            return Err(Error::InvalidRequest);
        }
        let ghost before = self.rooms[at as int]@;
        let res = self.rooms[at].attach(&mut self.ids, role, name, token);
        let ghost room = self.rooms[at as int];
        proof {
            assert(before.code == room@.code);
            lemma_by_code_update(views, at as int, room@);
            assert(self.rooms@ =~= stored.update(at as int, room));
            assert(self.room_views() =~= views.update(at as int, room@));
            assert forall|i: int| 0 <= i < self.rooms.len() implies (#[trigger] self.rooms[i]).wf()
                && self.rooms[i]@.last_id < self.ids.next_id() by {
                if i != at {
                    assert(self.rooms[i] == stored[i]);
                }
            }
            if res is Err {
                assert(by_code(views).insert(room@.code, room@) =~= by_code(views));
            } else {
                theorem_join_assigns_new_id(start, code@, role, name@, token_view(token), now);
            }
            assert(self@ == start.joined(code@, role, name@, token_view(token), now));
        }
        res
    }

    /// Detaches `id` from the room `code` at time `now` and returns the
    /// departure notices for those who remain. Nothing happens, and nothing
    /// is returned, if there is no such room or if `id` is not attached to
    /// it: leaving twice is leaving once.
    pub fn leave(&mut self, code: &RoomCode, id: ParticipantId, now: u64) -> (out: Vec<Delivery>)
        requires
            old(self).wf(),
        ensures
            final(self).wf(),
            final(self)@ == old(self)@.left(code@, id, now),
            delivery_views(out@) == old(self)@.leave_deliveries(code@, id),
    {
        let ghost start = self@;
        let ghost views = self.room_views();
        let ghost stored = self.rooms@;
        proof {
            self.lemma_view_wf();
            lemma_left_keeps_wf(start, code@, id, now);
        }
        let at = match self.find(code) {
            Some(i) => i,
            None => {
                return Vec::new();
            },
        };
        let ghost before = self.rooms[at as int]@;
        let out = self.rooms[at].detach(id, now);
        let ghost room = self.rooms[at as int];
        proof {
            theorem_detach_keeps_wf(before, id, now);
            assert(room@.last_id == before.last_id);
            lemma_by_code_update(views, at as int, room@);
            assert(self.rooms@ =~= stored.update(at as int, room));
            assert(self.room_views() =~= views.update(at as int, room@));
            assert forall|i: int| 0 <= i < self.rooms.len() implies (#[trigger] self.rooms[i]).wf()
                && self.rooms[i]@.last_id < self.ids.next_id() by {
                if i != at {
                    assert(self.rooms[i] == stored[i]);
                }
            }
            assert(self@ == start.left(code@, id, now));
        }
        out
    }

    /// Routes a payload that `from` sends in the room `code`: from the host
    /// to every player, from a player to the host alone. It is dropped if
    /// there is no such room, if the sender is not attached to it, or if a
    /// player sends while no host is attached.
    pub fn relay(&self, code: &RoomCode, from: ParticipantId, payload: &String) -> (out: Routing)
        requires
            self.wf(),
        ensures
            match out {
                Routing::Deliver(batch) => self@.routing(code@, from, payload@) == Some(
                    delivery_views(batch@),
                ),
                Routing::Drop => self@.routing(code@, from, payload@) is None,
            },
    {
        match self.find(code) {
            Some(i) => self.rooms[i].relay(from, payload),
            None => Routing::Drop,
        }
    }
}

} // verus!
