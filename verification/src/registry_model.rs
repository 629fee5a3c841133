use vstd::prelude::*;
use crate::codes::{
    advance, drawn, lemma_advance_add, theorem_drawn_is_typable, CODE_LENGTH, TOKEN_LENGTH,
};
use crate::error::Error;
use crate::message::{DeliveryView, ParticipantId, Role};
use crate::room_model::{
    lemma_unseen_id_is_absent, theorem_attach_keeps_wf, theorem_detach_idempotent,
    theorem_detach_keeps_wf, ReconnectPolicy, RoomView,
};

verus! {

/// The settings of a registry.
#[derive(Clone, Copy, Debug, PartialEq, Eq, Structural)]
pub struct Config {
    /// How long a room may stay empty before it is removed, in the unit of
    /// the timestamps that the registry is given.
    pub idle_timeout: u64,
    /// How many candidate codes `create` tries before it gives up.
    pub retry_budget: u32,
    /// What a welcome says to a host that follows an earlier host.
    pub policy: ReconnectPolicy,
}

/// The mathematical state of a registry: the rooms by their codes, the next
/// participant id, and the state of the code generator.
pub struct RegistryView {
    pub rooms: Map<Seq<char>, RoomView>,
    pub next_id: u64,
    pub generator: u64,
    pub config: Config,
}

impl RegistryView {
    /// A registry without rooms.
    pub open spec fn fresh(seed: u64, config: Config) -> RegistryView {
        RegistryView { rooms: Map::empty(), next_id: 1, generator: seed, config }
    }

    /// The invariant of a registry: every room is valid and stands under its
    /// own code, every id that a room has seen was handed out already, and
    /// no id is attached to two rooms.
    pub open spec fn wf(self) -> bool {
        &&& self.next_id >= 1
        &&& self.ids_unique()
        &&& forall|code: Seq<char>| #[trigger]
            self.rooms.contains_key(code) ==> {
                &&& self.rooms[code].wf()
                &&& self.rooms[code].code == code
                &&& self.rooms[code].last_id < self.next_id
            }
    }

    /// Participant ids are unique in the whole registry: nobody is attached
    /// to two rooms under one id.
    pub open spec fn ids_unique(self) -> bool {
        forall|a: Seq<char>, b: Seq<char>, id: ParticipantId|
            a != b && self.rooms.contains_key(a) && self.rooms.contains_key(b)
                && #[trigger] self.rooms[a].is_attached(id) ==> !(#[trigger] self.rooms[
                b
            ].is_attached(id))
    }

    /// The state of the generator before the `k`-th attempt of `create`:
    /// each attempt draws one code.
    #[verifier::opaque]
    pub open spec fn state_at(self, k: nat) -> u64 {
        advance(self.generator, k * CODE_LENGTH as nat)
    }

    /// The code that the `k`-th attempt of `create` tries.
    pub open spec fn candidate(self, k: nat) -> Seq<char> {
        drawn(self.state_at(k), CODE_LENGTH as nat)
    }

    /// Whether attempt `k` is the first, within the retry budget, whose
    /// candidate is not in use.
    pub open spec fn is_first_free(self, k: nat) -> bool {
        &&& k < self.config.retry_budget
        &&& !self.rooms.contains_key(self.candidate(k))
        &&& forall|j: nat| j < k ==> self.rooms.contains_key(#[trigger] self.candidate(j))
    }

    /// The attempt at which `create` succeeds, if it does.
    pub open spec fn first_free(self) -> Option<nat> {
        if exists|k: nat| self.is_first_free(k) {
            Some(choose|k: nat| self.is_first_free(k))
        } else {
            None
        }
    }

    /// The state of the generator once `create` has returned.
    pub open spec fn generator_after_create(self) -> u64 {
        match self.first_free() {
            Some(k) => advance(self.state_at(k + 1), TOKEN_LENGTH as nat),
            None => self.state_at(self.config.retry_budget as nat),
        }
    }

    /// What `create` returns: the code and token of the new room, or
    /// `ResourceExhausted` when every candidate within the budget is in use.
    pub open spec fn create_outcome(self) -> Result<(Seq<char>, Seq<char>), Error> {
        match self.first_free() {
            Some(k) => Ok((self.candidate(k), drawn(self.state_at(k + 1), TOKEN_LENGTH as nat))),
            None => Err(Error::ResourceExhausted),
        }
    }

    /// The registry after `create` at time `now`.
    pub open spec fn after_create(self, now: u64) -> RegistryView {
        match self.create_outcome() {
            Ok((code, token)) => RegistryView {
                rooms: self.rooms.insert(
                    code,
                    RoomView::fresh(code, token, now, self.config.policy),
                ),
                generator: self.generator_after_create(),
                ..self
            },
            Err(_) => RegistryView { generator: self.generator_after_create(), ..self },
        }
    }

    /// Whether `code` names a room that is registered and has not expired.
    pub open spec fn is_live(self, code: Seq<char>, now: u64) -> bool {
        self.rooms.contains_key(code) && !self.rooms[code].is_expired(
            now,
            self.config.idle_timeout,
        )
    }

    /// The room that a lookup of `code` at time `now` finds.
    pub open spec fn lookup(self, code: Seq<char>, now: u64) -> Option<RoomView> {
        if self.is_live(code, now) {
            Some(self.rooms[code])
        } else {
            None
        }
    }

    /// The registry after a sweep at time `now`: the rooms that have been
    /// empty for longer than the idle timeout are gone, the others untouched.
    pub open spec fn swept(self, now: u64) -> RegistryView {
        RegistryView {
            rooms: Map::new(
                |code: Seq<char>| self.is_live(code, now),
                |code: Seq<char>| self.rooms[code],
            ),
            ..self
        }
    }

    /// The registry after the room `code` has been closed.
    pub open spec fn closed(self, code: Seq<char>) -> RegistryView {
        RegistryView { rooms: self.rooms.remove(code), ..self }
    }

    /// How a request to join ends: the id that is assigned, or the error.
    /// The checks run in this order: the room must be live, a host must
    /// present the room's token, the display name must not be empty, the
    /// host slot must be free, and an id must be left.
    pub open spec fn join_outcome(
        self,
        code: Seq<char>,
        role: Role,
        name: Seq<char>,
        token: Option<Seq<char>>,
        now: u64,
    ) -> Result<ParticipantId, Error> {
        if !self.is_live(code, now) {
            Err(Error::RoomNotFound)
        } else if role == Role::Host && token != Some(self.rooms[code].token) {
            Err(Error::Unauthorized)
        } else if name.len() == 0 {
            Err(Error::InvalidRequest)
        } else {
            self.rooms[code].attach_outcome(self.next_id, role, token)
        }
    }

    /// The registry after a request to join: changed only where the request
    /// succeeds.
    pub open spec fn joined(
        self,
        code: Seq<char>,
        role: Role,
        name: Seq<char>,
        token: Option<Seq<char>>,
        now: u64,
    ) -> RegistryView {
        match self.join_outcome(code, role, name, token, now) {
            Ok(id) => RegistryView {
                rooms: self.rooms.insert(code, self.rooms[code].attached(role, name, id)),
                next_id: (id + 1) as u64,
                ..self
            },
            Err(_) => self,
        }
    }

    /// What is sent after a request to join.
    pub open spec fn join_deliveries(
        self,
        code: Seq<char>,
        role: Role,
        name: Seq<char>,
        token: Option<Seq<char>>,
        now: u64,
    ) -> Seq<DeliveryView> {
        match self.join_outcome(code, role, name, token, now) {
            Ok(id) => self.rooms[code].attach_deliveries(role, name, id),
            Err(_) => Seq::empty(),
        }
    }

    /// The registry after `id` has left the room `code` at time `now`.
    pub open spec fn left(self, code: Seq<char>, id: ParticipantId, now: u64) -> RegistryView {
        if self.rooms.contains_key(code) {
            RegistryView {
                rooms: self.rooms.insert(code, self.rooms[code].detached(id, now)),
                ..self
            }
        } else {
            self
        }
    }

    /// The departure notices that are sent when `id` leaves the room `code`.
    pub open spec fn leave_deliveries(self, code: Seq<char>, id: ParticipantId) -> Seq<
        DeliveryView,
    > {
        if self.rooms.contains_key(code) {
            self.rooms[code].detach_deliveries(id)
        } else {
            Seq::empty()
        }
    }

    /// Where a payload that `from` sends in the room `code` goes; `None` when
    /// it is dropped.
    pub open spec fn routing(self, code: Seq<char>, from: ParticipantId, payload: Seq<char>)
        -> Option<Seq<DeliveryView>> {
        if self.rooms.contains_key(code) {
            self.rooms[code].routing(from, payload)
        } else {
            None
        }
    }
}

/// Whether a room with this code stands in the sequence.
pub open spec fn has_code(rooms: Seq<RoomView>, code: Seq<char>) -> bool {
    exists|i: int| 0 <= i < rooms.len() && (#[trigger] rooms[i]).code == code
}

/// Where the room with this code stands in the sequence.
pub open spec fn index_of_code(rooms: Seq<RoomView>, code: Seq<char>) -> int {
    choose|i: int| 0 <= i < rooms.len() && (#[trigger] rooms[i]).code == code
}

/// No two rooms of the sequence have the same code.
pub open spec fn distinct_codes(rooms: Seq<RoomView>) -> bool {
    forall|i: int, j: int|
        0 <= i < j < rooms.len() ==> (#[trigger] rooms[i]).code != (#[trigger] rooms[j]).code
}

/// The rooms of a sequence, by their codes.
pub open spec fn by_code(rooms: Seq<RoomView>) -> Map<Seq<char>, RoomView> {
    Map::new(
        |code: Seq<char>| has_code(rooms, code),
        |code: Seq<char>| rooms[index_of_code(rooms, code)],
    )
}

/// Each room of a sequence with distinct codes is found under its code.
pub proof fn lemma_by_code_at(rooms: Seq<RoomView>, i: int)
    requires
        distinct_codes(rooms),
        0 <= i < rooms.len(),
    ensures
        has_code(rooms, rooms[i].code),
        index_of_code(rooms, rooms[i].code) == i,
        by_code(rooms).contains_key(rooms[i].code),
        by_code(rooms)[rooms[i].code] == rooms[i],
{
    let code = rooms[i].code;
    let j = index_of_code(rooms, code);
    assert(0 <= j < rooms.len() && rooms[j].code == code);
    if j < i {
        assert(rooms[j].code != rooms[i].code);
    } else if i < j {
        assert(rooms[i].code != rooms[j].code);
    }
}

/// Appending a room with a new code inserts it into the map.
pub proof fn lemma_by_code_push(rooms: Seq<RoomView>, room: RoomView)
    requires
        distinct_codes(rooms),
        !has_code(rooms, room.code),
    ensures
        distinct_codes(rooms.push(room)),
        by_code(rooms.push(room)) == by_code(rooms).insert(room.code, room),
{
    let after = rooms.push(room);
    assert forall|i: int, j: int| 0 <= i < j < after.len() implies (#[trigger] after[i]).code
        != (#[trigger] after[j]).code by {
        if j == rooms.len() {
            assert(after[i] == rooms[i]);
        } else {
            assert(after[i] == rooms[i]);
            assert(after[j] == rooms[j]);
        }
    }
    assert forall|code: Seq<char>| has_code(after, code) <==> (has_code(rooms, code) || code
        == room.code) by {
        if has_code(after, code) {
            let i = choose|i: int| 0 <= i < after.len() && (#[trigger] after[i]).code == code;
            if i < rooms.len() {
                assert(rooms[i].code == code);
            }
        }
        if has_code(rooms, code) {
            let i = choose|i: int| 0 <= i < rooms.len() && (#[trigger] rooms[i]).code == code;
            assert(after[i].code == code);
        }
        if code == room.code {
            assert(after[rooms.len() as int].code == code);
        }
    }
    assert forall|code: Seq<char>| has_code(after, code) implies by_code(after)[code] == by_code(
        rooms,
    ).insert(room.code, room)[code] by {
        let i = choose|i: int| 0 <= i < after.len() && (#[trigger] after[i]).code == code;
        lemma_by_code_at(after, i);
        if i < rooms.len() {
            assert(after[i] == rooms[i]);
            lemma_by_code_at(rooms, i);
        }
    }
    assert(by_code(after) =~= by_code(rooms).insert(room.code, room));
}

/// Replacing a room by one with the same code replaces it in the map.
pub proof fn lemma_by_code_update(rooms: Seq<RoomView>, i: int, room: RoomView)
    requires
        distinct_codes(rooms),
        0 <= i < rooms.len(),
        room.code == rooms[i].code,
    ensures
        distinct_codes(rooms.update(i, room)),
        by_code(rooms.update(i, room)) == by_code(rooms).insert(room.code, room),
{
    let after = rooms.update(i, room);
    assert forall|a: int| 0 <= a < after.len() implies (#[trigger] after[a]).code
        == rooms[a].code by {}
    assert forall|a: int, b: int| 0 <= a < b < after.len() implies (#[trigger] after[a]).code
        != (#[trigger] after[b]).code by {
        assert(rooms[a].code != rooms[b].code);
    }
    assert forall|code: Seq<char>| has_code(after, code) <==> has_code(rooms, code) by {
        if has_code(after, code) {
            let a = choose|a: int| 0 <= a < after.len() && (#[trigger] after[a]).code == code;
            assert(rooms[a].code == code);
        }
        if has_code(rooms, code) {
            let a = choose|a: int| 0 <= a < rooms.len() && (#[trigger] rooms[a]).code == code;
            assert(after[a].code == code);
        }
    }
    lemma_by_code_at(rooms, i);
    assert forall|code: Seq<char>| has_code(after, code) implies by_code(after)[code] == by_code(
        rooms,
    ).insert(room.code, room)[code] by {
        let a = choose|a: int| 0 <= a < after.len() && (#[trigger] after[a]).code == code;
        lemma_by_code_at(after, a);
        if a != i {
            assert(after[a] == rooms[a]);
            lemma_by_code_at(rooms, a);
        }
    }
    assert(by_code(after) =~= by_code(rooms).insert(room.code, room));
}

/// Taking a room out of the sequence takes its code out of the map.
pub proof fn lemma_by_code_remove(rooms: Seq<RoomView>, i: int)
    requires
        distinct_codes(rooms),
        0 <= i < rooms.len(),
    ensures
        distinct_codes(rooms.remove(i)),
        by_code(rooms.remove(i)) == by_code(rooms).remove(rooms[i].code),
{
    let after = rooms.remove(i);
    assert forall|a: int, b: int| 0 <= a < b < after.len() implies (#[trigger] after[a]).code
        != (#[trigger] after[b]).code by {
        let a0 = if a < i { a } else { a + 1 };
        let b0 = if b < i { b } else { b + 1 };
        assert(after[a] == rooms[a0]);
        assert(after[b] == rooms[b0]);
        assert(rooms[a0].code != rooms[b0].code);
    }
    assert forall|code: Seq<char>| has_code(after, code) <==> (has_code(rooms, code) && code
        != rooms[i].code) by {
        if has_code(after, code) {
            let a = choose|a: int| 0 <= a < after.len() && (#[trigger] after[a]).code == code;
            let a0 = if a < i { a } else { a + 1 };
            assert(after[a] == rooms[a0]);
            assert(rooms[a0].code == code);
            if a0 < i {
                assert(rooms[a0].code != rooms[i].code);
            } else {
                assert(rooms[i].code != rooms[a0].code);
            }
        }
        if has_code(rooms, code) && code != rooms[i].code {
            let a0 = choose|a: int| 0 <= a < rooms.len() && (#[trigger] rooms[a]).code == code;
            let a = if a0 < i { a0 } else { a0 - 1 };
            assert(after[a] == rooms[a0]);
        }
    }
    assert forall|code: Seq<char>| has_code(after, code) implies by_code(after)[code] == by_code(
        rooms,
    ).remove(rooms[i].code)[code] by {
        let a = choose|a: int| 0 <= a < after.len() && (#[trigger] after[a]).code == code;
        let a0 = if a < i { a } else { a + 1 };
        assert(after[a] == rooms[a0]);
        lemma_by_code_at(after, a);
        lemma_by_code_at(rooms, a0);
    }
    assert(by_code(after) =~= by_code(rooms).remove(rooms[i].code));
}

/// At most one attempt is the first free one.
pub proof fn lemma_first_free_is_unique(registry: RegistryView, k: nat)
    requires
        registry.is_first_free(k),
    ensures
        registry.first_free() == Some(k),
{
    let chosen = choose|k: nat| registry.is_first_free(k);
    assert(registry.is_first_free(chosen));
    if chosen < k {
        assert(registry.rooms.contains_key(registry.candidate(chosen)));
    } else if k < chosen {
        assert(registry.rooms.contains_key(registry.candidate(k)));
    }
}

/// When every candidate within the budget is in use, none is free.
pub proof fn lemma_no_first_free(registry: RegistryView)
    requires
        forall|j: nat|
            j < registry.config.retry_budget ==> registry.rooms.contains_key(
                #[trigger] registry.candidate(j),
            ),
    ensures
        registry.first_free() is None,
{
    if exists|k: nat| registry.is_first_free(k) {
        let k = choose|k: nat| registry.is_first_free(k);
        assert(registry.rooms.contains_key(registry.candidate(k)));
    }
}

/// Drawing one code takes the generator from one attempt to the next.
pub proof fn lemma_state_at_next(registry: RegistryView, k: nat)
    ensures
        advance(registry.state_at(k), CODE_LENGTH as nat) == registry.state_at(k + 1),
        registry.state_at(0) == registry.generator,
{
    reveal(RegistryView::state_at);
    lemma_advance_add(registry.generator, k * CODE_LENGTH as nat, CODE_LENGTH as nat);
    assert(k * CODE_LENGTH as nat + CODE_LENGTH as nat == (k + 1) * CODE_LENGTH as nat) by {
        assert(CODE_LENGTH == 4);
    }
    assert(0 * CODE_LENGTH as nat == 0);
}

/// `create` fails exactly when every candidate within the retry budget is in
/// use, and then it registers nothing.
pub proof fn theorem_create_fails_when_exhausted(registry: RegistryView, now: u64)
    ensures
        registry.create_outcome() is Err <==> (forall|j: nat|
            j < registry.config.retry_budget ==> registry.rooms.contains_key(
                #[trigger] registry.candidate(j),
            )),
        registry.create_outcome() is Err ==> registry.create_outcome() == Err::<
            (Seq<char>, Seq<char>),
            Error,
        >(Error::ResourceExhausted) && registry.after_create(now).rooms == registry.rooms,
{
    if forall|j: nat|
        j < registry.config.retry_budget ==> registry.rooms.contains_key(
            #[trigger] registry.candidate(j),
        ) {
        lemma_no_first_free(registry);
    }
    if registry.create_outcome() is Err {
        assert(registry.first_free() is None);
        assert forall|j: nat| j < registry.config.retry_budget implies registry.rooms.contains_key(
            #[trigger] registry.candidate(j),
        ) by {
            lemma_free_candidate_is_found(registry, j);
        }
    }
}

/// If some candidate up to `limit` is free, one of them is the first free.
proof fn lemma_free_candidate_is_found(registry: RegistryView, limit: nat)
    requires
        limit < registry.config.retry_budget,
        registry.first_free() is None,
    ensures
        forall|j: nat| j <= limit ==> registry.rooms.contains_key(#[trigger] registry.candidate(j)),
    decreases limit,
{
    if limit > 0 {
        lemma_free_candidate_is_found(registry, (limit - 1) as nat);
    }
    if !registry.rooms.contains_key(registry.candidate(limit)) {
        assert(registry.is_first_free(limit));
    }
}

/// Registering an empty room under a code that is not in use keeps the
/// registry valid.
pub proof fn lemma_add_empty_room(
    registry: RegistryView,
    code: Seq<char>,
    token: Seq<char>,
    now: u64,
)
    requires
        registry.wf(),
        !registry.rooms.contains_key(code),
    ensures
        (RegistryView {
            rooms: registry.rooms.insert(
                code,
                RoomView::fresh(code, token, now, registry.config.policy),
            ),
            ..registry
        }).wf(),
{
    let room = RoomView::fresh(code, token, now, registry.config.policy);
    let after = RegistryView { rooms: registry.rooms.insert(code, room), ..registry };
    assert(room.player_ids() =~= Seq::<ParticipantId>::empty());
    assert(room.wf());
    assert forall|id: ParticipantId| !room.is_attached(id) by {}
    assert forall|a: Seq<char>, b: Seq<char>, id: ParticipantId|
        a != b && after.rooms.contains_key(a) && after.rooms.contains_key(b)
            && #[trigger] after.rooms[a].is_attached(id) implies !(#[trigger] after.rooms[
        b
    ].is_attached(id)) by {
        if a != code && b != code {
            assert(registry.rooms[a].is_attached(id));
        }
    }
}

/// The code that `create` returns can be typed by hand and was not in use;
/// afterwards it names a new, empty room with the returned token, and every
/// other room is as it was. The registry stays valid.
pub proof fn theorem_create_registers_new_room(registry: RegistryView, now: u64)
    requires
        registry.wf(),
        registry.create_outcome() is Ok,
    ensures
        ({
            let (code, token) = registry.create_outcome()->Ok_0;
            let after = registry.after_create(now);
            &&& code.len() == CODE_LENGTH
            &&& token.len() == TOKEN_LENGTH
            &&& forall|i: int|
                0 <= i < code.len() ==> ('0' <= #[trigger] code[i] <= '9') || ('A' <= code[i]
                    <= 'Z')
            &&& !registry.rooms.contains_key(code)
            &&& after.rooms.contains_key(code)
            &&& after.rooms[code] == RoomView::fresh(code, token, now, registry.config.policy)
            &&& after.rooms[code].is_empty()
            &&& after.rooms.remove(code) == registry.rooms
            &&& after.wf()
        }),
{
    let (code, token) = registry.create_outcome()->Ok_0;
    let after = registry.after_create(now);
    let k = registry.first_free()->Some_0;
    assert(registry.is_first_free(k));
    theorem_drawn_is_typable(registry.state_at(k), CODE_LENGTH as nat);
    theorem_drawn_is_typable(registry.state_at(k + 1), TOKEN_LENGTH as nat);
    assert(after.rooms.remove(code) =~= registry.rooms);
    lemma_add_empty_room(registry, code, token, now);
    lemma_add_empty_room(RegistryView { generator: after.generator, ..registry }, code, token, now);
}

/// Two rooms never share a code: a code that `create` returns differs from
/// every code returned earlier whose room is still registered.
pub proof fn theorem_created_codes_are_distinct(
    earlier: RegistryView,
    later: RegistryView,
)
    requires
        earlier.create_outcome() is Ok,
        later.create_outcome() is Ok,
        later.rooms.contains_key(earlier.create_outcome()->Ok_0.0),
    ensures
        earlier.create_outcome()->Ok_0.0 != later.create_outcome()->Ok_0.0,
{
    let k = later.first_free()->Some_0;
    assert(later.is_first_free(k));
}

/// A sweep removes exactly the rooms that have been empty for longer than
/// the idle timeout: a later lookup of such a room finds nothing, a room
/// with a participant always stays, and what stays is unchanged.
pub proof fn theorem_sweep_removes_expired(registry: RegistryView, now: u64)
    requires
        registry.wf(),
    ensures
        registry.swept(now).wf(),
        forall|code: Seq<char>| #[trigger]
            registry.swept(now).rooms.contains_key(code) <==> registry.is_live(code, now),
        forall|code: Seq<char>| #[trigger]
            registry.swept(now).rooms.contains_key(code) ==> registry.swept(now).rooms[code]
                == registry.rooms[code],
        forall|code: Seq<char>, later: u64|
            registry.rooms.contains_key(code) && registry.rooms[code].is_expired(
                now,
                registry.config.idle_timeout,
            ) ==> #[trigger] registry.swept(now).lookup(code, later) is None,
        forall|code: Seq<char>|
            registry.rooms.contains_key(code) && !registry.rooms[code].is_empty()
                ==> #[trigger] registry.swept(now).rooms.contains_key(code),
{
    let after = registry.swept(now);
    assert forall|a: Seq<char>, b: Seq<char>, id: ParticipantId|
        a != b && after.rooms.contains_key(a) && after.rooms.contains_key(b)
            && #[trigger] after.rooms[a].is_attached(id) implies !(#[trigger] after.rooms[
        b
    ].is_attached(id)) by {
        assert(registry.rooms[a].is_attached(id));
    }
}

/// A lookup finds a room exactly when it is registered and has not been
/// empty for longer than the idle timeout; an expired room is treated as
/// gone even before a sweep removes it.
pub proof fn theorem_lookup_hides_expired(registry: RegistryView, code: Seq<char>, now: u64)
    ensures
        registry.lookup(code, now) is Some <==> registry.rooms.contains_key(code) && !(
        registry.rooms[code].is_empty() && now - registry.rooms[code].idle_since
            > registry.config.idle_timeout),
        registry.lookup(code, now) is Some ==> registry.lookup(code, now) == Some(
            registry.rooms[code],
        ),
{
}

/// Closing a room keeps the registry valid.
pub proof fn lemma_closed_keeps_wf(registry: RegistryView, code: Seq<char>)
    requires
        registry.wf(),
    ensures
        registry.closed(code).wf(),
{
    let after = registry.closed(code);
    assert forall|a: Seq<char>, b: Seq<char>, id: ParticipantId|
        a != b && after.rooms.contains_key(a) && after.rooms.contains_key(b)
            && #[trigger] after.rooms[a].is_attached(id) implies !(#[trigger] after.rooms[
        b
    ].is_attached(id)) by {
        assert(registry.rooms[a].is_attached(id));
    }
}

/// Closing a room removes it and nothing else: its code finds nothing
/// afterwards, and its join token lets nobody in any more.
pub proof fn theorem_closed_room_is_gone(
    registry: RegistryView,
    code: Seq<char>,
    role: Role,
    name: Seq<char>,
    token: Option<Seq<char>>,
    now: u64,
)
    requires
        registry.wf(),
    ensures
        registry.closed(code).wf(),
        registry.closed(code).lookup(code, now) is None,
        registry.closed(code).join_outcome(code, role, name, token, now) == Err::<
            ParticipantId,
            Error,
        >(Error::RoomNotFound),
        forall|other: Seq<char>|
            other != code ==> #[trigger] registry.closed(code).lookup(other, now)
                == registry.lookup(other, now),
{
    lemma_closed_keeps_wf(registry, code);
}

/// A request that fails changes nothing and sends nothing.
pub proof fn theorem_failed_join_changes_nothing(
    registry: RegistryView,
    code: Seq<char>,
    role: Role,
    name: Seq<char>,
    token: Option<Seq<char>>,
    now: u64,
)
    requires
        registry.join_outcome(code, role, name, token, now) is Err,
    ensures
        registry.joined(code, role, name, token, now) == registry,
        registry.join_deliveries(code, role, name, token, now) == Seq::<DeliveryView>::empty(),
{
}

/// A host that does not present the token of a live room is turned away with
/// `Unauthorized`, and the registry, the room and its participants stay as
/// they were; a player is never turned away for its token.
pub proof fn theorem_join_checks_the_token(
    registry: RegistryView,
    code: Seq<char>,
    role: Role,
    name: Seq<char>,
    token: Option<Seq<char>>,
    now: u64,
)
    requires
        registry.is_live(code, now),
    ensures
        role == Role::Host && token != Some(registry.rooms[code].token) ==> {
            &&& registry.join_outcome(code, role, name, token, now) == Err::<ParticipantId, Error>(
                Error::Unauthorized,
            )
            &&& registry.joined(code, role, name, token, now) == registry
        },
        role == Role::Player ==> registry.join_outcome(code, role, name, token, now) != Err::<
            ParticipantId,
            Error,
        >(Error::Unauthorized),
        role == Role::Player ==> registry.join_outcome(code, role, name, token, now)
            == registry.join_outcome(code, role, name, None, now),
{
}

/// A successful join keeps the registry valid and hands out an id that is
/// new to the whole process: it is attached to no room before, it is at
/// least the counter, and the counter moves past it. The newcomer is then
/// attached to the room it asked for, under the role it asked for.
pub proof fn theorem_join_assigns_new_id(
    registry: RegistryView,
    code: Seq<char>,
    role: Role,
    name: Seq<char>,
    token: Option<Seq<char>>,
    now: u64,
)
    requires
        registry.wf(),
        registry.join_outcome(code, role, name, token, now) is Ok,
    ensures
        ({
            let id = registry.join_outcome(code, role, name, token, now)->Ok_0;
            let after = registry.joined(code, role, name, token, now);
            &&& after.wf()
            &&& id == registry.next_id
            &&& after.next_id == id + 1
            &&& forall|other: Seq<char>|
                registry.rooms.contains_key(other) ==> !(#[trigger] registry.rooms[
                    other
                ].is_attached(id))
            &&& after.rooms.contains_key(code)
            &&& after.rooms[code].role_of(id) == Some(role)
            &&& after.rooms[code].count() == registry.rooms[code].count() + 1
            &&& after.rooms.remove(code) == registry.rooms.remove(code)
        }),
{
    let id = registry.join_outcome(code, role, name, token, now)->Ok_0;
    let after = registry.joined(code, role, name, token, now);
    let room = registry.rooms[code];
    assert(registry.rooms.contains_key(code));
    theorem_attach_keeps_wf(room, registry.next_id, role, name, token);
    assert forall|other: Seq<char>| registry.rooms.contains_key(other) implies !(
    #[trigger] registry.rooms[other].is_attached(id)) by {
        lemma_unseen_id_is_absent(registry.rooms[other], id);
    }
    assert(after.rooms.remove(code) =~= registry.rooms.remove(code));
    assert forall|a: Seq<char>, b: Seq<char>, who: ParticipantId|
        a != b && after.rooms.contains_key(a) && after.rooms.contains_key(b)
            && #[trigger] after.rooms[a].is_attached(who) implies !(#[trigger] after.rooms[
        b
    ].is_attached(who)) by {
        lemma_attached_adds_one(room, role, name, id, who);
        if a == code {
            if who != id {
                assert(registry.rooms[a].is_attached(who));
            }
        } else if b == code {
            assert(registry.rooms[a].is_attached(who));
        } else {
            assert(registry.rooms[a].is_attached(who));
        }
    }
}

/// After an attach, exactly the newcomer and those attached before are
/// attached.
proof fn lemma_attached_adds_one(
    room: RoomView,
    role: Role,
    name: Seq<char>,
    id: ParticipantId,
    who: ParticipantId,
)
    requires
        role == Role::Host ==> room.host is None,
    ensures
        room.attached(role, name, id).is_attached(who) <==> (who == id || room.is_attached(who)),
{
    let after = room.attached(role, name, id);
    let ids = room.player_ids();
    match role {
        Role::Host => {
            assert(after.player_ids() =~= ids);
        },
        Role::Player => {
            assert(after.player_ids() =~= ids.push(id));
            if ids.contains(who) {
                let k = choose|k: int| 0 <= k < ids.len() && ids[k] == who;
                assert(ids.push(id)[k] == who);
            }
            if who == id {
                assert(ids.push(id)[ids.len() as int] == id);
            }
        },
    }
}

/// Leaving keeps the registry valid.
pub proof fn lemma_left_keeps_wf(
    registry: RegistryView,
    code: Seq<char>,
    id: ParticipantId,
    now: u64,
)
    requires
        registry.wf(),
    ensures
        registry.left(code, id, now).wf(),
{
    let after = registry.left(code, id, now);
    if registry.rooms.contains_key(code) {
        let room = registry.rooms[code];
        let gone = room.detached(id, now);
        theorem_detach_keeps_wf(room, id, now);
        assert forall|a: Seq<char>, b: Seq<char>, who: ParticipantId|
            a != b && after.rooms.contains_key(a) && after.rooms.contains_key(b)
                && #[trigger] after.rooms[a].is_attached(who) implies !(#[trigger] after.rooms[
            b
        ].is_attached(who)) by {
            if a == code {
                assert(after.rooms[a] == gone);
                assert(after.rooms[b] == registry.rooms[b]);
                assert(gone.role_of(who) == room.role_of(who));
                assert(registry.rooms[a].is_attached(who));
                assert(!registry.rooms[b].is_attached(who));
            } else if b == code {
                assert(after.rooms[b] == gone);
                assert(after.rooms[a] == registry.rooms[a]);
                assert(registry.rooms[a].is_attached(who));
                assert(!registry.rooms[b].is_attached(who));
                if who != id {
                    assert(gone.role_of(who) == room.role_of(who));
                }
            } else {
                assert(registry.rooms[a].is_attached(who));
                assert(!registry.rooms[b].is_attached(who));
            }
        }
    }
}

/// Leaving touches one room only, and leaving twice is leaving once: the
/// second call changes nothing and sends nothing.
pub proof fn theorem_leave_is_idempotent(
    registry: RegistryView,
    code: Seq<char>,
    id: ParticipantId,
    now: u64,
    later: u64,
)
    requires
        registry.wf(),
    ensures
        registry.left(code, id, now).wf(),
        registry.left(code, id, now).left(code, id, later) == registry.left(code, id, now),
        registry.left(code, id, now).leave_deliveries(code, id) == Seq::<DeliveryView>::empty(),
        registry.left(code, id, now).rooms.remove(code) == registry.rooms.remove(code),
        registry.left(code, id, now).rooms.contains_key(code) == registry.rooms.contains_key(code),
{
    let after = registry.left(code, id, now);
    lemma_left_keeps_wf(registry, code, id, now);
    assert(after.rooms.remove(code) =~= registry.rooms.remove(code));
    if registry.rooms.contains_key(code) {
        theorem_detach_idempotent(registry.rooms[code], id, now, later);
        assert(after.left(code, id, later).rooms =~= after.rooms);
    }
}

} // verus!
