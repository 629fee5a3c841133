use crackbox::{
    Attached, Delivery, Error, Message, ParticipantIds, ReconnectPolicy, Role, Room, Routing,
};

fn room() -> Room {
    Room::new("AB12".to_string(), "T1".to_string(), 0, ReconnectPolicy::Fresh)
}

fn welcome(id: u64, reconnect: bool) -> Delivery {
    Delivery { to: id, message: Message::Welcome { participant_id: id, reconnect } }
}

fn ok(res: Result<Attached, Error>) -> Attached {
    match res {
        Ok(a) => a,
        Err(e) => panic!("attach failed: {:?}", e),
    }
}

#[test]
fn new_room_is_empty() {
    let r = room();
    assert!(r.is_empty());
    assert_eq!(r.participant_count(), 0);
    assert_eq!(r.host_id(), None);
    assert_eq!(r.player_ids(), Vec::<u64>::new());
    assert_eq!(r.code(), "AB12");
    assert_eq!(r.token(), "T1");
    assert_eq!(r.created_at(), 0);
}

#[test]
fn host_and_player_scenario() {
    let mut ids = ParticipantIds::new();
    let mut r = room();

    let host = ok(r.attach(&mut ids, Role::Host, "Quizmaster".to_string(), Some("T1".to_string())));
    assert_eq!(host.id, 1);
    assert_eq!(host.deliveries, vec![welcome(1, false)]);

    let alice = ok(r.attach(&mut ids, Role::Player, "Alice".to_string(), None));
    assert_eq!(alice.id, 2);
    assert_eq!(
        alice.deliveries,
        vec![
            welcome(2, false),
            Delivery {
                to: 1,
                message: Message::Joined { participant_id: 2, name: "Alice".to_string() },
            },
        ]
    );

    let routed = r.relay(1, &"start".to_string());
    assert_eq!(
        routed,
        Routing::Deliver(vec![Delivery {
            to: 2,
            message: Message::Relay { from: 1, payload: "start".to_string() },
        }])
    );
    match routed {
        Routing::Deliver(batch) => assert!(batch.iter().all(|d| d.to != 1)),
        Routing::Drop => panic!("the host's message was dropped"),
    }
}

#[test]
fn wrong_token_is_unauthorized_and_changes_nothing() {
    let mut ids = ParticipantIds::new();
    let mut r = room();
    ok(r.attach(&mut ids, Role::Player, "Alice".to_string(), None));
    let before = r.participant_count();

    let res = r.attach(&mut ids, Role::Host, "Mallory".to_string(), Some("T2".to_string()));
    assert_eq!(res, Err(Error::Unauthorized));
    assert_eq!(r.participant_count(), before);
    assert_eq!(r.host_id(), None);
    assert_eq!(r.player_ids(), vec![1]);

    // The refused attempt used up no id.
    let bob = ok(r.attach(&mut ids, Role::Player, "Bob".to_string(), None));
    assert_eq!(bob.id, 2);
}

#[test]
fn missing_token_is_unauthorized_for_host() {
    let mut ids = ParticipantIds::new();
    let mut r = room();
    assert_eq!(r.attach(&mut ids, Role::Host, "Mallory".to_string(), None), Err(Error::Unauthorized));
    assert_eq!(
        r.attach(&mut ids, Role::Host, "Mallory".to_string(), Some(String::new())),
        Err(Error::Unauthorized)
    );
    assert!(r.is_empty());
}

#[test]
fn player_never_needs_a_token() {
    let mut ids = ParticipantIds::new();
    let mut r = room();
    assert_eq!(ok(r.attach(&mut ids, Role::Player, "A".to_string(), None)).id, 1);
    assert_eq!(ok(r.attach(&mut ids, Role::Player, "B".to_string(), Some("nonsense".to_string()))).id, 2);
    assert_eq!(ok(r.attach(&mut ids, Role::Player, "C".to_string(), Some("T1".to_string()))).id, 3);
    assert_eq!(r.player_ids(), vec![1, 2, 3]);
    assert_eq!(r.participant_count(), 3);
}

#[test]
fn second_host_is_a_role_conflict() {
    let mut ids = ParticipantIds::new();
    let mut r = room();
    ok(r.attach(&mut ids, Role::Host, "First".to_string(), Some("T1".to_string())));
    let res = r.attach(&mut ids, Role::Host, "Second".to_string(), Some("T1".to_string()));
    assert_eq!(res, Err(Error::RoleConflict));
    assert_eq!(r.host_id(), Some(1));
    assert_eq!(r.participant_count(), 1);
    // A wrong token is reported before the occupied slot.
    let res = r.attach(&mut ids, Role::Host, "Third".to_string(), Some("bad".to_string()));
    assert_eq!(res, Err(Error::Unauthorized));
}

#[test]
fn player_message_reaches_only_the_host() {
    let mut ids = ParticipantIds::new();
    let mut r = room();
    ok(r.attach(&mut ids, Role::Player, "Alice".to_string(), None));
    ok(r.attach(&mut ids, Role::Host, "Host".to_string(), Some("T1".to_string())));
    ok(r.attach(&mut ids, Role::Player, "Bob".to_string(), None));
    assert_eq!(
        r.relay(3, &"buzz".to_string()),
        Routing::Deliver(vec![Delivery {
            to: 2,
            message: Message::Relay { from: 3, payload: "buzz".to_string() },
        }])
    );
}

#[test]
fn host_message_reaches_every_player_in_attach_order() {
    let mut ids = ParticipantIds::new();
    let mut r = room();
    ok(r.attach(&mut ids, Role::Player, "Alice".to_string(), None));
    ok(r.attach(&mut ids, Role::Host, "Host".to_string(), Some("T1".to_string())));
    ok(r.attach(&mut ids, Role::Player, "Bob".to_string(), None));
    ok(r.attach(&mut ids, Role::Player, "Carol".to_string(), None));
    let relay = |to: u64| Delivery {
        to,
        message: Message::Relay { from: 2, payload: "go".to_string() },
    };
    assert_eq!(r.relay(2, &"go".to_string()), Routing::Deliver(vec![relay(1), relay(3), relay(4)]));
}

#[test]
fn host_message_without_players_reaches_nobody() {
    let mut ids = ParticipantIds::new();
    let mut r = room();
    ok(r.attach(&mut ids, Role::Host, "Host".to_string(), Some("T1".to_string())));
    assert_eq!(r.relay(1, &"anyone?".to_string()), Routing::Deliver(vec![]));
}

#[test]
fn unroutable_messages_are_dropped() {
    let mut ids = ParticipantIds::new();
    let mut r = room();
    ok(r.attach(&mut ids, Role::Player, "Alice".to_string(), None));
    // A player while no host is attached.
    assert_eq!(r.relay(1, &"hello".to_string()), Routing::Drop);
    // Somebody who is not attached.
    assert_eq!(r.relay(99, &"hello".to_string()), Routing::Drop);
    assert_eq!(r.participant_count(), 1);
}

#[test]
fn detach_is_idempotent() {
    let mut ids = ParticipantIds::new();
    let mut r = room();
    ok(r.attach(&mut ids, Role::Host, "Host".to_string(), Some("T1".to_string())));
    ok(r.attach(&mut ids, Role::Player, "Alice".to_string(), None));
    ok(r.attach(&mut ids, Role::Player, "Bob".to_string(), None));

    let left = |to: u64, who: u64| Delivery { to, message: Message::Left { participant_id: who } };
    assert_eq!(r.detach(2, 10), vec![left(1, 2), left(3, 2)]);
    assert_eq!(r.player_ids(), vec![3]);
    assert_eq!(r.participant_count(), 2);

    assert_eq!(r.detach(2, 11), vec![]);
    assert_eq!(r.player_ids(), vec![3]);
    assert_eq!(r.host_id(), Some(1));
    assert_eq!(r.participant_count(), 2);
}

#[test]
fn detach_of_a_stranger_does_nothing() {
    let mut ids = ParticipantIds::new();
    let mut r = room();
    assert_eq!(r.detach(5, 10), vec![]);
    ok(r.attach(&mut ids, Role::Player, "Alice".to_string(), None));
    assert_eq!(r.detach(5, 10), vec![]);
    assert_eq!(r.participant_count(), 1);
    assert!(!r.is_expired(1000, 60));
}

#[test]
fn room_survives_its_host() {
    let mut ids = ParticipantIds::new();
    let mut r = room();
    ok(r.attach(&mut ids, Role::Host, "Host".to_string(), Some("T1".to_string())));
    ok(r.attach(&mut ids, Role::Player, "Alice".to_string(), None));
    assert_eq!(
        r.detach(1, 5),
        vec![Delivery { to: 2, message: Message::Left { participant_id: 1 } }]
    );
    assert_eq!(r.host_id(), None);
    assert!(!r.is_empty());
    assert_eq!(r.role_of(2), Some(Role::Player));
    assert_eq!(r.role_of(1), None);

    // A new host can attach with the room's token and gets a new id.
    let again = ok(r.attach(&mut ids, Role::Host, "Host".to_string(), Some("T1".to_string())));
    assert_eq!(again.id, 3);
    assert_eq!(again.deliveries, vec![welcome(3, false)]);
    assert_eq!(r.role_of(3), Some(Role::Host));
}

#[test]
fn resume_policy_welcomes_a_later_host_back() {
    let mut ids = ParticipantIds::new();
    let mut r = Room::new("AB12".to_string(), "T1".to_string(), 0, ReconnectPolicy::Resume);
    let first = ok(r.attach(&mut ids, Role::Host, "Host".to_string(), Some("T1".to_string())));
    assert_eq!(first.deliveries, vec![welcome(1, false)]);
    let player = ok(r.attach(&mut ids, Role::Player, "Alice".to_string(), None));
    assert_eq!(player.deliveries[0], welcome(2, false));
    r.detach(1, 3);
    let second = ok(r.attach(&mut ids, Role::Host, "Host".to_string(), Some("T1".to_string())));
    assert_eq!(second.deliveries, vec![welcome(3, true)]);
    // Players are never welcomed back.
    r.detach(2, 4);
    let bob = ok(r.attach(&mut ids, Role::Player, "Bob".to_string(), None));
    assert_eq!(bob.deliveries[0], welcome(4, false));
}

#[test]
fn idle_clock_starts_when_the_last_participant_leaves() {
    let mut ids = ParticipantIds::new();
    let mut r = Room::new("AB12".to_string(), "T1".to_string(), 100, ReconnectPolicy::Fresh);
    // Empty since its creation at 100.
    assert!(!r.is_expired(160, 60));
    assert!(r.is_expired(161, 60));
    assert!(!r.is_expired(50, 60));

    ok(r.attach(&mut ids, Role::Player, "Alice".to_string(), None));
    ok(r.attach(&mut ids, Role::Player, "Bob".to_string(), None));
    assert!(!r.is_expired(10_000, 60));
    r.detach(1, 500);
    assert!(!r.is_expired(10_000, 60));
    r.detach(2, 700);
    assert!(r.is_empty());
    assert!(!r.is_expired(760, 60));
    assert!(r.is_expired(761, 60));
    assert_eq!(r.created_at(), 100);
}

#[test]
fn ids_skip_past_what_the_room_has_seen() {
    let mut r = room();
    let mut first = ParticipantIds::new();
    assert_eq!(ok(r.attach(&mut first, Role::Player, "A".to_string(), None)).id, 1);
    assert_eq!(ok(r.attach(&mut first, Role::Player, "B".to_string(), None)).id, 2);
    r.detach(2, 0);
    // Another source starts at 1, but the room has seen 2 already.
    let mut second = ParticipantIds::new();
    assert_eq!(ok(r.attach(&mut second, Role::Player, "C".to_string(), None)).id, 3);
    assert_eq!(second.allocate_after(0), Some(4));
}

#[test]
fn id_source_runs_out_without_wrapping() {
    let mut ids = ParticipantIds::new();
    assert_eq!(ids.allocate_after(0), Some(1));
    assert_eq!(ids.allocate_after(10), Some(11));
    assert_eq!(ids.allocate_after(3), Some(12));
    assert_eq!(ids.allocate_after(u64::MAX - 2), Some(u64::MAX - 1));
    assert_eq!(ids.allocate_after(0), None);
    assert_eq!(ids.allocate_after(u64::MAX), None);
    assert_eq!(ids.allocate_after(u64::MAX - 1), None);

    let mut r = room();
    assert_eq!(r.attach(&mut ids, Role::Player, "late".to_string(), None), Err(Error::ResourceExhausted));
    assert!(r.is_empty());
}

#[test]
fn welcome_opcode_is_fixed() {
    assert_eq!(Message::welcome_opcode(), "client/welcome");
}

#[test]
fn duplicate_keeps_the_content() {
    let all = vec![
        Message::Welcome { participant_id: 4, reconnect: true },
        Message::Joined { participant_id: 5, name: "Eve".to_string() },
        Message::Left { participant_id: 6 },
        Message::Relay { from: 7, payload: "payload".to_string() },
    ];
    for m in all.iter() {
        assert_eq!(&m.duplicate(), m);
    }
}

#[test]
fn error_statuses() {
    assert_eq!(Error::InvalidRequest.http_status(), 400);
    assert_eq!(Error::Unauthorized.http_status(), 401);
    assert_eq!(Error::RoomNotFound.http_status(), 404);
    assert_eq!(Error::RoleConflict.http_status(), 409);
    assert_eq!(Error::ResourceExhausted.http_status(), 503);
    assert_eq!(Error::Io.http_status(), 500);
    assert_eq!(Error::Closed.http_status(), 500);
    assert!(Error::InvalidRequest.is_client_fault());
    assert!(Error::Unauthorized.is_client_fault());
    assert!(Error::RoomNotFound.is_client_fault());
    assert!(Error::RoleConflict.is_client_fault());
    assert!(!Error::ResourceExhausted.is_client_fault());
    assert!(!Error::Io.is_client_fault());
    assert!(!Error::Closed.is_client_fault());
}
