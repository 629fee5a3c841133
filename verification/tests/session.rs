use crackbox::{
    Action, Config, Delivery, Error, Event, Message, Phase, ReconnectPolicy, Role, RoomRegistry,
    Session,
};

fn registry() -> (RoomRegistry, String, String) {
    let mut reg = RoomRegistry::new(
        7,
        Config { idle_timeout: 60, retry_budget: 8, policy: ReconnectPolicy::Fresh },
    );
    match reg.create(0) {
        Ok((code, token)) => (reg, code, token),
        Err(e) => panic!("create failed: {:?}", e),
    }
}

#[test]
fn session_scenario_from_connect_to_close() {
    let (mut reg, code, token) = registry();

    let mut host = Session::new();
    assert_eq!(host.phase(), Phase::Connecting);
    let welcome = host
        .connect(&mut reg, &code, Role::Host, "Quizmaster".to_string(), Some(token), 1)
        .expect("the host attaches");
    assert_eq!(welcome.id, 1);
    assert_eq!(
        welcome.deliveries,
        vec![Delivery { to: 1, message: Message::Welcome { participant_id: 1, reconnect: false } }]
    );
    assert_eq!(host.phase(), Phase::Attached);
    assert_eq!(host.participant_id(), Some(1));

    let mut alice = Session::new();
    let joined = alice
        .connect(&mut reg, &code, Role::Player, "Alice".to_string(), None, 2)
        .expect("the player attaches");
    assert_eq!(joined.id, 2);
    assert_eq!(
        joined.deliveries,
        vec![
            Delivery { to: 2, message: Message::Welcome { participant_id: 2, reconnect: false } },
            Delivery {
                to: 1,
                message: Message::Joined { participant_id: 2, name: "Alice".to_string() },
            },
        ]
    );

    assert_eq!(
        host.handle(&mut reg, Event::Message("start".to_string()), 3),
        Action::Forward(vec![Delivery {
            to: 2,
            message: Message::Relay { from: 1, payload: "start".to_string() },
        }])
    );
    assert_eq!(host.phase(), Phase::Attached);

    assert_eq!(
        alice.handle(&mut reg, Event::Closed, 4),
        Action::Release(vec![Delivery { to: 1, message: Message::Left { participant_id: 2 } }])
    );
    assert_eq!(alice.phase(), Phase::Closed);
    assert_eq!(alice.participant_id(), None);
    assert_eq!(reg.get(&code, 4).expect("registered").participant_count(), 1);
}

#[test]
fn refused_connect_closes_the_session() {
    let (mut reg, code, _) = registry();
    let mut s = Session::new();
    assert_eq!(
        s.connect(&mut reg, &code, Role::Host, "Mallory".to_string(), Some("bad".to_string()), 1),
        Err(Error::Unauthorized)
    );
    assert_eq!(s.phase(), Phase::Closed);
    assert!(reg.get(&code, 1).expect("registered").is_empty());

    let mut unknown = Session::new();
    assert_eq!(
        unknown.connect(&mut reg, &"NOPE".to_string(), Role::Player, "A".to_string(), None, 1),
        Err(Error::RoomNotFound)
    );
    assert_eq!(unknown.phase(), Phase::Closed);

    let mut nameless = Session::new();
    assert_eq!(
        nameless.connect(&mut reg, &code, Role::Player, String::new(), None, 1),
        Err(Error::InvalidRequest)
    );
    assert_eq!(nameless.phase(), Phase::Closed);
}

#[test]
fn session_connects_only_once() {
    let (mut reg, code, _) = registry();
    let mut s = Session::new();
    s.connect(&mut reg, &code, Role::Player, "Alice".to_string(), None, 1).expect("attaches");
    assert_eq!(
        s.connect(&mut reg, &code, Role::Player, "Alice".to_string(), None, 1),
        Err(Error::InvalidRequest)
    );
    assert_eq!(s.phase(), Phase::Attached);
    assert_eq!(s.participant_id(), Some(1));
    assert_eq!(reg.get(&code, 1).expect("registered").participant_count(), 1);

    s.close(&mut reg, 2);
    assert_eq!(
        s.connect(&mut reg, &code, Role::Player, "Alice".to_string(), None, 3),
        Err(Error::InvalidRequest)
    );
    assert_eq!(s.phase(), Phase::Closed);
    assert!(reg.get(&code, 3).expect("registered").is_empty());
}

#[test]
fn every_closing_event_detaches_once() {
    let closings: [fn() -> Event; 3] = [|| Event::Malformed, || Event::Failed, || Event::Closed];
    for closing in closings {
        let (mut reg, code, token) = registry();
        let mut host = Session::new();
        host.connect(&mut reg, &code, Role::Host, "Host".to_string(), Some(token), 1)
            .expect("attaches");
        let mut player = Session::new();
        player.connect(&mut reg, &code, Role::Player, "Alice".to_string(), None, 1)
            .expect("attaches");

        assert_eq!(
            player.handle(&mut reg, closing(), 2),
            Action::Release(vec![Delivery {
                to: 1,
                message: Message::Left { participant_id: 2 }
            }])
        );
        assert_eq!(player.phase(), Phase::Closed);
        // Whatever comes after is ignored.
        assert_eq!(player.handle(&mut reg, closing(), 3), Action::Idle);
        assert_eq!(player.handle(&mut reg, Event::Message("late".to_string()), 3), Action::Idle);
        assert_eq!(player.close(&mut reg, 3), Action::Idle);
        assert_eq!(reg.get(&code, 3).expect("registered").participant_count(), 1);
    }
}

#[test]
fn closing_before_attach_detaches_nobody() {
    let (mut reg, code, _) = registry();
    let mut other = Session::new();
    other.connect(&mut reg, &code, Role::Player, "Alice".to_string(), None, 1).expect("attaches");

    let mut s = Session::new();
    assert_eq!(s.close(&mut reg, 2), Action::Release(vec![]));
    assert_eq!(s.phase(), Phase::Closed);
    assert_eq!(s.close(&mut reg, 2), Action::Idle);
    assert_eq!(reg.get(&code, 2).expect("registered").participant_count(), 1);
}

#[test]
fn player_message_without_host_is_dropped() {
    let (mut reg, code, _) = registry();
    let mut s = Session::new();
    s.connect(&mut reg, &code, Role::Player, "Alice".to_string(), None, 1).expect("attaches");
    assert_eq!(s.handle(&mut reg, Event::Message("hello?".to_string()), 2), Action::Dropped);
    assert_eq!(s.phase(), Phase::Attached);
}

#[test]
fn session_outlives_a_closed_room() {
    let (mut reg, code, token) = registry();
    let mut s = Session::new();
    s.connect(&mut reg, &code, Role::Host, "Host".to_string(), Some(token), 1).expect("attaches");
    assert!(reg.close(&code));
    assert_eq!(s.handle(&mut reg, Event::Message("anyone?".to_string()), 2), Action::Dropped);
    assert_eq!(s.handle(&mut reg, Event::Closed, 3), Action::Release(vec![]));
    assert_eq!(s.phase(), Phase::Closed);
}

#[test]
fn event_causes() {
    assert_eq!(Event::Message("m".to_string()).cause(), None);
    assert_eq!(Event::Malformed.cause(), Some(Error::InvalidRequest));
    assert_eq!(Event::Failed.cause(), Some(Error::Io));
    assert_eq!(Event::Closed.cause(), Some(Error::Closed));
}

#[test]
fn receive_outcomes_become_events() {
    assert_eq!(Event::from_receive(Ok("hello".to_string())), Event::Message("hello".to_string()));
    assert_eq!(Event::from_receive(Ok(String::new())), Event::Message(String::new()));
    assert_eq!(Event::from_receive(Err(Error::Closed)), Event::Closed);
    assert_eq!(Event::from_receive(Err(Error::Io)), Event::Failed);
    assert_eq!(Event::from_receive(Err(Error::InvalidRequest)), Event::Malformed);
    assert_eq!(Event::from_receive(Err(Error::RoomNotFound)), Event::Malformed);
    assert_eq!(Event::from_receive(Err(Error::Unauthorized)), Event::Malformed);
    assert_eq!(Event::from_receive(Err(Error::RoleConflict)), Event::Malformed);
    assert_eq!(Event::from_receive(Err(Error::ResourceExhausted)), Event::Malformed);
}
