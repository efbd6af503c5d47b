use agent_thread::clock::time_left;
use agent_thread::clock::Span;
use agent_thread::connection::ping_payload;
use agent_thread::connection::Frame;
use agent_thread::connection::Inbound;
use agent_thread::connection::NostrWsConnection;
use agent_thread::connection::Step;
use agent_thread::connection::WaitEvent;
use agent_thread::connection::AUTH_CHALLENGE_TIMEOUT_SECS;
use agent_thread::connection::AUTH_OK_TIMEOUT_SECS;
use agent_thread::connection::PUBLISH_OK_TIMEOUT_SECS;
use agent_thread::event::EventDraft;
use agent_thread::relay::build_auth_event;
use agent_thread::relay::OkResponse;
use agent_thread::relay::RelayMessage;
use agent_thread::relay::WsClientError;

fn connection() -> NostrWsConnection {
    NostrWsConnection::connect("ws://127.0.0.1:7000").unwrap().0
}

fn notice(message: &str) -> RelayMessage {
    RelayMessage::Notice {
        message: message.to_string(),
    }
}

fn auth(challenge: &str) -> RelayMessage {
    RelayMessage::Auth {
        challenge: challenge.to_string(),
    }
}

fn response(event_id: &str, accepted: bool) -> OkResponse {
    OkResponse {
        event_id: event_id.to_string(),
        accepted,
        message: "said the relay".to_string(),
    }
}

fn ok(event_id: &str) -> RelayMessage {
    RelayMessage::OkReply(response(event_id, true))
}

fn text(message: RelayMessage) -> Inbound {
    Inbound::Received(Frame::Text(Ok(message)))
}

#[test]
fn auth_challenge_timeout_meets_floor() {
    assert!(AUTH_CHALLENGE_TIMEOUT_SECS >= 20);
}

#[test]
fn auth_ok_timeout_meets_floor() {
    assert!(AUTH_OK_TIMEOUT_SECS >= 20);
}

#[test]
fn publish_ok_timeout_meets_floor() {
    assert!(PUBLISH_OK_TIMEOUT_SECS >= 30);
}

#[test]
fn ping_preserves_messages_received_before_pong() {
    let mut connection = connection();
    let payload = NostrWsConnection::ping();
    assert_eq!(
        connection.await_pong(&payload, text(notice("queued"))),
        Step::Wait
    );
    assert_eq!(
        connection.await_pong(&payload, Inbound::Received(Frame::Pong(payload.clone()))),
        Step::Done(Ok(()))
    );

    assert!(matches!(
        connection.next_event().unwrap(),
        RelayMessage::Notice { message } if message == "queued"
    ));
    assert!(connection.next_event().is_none());
}

#[test]
fn ping_times_out_when_socket_stops_answering() {
    let mut connection = connection();
    let payload = NostrWsConnection::ping();
    let timeout = Span {
        secs: 0,
        nanos: 25_000_000,
    };

    assert!(time_left(timeout, timeout).is_none());
    assert_eq!(
        connection.await_pong(&payload, Inbound::TimedOut),
        Step::Done(Err(WsClientError::Timeout))
    );
}

#[test]
fn ping_payload_is_big_endian_time() {
    assert_eq!(
        ping_payload(0x0102_0304),
        vec![0, 0, 0, 0, 0, 0, 0, 0, 0, 0, 0, 0, 1, 2, 3, 4]
    );
    assert_eq!(ping_payload(u128::MAX), vec![0xff; 16]);
    let nanos = 1_770_000_000_123_456_789u128;
    assert_eq!(ping_payload(nanos), nanos.to_be_bytes().to_vec());
    assert_ne!(ping_payload(nanos), ping_payload(nanos + 1));
    assert_eq!(NostrWsConnection::ping().len(), 16);
}

#[test]
fn pong_of_another_ping_is_ignored() {
    let mut connection = connection();
    let payload = ping_payload(7);
    for other in [vec![], ping_payload(8), vec![7]] {
        assert_eq!(
            connection.await_pong(&payload, Inbound::Received(Frame::Pong(other))),
            Step::Wait
        );
    }
}

#[test]
fn connecting_needs_a_url() {
    let (connection, address) = NostrWsConnection::connect("WS://Relay.Example:80/a b").unwrap();
    assert_eq!(address, "ws://relay.example/a%20b");
    assert_eq!(connection.relay_url(), "WS://Relay.Example:80/a b");
    assert_eq!(
        NostrWsConnection::connect("relay").unwrap_err(),
        WsClientError::Url(url::Url::parse("relay").unwrap_err().to_string())
    );
}

#[test]
fn every_wait_ends_with_the_socket() {
    type Case = (fn() -> Inbound, WsClientError);
    let cases: [Case; 4] = [
        (|| Inbound::Ended, WsClientError::ConnectionClosed),
        (
            || Inbound::Received(Frame::Close),
            WsClientError::ConnectionClosed,
        ),
        (
            || Inbound::Failed("reset".to_string()),
            WsClientError::WebSocket("reset".to_string()),
        ),
        (
            || Inbound::Received(Frame::Text(Err(WsClientError::Json("bad".to_string())))),
            WsClientError::Json("bad".to_string()),
        ),
    ];
    for (inbound, error) in cases {
        let mut connection = connection();
        assert_eq!(
            connection.recv_one(inbound()),
            Step::Done(Err(error.clone()))
        );
        assert_eq!(
            connection.await_pong(&vec![1], inbound()),
            Step::Done(Err(error.clone()))
        );
        assert_eq!(
            connection.wait_for_auth_challenge(inbound()),
            Step::Done(Err(error.clone()))
        );
        assert_eq!(
            connection.wait_for_ok("id", inbound()),
            Step::Done(Err(error))
        );
    }
}

#[test]
fn every_wait_fails_when_the_time_is_up() {
    let mut connection = connection();
    assert_eq!(
        connection.recv_one(Inbound::TimedOut),
        Step::Done(Err(WsClientError::Timeout))
    );
    assert_eq!(
        connection.wait_for_auth_challenge(Inbound::TimedOut),
        Step::Done(Err(WsClientError::NoAuthChallenge))
    );
    assert_eq!(
        connection.wait_for_ok("id", Inbound::TimedOut),
        Step::Done(Err(WsClientError::Timeout))
    );
}

#[test]
fn every_wait_answers_pings() {
    let mut connection = connection();
    let ping = || Inbound::Received(Frame::Ping(vec![4, 2]));
    assert_eq!(connection.recv_one(ping()), Step::SendPong(vec![4, 2]));
    assert_eq!(
        connection.await_pong(&vec![4, 2], ping()),
        Step::SendPong(vec![4, 2])
    );
    assert_eq!(
        connection.wait_for_auth_challenge(ping()),
        Step::SendPong(vec![4, 2])
    );
    assert_eq!(
        connection.wait_for_ok("id", ping()),
        Step::SendPong(vec![4, 2])
    );
    assert!(connection.next_event().is_none());
}

#[test]
fn other_frames_are_passed_over() {
    let mut connection = connection();
    let other = || Inbound::Received(Frame::Other);
    let pong = || Inbound::Received(Frame::Pong(vec![1]));
    assert_eq!(connection.recv_one(other()), Step::Wait);
    assert_eq!(connection.recv_one(pong()), Step::Wait);
    assert_eq!(connection.wait_for_auth_challenge(pong()), Step::Wait);
    assert_eq!(connection.wait_for_ok("id", other()), Step::Wait);
}

#[test]
fn received_message_is_handed_over_and_not_kept() {
    let mut connection = connection();
    assert_eq!(
        connection.recv_one(text(notice("now"))),
        Step::Done(Ok(notice("now")))
    );
    assert!(connection.next_event().is_none());
}

#[test]
fn challenge_received_in_passing_is_remembered() {
    let mut connection = connection();
    assert_eq!(
        connection.recv_one(text(auth("first"))),
        Step::Done(Ok(auth("first")))
    );
    assert_eq!(
        connection.await_pong(&vec![1], text(auth("second"))),
        Step::Wait
    );
    assert_eq!(connection.take_challenge(), Some("second".to_string()));
    assert_eq!(connection.take_challenge(), Some("second".to_string()));
    assert_eq!(connection.take_challenge(), None);
}

#[test]
fn challenge_wait_keeps_other_messages_in_order() {
    let mut connection = connection();
    assert_eq!(connection.take_challenge(), None);
    assert_eq!(
        connection.wait_for_auth_challenge(text(notice("one"))),
        Step::Wait
    );
    assert_eq!(
        connection.wait_for_auth_challenge(text(ok("two"))),
        Step::Wait
    );
    assert_eq!(
        connection.wait_for_auth_challenge(text(auth("challenge"))),
        Step::Done(Ok("challenge".to_string()))
    );
    assert_eq!(connection.take_challenge(), None);
    assert_eq!(connection.next_event(), Some(notice("one")));
    assert_eq!(connection.next_event(), Some(ok("two")));
    assert_eq!(connection.next_event(), None);
}

#[test]
fn challenge_off_the_wire_is_limited_in_bytes() {
    let mut connection = connection();
    let longest = "\u{e9}".repeat(512);
    assert_eq!(
        connection.wait_for_auth_challenge(text(auth(&longest))),
        Step::Done(Ok(longest))
    );
    for long in ["a".repeat(1025), "\u{e9}".repeat(513)] {
        assert_eq!(
            connection.wait_for_auth_challenge(text(auth(&long))),
            Step::Done(Err(WsClientError::AuthFailed(
                "challenge exceeds 1024 bytes".to_string()
            )))
        );
    }
}

#[test]
fn ok_wait_returns_the_matching_answer_only() {
    let mut connection = connection();
    assert_eq!(
        connection.wait_for_ok("mine", text(ok("other"))),
        Step::Wait
    );
    assert_eq!(
        connection.wait_for_ok("mine", text(auth("late"))),
        Step::Wait
    );
    assert_eq!(
        connection.wait_for_ok("mine", text(ok("mine"))),
        Step::Done(Ok(response("mine", true)))
    );
    assert_eq!(connection.take_ok("mine"), None);
    assert_eq!(connection.take_challenge(), Some("late".to_string()));
    assert_eq!(connection.take_ok("other"), Some(response("other", true)));
    assert_eq!(connection.next_event(), Some(auth("late")));
    assert_eq!(connection.next_event(), None);
}

#[test]
fn first_kept_answer_is_taken() {
    let mut connection = connection();
    let answers = |accepted| text(RelayMessage::OkReply(response("mine", accepted)));
    connection.await_pong(&vec![1], text(notice("before")));
    connection.await_pong(&vec![1], answers(false));
    connection.await_pong(&vec![1], answers(true));
    assert_eq!(connection.take_ok("mine"), Some(response("mine", false)));
    assert_eq!(connection.next_event(), Some(notice("before")));
    assert_eq!(connection.take_ok("mine"), Some(response("mine", true)));
}

#[test]
fn authentication_answers_the_challenge() {
    let (connection, _) = NostrWsConnection::connect("wss://relay.example").unwrap();
    let keys = nostr::Keys::generate();
    let auth_tag = Some(vec!["auth".to_string(), "owner".to_string()]);
    let outgoing = connection
        .authenticate("c\"h", &keys.secret_key().to_secret_bytes(), &auth_tag)
        .unwrap();
    let message: serde_json::Value = serde_json::from_str(&outgoing.text).unwrap();
    assert_eq!(message[0], "AUTH");
    let event: nostr::Event = serde_json::from_value(message[1].clone()).unwrap();
    event.verify().unwrap();
    assert_eq!(event.kind, nostr::Kind::Authentication);
    assert_eq!(event.pubkey, keys.public_key());
    assert_eq!(event.content, "");
    assert_eq!(event.id.to_hex(), outgoing.event_id);
    let tags: Vec<Vec<String>> = event.tags.iter().map(|tag| tag.clone().to_vec()).collect();
    assert_eq!(
        tags,
        vec![
            vec!["relay".to_string(), "wss://relay.example".to_string()],
            vec!["challenge".to_string(), "c\"h".to_string()],
            vec!["auth".to_string(), "owner".to_string()],
        ]
    );
}

#[test]
fn authentication_without_an_authorization_tag() {
    let keys = nostr::Keys::generate();
    let secret = keys.secret_key().to_secret_bytes();
    let event = build_auth_event("challenge", "ws://relay", &secret, &None).unwrap();
    assert_eq!(event.tags.len(), 2);
    assert_eq!(
        build_auth_event("challenge", "ws://relay", &[0; 32], &None),
        Err(WsClientError::Sign)
    );
    assert_eq!(
        build_auth_event("challenge", "ws://relay", &secret, &Some(vec![])),
        Err(WsClientError::Sign)
    );
    assert_eq!(
        connection().authenticate("challenge", &secret, &Some(vec![])),
        Err(WsClientError::Sign)
    );
}

#[test]
fn refused_authentication_fails_with_the_relays_words() {
    assert_eq!(
        NostrWsConnection::conclude_authentication(response("id", true)),
        Ok(())
    );
    assert_eq!(
        NostrWsConnection::conclude_authentication(response("id", false)),
        Err(WsClientError::AuthFailed("said the relay".to_string()))
    );
}

#[test]
fn published_event_is_sent_as_it_is() {
    let keys = nostr::Keys::generate();
    let draft = EventDraft {
        kind: 9,
        tags: vec![vec!["h".to_string(), "x\ny".to_string()], vec!["t".to_string()]],
        content: "hello \u{1f600}".to_string(),
    };
    let event = draft.sign(&keys.secret_key().to_secret_bytes()).unwrap();
    let outgoing = NostrWsConnection::send_event(&event).unwrap();
    assert_eq!(outgoing.event_id, event.id.to_hex());
    let id = event.id.to_hex();
    assert!(outgoing
        .text
        .starts_with("[\"EVENT\",{\"content\":\"hello \u{1f600}\",\"created_at\":"));
    assert!(outgoing
        .text
        .contains(&format!(",\"id\":\"{id}\",\"kind\":9,\"pubkey\":\"")));
    assert!(outgoing
        .text
        .ends_with(",\"tags\":[[\"h\",\"x\\ny\"],[\"t\"]]}]"));
    let message: serde_json::Value = serde_json::from_str(&outgoing.text).unwrap();
    assert_eq!(serde_json::to_string(&message).unwrap(), outgoing.text);
    let sent: nostr::Event = serde_json::from_value(message[1].clone()).unwrap();
    sent.verify().unwrap();
}

#[test]
fn event_with_an_empty_tag_is_not_sent() {
    let keys = nostr::Keys::generate();
    let draft = EventDraft {
        kind: 9,
        tags: vec![],
        content: String::new(),
    };
    let mut event = draft.sign(&keys.secret_key().to_secret_bytes()).unwrap();
    event.tags.push(vec![]);
    assert_eq!(
        NostrWsConnection::send_event(&event),
        Err(WsClientError::Json("event has an empty tag".to_string()))
    );
}

#[test]
fn kept_challenge_comes_before_the_wire() {
    let mut connection = connection();
    assert_eq!(connection.await_challenge(WaitEvent::Begin), Step::Wait);
    connection.await_pong(&vec![1], text(auth("kept")));
    for _ in 0..2 {
        assert_eq!(
            connection.await_challenge(WaitEvent::Begin),
            Step::Done(Ok("kept".to_string()))
        );
    }
    assert_eq!(connection.await_challenge(WaitEvent::Begin), Step::Wait);
    assert_eq!(
        connection.await_challenge(WaitEvent::Then(text(auth("new")))),
        Step::Done(Ok("new".to_string()))
    );
}

#[test]
fn kept_answer_comes_before_the_wire() {
    let mut connection = connection();
    connection.await_pong(&vec![1], text(ok("other")));
    assert_eq!(connection.await_ok("mine", WaitEvent::Begin), Step::Wait);
    connection.await_pong(&vec![1], text(ok("mine")));
    assert_eq!(
        connection.await_ok("mine", WaitEvent::Begin),
        Step::Done(Ok(response("mine", true)))
    );
    assert_eq!(connection.await_ok("mine", WaitEvent::Begin), Step::Wait);
    assert_eq!(
        connection.await_ok("mine", WaitEvent::Then(text(ok("mine")))),
        Step::Done(Ok(response("mine", true)))
    );
    assert_eq!(connection.next_event(), Some(ok("other")));
}

#[test]
fn kept_message_comes_before_the_wire() {
    let mut connection = connection();
    connection.await_pong(&vec![1], text(notice("one")));
    connection.await_pong(&vec![1], text(notice("two")));
    for kept in ["one", "two"] {
        assert_eq!(
            connection.await_message(WaitEvent::Begin),
            Step::Done(Ok(notice(kept)))
        );
    }
    assert_eq!(connection.await_message(WaitEvent::Begin), Step::Wait);
    assert_eq!(
        connection.await_message(WaitEvent::Then(text(notice("three")))),
        Step::Done(Ok(notice("three")))
    );
}
