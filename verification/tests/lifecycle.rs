use agent_thread::event::Event;
use agent_thread::event::EventDraft;
use agent_thread::ids::ChannelId;
use agent_thread::ids::EventId;
use agent_thread::lifecycle::build_agent_thread_lifecycle;
use agent_thread::lifecycle::encode_lifecycle;
use agent_thread::lifecycle::parse_agent_thread_lifecycle;
use agent_thread::lifecycle::validate_lifecycle;
use agent_thread::lifecycle::AgentThreadLifecycle;
use agent_thread::lifecycle::AgentThreadLifecycleError;
use agent_thread::lifecycle::AgentThreadState;
use agent_thread::lifecycle::ParsedAgentThreadLifecycle;
use agent_thread::lifecycle::KIND_AGENT_THREAD_LIFECYCLE;
use agent_thread::relay::write_client_message;

const ROOT: EventId = EventId { bytes: [0; 32] };

fn channel() -> ChannelId {
    ChannelId {
        bytes: uuid::Uuid::new_v4().into_bytes(),
    }
}

fn secret() -> [u8; 32] {
    nostr::Keys::generate().secret_key().to_secret_bytes()
}

fn working() -> AgentThreadLifecycle {
    AgentThreadLifecycle {
        version: 1,
        turn_id: "turn-1".to_string(),
        state: AgentThreadState::Agent,
        phase: "working".to_string(),
        revision: 42,
        expires_at: Some(1234),
    }
}

fn decode(content: &str) -> Result<AgentThreadLifecycle, String> {
    let value: serde_json::Value =
        serde_json::from_str(content).map_err(|error| error.to_string())?;
    let text = |name: &str| value[name].as_str().unwrap().to_string();
    Ok(AgentThreadLifecycle {
        version: value["version"].as_u64().unwrap() as u8,
        turn_id: text("turnId"),
        state: match text("state").as_str() {
            "agent" => AgentThreadState::Agent,
            "human" => AgentThreadState::Human,
            "failed" => AgentThreadState::Failed,
            other => return Err(format!("unknown state {other}")),
        },
        phase: text("phase"),
        revision: value["revision"].as_u64().unwrap(),
        expires_at: value["expiresAt"].as_u64(),
    })
}

fn parse(event: &Event) -> Result<ParsedAgentThreadLifecycle, AgentThreadLifecycleError> {
    parse_agent_thread_lifecycle(event, decode(&event.content))
}

fn tag(parts: &[&str]) -> Vec<String> {
    parts.iter().map(|part| part.to_string()).collect()
}

/// The event of a valid snapshot with other tags.
fn tagged(tags: Vec<Vec<String>>) -> Event {
    let content = encode_lifecycle(&working()).unwrap();
    let draft = EventDraft {
        kind: KIND_AGENT_THREAD_LIFECYCLE,
        tags,
        content,
    };
    draft.sign(&secret()).unwrap()
}

fn content_fault(lifecycle: &AgentThreadLifecycle) -> String {
    match validate_lifecycle(lifecycle) {
        Err(AgentThreadLifecycleError::InvalidContent(fault)) => fault,
        other => panic!("{other:?}"),
    }
}

fn tag_fault(event: &Event) -> String {
    match parse(event) {
        Err(AgentThreadLifecycleError::InvalidTags(fault)) => fault,
        other => panic!("{other:?}"),
    }
}

#[test]
fn lifecycle_round_trips_with_thread_coordinates() {
    let channel = channel();
    let lifecycle = working();
    let event = build_agent_thread_lifecycle(channel, ROOT, &lifecycle)
        .unwrap()
        .sign(&secret())
        .unwrap();

    assert_eq!(
        parse(&event).unwrap(),
        ParsedAgentThreadLifecycle {
            channel_id: channel,
            root_event_id: ROOT,
            lifecycle,
        }
    );
}

#[test]
fn rejects_agent_state_without_expiry() {
    let lifecycle = AgentThreadLifecycle {
        version: 1,
        turn_id: "turn-1".to_string(),
        state: AgentThreadState::Agent,
        phase: "working".to_string(),
        revision: 1,
        expires_at: None,
    };

    assert!(build_agent_thread_lifecycle(channel(), ROOT, &lifecycle).is_err());
    assert_eq!(content_fault(&lifecycle), "agent state requires expiresAt");
}

#[test]
fn rejects_terminal_state_with_expiry() {
    for state in [AgentThreadState::Human, AgentThreadState::Failed] {
        let lifecycle = AgentThreadLifecycle { state, ..working() };
        assert_eq!(
            content_fault(&lifecycle),
            "terminal state must not carry expiresAt"
        );
    }
}

#[test]
fn rejects_other_versions() {
    let lifecycle = AgentThreadLifecycle {
        version: 207,
        ..working()
    };
    assert_eq!(content_fault(&lifecycle), "unsupported version 207");
}

#[test]
fn turn_and_phase_are_limited_in_bytes() {
    let turn = |turn_id: String| AgentThreadLifecycle {
        turn_id,
        ..working()
    };
    let phase = |phase: String| AgentThreadLifecycle { phase, ..working() };
    assert!(validate_lifecycle(&turn("a".repeat(128))).is_ok());
    assert!(validate_lifecycle(&turn("\u{e9}".repeat(64))).is_ok());
    for bad in ["".to_string(), "a".repeat(129), "\u{e9}".repeat(65)] {
        assert_eq!(
            content_fault(&turn(bad)),
            "turnId must contain 1..=128 bytes"
        );
    }
    assert!(validate_lifecycle(&phase("a".repeat(64))).is_ok());
    for bad in ["".to_string(), "a".repeat(65), "\u{e9}".repeat(33)] {
        assert_eq!(content_fault(&phase(bad)), "phase must contain 1..=64 bytes");
    }
}

#[test]
fn unknown_phases_are_tolerated() {
    let lifecycle = AgentThreadLifecycle {
        phase: "pondering".to_string(),
        ..working()
    };
    assert!(validate_lifecycle(&lifecycle).is_ok());
}

#[test]
fn content_is_compact_camel_case_json() {
    assert_eq!(
        encode_lifecycle(&working()).unwrap(),
        "{\"version\":1,\"turnId\":\"turn-1\",\"state\":\"agent\",\"phase\":\"working\",\"revision\":42,\"expiresAt\":1234}"
    );
    let done = AgentThreadLifecycle {
        state: AgentThreadState::Human,
        expires_at: None,
        ..working()
    };
    assert_eq!(
        encode_lifecycle(&done).unwrap(),
        "{\"version\":1,\"turnId\":\"turn-1\",\"state\":\"human\",\"phase\":\"working\",\"revision\":42}"
    );
}

#[test]
fn content_escapes_what_json_must() {
    let lifecycle = AgentThreadLifecycle {
        turn_id: "a\"b\\c\n\t\r\u{8}\u{c}\u{1}\u{1f}\u{e9}/\u{7f}".to_string(),
        revision: u64::MAX,
        ..working()
    };
    let content = encode_lifecycle(&lifecycle).unwrap();
    assert!(content.contains("\"a\\\"b\\\\c\\n\\t\\r\\b\\f\\u0001\\u001f\u{e9}/\u{7f}\""));
    assert_eq!(decode(&content).unwrap(), lifecycle);
}

#[test]
fn draft_names_channel_and_root() {
    let channel = ChannelId {
        bytes: [
            0x55, 0x0e, 0x84, 0x00, 0xe2, 0x9b, 0x41, 0xd4, 0xa7, 0x16, 0x44, 0x66, 0x55, 0x44,
            0x00, 0x00,
        ],
    };
    let draft = build_agent_thread_lifecycle(channel, ROOT, &working()).unwrap();
    assert_eq!(draft.kind, 24201);
    assert_eq!(
        draft.tags,
        vec![
            tag(&["h", "550e8400-e29b-41d4-a716-446655440000"]),
            tag(&["e", &"0".repeat(64), "", "root"]),
        ]
    );
}

#[test]
fn lifecycle_kind_is_ephemeral() {
    assert!((20000..30000).contains(&KIND_AGENT_THREAD_LIFECYCLE));
}

#[test]
fn signed_event_verifies() {
    let keys = nostr::Keys::generate();
    let event = build_agent_thread_lifecycle(channel(), ROOT, &working())
        .unwrap()
        .sign(&keys.secret_key().to_secret_bytes())
        .unwrap();
    let json = write_client_message("EVENT", &event).unwrap();
    let message: serde_json::Value = serde_json::from_str(&json).unwrap();
    let outside: nostr::Event = serde_json::from_value(message[1].clone()).unwrap();
    outside.verify().unwrap();
    assert_eq!(outside.pubkey, keys.public_key());
    assert_eq!(outside.id.to_bytes(), event.id.bytes);
    assert_eq!(outside.content, event.content);
    assert_eq!(outside.tags.len(), 2);
}

#[test]
fn signing_drops_mentions_of_the_author_only() {
    let keys = nostr::Keys::generate();
    let author = keys.public_key().to_hex();
    let other = nostr::Keys::generate().public_key().to_hex();
    let draft = EventDraft {
        kind: 9,
        tags: vec![tag(&["p", &author]), tag(&["p", &other]), tag(&["x", &author])],
        content: "hi".to_string(),
    };
    let event = draft.sign(&keys.secret_key().to_secret_bytes()).unwrap();
    assert_eq!(event.pubkey, keys.public_key().to_bytes());
    assert_eq!(event.kind, 9);
    assert_eq!(event.content, "hi");
    assert_eq!(event.tags, vec![tag(&["p", &other]), tag(&["x", &author])]);
}

#[test]
fn signing_needs_a_key_and_tags_that_are_not_empty() {
    let draft = |tags: Vec<Vec<String>>| EventDraft {
        kind: 9,
        tags,
        content: String::new(),
    };
    assert!(draft(vec![]).sign(&[0; 32]).is_none());
    assert!(draft(vec![]).sign(&[0xff; 32]).is_none());
    assert!(draft(vec![vec![]]).sign(&secret()).is_none());
    assert!(draft(vec![tag(&["x"])]).sign(&secret()).is_some());
}

#[test]
fn wrong_kind_comes_first() {
    let mut event = tagged(vec![]);
    event.kind = 24200;
    assert_eq!(parse(&event), Err(AgentThreadLifecycleError::WrongKind));
}

#[test]
fn channel_tag_must_be_unique() {
    let root = tag(&["e", &"0".repeat(64), "", "root"]);
    let h = tag(&["h", "550e8400-e29b-41d4-a716-446655440000"]);
    assert_eq!(tag_fault(&tagged(vec![root.clone()])), "missing h tag");
    assert_eq!(
        tag_fault(&tagged(vec![tag(&["h"]), root.clone()])),
        "missing h tag"
    );
    assert_eq!(
        tag_fault(&tagged(vec![h.clone(), root.clone(), h.clone()])),
        "duplicate h tag"
    );
    assert!(parse(&tagged(vec![tag(&["h"]), h, root])).is_ok());
}

#[test]
fn root_tag_must_be_unique() {
    let root = tag(&["e", &"0".repeat(64), "", "root"]);
    let reply = tag(&["e", &"1".repeat(64), "", "reply"]);
    let h = tag(&["h", "550e8400-e29b-41d4-a716-446655440000"]);
    assert_eq!(
        tag_fault(&tagged(vec![h.clone(), reply.clone()])),
        "missing e root tag"
    );
    assert_eq!(
        tag_fault(&tagged(vec![h.clone(), root.clone(), root.clone()])),
        "duplicate e root tag"
    );
    let parsed = parse(&tagged(vec![h, reply, root])).unwrap();
    assert_eq!(parsed.root_event_id, ROOT);
}

#[test]
fn coordinates_must_be_well_formed() {
    let root = tag(&["e", &"0".repeat(64), "", "root"]);
    let h = tag(&["h", "550e8400-e29b-41d4-a716-446655440000"]);
    let bad_channel = tag_fault(&tagged(vec![tag(&["h", "general"]), root]));
    assert_eq!(
        bad_channel,
        uuid::Uuid::parse_str("general").unwrap_err().to_string()
    );
    let bad_root = tag_fault(&tagged(vec![h, tag(&["e", "zz", "", "root"])]));
    assert_eq!(
        bad_root,
        nostr::EventId::from_hex("zz").unwrap_err().to_string()
    );
}

#[test]
fn content_must_decode_and_be_valid() {
    let root = tag(&["e", &"0".repeat(64), "", "root"]);
    let h = tag(&["h", "550e8400-e29b-41d4-a716-446655440000"]);
    let event = tagged(vec![h, root]);
    assert_eq!(
        parse_agent_thread_lifecycle(&event, Err("not JSON".to_string())),
        Err(AgentThreadLifecycleError::InvalidContent(
            "not JSON".to_string()
        ))
    );
    let stale = AgentThreadLifecycle {
        expires_at: None,
        ..working()
    };
    assert_eq!(
        parse_agent_thread_lifecycle(&event, Ok(stale)),
        Err(AgentThreadLifecycleError::InvalidContent(
            "agent state requires expiresAt".to_string()
        ))
    );
}

#[test]
fn errors_say_what_is_wrong() {
    let say = |error: AgentThreadLifecycleError| error.message();
    assert_eq!(
        say(AgentThreadLifecycleError::WrongKind),
        "event is not an agent thread lifecycle event"
    );
    assert_eq!(
        say(AgentThreadLifecycleError::InvalidTags("a".to_string())),
        "invalid lifecycle tags: a"
    );
    assert_eq!(
        say(AgentThreadLifecycleError::InvalidContent("b".to_string())),
        "invalid lifecycle content: b"
    );
    assert_eq!(
        say(AgentThreadLifecycleError::Build("c".to_string())),
        "could not build lifecycle event: c"
    );
}

#[test]
fn states_have_stable_wire_values() {
    assert_eq!(AgentThreadState::Agent.as_str(), "agent");
    assert_eq!(AgentThreadState::Human.as_str(), "human");
    assert_eq!(AgentThreadState::Failed.as_str(), "failed");
}

#[test]
fn only_the_signed_event_verifies() {
    let event = build_agent_thread_lifecycle(channel(), ROOT, &working())
        .unwrap()
        .sign(&secret())
        .unwrap();
    assert!(event.verify());
    let changes: [fn(&mut Event); 8] = [
        |event| event.content.push(' '),
        |event| event.kind += 1,
        |event| event.created_at += 1,
        |event| event.tags[0][1].push('x'),
        |event| event.tags.push(vec![]),
        |event| event.id.bytes[0] ^= 1,
        |event| event.sig[0] ^= 1,
        |event| event.pubkey[0] ^= 1,
    ];
    for change in changes {
        let mut changed = event.clone();
        change(&mut changed);
        assert!(!changed.verify());
    }
}
