use agent_thread::clock::Span;
use agent_thread::event::Event;
use agent_thread::ids::ChannelId;
use agent_thread::ids::EventId;
use agent_thread::lifecycle::parse_agent_thread_lifecycle;
use agent_thread::lifecycle::AgentThreadLifecycle;
use agent_thread::lifecycle::AgentThreadLifecycleError;
use agent_thread::lifecycle::AgentThreadState;
use agent_thread::lifecycle::ParsedAgentThreadLifecycle;
use agent_thread::reporter::working_expiry_secs;
use agent_thread::reporter::Delivery;
use agent_thread::reporter::Route;
use agent_thread::reporter::SessionScope;
use agent_thread::reporter::ThreadLifecycleReporter;
use agent_thread::reporter::Unreported;

const ROOT: EventId = EventId { bytes: [0; 32] };

fn thread() -> SessionScope {
    SessionScope::Thread {
        channel_id: ChannelId {
            bytes: uuid::Uuid::new_v4().into_bytes(),
        },
        root_event_id: ROOT.to_hex(),
    }
}

fn secret() -> [u8; 32] {
    nostr::Keys::generate().secret_key().to_secret_bytes()
}

fn relayed(delivery: Result<Delivery, Unreported>) -> Event {
    match delivery {
        Ok(Delivery::Relay { event }) => event,
        other => panic!("{other:?}"),
    }
}

fn parse(event: &Event) -> ParsedAgentThreadLifecycle {
    let value: serde_json::Value = serde_json::from_str(&event.content).unwrap();
    let text = |name: &str| value[name].as_str().unwrap().to_string();
    let decoded = AgentThreadLifecycle {
        version: value["version"].as_u64().unwrap() as u8,
        turn_id: text("turnId"),
        state: match text("state").as_str() {
            "agent" => AgentThreadState::Agent,
            "human" => AgentThreadState::Human,
            _ => AgentThreadState::Failed,
        },
        phase: text("phase"),
        revision: value["revision"].as_u64().unwrap(),
        expires_at: value["expiresAt"].as_u64(),
    };
    parse_agent_thread_lifecycle(event, Ok(decoded)).unwrap()
}

fn lives(event: &Event) -> u64 {
    parse(event).lifecycle.expires_at.unwrap() - event.created_at
}

#[test]
fn queued_snapshot_is_signed_scoped_and_carries_its_auth_tag() {
    let agent = nostr::Keys::generate();
    let owner = nostr::Keys::generate();
    let auth_tag = vec![
        "auth".to_string(),
        owner.public_key().to_hex(),
        "".to_string(),
        "0".repeat(128),
    ];
    let mut reporter = ThreadLifecycleReporter::new(
        agent.secret_key().to_secret_bytes(),
        Some(auth_tag.clone()),
    );
    let scope = thread();

    let event = relayed(reporter.try_agent_queued(&scope, "source-1"));
    let parsed = parse(&event);

    assert_eq!(event.pubkey, agent.public_key().to_bytes());
    assert_eq!(parsed.channel_id, scope.channel_id());
    assert_eq!(parsed.root_event_id, ROOT);
    assert_eq!(parsed.lifecycle.state, AgentThreadState::Agent);
    assert_eq!(parsed.lifecycle.phase, "queued");
    assert_eq!(parsed.lifecycle.turn_id, "queue:source-1");
    assert!(parsed.lifecycle.expires_at.is_some());
    assert!((598..=602).contains(&lives(&event)));
    assert_eq!(event.tags.last(), Some(&auth_tag));
}

#[test]
fn channel_scoped_dm_does_not_publish_thread_status() {
    let mut reporter = ThreadLifecycleReporter::new(secret(), None);
    let revision = reporter.next_revision();

    let delivery = reporter.try_agent_queued(
        &SessionScope::Conversation {
            channel_id: ChannelId {
                bytes: uuid::Uuid::new_v4().into_bytes(),
            },
        },
        "source-1",
    );

    assert_eq!(delivery, Err(Unreported::NoThread));
    assert_eq!(reporter.next_revision(), revision);
}

#[test]
fn retrying_terminal_snapshot_has_an_expiry() {
    let mut reporter = ThreadLifecycleReporter::new(secret(), None);
    let scope = thread();

    let event = relayed(reporter.publish_terminal(
        &scope,
        "turn-1",
        AgentThreadState::Agent,
        "retrying",
    ));

    let parsed = parse(&event);
    assert_eq!(parsed.lifecycle.state, AgentThreadState::Agent);
    assert_eq!(parsed.lifecycle.phase, "retrying");
    assert!(parsed.lifecycle.expires_at.is_some());
    assert!((598..=602).contains(&lives(&event)));
}

#[test]
fn completed_snapshot_has_none() {
    let mut reporter = ThreadLifecycleReporter::new(secret(), None);
    let scope = thread();
    for state in [AgentThreadState::Human, AgentThreadState::Failed] {
        let event = relayed(reporter.publish_terminal(&scope, "turn-1", state, "done"));
        assert_eq!(parse(&event).lifecycle.state, state);
        assert_eq!(parse(&event).lifecycle.expires_at, None);
        let event = relayed(reporter.try_terminal(&scope, "turn-1", state, "done"));
        assert_eq!(parse(&event).lifecycle.state, state);
        assert_eq!(parse(&event).lifecycle.turn_id, "turn-1");
    }
}

#[test]
fn agent_status_without_expiry_is_dropped_but_uses_a_revision() {
    let mut reporter = ThreadLifecycleReporter::with_revision(Route::Relay, secret(), None, 7);
    let delivery =
        reporter.try_terminal(&thread(), "turn-1", AgentThreadState::Agent, "retrying");
    assert_eq!(
        delivery,
        Err(Unreported::Invalid(
            AgentThreadLifecycleError::InvalidContent(
                "agent state requires expiresAt".to_string()
            )
        ))
    );
    assert_eq!(reporter.next_revision(), 8);
}

#[test]
fn root_that_is_no_event_id_is_not_reported() {
    let mut reporter = ThreadLifecycleReporter::with_revision(Route::Relay, secret(), None, 7);
    let scope = SessionScope::Thread {
        channel_id: ChannelId { bytes: [1; 16] },
        root_event_id: "root".to_string(),
    };
    assert_eq!(
        reporter.try_agent_queued(&scope, "source-1"),
        Err(Unreported::InvalidRoot(
            nostr::EventId::from_hex("root").unwrap_err().to_string()
        ))
    );
    assert_eq!(reporter.next_revision(), 7);
    assert_eq!(scope.channel_id(), ChannelId { bytes: [1; 16] });
}

#[test]
fn revisions_increase_and_wrap_around() {
    let mut reporter =
        ThreadLifecycleReporter::with_revision(Route::Relay, secret(), None, u64::MAX - 1);
    let scope = thread();
    let mut revisions = vec![];
    for _ in 0..3 {
        let event = relayed(reporter.try_agent_queued(&scope, "source-1"));
        revisions.push(parse(&event).lifecycle.revision);
    }
    assert_eq!(revisions, vec![u64::MAX - 1, u64::MAX, 0]);
}

#[test]
fn first_revision_is_the_time_in_microseconds() {
    let before = agent_thread::clock::unix_revision();
    let reporter = ThreadLifecycleReporter::new_rest(secret(), None);
    let after = agent_thread::clock::unix_revision();
    assert!(before <= reporter.next_revision() && reporter.next_revision() <= after);
}

#[test]
fn rest_submissions_give_up_after_five_seconds() {
    let mut reporter = ThreadLifecycleReporter::new_rest(secret(), None);
    match reporter.try_agent_queued(&thread(), "source-1") {
        Ok(Delivery::Rest {
            event,
            timeout_secs,
        }) => {
            assert_eq!(timeout_secs, 5);
            assert_eq!(parse(&event).lifecycle.phase, "queued");
        }
        other => panic!("{other:?}"),
    }
}

#[test]
fn working_expiry_follows_the_liveness_interval() {
    let secs = |secs: u64, nanos: u32| working_expiry_secs(Span { secs, nanos });
    assert_eq!(secs(0, 0), 600);
    assert_eq!(secs(0, 1), 45);
    assert_eq!(secs(15, 0), 45);
    assert_eq!(secs(15, 500_000_000), 46);
    assert_eq!(secs(60, 0), 180);
    assert_eq!(secs(u64::MAX, 999_999_999), u64::MAX);

    let mut reporter = ThreadLifecycleReporter::new(secret(), None);
    let event = relayed(reporter.try_agent_working(&thread(), "turn-1", Span::from_secs(60)));
    assert_eq!(parse(&event).lifecycle.phase, "working");
    assert!((178..=182).contains(&lives(&event)));
}

#[test]
fn composed_report_saturates_its_expiry() {
    let mut reporter = ThreadLifecycleReporter::with_revision(
        Route::Relay,
        secret(),
        Some(vec!["auth".to_string()]),
        3,
    );
    let scope = thread();
    let draft = reporter
        .compose(
            &scope,
            AgentThreadState::Agent,
            "turn-1",
            "working",
            Some(10),
            u64::MAX - 4,
        )
        .unwrap();
    assert_eq!(
        draft.content,
        "{\"version\":1,\"turnId\":\"turn-1\",\"state\":\"agent\",\"phase\":\"working\",\"revision\":3,\"expiresAt\":18446744073709551615}"
    );
    assert_eq!(draft.tags.len(), 3);
    assert_eq!(draft.tags[2], vec!["auth".to_string()]);
    assert_eq!(reporter.next_revision(), 4);
}

#[test]
fn secret_that_is_no_key_reports_nothing() {
    let mut reporter = ThreadLifecycleReporter::with_revision(Route::Relay, [0; 32], None, 3);
    assert_eq!(
        reporter.try_agent_queued(&thread(), "source-1"),
        Err(Unreported::Sign)
    );
    assert_eq!(reporter.next_revision(), 4);
}

#[test]
fn only_threads_in_between_use_up_revisions() {
    let mut reporter = ThreadLifecycleReporter::with_revision(Route::Relay, secret(), None, 10);
    let revision = |event: &Event| parse(event).lifecycle.revision;
    let first = relayed(reporter.try_agent_queued(&thread(), "source-1"));
    let conversation = SessionScope::Conversation {
        channel_id: ChannelId { bytes: [1; 16] },
    };
    assert!(reporter.try_agent_queued(&conversation, "source-1").is_err());
    assert!(reporter
        .try_terminal(&thread(), "", AgentThreadState::Human, "done")
        .is_err());
    assert!(reporter.try_agent_queued(&conversation, "source-1").is_err());
    let later = relayed(reporter.try_agent_queued(&thread(), "source-1"));
    assert_eq!((revision(&first), revision(&later)), (10, 12));
}
