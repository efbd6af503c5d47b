use agent_thread::coordinator::status_emoji;
use agent_thread::coordinator::AgentTurnRecord;
use agent_thread::coordinator::ThreadTurns;
use agent_thread::event::EventDraft;
use agent_thread::ids::ChannelId;
use agent_thread::ids::EventId;
use agent_thread::lifecycle::AgentThreadLifecycle;
use agent_thread::lifecycle::AgentThreadState;
use agent_thread::lifecycle::ParsedAgentThreadLifecycle;

const AGENT: [u8; 32] = [1; 32];
const SECOND_AGENT: [u8; 32] = [2; 32];
const ROOT: EventId = EventId { bytes: [3; 32] };
const REPLY: EventId = EventId { bytes: [4; 32] };

fn record(
    state: AgentThreadState,
    revision: u64,
    event_id: EventId,
    turn_id: &str,
    expires_at: Option<u64>,
) -> AgentTurnRecord {
    AgentTurnRecord {
        state,
        revision,
        event_id,
        turn_id: turn_id.to_string(),
        expires_at,
        authoritative: true,
    }
}

#[test]
fn concurrent_agent_turns_keep_agent_ownership_until_all_finish() {
    let mut turns = ThreadTurns::new();
    turns.record_agent_turn(
        AGENT,
        record(AgentThreadState::Agent, 1, REPLY, "agent-a", Some(100)),
    );
    turns.record_agent_turn(
        SECOND_AGENT,
        record(AgentThreadState::Human, 2, ROOT, "agent-b", None),
    );
    assert_eq!(
        turns.aggregate_thread_status(),
        Some((AgentThreadState::Agent, Some(100)))
    );

    turns.record_agent_turn(
        AGENT,
        record(AgentThreadState::Human, 3, ROOT, "agent-a", None),
    );
    assert_eq!(
        turns.aggregate_thread_status(),
        Some((AgentThreadState::Human, None))
    );

    turns.record_agent_turn(
        SECOND_AGENT,
        record(AgentThreadState::Failed, 4, REPLY, "agent-b", None),
    );
    assert_eq!(
        turns.aggregate_thread_status(),
        Some((AgentThreadState::Failed, None))
    );
}

#[test]
fn late_working_refresh_cannot_revive_terminal_turn() {
    let mut turns = ThreadTurns::new();
    turns.record_agent_turn(
        AGENT,
        record(AgentThreadState::Human, 10, ROOT, "same-turn", None),
    );
    turns.record_agent_turn(
        AGENT,
        record(AgentThreadState::Agent, 11, REPLY, "same-turn", Some(100)),
    );
    assert_eq!(
        turns.aggregate_thread_status(),
        Some((AgentThreadState::Human, None))
    );
}

#[test]
fn lifecycle_state_supersedes_synthetic_route_revision() {
    let mut turns = ThreadTurns::new();
    turns.record_agent_turn(
        AGENT,
        AgentTurnRecord {
            authoritative: false,
            ..record(AgentThreadState::Agent, u64::MAX, REPLY, "route", Some(100))
        },
    );
    turns.record_agent_turn(
        AGENT,
        record(AgentThreadState::Human, 1, ROOT, "lifecycle", None),
    );
    assert_eq!(
        turns.aggregate_thread_status(),
        Some((AgentThreadState::Human, None))
    );
}

#[test]
fn synthetic_route_starts_a_new_turn_after_terminal_lifecycle() {
    let mut turns = ThreadTurns::new();
    turns.record_agent_turn(
        AGENT,
        record(AgentThreadState::Human, u64::MAX, ROOT, "finished", None),
    );
    turns.record_agent_turn(
        AGENT,
        AgentTurnRecord {
            authoritative: false,
            ..record(AgentThreadState::Agent, 1, REPLY, "route", Some(100))
        },
    );
    assert_eq!(
        turns.aggregate_thread_status(),
        Some((AgentThreadState::Agent, Some(100)))
    );
}

#[test]
fn inference_gives_way_to_an_active_turn() {
    let mut turns = ThreadTurns::new();
    turns.record_agent_turn(
        AGENT,
        record(AgentThreadState::Agent, 1, ROOT, "turn", Some(100)),
    );
    turns.record_agent_turn(
        AGENT,
        AgentTurnRecord {
            authoritative: false,
            ..record(AgentThreadState::Agent, 9, REPLY, "route", Some(900))
        },
    );
    assert_eq!(
        turns.aggregate_thread_status(),
        Some((AgentThreadState::Agent, Some(100)))
    );
}

#[test]
fn reordered_snapshots_are_rejected() {
    let mut turns = ThreadTurns::new();
    assert_eq!(turns.aggregate_thread_status(), None);
    let mut expiry = |revision: u64, event_id: EventId, at: u64| {
        turns.record_agent_turn(
            AGENT,
            record(AgentThreadState::Agent, revision, event_id, "turn", Some(at)),
        );
        turns.aggregate_thread_status().unwrap().1.unwrap()
    };
    assert_eq!(expiry(5, ROOT, 100), 100);
    assert_eq!(expiry(4, REPLY, 200), 100);
    assert_eq!(expiry(5, ROOT, 300), 100);
    assert_eq!(expiry(5, REPLY, 400), 400);
    assert_eq!(expiry(5, ROOT, 500), 400);
    assert_eq!(expiry(6, ROOT, 600), 600);
}

#[test]
fn thread_is_an_agents_until_the_last_snapshot_expires() {
    let mut turns = ThreadTurns::new();
    turns.record_agent_turn(
        AGENT,
        record(AgentThreadState::Agent, 1, ROOT, "a", Some(200)),
    );
    turns.record_agent_turn(
        SECOND_AGENT,
        record(AgentThreadState::Agent, 1, ROOT, "b", Some(100)),
    );
    assert_eq!(
        turns.aggregate_thread_status(),
        Some((AgentThreadState::Agent, Some(200)))
    );
    assert!(!turns.expire(99, 10));
    assert!(turns.expire(100, 10));
    assert!(!turns.expire(100, 11));
    assert_eq!(
        turns.aggregate_thread_status(),
        Some((AgentThreadState::Agent, Some(200)))
    );
    assert!(turns.expire(200, 12));
    assert_eq!(
        turns.aggregate_thread_status(),
        Some((AgentThreadState::Failed, None))
    );
    turns.record_agent_turn(
        AGENT,
        record(AgentThreadState::Agent, 12, ROOT, "a", Some(300)),
    );
    assert_eq!(
        turns.aggregate_thread_status(),
        Some((AgentThreadState::Failed, None))
    );
    turns.record_agent_turn(
        AGENT,
        record(AgentThreadState::Agent, 13, ROOT, "a", Some(300)),
    );
    assert_eq!(
        turns.aggregate_thread_status(),
        Some((AgentThreadState::Agent, Some(300)))
    );
}

#[test]
fn parsed_event_speaks_for_its_author() {
    let keys = nostr::Keys::generate();
    let draft = EventDraft {
        kind: 24201,
        tags: vec![],
        content: String::new(),
    };
    let event = draft.sign(&keys.secret_key().to_secret_bytes()).unwrap();
    let parsed = |state: AgentThreadState, revision: u64, expires_at: Option<u64>| {
        ParsedAgentThreadLifecycle {
            channel_id: ChannelId { bytes: [0; 16] },
            root_event_id: ROOT,
            lifecycle: AgentThreadLifecycle {
                version: 1,
                turn_id: "turn".to_string(),
                state,
                phase: "phase".to_string(),
                revision,
                expires_at,
            },
        }
    };
    let mut turns = ThreadTurns::new();
    turns.record_lifecycle(&event, parsed(AgentThreadState::Agent, 1, Some(50)));
    assert_eq!(
        turns.aggregate_thread_status(),
        Some((AgentThreadState::Agent, Some(50)))
    );
    turns.record_lifecycle(&event, parsed(AgentThreadState::Human, 2, None));
    assert_eq!(
        turns.aggregate_thread_status(),
        Some((AgentThreadState::Human, None))
    );
}

#[test]
fn statuses_have_emoji() {
    assert_eq!(status_emoji(AgentThreadState::Agent), "⏳");
    assert_eq!(status_emoji(AgentThreadState::Human), "✅");
    assert_eq!(status_emoji(AgentThreadState::Failed), "⚠️");
}
