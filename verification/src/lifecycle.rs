//! Agent thread lifecycle events, which harnesses publish and coordinators read.
//!
//! A lifecycle event is ephemeral and channel-scoped. It carries a snapshot of
//! which side owns the next action in a thread.

use crate::event::can_sign;
use crate::event::is_signed;
use crate::event::kept_tags;
use crate::event::law_unmentioned_author_keeps_tags;
use crate::event::mentions;
use crate::event::parse_tag;
use crate::event::public_key_of;
use crate::event::Event;
use crate::event::EventDraft;
use crate::event::EventDraftView;
use crate::ids::event_id_error_text;
use crate::ids::event_id_of;
use crate::ids::law_channel_id_round_trip;
use crate::ids::law_event_id_round_trip;
use crate::ids::uuid_error_text;
use crate::ids::uuid_of;
use crate::ids::uuid_text;
use crate::ids::ChannelId;
use crate::ids::EventId;
use crate::relay::comma_separated;
use crate::relay::lemma_comma_separated_append;
use crate::text::byte_len;
use crate::text::decimal;
use crate::text::decimal_text;
use crate::text::encode_hex;
use crate::text::is_digit;
use crate::text::json_string;
use crate::text::json_text;
use crate::text::law_decimal_prefix;
use crate::text::law_json_string_prefix;
use crate::text::lemma_regroup;
use crate::text::lemma_same_prefix;
use crate::text::same_text;
use vstd::prelude::*;

verus! {

/// The event kind of a lifecycle snapshot, in the ephemeral range.
pub const KIND_AGENT_THREAD_LIFECYCLE: u16 = 24201;

/// Current ownership of the next action in a thread.
#[derive(Debug, Clone, Copy, PartialEq, Eq, Structural)]
pub enum AgentThreadState {
    /// Work is queued or actively running in an agent harness.
    Agent,
    /// The last agent turn completed successfully; a human may act next.
    Human,
    /// Work failed, became stale, or could not be assigned.
    Failed,
}

impl AgentThreadState {
    /// The wire value of the state.
    pub open spec fn text(self) -> Seq<char> {
        match self {
            AgentThreadState::Agent => "agent"@,
            AgentThreadState::Human => "human"@,
            AgentThreadState::Failed => "failed"@,
        }
    }

    /// Stable wire value used in event content and coordinator reaction tags.
    pub fn as_str(self) -> (r: &'static str)
        ensures
            r@ == self.text(),
    {
        match self {
            AgentThreadState::Agent => "agent",
            AgentThreadState::Human => "human",
            AgentThreadState::Failed => "failed",
        }
    }
}

/// Versioned JSON content of a lifecycle event.
#[derive(Debug, Clone, PartialEq, Eq)]
pub struct AgentThreadLifecycle {
    /// Wire format version. Currently `1`.
    pub version: u8,
    /// Harness-generated turn identifier, or a stable queue source identifier.
    pub turn_id: String,
    /// Which side owns the next action.
    pub state: AgentThreadState,
    /// More specific diagnostic phase such as `queued`, `working`, or `retrying`.
    pub phase: String,
    /// Publisher-monotonic revision used to reject reordered snapshots.
    pub revision: u64,
    /// Unix timestamp after which an `agent` snapshot is stale without refresh.
    pub expires_at: Option<u64>,
}

/// What an [`AgentThreadLifecycle`] holds.
pub struct AgentThreadLifecycleView {
    pub version: u8,
    pub turn_id: Seq<char>,
    pub state: AgentThreadState,
    pub phase: Seq<char>,
    pub revision: u64,
    pub expires_at: Option<u64>,
}

impl View for AgentThreadLifecycle {
    type V = AgentThreadLifecycleView;

    open spec fn view(&self) -> AgentThreadLifecycleView {
        AgentThreadLifecycleView {
            version: self.version,
            turn_id: self.turn_id@,
            state: self.state,
            phase: self.phase@,
            revision: self.revision,
            expires_at: self.expires_at,
        }
    }
}

/// A validated lifecycle event with its routing coordinates.
#[derive(Debug, Clone, PartialEq, Eq)]
pub struct ParsedAgentThreadLifecycle {
    /// Channel containing the thread.
    pub channel_id: ChannelId,
    /// Root message on which the coordinator projects status.
    pub root_event_id: EventId,
    /// Parsed lifecycle content.
    pub lifecycle: AgentThreadLifecycle,
}

/// What a [`ParsedAgentThreadLifecycle`] holds.
pub struct ParsedAgentThreadLifecycleView {
    pub channel_id: Seq<u8>,
    pub root_event_id: Seq<u8>,
    pub lifecycle: AgentThreadLifecycleView,
}

impl View for ParsedAgentThreadLifecycle {
    type V = ParsedAgentThreadLifecycleView;

    open spec fn view(&self) -> ParsedAgentThreadLifecycleView {
        ParsedAgentThreadLifecycleView {
            channel_id: self.channel_id@,
            root_event_id: self.root_event_id@,
            lifecycle: self.lifecycle@,
        }
    }
}

/// Lifecycle event construction or validation error.
#[derive(Debug, Clone, PartialEq, Eq)]
pub enum AgentThreadLifecycleError {
    /// Event is not the registered lifecycle kind.
    WrongKind,
    /// A required tag is absent, duplicated, or malformed.
    InvalidTags(String),
    /// Lifecycle JSON is malformed or violates the wire contract.
    InvalidContent(String),
    /// A tag was rejected.
    Build(String),
}

/// What an [`AgentThreadLifecycleError`] holds.
pub enum AgentThreadLifecycleErrorView {
    WrongKind,
    InvalidTags(Seq<char>),
    InvalidContent(Seq<char>),
    Build(Seq<char>),
}

impl View for AgentThreadLifecycleError {
    type V = AgentThreadLifecycleErrorView;

    open spec fn view(&self) -> AgentThreadLifecycleErrorView {
        match self {
            AgentThreadLifecycleError::WrongKind => AgentThreadLifecycleErrorView::WrongKind,
            AgentThreadLifecycleError::InvalidTags(m) => AgentThreadLifecycleErrorView::InvalidTags(
                m@,
            ),
            AgentThreadLifecycleError::InvalidContent(m) =>
                AgentThreadLifecycleErrorView::InvalidContent(m@),
            AgentThreadLifecycleError::Build(m) => AgentThreadLifecycleErrorView::Build(m@),
        }
    }
}

impl AgentThreadLifecycleErrorView {
    /// The message that the error shows.
    pub open spec fn message(self) -> Seq<char> {
        match self {
            AgentThreadLifecycleErrorView::WrongKind =>
                "event is not an agent thread lifecycle event"@,
            AgentThreadLifecycleErrorView::InvalidTags(m) => "invalid lifecycle tags: "@ + m,
            AgentThreadLifecycleErrorView::InvalidContent(m) => "invalid lifecycle content: "@ + m,
            AgentThreadLifecycleErrorView::Build(m) => "could not build lifecycle event: "@ + m,
        }
    }
}

impl AgentThreadLifecycleError {
    /// The message that the error shows.
    pub fn message(&self) -> (r: String)
        ensures
            r@ == self@.message(),
    {
        match self {
            AgentThreadLifecycleError::WrongKind => {
                "event is not an agent thread lifecycle event".to_owned()
            },
            AgentThreadLifecycleError::InvalidTags(m) => {
                "invalid lifecycle tags: ".to_owned().concat(m.as_str())
            },
            AgentThreadLifecycleError::InvalidContent(m) => {
                "invalid lifecycle content: ".to_owned().concat(m.as_str())
            },
            AgentThreadLifecycleError::Build(m) => {
                "could not build lifecycle event: ".to_owned().concat(m.as_str())
            },
        }
    }
}

/// What the wire contract holds against `l`, `None` if nothing.
pub open spec fn lifecycle_fault(l: AgentThreadLifecycleView) -> Option<Seq<char>> {
    if l.version != 1 {
        Some("unsupported version "@ + decimal_text(l.version as nat))
    } else if l.turn_id.len() == 0 || byte_len(l.turn_id) > 128 {
        Some("turnId must contain 1..=128 bytes"@)
    } else if l.phase.len() == 0 || byte_len(l.phase) > 64 {
        Some("phase must contain 1..=64 bytes"@)
    } else if l.state == AgentThreadState::Agent && l.expires_at is None {
        Some("agent state requires expiresAt"@)
    } else if l.state != AgentThreadState::Agent && l.expires_at is Some {
        Some("terminal state must not carry expiresAt"@)
    } else {
        None
    }
}

/// Checks a snapshot against the wire contract.
pub fn validate_lifecycle(lifecycle: &AgentThreadLifecycle) -> (r: Result<
    (),
    AgentThreadLifecycleError,
>)
    ensures
        match r {
            Ok(_) => lifecycle_fault(lifecycle@) is None,
            Err(error) => lifecycle_fault(lifecycle@) matches Some(fault) && error@
                == AgentThreadLifecycleErrorView::InvalidContent(fault),
        },
{
    if lifecycle.version != 1 {
        return Err(
            AgentThreadLifecycleError::InvalidContent(
                "unsupported version ".to_owned().concat(
                    decimal(lifecycle.version as u64).as_str(),
                ),
            ),
        );
    }
    let turn_id = lifecycle.turn_id.as_str();
    if turn_id.is_empty() || turn_id.as_bytes().len() > 128 {
        return Err(
            AgentThreadLifecycleError::InvalidContent(
                "turnId must contain 1..=128 bytes".to_owned(),
            ),
        );
    }
    let phase = lifecycle.phase.as_str();
    if phase.is_empty() || phase.as_bytes().len() > 64 {
        return Err(
            AgentThreadLifecycleError::InvalidContent("phase must contain 1..=64 bytes".to_owned()),
        );
    }
    if lifecycle.state == AgentThreadState::Agent && lifecycle.expires_at.is_none() {
        return Err(
            AgentThreadLifecycleError::InvalidContent("agent state requires expiresAt".to_owned()),
        );
    }
    if lifecycle.state != AgentThreadState::Agent && lifecycle.expires_at.is_some() {
        return Err(
            AgentThreadLifecycleError::InvalidContent(
                "terminal state must not carry expiresAt".to_owned(),
            ),
        );
    }
    Ok(())
}

/// The expiry member of the content; a snapshot without expiry has none.
pub open spec fn expiry_text(expires_at: Option<u64>) -> Seq<char> {
    match expires_at {
        Some(at) => ",\"expiresAt\":"@ + decimal_text(at as nat),
        None => seq![],
    }
}

/// The content of a lifecycle event: the snapshot as a JSON object.
pub open spec fn content_text(l: AgentThreadLifecycleView) -> Seq<char> {
    "{\"version\":"@ + decimal_text(l.version as nat) + ",\"turnId\":"@ + json_string(l.turn_id)
        + ",\"state\":"@ + json_string(l.state.text()) + ",\"phase\":"@ + json_string(l.phase)
        + ",\"revision\":"@ + decimal_text(l.revision as nat) + expiry_text(l.expires_at) + "}"@
}

/// Writes a snapshot as the content of a lifecycle event.
pub fn encode_lifecycle(lifecycle: &AgentThreadLifecycle) -> (r: Result<
    String,
    AgentThreadLifecycleError,
>)
    ensures
        r is Ok,
        r->Ok_0@ == content_text(lifecycle@),
{
    let turn_id = match json_text(lifecycle.turn_id.as_str()) {
        Ok(text) => text,
        Err(message) => return Err(AgentThreadLifecycleError::InvalidContent(message)),
    };
    let state = match json_text(lifecycle.state.as_str()) {
        Ok(text) => text,
        Err(message) => return Err(AgentThreadLifecycleError::InvalidContent(message)),
    };
    let phase = match json_text(lifecycle.phase.as_str()) {
        Ok(text) => text,
        Err(message) => return Err(AgentThreadLifecycleError::InvalidContent(message)),
    };
    let mut content = "{\"version\":".to_owned();
    content.append(decimal(lifecycle.version as u64).as_str());
    content.append(",\"turnId\":");
    content.append(turn_id.as_str());
    content.append(",\"state\":");
    content.append(state.as_str());
    content.append(",\"phase\":");
    content.append(phase.as_str());
    content.append(",\"revision\":");
    content.append(decimal(lifecycle.revision).as_str());
    let ghost before = content@;
    match lifecycle.expires_at {
        Some(at) => {
            content.append(",\"expiresAt\":");
            content.append(decimal(at).as_str());
        },
        None => {},
    }
    assert(content@ =~= before + expiry_text(lifecycle.expires_at));
    content.append("}");
    Ok(content)
}

/// The tags of a lifecycle event: its channel and the root of its thread.
pub open spec fn lifecycle_tags(channel_id: Seq<u8>, root_event_id: Seq<u8>) -> Seq<
    Seq<Seq<char>>,
> {
    seq![
        seq!["h"@, uuid_text(channel_id)],
        seq!["e"@, encode_hex(root_event_id), ""@, "root"@],
    ]
}

/// The unsigned lifecycle event of a snapshot.
pub open spec fn lifecycle_draft(
    channel_id: Seq<u8>,
    root_event_id: Seq<u8>,
    l: AgentThreadLifecycleView,
) -> EventDraftView {
    EventDraftView {
        kind: KIND_AGENT_THREAD_LIFECYCLE,
        tags: lifecycle_tags(channel_id, root_event_id),
        content: content_text(l),
    }
}

/// Build an unsigned channel-scoped lifecycle event.
pub fn build_agent_thread_lifecycle(
    channel_id: ChannelId,
    root_event_id: EventId,
    lifecycle: &AgentThreadLifecycle,
) -> (r: Result<EventDraft, AgentThreadLifecycleError>)
    ensures
        match r {
            Ok(draft) => lifecycle_fault(lifecycle@) is None && draft@ == lifecycle_draft(
                channel_id@,
                root_event_id@,
                lifecycle@,
            ),
            Err(error) => lifecycle_fault(lifecycle@) matches Some(fault) && error@
                == AgentThreadLifecycleErrorView::InvalidContent(fault),
        },
{
    match validate_lifecycle(lifecycle) {
        Ok(_) => {},
        Err(error) => return Err(error),
    }
    let channel = channel_id.to_text();
    let root = root_event_id.to_hex();
    let content = match encode_lifecycle(lifecycle) {
        Ok(content) => content,
        Err(error) => return Err(error),
    };
    let mut channel_parts: Vec<String> = Vec::new();
    channel_parts.push("h".to_owned());
    channel_parts.push(channel);
    let channel_tag = match parse_tag(channel_parts) {
        Ok(tag) => tag,
        Err(message) => return Err(AgentThreadLifecycleError::Build(message)),
    };
    let mut root_parts: Vec<String> = Vec::new();
    root_parts.push("e".to_owned());
    root_parts.push(root);
    root_parts.push("".to_owned());
    root_parts.push("root".to_owned());
    let root_tag = match parse_tag(root_parts) {
        Ok(tag) => tag,
        Err(message) => return Err(AgentThreadLifecycleError::Build(message)),
    };
    let mut tags: Vec<Vec<String>> = Vec::new();
    tags.push(channel_tag);
    tags.push(root_tag);
    assert(channel_tag.deep_view() =~= lifecycle_tags(channel_id@, root_event_id@)[0]);
    assert(root_tag.deep_view() =~= lifecycle_tags(channel_id@, root_event_id@)[1]);
    assert(tags.deep_view() =~= lifecycle_tags(channel_id@, root_event_id@));
    Ok(EventDraft { kind: KIND_AGENT_THREAD_LIFECYCLE, tags, content })
}

/// The value of a tag that is called `name`, if it has one.
pub open spec fn named_tag_value(tag: Seq<Seq<char>>, name: Seq<char>) -> Option<Seq<char>> {
    if tag.len() > 1 && tag[0] == name {
        Some(tag[1])
    } else {
        None
    }
}

/// The event that an `e` tag with the marker `root` names.
pub open spec fn root_tag_value(tag: Seq<Seq<char>>) -> Option<Seq<char>> {
    if tag.len() > 3 && tag[0] == "e"@ && tag[3] == "root"@ {
        Some(tag[1])
    } else {
        None
    }
}

/// The values of the tags that are called `name`.
pub open spec fn named_tag_values(tags: Seq<Seq<Seq<char>>>, name: Seq<char>) -> Seq<Seq<char>> {
    tags.filter_map(|tag: Seq<Seq<char>>| named_tag_value(tag, name))
}

/// The events that the root tags name.
pub open spec fn root_tag_values(tags: Seq<Seq<Seq<char>>>) -> Seq<Seq<char>> {
    tags.filter_map(|tag: Seq<Seq<char>>| root_tag_value(tag))
}

/// The only one of `values`, or what is wrong with their number.
pub open spec fn sole_value(values: Seq<Seq<char>>, label: Seq<char>) -> Result<
    Seq<char>,
    AgentThreadLifecycleErrorView,
> {
    if values.len() == 0 {
        Err(AgentThreadLifecycleErrorView::InvalidTags("missing "@ + label + " tag"@))
    } else if values.len() > 1 {
        Err(AgentThreadLifecycleErrorView::InvalidTags("duplicate "@ + label + " tag"@))
    } else {
        Ok(values[0])
    }
}

/// `r` with the views of what it holds.
pub open spec fn tag_result_view(r: Result<&str, AgentThreadLifecycleError>) -> Result<
    Seq<char>,
    AgentThreadLifecycleErrorView,
> {
    match r {
        Ok(value) => Ok(value@),
        Err(error) => Err(error@),
    }
}

/// Settles what was found of the tags that `label` describes: the first value,
/// and whether there were more.
fn settle_sole_value<'a>(first: Option<&'a str>, more: bool, label: &str) -> (r: Result<
    &'a str,
    AgentThreadLifecycleError,
>)
    ensures
        first is None ==> tag_result_view(r) == Err::<Seq<char>, AgentThreadLifecycleErrorView>(
            AgentThreadLifecycleErrorView::InvalidTags("missing "@ + label@ + " tag"@),
        ),
        first is Some && more ==> tag_result_view(r) == Err::<
            Seq<char>,
            AgentThreadLifecycleErrorView,
        >(AgentThreadLifecycleErrorView::InvalidTags("duplicate "@ + label@ + " tag"@)),
        first is Some && !more ==> tag_result_view(r) == Ok::<
            Seq<char>,
            AgentThreadLifecycleErrorView,
        >(first->0@),
{
    match first {
        None => Err(
            AgentThreadLifecycleError::InvalidTags("missing ".to_owned().concat(label).concat(" tag")),
        ),
        Some(value) => {
            if more {
                Err(
                    AgentThreadLifecycleError::InvalidTags(
                        "duplicate ".to_owned().concat(label).concat(" tag"),
                    ),
                )
            } else {
                Ok(value)
            }
        },
    }
}

/// The value of the only tag that is called `name`.
pub fn unique_tag_value<'a>(event: &'a Event, name: &str) -> (r: Result<
    &'a str,
    AgentThreadLifecycleError,
>)
    ensures
        tag_result_view(r) == sole_value(named_tag_values(event.tags.deep_view(), name@), name@),
        match r {
            Ok(value) => sole_value(named_tag_values(event.tags.deep_view(), name@), name@) == Ok::<
                Seq<char>,
                AgentThreadLifecycleErrorView,
            >(value@),
            Err(error) => sole_value(named_tag_values(event.tags.deep_view(), name@), name@) == Err::<
                Seq<char>,
                AgentThreadLifecycleErrorView,
            >(error@),
        },
{
    let ghost all = event.tags.deep_view();
    let ghost pick = |tag: Seq<Seq<char>>| named_tag_value(tag, name@);
    let mut first: Option<&'a str> = None;
    let mut more = false;
    let mut i: usize = 0;
    while i < event.tags.len()
        invariant
            i <= event.tags@.len(),
            all == event.tags.deep_view(),
            pick == |tag: Seq<Seq<char>>| named_tag_value(tag, name@),
            first is None <==> all.take(i as int).filter_map(pick).len() == 0,
            first is Some ==> first->0@ == all.take(i as int).filter_map(pick)[0],
            more <==> all.take(i as int).filter_map(pick).len() > 1,
        decreases event.tags@.len() - i,
    {
        proof {
            all.lemma_filter_map_take_succ(pick, i as int);
        }
        let parts: &'a Vec<String> = &event.tags[i];
        assert(parts.deep_view() == all[i as int]);
        if parts.len() > 1 && same_text(parts[0].as_str(), name) {
            if first.is_none() {
                first = Some(parts[1].as_str());
            } else {
                more = true;
            }
        }
        i = i + 1;
    }
    assert(all.take(i as int) =~= all);
    settle_sole_value(first, more, name)
}

/// The event that the only root tag names.
pub fn unique_root_tag_value(event: &Event) -> (r: Result<&str, AgentThreadLifecycleError>)
    ensures
        tag_result_view(r) == sole_value(root_tag_values(event.tags.deep_view()), "e root"@),
        match r {
            Ok(value) => sole_value(root_tag_values(event.tags.deep_view()), "e root"@) == Ok::<
                Seq<char>,
                AgentThreadLifecycleErrorView,
            >(value@),
            Err(error) => sole_value(root_tag_values(event.tags.deep_view()), "e root"@) == Err::<
                Seq<char>,
                AgentThreadLifecycleErrorView,
            >(error@),
        },
{
    let ghost all = event.tags.deep_view();
    let ghost pick = |tag: Seq<Seq<char>>| root_tag_value(tag);
    let mut first: Option<&str> = None;
    let mut more = false;
    let mut i: usize = 0;
    while i < event.tags.len()
        invariant
            i <= event.tags@.len(),
            all == event.tags.deep_view(),
            pick == |tag: Seq<Seq<char>>| root_tag_value(tag),
            first is None <==> all.take(i as int).filter_map(pick).len() == 0,
            first is Some ==> first->0@ == all.take(i as int).filter_map(pick)[0],
            more <==> all.take(i as int).filter_map(pick).len() > 1,
        decreases event.tags@.len() - i,
    {
        proof {
            all.lemma_filter_map_take_succ(pick, i as int);
        }
        let parts: &Vec<String> = &event.tags[i];
        assert(parts.deep_view() == all[i as int]);
        if parts.len() > 3 && same_text(parts[0].as_str(), "e") && same_text(
            parts[3].as_str(),
            "root",
        ) {
            if first.is_none() {
                first = Some(parts[1].as_str());
            } else {
                more = true;
            }
        }
        i = i + 1;
    }
    assert(all.take(i as int) =~= all);
    settle_sole_value(first, more, "e root")
}

/// What a lifecycle event of the given kind and tags parses to, when its content
/// decodes to `decoded`.
pub open spec fn parse_result(
    kind: u16,
    tags: Seq<Seq<Seq<char>>>,
    decoded: Result<AgentThreadLifecycleView, Seq<char>>,
) -> Result<ParsedAgentThreadLifecycleView, AgentThreadLifecycleErrorView> {
    if kind != KIND_AGENT_THREAD_LIFECYCLE {
        Err(AgentThreadLifecycleErrorView::WrongKind)
    } else {
        match coordinates_result(tags) {
            Err(error) => Err(error),
            Ok((channel_id, root_event_id)) => match decoded {
                Err(message) => Err(AgentThreadLifecycleErrorView::InvalidContent(message)),
                Ok(lifecycle) => match lifecycle_fault(lifecycle) {
                    Some(fault) => Err(AgentThreadLifecycleErrorView::InvalidContent(fault)),
                    None => Ok(
                        ParsedAgentThreadLifecycleView { channel_id, root_event_id, lifecycle },
                    ),
                },
            },
        }
    }
}

/// The channel and the thread root that the tags name, or the first fault in
/// them: the channel's come before the root's.
pub open spec fn coordinates_result(tags: Seq<Seq<Seq<char>>>) -> Result<
    (Seq<u8>, Seq<u8>),
    AgentThreadLifecycleErrorView,
> {
    match sole_value(named_tag_values(tags, "h"@), "h"@) {
        Err(error) => Err(error),
        Ok(channel) => match uuid_of(channel) {
            None => Err(AgentThreadLifecycleErrorView::InvalidTags(uuid_error_text(channel))),
            Some(channel_id) => match sole_value(root_tag_values(tags), "e root"@) {
                Err(error) => Err(error),
                Ok(root) => match event_id_of(root) {
                    None => Err(
                        AgentThreadLifecycleErrorView::InvalidTags(event_id_error_text(root)),
                    ),
                    Some(root_event_id) => Ok((channel_id, root_event_id)),
                },
            },
        },
    }
}

/// `r` with the views of what it holds.
pub open spec fn parsed_view(
    r: Result<ParsedAgentThreadLifecycle, AgentThreadLifecycleError>,
) -> Result<ParsedAgentThreadLifecycleView, AgentThreadLifecycleErrorView> {
    match r {
        Ok(parsed) => Ok(parsed@),
        Err(error) => Err(error@),
    }
}

/// `r` with the views of what it holds.
pub open spec fn decoded_view(r: Result<AgentThreadLifecycle, String>) -> Result<
    AgentThreadLifecycleView,
    Seq<char>,
> {
    match r {
        Ok(lifecycle) => Ok(lifecycle@),
        Err(message) => Err(message@),
    }
}

/// Parse and validate a lifecycle event's kind, coordinates, and JSON content.
///
/// `decoded` is what the JSON decoder makes of the event's content: the
/// snapshot, or the decoder's message.
///
/// Signature and NIP-OA owner attestation verification remain the consumer's
/// responsibility because the expected owner is local policy.
pub fn parse_agent_thread_lifecycle(
    event: &Event,
    decoded: Result<AgentThreadLifecycle, String>,
) -> (r: Result<ParsedAgentThreadLifecycle, AgentThreadLifecycleError>)
    ensures
        parsed_view(r) == parse_result(event.kind, event.tags.deep_view(), decoded_view(decoded)),
        ({
            let said = match decoded {
                Ok(lifecycle) => Ok::<AgentThreadLifecycleView, Seq<char>>(lifecycle@),
                Err(message) => Err::<AgentThreadLifecycleView, Seq<char>>(message@),
            };
            let parsed = parse_result(event.kind, event.tags.deep_view(), said);
            match r {
                Ok(value) => parsed is Ok && parsed->Ok_0 == value@,
                Err(error) => parsed is Err && parsed->Err_0 == error@,
            }
        }),
{
    if event.kind != KIND_AGENT_THREAD_LIFECYCLE {
        return Err(AgentThreadLifecycleError::WrongKind);
    }
    let channel = match unique_tag_value(event, "h") {
        Ok(value) => value,
        Err(error) => return Err(error),
    };
    let channel_id = match ChannelId::parse_str(channel) {
        Ok(id) => id,
        Err(message) => return Err(AgentThreadLifecycleError::InvalidTags(message)),
    };
    let root = match unique_root_tag_value(event) {
        Ok(value) => value,
        Err(error) => return Err(error),
    };
    let root_event_id = match EventId::from_hex(root) {
        Ok(id) => id,
        Err(message) => return Err(AgentThreadLifecycleError::InvalidTags(message)),
    };
    let lifecycle = match decoded {
        Ok(lifecycle) => lifecycle,
        Err(message) => return Err(AgentThreadLifecycleError::InvalidContent(message)),
    };
    match validate_lifecycle(&lifecycle) {
        Ok(_) => {},
        Err(error) => return Err(error),
    }
    Ok(ParsedAgentThreadLifecycle { channel_id, root_event_id, lifecycle })
}

/// States with the same wire value are the same state.
pub proof fn law_state_text_injective(a: AgentThreadState, b: AgentThreadState)
    requires
        a.text() == b.text(),
    ensures
        a == b,
{
    reveal_strlit("agent");
    reveal_strlit("human");
    reveal_strlit("failed");
    assert("agent"@[0] == 'a');
    assert("human"@[0] == 'h');
    assert("failed"@[0] == 'f');
}

/// What stands behind the revision in the content.
spec fn content_tail(l: AgentThreadLifecycleView) -> Seq<char> {
    expiry_text(l.expires_at) + "}"@
}

/// What stands behind the phase in the content.
spec fn content_from_revision(l: AgentThreadLifecycleView) -> Seq<char> {
    ",\"revision\":"@ + (decimal_text(l.revision as nat) + content_tail(l))
}

/// What stands behind the state in the content.
spec fn content_from_phase(l: AgentThreadLifecycleView) -> Seq<char> {
    ",\"phase\":"@ + (json_string(l.phase) + content_from_revision(l))
}

/// What stands behind the turn in the content.
spec fn content_from_state(l: AgentThreadLifecycleView) -> Seq<char> {
    ",\"state\":"@ + (json_string(l.state.text()) + content_from_phase(l))
}

/// What stands behind the version in the content.
spec fn content_from_turn(l: AgentThreadLifecycleView) -> Seq<char> {
    ",\"turnId\":"@ + (json_string(l.turn_id) + content_from_state(l))
}

proof fn lemma_content_parts(l: AgentThreadLifecycleView)
    ensures
        content_text(l) == "{\"version\":"@ + (decimal_text(l.version as nat) + content_from_turn(l)),
        content_from_turn(l).len() > 0 && content_from_turn(l)[0] == ',',
        content_tail(l).len() > 0 && !is_digit(content_tail(l)[0]),
{
    reveal_strlit(",\"turnId\":");
    reveal_strlit(",\"expiresAt\":");
    reveal_strlit("}");
    let upto_version = "{\"version\":"@ + decimal_text(l.version as nat);
    let upto_turn = upto_version + ",\"turnId\":"@ + json_string(l.turn_id);
    let upto_state = upto_turn + ",\"state\":"@ + json_string(l.state.text());
    let upto_phase = upto_state + ",\"phase\":"@ + json_string(l.phase);
    let upto_revision = upto_phase + ",\"revision\":"@ + decimal_text(l.revision as nat);
    assert(upto_revision + expiry_text(l.expires_at) + "}"@ =~= upto_revision + content_tail(l));
    lemma_regroup(upto_phase, ",\"revision\":"@, decimal_text(l.revision as nat), content_tail(l));
    lemma_regroup(upto_state, ",\"phase\":"@, json_string(l.phase), content_from_revision(l));
    lemma_regroup(upto_turn, ",\"state\":"@, json_string(l.state.text()), content_from_phase(l));
    lemma_regroup(upto_version, ",\"turnId\":"@, json_string(l.turn_id), content_from_state(l));
    assert(upto_version + content_from_turn(l) =~= "{\"version\":"@ + (decimal_text(
        l.version as nat,
    ) + content_from_turn(l)));
}

proof fn lemma_tail_injective(a: AgentThreadLifecycleView, b: AgentThreadLifecycleView)
    requires
        content_tail(a) == content_tail(b),
    ensures
        a.expires_at == b.expires_at,
{
    reveal_strlit(",\"expiresAt\":");
    reveal_strlit("}");
    lemma_content_parts(a);
    lemma_content_parts(b);
    let key = ",\"expiresAt\":"@;
    match (a.expires_at, b.expires_at) {
        (Some(x), Some(y)) => {
            let m = decimal_text(x as nat) + "}"@;
            let n = decimal_text(y as nat) + "}"@;
            assert(content_tail(a) =~= key + m);
            assert(content_tail(b) =~= key + n);
            lemma_same_prefix(key, m, n);
            law_decimal_prefix(x as nat, "}"@, y as nat, "}"@);
        },
        (Some(x), None) => {
            assert(content_tail(a)[0] == ',');
            assert(content_tail(b)[0] == '}');
        },
        (None, Some(y)) => {
            assert(content_tail(a)[0] == '}');
            assert(content_tail(b)[0] == ',');
        },
        (None, None) => {},
    }
}

/// The content of an event determines the snapshot that was written.
pub proof fn law_content_determines_lifecycle(
    a: AgentThreadLifecycleView,
    b: AgentThreadLifecycleView,
)
    requires
        content_text(a) == content_text(b),
    ensures
        a == b,
{
    lemma_content_parts(a);
    lemma_content_parts(b);
    lemma_same_prefix(
        "{\"version\":"@,
        decimal_text(a.version as nat) + content_from_turn(a),
        decimal_text(b.version as nat) + content_from_turn(b),
    );
    law_decimal_prefix(
        a.version as nat,
        content_from_turn(a),
        b.version as nat,
        content_from_turn(b),
    );
    lemma_same_prefix(
        ",\"turnId\":"@,
        json_string(a.turn_id) + content_from_state(a),
        json_string(b.turn_id) + content_from_state(b),
    );
    law_json_string_prefix(a.turn_id, content_from_state(a), b.turn_id, content_from_state(b));
    lemma_same_prefix(
        ",\"state\":"@,
        json_string(a.state.text()) + content_from_phase(a),
        json_string(b.state.text()) + content_from_phase(b),
    );
    law_json_string_prefix(
        a.state.text(),
        content_from_phase(a),
        b.state.text(),
        content_from_phase(b),
    );
    law_state_text_injective(a.state, b.state);
    lemma_same_prefix(
        ",\"phase\":"@,
        json_string(a.phase) + content_from_revision(a),
        json_string(b.phase) + content_from_revision(b),
    );
    law_json_string_prefix(a.phase, content_from_revision(a), b.phase, content_from_revision(b));
    lemma_same_prefix(
        ",\"revision\":"@,
        decimal_text(a.revision as nat) + content_tail(a),
        decimal_text(b.revision as nat) + content_tail(b),
    );
    law_decimal_prefix(
        a.revision as nat,
        content_tail(a),
        b.revision as nat,
        content_tail(b),
    );
    lemma_tail_injective(a, b);
}

/// Whether `tag` can stand beside the tags of a lifecycle event without being
/// taken for one of them.
pub open spec fn is_neutral_tag(tag: Seq<Seq<char>>) -> bool {
    named_tag_value(tag, "h"@) is None && root_tag_value(tag) is None
}

/// A NIP-OA `auth` tag is neutral, and mentions nobody.
pub proof fn law_auth_tag_is_neutral(tag: Seq<Seq<char>>, pubkey: Seq<u8>)
    requires
        tag.len() > 0,
        tag[0] == "auth"@,
    ensures
        is_neutral_tag(tag),
        !mentions(tag, pubkey),
{
    reveal_strlit("auth");
    reveal_strlit("h");
    reveal_strlit("e");
    reveal_strlit("p");
    assert("auth"@.len() == 4);
    assert("h"@.len() == 1 && "e"@.len() == 1 && "p"@.len() == 1);
}

/// Neutral tags, as far as they are kept, change nothing of the coordinates.
proof fn lemma_neutral_tags(
    tags: Seq<Seq<Seq<char>>>,
    extra: Seq<Seq<Seq<char>>>,
    pubkey: Seq<u8>,
)
    requires
        forall|i: int| 0 <= i < extra.len() ==> is_neutral_tag(#[trigger] extra[i]),
    ensures
        named_tag_values(kept_tags(tags + extra, pubkey), "h"@) == named_tag_values(
            kept_tags(tags, pubkey),
            "h"@,
        ),
        root_tag_values(kept_tags(tags + extra, pubkey)) == root_tag_values(
            kept_tags(tags, pubkey),
        ),
    decreases extra.len(),
{
    reveal(Seq::filter);
    if extra.len() == 0 {
        assert(tags + extra =~= tags);
    } else {
        let rest = extra.drop_last();
        assert forall|i: int| 0 <= i < rest.len() implies is_neutral_tag(#[trigger] rest[i]) by {
            assert(rest[i] == extra[i]);
        }
        lemma_neutral_tags(tags, rest, pubkey);
        let tag = extra.last();
        assert(is_neutral_tag(extra[extra.len() - 1]));
        assert((tags + extra).drop_last() =~= tags + rest);
        let before = kept_tags(tags + rest, pubkey);
        let after = kept_tags(tags + extra, pubkey);
        if !mentions(tag, pubkey) {
            assert(after == before.push(tag));
            assert(after.drop_last() =~= before);
        } else {
            assert(after == before);
        }
    }
}

proof fn lemma_lifecycle_tags(channel_id: Seq<u8>, root_event_id: Seq<u8>, pubkey: Seq<u8>)
    ensures
        kept_tags(lifecycle_tags(channel_id, root_event_id), pubkey) == lifecycle_tags(
            channel_id,
            root_event_id,
        ),
        named_tag_values(lifecycle_tags(channel_id, root_event_id), "h"@) == seq![
            uuid_text(channel_id),
        ],
        root_tag_values(lifecycle_tags(channel_id, root_event_id)) == seq![
            encode_hex(root_event_id),
        ],
{
    reveal_strlit("h");
    reveal_strlit("e");
    reveal_strlit("p");
    assert("h"@[0] == 'h' && "e"@[0] == 'e' && "p"@[0] == 'p');
    let tags = lifecycle_tags(channel_id, root_event_id);
    assert forall|i: int| 0 <= i < tags.len() implies !mentions(#[trigger] tags[i], pubkey) by {
        assert(i == 0 || i == 1);
    }
    law_unmentioned_author_keeps_tags(tags, pubkey);
    let named = |tag: Seq<Seq<char>>| named_tag_value(tag, "h"@);
    let rooted = |tag: Seq<Seq<char>>| root_tag_value(tag);
    assert(tags.take(0).filter_map(named) =~= Seq::<Seq<char>>::empty());
    assert(tags.take(0).filter_map(rooted) =~= Seq::<Seq<char>>::empty());
    tags.lemma_filter_map_take_succ(named, 0);
    tags.lemma_filter_map_take_succ(named, 1);
    tags.lemma_filter_map_take_succ(rooted, 0);
    tags.lemma_filter_map_take_succ(rooted, 1);
    assert(tags.take(2) =~= tags);
}

/// A signed lifecycle event parses back to the channel, the thread root and the
/// snapshot that it was built from, whatever neutral tags it carries besides.
pub proof fn law_lifecycle_round_trip(
    channel_id: ChannelId,
    root_event_id: EventId,
    lifecycle: AgentThreadLifecycleView,
    extra: Seq<Seq<Seq<char>>>,
    secret_key: Seq<u8>,
    event: Event,
    decoded: AgentThreadLifecycleView,
)
    requires
        lifecycle_fault(lifecycle) is None,
        forall|i: int| 0 <= i < extra.len() ==> is_neutral_tag(#[trigger] extra[i]),
        is_signed(
            (EventDraftView {
                kind: KIND_AGENT_THREAD_LIFECYCLE,
                tags: lifecycle_tags(channel_id@, root_event_id@) + extra,
                content: content_text(lifecycle),
            }),
            secret_key,
            event,
        ),
        content_text(decoded) == event.content@,
    ensures
        parse_result(event.kind, event.tags.deep_view(), Ok(decoded)) == Ok::<
            ParsedAgentThreadLifecycleView,
            AgentThreadLifecycleErrorView,
        >(
            (ParsedAgentThreadLifecycleView {
                channel_id: channel_id@,
                root_event_id: root_event_id@,
                lifecycle,
            }),
        ),
{
    law_content_determines_lifecycle(decoded, lifecycle);
    lemma_neutral_tags(lifecycle_tags(channel_id@, root_event_id@), extra, event.pubkey@);
    lemma_lifecycle_tags(channel_id@, root_event_id@, event.pubkey@);
    law_channel_id_round_trip(channel_id);
    law_event_id_round_trip(root_event_id);
}

/// A draft of a lifecycle event can be signed with every secret key.
pub proof fn law_lifecycle_draft_can_be_signed(
    channel_id: Seq<u8>,
    root_event_id: Seq<u8>,
    lifecycle: AgentThreadLifecycleView,
    secret_key: Seq<u8>,
)
    requires
        public_key_of(secret_key) is Some,
    ensures
        can_sign(lifecycle_draft(channel_id, root_event_id, lifecycle), secret_key),
{
    let tags = lifecycle_tags(channel_id, root_event_id);
    assert forall|i: int| 0 <= i < tags.len() implies (#[trigger] tags[i]).len() > 0 by {
        assert(i == 0 || i == 1);
    }
}

/// What parses is of the lifecycle kind, has exactly one channel tag and one root
/// tag, is of version 1, and carries an expiry if and only if an agent owns the
/// next action.
pub proof fn law_parsed_lifecycle_is_valid(
    kind: u16,
    tags: Seq<Seq<Seq<char>>>,
    decoded: Result<AgentThreadLifecycleView, Seq<char>>,
    parsed: ParsedAgentThreadLifecycleView,
)
    requires
        parse_result(kind, tags, decoded) == Ok::<
            ParsedAgentThreadLifecycleView,
            AgentThreadLifecycleErrorView,
        >(parsed),
    ensures
        kind == KIND_AGENT_THREAD_LIFECYCLE,
        named_tag_values(tags, "h"@).len() == 1,
        root_tag_values(tags).len() == 1,
        lifecycle_fault(parsed.lifecycle) is None,
        parsed.lifecycle.version == 1,
        parsed.lifecycle.expires_at is Some <==> parsed.lifecycle.state == AgentThreadState::Agent,
{
}

/// A phase is diagnostic: any other of 1 to 64 bytes leaves a snapshot valid.
pub proof fn law_unknown_phase_is_tolerated(l: AgentThreadLifecycleView, phase: Seq<char>)
    requires
        lifecycle_fault(l) is None,
        phase.len() > 0,
        byte_len(phase) <= 64,
    ensures
        lifecycle_fault(AgentThreadLifecycleView { phase, ..l }) is None,
{
}

/// A snapshot is valid if and only if it is of version 1, its turn has 1 to 128
/// bytes and its phase 1 to 64, and it has an expiry just if it is an agent's.
pub proof fn law_what_is_valid(l: AgentThreadLifecycleView)
    ensures
        lifecycle_fault(l) is None <==> {
            &&& l.version == 1
            &&& 1 <= l.turn_id.len() && byte_len(l.turn_id) <= 128
            &&& 1 <= l.phase.len() && byte_len(l.phase) <= 64
            &&& l.expires_at is Some <==> l.state == AgentThreadState::Agent
        },
{
}

/// Of several faults the version's is told first, then the turn's, then the
/// phase's, and last the expiry's.
pub proof fn law_first_fault_is_told(l: AgentThreadLifecycleView)
    ensures
        l.version != 1 ==> lifecycle_fault(l) == Some(
            "unsupported version "@ + decimal_text(l.version as nat),
        ),
        l.version == 1 ==> {
            let bad_turn = l.turn_id.len() == 0 || byte_len(l.turn_id) > 128;
            let bad_phase = l.phase.len() == 0 || byte_len(l.phase) > 64;
            &&& bad_turn ==> lifecycle_fault(l) == Some("turnId must contain 1..=128 bytes"@)
            &&& !bad_turn && bad_phase ==> lifecycle_fault(l) == Some(
                "phase must contain 1..=64 bytes"@,
            )
            &&& !bad_turn && !bad_phase && l.state == AgentThreadState::Agent
                && l.expires_at is None ==> lifecycle_fault(l) == Some(
                "agent state requires expiresAt"@,
            )
            &&& !bad_turn && !bad_phase && l.state != AgentThreadState::Agent
                && l.expires_at is Some ==> lifecycle_fault(l) == Some(
                "terminal state must not carry expiresAt"@,
            )
        },
{
}

/// Each error says its sort and what it was given.
pub proof fn law_error_messages(m: Seq<char>)
    ensures
        AgentThreadLifecycleErrorView::WrongKind.message()
            == "event is not an agent thread lifecycle event"@,
        AgentThreadLifecycleErrorView::InvalidTags(m).message() == "invalid lifecycle tags: "@ + m,
        AgentThreadLifecycleErrorView::InvalidContent(m).message()
            == "invalid lifecycle content: "@ + m,
        AgentThreadLifecycleErrorView::Build(m).message() == "could not build lifecycle event: "@
            + m,
{
}

/// The member `key` of a JSON object, with a value that is already written.
pub open spec fn json_member(key: Seq<char>, value: Seq<char>) -> Seq<char> {
    seq!['"'] + key + seq!['"', ':'] + value
}

/// The content of a snapshot is the JSON object of its version, turn, state,
/// phase and revision, and of its expiry where it has one.
pub proof fn law_content_is_the_object_of_its_members(l: AgentThreadLifecycleView)
    ensures
        ({
            let members = seq![
                json_member("version"@, decimal_text(l.version as nat)),
                json_member("turnId"@, json_string(l.turn_id)),
                json_member(
                    "state"@,
                    json_string(
                        match l.state {
                            AgentThreadState::Agent => "agent"@,
                            AgentThreadState::Human => "human"@,
                            AgentThreadState::Failed => "failed"@,
                        },
                    ),
                ),
                json_member("phase"@, json_string(l.phase)),
                json_member("revision"@, decimal_text(l.revision as nat)),
            ];
            let expiry = match l.expires_at {
                Some(at) => seq![json_member("expiresAt"@, decimal_text(at as nat))],
                None => seq![],
            };
            content_text(l) == seq!['{'] + comma_separated(members + expiry) + seq!['}']
        }),
{
    reveal_strlit("{\"version\":");
    reveal_strlit(",\"turnId\":");
    reveal_strlit(",\"state\":");
    reveal_strlit(",\"phase\":");
    reveal_strlit(",\"revision\":");
    reveal_strlit(",\"expiresAt\":");
    reveal_strlit("}");
    reveal_strlit(",");
    reveal_strlit("version");
    reveal_strlit("turnId");
    reveal_strlit("state");
    reveal_strlit("phase");
    reveal_strlit("revision");
    reveal_strlit("expiresAt");
    let version = decimal_text(l.version as nat);
    let turn = json_string(l.turn_id);
    let state = json_string(l.state.text());
    let phase = json_string(l.phase);
    let revision = decimal_text(l.revision as nat);
    let m1 = seq![json_member("version"@, version)];
    let m2 = m1.push(json_member("turnId"@, turn));
    let m3 = m2.push(json_member("state"@, state));
    let m4 = m3.push(json_member("phase"@, phase));
    let m5 = m4.push(json_member("revision"@, revision));
    lemma_comma_separated_append(m1, m2.last());
    lemma_comma_separated_append(m2, m3.last());
    lemma_comma_separated_append(m3, m4.last());
    lemma_comma_separated_append(m4, m5.last());
    lemma_member(seq![], "{\"version\":"@, "version"@, version, '{');
    let t1 = "{\"version\":"@ + version;
    let t2 = t1 + ",\"turnId\":"@ + turn;
    let t3 = t2 + ",\"state\":"@ + state;
    let t4 = t3 + ",\"phase\":"@ + phase;
    let t5 = t4 + ",\"revision\":"@ + revision;
    let open = seq!['{'];
    assert(t1 =~= open + comma_separated(m1));
    lemma_member(t1, ",\"turnId\":"@, "turnId"@, turn, ',');
    lemma_member(t2, ",\"state\":"@, "state"@, state, ',');
    lemma_member(t3, ",\"phase\":"@, "phase"@, phase, ',');
    lemma_member(t4, ",\"revision\":"@, "revision"@, revision, ',');
    assert(","@ =~= seq![',']);
    lemma_member_joined(open, comma_separated(m1), m2.last());
    lemma_member_joined(open, comma_separated(m2), m3.last());
    lemma_member_joined(open, comma_separated(m3), m4.last());
    lemma_member_joined(open, comma_separated(m4), m5.last());
    assert(t5 == open + comma_separated(m5));
    let members = seq![m1.last(), m2.last(), m3.last(), m4.last(), m5.last()];
    assert(members =~= m5);
    assert("}"@ =~= seq!['}']);
    match l.expires_at {
        Some(at) => {
            let text = decimal_text(at as nat);
            let m6 = m5.push(json_member("expiresAt"@, text));
            lemma_comma_separated_append(m5, m6.last());
            lemma_member(t5, ",\"expiresAt\":"@, "expiresAt"@, text, ',');
            lemma_member_joined(open, comma_separated(m5), m6.last());
            assert(members + seq![m6.last()] =~= m6);
            assert(t5 + expiry_text(l.expires_at) =~= t5 + ",\"expiresAt\":"@ + text);
        },
        None => {
            assert(members + seq![] =~= m5);
            assert(t5 + expiry_text(l.expires_at) =~= t5);
        },
    }
}

proof fn lemma_member(
    front: Seq<char>,
    literal: Seq<char>,
    key: Seq<char>,
    value: Seq<char>,
    before: char,
)
    requires
        literal =~= seq![before] + (seq!['"'] + key + seq!['"', ':']),
    ensures
        front + literal + value == front + seq![before] + json_member(key, value),
{
    assert(front + literal + value =~= front + seq![before] + json_member(key, value));
}

proof fn lemma_member_joined(open: Seq<char>, joined: Seq<char>, member: Seq<char>)
    ensures
        open + joined + seq![','] + member == open + (joined + seq![','] + member),
{
    assert(open + joined + seq![','] + member =~= open + (joined + seq![','] + member));
}

/// A draft of a lifecycle event is of the lifecycle kind, has a channel tag and
/// then a root tag and no other, and the snapshot for content.
pub proof fn law_draft_names_channel_and_root(
    channel_id: Seq<u8>,
    root_event_id: Seq<u8>,
    l: AgentThreadLifecycleView,
)
    ensures
        ({
            let draft = lifecycle_draft(channel_id, root_event_id, l);
            &&& draft.kind == 24201
            &&& draft.tags.len() == 2
            &&& draft.tags[0] == seq!["h"@, uuid_text(channel_id)]
            &&& draft.tags[1] == seq!["e"@, encode_hex(root_event_id), ""@, "root"@]
            &&& draft.content == content_text(l)
        }),
{
}

proof fn lemma_picked_values(
    tags: Seq<Seq<Seq<char>>>,
    pick: spec_fn(Seq<Seq<char>>) -> Option<Seq<char>>,
)
    ensures
        tags.filter_map(pick).len() == 0 <==> forall|i: int|
            0 <= i < tags.len() ==> pick(#[trigger] tags[i]) is None,
        forall|i: int|
            0 <= i < tags.len() && pick(#[trigger] tags[i]) is Some && (forall|j: int|
                0 <= j < tags.len() && j != i ==> pick(#[trigger] tags[j]) is None)
                ==> tags.filter_map(pick) == seq![pick(tags[i])->0],
        forall|i: int, j: int|
            0 <= i < j < tags.len() && pick(#[trigger] tags[i]) is Some && pick(
                #[trigger] tags[j],
            ) is Some ==> tags.filter_map(pick).len() > 1,
    decreases tags.len(),
{
    if tags.len() > 0 {
        let front = tags.drop_last();
        lemma_picked_values(front, pick);
        assert(forall|i: int| 0 <= i < front.len() ==> #[trigger] front[i] == tags[i]);
        let values = tags.filter_map(pick);
        let last = tags.len() - 1;
        assert(values == match pick(tags[last]) {
            Some(value) => front.filter_map(pick) + seq![value],
            None => front.filter_map(pick),
        });
        assert forall|i: int|
            0 <= i < tags.len() && pick(#[trigger] tags[i]) is Some && (forall|j: int|
                0 <= j < tags.len() && j != i ==> pick(#[trigger] tags[j]) is None) implies values
            == seq![pick(tags[i])->0] by {
            if i < last {
                assert(pick(tags[last]) is None);
                assert(pick(front[i]) is Some);
            } else {
                assert forall|k: int| 0 <= k < front.len() implies pick(
                    #[trigger] front[k],
                ) is None by {
                    assert(pick(tags[k]) is None);
                }
                assert(front.filter_map(pick) =~= seq![]);
                assert(values =~= seq![pick(tags[i])->0]);
            }
        }
        assert forall|i: int, j: int|
            0 <= i < j < tags.len() && pick(#[trigger] tags[i]) is Some && pick(
                #[trigger] tags[j],
            ) is Some implies values.len() > 1 by {
            assert(pick(front[i]) is Some);
            if j < last {
                assert(pick(front[j]) is Some);
            }
        }
        if values.len() == 0 {
            assert forall|i: int| 0 <= i < tags.len() implies pick(#[trigger] tags[i]) is None by {
                if i < last {
                    assert(pick(front[i]) is None);
                }
            }
        }
        if forall|i: int| 0 <= i < tags.len() ==> pick(#[trigger] tags[i]) is None {
            assert(pick(tags[last]) is None);
            assert forall|k: int| 0 <= k < front.len() implies pick(#[trigger] front[k]) is None by {
                assert(pick(tags[k]) is None);
            }
        }
    }
}

/// The value of the tag that is called `name` is found if there is exactly one;
/// with none it is missing, and with two it is a duplicate.
pub proof fn law_named_tag_is_unique(
    tags: Seq<Seq<Seq<char>>>,
    name: Seq<char>,
    i: int,
    j: int,
)
    ensures
        ({
            let found = sole_value(named_tag_values(tags, name), name);
            &&& (forall|k: int|
                0 <= k < tags.len() ==> !((#[trigger] tags[k]).len() > 1 && tags[k][0] == name))
                ==> found == Err::<Seq<char>, AgentThreadLifecycleErrorView>(
                AgentThreadLifecycleErrorView::InvalidTags("missing "@ + name + " tag"@),
            )
            &&& 0 <= i < tags.len() && tags[i].len() > 1 && tags[i][0] == name && (forall|k: int|
                0 <= k < tags.len() && k != i ==> !((#[trigger] tags[k]).len() > 1 && tags[k][0]
                    == name)) ==> found == Ok::<Seq<char>, AgentThreadLifecycleErrorView>(
                tags[i][1],
            )
            &&& 0 <= i < j < tags.len() && tags[i].len() > 1 && tags[i][0] == name && tags[j].len()
                > 1 && tags[j][0] == name ==> found == Err::<
                Seq<char>,
                AgentThreadLifecycleErrorView,
            >(AgentThreadLifecycleErrorView::InvalidTags("duplicate "@ + name + " tag"@))
        }),
{
    let pick = |tag: Seq<Seq<char>>| named_tag_value(tag, name);
    lemma_picked_values(tags, pick);
    if forall|k: int|
        0 <= k < tags.len() ==> !((#[trigger] tags[k]).len() > 1 && tags[k][0] == name) {
        assert(forall|k: int| 0 <= k < tags.len() ==> pick(#[trigger] tags[k]) is None);
    }
    if 0 <= i < tags.len() && tags[i].len() > 1 && tags[i][0] == name {
        assert(pick(tags[i]) == Some(tags[i][1]));
        if forall|k: int|
            0 <= k < tags.len() && k != i ==> !((#[trigger] tags[k]).len() > 1 && tags[k][0]
                == name) {
            assert(forall|k: int|
                0 <= k < tags.len() && k != i ==> pick(#[trigger] tags[k]) is None);
        }
        if i < j < tags.len() && tags[j].len() > 1 && tags[j][0] == name {
            assert(pick(tags[j]) is Some);
        }
    }
}

/// The root of the thread is found if exactly one `e` tag has the marker `root`;
/// with none it is missing, and with two it is a duplicate.
pub proof fn law_root_tag_is_unique(tags: Seq<Seq<Seq<char>>>, i: int, j: int)
    ensures
        ({
            let found = sole_value(root_tag_values(tags), "e root"@);
            &&& (forall|k: int|
                0 <= k < tags.len() ==> !((#[trigger] tags[k]).len() > 3 && tags[k][0] == "e"@
                    && tags[k][3] == "root"@)) ==> found == Err::<
                Seq<char>,
                AgentThreadLifecycleErrorView,
            >(
                AgentThreadLifecycleErrorView::InvalidTags("missing "@ + "e root"@ + " tag"@),
            )
            &&& 0 <= i < tags.len() && tags[i].len() > 3 && tags[i][0] == "e"@ && tags[i][3]
                == "root"@ && (forall|k: int|
                0 <= k < tags.len() && k != i ==> !((#[trigger] tags[k]).len() > 3 && tags[k][0]
                    == "e"@ && tags[k][3] == "root"@)) ==> found == Ok::<
                Seq<char>,
                AgentThreadLifecycleErrorView,
            >(tags[i][1])
            &&& 0 <= i < j < tags.len() && tags[i].len() > 3 && tags[i][0] == "e"@ && tags[i][3]
                == "root"@ && tags[j].len() > 3 && tags[j][0] == "e"@ && tags[j][3] == "root"@
                ==> found == Err::<Seq<char>, AgentThreadLifecycleErrorView>(
                AgentThreadLifecycleErrorView::InvalidTags("duplicate "@ + "e root"@ + " tag"@),
            )
        }),
{
    let pick = |tag: Seq<Seq<char>>| root_tag_value(tag);
    lemma_picked_values(tags, pick);
    if forall|k: int|
        0 <= k < tags.len() ==> !((#[trigger] tags[k]).len() > 3 && tags[k][0] == "e"@ && tags[k][3]
            == "root"@) {
        assert(forall|k: int| 0 <= k < tags.len() ==> pick(#[trigger] tags[k]) is None);
    }
    if 0 <= i < tags.len() && tags[i].len() > 3 && tags[i][0] == "e"@ && tags[i][3] == "root"@ {
        assert(pick(tags[i]) == Some(tags[i][1]));
        if forall|k: int|
            0 <= k < tags.len() && k != i ==> !((#[trigger] tags[k]).len() > 3 && tags[k][0]
                == "e"@ && tags[k][3] == "root"@) {
            assert(forall|k: int|
                0 <= k < tags.len() && k != i ==> pick(#[trigger] tags[k]) is None);
        }
        if i < j < tags.len() && tags[j].len() > 3 && tags[j][0] == "e"@ && tags[j][3]
            == "root"@ {
            assert(pick(tags[j]) is Some);
        }
    }
}

/// An event parses to what its one channel tag, its one root tag and its content
/// say, and of several faults the kind's is told first, then the channel tag's,
/// then the root tag's, and last the content's.
pub proof fn law_parse_tells_the_first_fault(
    kind: u16,
    tags: Seq<Seq<Seq<char>>>,
    decoded: Result<AgentThreadLifecycleView, Seq<char>>,
)
    ensures
        ({
            let parsed = parse_result(kind, tags, decoded);
            let channel = sole_value(named_tag_values(tags, "h"@), "h"@);
            let root = sole_value(root_tag_values(tags), "e root"@);
            let channel_id = uuid_of(channel->Ok_0);
            let root_id = event_id_of(root->Ok_0);
            if kind != 24201 {
                parsed->Err_0 == AgentThreadLifecycleErrorView::WrongKind && parsed is Err
            } else if channel is Err {
                parsed is Err && parsed->Err_0 == channel->Err_0
            } else if channel_id is None {
                parsed is Err && parsed->Err_0 == AgentThreadLifecycleErrorView::InvalidTags(
                    uuid_error_text(channel->Ok_0),
                )
            } else if root is Err {
                parsed is Err && parsed->Err_0 == root->Err_0
            } else if root_id is None {
                parsed is Err && parsed->Err_0 == AgentThreadLifecycleErrorView::InvalidTags(
                    event_id_error_text(root->Ok_0),
                )
            } else if decoded is Err {
                parsed is Err && parsed->Err_0 == AgentThreadLifecycleErrorView::InvalidContent(
                    decoded->Err_0,
                )
            } else if lifecycle_fault(decoded->Ok_0) is Some {
                parsed is Err && parsed->Err_0 == AgentThreadLifecycleErrorView::InvalidContent(
                    lifecycle_fault(decoded->Ok_0)->0,
                )
            } else {
                &&& parsed is Ok
                &&& parsed->Ok_0.channel_id == channel_id->0
                &&& parsed->Ok_0.root_event_id == root_id->0
                &&& parsed->Ok_0.lifecycle == decoded->Ok_0
            }
        }),
{
}

/// Errors that read the same are the same error, and say the same.
pub proof fn law_lifecycle_errors_are_told_apart(
    a: AgentThreadLifecycleError,
    b: AgentThreadLifecycleError,
)
    requires
        a@ == b@,
    ensures
        a is WrongKind <==> b is WrongKind,
        a matches AgentThreadLifecycleError::InvalidTags(m) ==> b is InvalidTags
            && b->InvalidTags_0@ == m@,
        a matches AgentThreadLifecycleError::InvalidContent(m) ==> b is InvalidContent
            && b->InvalidContent_0@ == m@,
        a matches AgentThreadLifecycleError::Build(m) ==> b is Build && b->Build_0@ == m@,
{
}

} // verus!
