//! A NIP-42-capable connection to a Nostr relay, as a state machine.
//!
//! The machine owns the relay messages that nobody has asked for yet. Whoever
//! owns the socket reads one frame at a time, hands it to the step of the
//! operation that is under way, and does what the step says.

use crate::clock::clamped;
use crate::clock::clock_shows;
use crate::clock::is_reading;
use crate::clock::unix_nanos;
use crate::clock::Span;
use crate::event::can_sign;
use crate::event::is_signed;
use crate::event::law_signed_event_is_genuine;
use crate::event::no_empty_tag;
use crate::event::Event;
use crate::relay::auth_draft;
use crate::relay::build_auth_event;
use crate::relay::client_message;
use crate::relay::tag_view;
use crate::relay::write_client_message;
use crate::relay::OkResponse;
use crate::relay::RelayMessage;
use crate::relay::WsClientError;
use crate::relay::WsClientErrorView;
use crate::text::byte_len;
use crate::text::encode_hex;
use crate::text::same_bytes;
use crate::text::same_text;
use std::collections::VecDeque;
use vstd::arithmetic::power::pow;
use vstd::prelude::*;

verus! {

/// Seconds to wait for the relay to send the NIP-42 AUTH challenge after connecting.
pub const AUTH_CHALLENGE_TIMEOUT_SECS: u64 = 20;

/// Seconds to wait for the relay's OK response to the AUTH event.
pub const AUTH_OK_TIMEOUT_SECS: u64 = 20;

/// Seconds to wait for the relay's OK response to a published event.
pub const PUBLISH_OK_TIMEOUT_SECS: u64 = 30;

/// The longest challenge, in bytes, that is answered off the wire.
pub const MAX_CHALLENGE_BYTES: usize = 1024;

/// A WebSocket frame.
#[derive(Debug, PartialEq, Eq)]
pub enum Frame {
    /// A text frame, and what it reads as.
    Text(Result<RelayMessage, WsClientError>),
    Ping(Vec<u8>),
    Pong(Vec<u8>),
    Close,
    /// Any other frame.
    Other,
}

/// How waiting for a frame ended.
#[derive(Debug, PartialEq, Eq)]
pub enum Inbound {
    /// The time was up.
    TimedOut,
    /// The stream has ended.
    Ended,
    /// The socket failed, with this message.
    Failed(String),
    Received(Frame),
}

/// What a wait goes through: its beginning, and then one event after the other.
#[derive(Debug, PartialEq, Eq)]
pub enum WaitEvent {
    /// Nothing has been read yet.
    Begin,
    Then(Inbound),
}

/// What is to be done after a frame.
#[derive(Debug, PartialEq, Eq)]
pub enum Step<T> {
    /// The operation is over.
    Done(Result<T, WsClientError>),
    /// Send a pong with this payload, then wait on.
    SendPong(Vec<u8>),
    /// Wait on.
    Wait,
}

/// What a [`Step`] holds.
pub enum StepView<T> {
    Done(Result<T, WsClientErrorView>),
    SendPong(Seq<u8>),
    Wait,
}

impl<T> View for Step<T> {
    type V = StepView<T>;

    open spec fn view(&self) -> StepView<T> {
        match self {
            Step::Done(Ok(value)) => StepView::Done(Ok(*value)),
            Step::Done(Err(error)) => StepView::Done(Err(error@)),
            Step::SendPong(payload) => StepView::SendPong(payload@),
            Step::Wait => StepView::Wait,
        }
    }
}

/// A connection to a relay, but for its socket.
#[derive(Debug, PartialEq, Eq)]
pub struct NostrWsConnection {
    buffer: VecDeque<RelayMessage>,
    pending_challenge: Option<String>,
    relay_url: String,
}

/// What a [`NostrWsConnection`] holds.
#[verifier::ext_equal]
pub struct ConnectionView {
    /// Messages that nobody has asked for yet, the oldest first.
    pub buffer: Seq<RelayMessage>,
    /// The last challenge that came while something else was awaited.
    pub pending_challenge: Option<String>,
    /// The address that the connection was asked for.
    pub relay_url: Seq<char>,
}

impl View for NostrWsConnection {
    type V = ConnectionView;

    closed spec fn view(&self) -> ConnectionView {
        ConnectionView {
            buffer: self.buffer@,
            pending_challenge: self.pending_challenge,
            relay_url: self.relay_url@,
        }
    }
}

/// A message to send, and the event whose answer is then awaited.
#[derive(Debug, Clone, PartialEq, Eq)]
pub struct Outgoing {
    /// The event's id in hexadecimal.
    pub event_id: String,
    /// The text frame to send.
    pub text: String,
}

/// What `url::Url::parse` makes of a text: the URL as it writes it, or its
/// message.
pub uninterp spec fn parsed_url(s: Seq<char>) -> Result<Seq<char>, Seq<char>>;

/// Reads a URL by `url::Url::parse` and writes it by `url::Url::as_str`; what
/// comes out depends on the text alone.
#[verifier::external_body]
fn read_url(s: &str) -> (r: Result<String, String>)
    ensures
        r is Ok <==> parsed_url(s@) is Ok,
        r is Ok ==> parsed_url(s@) == Ok::<Seq<char>, Seq<char>>(r->Ok_0@),
        r is Err ==> parsed_url(s@) == Err::<Seq<char>, Seq<char>>(r->Err_0@),
{
    s.parse::<url::Url>().map(|url| url.as_str().to_owned()).map_err(|error| error.to_string())
}

/// The number of messages in front of the first that `wanted` holds of; all of
/// them if it holds of none.
pub open spec fn first_index(s: Seq<RelayMessage>, wanted: spec_fn(RelayMessage) -> bool) -> nat
    decreases s.len(),
{
    if s.len() == 0 || wanted(s[0]) {
        0
    } else {
        1 + first_index(s.drop_first(), wanted)
    }
}

/// Whether `message` is the answer to the event `event_id`.
pub open spec fn answers(message: RelayMessage, event_id: Seq<char>) -> bool {
    message matches RelayMessage::OkReply(ok) && ok.event_id@ == event_id
}

/// The connection once `message` has come off the wire: a challenge is noted.
pub open spec fn noted(conn: ConnectionView, message: RelayMessage) -> ConnectionView {
    match message {
        RelayMessage::Auth { challenge } => ConnectionView {
            pending_challenge: Some(challenge),
            ..conn
        },
        _ => conn,
    }
}

/// The connection once `message` has come off the wire and is kept for later.
pub open spec fn kept(conn: ConnectionView, message: RelayMessage) -> ConnectionView {
    ConnectionView { buffer: conn.buffer.push(message), ..noted(conn, message) }
}

/// The challenge that came before it was asked for, and the connection without
/// it: the one noted last, else the first that was kept.
pub open spec fn kept_challenge(conn: ConnectionView) -> Option<(String, ConnectionView)> {
    let i = first_index(conn.buffer, |m: RelayMessage| m is Auth);
    if let Some(challenge) = conn.pending_challenge {
        Some((challenge, ConnectionView { pending_challenge: None, ..conn }))
    } else if i < conn.buffer.len() {
        Some(
            (
                conn.buffer[i as int]->challenge,
                ConnectionView { buffer: conn.buffer.remove(i as int), ..conn },
            ),
        )
    } else {
        None
    }
}

/// The answer to the event `event_id` that came before it was asked for, and the
/// connection without it: the first that was kept.
pub open spec fn kept_ok(conn: ConnectionView, event_id: Seq<char>) -> Option<
    (OkResponse, ConnectionView),
> {
    let i = first_index(conn.buffer, |m: RelayMessage| answers(m, event_id));
    if i < conn.buffer.len() {
        Some(
            (
                conn.buffer[i as int]->OkReply_0,
                ConnectionView { buffer: conn.buffer.remove(i as int), ..conn },
            ),
        )
    } else {
        None
    }
}

/// The oldest message that was kept, and the connection without it.
pub open spec fn kept_message(conn: ConnectionView) -> Option<(RelayMessage, ConnectionView)> {
    if conn.buffer.len() > 0 {
        Some((conn.buffer[0], taken(conn)))
    } else {
        None
    }
}

/// How a wait begins: with what was kept it is over.
pub open spec fn begin<T>(kept: Option<(T, ConnectionView)>, conn: ConnectionView) -> (
    ConnectionView,
    StepView<T>,
) {
    match kept {
        Some((value, after)) => (after, StepView::Done(Ok(value))),
        None => (conn, StepView::Wait),
    }
}

/// What every operation does about an event other than a relay message:
/// `on_timeout` is its error when the time is up.
pub open spec fn idle_step<T>(inbound: Inbound, on_timeout: WsClientErrorView) -> StepView<T> {
    match inbound {
        Inbound::TimedOut => StepView::Done(Err(on_timeout)),
        Inbound::Ended => StepView::Done(Err(WsClientErrorView::ConnectionClosed)),
        Inbound::Failed(message) => StepView::Done(Err(WsClientErrorView::WebSocket(message@))),
        Inbound::Received(Frame::Text(Err(error))) => StepView::Done(Err(error@)),
        Inbound::Received(Frame::Ping(payload)) => StepView::SendPong(payload@),
        Inbound::Received(Frame::Close) => StepView::Done(
            Err(WsClientErrorView::ConnectionClosed),
        ),
        _ => StepView::Wait,
    }
}

/// The step of waiting for any message: the first one is it.
pub open spec fn recv_step(conn: ConnectionView, inbound: Inbound) -> (
    ConnectionView,
    StepView<RelayMessage>,
) {
    match inbound {
        Inbound::Received(Frame::Text(Ok(message))) => (
            noted(conn, message),
            StepView::Done(Ok(message)),
        ),
        _ => (conn, idle_step(inbound, WsClientErrorView::Timeout)),
    }
}

/// The step of waiting for the pong with `payload`: messages are kept.
pub open spec fn ping_step(conn: ConnectionView, payload: Seq<u8>, inbound: Inbound) -> (
    ConnectionView,
    StepView<()>,
) {
    match inbound {
        Inbound::Received(Frame::Text(Ok(message))) => (kept(conn, message), StepView::Wait),
        Inbound::Received(Frame::Pong(data)) if data@ == payload => (conn, StepView::Done(Ok(()))),
        _ => (conn, idle_step(inbound, WsClientErrorView::Timeout)),
    }
}

/// The step of waiting for a challenge: other messages are kept, and a challenge
/// that is too long is an error.
pub open spec fn challenge_step(conn: ConnectionView, inbound: Inbound) -> (
    ConnectionView,
    StepView<String>,
) {
    match inbound {
        Inbound::Received(Frame::Text(Ok(RelayMessage::Auth { challenge }))) => (
            conn,
            if byte_len(challenge@) > MAX_CHALLENGE_BYTES {
                StepView::Done(
                    Err(WsClientErrorView::AuthFailed("challenge exceeds 1024 bytes"@)),
                )
            } else {
                StepView::Done(Ok(challenge))
            },
        ),
        Inbound::Received(Frame::Text(Ok(message))) => (kept(conn, message), StepView::Wait),
        _ => (conn, idle_step(inbound, WsClientErrorView::NoAuthChallenge)),
    }
}

/// The step of waiting for the answer to the event `event_id`: other messages
/// are kept.
pub open spec fn ok_step(conn: ConnectionView, event_id: Seq<char>, inbound: Inbound) -> (
    ConnectionView,
    StepView<OkResponse>,
) {
    match inbound {
        Inbound::Received(Frame::Text(Ok(RelayMessage::OkReply(ok)))) if ok.event_id@
            == event_id => (conn, StepView::Done(Ok(ok))),
        Inbound::Received(Frame::Text(Ok(message))) => (kept(conn, message), StepView::Wait),
        _ => (conn, idle_step(inbound, WsClientErrorView::Timeout)),
    }
}

/// The wait for a challenge: one that was kept, else one off the wire.
pub open spec fn challenge_wait_step(conn: ConnectionView, event: WaitEvent) -> (
    ConnectionView,
    StepView<String>,
) {
    match event {
        WaitEvent::Begin => begin(kept_challenge(conn), conn),
        WaitEvent::Then(inbound) => challenge_step(conn, inbound),
    }
}

/// The wait for the answer to an event: one that was kept, else one off the wire.
pub open spec fn ok_wait_step(conn: ConnectionView, event_id: Seq<char>, event: WaitEvent) -> (
    ConnectionView,
    StepView<OkResponse>,
) {
    match event {
        WaitEvent::Begin => begin(kept_ok(conn, event_id), conn),
        WaitEvent::Then(inbound) => ok_step(conn, event_id, inbound),
    }
}

/// The wait for the next message: one that was kept, else one off the wire.
pub open spec fn message_wait_step(conn: ConnectionView, event: WaitEvent) -> (
    ConnectionView,
    StepView<RelayMessage>,
) {
    match event {
        WaitEvent::Begin => begin(kept_message(conn), conn),
        WaitEvent::Then(inbound) => recv_step(conn, inbound),
    }
}

/// What every operation does about an event other than a relay message:
/// `on_timeout` is its error when the time is up.
fn idle<T>(inbound: Inbound, on_timeout: WsClientError) -> (r: Step<T>)
    ensures
        r@ == idle_step::<T>(inbound, on_timeout@),
{
    match inbound {
        Inbound::TimedOut => Step::Done(Err(on_timeout)),
        Inbound::Ended => Step::Done(Err(WsClientError::ConnectionClosed)),
        Inbound::Failed(message) => Step::Done(Err(WsClientError::WebSocket(message))),
        Inbound::Received(Frame::Text(Err(error))) => Step::Done(Err(error)),
        Inbound::Received(Frame::Ping(payload)) => Step::SendPong(payload),
        Inbound::Received(Frame::Close) => Step::Done(Err(WsClientError::ConnectionClosed)),
        _ => Step::Wait,
    }
}

proof fn lemma_first_index(
    s: Seq<RelayMessage>,
    wanted: spec_fn(RelayMessage) -> bool,
    i: int,
)
    requires
        0 <= i <= s.len(),
        forall|j: int| 0 <= j < i ==> !wanted(#[trigger] s[j]),
        i < s.len() ==> wanted(s[i]),
    ensures
        first_index(s, wanted) == i,
    decreases s.len(),
{
    if i > 0 {
        assert(!wanted(s[0]));
        let rest = s.drop_first();
        assert forall|j: int| 0 <= j < i - 1 implies !wanted(#[trigger] rest[j]) by {
            assert(rest[j] == s[j + 1]);
        }
        lemma_first_index(rest, wanted, i - 1);
    }
}

impl NostrWsConnection {
    /// The connection to the relay at `url` before anything has come, and the
    /// address to open its socket to.
    pub fn connect(url: &str) -> (r: Result<(NostrWsConnection, String), WsClientError>)
        ensures
            match r {
                Ok((conn, address)) => {
                    &&& parsed_url(url@) == Ok::<Seq<char>, Seq<char>>(address@)
                    &&& conn@ == (ConnectionView {
                        buffer: seq![],
                        pending_challenge: None,
                        relay_url: url@,
                    })
                },
                Err(error) => parsed_url(url@) matches Err(message) && error@
                    == WsClientErrorView::Url(message),
            },
    {
        match read_url(url) {
            Ok(address) => {
                let conn = NostrWsConnection {
                    buffer: VecDeque::new(),
                    pending_challenge: None,
                    relay_url: url.to_owned(),
                };
                assert(conn@ =~= (ConnectionView {
                    buffer: seq![],
                    pending_challenge: None,
                    relay_url: url@,
                }));
                Ok((conn, address))
            },
            Err(message) => Err(WsClientError::Url(message)),
        }
    }

    /// The address that the connection was asked for.
    pub fn relay_url(&self) -> (r: &str)
        ensures
            r@ == self@.relay_url,
    {
        self.relay_url.as_str()
    }

    /// Notes a challenge that came off the wire.
    fn note(&mut self, message: &RelayMessage)
        ensures
            final(self)@ == noted(old(self)@, *message),
    {
        match message {
            RelayMessage::Auth { challenge } => {
                self.pending_challenge = Some(challenge.clone());
            },
            _ => {},
        }
    }

    /// Keeps a message that came off the wire for later.
    fn keep(&mut self, message: RelayMessage)
        ensures
            final(self)@ == kept(old(self)@, message),
    {
        self.note(&message);
        self.buffer.push_back(message);
    }

    /// Takes the oldest message that was kept, if there is one.
    pub fn next_event(&mut self) -> (r: Option<RelayMessage>)
        ensures
            match kept_message(old(self)@) {
                Some((message, after)) => r == Some(message) && final(self)@ == after,
                None => r is None && final(self)@ == old(self)@,
            },
    {
        let message = self.buffer.pop_front();
        assert(old(self)@.buffer.len() > 0 ==> self@.buffer =~= old(self)@.buffer.drop_first());
        message
    }

    /// A step of waiting for the next message.
    pub fn recv_one(&mut self, inbound: Inbound) -> (r: Step<RelayMessage>)
        ensures
            (final(self)@, r@) == recv_step(old(self)@, inbound),
    {
        match inbound {
            Inbound::Received(Frame::Text(Ok(message))) => {
                self.note(&message);
                Step::Done(Ok(message))
            },
            other => idle(other, WsClientError::Timeout),
        }
    }

    /// A step of waiting for the pong with `payload`.
    ///
    /// Relay messages received while waiting are buffered for [`Self::next_event`].
    pub fn await_pong(&mut self, payload: &Vec<u8>, inbound: Inbound) -> (r: Step<()>)
        ensures
            (final(self)@, r@) == ping_step(old(self)@, payload@, inbound),
    {
        match inbound {
            Inbound::Received(Frame::Text(Ok(message))) => {
                self.keep(message);
                Step::Wait
            },
            Inbound::Received(Frame::Pong(data)) => {
                if same_bytes(data.as_slice(), payload.as_slice()) {
                    Step::Done(Ok(()))
                } else {
                    Step::Wait
                }
            },
            other => idle(other, WsClientError::Timeout),
        }
    }

    /// Takes a challenge that came before it was asked for: the one noted last,
    /// else the first that was kept.
    pub fn take_challenge(&mut self) -> (r: Option<String>)
        ensures
            match kept_challenge(old(self)@) {
                Some((challenge, after)) => r == Some(challenge) && final(self)@ == after,
                None => r is None && final(self)@ == old(self)@,
            },
    {
        if self.pending_challenge.is_some() {
            return self.pending_challenge.take();
        }
        let ghost wanted = |m: RelayMessage| m is Auth;
        let mut i: usize = 0;
        while i < self.buffer.len()
            invariant
                i <= self.buffer@.len(),
                *self == *old(self),
                wanted == |m: RelayMessage| m is Auth,
                self.pending_challenge is None,
                forall|j: int| 0 <= j < i ==> !wanted(#[trigger] self.buffer@[j]),
            decreases self.buffer@.len() - i,
        {
            if matches!(&self.buffer[i], RelayMessage::Auth { .. }) {
                proof {
                    lemma_first_index(self.buffer@, wanted, i as int);
                }
                match self.buffer.remove(i) {
                    Some(RelayMessage::Auth { challenge }) => {
                        return Some(challenge);
                    },
                    _ => {
                        assert(false);
                        return None;
                    },
                }
            }
            i = i + 1;
        }
        proof {
            lemma_first_index(self.buffer@, wanted, i as int);
        }
        None
    }

    /// A step of waiting for the relay's challenge.
    pub fn wait_for_auth_challenge(&mut self, inbound: Inbound) -> (r: Step<String>)
        ensures
            (final(self)@, r@) == challenge_step(old(self)@, inbound),
    {
        match inbound {
            Inbound::Received(Frame::Text(Ok(RelayMessage::Auth { challenge }))) => {
                if challenge.as_str().as_bytes().len() > MAX_CHALLENGE_BYTES {
                    Step::Done(
                        Err(WsClientError::AuthFailed("challenge exceeds 1024 bytes".to_owned())),
                    )
                } else {
                    Step::Done(Ok(challenge))
                }
            },
            Inbound::Received(Frame::Text(Ok(message))) => {
                self.keep(message);
                Step::Wait
            },
            other => idle(other, WsClientError::NoAuthChallenge),
        }
    }

    /// Takes the answer to the event `event_id` that came before it was asked
    /// for: the first that was kept.
    pub fn take_ok(&mut self, event_id: &str) -> (r: Option<OkResponse>)
        ensures
            match kept_ok(old(self)@, event_id@) {
                Some((ok, after)) => r == Some(ok) && final(self)@ == after,
                None => r is None && final(self)@ == old(self)@,
            },
    {
        let ghost wanted = |m: RelayMessage| answers(m, event_id@);
        let mut i: usize = 0;
        while i < self.buffer.len()
            invariant
                i <= self.buffer@.len(),
                *self == *old(self),
                wanted == |m: RelayMessage| answers(m, event_id@),
                forall|j: int| 0 <= j < i ==> !wanted(#[trigger] self.buffer@[j]),
            decreases self.buffer@.len() - i,
        {
            let found = match &self.buffer[i] {
                RelayMessage::OkReply(ok) => same_text(ok.event_id.as_str(), event_id),
                _ => false,
            };
            if found {
                proof {
                    lemma_first_index(self.buffer@, wanted, i as int);
                }
                match self.buffer.remove(i) {
                    Some(RelayMessage::OkReply(ok)) => {
                        return Some(ok);
                    },
                    _ => {
                        assert(false);
                        return None;
                    },
                }
            }
            i = i + 1;
        }
        proof {
            lemma_first_index(self.buffer@, wanted, i as int);
        }
        None
    }

    /// A step of waiting for the answer to the event `event_id`.
    pub fn wait_for_ok(&mut self, event_id: &str, inbound: Inbound) -> (r: Step<OkResponse>)
        ensures
            (final(self)@, r@) == ok_step(old(self)@, event_id@, inbound),
    {
        match inbound {
            Inbound::Received(Frame::Text(Ok(RelayMessage::OkReply(ok)))) => {
                if same_text(ok.event_id.as_str(), event_id) {
                    Step::Done(Ok(ok))
                } else {
                    self.keep(RelayMessage::OkReply(ok));
                    Step::Wait
                }
            },
            Inbound::Received(Frame::Text(Ok(message))) => {
                self.keep(message);
                Step::Wait
            },
            other => idle(other, WsClientError::Timeout),
        }
    }

    /// The wait for a challenge, from its beginning: only where none was kept is
    /// one awaited off the wire.
    pub fn await_challenge(&mut self, event: WaitEvent) -> (r: Step<String>)
        ensures
            (final(self)@, r@) == challenge_wait_step(old(self)@, event),
    {
        match event {
            WaitEvent::Begin => match self.take_challenge() {
                Some(challenge) => Step::Done(Ok(challenge)),
                None => Step::Wait,
            },
            WaitEvent::Then(inbound) => self.wait_for_auth_challenge(inbound),
        }
    }

    /// The wait for the answer to the event `event_id`, from its beginning: only
    /// where none was kept is one awaited off the wire.
    pub fn await_ok(&mut self, event_id: &str, event: WaitEvent) -> (r: Step<OkResponse>)
        ensures
            (final(self)@, r@) == ok_wait_step(old(self)@, event_id@, event),
    {
        match event {
            WaitEvent::Begin => match self.take_ok(event_id) {
                Some(ok) => Step::Done(Ok(ok)),
                None => Step::Wait,
            },
            WaitEvent::Then(inbound) => self.wait_for_ok(event_id, inbound),
        }
    }

    /// The wait for the next message, from its beginning: only where none was kept
    /// is one awaited off the wire.
    pub fn await_message(&mut self, event: WaitEvent) -> (r: Step<RelayMessage>)
        ensures
            (final(self)@, r@) == message_wait_step(old(self)@, event),
    {
        match event {
            WaitEvent::Begin => match self.next_event() {
                Some(message) => Step::Done(Ok(message)),
                None => Step::Wait,
            },
            WaitEvent::Then(inbound) => self.recv_one(inbound),
        }
    }

    /// The payload of a ping that is sent now: the system clock's nanoseconds.
    pub fn ping() -> (r: Vec<u8>)
        ensures
            exists|since: Option<Span>| #[trigger]
                clock_shows(since) && is_reading(since) && r@ == big_endian(clamped(since), 16),
    {
        let nanos = unix_nanos();
        ping_payload(nanos)
    }

    /// The message that answers `challenge`, and the event whose answer is then
    /// awaited.
    ///
    /// Pass `auth_tag` to include a NIP-OA authorization tag in the AUTH event.
    pub fn authenticate(
        &self,
        challenge: &str,
        secret_key: &[u8; 32],
        auth_tag: &Option<Vec<String>>,
    ) -> (r: Result<Outgoing, WsClientError>)
        ensures
            ({
                let draft = auth_draft(challenge@, self@.relay_url, tag_view(*auth_tag));
                match r {
                    Ok(outgoing) => can_sign(draft, secret_key@) && exists|event: Event|
                        #[trigger] is_signed(draft, secret_key@, event) && outgoing.carries(
                            "AUTH"@,
                            event,
                        ),
                    Err(error) => error == WsClientError::Sign && !can_sign(draft, secret_key@),
                }
            }),
    {
        let event = match build_auth_event(
            challenge,
            self.relay_url.as_str(),
            secret_key,
            auth_tag,
        ) {
            Ok(event) => event,
            Err(error) => return Err(error),
        };
        proof {
            law_signed_event_is_genuine(
                auth_draft(challenge@, self@.relay_url, tag_view(*auth_tag)),
                secret_key@,
                event,
            );
        }
        outgoing("AUTH", &event)
    }

    /// Concludes authentication with the relay's answer to the AUTH event.
    pub fn conclude_authentication(ok: OkResponse) -> (r: Result<(), WsClientError>)
        ensures
            match r {
                Ok(_) => ok.accepted,
                Err(error) => !ok.accepted && error@ == WsClientErrorView::AuthFailed(ok.message@),
            },
    {
        if !ok.accepted {
            return Err(WsClientError::AuthFailed(ok.message));
        }
        Ok(())
    }

    /// The message that publishes `event`, and the event whose answer is then
    /// awaited. An event with an empty tag cannot be published.
    pub fn send_event(event: &Event) -> (r: Result<Outgoing, WsClientError>)
        ensures
            match r {
                Ok(outgoing) => no_empty_tag(event.tags.deep_view()) && outgoing.carries(
                    "EVENT"@,
                    *event,
                ),
                Err(error) => !no_empty_tag(event.tags.deep_view()) && error@
                    == WsClientErrorView::Json("event has an empty tag"@),
            },
    {
        outgoing("EVENT", event)
    }
}

impl Outgoing {
    /// Whether this is the message `label` about `event`.
    pub open spec fn carries(self, label: Seq<char>, event: Event) -> bool {
        self.event_id@ == encode_hex(event.id@) && self.text@ == client_message(label, event)
    }
}

/// The message `label` about `event`, and the event whose answer is then awaited.
fn outgoing(label: &str, event: &Event) -> (r: Result<Outgoing, WsClientError>)
    ensures
        match r {
            Ok(outgoing) => no_empty_tag(event.tags.deep_view()) && outgoing.carries(
                label@,
                *event,
            ),
            Err(error) => !no_empty_tag(event.tags.deep_view()) && error@
                == WsClientErrorView::Json("event has an empty tag"@),
        },
{
    let event_id = event.id.to_hex();
    match write_client_message(label, event) {
        Ok(text) => Ok(Outgoing { event_id, text }),
        Err(error) => Err(error),
    }
}

/// The `len` lowest bytes of `n`, the highest first.
pub open spec fn big_endian(n: nat, len: nat) -> Seq<u8>
    decreases len,
{
    if len == 0 {
        seq![]
    } else {
        big_endian(n / 256, (len - 1) as nat).push((n % 256) as u8)
    }
}

fn big_endian_bytes(n: u128, len: u8) -> (r: Vec<u8>)
    ensures
        r@ == big_endian(n as nat, len as nat),
    decreases len,
{
    if len == 0 {
        let bytes: Vec<u8> = Vec::new();
        assert(bytes@ =~= seq![]);
        bytes
    } else {
        let mut bytes = big_endian_bytes(n / 256, len - 1);
        bytes.push((n % 256) as u8);
        bytes
    }
}

/// The payload of a ping: the time in 16 bytes.
pub fn ping_payload(nanos: u128) -> (r: Vec<u8>)
    ensures
        r@ == big_endian(nanos as nat, 16),
{
    big_endian_bytes(nanos, 16)
}

proof fn lemma_big_endian_injective(a: nat, b: nat, len: nat)
    requires
        a < pow(256, len),
        b < pow(256, len),
        big_endian(a, len) == big_endian(b, len),
    ensures
        a == b,
    decreases len,
{
    reveal(pow);
    if len > 0 {
        let x = big_endian(a, len);
        let y = big_endian(b, len);
        assert(x.last() == (a % 256) as u8);
        assert(y.last() == (b % 256) as u8);
        assert(x.drop_last() =~= big_endian(a / 256, (len - 1) as nat));
        assert(y.drop_last() =~= big_endian(b / 256, (len - 1) as nat));
        lemma_big_endian_injective(a / 256, b / 256, (len - 1) as nat);
    }
}

/// Pings of different times have different payloads, so that the pong of one is
/// not taken for that of the other.
pub proof fn law_ping_payload_injective(a: u128, b: u128)
    requires
        big_endian(a as nat, 16) == big_endian(b as nat, 16),
    ensures
        a == b,
{
    assert(pow(256, 16) == 0x1_0000_0000_0000_0000_0000_0000_0000_0000) by {
        reveal_with_fuel(pow, 17);
    }
    lemma_big_endian_injective(a as nat, b as nat, 16);
}

/// The relay messages among `inbounds`.
pub open spec fn relay_messages(inbounds: Seq<Inbound>) -> Seq<RelayMessage> {
    inbounds.filter_map(
        |inbound: Inbound|
            match inbound {
                Inbound::Received(Frame::Text(Ok(message))) => Some(message),
                _ => None,
            },
    )
}

/// How many of `events` an operation passes over before the one that ends it.
pub open spec fn waited<E, T>(
    step: spec_fn(ConnectionView, E) -> (ConnectionView, StepView<T>),
    conn: ConnectionView,
    events: Seq<E>,
) -> nat
    decreases events.len(),
{
    if events.len() == 0 {
        0
    } else {
        let (next, done) = step(conn, events[0]);
        if done is Done {
            0
        } else {
            1 + waited(step, next, events.drop_first())
        }
    }
}

/// The connection after an operation has seen `events`, up to the one that ends
/// it, and how it ended, if it did.
pub open spec fn run<E, T>(
    step: spec_fn(ConnectionView, E) -> (ConnectionView, StepView<T>),
    conn: ConnectionView,
    events: Seq<E>,
) -> (ConnectionView, Option<Result<T, WsClientErrorView>>)
    decreases events.len(),
{
    if events.len() == 0 {
        (conn, None)
    } else {
        let (next, done) = step(conn, events[0]);
        match done {
            StepView::Done(result) => (next, Some(result)),
            _ => run(step, next, events.drop_first()),
        }
    }
}

/// The challenge that is remembered once `messages` have come: the last among
/// them, or `before` if there is none.
pub open spec fn last_challenge(messages: Seq<RelayMessage>, before: Option<String>) -> Option<
    String,
>
    decreases messages.len(),
{
    if messages.len() == 0 {
        before
    } else {
        match messages.last() {
            RelayMessage::Auth { challenge } => Some(challenge),
            _ => last_challenge(messages.drop_last(), before),
        }
    }
}

/// Whether a step passes over an event by keeping the message in it, if there is
/// one, and ends its operation without a change.
spec fn keeps_messages<T>(
    step: spec_fn(ConnectionView, Inbound) -> (ConnectionView, StepView<T>),
) -> bool {
    forall|conn: ConnectionView, inbound: Inbound|
        {
            let (next, done) = #[trigger] step(conn, inbound);
            if done is Done {
                next == conn
            } else {
                match inbound {
                    Inbound::Received(Frame::Text(Ok(message))) => next == kept(conn, message),
                    _ => next == conn,
                }
            }
        }
}

proof fn lemma_relay_messages_first(inbounds: Seq<Inbound>)
    requires
        inbounds.len() > 0,
    ensures
        relay_messages(inbounds) == relay_messages(seq![inbounds[0]]) + relay_messages(
            inbounds.drop_first(),
        ),
        relay_messages(seq![inbounds[0]]) == match inbounds[0] {
            Inbound::Received(Frame::Text(Ok(message))) => seq![message],
            _ => Seq::<RelayMessage>::empty(),
        },
    decreases inbounds.len(),
{
    let pick = |inbound: Inbound|
        match inbound {
            Inbound::Received(Frame::Text(Ok(message))) => Some(message),
            _ => None,
        };
    Seq::lemma_filter_map_singleton(inbounds[0], pick);
    let rest = inbounds.drop_first();
    if rest.len() == 0 {
        assert(inbounds =~= seq![inbounds[0]]);
        assert(relay_messages(rest) =~= seq![]);
    } else {
        let front = inbounds.drop_last();
        lemma_relay_messages_first(front);
        assert(front.drop_first() =~= rest.drop_last());
        assert(rest.last() == inbounds.last());
        assert(relay_messages(inbounds) =~= relay_messages(seq![inbounds[0]]) + relay_messages(
            rest,
        ));
    }
}

proof fn lemma_last_challenge_append(
    a: Seq<RelayMessage>,
    b: Seq<RelayMessage>,
    before: Option<String>,
)
    ensures
        last_challenge(a + b, before) == last_challenge(b, last_challenge(a, before)),
    decreases b.len(),
{
    if b.len() == 0 {
        assert(a + b =~= a);
    } else {
        assert((a + b).drop_last() =~= a + b.drop_last());
        lemma_last_challenge_append(a, b.drop_last(), before);
    }
}

proof fn lemma_run_keeps_messages<T>(
    step: spec_fn(ConnectionView, Inbound) -> (ConnectionView, StepView<T>),
    conn: ConnectionView,
    inbounds: Seq<Inbound>,
)
    requires
        keeps_messages(step),
    ensures
        ({
            let n = waited(step, conn, inbounds);
            let messages = relay_messages(inbounds.take(n as int));
            let (after, result) = run(step, conn, inbounds);
            &&& n <= inbounds.len()
            &&& result is Some <==> n < inbounds.len()
            &&& after.buffer == conn.buffer + messages
            &&& after.pending_challenge == last_challenge(messages, conn.pending_challenge)
            &&& after.relay_url == conn.relay_url
            &&& n < inbounds.len() ==> step(after, inbounds[n as int]) == (
                after,
                StepView::Done(result->0),
            )
        }),
    decreases inbounds.len(),
{
    if inbounds.len() == 0 {
        assert(relay_messages(inbounds.take(0)) =~= seq![]);
        assert(conn.buffer + relay_messages(inbounds.take(0)) =~= conn.buffer);
    } else {
        let (next, done) = step(conn, inbounds[0]);
        if done is Done {
            assert(relay_messages(inbounds.take(0)) =~= seq![]);
            assert(conn.buffer + relay_messages(inbounds.take(0)) =~= conn.buffer);
        } else {
            let rest = inbounds.drop_first();
            lemma_run_keeps_messages(step, next, rest);
            let m = waited(step, next, rest);
            let seen = inbounds.take(m as int + 1);
            assert(seen.drop_first() =~= rest.take(m as int));
            lemma_relay_messages_first(seen);
            let first = relay_messages(seq![inbounds[0]]);
            let later = relay_messages(rest.take(m as int));
            assert(next.buffer =~= conn.buffer + first);
            assert(next.buffer + later =~= conn.buffer + relay_messages(seen));
            lemma_last_challenge_append(first, later, conn.pending_challenge);
            assert(last_challenge(first, conn.pending_challenge) == next.pending_challenge) by {
                reveal_with_fuel(last_challenge, 2);
                assert(first.len() > 0 ==> first.drop_last() =~= seq![]);
            }
        }
    }
}

/// What is left of a connection by an operation that passed over `seen`: the
/// messages in it were kept in order, the last challenge in it is remembered,
/// and nothing else changed.
pub open spec fn passed_over(
    before: ConnectionView,
    seen: Seq<Inbound>,
    after: ConnectionView,
) -> bool {
    &&& after.buffer == before.buffer + relay_messages(seen)
    &&& after.pending_challenge == last_challenge(relay_messages(seen), before.pending_challenge)
    &&& after.relay_url == before.relay_url
}

/// Relay messages received while waiting for a pong are kept in order, whether
/// the pong comes or not; and it has come if and only if the ping succeeds.
pub proof fn law_ping_preserves_messages(
    conn: ConnectionView,
    payload: Seq<u8>,
    inbounds: Seq<Inbound>,
)
    ensures
        ({
            let step = |c: ConnectionView, i: Inbound| ping_step(c, payload, i);
            let n = waited(step, conn, inbounds);
            let (after, result) = run(step, conn, inbounds);
            &&& n <= inbounds.len()
            &&& result is Some <==> n < inbounds.len()
            &&& passed_over(conn, inbounds.take(n as int), after)
            &&& result == Some(Ok::<(), WsClientErrorView>(())) <==> n < inbounds.len() && (
            inbounds[n as int] matches Inbound::Received(Frame::Pong(data)) && data@ == payload)
        }),
{
    let step = |c: ConnectionView, i: Inbound| ping_step(c, payload, i);
    lemma_run_keeps_messages(step, conn, inbounds);
    let n = waited(step, conn, inbounds);
    let after = run(step, conn, inbounds).0;
    if n < inbounds.len() {
        assert(step(after, inbounds[n as int]) == ping_step(after, payload, inbounds[n as int]));
    }
}

/// Relay messages received while waiting for a challenge are kept in order. A
/// challenge that is found is the one that ended the wait, and is not too long.
pub proof fn law_challenge_wait_preserves_messages(conn: ConnectionView, inbounds: Seq<Inbound>)
    ensures
        ({
            let step = |c: ConnectionView, i: Inbound| challenge_step(c, i);
            let n = waited(step, conn, inbounds);
            let (after, result) = run(step, conn, inbounds);
            &&& n <= inbounds.len()
            &&& result is Some <==> n < inbounds.len()
            &&& passed_over(conn, inbounds.take(n as int), after)
            &&& result matches Some(Ok(challenge)) ==> byte_len(challenge@) <= MAX_CHALLENGE_BYTES
                && inbounds[n as int] == Inbound::Received(
                Frame::Text(Ok(RelayMessage::Auth { challenge })),
            )
        }),
{
    let step = |c: ConnectionView, i: Inbound| challenge_step(c, i);
    lemma_run_keeps_messages(step, conn, inbounds);
    let n = waited(step, conn, inbounds);
    let after = run(step, conn, inbounds).0;
    if n < inbounds.len() {
        assert(step(after, inbounds[n as int]) == challenge_step(after, inbounds[n as int]));
    }
}

/// Relay messages received while waiting for the answer to an event are kept in
/// order. An answer that is found is the one that ended the wait, and answers
/// that event.
pub proof fn law_ok_wait_preserves_messages(
    conn: ConnectionView,
    event_id: Seq<char>,
    inbounds: Seq<Inbound>,
)
    ensures
        ({
            let step = |c: ConnectionView, i: Inbound| ok_step(c, event_id, i);
            let n = waited(step, conn, inbounds);
            let (after, result) = run(step, conn, inbounds);
            &&& n <= inbounds.len()
            &&& result is Some <==> n < inbounds.len()
            &&& passed_over(conn, inbounds.take(n as int), after)
            &&& result matches Some(Ok(ok)) ==> ok.event_id@ == event_id && inbounds[n as int]
                == Inbound::Received(Frame::Text(Ok(RelayMessage::OkReply(ok))))
        }),
{
    let step = |c: ConnectionView, i: Inbound| ok_step(c, event_id, i);
    lemma_run_keeps_messages(step, conn, inbounds);
    let n = waited(step, conn, inbounds);
    let after = run(step, conn, inbounds).0;
    if n < inbounds.len() {
        assert(step(after, inbounds[n as int]) == ok_step(after, event_id, inbounds[n as int]));
    }
}

/// Every operation answers a ping with the payload that came, changes nothing on
/// it, and waits on.
pub proof fn law_pings_are_answered(
    conn: ConnectionView,
    payload: Seq<u8>,
    event_id: Seq<char>,
    data: Vec<u8>,
)
    ensures
        ({
            let ping = Inbound::Received(Frame::Ping(data));
            &&& recv_step(conn, ping) == (conn, StepView::<RelayMessage>::SendPong(data@))
            &&& ping_step(conn, payload, ping) == (conn, StepView::<()>::SendPong(data@))
            &&& challenge_step(conn, ping) == (conn, StepView::<String>::SendPong(data@))
            &&& ok_step(conn, event_id, ping) == (conn, StepView::<OkResponse>::SendPong(data@))
        }),
{
}

/// Every operation fails when the time is up: a wait for a challenge for want of
/// one, any other with a timeout. None of them changes the connection.
pub proof fn law_time_up_fails(conn: ConnectionView, payload: Seq<u8>, event_id: Seq<char>)
    ensures
        recv_step(conn, Inbound::TimedOut) == (
            conn,
            StepView::<RelayMessage>::Done(Err(WsClientErrorView::Timeout)),
        ),
        ping_step(conn, payload, Inbound::TimedOut) == (
            conn,
            StepView::<()>::Done(Err(WsClientErrorView::Timeout)),
        ),
        challenge_step(conn, Inbound::TimedOut) == (
            conn,
            StepView::<String>::Done(Err(WsClientErrorView::NoAuthChallenge)),
        ),
        ok_step(conn, event_id, Inbound::TimedOut) == (
            conn,
            StepView::<OkResponse>::Done(Err(WsClientErrorView::Timeout)),
        ),
{
}

/// The connection after its oldest message has been taken.
pub open spec fn taken(conn: ConnectionView) -> ConnectionView {
    ConnectionView { buffer: conn.buffer.drop_first(), ..conn }
}

/// The messages that `n` takes give, one after the other.
pub open spec fn take_many(conn: ConnectionView, n: nat) -> Seq<RelayMessage>
    decreases n,
{
    if n == 0 || conn.buffer.len() == 0 {
        seq![]
    } else {
        seq![conn.buffer[0]] + take_many(taken(conn), (n - 1) as nat)
    }
}

/// Messages are taken in the order in which they were kept.
pub proof fn law_messages_are_taken_in_order(conn: ConnectionView, n: nat)
    requires
        n <= conn.buffer.len(),
    ensures
        take_many(conn, n) == conn.buffer.take(n as int),
    decreases n,
{
    if n > 0 {
        law_messages_are_taken_in_order(taken(conn), (n - 1) as nat);
        assert(seq![conn.buffer[0]] + taken(conn).buffer.take(n - 1) =~= conn.buffer.take(
            n as int,
        ));
    } else {
        assert(take_many(conn, n) =~= conn.buffer.take(0));
    }
}

/// How a wait goes, given what the wire would bring.
pub struct WaitOutcome<T> {
    /// The connection afterwards.
    pub after: ConnectionView,
    /// How the wait ended, if it did.
    pub result: Option<Result<T, WsClientErrorView>>,
    /// How much was read off the wire.
    pub read: nat,
}

/// How a wait goes: what was kept ends it before anything is read; else it reads
/// off the wire, step by step.
pub open spec fn wait_outcome<T>(
    kept: Option<(T, ConnectionView)>,
    step: spec_fn(ConnectionView, Inbound) -> (ConnectionView, StepView<T>),
    conn: ConnectionView,
    inbounds: Seq<Inbound>,
) -> WaitOutcome<T> {
    match kept {
        Some((value, after)) => WaitOutcome { after, result: Some(Ok(value)), read: 0 },
        None => {
            let (after, result) = run(step, conn, inbounds);
            let waited = waited(step, conn, inbounds);
            WaitOutcome {
                after,
                result,
                read: if result is Some {
                    waited + 1
                } else {
                    waited
                },
            }
        },
    }
}

/// How a wait for a challenge goes.
pub open spec fn challenge_wait(conn: ConnectionView, inbounds: Seq<Inbound>) -> WaitOutcome<
    String,
> {
    wait_outcome(
        kept_challenge(conn),
        |c: ConnectionView, i: Inbound| challenge_step(c, i),
        conn,
        inbounds,
    )
}

/// How a wait for the answer to the event `event_id` goes.
pub open spec fn ok_wait(
    conn: ConnectionView,
    event_id: Seq<char>,
    inbounds: Seq<Inbound>,
) -> WaitOutcome<OkResponse> {
    wait_outcome(
        kept_ok(conn, event_id),
        |c: ConnectionView, i: Inbound| ok_step(c, event_id, i),
        conn,
        inbounds,
    )
}

/// How a wait for the next message goes.
pub open spec fn message_wait(conn: ConnectionView, inbounds: Seq<Inbound>) -> WaitOutcome<
    RelayMessage,
> {
    wait_outcome(
        kept_message(conn),
        |c: ConnectionView, i: Inbound| recv_step(c, i),
        conn,
        inbounds,
    )
}

/// What a wait goes through when the wire would bring `inbounds`.
pub open spec fn wait_events(inbounds: Seq<Inbound>) -> Seq<WaitEvent> {
    seq![WaitEvent::Begin] + inbounds.map_values(|inbound: Inbound| WaitEvent::Then(inbound))
}

/// Whether the steps of a wait, taken one after the other from its beginning,
/// lead to `outcome`.
pub open spec fn leads_to<T>(
    step: spec_fn(ConnectionView, WaitEvent) -> (ConnectionView, StepView<T>),
    conn: ConnectionView,
    inbounds: Seq<Inbound>,
    outcome: WaitOutcome<T>,
) -> bool {
    &&& run(step, conn, wait_events(inbounds)) == (outcome.after, outcome.result)
    &&& waited(step, conn, wait_events(inbounds)) == if outcome.result is Some {
        outcome.read
    } else {
        outcome.read + 1
    }
}

proof fn lemma_run_on_wire<T>(
    whole: spec_fn(ConnectionView, WaitEvent) -> (ConnectionView, StepView<T>),
    step: spec_fn(ConnectionView, Inbound) -> (ConnectionView, StepView<T>),
    conn: ConnectionView,
    inbounds: Seq<Inbound>,
)
    requires
        forall|c: ConnectionView, i: Inbound| #[trigger]
            step(c, i) == whole(c, WaitEvent::Then(i)),
    ensures
        ({
            let events = inbounds.map_values(|inbound: Inbound| WaitEvent::Then(inbound));
            &&& run(whole, conn, events) == run(step, conn, inbounds)
            &&& waited(whole, conn, events) == waited(step, conn, inbounds)
        }),
    decreases inbounds.len(),
{
    let events = inbounds.map_values(|inbound: Inbound| WaitEvent::Then(inbound));
    if inbounds.len() > 0 {
        let rest = inbounds.drop_first();
        assert(events.drop_first() =~= rest.map_values(
            |inbound: Inbound| WaitEvent::Then(inbound),
        ));
        let (next, done) = step(conn, inbounds[0]);
        assert(whole(conn, events[0]) == (next, done));
        lemma_run_on_wire(whole, step, next, rest);
    }
}

proof fn lemma_wait_leads<T>(
    kept: Option<(T, ConnectionView)>,
    whole: spec_fn(ConnectionView, WaitEvent) -> (ConnectionView, StepView<T>),
    step: spec_fn(ConnectionView, Inbound) -> (ConnectionView, StepView<T>),
    conn: ConnectionView,
    inbounds: Seq<Inbound>,
)
    requires
        whole(conn, WaitEvent::Begin) == begin(kept, conn),
        forall|c: ConnectionView, i: Inbound| #[trigger]
            step(c, i) == whole(c, WaitEvent::Then(i)),
    ensures
        leads_to(whole, conn, inbounds, wait_outcome(kept, step, conn, inbounds)),
{
    let events = wait_events(inbounds);
    let later = inbounds.map_values(|inbound: Inbound| WaitEvent::Then(inbound));
    assert(events[0] == WaitEvent::Begin);
    assert(events.drop_first() =~= later);
    lemma_run_on_wire(whole, step, conn, inbounds);
}

/// A wait for a challenge takes the one that was noted last, else the first that
/// was kept, and in either case reads nothing off the wire. Only where there is
/// neither does it read. The steps of the wait lead there.
pub proof fn law_kept_challenge_comes_first(conn: ConnectionView, inbounds: Seq<Inbound>)
    ensures
        ({
            let outcome = challenge_wait(conn, inbounds);
            &&& leads_to(
                |c: ConnectionView, e: WaitEvent| challenge_wait_step(c, e),
                conn,
                inbounds,
                outcome,
            )
            &&& conn.pending_challenge matches Some(challenge) ==> outcome == (WaitOutcome {
                after: ConnectionView { pending_challenge: None, ..conn },
                result: Some(Ok(challenge)),
                read: 0,
            })
            &&& conn.pending_challenge is None ==> forall|i: int|
                0 <= i < conn.buffer.len() && (#[trigger] conn.buffer[i]) is Auth && (forall|j: int|
                    0 <= j < i ==> !((#[trigger] conn.buffer[j]) is Auth)) ==> outcome == (
                WaitOutcome {
                    after: ConnectionView { buffer: conn.buffer.remove(i), ..conn },
                    result: Some(Ok(conn.buffer[i]->challenge)),
                    read: 0,
                })
            &&& conn.pending_challenge is None && (forall|i: int|
                0 <= i < conn.buffer.len() ==> !((#[trigger] conn.buffer[i]) is Auth)) ==> (
                outcome.after,
                outcome.result,
            ) == run(|c: ConnectionView, i: Inbound| challenge_step(c, i), conn, inbounds)
        }),
{
    let step = |c: ConnectionView, i: Inbound| challenge_step(c, i);
    let whole = |c: ConnectionView, e: WaitEvent| challenge_wait_step(c, e);
    let wanted = |m: RelayMessage| m is Auth;
    lemma_wait_leads(kept_challenge(conn), whole, step, conn, inbounds);
    assert forall|i: int|
        conn.pending_challenge is None && 0 <= i < conn.buffer.len() && (
        #[trigger] conn.buffer[i]) is Auth && (forall|j: int|
            0 <= j < i ==> !((#[trigger] conn.buffer[j]) is Auth)) implies challenge_wait(
        conn,
        inbounds,
    ) == (WaitOutcome {
        after: ConnectionView { buffer: conn.buffer.remove(i), ..conn },
        result: Some(Ok::<String, WsClientErrorView>(conn.buffer[i]->challenge)),
        read: 0,
    }) by {
        lemma_first_index(conn.buffer, wanted, i);
    }
    if forall|i: int| 0 <= i < conn.buffer.len() ==> !((#[trigger] conn.buffer[i]) is Auth) {
        lemma_first_index(conn.buffer, wanted, conn.buffer.len() as int);
    }
}

/// A wait for the answer to an event takes the first that was kept, and then
/// reads nothing off the wire. Only where none was kept does it read. The steps
/// of the wait lead there.
pub proof fn law_kept_answer_comes_first(
    conn: ConnectionView,
    event_id: Seq<char>,
    inbounds: Seq<Inbound>,
)
    ensures
        ({
            let outcome = ok_wait(conn, event_id, inbounds);
            &&& leads_to(
                |c: ConnectionView, e: WaitEvent| ok_wait_step(c, event_id, e),
                conn,
                inbounds,
                outcome,
            )
            &&& forall|i: int|
                0 <= i < conn.buffer.len() && ((#[trigger] conn.buffer[i]) matches
                    RelayMessage::OkReply(ok) && ok.event_id@ == event_id) && (forall|j: int|
                    0 <= j < i ==> !((#[trigger] conn.buffer[j]) matches RelayMessage::OkReply(ok)
                        && ok.event_id@ == event_id)) ==> outcome == (WaitOutcome {
                    after: ConnectionView { buffer: conn.buffer.remove(i), ..conn },
                    result: Some(Ok(conn.buffer[i]->OkReply_0)),
                    read: 0,
                })
            &&& (forall|i: int|
                0 <= i < conn.buffer.len() ==> !((#[trigger] conn.buffer[i]) matches
                    RelayMessage::OkReply(ok) && ok.event_id@ == event_id)) ==> (
                outcome.after,
                outcome.result,
            ) == run(|c: ConnectionView, i: Inbound| ok_step(c, event_id, i), conn, inbounds)
        }),
{
    let step = |c: ConnectionView, i: Inbound| ok_step(c, event_id, i);
    let whole = |c: ConnectionView, e: WaitEvent| ok_wait_step(c, event_id, e);
    let wanted = |m: RelayMessage| answers(m, event_id);
    lemma_wait_leads(kept_ok(conn, event_id), whole, step, conn, inbounds);
    assert forall|i: int|
        0 <= i < conn.buffer.len() && answers(#[trigger] conn.buffer[i], event_id) && (forall|
            j: int,
        |
            0 <= j < i ==> !answers(#[trigger] conn.buffer[j], event_id)) implies ok_wait(
        conn,
        event_id,
        inbounds,
    ) == (WaitOutcome {
        after: ConnectionView { buffer: conn.buffer.remove(i), ..conn },
        result: Some(Ok::<OkResponse, WsClientErrorView>(conn.buffer[i]->OkReply_0)),
        read: 0,
    }) by {
        lemma_first_index(conn.buffer, wanted, i);
    }
    if forall|i: int| 0 <= i < conn.buffer.len() ==> !answers(#[trigger] conn.buffer[i], event_id) {
        lemma_first_index(conn.buffer, wanted, conn.buffer.len() as int);
    }
}

/// A wait for the next message takes the oldest that was kept, and then reads
/// nothing off the wire. Only where none was kept does it read. The steps of the
/// wait lead there.
pub proof fn law_kept_message_comes_first(conn: ConnectionView, inbounds: Seq<Inbound>)
    ensures
        ({
            let outcome = message_wait(conn, inbounds);
            &&& leads_to(
                |c: ConnectionView, e: WaitEvent| message_wait_step(c, e),
                conn,
                inbounds,
                outcome,
            )
            &&& conn.buffer.len() > 0 ==> outcome == (WaitOutcome {
                after: ConnectionView { buffer: conn.buffer.drop_first(), ..conn },
                result: Some(Ok(conn.buffer[0])),
                read: 0,
            })
            &&& conn.buffer.len() == 0 ==> (outcome.after, outcome.result) == run(
                |c: ConnectionView, i: Inbound| recv_step(c, i),
                conn,
                inbounds,
            )
        }),
{
    let step = |c: ConnectionView, i: Inbound| recv_step(c, i);
    let whole = |c: ConnectionView, e: WaitEvent| message_wait_step(c, e);
    lemma_wait_leads(kept_message(conn), whole, step, conn, inbounds);
}

/// A wait begins with what was kept, and ends at once if there is any; each event
/// after that is a step off the wire.
pub proof fn law_waits_begin_with_what_was_kept(
    conn: ConnectionView,
    event_id: Seq<char>,
    inbound: Inbound,
)
    ensures
        challenge_wait_step(conn, WaitEvent::Begin) == match kept_challenge(conn) {
            Some((challenge, after)) => (after, StepView::<String>::Done(Ok(challenge))),
            None => (conn, StepView::<String>::Wait),
        },
        ok_wait_step(conn, event_id, WaitEvent::Begin) == match kept_ok(conn, event_id) {
            Some((ok, after)) => (after, StepView::<OkResponse>::Done(Ok(ok))),
            None => (conn, StepView::<OkResponse>::Wait),
        },
        message_wait_step(conn, WaitEvent::Begin) == match kept_message(conn) {
            Some((message, after)) => (after, StepView::<RelayMessage>::Done(Ok(message))),
            None => (conn, StepView::<RelayMessage>::Wait),
        },
        challenge_wait_step(conn, WaitEvent::Then(inbound)) == challenge_step(conn, inbound),
        ok_wait_step(conn, event_id, WaitEvent::Then(inbound)) == ok_step(conn, event_id, inbound),
        message_wait_step(conn, WaitEvent::Then(inbound)) == recv_step(conn, inbound),
{
}

/// The first relay message off the wire, of whatever kind, ends a wait for the next
/// message, and is what the wait gives. A challenge is remembered; nothing else
/// changes.
pub proof fn law_any_message_is_received(conn: ConnectionView, message: RelayMessage)
    ensures
        ({
            let (next, done) = recv_step(conn, Inbound::Received(Frame::Text(Ok(message))));
            &&& done == StepView::<RelayMessage>::Done(Ok(message))
            &&& next.buffer == conn.buffer
            &&& next.relay_url == conn.relay_url
            &&& message matches RelayMessage::Auth { challenge } ==> next.pending_challenge == Some(
                challenge,
            )
            &&& !(message is Auth) ==> next.pending_challenge == conn.pending_challenge
        }),
{
}

/// The answer to the awaited event ends the wait for it and is what the wait
/// gives, whether the relay accepted the event or not and whatever it says.
/// Nothing changes. Any other message is kept behind the others, and the wait goes
/// on.
pub proof fn law_any_answer_to_the_event_ends_the_wait(
    conn: ConnectionView,
    event_id: Seq<char>,
    message: RelayMessage,
)
    ensures
        ({
            let (next, done) = ok_step(
                conn,
                event_id,
                Inbound::Received(Frame::Text(Ok(message))),
            );
            &&& message matches RelayMessage::OkReply(ok) ==> ok.event_id@ == event_id ==> next
                == conn && done == StepView::<OkResponse>::Done(Ok(ok))
            &&& !(message matches RelayMessage::OkReply(ok) && ok.event_id@ == event_id) ==> {
                &&& done is Wait
                &&& next.buffer == conn.buffer.push(message)
                &&& next.relay_url == conn.relay_url
                &&& message matches RelayMessage::Auth { challenge } ==> next.pending_challenge
                    == Some(challenge)
                &&& !(message is Auth) ==> next.pending_challenge == conn.pending_challenge
            }
        }),
{
}

/// A challenge of at most 1024 bytes ends the wait for one and is what the wait
/// gives; a longer one ends it with an error. Either way nothing changes. Any
/// other message is kept behind the others, and the wait goes on.
pub proof fn law_any_challenge_ends_the_wait(conn: ConnectionView, message: RelayMessage)
    ensures
        ({
            let (next, done) = challenge_step(conn, Inbound::Received(Frame::Text(Ok(message))));
            &&& message matches RelayMessage::Auth { challenge } ==> {
                &&& next == conn
                &&& byte_len(challenge@) <= 1024 ==> done == StepView::<String>::Done(Ok(challenge))
                &&& byte_len(challenge@) > 1024 ==> done == StepView::<String>::Done(
                    Err(WsClientErrorView::AuthFailed("challenge exceeds 1024 bytes"@)),
                )
            }
            &&& !(message is Auth) ==> {
                &&& done is Wait
                &&& next.buffer == conn.buffer.push(message)
                &&& next.relay_url == conn.relay_url
                &&& next.pending_challenge == conn.pending_challenge
            }
        }),
{
}

/// A pong with the payload of the ping ends the wait for it, and one with another
/// payload does not; neither changes anything. Any relay message is kept behind
/// the others, and the wait goes on.
pub proof fn law_the_pong_of_the_ping_ends_the_wait(
    conn: ConnectionView,
    payload: Seq<u8>,
    data: Vec<u8>,
    message: RelayMessage,
)
    ensures
        data@ == payload ==> ping_step(conn, payload, Inbound::Received(Frame::Pong(data))) == (
            conn,
            StepView::<()>::Done(Ok(())),
        ),
        data@ != payload ==> ping_step(conn, payload, Inbound::Received(Frame::Pong(data))) == (
            conn,
            StepView::<()>::Wait,
        ),
        ({
            let (next, done) = ping_step(
                conn,
                payload,
                Inbound::Received(Frame::Text(Ok(message))),
            );
            &&& done is Wait
            &&& next.buffer == conn.buffer.push(message)
            &&& next.relay_url == conn.relay_url
            &&& message matches RelayMessage::Auth { challenge } ==> next.pending_challenge == Some(
                challenge,
            )
            &&& !(message is Auth) ==> next.pending_challenge == conn.pending_challenge
        }),
{
}

/// The end of the stream and a closing frame end every wait as a closed
/// connection, a failure of the socket as that failure, and a text that cannot be
/// read as the reader's error. Nothing changes.
pub proof fn law_every_wait_ends_with_the_socket(
    conn: ConnectionView,
    payload: Seq<u8>,
    event_id: Seq<char>,
    reason: String,
    unread: WsClientError,
    inbound: Inbound,
    error: WsClientErrorView,
)
    requires
        ({
            ||| inbound == Inbound::Ended && error == WsClientErrorView::ConnectionClosed
            ||| inbound == Inbound::Received(Frame::Close) && error
                == WsClientErrorView::ConnectionClosed
            ||| inbound == Inbound::Failed(reason) && error == WsClientErrorView::WebSocket(reason@)
            ||| inbound == Inbound::Received(Frame::Text(Err(unread))) && error == unread@
        }),
    ensures
        recv_step(conn, inbound) == (conn, StepView::<RelayMessage>::Done(Err(error))),
        ping_step(conn, payload, inbound) == (conn, StepView::<()>::Done(Err(error))),
        challenge_step(conn, inbound) == (conn, StepView::<String>::Done(Err(error))),
        ok_step(conn, event_id, inbound) == (conn, StepView::<OkResponse>::Done(Err(error))),
{
}

/// A frame of another sort, and a pong that nobody awaits, change nothing and end
/// no wait.
pub proof fn law_other_frames_are_passed_over(
    conn: ConnectionView,
    payload: Seq<u8>,
    event_id: Seq<char>,
    data: Vec<u8>,
)
    ensures
        ping_step(conn, payload, Inbound::Received(Frame::Other)) == (conn, StepView::<()>::Wait),
        forall|inbound: Inbound|
            inbound == Inbound::Received(Frame::Other) || inbound == Inbound::Received(
                Frame::Pong(data),
            ) ==> {
                &&& #[trigger] recv_step(conn, inbound) == (conn, StepView::<RelayMessage>::Wait)
                &&& challenge_step(conn, inbound) == (conn, StepView::<String>::Wait)
                &&& ok_step(conn, event_id, inbound) == (conn, StepView::<OkResponse>::Wait)
            },
{
}

proof fn lemma_run_ends_at<T>(
    step: spec_fn(ConnectionView, Inbound) -> (ConnectionView, StepView<T>),
    conn: ConnectionView,
    inbounds: Seq<Inbound>,
    n: int,
    result: Result<T, WsClientErrorView>,
)
    requires
        0 <= n < inbounds.len(),
        forall|c: ConnectionView, k: int|
            0 <= k < n ==> !((#[trigger] step(c, inbounds[k])).1 is Done),
        forall|c: ConnectionView| (#[trigger] step(c, inbounds[n])).1 == StepView::Done(result),
    ensures
        run(step, conn, inbounds).1 == Some(result),
        waited(step, conn, inbounds) == n,
    decreases n,
{
    let (next, done) = step(conn, inbounds[0]);
    if n > 0 {
        let rest = inbounds.drop_first();
        assert forall|c: ConnectionView, k: int| 0 <= k < n - 1 implies !((#[trigger] step(
            c,
            rest[k],
        )).1 is Done) by {
            assert(rest[k] == inbounds[k + 1]);
        }
        assert(rest[n - 1] == inbounds[n]);
        lemma_run_ends_at(step, next, rest, n - 1, result);
    }
}

/// Whether `inbound` is a frame that says nothing to a wait: no relay message, no
/// end, and no failure.
pub open spec fn is_idle_frame(inbound: Inbound) -> bool {
    inbound matches Inbound::Received(frame) && (frame is Ping || frame is Pong || frame is Other)
}

/// With nothing kept, a wait for the next message passes over idle frames and
/// gives the first relay message, whatever that is, and no message is lost.
pub proof fn law_next_message_is_the_first_to_come(
    conn: ConnectionView,
    inbounds: Seq<Inbound>,
    n: int,
    message: RelayMessage,
)
    requires
        conn.buffer.len() == 0,
        0 <= n < inbounds.len(),
        forall|k: int| 0 <= k < n ==> is_idle_frame(#[trigger] inbounds[k]),
        inbounds[n] == Inbound::Received(Frame::Text(Ok(message))),
    ensures
        message_wait(conn, inbounds).result == Some(Ok::<RelayMessage, WsClientErrorView>(message)),
        message_wait(conn, inbounds).read == n + 1,
{
    let step = |c: ConnectionView, i: Inbound| recv_step(c, i);
    assert forall|c: ConnectionView, k: int| 0 <= k < n implies !((#[trigger] step(
        c,
        inbounds[k],
    )).1 is Done) by {
        assert(is_idle_frame(inbounds[k]));
    }
    lemma_run_ends_at(step, conn, inbounds, n, Ok(message));
}

/// With no answer kept, a wait for the answer to an event passes over idle frames
/// and keeps other messages in order, and gives the first answer to that event,
/// accepted or not.
pub proof fn law_answer_is_the_first_to_come(
    conn: ConnectionView,
    event_id: Seq<char>,
    inbounds: Seq<Inbound>,
    n: int,
    ok: OkResponse,
)
    requires
        forall|i: int|
            0 <= i < conn.buffer.len() ==> !((#[trigger] conn.buffer[i]) matches
                RelayMessage::OkReply(kept) && kept.event_id@ == event_id),
        0 <= n < inbounds.len(),
        forall|k: int|
            0 <= k < n ==> is_idle_frame(#[trigger] inbounds[k]) || (inbounds[k] matches
                Inbound::Received(Frame::Text(Ok(message))) && !(message matches
                RelayMessage::OkReply(other) && other.event_id@ == event_id)),
        inbounds[n] == Inbound::Received(Frame::Text(Ok(RelayMessage::OkReply(ok)))),
        ok.event_id@ == event_id,
    ensures
        ok_wait(conn, event_id, inbounds).result == Some(Ok::<OkResponse, WsClientErrorView>(ok)),
        ok_wait(conn, event_id, inbounds).read == n + 1,
        ok_wait(conn, event_id, inbounds).after.buffer == conn.buffer + relay_messages(
            inbounds.take(n),
        ),
{
    let step = |c: ConnectionView, i: Inbound| ok_step(c, event_id, i);
    assert forall|c: ConnectionView, k: int| 0 <= k < n implies !((#[trigger] step(
        c,
        inbounds[k],
    )).1 is Done) by {
        if !is_idle_frame(inbounds[k]) {
            assert(inbounds[k] is Received);
        }
    }
    lemma_run_ends_at(step, conn, inbounds, n, Ok(ok));
    law_kept_answer_comes_first(conn, event_id, inbounds);
    law_ok_wait_preserves_messages(conn, event_id, inbounds);
    lemma_first_index(
        conn.buffer,
        |m: RelayMessage| answers(m, event_id),
        conn.buffer.len() as int,
    );
}

/// With no challenge kept, a wait for one passes over idle frames and keeps other
/// messages in order, and gives the first challenge, if that is not too long.
pub proof fn law_challenge_is_the_first_to_come(
    conn: ConnectionView,
    inbounds: Seq<Inbound>,
    n: int,
    challenge: String,
)
    requires
        conn.pending_challenge is None,
        forall|i: int| 0 <= i < conn.buffer.len() ==> !((#[trigger] conn.buffer[i]) is Auth),
        0 <= n < inbounds.len(),
        forall|k: int|
            0 <= k < n ==> is_idle_frame(#[trigger] inbounds[k]) || (inbounds[k] matches
                Inbound::Received(Frame::Text(Ok(message))) && !(message is Auth)),
        inbounds[n] == Inbound::Received(Frame::Text(Ok(RelayMessage::Auth { challenge }))),
        byte_len(challenge@) <= 1024,
    ensures
        challenge_wait(conn, inbounds).result == Some(Ok::<String, WsClientErrorView>(challenge)),
        challenge_wait(conn, inbounds).read == n + 1,
        challenge_wait(conn, inbounds).after.buffer == conn.buffer + relay_messages(
            inbounds.take(n),
        ),
{
    let step = |c: ConnectionView, i: Inbound| challenge_step(c, i);
    assert forall|c: ConnectionView, k: int| 0 <= k < n implies !((#[trigger] step(
        c,
        inbounds[k],
    )).1 is Done) by {
        if !is_idle_frame(inbounds[k]) {
            assert(inbounds[k] is Received);
        }
    }
    lemma_run_ends_at(step, conn, inbounds, n, Ok(challenge));
    law_challenge_wait_preserves_messages(conn, inbounds);
    lemma_first_index(
        conn.buffer,
        |m: RelayMessage| m is Auth,
        conn.buffer.len() as int,
    );
}

/// What is sent names the event that it carries: the id whose answer is awaited is
/// the event's, and the text is the message about it.
pub proof fn law_outgoing_names_its_event(outgoing: Outgoing, label: Seq<char>, event: Event)
    ensures
        outgoing.carries(label, event) <==> outgoing.event_id@ == encode_hex(event.id@)
            && outgoing.text@ == client_message(label, event),
{
}

/// The payload of a ping has 16 bytes, and each is the byte of the time that it
/// stands for, the highest first.
pub proof fn law_ping_payload_is_the_time(nanos: u128, i: int)
    requires
        0 <= i < 16,
    ensures
        big_endian(nanos as nat, 16).len() == 16,
        big_endian(nanos as nat, 16)[i] == (nanos as int / pow(256, (15 - i) as nat)) % 256,
{
    lemma_big_endian_bytes(nanos as nat, 16, i);
}

proof fn lemma_big_endian_bytes(n: nat, len: nat, i: int)
    requires
        0 <= i < len,
    ensures
        big_endian(n, len).len() == len,
        big_endian(n, len)[i] == (n as int / pow(256, (len - 1 - i) as nat)) % 256,
    decreases len,
{
    if len == 1 {
        assert(big_endian(n / 256, 0) =~= seq![]);
        reveal(pow);
        assert(pow(256, 0) == 1);
    } else if i == len - 1 {
        lemma_big_endian_bytes(n / 256, (len - 1) as nat, 0);
        reveal(pow);
        assert(pow(256, 0) == 1);
    } else {
        lemma_big_endian_bytes(n / 256, (len - 1) as nat, i);
        let e = (len - 2 - i) as nat;
        assert(pow(256, e + 1) == 256 * pow(256, e)) by {
            reveal(pow);
        }
        vstd::arithmetic::power::lemma_pow_positive(256, e);
        vstd::arithmetic::div_mod::lemma_div_denominator(n as int, 256, pow(256, e));
    }
}

/// How long a client waits: 20 seconds for a challenge, 20 for the answer to its
/// authentication, and 30 for the answer to an event.
pub proof fn law_timeouts()
    ensures
        AUTH_CHALLENGE_TIMEOUT_SECS == 20,
        AUTH_OK_TIMEOUT_SECS == 20,
        PUBLISH_OK_TIMEOUT_SECS == 30,
{
}

/// A step reads as what it is: the end with its value or its error, a pong with
/// its payload, or a wait.
pub proof fn law_step_reads_as_it_is<T>(step: Step<T>)
    ensures
        step matches Step::Done(Ok(value)) ==> step@ == StepView::Done(
            Ok::<T, WsClientErrorView>(value),
        ),
        step matches Step::Done(Err(error)) ==> step@ == StepView::Done(
            Err::<T, WsClientErrorView>(error@),
        ),
        step matches Step::SendPong(payload) ==> step@ == StepView::<T>::SendPong(payload@),
        step is Wait <==> step@ is Wait,
{
}

} // verus!
