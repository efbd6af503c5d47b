//! Messages between a client and a Nostr relay.

use crate::event::can_sign;
use crate::event::is_signed;
use crate::event::no_empty_tag;
use crate::event::Event;
use crate::event::EventDraft;
use crate::event::EventDraftView;
use crate::text::copy_strings;
use crate::text::decimal_text;
use crate::text::encode_hex;
use crate::text::json_string;
use crate::text::law_decimal_prefix;
use crate::text::law_hex_round_trip;
use crate::text::law_json_string_prefix;
use crate::text::lemma_regroup;
use crate::text::lemma_same_prefix;
use vstd::prelude::*;

verus! {

/// The event kind by which a client authenticates to a relay (NIP-42).
pub const KIND_CLIENT_AUTHENTICATION: u16 = 22242;

/// A relay's answer to an event that was sent to it.
#[derive(Debug, Clone, PartialEq, Eq)]
pub struct OkResponse {
    /// The event that is answered, in hexadecimal.
    pub event_id: String,
    pub accepted: bool,
    pub message: String,
}

/// A message from a relay.
#[derive(Debug, Clone, PartialEq, Eq)]
pub enum RelayMessage {
    Event { subscription_id: String, event: Box<Event> },
    /// The `OK` message.
    OkReply(OkResponse),
    Eose { subscription_id: String },
    Closed { subscription_id: String, message: String },
    Notice { message: String },
    Auth { challenge: String },
}

/// What can go wrong on a relay connection.
#[derive(Debug, Clone, PartialEq, Eq)]
pub enum WsClientError {
    /// The relay's address is no URL.
    Url(String),
    /// The WebSocket failed.
    WebSocket(String),
    /// A message could not be written or read.
    Json(String),
    /// An event could not be signed.
    Sign,
    Timeout,
    ConnectionClosed,
    NoAuthChallenge,
    AuthFailed(String),
}

/// What a [`WsClientError`] holds.
pub enum WsClientErrorView {
    Url(Seq<char>),
    WebSocket(Seq<char>),
    Json(Seq<char>),
    Sign,
    Timeout,
    ConnectionClosed,
    NoAuthChallenge,
    AuthFailed(Seq<char>),
}

impl View for WsClientError {
    type V = WsClientErrorView;

    open spec fn view(&self) -> WsClientErrorView {
        match self {
            WsClientError::Url(m) => WsClientErrorView::Url(m@),
            WsClientError::WebSocket(m) => WsClientErrorView::WebSocket(m@),
            WsClientError::Json(m) => WsClientErrorView::Json(m@),
            WsClientError::Sign => WsClientErrorView::Sign,
            WsClientError::Timeout => WsClientErrorView::Timeout,
            WsClientError::ConnectionClosed => WsClientErrorView::ConnectionClosed,
            WsClientError::NoAuthChallenge => WsClientErrorView::NoAuthChallenge,
            WsClientError::AuthFailed(m) => WsClientErrorView::AuthFailed(m@),
        }
    }
}

/// `items` with commas between them.
pub open spec fn comma_separated(items: Seq<Seq<char>>) -> Seq<char>
    decreases items.len(),
{
    if items.len() == 0 {
        seq![]
    } else if items.len() == 1 {
        items[0]
    } else {
        comma_separated(items.drop_last()) + ","@ + items.last()
    }
}

/// The JSON array of values that are already written.
pub open spec fn json_array(items: Seq<Seq<char>>) -> Seq<char> {
    "["@ + comma_separated(items) + "]"@
}

/// The JSON array of the strings of a tag.
pub open spec fn tag_json(tag: Seq<Seq<char>>) -> Seq<char> {
    json_array(tag.map_values(|part: Seq<char>| json_string(part)))
}

/// The JSON array of `tags`.
pub open spec fn tags_json(tags: Seq<Seq<Seq<char>>>) -> Seq<char> {
    json_array(tags.map_values(|tag: Seq<Seq<char>>| tag_json(tag)))
}

/// The JSON object of an event, its members in alphabetical order.
pub open spec fn event_json(event: Event) -> Seq<char> {
    "{\"content\":"@ + json_string(event.content@) + ",\"created_at\":"@ + decimal_text(
        event.created_at as nat,
    ) + ",\"id\":"@ + json_string(encode_hex(event.id@)) + ",\"kind\":"@ + decimal_text(
        event.kind as nat,
    ) + ",\"pubkey\":"@ + json_string(encode_hex(event.pubkey@)) + ",\"sig\":"@ + json_string(
        encode_hex(event.sig@),
    ) + ",\"tags\":"@ + tags_json(event.tags.deep_view()) + "}"@
}

/// The message `label` about an event.
pub open spec fn client_message(label: Seq<char>, event: Event) -> Seq<char> {
    json_array(seq![json_string(label), event_json(event)])
}

/// Writes the message `label` about an event by `serde_json::to_value` and
/// `serde_json::to_string`, with the JSON form that `nostr::Event` has.
///
/// That form is an object, which a `serde_json` value keeps in the order of its
/// members' names. An event with an empty tag is none that `nostr` can hold, and
/// nothing else fails.
#[verifier::external_body]
fn message_text(label: &str, event: &Event) -> (r: Option<String>)
    ensures
        r is Some <==> no_empty_tag(event.tags.deep_view()),
        r is Some ==> r->0@ == client_message(label@, *event),
{
    let id = nostr::EventId::from_byte_array(event.id.bytes);
    let pubkey = nostr::PublicKey::from_byte_array(event.pubkey);
    let time = nostr::Timestamp::from_secs(event.created_at);
    let kind = nostr::Kind::from(event.kind);
    let tags = nostr::event::Tags::parse(event.tags.clone()).ok()?;
    let sig = nostr::secp256k1::schnorr::Signature::from_slice(&event.sig).ok()?;
    let event = nostr::Event::new(id, pubkey, time, kind, tags, event.content.clone(), sig);
    let message = serde_json::to_value((label, event)).ok()?;
    serde_json::to_string(&message).ok()
}

/// Writes the message `label` about an event; an event with an empty tag has no
/// written form.
pub fn write_client_message(label: &str, event: &Event) -> (r: Result<String, WsClientError>)
    ensures
        match r {
            Ok(text) => no_empty_tag(event.tags.deep_view()) && text@ == client_message(
                label@,
                *event,
            ),
            Err(error) => !no_empty_tag(event.tags.deep_view()) && error@
                == WsClientErrorView::Json("event has an empty tag"@),
        },
{
    match message_text(label, event) {
        Some(text) => Ok(text),
        None => Err(WsClientError::Json("event has an empty tag".to_owned())),
    }
}

/// What an optional tag holds.
pub open spec fn tag_view(tag: Option<Vec<String>>) -> Option<Seq<Seq<char>>> {
    match tag {
        Some(parts) => Some(parts.deep_view()),
        None => None,
    }
}

/// `tags` with `extra` behind them, where there is one.
pub open spec fn with_tag(
    tags: Seq<Seq<Seq<char>>>,
    extra: Option<Seq<Seq<char>>>,
) -> Seq<Seq<Seq<char>>> {
    match extra {
        Some(tag) => tags.push(tag),
        None => tags,
    }
}

/// The unsigned event that answers `challenge` of the relay at `relay_url`.
pub open spec fn auth_draft(
    challenge: Seq<char>,
    relay_url: Seq<char>,
    auth_tag: Option<Seq<Seq<char>>>,
) -> EventDraftView {
    EventDraftView {
        kind: KIND_CLIENT_AUTHENTICATION,
        tags: with_tag(
            seq![seq!["relay"@, relay_url], seq!["challenge"@, challenge]],
            auth_tag,
        ),
        content: ""@,
    }
}

/// Builds and signs the event that answers `challenge` of the relay at
/// `relay_url`.
///
/// Pass `auth_tag` to include a NIP-OA authorization tag.
pub fn build_auth_event(
    challenge: &str,
    relay_url: &str,
    secret_key: &[u8; 32],
    auth_tag: &Option<Vec<String>>,
) -> (r: Result<Event, WsClientError>)
    ensures
        match r {
            Ok(event) => can_sign(
                auth_draft(challenge@, relay_url@, tag_view(*auth_tag)),
                secret_key@,
            ) && is_signed(
                auth_draft(challenge@, relay_url@, tag_view(*auth_tag)),
                secret_key@,
                event,
            ),
            Err(error) => error == WsClientError::Sign && !can_sign(
                auth_draft(challenge@, relay_url@, tag_view(*auth_tag)),
                secret_key@,
            ),
        },
{
    let mut relay_tag: Vec<String> = Vec::new();
    relay_tag.push("relay".to_owned());
    relay_tag.push(relay_url.to_owned());
    let mut challenge_tag: Vec<String> = Vec::new();
    challenge_tag.push("challenge".to_owned());
    challenge_tag.push(challenge.to_owned());
    let mut tags: Vec<Vec<String>> = Vec::new();
    assert(relay_tag.deep_view() =~= seq!["relay"@, relay_url@]);
    assert(challenge_tag.deep_view() =~= seq!["challenge"@, challenge@]);
    tags.push(relay_tag);
    tags.push(challenge_tag);
    let ghost standard = seq![seq!["relay"@, relay_url@], seq!["challenge"@, challenge@]];
    assert(tags.deep_view() =~= standard);
    match auth_tag {
        Some(tag) => {
            let copy = copy_strings(tag);
            tags.push(copy);
            assert(tags.deep_view() =~= standard.push(copy.deep_view()));
        },
        None => {},
    }
    let draft = EventDraft { kind: KIND_CLIENT_AUTHENTICATION, tags, content: "".to_owned() };
    match draft.sign(secret_key) {
        Some(event) => Ok(event),
        None => Err(WsClientError::Sign),
    }
}

/// Whether what `write` writes tells where it ends and what was written, and
/// does not begin as the end of an array does.
spec fn is_self_delimiting<A>(write: spec_fn(A) -> Seq<char>) -> bool {
    &&& forall|a: A, x: Seq<char>, b: A, y: Seq<char>| #[trigger]
        (write(a) + x) == #[trigger] (write(b) + y) ==> a == b && x == y
    &&& forall|a: A| (#[trigger] write(a)).len() > 0 && write(a)[0] != ']'
}

/// What stands in an array behind an item: the others, and the bracket.
spec fn array_tail<A>(write: spec_fn(A) -> Seq<char>, items: Seq<A>) -> Seq<char>
    decreases items.len(),
{
    if items.len() == 0 {
        "]"@
    } else {
        ","@ + (write(items[0]) + array_tail(write, items.drop_first()))
    }
}

/// Writing one more item puts a comma in front of it, unless it is the first.
pub proof fn lemma_comma_separated_append(items: Seq<Seq<char>>, item: Seq<char>)
    ensures
        comma_separated(items.push(item)) == if items.len() == 0 {
            item
        } else {
            comma_separated(items) + ","@ + item
        },
{
    assert(items.push(item).drop_last() =~= items);
}

proof fn lemma_array_from_front<A>(write: spec_fn(A) -> Seq<char>, items: Seq<A>)
    ensures
        json_array(items.map_values(write)) == "["@ + (if items.len() == 0 {
            "]"@
        } else {
            write(items[0]) + array_tail(write, items.drop_first())
        }),
{
    let written = items.map_values(write);
    if items.len() == 0 {
        assert(json_array(written) =~= "["@ + "]"@);
    } else {
        let rest = items.drop_first();
        lemma_array_tail_written(write, seq![write(items[0])], rest);
        assert(seq![write(items[0])] + rest.map_values(write) =~= written);
        assert(comma_separated(seq![write(items[0])]) == write(items[0]));
        assert(json_array(written) =~= "["@ + (write(items[0]) + array_tail(write, rest)));
    }
}

proof fn lemma_array_tail_written<A>(
    write: spec_fn(A) -> Seq<char>,
    front: Seq<Seq<char>>,
    items: Seq<A>,
)
    requires
        front.len() > 0,
    ensures
        comma_separated(front + items.map_values(write)) + "]"@ == comma_separated(front)
            + array_tail(write, items),
    decreases items.len(),
{
    if items.len() == 0 {
        assert(front + items.map_values(write) =~= front);
    } else {
        let rest = items.drop_first();
        let longer = front.push(write(items[0]));
        lemma_array_tail_written(write, longer, rest);
        assert(front + items.map_values(write) =~= longer + rest.map_values(write));
        lemma_comma_separated_append(front, write(items[0]));
        assert(comma_separated(longer) + array_tail(write, rest) =~= comma_separated(front)
            + array_tail(write, items));
    }
}

proof fn lemma_array_tail_prefix<A>(
    write: spec_fn(A) -> Seq<char>,
    a: Seq<A>,
    x: Seq<char>,
    b: Seq<A>,
    y: Seq<char>,
)
    requires
        is_self_delimiting(write),
        array_tail(write, a) + x == array_tail(write, b) + y,
    ensures
        a == b,
        x == y,
    decreases a.len(),
{
    reveal_strlit("]");
    reveal_strlit(",");
    let left = array_tail(write, a) + x;
    let right = array_tail(write, b) + y;
    assert(left[0] == if a.len() == 0 {
        ']'
    } else {
        ','
    });
    assert(right[0] == if b.len() == 0 {
        ']'
    } else {
        ','
    });
    if a.len() == 0 {
        assert(a =~= b);
        lemma_same_prefix("]"@, x, y);
    } else {
        let a1 = a.drop_first();
        let b1 = b.drop_first();
        let after_a = array_tail(write, a1) + x;
        let after_b = array_tail(write, b1) + y;
        assert(left =~= ","@ + (write(a[0]) + after_a));
        assert(right =~= ","@ + (write(b[0]) + after_b));
        lemma_same_prefix(","@, write(a[0]) + after_a, write(b[0]) + after_b);
        lemma_array_tail_prefix(write, a1, x, b1, y);
        assert(a =~= seq![a[0]] + a1);
        assert(b =~= seq![b[0]] + b1);
    }
}

proof fn lemma_array_prefix<A>(
    write: spec_fn(A) -> Seq<char>,
    a: Seq<A>,
    x: Seq<char>,
    b: Seq<A>,
    y: Seq<char>,
)
    requires
        is_self_delimiting(write),
        json_array(a.map_values(write)) + x == json_array(b.map_values(write)) + y,
    ensures
        a == b,
        x == y,
{
    reveal_strlit("]");
    lemma_array_from_front(write, a);
    lemma_array_from_front(write, b);
    let inner_a = if a.len() == 0 {
        "]"@
    } else {
        write(a[0]) + array_tail(write, a.drop_first())
    };
    let inner_b = if b.len() == 0 {
        "]"@
    } else {
        write(b[0]) + array_tail(write, b.drop_first())
    };
    assert(json_array(a.map_values(write)) + x =~= "["@ + (inner_a + x));
    assert(json_array(b.map_values(write)) + y =~= "["@ + (inner_b + y));
    lemma_same_prefix("["@, inner_a + x, inner_b + y);
    assert((inner_a + x)[0] == inner_a[0]);
    assert((inner_b + y)[0] == inner_b[0]);
    if a.len() == 0 || b.len() == 0 {
        if a.len() > 0 {
            assert(inner_a[0] == write(a[0])[0]);
        }
        if b.len() > 0 {
            assert(inner_b[0] == write(b[0])[0]);
        }
        assert(a =~= b);
        lemma_same_prefix("]"@, x, y);
    } else {
        let after_a = array_tail(write, a.drop_first()) + x;
        let after_b = array_tail(write, b.drop_first()) + y;
        assert(inner_a + x =~= write(a[0]) + after_a);
        assert(inner_b + y =~= write(b[0]) + after_b);
        lemma_array_tail_prefix(write, a.drop_first(), x, b.drop_first(), y);
        assert(a =~= seq![a[0]] + a.drop_first());
        assert(b =~= seq![b[0]] + b.drop_first());
    }
}

proof fn lemma_strings_self_delimiting()
    ensures
        is_self_delimiting(|part: Seq<char>| json_string(part)),
{
    let write = |part: Seq<char>| json_string(part);
    assert forall|a: Seq<char>, x: Seq<char>, b: Seq<char>, y: Seq<char>| #[trigger]
        (write(a) + x) == #[trigger] (write(b) + y) implies a == b && x == y by {
        law_json_string_prefix(a, x, b, y);
    }
    assert forall|a: Seq<char>| (#[trigger] write(a)).len() > 0 && write(a)[0] != ']' by {
        assert(json_string(a)[0] == '"');
    }
}

proof fn lemma_tags_self_delimiting()
    ensures
        is_self_delimiting(|tag: Seq<Seq<char>>| tag_json(tag)),
{
    let write = |tag: Seq<Seq<char>>| tag_json(tag);
    let part = |part: Seq<char>| json_string(part);
    lemma_strings_self_delimiting();
    assert forall|a: Seq<Seq<char>>, x: Seq<char>, b: Seq<Seq<char>>, y: Seq<char>| #[trigger]
        (write(a) + x) == #[trigger] (write(b) + y) implies a == b && x == y by {
        lemma_array_prefix(part, a, x, b, y);
    }
    reveal_strlit("[");
    assert forall|a: Seq<Seq<char>>| (#[trigger] write(a)).len() > 0 && write(a)[0] != ']' by {
        assert(tag_json(a)[0] == '[');
    }
}

proof fn lemma_hex_injective(a: Seq<u8>, b: Seq<u8>)
    requires
        encode_hex(a) == encode_hex(b),
    ensures
        a == b,
{
    law_hex_round_trip(a);
    law_hex_round_trip(b);
}

/// Whether two events hold the same.
pub open spec fn same_event(a: Event, b: Event) -> bool {
    &&& a.id@ == b.id@
    &&& a.pubkey@ == b.pubkey@
    &&& a.created_at == b.created_at
    &&& a.kind == b.kind
    &&& a.tags.deep_view() == b.tags.deep_view()
    &&& a.content@ == b.content@
    &&& a.sig@ == b.sig@
}

spec fn json_from_tags(event: Event) -> Seq<char> {
    ",\"tags\":"@ + (tags_json(event.tags.deep_view()) + "}"@)
}

spec fn json_from_sig(event: Event) -> Seq<char> {
    ",\"sig\":"@ + (json_string(encode_hex(event.sig@)) + json_from_tags(event))
}

spec fn json_from_pubkey(event: Event) -> Seq<char> {
    ",\"pubkey\":"@ + (json_string(encode_hex(event.pubkey@)) + json_from_sig(event))
}

spec fn json_from_kind(event: Event) -> Seq<char> {
    ",\"kind\":"@ + (decimal_text(event.kind as nat) + json_from_pubkey(event))
}

spec fn json_from_id(event: Event) -> Seq<char> {
    ",\"id\":"@ + (json_string(encode_hex(event.id@)) + json_from_kind(event))
}

spec fn json_from_time(event: Event) -> Seq<char> {
    ",\"created_at\":"@ + (decimal_text(event.created_at as nat) + json_from_id(event))
}

proof fn lemma_event_json_parts(event: Event)
    ensures
        event_json(event) == "{\"content\":"@ + (json_string(event.content@) + json_from_time(event)),
        json_from_id(event).len() > 0 && json_from_id(event)[0] == ',',
        json_from_pubkey(event).len() > 0 && json_from_pubkey(event)[0] == ',',
{
    reveal_strlit(",\"id\":");
    reveal_strlit(",\"pubkey\":");
    let upto_content = "{\"content\":"@ + json_string(event.content@);
    let upto_time = upto_content + ",\"created_at\":"@ + decimal_text(event.created_at as nat);
    let upto_id = upto_time + ",\"id\":"@ + json_string(encode_hex(event.id@));
    let upto_kind = upto_id + ",\"kind\":"@ + decimal_text(event.kind as nat);
    let upto_pubkey = upto_kind + ",\"pubkey\":"@ + json_string(encode_hex(event.pubkey@));
    let upto_sig = upto_pubkey + ",\"sig\":"@ + json_string(encode_hex(event.sig@));
    lemma_regroup(upto_sig, ",\"tags\":"@, tags_json(event.tags.deep_view()), "}"@);
    lemma_regroup(
        upto_pubkey,
        ",\"sig\":"@,
        json_string(encode_hex(event.sig@)),
        json_from_tags(event),
    );
    lemma_regroup(
        upto_kind,
        ",\"pubkey\":"@,
        json_string(encode_hex(event.pubkey@)),
        json_from_sig(event),
    );
    lemma_regroup(
        upto_id,
        ",\"kind\":"@,
        decimal_text(event.kind as nat),
        json_from_pubkey(event),
    );
    lemma_regroup(
        upto_time,
        ",\"id\":"@,
        json_string(encode_hex(event.id@)),
        json_from_kind(event),
    );
    lemma_regroup(
        upto_content,
        ",\"created_at\":"@,
        decimal_text(event.created_at as nat),
        json_from_id(event),
    );
    lemma_regroup(
        seq![],
        "{\"content\":"@,
        json_string(event.content@),
        json_from_time(event),
    );
    assert(seq![] + "{\"content\":"@ =~= "{\"content\":"@);
    let content = "{\"content\":"@ + (json_string(event.content@) + json_from_time(event));
    assert(seq![] + content =~= content);
}

/// The JSON object of an event determines what the event holds.
pub proof fn law_event_json_determines_event(a: Event, b: Event)
    requires
        event_json(a) == event_json(b),
    ensures
        same_event(a, b),
{
    lemma_event_json_parts(a);
    lemma_event_json_parts(b);
    lemma_same_prefix(
        "{\"content\":"@,
        json_string(a.content@) + json_from_time(a),
        json_string(b.content@) + json_from_time(b),
    );
    law_json_string_prefix(a.content@, json_from_time(a), b.content@, json_from_time(b));
    lemma_same_prefix(
        ",\"created_at\":"@,
        decimal_text(a.created_at as nat) + json_from_id(a),
        decimal_text(b.created_at as nat) + json_from_id(b),
    );
    law_decimal_prefix(
        a.created_at as nat,
        json_from_id(a),
        b.created_at as nat,
        json_from_id(b),
    );
    let id_a = encode_hex(a.id@);
    let id_b = encode_hex(b.id@);
    lemma_same_prefix(
        ",\"id\":"@,
        json_string(id_a) + json_from_kind(a),
        json_string(id_b) + json_from_kind(b),
    );
    law_json_string_prefix(id_a, json_from_kind(a), id_b, json_from_kind(b));
    lemma_hex_injective(a.id@, b.id@);
    lemma_same_prefix(
        ",\"kind\":"@,
        decimal_text(a.kind as nat) + json_from_pubkey(a),
        decimal_text(b.kind as nat) + json_from_pubkey(b),
    );
    law_decimal_prefix(a.kind as nat, json_from_pubkey(a), b.kind as nat, json_from_pubkey(b));
    let pubkey_a = encode_hex(a.pubkey@);
    let pubkey_b = encode_hex(b.pubkey@);
    lemma_same_prefix(
        ",\"pubkey\":"@,
        json_string(pubkey_a) + json_from_sig(a),
        json_string(pubkey_b) + json_from_sig(b),
    );
    law_json_string_prefix(pubkey_a, json_from_sig(a), pubkey_b, json_from_sig(b));
    lemma_hex_injective(a.pubkey@, b.pubkey@);
    let sig_a = encode_hex(a.sig@);
    let sig_b = encode_hex(b.sig@);
    lemma_same_prefix(
        ",\"sig\":"@,
        json_string(sig_a) + json_from_tags(a),
        json_string(sig_b) + json_from_tags(b),
    );
    law_json_string_prefix(sig_a, json_from_tags(a), sig_b, json_from_tags(b));
    lemma_hex_injective(a.sig@, b.sig@);
    lemma_same_prefix(
        ",\"tags\":"@,
        tags_json(a.tags.deep_view()) + "}"@,
        tags_json(b.tags.deep_view()) + "}"@,
    );
    lemma_tags_self_delimiting();
    lemma_array_prefix(
        |tag: Seq<Seq<char>>| tag_json(tag),
        a.tags.deep_view(),
        "}"@,
        b.tags.deep_view(),
        "}"@,
    );
}

/// A message about an event determines its label and what the event holds.
pub proof fn law_client_message_determines_event(
    label_a: Seq<char>,
    a: Event,
    label_b: Seq<char>,
    b: Event,
)
    requires
        client_message(label_a, a) == client_message(label_b, b),
    ensures
        label_a == label_b,
        same_event(a, b),
{
    let rest_a = ","@ + event_json(a) + "]"@;
    let rest_b = ","@ + event_json(b) + "]"@;
    lemma_client_message_parts(label_a, a);
    lemma_client_message_parts(label_b, b);
    lemma_same_prefix("["@, json_string(label_a) + rest_a, json_string(label_b) + rest_b);
    law_json_string_prefix(label_a, rest_a, label_b, rest_b);
    assert(rest_a =~= ","@ + (event_json(a) + "]"@));
    assert(rest_b =~= ","@ + (event_json(b) + "]"@));
    lemma_same_prefix(","@, event_json(a) + "]"@, event_json(b) + "]"@);
    let whole = event_json(a) + "]"@;
    reveal_strlit("]");
    assert(event_json(a) =~= whole.drop_last());
    assert(event_json(b) =~= whole.drop_last());
    law_event_json_determines_event(a, b);
}

proof fn lemma_client_message_parts(label: Seq<char>, event: Event)
    ensures
        client_message(label, event) == "["@ + (json_string(label) + (","@ + event_json(event)
            + "]"@)),
{
    let items = seq![json_string(label), event_json(event)];
    assert(items.drop_last() =~= seq![json_string(label)]);
    assert(comma_separated(items.drop_last()) == json_string(label));
    assert(client_message(label, event) =~= "["@ + (json_string(label) + (","@ + event_json(event)
        + "]"@)));
}

/// The event that answers a challenge is of the authentication kind, names the
/// relay and then the challenge, carries the authorization tag last, if there is
/// one, and has no content.
pub proof fn law_auth_event_answers_the_challenge(
    challenge: Seq<char>,
    relay_url: Seq<char>,
    auth_tag: Option<Seq<Seq<char>>>,
)
    ensures
        ({
            let draft = auth_draft(challenge, relay_url, auth_tag);
            &&& draft.kind == 22242
            &&& draft.content.len() == 0
            &&& draft.tags[0] == seq!["relay"@, relay_url]
            &&& draft.tags[1] == seq!["challenge"@, challenge]
            &&& auth_tag is None ==> draft.tags.len() == 2
            &&& auth_tag matches Some(tag) ==> draft.tags.len() == 3 && draft.tags[2] == tag
        }),
{
    reveal_strlit("");
}

/// An optional tag is read as its strings, and one that is added stands behind the
/// others, which stay as they are.
pub proof fn law_optional_tag_is_added_last(
    parts: Vec<String>,
    tags: Seq<Seq<Seq<char>>>,
    tag: Seq<Seq<char>>,
)
    ensures
        tag_view(None) is None,
        tag_view(Some(parts)) == Some(parts.deep_view()),
        with_tag(tags, None) == tags,
        with_tag(tags, Some(tag)) == tags.push(tag),
{
}

/// Errors that read the same are the same error, and say the same.
pub proof fn law_errors_are_told_apart(a: WsClientError, b: WsClientError)
    requires
        a@ == b@,
    ensures
        a is Sign <==> b is Sign,
        a is Timeout <==> b is Timeout,
        a is ConnectionClosed <==> b is ConnectionClosed,
        a is NoAuthChallenge <==> b is NoAuthChallenge,
        a matches WsClientError::Url(m) ==> b is Url && b->Url_0@ == m@,
        a matches WsClientError::WebSocket(m) ==> b is WebSocket && b->WebSocket_0@ == m@,
        a matches WsClientError::Json(m) ==> b is Json && b->Json_0@ == m@,
        a matches WsClientError::AuthFailed(m) ==> b is AuthFailed && b->AuthFailed_0@ == m@,
{
}

} // verus!
