//! Nostr events as plain values, and their signing.

use crate::ids::EventId;
use crate::text::encode_hex;
use vstd::prelude::*;

verus! {

/// An event that nobody has signed yet.
#[derive(Debug, Clone, PartialEq, Eq)]
pub struct EventDraft {
    pub kind: u16,
    pub tags: Vec<Vec<String>>,
    pub content: String,
}

/// What an [`EventDraft`] holds.
pub struct EventDraftView {
    pub kind: u16,
    pub tags: Seq<Seq<Seq<char>>>,
    pub content: Seq<char>,
}

impl View for EventDraft {
    type V = EventDraftView;

    open spec fn view(&self) -> EventDraftView {
        EventDraftView {
            kind: self.kind,
            tags: self.tags.deep_view(),
            content: self.content@,
        }
    }
}

/// A signed event.
#[derive(Debug, Clone, PartialEq, Eq)]
pub struct Event {
    pub id: EventId,
    /// The author's public key.
    pub pubkey: [u8; 32],
    /// Unix time in seconds.
    pub created_at: u64,
    pub kind: u16,
    pub tags: Vec<Vec<String>>,
    pub content: String,
    pub sig: [u8; 64],
}

/// Whether `tag` is a `p` tag that names `pubkey`.
pub open spec fn mentions(tag: Seq<Seq<char>>, pubkey: Seq<u8>) -> bool {
    tag.len() > 1 && tag[0] == "p"@ && tag[1] == encode_hex(pubkey)
}

/// The tags that an event of the author `pubkey` keeps: all but the mentions
/// of the author.
pub open spec fn kept_tags(tags: Seq<Seq<Seq<char>>>, pubkey: Seq<u8>) -> Seq<Seq<Seq<char>>> {
    tags.filter(|tag: Seq<Seq<char>>| !mentions(tag, pubkey))
}

/// The public key of a secret key, `None` if it is no secret key, as
/// `nostr::Keys` derives it.
pub uninterp spec fn public_key_of(secret_key: Seq<u8>) -> Option<Seq<u8>>;

/// The id of an event, as `nostr::EventId::new` hashes it.
pub uninterp spec fn event_hash(
    pubkey: Seq<u8>,
    created_at: u64,
    kind: u16,
    tags: Seq<Seq<Seq<char>>>,
    content: Seq<char>,
) -> Seq<u8>;

/// Whether `sig` is a signature of the event `id` under `pubkey`, as
/// `nostr::Event::verify` finds.
pub uninterp spec fn signature_holds(pubkey: Seq<u8>, id: Seq<u8>, sig: Seq<u8>) -> bool;

/// Whether no tag is empty.
pub open spec fn no_empty_tag(tags: Seq<Seq<Seq<char>>>) -> bool {
    forall|i: int| 0 <= i < tags.len() ==> (#[trigger] tags[i]).len() > 0
}

/// Whether `event` has the id that its contents hash to, and a signature of it by
/// its author.
pub open spec fn is_genuine(event: Event) -> bool {
    &&& no_empty_tag(event.tags.deep_view())
    &&& event.id@ == event_hash(
        event.pubkey@,
        event.created_at,
        event.kind,
        event.tags.deep_view(),
        event.content@,
    )
    &&& signature_holds(event.pubkey@, event.id@, event.sig@)
}

/// Whether `event` is `draft` signed with `secret_key`, whenever that was done.
pub open spec fn is_signed(draft: EventDraftView, secret_key: Seq<u8>, event: Event) -> bool {
    &&& public_key_of(secret_key) == Some(event.pubkey@)
    &&& event.kind == draft.kind
    &&& event.content@ == draft.content
    &&& event.tags.deep_view() == kept_tags(draft.tags, event.pubkey@)
    &&& event.id@ == event_hash(
        event.pubkey@,
        event.created_at,
        event.kind,
        event.tags.deep_view(),
        event.content@,
    )
    &&& signature_holds(event.pubkey@, event.id@, event.sig@)
}

/// Whether `draft` can be signed with `secret_key`: the key is one, and no tag
/// is empty.
pub open spec fn can_sign(draft: EventDraftView, secret_key: Seq<u8>) -> bool {
    &&& public_key_of(secret_key) is Some
    &&& no_empty_tag(draft.tags)
}

/// Checks a tag by `nostr::Tag::parse`, which takes every list of strings but
/// the empty one, and takes it as it stands.
#[verifier::external_body]
pub(crate) fn parse_tag(parts: Vec<String>) -> (r: Result<Vec<String>, String>)
    ensures
        r is Ok <==> parts@.len() > 0,
        r is Ok ==> r->Ok_0.deep_view() == parts.deep_view(),
        r is Err ==> r->Err_0@ == "Empty tag"@,
{
    nostr::Tag::parse(parts).map(|tag| tag.to_vec()).map_err(|error| error.to_string())
}

/// Signs a draft by `nostr::EventBuilder::sign_with_keys`.
///
/// It stamps the event with the clock, drops the `p` tags that name the author,
/// hashes what is left into the id, and signs that. It fails on a secret key that
/// is none and on an empty tag, and on nothing else. Which time it stamps is left
/// unsaid, and so is which of the signatures that hold it draws at random.
#[verifier::external_body]
fn sign_with_keys(draft: &EventDraft, secret_key: &[u8; 32]) -> (r: Option<Event>)
    ensures
        r is Some <==> can_sign(draft@, secret_key@),
        r is Some ==> public_key_of(secret_key@) == Some(r->0.pubkey@),
        r is Some ==> r->0.kind == draft.kind,
        r is Some ==> r->0.content@ == draft.content@,
        r is Some ==> r->0.tags.deep_view() == kept_tags(draft.tags.deep_view(), r->0.pubkey@),
        r is Some ==> r->0.id@ == event_hash(
            r->0.pubkey@,
            r->0.created_at,
            r->0.kind,
            r->0.tags.deep_view(),
            r->0.content@,
        ),
        r is Some ==> signature_holds(r->0.pubkey@, r->0.id@, r->0.sig@),
{
    let keys = nostr::Keys::new(nostr::SecretKey::from_slice(secret_key).ok()?);
    let tags = nostr::event::Tags::parse(draft.tags.clone()).ok()?;
    let builder = nostr::EventBuilder::new(nostr::Kind::from(draft.kind), draft.content.clone());
    let event = builder.tags(tags).sign_with_keys(&keys).ok()?;
    Some(Event {
        id: EventId { bytes: event.id.to_bytes() },
        pubkey: event.pubkey.to_bytes(),
        created_at: event.created_at.as_secs(),
        kind: event.kind.as_u16(),
        tags: event.tags.iter().map(|tag| tag.as_slice().to_vec()).collect(),
        content: event.content,
        sig: event.sig.serialize(),
    })
}

/// Checks an event by `nostr::Event::verify`.
///
/// It succeeds if the contents hash to the id and the signature holds. An event
/// with an empty tag is none that `nostr` can hold.
#[verifier::external_body]
fn verify_event(event: &Event) -> (r: Option<()>)
    ensures
        r is Some == (no_empty_tag(event.tags.deep_view()) && event.id@ == event_hash(
            event.pubkey@,
            event.created_at,
            event.kind,
            event.tags.deep_view(),
            event.content@,
        ) && signature_holds(event.pubkey@, event.id@, event.sig@)),
{
    let id = nostr::EventId::from_byte_array(event.id.bytes);
    let pubkey = nostr::PublicKey::from_byte_array(event.pubkey);
    let time = nostr::Timestamp::from_secs(event.created_at);
    let kind = nostr::Kind::from(event.kind);
    let tags = nostr::event::Tags::parse(event.tags.clone()).ok()?;
    let sig = nostr::secp256k1::schnorr::Signature::from_slice(&event.sig).ok()?;
    nostr::Event::new(id, pubkey, time, kind, tags, event.content.clone(), sig).verify().ok()
}

impl Event {
    /// Whether the event has the id that its contents hash to, and a signature of
    /// it by its author.
    pub fn verify(&self) -> (r: bool)
        ensures
            r == is_genuine(*self),
    {
        verify_event(self).is_some()
    }
}

impl EventDraft {
    /// Signs the draft with `secret_key`; `None` if it cannot be signed.
    pub fn sign(&self, secret_key: &[u8; 32]) -> (r: Option<Event>)
        ensures
            r is Some <==> can_sign(self@, secret_key@),
            r matches Some(event) ==> is_signed(self@, secret_key@, event),
    {
        sign_with_keys(self, secret_key)
    }
}

/// An author whom no `p` tag mentions keeps every tag.
pub proof fn law_unmentioned_author_keeps_tags(tags: Seq<Seq<Seq<char>>>, pubkey: Seq<u8>)
    requires
        forall|i: int| 0 <= i < tags.len() ==> !mentions(#[trigger] tags[i], pubkey),
    ensures
        kept_tags(tags, pubkey) == tags,
    decreases tags.len(),
{
    reveal(Seq::filter);
    if tags.len() > 0 {
        let front = tags.drop_last();
        assert forall|i: int| 0 <= i < front.len() implies !mentions(
            #[trigger] front[i],
            pubkey,
        ) by {
            assert(front[i] == tags[i]);
        }
        law_unmentioned_author_keeps_tags(front, pubkey);
        assert(tags =~= front.push(tags.last()));
    } else {
        assert(kept_tags(tags, pubkey) =~= tags);
    }
}

/// What is signed verifies.
pub proof fn law_signed_event_is_genuine(draft: EventDraftView, secret_key: Seq<u8>, event: Event)
    requires
        can_sign(draft, secret_key),
        is_signed(draft, secret_key, event),
    ensures
        is_genuine(event),
{
    let keep = |tag: Seq<Seq<char>>| !mentions(tag, event.pubkey@);
    let kept = draft.tags.filter(keep);
    assert(event.tags.deep_view() == kept);
    assert forall|i: int| 0 <= i < kept.len() implies (#[trigger] kept[i]).len() > 0 by {
        assert(kept.contains(kept[i]));
        draft.tags.lemma_filter_contains_rev(keep, kept[i]);
        let j = choose|j: int| 0 <= j < draft.tags.len() && draft.tags[j] == kept[i];
        assert(draft.tags[j].len() > 0);
    }
}

/// A draft can be signed if and only if the key is one and none of its tags is
/// empty.
pub proof fn law_what_can_be_signed(draft: EventDraftView, secret_key: Seq<u8>)
    ensures
        can_sign(draft, secret_key) <==> public_key_of(secret_key) is Some && (forall|i: int|
            0 <= i < draft.tags.len() ==> (#[trigger] draft.tags[i]).len() > 0),
{
}

/// A signed event says what its draft says, in the name of the key that signed it.
pub proof fn law_signed_event_says_its_draft(
    draft: EventDraftView,
    secret_key: Seq<u8>,
    event: Event,
    tag: Seq<Seq<char>>,
)
    requires
        is_signed(draft, secret_key, event),
    ensures
        event.kind == draft.kind,
        event.content@ == draft.content,
        public_key_of(secret_key) == Some(event.pubkey@),
        event.tags.deep_view().contains(tag) <==> draft.tags.contains(tag) && !(tag.len() > 1
            && tag[0] == "p"@ && tag[1] == encode_hex(event.pubkey@)),
{
    let keep = |tag: Seq<Seq<char>>| !mentions(tag, event.pubkey@);
    let kept = draft.tags.filter(keep);
    assert(event.tags.deep_view() == kept);
    if kept.contains(tag) {
        draft.tags.lemma_filter_contains_rev(keep, tag);
        let i = choose|i: int| 0 <= i < kept.len() && kept[i] == tag;
        draft.tags.lemma_filter_pred(keep, i);
    }
    if draft.tags.contains(tag) && keep(tag) {
        let i = choose|i: int| 0 <= i < draft.tags.len() && draft.tags[i] == tag;
        draft.tags.lemma_filter_contains(keep, i);
    }
}

/// An event is genuine if and only if none of its tags is empty, its contents hash
/// to its id, and its signature of that id by its author holds.
pub proof fn law_what_is_genuine(event: Event)
    ensures
        is_genuine(event) <==> {
            &&& forall|i: int|
                0 <= i < event.tags.deep_view().len() ==> (
                #[trigger] event.tags.deep_view()[i]).len() > 0
            &&& event.id@ == event_hash(
                event.pubkey@,
                event.created_at,
                event.kind,
                event.tags.deep_view(),
                event.content@,
            )
            &&& signature_holds(event.pubkey@, event.id@, event.sig@)
        },
{
}

} // verus!
