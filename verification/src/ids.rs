//! Identifiers of channels and events, and their text forms.

use crate::text::decode_hex;
use crate::text::encode_hex;
use crate::text::law_hex_round_trip;
use vstd::prelude::*;

verus! {

/// The UUID of a channel.
#[derive(Debug, Clone, Copy, PartialEq, Eq)]
pub struct ChannelId {
    pub bytes: [u8; 16],
}

impl View for ChannelId {
    type V = Seq<u8>;

    open spec fn view(&self) -> Seq<u8> {
        self.bytes@
    }
}

/// The id of a Nostr event.
#[derive(Debug, Clone, Copy, PartialEq, Eq)]
pub struct EventId {
    pub bytes: [u8; 32],
}

impl View for EventId {
    type V = Seq<u8>;

    open spec fn view(&self) -> Seq<u8> {
        self.bytes@
    }
}

/// The hyphenated lower-case form of a UUID.
pub open spec fn uuid_text(bytes: Seq<u8>) -> Seq<char> {
    let h = encode_hex(bytes);
    h.subrange(0, 8) + seq!['-'] + h.subrange(8, 12) + seq!['-'] + h.subrange(12, 16) + seq!['-']
        + h.subrange(16, 20) + seq!['-'] + h.subrange(20, 32)
}

/// What a hyphenated UUID of either case spells.
pub open spec fn hyphenated_uuid(s: Seq<char>) -> Option<Seq<u8>> {
    if s[8] == '-' && s[13] == '-' && s[18] == '-' && s[23] == '-' {
        decode_hex(
            s.subrange(0, 8) + s.subrange(9, 13) + s.subrange(14, 18) + s.subrange(19, 23)
                + s.subrange(24, 36),
        )
    } else {
        None
    }
}

/// `c` with an ASCII capital made small.
pub open spec fn ascii_lower(c: char) -> char {
    if 'A' <= c && c <= 'Z' {
        (c as int + 32) as char
    } else {
        c
    }
}

/// The UUID that `s` spells: bare digits, hyphenated, hyphenated in braces, or
/// hyphenated as a URN.
pub open spec fn uuid_of(s: Seq<char>) -> Option<Seq<u8>> {
    if s.len() == 32 {
        decode_hex(s)
    } else if s.len() == 36 {
        hyphenated_uuid(s)
    } else if s.len() == 38 && s[0] == '{' && s[37] == '}' {
        hyphenated_uuid(s.subrange(1, 37))
    } else if s.len() == 45 && s.take(9).map_values(|c: char| ascii_lower(c)) == "urn:uuid:"@ {
        hyphenated_uuid(s.skip(9))
    } else {
        None
    }
}

/// The event id that `s` spells: its digits, of either case.
pub open spec fn event_id_of(s: Seq<char>) -> Option<Seq<u8>> {
    if s.len() == 64 {
        decode_hex(s)
    } else {
        None
    }
}

/// What `uuid::Uuid::parse_str` says of a text that is no UUID.
pub uninterp spec fn uuid_error_text(s: Seq<char>) -> Seq<char>;

/// What `nostr::EventId::from_hex` says of a text that is no event id.
pub uninterp spec fn event_id_error_text(s: Seq<char>) -> Seq<char>;

/// Reads a UUID by `uuid::Uuid::parse_str`.
///
/// It succeeds on the four spellings of `uuid_of` alone, with the bytes that
/// they spell; its error message depends on the text alone.
#[verifier::external_body]
fn read_uuid(s: &str) -> (r: Result<[u8; 16], String>)
    ensures
        r is Ok <==> uuid_of(s@) is Some,
        r is Ok ==> uuid_of(s@) == Some(r->Ok_0@),
        r is Err ==> r->Err_0@ == uuid_error_text(s@),
{
    uuid::Uuid::parse_str(s).map(|id| id.into_bytes()).map_err(|error| error.to_string())
}

/// Writes a UUID by the `Display` of `uuid::Uuid`, which is the hyphenated
/// lower-case form.
#[verifier::external_body]
fn write_uuid(bytes: &[u8; 16]) -> (r: String)
    ensures
        r@ == uuid_text(bytes@),
{
    uuid::Uuid::from_bytes(*bytes).to_string()
}

/// Reads an event id by `nostr::EventId::from_hex`.
///
/// It succeeds on exactly 64 hexadecimal digits of either case, with the bytes
/// that they spell; its error message depends on the text alone.
#[verifier::external_body]
fn read_event_id(s: &str) -> (r: Result<[u8; 32], String>)
    ensures
        r is Ok <==> event_id_of(s@) is Some,
        r is Ok ==> event_id_of(s@) == Some(r->Ok_0@),
        r is Err ==> r->Err_0@ == event_id_error_text(s@),
{
    nostr::EventId::from_hex(s).map(|id| id.to_bytes()).map_err(|error| error.to_string())
}

/// Writes an event id by `nostr::EventId::to_hex`, in lower-case digits.
#[verifier::external_body]
fn write_event_id(bytes: &[u8; 32]) -> (r: String)
    ensures
        r@ == encode_hex(bytes@),
{
    nostr::EventId::from_byte_array(*bytes).to_hex()
}

impl ChannelId {
    /// Reads a channel id; fails with the parser's message.
    pub fn parse_str(s: &str) -> (r: Result<ChannelId, String>)
        ensures
            match r {
                Ok(id) => uuid_of(s@) == Some(id@),
                Err(message) => uuid_of(s@) is None && message@ == uuid_error_text(s@),
            },
    {
        match read_uuid(s) {
            Ok(bytes) => Ok(ChannelId { bytes }),
            Err(message) => Err(message),
        }
    }

    /// The hyphenated lower-case text of the id.
    pub fn to_text(&self) -> (r: String)
        ensures
            r@ == uuid_text(self@),
    {
        write_uuid(&self.bytes)
    }
}

impl EventId {
    /// Reads an event id; fails with the parser's message.
    pub fn from_hex(s: &str) -> (r: Result<EventId, String>)
        ensures
            match r {
                Ok(id) => event_id_of(s@) == Some(id@),
                Err(message) => event_id_of(s@) is None && message@ == event_id_error_text(s@),
            },
    {
        match read_event_id(s) {
            Ok(bytes) => Ok(EventId { bytes }),
            Err(message) => Err(message),
        }
    }

    /// The id as 64 lower-case hexadecimal digits.
    pub fn to_hex(&self) -> (r: String)
        ensures
            r@ == encode_hex(self@),
    {
        write_event_id(&self.bytes)
    }
}

/// Reading the text of a channel id gives the id back.
pub proof fn law_channel_id_round_trip(id: ChannelId)
    ensures
        uuid_of(uuid_text(id@)) == Some(id@),
{
    let h = encode_hex(id@);
    let s = uuid_text(id@);
    assert(s.len() == 36);
    assert(s.subrange(0, 8) + s.subrange(9, 13) + s.subrange(14, 18) + s.subrange(19, 23)
        + s.subrange(24, 36) =~= h);
    law_hex_round_trip(id@);
}

/// Reading the hexadecimal text of an event id gives the id back.
pub proof fn law_event_id_round_trip(id: EventId)
    ensures
        event_id_of(encode_hex(id@)) == Some(id@),
{
    law_hex_round_trip(id@);
}

} // verus!
