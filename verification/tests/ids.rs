use agent_thread::clock::epoch_nanos;
use agent_thread::clock::epoch_revision;
use agent_thread::clock::epoch_seconds;
use agent_thread::clock::time_left;
use agent_thread::clock::unix_revision;
use agent_thread::clock::unix_seconds;
use agent_thread::clock::Span;
use agent_thread::ids::ChannelId;
use agent_thread::ids::EventId;
use agent_thread::text::decimal;
use agent_thread::text::same_text;

#[test]
fn channel_ids_read_in_every_spelling() {
    let text = "550e8400-e29b-41d4-a716-446655440000";
    let id = ChannelId::parse_str(text).unwrap();
    assert_eq!(id.bytes[..4], [0x55, 0x0e, 0x84, 0x00]);
    for spelling in [
        text.to_uppercase(),
        text.replace('-', ""),
        format!("{{{text}}}"),
        format!("urn:uuid:{text}"),
        format!("URN:UUID:{text}"),
    ] {
        assert_eq!(ChannelId::parse_str(&spelling).unwrap(), id, "{spelling}");
    }
    assert_eq!(id.to_text(), text);
}

#[test]
fn channel_ids_refuse_other_text() {
    for text in [
        "",
        "general",
        "550e8400e29b-41d4-a716-446655440000",
        "{550e8400e29b41d4a716446655440000}",
        "550e8400-e29b-41d4-a716-44665544000g",
        " 550e8400-e29b-41d4-a716-446655440000",
    ] {
        assert_eq!(
            ChannelId::parse_str(text).unwrap_err(),
            uuid::Uuid::parse_str(text).unwrap_err().to_string()
        );
    }
}

#[test]
fn channel_ids_round_trip() {
    let id = ChannelId {
        bytes: uuid::Uuid::new_v4().into_bytes(),
    };
    assert_eq!(ChannelId::parse_str(&id.to_text()), Ok(id));
}

#[test]
fn event_ids_round_trip() {
    let mut bytes = [0u8; 32];
    for (i, byte) in bytes.iter_mut().enumerate() {
        *byte = (i * 8 + 5) as u8;
    }
    let id = EventId { bytes };
    assert!(id.to_hex().starts_with("050d151d"));
    assert_eq!(EventId::from_hex(&id.to_hex()), Ok(id));
    assert_eq!(EventId::from_hex(&id.to_hex().to_uppercase()), Ok(id));
}

#[test]
fn event_ids_need_sixty_four_digits() {
    for text in ["", "00", &"0".repeat(63), &"0".repeat(66), &"g".repeat(64)] {
        assert_eq!(
            EventId::from_hex(text).unwrap_err(),
            nostr::EventId::from_hex(text).unwrap_err().to_string()
        );
    }
}

#[test]
fn numbers_are_written_plainly() {
    assert_eq!(decimal(0), "0");
    assert_eq!(decimal(1234567890), "1234567890");
    assert_eq!(decimal(u64::MAX), "18446744073709551615");
    assert!(same_text("\u{e9}a", "\u{e9}a"));
    assert!(!same_text("a", "ab"));
    assert!(!same_text("ab", "ac"));
}

#[test]
fn time_is_left_until_it_is_up() {
    let timeout = Span {
        secs: 0,
        nanos: 25_000_000,
    };
    let at = |nanos: u32| time_left(timeout, Span { secs: 0, nanos });
    assert_eq!(at(0), Some(timeout));
    assert_eq!(at(24_999_999), Some(Span { secs: 0, nanos: 1 }));
    assert_eq!(at(25_000_000), None);
    assert_eq!(
        time_left(
            Span::from_secs(20),
            Span {
                secs: 3,
                nanos: 500_000_000
            }
        ),
        Some(Span {
            secs: 16,
            nanos: 500_000_000
        })
    );
}

#[test]
fn clock_readings_are_clamped() {
    let since = Some(Span {
        secs: 1_770_000_000,
        nanos: 123_456_789,
    });
    assert_eq!(epoch_seconds(since), 1_770_000_000);
    assert_eq!(epoch_revision(since), 1_770_000_000_123_456);
    assert_eq!(epoch_nanos(since), 1_770_000_000_123_456_789);
    assert_eq!(epoch_seconds(None), 0);
    assert_eq!(epoch_revision(None), 0);
    assert_eq!(epoch_nanos(None), 0);
    assert_eq!(epoch_revision(Some(Span::from_secs(u64::MAX))), u64::MAX);
}

#[test]
fn clock_runs_on_microseconds() {
    let seconds = unix_seconds();
    let revision = unix_revision();
    assert!(seconds > 1_700_000_000);
    assert!(revision / 1_000_000 >= seconds);
    assert!(revision / 1_000_000 <= seconds + 5);
}
