use falco_event::envelope::{
    encode_event, EncodeError, Event, EventMetadata, PayloadError, RawEvent, HEADER_SIZE,
};
use falco_event::registry::{EventKind, FieldDecl};
use falco_event::value::{FieldError, FieldType, FieldValue, RelativePath, SockAddr};

fn decl(name: &'static str, ty: FieldType) -> FieldDecl {
    FieldDecl { name, ty, dirfd: None }
}

#[test]
fn envelope_round_trip_scenario() {
    let meta = EventMetadata { ts: 1000, tid: 42 };
    let params = vec![
        Some(FieldValue::U64(5)),
        None,
        Some(FieldValue::ByteBuf([0xAAu8, 0xBB].as_slice())),
    ];
    let bytes = encode_event(meta, 77, false, &params).unwrap();
    // header, then the length table [8, 0, 2]
    assert_eq!(&bytes[HEADER_SIZE..HEADER_SIZE + 6], &[8u8, 0, 0, 0, 2, 0]);
    assert_eq!(bytes.len(), HEADER_SIZE + 6 + 10);
    assert_eq!(&bytes[16..20], &(bytes.len() as u32).to_le_bytes());
    assert_eq!(&bytes[20..22], &77u16.to_le_bytes());
    assert_eq!(&bytes[22..24], &3u16.to_le_bytes());

    let decls = vec![
        decl("field1", FieldType::U64),
        decl("field2", FieldType::CharBuf),
        decl("field3", FieldType::ByteBuf),
    ];
    let raw = RawEvent::from(bytes.as_slice()).unwrap();
    assert_eq!(raw.metadata, meta);
    assert_eq!(raw.event_type, 77);
    assert_eq!(raw.nparams, 3);
    let back = raw.decode_fields(&decls, false).unwrap();
    assert_eq!(back, params);
}

#[test]
fn typed_event_round_trip() {
    let ev = Event {
        metadata: EventMetadata { ts: 1, tid: 2 },
        kind: EventKind::OpenatX,
        params: vec![
            Some(FieldValue::I64(3)),
            Some(FieldValue::I64(-100)),
            Some(FieldValue::FsRelPath(RelativePath(b"etc/passwd".as_slice()))),
            Some(FieldValue::U32(0)),
            None,
            Some(FieldValue::U32(8)),
            Some(FieldValue::U64(1234)),
        ],
    };
    let bytes = ev.to_bytes().unwrap();
    let raw = RawEvent::from(bytes.as_slice()).unwrap();
    assert_eq!(raw.event_type, 307);
    assert_eq!(raw.load(EventKind::OpenatX).unwrap(), ev);
    assert_eq!(raw.load_any().unwrap(), ev);
    assert_eq!(ev.dirfd_of(2), Some(-100));
    assert_eq!(ev.dirfd_of(0), None);
}

#[test]
fn large_payload_uses_wide_length_table() {
    let data = vec![7u8; 70000];
    let ev = Event {
        metadata: EventMetadata { ts: 9, tid: 9 },
        kind: EventKind::PluginEventE,
        params: vec![Some(FieldValue::U32(5)), Some(FieldValue::ByteBuf(data.as_slice()))],
    };
    let bytes = ev.to_bytes().unwrap();
    assert_eq!(&bytes[HEADER_SIZE..HEADER_SIZE + 8], &[4u8, 0, 0, 0, 0x70, 0x11, 0x01, 0]);
    let raw = RawEvent::from(bytes.as_slice()).unwrap();
    assert_eq!(raw.load_any().unwrap(), ev);
}

#[test]
fn field_too_large_for_narrow_table() {
    let data = vec![0u8; 70000];
    let ev = Event {
        metadata: EventMetadata { ts: 0, tid: 0 },
        kind: EventKind::ReadX,
        params: vec![Some(FieldValue::I64(0)), Some(FieldValue::ByteBuf(data.as_slice()))],
    };
    assert_eq!(ev.to_bytes(), Err(EncodeError::FieldTooLarge(1)));
}

#[test]
fn unknown_event_kind_scenario() {
    let meta = EventMetadata { ts: 5, tid: 6 };
    let params = vec![Some(FieldValue::U8(1))];
    let bytes = encode_event(meta, 9999, false, &params).unwrap();
    let copy = bytes.clone();
    let raw = RawEvent::from(bytes.as_slice()).unwrap();
    assert_eq!(raw.load_any(), Err(PayloadError::UnsupportedEventType(9999)));
    assert_eq!(bytes, copy);
}

#[test]
fn type_mismatch() {
    let ev = Event {
        metadata: EventMetadata { ts: 0, tid: 0 },
        kind: EventKind::CloseE,
        params: vec![Some(FieldValue::I64(4))],
    };
    let bytes = ev.to_bytes().unwrap();
    let raw = RawEvent::from(bytes.as_slice()).unwrap();
    assert_eq!(raw.load(EventKind::CloseX), Err(PayloadError::TypeMismatch));
    assert_eq!(raw.load(EventKind::CloseE).unwrap(), ev);
}

fn header(len: u32, code: u16, nparams: u16) -> Vec<u8> {
    let mut b = Vec::new();
    b.extend_from_slice(&0u64.to_le_bytes());
    b.extend_from_slice(&0u64.to_le_bytes());
    b.extend_from_slice(&len.to_le_bytes());
    b.extend_from_slice(&code.to_le_bytes());
    b.extend_from_slice(&nparams.to_le_bytes());
    b
}

#[test]
fn truncation_scenario() {
    // close entry: one fd field declared 8 bytes long, only 4 present
    let mut b = header(24 + 2 + 4, 4, 1);
    b.extend_from_slice(&[8u8, 0]);
    b.extend_from_slice(&[1u8, 2, 3, 4]);
    let raw = RawEvent::from(b.as_slice()).unwrap();
    assert_eq!(
        raw.load(EventKind::CloseE),
        Err(PayloadError::NamedField("fd", FieldError::Truncated))
    );
}

#[test]
fn short_buffers_are_truncated_events() {
    assert_eq!(RawEvent::from([0u8; 10].as_slice()).err(), Some(PayloadError::TruncatedEvent));
    let b = header(100, 4, 1);
    assert_eq!(RawEvent::from(b.as_slice()).err(), Some(PayloadError::TruncatedEvent));
    let b = header(24, 4, 3);
    let raw = RawEvent::from(b.as_slice()).unwrap();
    assert_eq!(raw.load(EventKind::CloseE), Err(PayloadError::TruncatedEvent));
}

#[test]
fn leftover_data_in_slot() {
    // close entry: fd slot of 9 bytes, one more than an i64 takes
    let mut b = header(24 + 2 + 9, 4, 1);
    b.extend_from_slice(&[9u8, 0]);
    b.extend_from_slice(&[0u8; 9]);
    let raw = RawEvent::from(b.as_slice()).unwrap();
    assert_eq!(
        raw.load(EventKind::CloseE),
        Err(PayloadError::NamedField("fd", FieldError::LeftoverData))
    );
}

#[test]
fn zero_length_slot_is_absent_and_missing_slots_too() {
    // open exit with only two of its six fields in the table, the second empty
    let mut b = header(24 + 4 + 8, 3, 2);
    b.extend_from_slice(&[8u8, 0, 0, 0]);
    b.extend_from_slice(&5i64.to_le_bytes());
    let raw = RawEvent::from(b.as_slice()).unwrap();
    let ev = raw.load(EventKind::OpenX).unwrap();
    assert_eq!(ev.params.len(), 6);
    assert_eq!(ev.params[0], Some(FieldValue::I64(5)));
    assert!(ev.params[1..].iter().all(|p| p.is_none()));
}

#[test]
fn connect_event_with_sockaddr() {
    let ev = Event {
        metadata: EventMetadata { ts: 3, tid: 4 },
        kind: EventKind::ConnectE,
        params: vec![
            Some(FieldValue::I64(7)),
            Some(FieldValue::SockAddr(SockAddr::V4([10, 0, 0, 1], 53))),
        ],
    };
    let bytes = ev.to_bytes().unwrap();
    let raw = RawEvent::from(bytes.as_slice()).unwrap();
    assert_eq!(raw.load_any().unwrap(), ev);
}

#[test]
fn registry_codes() {
    assert_eq!(EventKind::from_code(402), Some(EventKind::AsyncEventE));
    assert_eq!(EventKind::AsyncEventE.code(), 402);
    assert!(EventKind::AsyncEventE.is_large());
    assert!(!EventKind::CloseE.is_large());
    assert_eq!(EventKind::from_code(1000), None);
    assert_eq!(EventKind::OpenatX.layout()[2].dirfd, Some(1));
    assert_eq!(EventKind::CloseE.name(), "close");
}
