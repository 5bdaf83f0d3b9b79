use falco_event::async_plugin::{handler_outcome, PLUGIN_NOT_SUPPORTED};
use falco_event::dynamic::DynKind;
use falco_event::envelope::{Event, EventMetadata, RawEvent};
use falco_event::owned::{OwnedEvent, OwnedFieldValue};
use falco_event::registry::EventKind;
use falco_event::render::CStrArrayFormatter;
use falco_event::value::{
    DynParam, FieldValue, IpAddr, OwnedRelativePath, OwnedSockAddr, RelativePath, SockAddr,
};

#[test]
fn owned_values_borrow_back() {
    let v = FieldValue::CharBufPairArray(vec![(b"a".as_slice(), b"b".as_slice())]);
    let o = v.owned();
    assert_eq!(o, OwnedFieldValue::CharBufPairArray(vec![(b"a".to_vec(), b"b".to_vec())]));
    assert_eq!(o.borrow(), v);

    let s = OwnedSockAddr::Unix(b"/run/x.sock".to_vec());
    assert_eq!(s.borrow(), SockAddr::Unix(b"/run/x.sock".as_slice()));
    assert_eq!(s.borrow().owned(), s);

    let p = OwnedRelativePath(b"a/b".to_vec());
    assert_eq!(p.borrow(), RelativePath(b"a/b".as_slice()));
}

#[test]
fn owned_event_outlives_its_buffer() {
    let owned: OwnedEvent = {
        let bytes = {
            let ev = Event {
                metadata: EventMetadata { ts: 10, tid: 20 },
                kind: EventKind::ReadX,
                params: vec![Some(FieldValue::I64(3)), Some(FieldValue::ByteBuf(b"abc".as_slice()))],
            };
            ev.to_bytes().unwrap()
        };
        let raw = RawEvent::from(bytes.as_slice()).unwrap();
        raw.load_any().unwrap().owned()
    };
    assert_eq!(owned.params[1], Some(OwnedFieldValue::ByteBuf(b"abc".to_vec())));
    let again = owned.borrow().to_bytes().unwrap();
    let raw = RawEvent::from(again.as_slice()).unwrap();
    assert_eq!(raw.load(EventKind::ReadX).unwrap().owned(), owned);
}

#[test]
fn sockaddr_rendering() {
    assert_eq!(SockAddr::Unix(b"/tmp/sock".as_slice()).format(), "unix:///tmp/sock");
    assert_eq!(SockAddr::V4([127, 0, 0, 1], 8080).format(), "127.0.0.1:8080");
    let mut lo = [0u8; 16];
    lo[15] = 1;
    assert_eq!(SockAddr::V6(lo, 8080).format(), "[::1]:8080");
    let a = [0x20u8, 0x01, 0x0d, 0xb8, 0, 0, 0, 0, 0, 1, 0, 0, 0, 0, 0, 1];
    assert_eq!(SockAddr::V6(a, 443).format(), "[2001:db8::1:0:0:1]:443");
    assert_eq!(SockAddr::V6([0u8; 16], 1).format(), "[::]:1");
    assert_eq!(SockAddr::Other(123, b"foo".as_slice()).format(), "<af=123>[66, 6f, 6f]");
    assert_eq!(OwnedSockAddr::V4([10, 1, 2, 3], 0).format(), "10.1.2.3:0");
}

#[test]
fn field_rendering() {
    assert_eq!(FieldValue::I64(-5).format(), "-5");
    assert_eq!(FieldValue::I64(i64::MIN).format(), "-9223372036854775808");
    assert_eq!(FieldValue::U64(u64::MAX).format(), "18446744073709551615");
    assert_eq!(FieldValue::Bool(true).format(), "true");
    assert_eq!(FieldValue::ByteBuf([0xaau8, 0x0b].as_slice()).format(), "[aa, 0b]");
    assert_eq!(FieldValue::ByteBuf([].as_slice()).format(), "[]");
    assert_eq!(FieldValue::IpAddr(IpAddr::V4([1, 2, 3, 4])).format(), "1.2.3.4");
    assert_eq!(
        FieldValue::CharBufPairArray(vec![
            (b"k".as_slice(), b"v".as_slice()),
            (b"x".as_slice(), b"y".as_slice())
        ])
        .format(),
        "k=v;x=y"
    );
    assert_eq!(FieldValue::FsRelPath(RelativePath(b"a/b".as_slice())).format(), "<...>a/b");
    assert_eq!(RelativePath(b"/foo".as_slice()).format(), "<...>/foo");
    let d = FieldValue::Dyn(DynParam {
        kind: DynKind::Sockopt,
        tag: 1,
        value: Box::new(FieldValue::I64(-2)),
    });
    assert_eq!(d.format(), "ERRNO:-2");
    let arr = vec![b"foo".as_slice(), b"".as_slice(), b"bar".as_slice()];
    assert_eq!(CStrArrayFormatter(&arr).format(), "foo;;bar");
    assert_eq!(FieldValue::CharBuf(b"caf\xc3\xa9".as_slice()).format(), "caf\u{e9}");
}

#[test]
fn handler_outcomes() {
    assert_eq!(handler_outcome(None), Err(PLUGIN_NOT_SUPPORTED));
    assert_eq!(handler_outcome(Some(0)), Ok(()));
    assert_eq!(handler_outcome(Some(1)), Err(1));
}

#[test]
fn event_rendering() {
    let ev = Event {
        metadata: EventMetadata { ts: 0, tid: 0 },
        kind: EventKind::OpenE,
        params: vec![Some(FieldValue::FsPath(b"/etc".as_slice())), Some(FieldValue::U32(2)), None],
    };
    assert_eq!(ev.format(), "> open name=/etc flags=2 mode=NULL");
    let ev = Event {
        metadata: EventMetadata { ts: 0, tid: 0 },
        kind: EventKind::CloseX,
        params: vec![Some(FieldValue::I64(-9))],
    };
    assert_eq!(ev.format(), "< close res=-9");
}
