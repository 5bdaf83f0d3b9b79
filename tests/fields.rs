use falco_event::codec::{default_repr, read_field};
use falco_event::dynamic::{dyn_variant_type, DynKind};
use falco_event::value::{
    DynParam, FieldError, FieldType, FieldValue, IpAddr, IpNet, Ipv4Net, SockAddr, AF_INET,
    AF_INET6, AF_LOCAL,
};

fn round_trip(t: FieldType, v: FieldValue) {
    let mut out = Vec::new();
    v.write(&mut out);
    assert_eq!(out.len(), v.binary_size());
    let (back, used) = read_field(t, out.as_slice(), 0).unwrap();
    assert_eq!(used, out.len());
    assert_eq!(back, v);
}

#[test]
fn integers_are_little_endian() {
    let mut out = Vec::new();
    FieldValue::U32(0x0102_0304).write(&mut out);
    assert_eq!(out, vec![4, 3, 2, 1]);
    let mut out = Vec::new();
    FieldValue::U16(0xabcd).write(&mut out);
    assert_eq!(out, vec![0xcd, 0xab]);
    let mut out = Vec::new();
    FieldValue::I64(-2).write(&mut out);
    assert_eq!(out, vec![0xfe, 0xff, 0xff, 0xff, 0xff, 0xff, 0xff, 0xff]);
}

#[test]
fn scalar_round_trips_with_extremes() {
    round_trip(FieldType::U8, FieldValue::U8(0));
    round_trip(FieldType::U8, FieldValue::U8(255));
    round_trip(FieldType::U16, FieldValue::U16(u16::MAX));
    round_trip(FieldType::U32, FieldValue::U32(u32::MAX));
    round_trip(FieldType::U64, FieldValue::U64(u64::MAX));
    round_trip(FieldType::U64, FieldValue::U64(0));
    round_trip(FieldType::I64, FieldValue::I64(i64::MIN));
    round_trip(FieldType::I64, FieldValue::I64(i64::MAX));
    round_trip(FieldType::I64, FieldValue::I64(-1));
    round_trip(FieldType::RelTime, FieldValue::RelTime(1_000_000_000));
    round_trip(FieldType::AbsTime, FieldValue::AbsTime(u64::MAX));
    round_trip(FieldType::Port, FieldValue::Port(8080));
    round_trip(FieldType::Bool, FieldValue::Bool(true));
    round_trip(FieldType::Bool, FieldValue::Bool(false));
}

#[test]
fn bool_is_four_bytes_and_nonzero_is_true() {
    let v = FieldValue::Bool(true);
    assert_eq!(v.binary_size(), 4);
    let mut out = Vec::new();
    v.write(&mut out);
    assert_eq!(out, vec![1, 0, 0, 0]);
    let (b, _) = read_field(FieldType::Bool, [0u8, 2, 0, 0].as_slice(), 0).unwrap();
    assert_eq!(b, FieldValue::Bool(true));
    let (b, _) = read_field(FieldType::Bool, [0u8, 0, 0, 0].as_slice(), 0).unwrap();
    assert_eq!(b, FieldValue::Bool(false));
}

#[test]
fn short_fixed_width_is_truncated() {
    assert_eq!(
        read_field(FieldType::U64, [1u8, 2, 3].as_slice(), 0),
        Err(FieldError::Truncated)
    );
    assert_eq!(
        read_field(FieldType::U32, [1u8, 2, 3, 4].as_slice(), 1),
        Err(FieldError::Truncated)
    );
    assert_eq!(read_field(FieldType::U8, [].as_slice(), 0), Err(FieldError::Truncated));
}

#[test]
fn addresses_round_trip() {
    round_trip(FieldType::Ipv4Addr, FieldValue::Ipv4Addr([127, 0, 0, 1]));
    round_trip(FieldType::Ipv4Net, FieldValue::Ipv4Net(Ipv4Net([10, 0, 0, 0])));
    let mut v6 = [0u8; 16];
    v6[15] = 1;
    round_trip(FieldType::Ipv6Addr, FieldValue::Ipv6Addr(v6));
    round_trip(FieldType::IpAddr, FieldValue::IpAddr(IpAddr::V6(v6)));
    round_trip(FieldType::IpNet, FieldValue::IpNet(IpNet(IpAddr::V4([192, 168, 0, 1]))));
}

#[test]
fn ip_net_encodes_like_its_address() {
    let mut a = Vec::new();
    FieldValue::IpAddr(IpAddr::V4([1, 2, 3, 4])).write(&mut a);
    let mut b = Vec::new();
    FieldValue::IpNet(IpNet(IpAddr::V4([1, 2, 3, 4]))).write(&mut b);
    assert_eq!(a, b);
    let mut c = Vec::new();
    FieldValue::Ipv4Net(Ipv4Net([1, 2, 3, 4])).write(&mut c);
    assert_eq!(a, c);
}

#[test]
fn ip_address_of_odd_length_is_rejected() {
    assert_eq!(
        read_field(FieldType::IpAddr, [1u8, 2, 3, 4, 5].as_slice(), 0),
        Err(FieldError::InvalidLength)
    );
}

#[test]
fn unix_sockaddr_scenario() {
    let v = FieldValue::SockAddr(SockAddr::Unix(b"/tmp/sock".as_slice()));
    let mut out = Vec::new();
    v.write(&mut out);
    let mut expected = vec![AF_LOCAL];
    expected.extend_from_slice(b"/tmp/sock\0");
    assert_eq!(out, expected);
    assert_eq!(out[0], 1);
    let (back, used) = read_field(FieldType::SockAddr, out.as_slice(), 0).unwrap();
    assert_eq!(used, out.len());
    assert_eq!(back, v);
}

#[test]
fn ipv4_sockaddr_scenario() {
    let v = FieldValue::SockAddr(SockAddr::V4([127, 0, 0, 1], 8080));
    let mut out = Vec::new();
    v.write(&mut out);
    assert_eq!(out, vec![AF_INET, 127, 0, 0, 1, 0x90, 0x1f]);
    assert_eq!(v.binary_size(), 7);
    let (back, _) = read_field(FieldType::SockAddr, out.as_slice(), 0).unwrap();
    assert_eq!(back, v);
}

#[test]
fn ipv6_and_other_sockaddr_round_trip() {
    let mut a = [0u8; 16];
    a[15] = 1;
    round_trip(FieldType::SockAddr, FieldValue::SockAddr(SockAddr::V6(a, 443)));
    let mut out = Vec::new();
    FieldValue::SockAddr(SockAddr::V6(a, 443)).write(&mut out);
    assert_eq!(out[0], AF_INET6);
    assert_eq!(out.len(), 19);
    round_trip(FieldType::SockAddr, FieldValue::SockAddr(SockAddr::Other(123, b"foo".as_slice())));
}

#[test]
fn truncated_sockaddr() {
    assert_eq!(read_field(FieldType::SockAddr, [].as_slice(), 0), Err(FieldError::Truncated));
    assert_eq!(
        read_field(FieldType::SockAddr, [AF_INET, 1, 2, 3].as_slice(), 0),
        Err(FieldError::Truncated)
    );
    assert_eq!(
        read_field(FieldType::SockAddr, [AF_LOCAL, b'a'].as_slice(), 0),
        Err(FieldError::Truncated)
    );
}

#[test]
fn dynamic_parameter_keeps_its_tag() {
    let v = FieldValue::Dyn(DynParam {
        kind: DynKind::Sockopt,
        tag: 2,
        value: Box::new(FieldValue::U32(7)),
    });
    let mut out = Vec::new();
    v.write(&mut out);
    assert_eq!(out, vec![2, 7, 0, 0, 0]);
    assert_eq!(v.binary_size(), 5);
    let (back, used) = read_field(FieldType::Dyn(DynKind::Sockopt), out.as_slice(), 0).unwrap();
    assert_eq!(used, 5);
    assert_eq!(back, v);

    let b = FieldValue::Dyn(DynParam {
        kind: DynKind::Sockopt,
        tag: 0,
        value: Box::new(FieldValue::ByteBuf(b"xyz".as_slice())),
    });
    round_trip(FieldType::Dyn(DynKind::Sockopt), b);
}

#[test]
fn undeclared_dynamic_tag_is_rejected() {
    assert_eq!(dyn_variant_type(DynKind::Sockopt, 9), None);
    assert_eq!(
        read_field(FieldType::Dyn(DynKind::Sockopt), [9u8, 1, 2, 3, 4].as_slice(), 0),
        Err(FieldError::InvalidDynDiscriminant)
    );
    assert_eq!(
        read_field(FieldType::Dyn(DynKind::Ptrace), [2u8].as_slice(), 0),
        Err(FieldError::InvalidDynDiscriminant)
    );
    assert_eq!(
        read_field(FieldType::Dyn(DynKind::Ptrace), [].as_slice(), 0),
        Err(FieldError::Truncated)
    );
}

#[test]
fn byte_buffer_takes_the_rest() {
    let (v, used) = read_field(FieldType::ByteBuf, [1u8, 2, 3].as_slice(), 1).unwrap();
    assert_eq!(v, FieldValue::ByteBuf([2u8, 3].as_slice()));
    assert_eq!(used, 3);
}

#[test]
fn default_representations() {
    assert_eq!(default_repr(FieldType::Bool), Some(vec![0u8; 4]));
    assert_eq!(default_repr(FieldType::AbsTime), Some(vec![0u8; 8]));
    assert_eq!(default_repr(FieldType::CharBufArray), Some(vec![]));
    assert_eq!(default_repr(FieldType::CharBuf), Some(vec![0u8]));
    assert_eq!(default_repr(FieldType::SockAddr), Some(vec![0u8]));
    assert_eq!(default_repr(FieldType::Dyn(DynKind::Sockopt)), None);
    let b = default_repr(FieldType::SockAddr).unwrap();
    let (v, used) = read_field(FieldType::SockAddr, b.as_slice(), 0).unwrap();
    assert_eq!(v, FieldValue::SockAddr(SockAddr::Other(0, [].as_slice())));
    assert_eq!(used, 1);
}
