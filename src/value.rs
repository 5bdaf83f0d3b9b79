//! Field types, field values (borrowed from an input buffer or owned), and
//! the wire format of each, stated as a pair of spec functions: the bytes
//! that encode a value, and what parsing a byte string yields.
use vstd::prelude::*;
use crate::dynamic::{DynKind, dyn_variant};
use crate::wire::{bits_i64, cstr, i64_bits, le_bytes, le_value, no_nul, nul_index};

verus! {

/// Address family of Unix-domain sockets.
pub const AF_LOCAL: u8 = 1;

/// Address family of IPv4 sockets.
pub const AF_INET: u8 = 2;

/// Address family of IPv6 sockets.
pub const AF_INET6: u8 = 10;

/// Address family of an unspecified socket address.
pub const AF_UNSPEC: u8 = 0;

/// The wire encodings of event fields.
#[derive(Clone, Copy, Debug, PartialEq, Eq, Structural)]
pub enum FieldType {
    U8,
    U16,
    U32,
    U64,
    /// Signed 64-bit (file descriptors, process ids, error codes).
    I64,
    /// Stored as a 32-bit integer; any nonzero value reads as `true`.
    Bool,
    /// A duration in nanoseconds.
    RelTime,
    /// Nanoseconds since the Unix epoch.
    AbsTime,
    Port,
    Ipv4Addr,
    Ipv4Net,
    Ipv6Addr,
    /// An IPv4 or IPv6 address, told apart by the slot's length.
    IpAddr,
    IpNet,
    /// A NUL-terminated string.
    CharBuf,
    /// All remaining bytes of the slot.
    ByteBuf,
    /// An absolute path, NUL-terminated.
    FsPath,
    /// A path relative to a directory descriptor held in another field.
    FsRelPath,
    /// NUL-terminated strings filling the slot.
    CharBufArray,
    /// NUL-terminated strings filling the slot, taken in pairs.
    CharBufPairArray,
    SockAddr,
    /// A dynamic parameter of the given declaration.
    Dyn(DynKind),
}

/// Why a field could not be decoded.
#[derive(Clone, Copy, Debug, PartialEq, Eq, Structural)]
pub enum FieldError {
    /// Fewer bytes remain than the encoding needs.
    Truncated,
    /// A string-pair array holds an odd number of strings.
    OddItemCount,
    /// A dynamic parameter's tag is not declared.
    InvalidDynDiscriminant,
    /// An address slot is neither 4 nor 16 bytes long.
    InvalidLength,
    /// The field's decoder left bytes of its slot unread.
    LeftoverData,
}

/// An IPv4 or IPv6 address.
#[derive(Clone, Copy, Debug, PartialEq, Eq)]
pub enum IpAddr {
    V4([u8; 4]),
    V6([u8; 16]),
}

/// An IPv4 network: an address with a distinct type.
#[derive(Clone, Copy, Debug, PartialEq, Eq)]
pub struct Ipv4Net(pub [u8; 4]);

/// An IP network: an address with a distinct type.
#[derive(Clone, Copy, Debug, PartialEq, Eq)]
pub struct IpNet(pub IpAddr);

/// A socket address, borrowing its variable-length parts.
#[derive(Clone, Copy, Debug, PartialEq, Eq)]
pub enum SockAddr<'a> {
    /// A Unix-domain socket path, without its terminator.
    Unix(&'a [u8]),
    /// An IPv4 address and port.
    V4([u8; 4], u16),
    /// An IPv6 address and port.
    V6([u8; 16], u16),
    /// Any other address family, with its raw bytes.
    Other(u8, &'a [u8]),
}

/// A socket address that owns its bytes.
#[derive(Clone, Debug, PartialEq, Eq)]
pub enum OwnedSockAddr {
    Unix(Vec<u8>),
    V4([u8; 4], u16),
    V6([u8; 16], u16),
    Other(u8, Vec<u8>),
}

/// A path relative to a directory descriptor, borrowed.
#[derive(Clone, Copy, Debug, PartialEq, Eq)]
pub struct RelativePath<'a>(pub &'a [u8]);

/// A path relative to a directory descriptor, owned.
#[derive(Clone, Debug, PartialEq, Eq)]
pub struct OwnedRelativePath(pub Vec<u8>);

/// The value of a dynamic parameter: its declaration, its tag and the
/// value of the type that the tag selects.
#[derive(Debug, PartialEq, Eq)]
pub struct DynParam<'a> {
    pub kind: DynKind,
    pub tag: u8,
    pub value: Box<FieldValue<'a>>,
}

/// A field value borrowing its variable-length parts from a buffer.
#[derive(Debug, PartialEq, Eq)]
pub enum FieldValue<'a> {
    U8(u8),
    U16(u16),
    U32(u32),
    U64(u64),
    I64(i64),
    Bool(bool),
    RelTime(u64),
    AbsTime(u64),
    Port(u16),
    Ipv4Addr([u8; 4]),
    Ipv4Net(Ipv4Net),
    Ipv6Addr([u8; 16]),
    IpAddr(IpAddr),
    IpNet(IpNet),
    CharBuf(&'a [u8]),
    ByteBuf(&'a [u8]),
    FsPath(&'a [u8]),
    FsRelPath(RelativePath<'a>),
    CharBufArray(Vec<&'a [u8]>),
    CharBufPairArray(Vec<(&'a [u8], &'a [u8])>),
    SockAddr(SockAddr<'a>),
    Dyn(DynParam<'a>),
}

/// The mathematical value of a socket address.
pub enum SockAddrVal {
    Unix(Seq<u8>),
    V4(Seq<u8>, u16),
    V6(Seq<u8>, u16),
    Other(u8, Seq<u8>),
}

/// The mathematical value of a field: what both the borrowed and the owned
/// representation stand for.
pub enum FieldVal {
    U8(u8),
    U16(u16),
    U32(u32),
    U64(u64),
    I64(i64),
    Bool(bool),
    RelTime(u64),
    AbsTime(u64),
    Port(u16),
    Ipv4Addr(Seq<u8>),
    Ipv4Net(Seq<u8>),
    Ipv6Addr(Seq<u8>),
    IpAddr(Seq<u8>),
    IpNet(Seq<u8>),
    CharBuf(Seq<u8>),
    ByteBuf(Seq<u8>),
    FsPath(Seq<u8>),
    FsRelPath(Seq<u8>),
    CharBufArray(Seq<Seq<u8>>),
    CharBufPairArray(Seq<(Seq<u8>, Seq<u8>)>),
    SockAddr(SockAddrVal),
    Dyn(DynKind, u8, Box<FieldVal>),
}

pub open spec fn ip_view(a: IpAddr) -> Seq<u8> {
    match a {
        IpAddr::V4(b) => b@,
        IpAddr::V6(b) => b@,
    }
}

impl<'a> View for SockAddr<'a> {
    type V = SockAddrVal;

    open spec fn view(&self) -> SockAddrVal {
        match *self {
            SockAddr::Unix(p) => SockAddrVal::Unix(p@),
            SockAddr::V4(a, port) => SockAddrVal::V4(a@, port),
            SockAddr::V6(a, port) => SockAddrVal::V6(a@, port),
            SockAddr::Other(af, raw) => SockAddrVal::Other(af, raw@),
        }
    }
}

impl View for OwnedSockAddr {
    type V = SockAddrVal;

    open spec fn view(&self) -> SockAddrVal {
        match self {
            OwnedSockAddr::Unix(p) => SockAddrVal::Unix(p@),
            OwnedSockAddr::V4(a, port) => SockAddrVal::V4(a@, *port),
            OwnedSockAddr::V6(a, port) => SockAddrVal::V6(a@, *port),
            OwnedSockAddr::Other(af, raw) => SockAddrVal::Other(*af, raw@),
        }
    }
}

/// The strings of a borrowed string array.
pub open spec fn strs_view(a: Seq<&[u8]>) -> Seq<Seq<u8>> {
    Seq::new(a.len(), |i: int| a[i]@)
}

/// The pairs of a borrowed string-pair array.
pub open spec fn pairs_view(a: Seq<(&[u8], &[u8])>) -> Seq<(Seq<u8>, Seq<u8>)> {
    Seq::new(a.len(), |i: int| (a[i].0@, a[i].1@))
}

pub open spec fn field_view(v: FieldValue) -> FieldVal
    decreases v,
{
    match v {
        FieldValue::U8(x) => FieldVal::U8(x),
        FieldValue::U16(x) => FieldVal::U16(x),
        FieldValue::U32(x) => FieldVal::U32(x),
        FieldValue::U64(x) => FieldVal::U64(x),
        FieldValue::I64(x) => FieldVal::I64(x),
        FieldValue::Bool(x) => FieldVal::Bool(x),
        FieldValue::RelTime(x) => FieldVal::RelTime(x),
        FieldValue::AbsTime(x) => FieldVal::AbsTime(x),
        FieldValue::Port(x) => FieldVal::Port(x),
        FieldValue::Ipv4Addr(a) => FieldVal::Ipv4Addr(a@),
        FieldValue::Ipv4Net(n) => FieldVal::Ipv4Net(n.0@),
        FieldValue::Ipv6Addr(a) => FieldVal::Ipv6Addr(a@),
        FieldValue::IpAddr(a) => FieldVal::IpAddr(ip_view(a)),
        FieldValue::IpNet(n) => FieldVal::IpNet(ip_view(n.0)),
        FieldValue::CharBuf(s) => FieldVal::CharBuf(s@),
        FieldValue::ByteBuf(s) => FieldVal::ByteBuf(s@),
        FieldValue::FsPath(s) => FieldVal::FsPath(s@),
        FieldValue::FsRelPath(p) => FieldVal::FsRelPath(p.0@),
        FieldValue::CharBufArray(a) => FieldVal::CharBufArray(strs_view(a@)),
        FieldValue::CharBufPairArray(a) => FieldVal::CharBufPairArray(pairs_view(a@)),
        FieldValue::SockAddr(s) => FieldVal::SockAddr(s@),
        FieldValue::Dyn(d) => FieldVal::Dyn(d.kind, d.tag, Box::new(field_view(*d.value))),
    }
}

impl<'a> View for FieldValue<'a> {
    type V = FieldVal;

    open spec fn view(&self) -> FieldVal {
        field_view(*self)
    }
}

/// The strings of an array, each followed by its terminator.
pub open spec fn concat_cstrs(a: Seq<Seq<u8>>) -> Seq<u8>
    decreases a.len(),
{
    if a.len() == 0 {
        Seq::empty()
    } else {
        cstr(a[0]) + concat_cstrs(a.drop_first())
    }
}

/// The strings of a pair array, in order: key, value, key, value...
pub open spec fn flat_pairs(p: Seq<(Seq<u8>, Seq<u8>)>) -> Seq<Seq<u8>> {
    Seq::new(
        2 * p.len(),
        |i: int|
            if i % 2 == 0 {
                p[i / 2].0
            } else {
                p[i / 2].1
            },
    )
}

/// Consecutive strings taken two by two.
pub open spec fn pairing(a: Seq<Seq<u8>>) -> Seq<(Seq<u8>, Seq<u8>)> {
    Seq::new(a.len() / 2, |i: int| (a[2 * i], a[2 * i + 1]))
}

pub open spec fn encode_sockaddr(s: SockAddrVal) -> Seq<u8> {
    match s {
        SockAddrVal::Unix(p) => seq![AF_LOCAL] + cstr(p),
        SockAddrVal::V4(a, port) => seq![AF_INET] + a + le_bytes(port as nat, 2),
        SockAddrVal::V6(a, port) => seq![AF_INET6] + a + le_bytes(port as nat, 2),
        SockAddrVal::Other(af, raw) => seq![af] + raw,
    }
}

/// The bytes that encode a field value.
pub open spec fn encode_field(v: FieldVal) -> Seq<u8>
    decreases v,
{
    match v {
        FieldVal::U8(x) => seq![x],
        FieldVal::U16(x) => le_bytes(x as nat, 2),
        FieldVal::U32(x) => le_bytes(x as nat, 4),
        FieldVal::U64(x) => le_bytes(x as nat, 8),
        FieldVal::I64(x) => le_bytes(i64_bits(x), 8),
        FieldVal::Bool(b) => le_bytes(
            if b {
                1
            } else {
                0
            },
            4,
        ),
        FieldVal::RelTime(x) => le_bytes(x as nat, 8),
        FieldVal::AbsTime(x) => le_bytes(x as nat, 8),
        FieldVal::Port(x) => le_bytes(x as nat, 2),
        FieldVal::Ipv4Addr(a) => a,
        FieldVal::Ipv4Net(a) => a,
        FieldVal::Ipv6Addr(a) => a,
        FieldVal::IpAddr(a) => a,
        FieldVal::IpNet(a) => a,
        FieldVal::CharBuf(s) => cstr(s),
        FieldVal::ByteBuf(s) => s,
        FieldVal::FsPath(s) => cstr(s),
        FieldVal::FsRelPath(s) => cstr(s),
        FieldVal::CharBufArray(a) => concat_cstrs(a),
        FieldVal::CharBufPairArray(p) => concat_cstrs(flat_pairs(p)),
        FieldVal::SockAddr(s) => encode_sockaddr(s),
        FieldVal::Dyn(_, tag, inner) => seq![tag] + encode_field(*inner),
    }
}

/// Every string of the array is free of NUL bytes.
pub open spec fn all_no_nul(a: Seq<Seq<u8>>) -> bool {
    forall|i: int| 0 <= i < a.len() ==> no_nul(#[trigger] a[i])
}

pub open spec fn sockaddr_valid(s: SockAddrVal) -> bool {
    match s {
        SockAddrVal::Unix(p) => no_nul(p),
        SockAddrVal::V4(a, _) => a.len() == 4,
        SockAddrVal::V6(a, _) => a.len() == 16,
        SockAddrVal::Other(af, _) => af != AF_LOCAL && af != AF_INET && af != AF_INET6,
    }
}

/// `v` is a value of type `t` that the wire format can carry.
pub open spec fn has_type(v: FieldVal, t: FieldType) -> bool
    decreases v,
{
    match v {
        FieldVal::U8(_) => t == FieldType::U8,
        FieldVal::U16(_) => t == FieldType::U16,
        FieldVal::U32(_) => t == FieldType::U32,
        FieldVal::U64(_) => t == FieldType::U64,
        FieldVal::I64(_) => t == FieldType::I64,
        FieldVal::Bool(_) => t == FieldType::Bool,
        FieldVal::RelTime(_) => t == FieldType::RelTime,
        FieldVal::AbsTime(_) => t == FieldType::AbsTime,
        FieldVal::Port(_) => t == FieldType::Port,
        FieldVal::Ipv4Addr(a) => t == FieldType::Ipv4Addr && a.len() == 4,
        FieldVal::Ipv4Net(a) => t == FieldType::Ipv4Net && a.len() == 4,
        FieldVal::Ipv6Addr(a) => t == FieldType::Ipv6Addr && a.len() == 16,
        FieldVal::IpAddr(a) => t == FieldType::IpAddr && (a.len() == 4 || a.len() == 16),
        FieldVal::IpNet(a) => t == FieldType::IpNet && (a.len() == 4 || a.len() == 16),
        FieldVal::CharBuf(s) => t == FieldType::CharBuf && no_nul(s),
        FieldVal::ByteBuf(_) => t == FieldType::ByteBuf,
        FieldVal::FsPath(s) => t == FieldType::FsPath && no_nul(s),
        FieldVal::FsRelPath(s) => t == FieldType::FsRelPath && no_nul(s),
        FieldVal::CharBufArray(a) => t == FieldType::CharBufArray && all_no_nul(a),
        FieldVal::CharBufPairArray(p) => t == FieldType::CharBufPairArray && all_no_nul(
            flat_pairs(p),
        ),
        FieldVal::SockAddr(s) => t == FieldType::SockAddr && sockaddr_valid(s),
        FieldVal::Dyn(k, tag, inner) => t == FieldType::Dyn(k) && match dyn_variant(k, tag) {
            Some(t2) => !(t2 is Dyn) && has_type(*inner, t2),
            None => false,
        },
    }
}

/// The strings of a flat sequence of NUL-terminated strings.
pub open spec fn parse_cstrs(s: Seq<u8>) -> Result<Seq<Seq<u8>>, FieldError>
    decreases s.len(),
{
    if s.len() == 0 {
        Ok(Seq::empty())
    } else {
        match nul_index(s) {
            Some(i) => if i < s.len() {
                match parse_cstrs(s.skip(i as int + 1)) {
                    Ok(rest) => Ok(seq![s.take(i as int)] + rest),
                    Err(e) => Err(e),
                }
            } else {
                Err(FieldError::Truncated)
            },
            None => Err(FieldError::Truncated),
        }
    }
}

/// A fixed-width little-endian number at the start of `s`.
pub open spec fn parse_le(s: Seq<u8>, w: nat) -> Result<(nat, nat), FieldError> {
    if s.len() < w {
        Err(FieldError::Truncated)
    } else {
        Ok((le_value(s.take(w as int)), w))
    }
}

/// A NUL-terminated string at the start of `s`, and the bytes it takes.
pub open spec fn parse_cstr(s: Seq<u8>) -> Result<(Seq<u8>, nat), FieldError> {
    match nul_index(s) {
        Some(i) => Ok((s.take(i as int), i + 1)),
        None => Err(FieldError::Truncated),
    }
}

pub open spec fn parse_sockaddr(s: Seq<u8>) -> Result<(SockAddrVal, nat), FieldError> {
    if s.len() == 0 {
        Err(FieldError::Truncated)
    } else {
        let af = s[0];
        let rest = s.drop_first();
        if af == AF_LOCAL {
            match parse_cstr(rest) {
                Ok((p, n)) => Ok((SockAddrVal::Unix(p), n + 1)),
                Err(e) => Err(e),
            }
        } else if af == AF_INET {
            if rest.len() < 6 {
                Err(FieldError::Truncated)
            } else {
                Ok(
                    (
                        SockAddrVal::V4(rest.take(4), le_value(rest.subrange(4, 6)) as u16),
                        7,
                    ),
                )
            }
        } else if af == AF_INET6 {
            if rest.len() < 18 {
                Err(FieldError::Truncated)
            } else {
                Ok(
                    (
                        SockAddrVal::V6(rest.take(16), le_value(rest.subrange(16, 18)) as u16),
                        19,
                    ),
                )
            }
        } else {
            Ok((SockAddrVal::Other(af, rest), s.len()))
        }
    }
}

pub open spec fn type_rank(t: FieldType) -> nat {
    if t is Dyn {
        1
    } else {
        0
    }
}

/// What decoding a value of type `t` from the start of `s` yields: the
/// value and the number of bytes it takes, or the error.
pub open spec fn parse_field(t: FieldType, s: Seq<u8>) -> Result<(FieldVal, nat), FieldError>
    decreases type_rank(t),
{
    match t {
        FieldType::U8 => match parse_le(s, 1) {
            Ok((x, n)) => Ok((FieldVal::U8(x as u8), n)),
            Err(e) => Err(e),
        },
        FieldType::U16 => match parse_le(s, 2) {
            Ok((x, n)) => Ok((FieldVal::U16(x as u16), n)),
            Err(e) => Err(e),
        },
        FieldType::U32 => match parse_le(s, 4) {
            Ok((x, n)) => Ok((FieldVal::U32(x as u32), n)),
            Err(e) => Err(e),
        },
        FieldType::U64 => match parse_le(s, 8) {
            Ok((x, n)) => Ok((FieldVal::U64(x as u64), n)),
            Err(e) => Err(e),
        },
        FieldType::I64 => match parse_le(s, 8) {
            Ok((x, n)) => Ok((FieldVal::I64(bits_i64(x)), n)),
            Err(e) => Err(e),
        },
        FieldType::Bool => match parse_le(s, 4) {
            Ok((x, n)) => Ok((FieldVal::Bool(x != 0), n)),
            Err(e) => Err(e),
        },
        FieldType::RelTime => match parse_le(s, 8) {
            Ok((x, n)) => Ok((FieldVal::RelTime(x as u64), n)),
            Err(e) => Err(e),
        },
        FieldType::AbsTime => match parse_le(s, 8) {
            Ok((x, n)) => Ok((FieldVal::AbsTime(x as u64), n)),
            Err(e) => Err(e),
        },
        FieldType::Port => match parse_le(s, 2) {
            Ok((x, n)) => Ok((FieldVal::Port(x as u16), n)),
            Err(e) => Err(e),
        },
        FieldType::Ipv4Addr => if s.len() < 4 {
            Err(FieldError::Truncated)
        } else {
            Ok((FieldVal::Ipv4Addr(s.take(4)), 4))
        },
        FieldType::Ipv4Net => if s.len() < 4 {
            Err(FieldError::Truncated)
        } else {
            Ok((FieldVal::Ipv4Net(s.take(4)), 4))
        },
        FieldType::Ipv6Addr => if s.len() < 16 {
            Err(FieldError::Truncated)
        } else {
            Ok((FieldVal::Ipv6Addr(s.take(16)), 16))
        },
        FieldType::IpAddr => if s.len() == 4 || s.len() == 16 {
            Ok((FieldVal::IpAddr(s), s.len()))
        } else {
            Err(FieldError::InvalidLength)
        },
        FieldType::IpNet => if s.len() == 4 || s.len() == 16 {
            Ok((FieldVal::IpNet(s), s.len()))
        } else {
            Err(FieldError::InvalidLength)
        },
        FieldType::CharBuf => match parse_cstr(s) {
            Ok((p, n)) => Ok((FieldVal::CharBuf(p), n)),
            Err(e) => Err(e),
        },
        FieldType::ByteBuf => Ok((FieldVal::ByteBuf(s), s.len())),
        FieldType::FsPath => match parse_cstr(s) {
            Ok((p, n)) => Ok((FieldVal::FsPath(p), n)),
            Err(e) => Err(e),
        },
        FieldType::FsRelPath => match parse_cstr(s) {
            Ok((p, n)) => Ok((FieldVal::FsRelPath(p), n)),
            Err(e) => Err(e),
        },
        FieldType::CharBufArray => match parse_cstrs(s) {
            Ok(a) => Ok((FieldVal::CharBufArray(a), s.len())),
            Err(e) => Err(e),
        },
        FieldType::CharBufPairArray => match parse_cstrs(s) {
            Ok(a) => if a.len() % 2 == 1 {
                Err(FieldError::OddItemCount)
            } else {
                Ok((FieldVal::CharBufPairArray(pairing(a)), s.len()))
            },
            Err(e) => Err(e),
        },
        FieldType::SockAddr => match parse_sockaddr(s) {
            Ok((a, n)) => Ok((FieldVal::SockAddr(a), n)),
            Err(e) => Err(e),
        },
        FieldType::Dyn(k) => if s.len() == 0 {
            Err(FieldError::Truncated)
        } else {
            match dyn_variant(k, s[0]) {
                Some(t2) => if t2 is Dyn {
                    Err(FieldError::InvalidDynDiscriminant)
                } else {
                    match parse_field(t2, s.drop_first()) {
                        Ok((v, n)) => Ok((FieldVal::Dyn(k, s[0], Box::new(v)), n + 1)),
                        Err(e) => Err(e),
                    }
                },
                None => Err(FieldError::InvalidDynDiscriminant),
            }
        },
    }
}

} // verus!
