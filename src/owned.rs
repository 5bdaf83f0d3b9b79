//! Owned counterparts of the borrowing value types. Each borrows back into
//! a view of its own storage, and each borrowed value can be copied into one;
//! both directions keep the value.
use vstd::prelude::*;
use crate::dynamic::DynKind;
use crate::envelope::{Event, EventMetadata, opt_val, opt_view};
use crate::registry::EventKind;
use crate::value::{
    DynParam, FieldVal, FieldValue, IpAddr, IpNet, Ipv4Net, OwnedRelativePath, OwnedSockAddr,
    RelativePath, SockAddr, ip_view, pairs_view, strs_view,
};
use vstd::slice::slice_to_vec;

verus! {

/// A dynamic parameter that owns its value.
#[derive(Debug, PartialEq, Eq)]
pub struct OwnedDynParam {
    pub kind: DynKind,
    pub tag: u8,
    pub value: Box<OwnedFieldValue>,
}

/// A field value that owns its variable-length parts.
#[derive(Debug, PartialEq, Eq)]
pub enum OwnedFieldValue {
    U8(u8),
    U16(u16),
    U32(u32),
    U64(u64),
    I64(i64),
    Bool(bool),
    RelTime(u64),
    AbsTime(u64),
    Port(u16),
    Ipv4Addr([u8; 4]),
    Ipv4Net(Ipv4Net),
    Ipv6Addr([u8; 16]),
    IpAddr(IpAddr),
    IpNet(IpNet),
    CharBuf(Vec<u8>),
    ByteBuf(Vec<u8>),
    FsPath(Vec<u8>),
    FsRelPath(OwnedRelativePath),
    CharBufArray(Vec<Vec<u8>>),
    CharBufPairArray(Vec<(Vec<u8>, Vec<u8>)>),
    SockAddr(OwnedSockAddr),
    Dyn(OwnedDynParam),
}

/// An event whose field values own their bytes.
#[derive(Debug, PartialEq, Eq)]
pub struct OwnedEvent {
    pub metadata: EventMetadata,
    pub kind: EventKind,
    pub params: Vec<Option<OwnedFieldValue>>,
}

pub open spec fn owned_strs_view(a: Seq<Vec<u8>>) -> Seq<Seq<u8>> {
    Seq::new(a.len(), |i: int| a[i]@)
}

pub open spec fn owned_pairs_view(a: Seq<(Vec<u8>, Vec<u8>)>) -> Seq<(Seq<u8>, Seq<u8>)> {
    Seq::new(a.len(), |i: int| (a[i].0@, a[i].1@))
}

pub open spec fn owned_view(v: OwnedFieldValue) -> FieldVal
    decreases v,
{
    match v {
        OwnedFieldValue::U8(x) => FieldVal::U8(x),
        OwnedFieldValue::U16(x) => FieldVal::U16(x),
        OwnedFieldValue::U32(x) => FieldVal::U32(x),
        OwnedFieldValue::U64(x) => FieldVal::U64(x),
        OwnedFieldValue::I64(x) => FieldVal::I64(x),
        OwnedFieldValue::Bool(x) => FieldVal::Bool(x),
        OwnedFieldValue::RelTime(x) => FieldVal::RelTime(x),
        OwnedFieldValue::AbsTime(x) => FieldVal::AbsTime(x),
        OwnedFieldValue::Port(x) => FieldVal::Port(x),
        OwnedFieldValue::Ipv4Addr(a) => FieldVal::Ipv4Addr(a@),
        OwnedFieldValue::Ipv4Net(n) => FieldVal::Ipv4Net(n.0@),
        OwnedFieldValue::Ipv6Addr(a) => FieldVal::Ipv6Addr(a@),
        OwnedFieldValue::IpAddr(a) => FieldVal::IpAddr(ip_view(a)),
        OwnedFieldValue::IpNet(n) => FieldVal::IpNet(ip_view(n.0)),
        OwnedFieldValue::CharBuf(s) => FieldVal::CharBuf(s@),
        OwnedFieldValue::ByteBuf(s) => FieldVal::ByteBuf(s@),
        OwnedFieldValue::FsPath(s) => FieldVal::FsPath(s@),
        OwnedFieldValue::FsRelPath(p) => FieldVal::FsRelPath(p.0@),
        OwnedFieldValue::CharBufArray(a) => FieldVal::CharBufArray(owned_strs_view(a@)),
        OwnedFieldValue::CharBufPairArray(a) => FieldVal::CharBufPairArray(
            owned_pairs_view(a@),
        ),
        OwnedFieldValue::SockAddr(s) => FieldVal::SockAddr(s@),
        OwnedFieldValue::Dyn(d) => FieldVal::Dyn(d.kind, d.tag, Box::new(owned_view(*d.value))),
    }
}

impl View for OwnedFieldValue {
    type V = FieldVal;

    open spec fn view(&self) -> FieldVal {
        owned_view(*self)
    }
}

pub open spec fn owned_opt_view(v: Seq<Option<OwnedFieldValue>>) -> Seq<Option<FieldVal>> {
    Seq::new(
        v.len(),
        |i: int|
            match v[i] {
                Some(x) => Some(x@),
                None => None,
            },
    )
}

impl OwnedSockAddr {
    /// A view of this address borrowing its bytes.
    pub fn borrow(&self) -> (r: SockAddr<'_>)
        ensures
            r@ == self@,
    {
        match self {
            OwnedSockAddr::Unix(p) => SockAddr::Unix(p.as_slice()),
            OwnedSockAddr::V4(a, port) => SockAddr::V4(*a, *port),
            OwnedSockAddr::V6(a, port) => SockAddr::V6(*a, *port),
            OwnedSockAddr::Other(af, raw) => SockAddr::Other(*af, raw.as_slice()),
        }
    }
}

impl<'a> SockAddr<'a> {
    /// A copy of this address that owns its bytes.
    pub fn owned(&self) -> (r: OwnedSockAddr)
        ensures
            r@ == self@,
    {
        match self {
            SockAddr::Unix(p) => OwnedSockAddr::Unix(slice_to_vec(p)),
            SockAddr::V4(a, port) => OwnedSockAddr::V4(*a, *port),
            SockAddr::V6(a, port) => OwnedSockAddr::V6(*a, *port),
            SockAddr::Other(af, raw) => OwnedSockAddr::Other(*af, slice_to_vec(raw)),
        }
    }
}

impl OwnedRelativePath {
    /// A view of this path borrowing its bytes.
    pub fn borrow(&self) -> (r: RelativePath<'_>)
        ensures
            r.0@ == self.0@,
    {
        RelativePath(self.0.as_slice())
    }
}

impl<'a> RelativePath<'a> {
    /// A copy of this path that owns its bytes.
    pub fn owned(&self) -> (r: OwnedRelativePath)
        ensures
            r.0@ == self.0@,
    {
        OwnedRelativePath(slice_to_vec(self.0))
    }
}

fn borrow_strs(a: &Vec<Vec<u8>>) -> (r: Vec<&[u8]>)
    ensures
        strs_view(r@) == owned_strs_view(a@),
{
    let mut out: Vec<&[u8]> = Vec::new();
    let mut i: usize = 0;
    while i < a.len()
        invariant
            i <= a@.len(),
            out@.len() == i,
            forall|j: int| 0 <= j < i ==> (#[trigger] out@[j])@ == a@[j]@,
        decreases a@.len() - i,
    {
        out.push(a[i].as_slice());
        i = i + 1;
    }
    assert(strs_view(out@) =~= owned_strs_view(a@));
    out
}

fn borrow_pairs(a: &Vec<(Vec<u8>, Vec<u8>)>) -> (r: Vec<(&[u8], &[u8])>)
    ensures
        pairs_view(r@) == owned_pairs_view(a@),
{
    let mut out: Vec<(&[u8], &[u8])> = Vec::new();
    let mut i: usize = 0;
    while i < a.len()
        invariant
            i <= a@.len(),
            out@.len() == i,
            forall|j: int|
                0 <= j < i ==> (#[trigger] out@[j]).0@ == a@[j].0@ && out@[j].1@ == a@[j].1@,
        decreases a@.len() - i,
    {
        let (k, v) = &a[i];
        out.push((k.as_slice(), v.as_slice()));
        i = i + 1;
    }
    assert(pairs_view(out@) =~= owned_pairs_view(a@));
    out
}

fn own_strs(a: &Vec<&[u8]>) -> (r: Vec<Vec<u8>>)
    ensures
        owned_strs_view(r@) == strs_view(a@),
{
    let mut out: Vec<Vec<u8>> = Vec::new();
    let mut i: usize = 0;
    while i < a.len()
        invariant
            i <= a@.len(),
            out@.len() == i,
            forall|j: int| 0 <= j < i ==> (#[trigger] out@[j])@ == a@[j]@,
        decreases a@.len() - i,
    {
        out.push(slice_to_vec(a[i]));
        i = i + 1;
    }
    assert(owned_strs_view(out@) =~= strs_view(a@));
    out
}

fn own_pairs(a: &Vec<(&[u8], &[u8])>) -> (r: Vec<(Vec<u8>, Vec<u8>)>)
    ensures
        owned_pairs_view(r@) == pairs_view(a@),
{
    let mut out: Vec<(Vec<u8>, Vec<u8>)> = Vec::new();
    let mut i: usize = 0;
    while i < a.len()
        invariant
            i <= a@.len(),
            out@.len() == i,
            forall|j: int|
                0 <= j < i ==> (#[trigger] out@[j]).0@ == a@[j].0@ && out@[j].1@ == a@[j].1@,
        decreases a@.len() - i,
    {
        let (k, v) = a[i];
        out.push((slice_to_vec(k), slice_to_vec(v)));
        i = i + 1;
    }
    assert(owned_pairs_view(out@) =~= pairs_view(a@));
    out
}

impl OwnedFieldValue {
    /// A view of this value borrowing its bytes.
    pub fn borrow(&self) -> (r: FieldValue<'_>)
        ensures
            r@ == self@,
        decreases self,
    {
        match self {
            OwnedFieldValue::U8(x) => FieldValue::U8(*x),
            OwnedFieldValue::U16(x) => FieldValue::U16(*x),
            OwnedFieldValue::U32(x) => FieldValue::U32(*x),
            OwnedFieldValue::U64(x) => FieldValue::U64(*x),
            OwnedFieldValue::I64(x) => FieldValue::I64(*x),
            OwnedFieldValue::Bool(x) => FieldValue::Bool(*x),
            OwnedFieldValue::RelTime(x) => FieldValue::RelTime(*x),
            OwnedFieldValue::AbsTime(x) => FieldValue::AbsTime(*x),
            OwnedFieldValue::Port(x) => FieldValue::Port(*x),
            OwnedFieldValue::Ipv4Addr(a) => FieldValue::Ipv4Addr(*a),
            OwnedFieldValue::Ipv4Net(n) => FieldValue::Ipv4Net(*n),
            OwnedFieldValue::Ipv6Addr(a) => FieldValue::Ipv6Addr(*a),
            OwnedFieldValue::IpAddr(a) => FieldValue::IpAddr(*a),
            OwnedFieldValue::IpNet(n) => FieldValue::IpNet(*n),
            OwnedFieldValue::CharBuf(s) => FieldValue::CharBuf(s.as_slice()),
            OwnedFieldValue::ByteBuf(s) => FieldValue::ByteBuf(s.as_slice()),
            OwnedFieldValue::FsPath(s) => FieldValue::FsPath(s.as_slice()),
            OwnedFieldValue::FsRelPath(p) => FieldValue::FsRelPath(p.borrow()),
            OwnedFieldValue::CharBufArray(a) => FieldValue::CharBufArray(borrow_strs(a)),
            OwnedFieldValue::CharBufPairArray(a) => FieldValue::CharBufPairArray(borrow_pairs(a)),
            OwnedFieldValue::SockAddr(s) => FieldValue::SockAddr(s.borrow()),
            OwnedFieldValue::Dyn(d) => FieldValue::Dyn(
                DynParam { kind: d.kind, tag: d.tag, value: Box::new(d.value.borrow()) },
            ),
        }
    }
}

impl<'a> FieldValue<'a> {
    /// A copy of this value that owns its bytes.
    pub fn owned(&self) -> (r: OwnedFieldValue)
        ensures
            r@ == self@,
        decreases self,
    {
        match self {
            FieldValue::U8(x) => OwnedFieldValue::U8(*x),
            FieldValue::U16(x) => OwnedFieldValue::U16(*x),
            FieldValue::U32(x) => OwnedFieldValue::U32(*x),
            FieldValue::U64(x) => OwnedFieldValue::U64(*x),
            FieldValue::I64(x) => OwnedFieldValue::I64(*x),
            FieldValue::Bool(x) => OwnedFieldValue::Bool(*x),
            FieldValue::RelTime(x) => OwnedFieldValue::RelTime(*x),
            FieldValue::AbsTime(x) => OwnedFieldValue::AbsTime(*x),
            FieldValue::Port(x) => OwnedFieldValue::Port(*x),
            FieldValue::Ipv4Addr(a) => OwnedFieldValue::Ipv4Addr(*a),
            FieldValue::Ipv4Net(n) => OwnedFieldValue::Ipv4Net(*n),
            FieldValue::Ipv6Addr(a) => OwnedFieldValue::Ipv6Addr(*a),
            FieldValue::IpAddr(a) => OwnedFieldValue::IpAddr(*a),
            FieldValue::IpNet(n) => OwnedFieldValue::IpNet(*n),
            FieldValue::CharBuf(s) => OwnedFieldValue::CharBuf(slice_to_vec(s)),
            FieldValue::ByteBuf(s) => OwnedFieldValue::ByteBuf(slice_to_vec(s)),
            FieldValue::FsPath(s) => OwnedFieldValue::FsPath(slice_to_vec(s)),
            FieldValue::FsRelPath(p) => OwnedFieldValue::FsRelPath(p.owned()),
            FieldValue::CharBufArray(a) => OwnedFieldValue::CharBufArray(own_strs(a)),
            FieldValue::CharBufPairArray(a) => OwnedFieldValue::CharBufPairArray(own_pairs(a)),
            FieldValue::SockAddr(s) => OwnedFieldValue::SockAddr(s.owned()),
            FieldValue::Dyn(d) => OwnedFieldValue::Dyn(
                OwnedDynParam { kind: d.kind, tag: d.tag, value: Box::new(d.value.owned()) },
            ),
        }
    }
}

impl OwnedEvent {
    /// A view of this event borrowing its bytes.
    pub fn borrow(&self) -> (r: Event<'_>)
        ensures
            r.metadata == self.metadata,
            r.kind == self.kind,
            opt_view(r.params@) == owned_opt_view(self.params@),
    {
        let mut params: Vec<Option<FieldValue<'_>>> = Vec::new();
        let mut i: usize = 0;
        while i < self.params.len()
            invariant
                i <= self.params@.len(),
                params@.len() == i,
                forall|j: int|
                    0 <= j < i ==> opt_val(#[trigger] params@[j]) == owned_opt_view(
                        self.params@,
                    )[j],
            decreases self.params@.len() - i,
        {
            let p = match &self.params[i] {
                Some(v) => Some(v.borrow()),
                None => None,
            };
            params.push(p);
            i = i + 1;
        }
        assert(opt_view(params@) =~= owned_opt_view(self.params@));
        Event { metadata: self.metadata, kind: self.kind, params }
    }
}

impl<'a> Event<'a> {
    /// A copy of this event whose values own their bytes, so that it can
    /// outlive the buffer it was decoded from.
    pub fn owned(&self) -> (r: OwnedEvent)
        ensures
            r.metadata == self.metadata,
            r.kind == self.kind,
            owned_opt_view(r.params@) == opt_view(self.params@),
    {
        let mut params: Vec<Option<OwnedFieldValue>> = Vec::new();
        let mut i: usize = 0;
        while i < self.params.len()
            invariant
                i <= self.params@.len(),
                params@.len() == i,
                forall|j: int|
                    0 <= j < i ==> owned_opt_view(params@)[j] == opt_val(
                        #[trigger] self.params@[j],
                    ),
            decreases self.params@.len() - i,
        {
            let p = match &self.params[i] {
                Some(v) => Some(v.owned()),
                None => None,
            };
            let ghost before = params@;
            params.push(p);
            proof {
                assert forall|j: int| 0 <= j < i + 1 implies owned_opt_view(params@)[j]
                    == opt_val(#[trigger] self.params@[j]) by {
                    if j < i {
                        assert(owned_opt_view(params@)[j] == owned_opt_view(before)[j]);
                    }
                }
            }
            i = i + 1;
        }
        assert(owned_opt_view(params@) =~= opt_view(self.params@));
        OwnedEvent { metadata: self.metadata, kind: self.kind, params }
    }
}

} // verus!
