//! The event envelope: a fixed header (timestamp, thread id, total length,
//! event-type code, field count), a table of field lengths, and the field
//! payloads back to back.
use vstd::prelude::*;
use crate::codec::read_field;
use crate::registry::{EventKind, FieldDecl, kind_code, kind_large, kind_layout};
use crate::value::{FieldError, FieldVal, FieldValue, encode_field, has_type, parse_field};
use crate::wire::{
    le_bytes, le_value, lemma_le_value_bound, lemma_pow256_monotone, lemma_pow256_values, pow256,
    read_le, write_bytes, write_le,
};

verus! {

/// Size of the fixed header: timestamp (8), thread id (8), total length (4),
/// event-type code (2), field count (2).
pub const HEADER_SIZE: usize = 24;

/// When and where an event happened.
#[derive(Clone, Copy, Debug, PartialEq, Eq, Structural)]
pub struct EventMetadata {
    /// Nanoseconds since the Unix epoch.
    pub ts: u64,
    /// The originating thread.
    pub tid: u64,
}

/// Why an event could not be decoded.
#[derive(Clone, Copy, Debug, PartialEq, Eq)]
pub enum PayloadError {
    /// The buffer is shorter than the header or the length table says.
    TruncatedEvent,
    /// The event-type code is not the one of the requested kind.
    TypeMismatch,
    /// No kind is registered under this event-type code.
    UnsupportedEventType(u32),
    /// The named field failed to decode.
    NamedField(&'static str, FieldError),
}

/// Why an event could not be encoded.
#[derive(Clone, Copy, Debug, PartialEq, Eq, Structural)]
pub enum EncodeError {
    /// More fields than the 16-bit field count can hold.
    TooManyFields,
    /// The field at this index does not fit its length-table entry.
    FieldTooLarge(usize),
    /// The whole event does not fit the 32-bit length field.
    EventTooLarge,
}

/// An undecoded event: its header, and its length table and field payloads
/// still as bytes of the input buffer.
#[derive(Clone, Copy, Debug)]
pub struct RawEvent<'a> {
    pub metadata: EventMetadata,
    pub len: u32,
    pub event_type: u16,
    pub nparams: u16,
    /// The length table followed by the field payloads.
    pub payload: &'a [u8],
}

/// A decoded event: one optional value per declared field of its kind.
#[derive(Debug, PartialEq, Eq)]
pub struct Event<'a> {
    pub metadata: EventMetadata,
    pub kind: EventKind,
    pub params: Vec<Option<FieldValue<'a>>>,
}

/// Bytes per length-table entry.
pub open spec fn width(large: bool) -> nat {
    if large {
        4
    } else {
        2
    }
}

/// The total length that a header claims.
pub open spec fn header_len(s: Seq<u8>) -> nat {
    le_value(s.subrange(16, 20))
}

/// `s` starts with a header whose length field covers at least the header
/// and at most `s`.
pub open spec fn header_ok(s: Seq<u8>) -> bool {
    s.len() >= HEADER_SIZE && HEADER_SIZE <= header_len(s) <= s.len()
}

pub open spec fn opt_val(o: Option<FieldValue>) -> Option<FieldVal> {
    match o {
        Some(x) => Some(x@),
        None => None,
    }
}

pub open spec fn opt_view(v: Seq<Option<FieldValue>>) -> Seq<Option<FieldVal>> {
    Seq::new(v.len(), |i: int| opt_val(v[i]))
}

/// The length-table entries of a payload.
pub open spec fn lengths_of(payload: Seq<u8>, n: nat, w: nat) -> Seq<nat> {
    Seq::new(n, |i: int| le_value(payload.subrange(i * w, i * w + w)))
}

/// Decoding one field slot: an empty slot is an absent field; otherwise the
/// field's decoder must take the whole slot.
pub open spec fn decode_slot(d: FieldDecl, slot: Seq<u8>) -> Result<
    Option<FieldVal>,
    PayloadError,
> {
    if slot.len() == 0 {
        Ok(None)
    } else {
        match parse_field(d.ty, slot) {
            Ok((v, n)) => if n == slot.len() {
                Ok(Some(v))
            } else {
                Err(PayloadError::NamedField(d.name, FieldError::LeftoverData))
            },
            Err(e) => Err(PayloadError::NamedField(d.name, e)),
        }
    }
}

pub open spec fn prepend<T>(a: Seq<T>, r: Result<Seq<T>, PayloadError>) -> Result<
    Seq<T>,
    PayloadError,
> {
    match r {
        Ok(rest) => Ok(a + rest),
        Err(e) => Err(e),
    }
}

/// Decoding the fields from the `i`-th on, `region` holding the slots from
/// the `i`-th on; fields past the end of the length table are absent.
pub open spec fn decode_slots(
    decls: Seq<FieldDecl>,
    region: Seq<u8>,
    lens: Seq<nat>,
    i: nat,
) -> Result<Seq<Option<FieldVal>>, PayloadError>
    decreases decls.len() - i,
{
    if i >= decls.len() {
        Ok(Seq::empty())
    } else if i >= lens.len() {
        prepend(seq![None], decode_slots(decls, region, lens, i + 1))
    } else if lens[i as int] > region.len() {
        Err(PayloadError::NamedField(decls[i as int].name, FieldError::Truncated))
    } else {
        match decode_slot(decls[i as int], region.take(lens[i as int] as int)) {
            Ok(o) => prepend(
                seq![o],
                decode_slots(decls, region.skip(lens[i as int] as int), lens, i + 1),
            ),
            Err(e) => Err(e),
        }
    }
}

/// Decoding a payload (length table and slots) against declared fields.
pub open spec fn decode_payload(decls: Seq<FieldDecl>, payload: Seq<u8>, n: nat, large: bool) -> Result<
    Seq<Option<FieldVal>>,
    PayloadError,
> {
    let w = width(large);
    if payload.len() < n * w {
        Err(PayloadError::TruncatedEvent)
    } else {
        decode_slots(decls, payload.skip(n * w as int), lengths_of(payload, n, w), 0)
    }
}

/// Decodes one field slot.
fn decode_one<'a>(d: FieldDecl, slot: &'a [u8]) -> (r: Result<Option<FieldValue<'a>>, PayloadError>)
    ensures
        match decode_slot(d, slot@) {
            Ok(o) => r matches Ok(x) && opt_val(x) == o,
            Err(e) => r == Err::<Option<FieldValue<'a>>, PayloadError>(e),
        },
{
    if slot.len() == 0 {
        return Ok(None);
    }
    let r = read_field(d.ty, slot, 0);
    assert(slot@.skip(0) =~= slot@);
    match r {
        Ok((v, m)) => {
            if m != slot.len() {
                Err(PayloadError::NamedField(d.name, FieldError::LeftoverData))
            } else {
                Ok(Some(v))
            }
        },
        Err(e) => Err(PayloadError::NamedField(d.name, e)),
    }
}

impl<'a> RawEvent<'a> {
    /// Splits an event buffer into its header and payload.
    pub fn from(buf: &'a [u8]) -> (r: Result<RawEvent<'a>, PayloadError>)
        ensures
            header_ok(buf@) <==> r is Ok,
            match r {
                Ok(e) => {
                    &&& e.metadata.ts == le_value(buf@.take(8))
                    &&& e.metadata.tid == le_value(buf@.subrange(8, 16))
                    &&& e.len == header_len(buf@)
                    &&& e.event_type == le_value(buf@.subrange(20, 22))
                    &&& e.nparams == le_value(buf@.subrange(22, 24))
                    &&& e.payload@ == buf@.subrange(HEADER_SIZE as int, header_len(buf@) as int)
                },
                Err(e) => e == PayloadError::TruncatedEvent,
            },
    {
        if buf.len() < HEADER_SIZE {
            return Err(PayloadError::TruncatedEvent);
        }
        let ts = read_le(buf, 0, 8);
        let tid = read_le(buf, 8, 8);
        let len = read_le(buf, 16, 4);
        let event_type = read_le(buf, 20, 2);
        let nparams = read_le(buf, 22, 2);
        proof {
            lemma_pow256_values();
            lemma_le_value_bound(buf@.subrange(16, 20));
            lemma_le_value_bound(buf@.subrange(20, 22));
            lemma_le_value_bound(buf@.subrange(22, 24));
            assert(buf@.subrange(0, 8) =~= buf@.take(8));
        }
        if len < HEADER_SIZE as u64 || len > buf.len() as u64 {
            return Err(PayloadError::TruncatedEvent);
        }
        let payload = vstd::slice::slice_subrange(buf, HEADER_SIZE, len as usize);
        Ok(
            RawEvent {
                metadata: EventMetadata { ts, tid },
                len: len as u32,
                event_type: event_type as u16,
                nparams: nparams as u16,
                payload,
            },
        )
    }

    /// Decodes the fields against `decls`, using the length-table width that
    /// `large` selects.
    pub fn decode_fields(&self, decls: &Vec<FieldDecl>, large: bool) -> (r: Result<
        Vec<Option<FieldValue<'a>>>,
        PayloadError,
    >)
        ensures
            match decode_payload(decls@, self.payload@, self.nparams as nat, large) {
                Ok(ps) => r matches Ok(v) && opt_view(v@) == ps,
                Err(e) => r == Err::<Vec<Option<FieldValue<'a>>>, PayloadError>(e),
            },
    {
        let payload = self.payload;
        let n = self.nparams as usize;
        let w: usize = if large {
            4
        } else {
            2
        };
        let table = n * w;
        if payload.len() < table {
            return Err(PayloadError::TruncatedEvent);
        }
        let ghost lens = lengths_of(payload@, n as nat, w as nat);
        let ghost whole = decode_payload(decls@, payload@, n as nat, large);
        let mut out: Vec<Option<FieldValue<'a>>> = Vec::new();
        let mut off: usize = table;
        let mut i: usize = 0;
        while i < decls.len()
            invariant
                w == width(large),
                table == n * w,
                n == self.nparams,
                payload@ == self.payload@,
                table <= off <= payload@.len(),
                i <= decls@.len(),
                lens == lengths_of(payload@, n as nat, w as nat),
                whole == decode_payload(decls@, payload@, n as nat, large),
                whole == prepend(opt_view(out@), decode_slots(decls@, payload@.skip(off as int), lens, i as nat)),
            decreases decls@.len() - i,
        {
            let d = decls[i];
            let ghost region = payload@.skip(off as int);
            let ghost rest_before = decode_slots(decls@, region, lens, i as nat);
            if i >= n {
                proof {
                    assert(opt_view(out@.push(None)) =~= opt_view(out@) + seq![None]);
                    match decode_slots(decls@, region, lens, i as nat + 1) {
                        Ok(r) => assert(opt_view(out@) + (seq![None] + r) =~= opt_view(out@) + seq![None] + r),
                        Err(_) => {},
                    }
                }
                out.push(None);
            } else {
                proof {
                    assert(i * w + w <= n * w) by (nonlinear_arith)
                        requires i < n;
                }
                let l64 = read_le(payload, i * w, w);
                proof {
                    lemma_le_value_bound(payload@.subrange(i * w, i * w + w));
                    lemma_pow256_values();
                    lemma_pow256_monotone(w as nat, 4);
                }
                let l = l64 as usize;
                assert(l == lens[i as int]);
                if l > payload.len() - off {
                    return Err(PayloadError::NamedField(d.name, FieldError::Truncated));
                }
                let slot = vstd::slice::slice_subrange(payload, off, off + l);
                assert(slot@ =~= region.take(l as int));
                assert(payload@.skip(off + l) =~= region.skip(l as int));
                let o = match decode_one(d, slot) {
                    Ok(o) => o,
                    Err(e) => {
                        return Err(e);
                    },
                };
                proof {
                    let ov = opt_val(o);
                    assert(opt_view(out@.push(o)) =~= opt_view(out@) + seq![ov]);
                    match decode_slots(decls@, region.skip(l as int), lens, i as nat + 1) {
                        Ok(r) => assert(opt_view(out@) + (seq![ov] + r) =~= opt_view(out@) + seq![ov] + r),
                        Err(_) => {},
                    }
                }
                out.push(o);
                off = off + l;
            }
            i = i + 1;
        }
        proof {
            assert(opt_view(out@) + Seq::<Option<FieldVal>>::empty() =~= opt_view(out@));
        }
        Ok(out)
    }
}


pub proof fn lemma_code_injective(a: EventKind, b: EventKind)
    requires
        kind_code(a) == kind_code(b),
    ensures
        a == b,
{
}

impl<'a> RawEvent<'a> {
    /// Typed decode: the event must carry the code of `kind`; its fields are
    /// then decoded against the kind's layout.
    pub fn load(&self, kind: EventKind) -> (r: Result<Event<'a>, PayloadError>)
        ensures
            self.event_type != kind_code(kind) ==> r == Err::<Event<'a>, PayloadError>(
                PayloadError::TypeMismatch,
            ),
            self.event_type == kind_code(kind) ==> match decode_payload(
                kind_layout(kind),
                self.payload@,
                self.nparams as nat,
                kind_large(kind),
            ) {
                Ok(ps) => r matches Ok(e) && e.metadata == self.metadata && e.kind == kind
                    && opt_view(e.params@) == ps,
                Err(err) => r == Err::<Event<'a>, PayloadError>(err),
            },
    {
        if self.event_type != kind.code() {
            return Err(PayloadError::TypeMismatch);
        }
        let decls = kind.layout();
        match self.decode_fields(&decls, kind.is_large()) {
            Ok(params) => Ok(Event { metadata: self.metadata, kind, params }),
            Err(e) => Err(e),
        }
    }

    /// Open decode: looks the event-type code up in the registry and decodes
    /// against the kind found there.
    pub fn load_any(&self) -> (r: Result<Event<'a>, PayloadError>)
        ensures
            (forall|k: EventKind| kind_code(k) != self.event_type) ==> r == Err::<
                Event<'a>,
                PayloadError,
            >(PayloadError::UnsupportedEventType(self.event_type as u32)),
            forall|k: EventKind|
                kind_code(k) == self.event_type ==> match decode_payload(
                    kind_layout(k),
                    self.payload@,
                    self.nparams as nat,
                    kind_large(k),
                ) {
                    Ok(ps) => r matches Ok(e) && e.metadata == self.metadata && e.kind == k
                        && opt_view(e.params@) == ps,
                    Err(err) => r == Err::<Event<'a>, PayloadError>(err),
                },
    {
        match EventKind::from_code(self.event_type) {
            Some(kind) => {
                proof {
                    assert forall|k: EventKind| kind_code(k) == self.event_type implies k
                        == kind by {
                        lemma_code_injective(k, kind);
                    }
                }
                self.load(kind)
            },
            None => Err(PayloadError::UnsupportedEventType(self.event_type as u32)),
        }
    }
}

/// Byte strings joined end to end.
pub open spec fn concat_all(parts: Seq<Seq<u8>>) -> Seq<u8>
    decreases parts.len(),
{
    if parts.len() == 0 {
        Seq::empty()
    } else {
        parts[0] + concat_all(parts.drop_first())
    }
}

pub proof fn lemma_concat_all_append(a: Seq<Seq<u8>>, b: Seq<Seq<u8>>)
    ensures
        concat_all(a + b) == concat_all(a) + concat_all(b),
    decreases a.len(),
{
    if a.len() == 0 {
        assert(a + b =~= b);
        assert(concat_all(a) + concat_all(b) =~= concat_all(b));
    } else {
        assert((a + b).drop_first() =~= a.drop_first() + b);
        lemma_concat_all_append(a.drop_first(), b);
        assert(concat_all(a + b) =~= concat_all(a) + concat_all(b));
    }
}

pub proof fn lemma_concat_all_step(a: Seq<Seq<u8>>, i: int)
    requires
        0 <= i < a.len(),
    ensures
        concat_all(a.take(i + 1)) == concat_all(a.take(i)) + a[i],
{
    assert(a.take(i + 1) =~= a.take(i) + seq![a[i]]);
    lemma_concat_all_append(a.take(i), seq![a[i]]);
    let one = seq![a[i]];
    assert(one.drop_first() =~= Seq::<Seq<u8>>::empty());
    assert(concat_all(one) == one[0] + concat_all(one.drop_first()));
    assert(concat_all(one) =~= a[i]);
}

/// The bytes of one field slot: the encoding of a present value, nothing for
/// an absent one.
pub open spec fn slot_bytes(p: Option<FieldVal>) -> Seq<u8> {
    match p {
        Some(v) => encode_field(v),
        None => Seq::empty(),
    }
}

pub open spec fn event_slots(params: Seq<Option<FieldVal>>) -> Seq<Seq<u8>> {
    Seq::new(params.len(), |i: int| slot_bytes(params[i]))
}

/// The length table of a list of slots.
pub open spec fn length_table(slots: Seq<Seq<u8>>, w: nat) -> Seq<u8> {
    concat_all(Seq::new(slots.len(), |i: int| le_bytes(slots[i].len(), w)))
}

/// The total size of an encoded event.
pub open spec fn event_size(params: Seq<Option<FieldVal>>, large: bool) -> nat {
    (HEADER_SIZE + width(large) * params.len() + concat_all(event_slots(params)).len()) as nat
}

pub open spec fn header_bytes(meta: EventMetadata, len: nat, code: u16, n: nat) -> Seq<u8> {
    le_bytes(meta.ts as nat, 8) + le_bytes(meta.tid as nat, 8) + le_bytes(len, 4) + le_bytes(
        code as nat,
        2,
    ) + le_bytes(n, 2)
}

/// The bytes of an event: header, length table, slots.
pub open spec fn encode_event_bytes(
    meta: EventMetadata,
    code: u16,
    large: bool,
    params: Seq<Option<FieldVal>>,
) -> Seq<u8> {
    header_bytes(meta, event_size(params, large), code, params.len()) + length_table(
        event_slots(params),
        width(large),
    ) + concat_all(event_slots(params))
}

/// The field count, each slot's length and the total length fit their
/// fields in the header and the length table.
pub open spec fn encodable(params: Seq<Option<FieldVal>>, large: bool) -> bool {
    &&& params.len() <= 0xffff
    &&& forall|i: int|
        0 <= i < params.len() ==> #[trigger] slot_bytes(params[i]).len() < pow256(width(large))
    &&& event_size(params, large) <= 0xffff_ffff
}

/// Encodes an event: header, length table, then each field's slot.
pub fn encode_event(
    meta: EventMetadata,
    code: u16,
    large: bool,
    params: &Vec<Option<FieldValue>>,
) -> (r: Result<Vec<u8>, EncodeError>)
    ensures
        encodable(opt_view(params@), large) <==> r is Ok,
        match r {
            Ok(b) => b@ == encode_event_bytes(meta, code, large, opt_view(params@)),
            Err(EncodeError::TooManyFields) => params@.len() > 0xffff,
            Err(EncodeError::FieldTooLarge(i)) => i < params@.len() && slot_bytes(
                opt_view(params@)[i as int],
            ).len() >= pow256(width(large)),
            Err(EncodeError::EventTooLarge) => event_size(opt_view(params@), large) > 0xffff_ffff,
        },
{
    let ghost pv = opt_view(params@);
    let ghost slots = event_slots(pv);
    let n = params.len();
    if n > 0xffff {
        return Err(EncodeError::TooManyFields);
    }
    let w: usize = if large {
        4
    } else {
        2
    };
    let limit: u64 = if large {
        0x1_0000_0000
    } else {
        0x1_0000
    };
    proof {
        lemma_pow256_values();
    }
    let mut parts: Vec<Vec<u8>> = Vec::new();
    let mut total: u64 = 0;
    let mut i: usize = 0;
    while i < n
        invariant
            n == params@.len() <= 0xffff,
            pv == opt_view(params@),
            slots == event_slots(pv),
            limit == pow256(width(large)),
            limit <= 0x1_0000_0000,
            i <= n,
            parts@.len() == i,
            forall|j: int| 0 <= j < i ==> #[trigger] parts@[j]@ == slots[j],
            forall|j: int| 0 <= j < i ==> #[trigger] slot_bytes(pv[j]).len() < limit,
            total == concat_all(slots.take(i as int)).len(),
            total <= i * 0x1_0000_0000,
        decreases n - i,
    {
        let mut b: Vec<u8> = Vec::new();
        match &params[i] {
            Some(v) => v.write(&mut b),
            None => {},
        }
        assert(b@ =~= slots[i as int]);
        if b.len() as u64 >= limit {
            return Err(EncodeError::FieldTooLarge(i));
        }
        proof {
            lemma_concat_all_step(slots, i as int);
        }
        total = total + b.len() as u64;
        parts.push(b);
        i = i + 1;
    }
    assert(slots.take(n as int) =~= slots);
    let size: u64 = HEADER_SIZE as u64 + (w * n) as u64 + total;
    if size > 0xffff_ffff {
        return Err(EncodeError::EventTooLarge);
    }
    let mut out: Vec<u8> = Vec::new();
    write_le(meta.ts, 8, &mut out);
    write_le(meta.tid, 8, &mut out);
    write_le(size, 4, &mut out);
    write_le(code as u64, 2, &mut out);
    write_le(n as u64, 2, &mut out);
    let ghost header = out@;
    let ghost entries = Seq::new(slots.len(), |j: int| le_bytes(slots[j].len(), width(large)));
    let mut j: usize = 0;
    while j < n
        invariant
            n == parts@.len() == slots.len(),
            w == width(large),
            forall|k: int| 0 <= k < n ==> #[trigger] parts@[k]@ == slots[k],
            entries == Seq::new(slots.len(), |k: int| le_bytes(slots[k].len(), width(large))),
            j <= n,
            out@ == header + concat_all(entries.take(j as int)),
        decreases n - j,
    {
        proof {
            lemma_concat_all_step(entries, j as int);
        }
        write_le(parts[j].len() as u64, w, &mut out);
        j = j + 1;
        assert(out@ =~= header + concat_all(entries.take(j as int)));
    }
    assert(entries.take(n as int) =~= entries);
    let ghost with_table = out@;
    let mut k: usize = 0;
    while k < n
        invariant
            n == parts@.len() == slots.len(),
            forall|m: int| 0 <= m < n ==> #[trigger] parts@[m]@ == slots[m],
            k <= n,
            out@ == with_table + concat_all(slots.take(k as int)),
        decreases n - k,
    {
        proof {
            lemma_concat_all_step(slots, k as int);
        }
        write_bytes(parts[k].as_slice(), &mut out);
        k = k + 1;
        assert(out@ =~= with_table + concat_all(slots.take(k as int)));
    }
    assert(out@ =~= encode_event_bytes(meta, code, large, pv));
    Ok(out)
}

impl<'a> Event<'a> {
    /// Re-serializes the event into its full envelope.
    pub fn to_bytes(&self) -> (r: Result<Vec<u8>, EncodeError>)
        ensures
            encodable(opt_view(self.params@), kind_large(self.kind)) <==> r is Ok,
            r matches Ok(b) ==> b@ == encode_event_bytes(
                self.metadata,
                kind_code(self.kind),
                kind_large(self.kind),
                opt_view(self.params@),
            ),
    {
        encode_event(self.metadata, self.kind.code(), self.kind.is_large(), &self.params)
    }
}


/// What decoding gives back for encoded parameters: a present value whose
/// encoding is empty takes a zero-length slot, and so comes back absent.
pub open spec fn normalize(params: Seq<Option<FieldVal>>) -> Seq<Option<FieldVal>> {
    Seq::new(
        params.len(),
        |i: int|
            match params[i] {
                Some(v) => if encode_field(v).len() == 0 {
                    None
                } else {
                    Some(v)
                },
                None => None,
            },
    )
}

/// One parameter per declared field, each present one of its field's type.
pub open spec fn params_typed(decls: Seq<FieldDecl>, params: Seq<Option<FieldVal>>) -> bool {
    &&& params.len() == decls.len()
    &&& forall|i: int|
        0 <= i < params.len() ==> match #[trigger] params[i] {
            Some(v) => has_type(v, decls[i].ty),
            None => true,
        }
}

proof fn lemma_concat_all_skip(a: Seq<Seq<u8>>, i: int)
    requires
        0 <= i < a.len(),
    ensures
        concat_all(a.skip(i)) == a[i] + concat_all(a.skip(i + 1)),
{
    assert(a.skip(i).drop_first() =~= a.skip(i + 1));
    assert(a.skip(i)[0] == a[i]);
}

proof fn lemma_concat_all_uniform(e: Seq<Seq<u8>>, w: nat)
    requires
        forall|j: int| 0 <= j < e.len() ==> (#[trigger] e[j]).len() == w,
    ensures
        concat_all(e).len() == e.len() * w,
    decreases e.len(),
{
    if e.len() > 0 {
        assert forall|j: int| 0 <= j < e.drop_first().len() implies (
        #[trigger] e.drop_first()[j]).len() == w by {
            assert(e.drop_first()[j] == e[j + 1]);
        }
        lemma_concat_all_uniform(e.drop_first(), w);
        assert(e.len() * w == w + (e.len() - 1) * w) by (nonlinear_arith);
    }
}

/// In a table of `w`-byte entries, entry `i` sits at `i * w`.
proof fn lemma_table_entry(e: Seq<Seq<u8>>, w: nat, i: int)
    requires
        forall|j: int| 0 <= j < e.len() ==> (#[trigger] e[j]).len() == w,
        0 <= i < e.len(),
    ensures
        concat_all(e).subrange(i * w, i * w + w) == e[i],
        concat_all(e).len() == e.len() * w,
{
    assert(e =~= e.take(i) + e.skip(i));
    lemma_concat_all_append(e.take(i), e.skip(i));
    lemma_concat_all_uniform(e, w);
    assert forall|j: int| 0 <= j < e.take(i).len() implies (#[trigger] e.take(i)[j]).len()
        == w by {
        assert(e.take(i)[j] == e[j]);
    }
    lemma_concat_all_uniform(e.take(i), w);
    lemma_concat_all_skip(e, i);
    let c = concat_all(e);
    assert(c.subrange(i * w, i * w + w) =~= e[i]);
}

proof fn lemma_decode_encoded_slots(
    decls: Seq<FieldDecl>,
    params: Seq<Option<FieldVal>>,
    lens: Seq<nat>,
    i: nat,
)
    requires
        params_typed(decls, params),
        lens.len() == params.len(),
        forall|j: int| 0 <= j < lens.len() ==> lens[j] == (#[trigger] event_slots(params)[j]).len(),
        i <= params.len(),
    ensures
        decode_slots(decls, concat_all(event_slots(params).skip(i as int)), lens, i) == Ok::<
            Seq<Option<FieldVal>>,
            PayloadError,
        >(normalize(params).skip(i as int)),
    decreases params.len() - i,
{
    let slots = event_slots(params);
    let region = concat_all(slots.skip(i as int));
    if i == params.len() {
        assert(normalize(params).skip(i as int) =~= Seq::<Option<FieldVal>>::empty());
    } else {
        lemma_concat_all_skip(slots, i as int);
        let slot = slots[i as int];
        assert(region.take(lens[i as int] as int) =~= slot);
        assert(region.skip(lens[i as int] as int) =~= concat_all(slots.skip(i as int + 1)));
        lemma_decode_encoded_slots(decls, params, lens, i + 1);
        let o = normalize(params)[i as int];
        match params[i as int] {
            Some(v) => {
                if encode_field(v).len() > 0 {
                    crate::laws::lemma_round_trip(v, decls[i as int].ty);
                }
            },
            None => {},
        }
        assert(decode_slot(decls[i as int], slot) == Ok::<Option<FieldVal>, PayloadError>(o));
        assert(seq![o] + normalize(params).skip(i as int + 1) =~= normalize(params).skip(i as int));
    }
}

/// Envelope round trip: an event whose parameters match its kind's layout
/// and fit the envelope encodes to bytes whose header gives back its
/// metadata, code and field count, and whose payload decodes, against the
/// same layout, to its parameters (a present value with an empty encoding
/// coming back absent).
pub proof fn lemma_event_round_trip(meta: EventMetadata, k: EventKind, params: Seq<Option<FieldVal>>)
    requires
        params_typed(kind_layout(k), params),
        encodable(params, kind_large(k)),
    ensures
        ({
            let b = encode_event_bytes(meta, kind_code(k), kind_large(k), params);
            &&& header_ok(b)
            &&& header_len(b) == b.len()
            &&& le_value(b.take(8)) == meta.ts
            &&& le_value(b.subrange(8, 16)) == meta.tid
            &&& le_value(b.subrange(20, 22)) == kind_code(k)
            &&& le_value(b.subrange(22, 24)) == params.len()
            &&& decode_payload(
                kind_layout(k),
                b.subrange(HEADER_SIZE as int, b.len() as int),
                params.len(),
                kind_large(k),
            ) == Ok::<Seq<Option<FieldVal>>, PayloadError>(normalize(params))
        }),
{
    let large = kind_large(k);
    let w = width(large);
    let n = params.len();
    let slots = event_slots(params);
    let entries = Seq::new(slots.len(), |j: int| le_bytes(slots[j].len(), w));
    let table = length_table(slots, w);
    let body = concat_all(slots);
    let size = event_size(params, large);
    let h = header_bytes(meta, size, kind_code(k), n);
    let b = encode_event_bytes(meta, kind_code(k), large, params);
    lemma_pow256_values();
    crate::wire::lemma_le_bytes_len(meta.ts as nat, 8);
    crate::wire::lemma_le_bytes_len(meta.tid as nat, 8);
    crate::wire::lemma_le_bytes_len(size, 4);
    crate::wire::lemma_le_bytes_len(kind_code(k) as nat, 2);
    crate::wire::lemma_le_bytes_len(n, 2);
    crate::wire::lemma_le_round_trip(meta.ts as nat, 8);
    crate::wire::lemma_le_round_trip(meta.tid as nat, 8);
    crate::wire::lemma_le_round_trip(size, 4);
    crate::wire::lemma_le_round_trip(kind_code(k) as nat, 2);
    crate::wire::lemma_le_round_trip(n, 2);
    assert forall|j: int| 0 <= j < entries.len() implies (#[trigger] entries[j]).len() == w by {
        crate::wire::lemma_le_bytes_len(slots[j].len(), w);
    }
    lemma_concat_all_uniform(entries, w);
    assert(b =~= h + table + body);
    assert(b.take(8) =~= le_bytes(meta.ts as nat, 8));
    assert(b.subrange(8, 16) =~= le_bytes(meta.tid as nat, 8));
    assert(b.subrange(16, 20) =~= le_bytes(size, 4));
    assert(b.subrange(20, 22) =~= le_bytes(kind_code(k) as nat, 2));
    assert(b.subrange(22, 24) =~= le_bytes(n, 2));
    let payload = b.subrange(HEADER_SIZE as int, b.len() as int);
    assert(payload =~= table + body);
    assert(payload.skip(n * w as int) =~= body);
    let lens = lengths_of(payload, n, w);
    assert forall|j: int| 0 <= j < lens.len() implies lens[j] == (
    #[trigger] event_slots(params)[j]).len() by {
        lemma_table_entry(entries, w, j);
        assert(j * w + w <= n * w) by (nonlinear_arith)
            requires
                j < n,
        ;
        assert(payload.subrange(j * w, j * w + w) =~= table.subrange(j * w, j * w + w));
        assert(slot_bytes(params[j]).len() < pow256(w));
        crate::wire::lemma_le_round_trip(slots[j].len(), w);
    }
    lemma_decode_encoded_slots(kind_layout(k), params, lens, 0);
    assert(slots.skip(0) =~= slots);
    assert(normalize(params).skip(0) =~= normalize(params));
}

/// Absence: an empty slot decodes to an absent field, whatever the field's
/// type, and an absent field encodes to an empty slot.
pub proof fn lemma_absence(d: FieldDecl)
    ensures
        decode_slot(d, Seq::empty()) == Ok::<Option<FieldVal>, PayloadError>(None),
        slot_bytes(None) == Seq::<u8>::empty(),
{
}


/// A successful decode has one parameter per declared field.
pub proof fn lemma_decode_payload_len(decls: Seq<FieldDecl>, payload: Seq<u8>, n: nat, large: bool)
    ensures
        decode_payload(decls, payload, n, large) matches Ok(ps) ==> ps.len() == decls.len(),
{
    let w = width(large);
    if payload.len() >= n * w {
        lemma_decode_slots_len(decls, payload.skip(n * w as int), lengths_of(payload, n, w), 0);
    }
}

proof fn lemma_decode_slots_len(decls: Seq<FieldDecl>, region: Seq<u8>, lens: Seq<nat>, i: nat)
    ensures
        decode_slots(decls, region, lens, i) matches Ok(ps) ==> ps.len() == decls.len() - i
            || i > decls.len(),
    decreases decls.len() - i,
{
    if i < decls.len() {
        if i >= lens.len() {
            lemma_decode_slots_len(decls, region, lens, i + 1);
        } else if lens[i as int] <= region.len() {
            lemma_decode_slots_len(decls, region.skip(lens[i as int] as int), lens, i + 1);
        }
    }
}


/// The directory descriptor held by parameter `j`, if it is one.
pub open spec fn fd_param(params: Seq<Option<FieldValue>>, j: int) -> Option<i64> {
    if 0 <= j < params.len() {
        match params[j] {
            Some(FieldValue::I64(fd)) => Some(fd),
            _ => None,
        }
    } else {
        None
    }
}

impl<'a> Event<'a> {
    /// For a relative-path field: the directory descriptor it is relative
    /// to, read from the field that the layout names for it.
    pub fn dirfd_of(&self, i: usize) -> (r: Option<i64>)
        ensures
            i < kind_layout(self.kind).len() ==> (kind_layout(self.kind)[i as int].dirfd matches Some(
                j,
            ) ==> r == fd_param(self.params@, j as int)),
            !(i < kind_layout(self.kind).len() && kind_layout(self.kind)[i as int].dirfd is Some)
                ==> r is None,
    {
        let decls = self.kind.layout();
        if i >= decls.len() {
            return None;
        }
        match decls[i].dirfd {
            Some(j) => {
                if j < self.params.len() {
                    match &self.params[j] {
                        Some(FieldValue::I64(fd)) => Some(*fd),
                        _ => None,
                    }
                } else {
                    None
                }
            },
            None => None,
        }
    }
}

} // verus!
