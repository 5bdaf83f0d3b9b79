//! Decoding and encoding of single field values, proved against the wire
//! format of `value`, and the laws that tie the two directions together.
use vstd::prelude::*;
use crate::dynamic::dyn_variant_type;
use crate::value::{
    AF_INET, AF_INET6, AF_LOCAL, DynParam, FieldError, FieldType, FieldVal, FieldValue, IpAddr,
    IpNet, Ipv4Net, RelativePath, SockAddr, SockAddrVal, concat_cstrs, encode_field,
    encode_sockaddr, flat_pairs, pairing, pairs_view, parse_cstr, parse_cstrs, parse_field,
    parse_le, strs_view, type_rank,
};
use crate::wire::{
    bits_i64, cstr, find_nul, i64_bits, lemma_le_bytes_len, lemma_le_value_bound,
    lemma_nul_index_spec, lemma_pow256_values, pow256, read_le, write_bytes, write_le,
};

verus! {

/// Reads a `w`-byte little-endian number at `pos`.
fn read_fixed(buf: &[u8], pos: usize, w: usize) -> (r: Result<(u64, usize), FieldError>)
    requires
        1 <= w <= 8,
        pos <= buf@.len(),
    ensures
        match parse_le(buf@.skip(pos as int), w as nat) {
            Ok((x, n)) => r matches Ok((y, m)) && y as nat == x && m == pos + n && x < pow256(
                w as nat,
            ),
            Err(e) => r matches Err(f) && f == e,
        },
{
    if buf.len() - pos < w {
        Err(FieldError::Truncated)
    } else {
        let x = read_le(buf, pos, w);
        proof {
            assert(buf@.skip(pos as int).take(w as int) =~= buf@.subrange(pos as int, pos + w));
            lemma_le_value_bound(buf@.subrange(pos as int, pos + w));
        }
        Ok((x, pos + w))
    }
}

/// Copies `N` bytes at `pos` into an array.
fn read_array<const N: usize>(buf: &[u8], pos: usize) -> (r: [u8; N])
    requires
        pos + N <= buf@.len(),
    ensures
        r@ == buf@.subrange(pos as int, pos + N),
{
    let mut a = [0u8; N];
    let mut i: usize = 0;
    let len = buf.len();
    while i < N
        invariant
            pos + N <= buf@.len(),
            len == buf@.len(),
            i <= N,
            a@.len() == N,
            forall|j: int| 0 <= j < i ==> a@[j] == buf@[pos + j],
        decreases N - i,
    {
        a[i] = buf[pos + i];
        i = i + 1;
    }
    assert(a@ =~= buf@.subrange(pos as int, pos + N));
    a
}

/// Reads a NUL-terminated string at `pos`; the position after the
/// terminator comes with it.
fn read_cstr<'a>(buf: &'a [u8], pos: usize) -> (r: Result<(&'a [u8], usize), FieldError>)
    requires
        pos <= buf@.len(),
    ensures
        match parse_cstr(buf@.skip(pos as int)) {
            Ok((p, n)) => r matches Ok((s, m)) && s@ == p && m == pos + n && m <= buf@.len(),
            Err(e) => r matches Err(f) && f == e,
        },
{
    let len = buf.len();
    match find_nul(buf, pos) {
        Some(i) => {
            proof {
                lemma_nul_index_spec(buf@.skip(pos as int));
                assert(buf@.skip(pos as int).take(i - pos) =~= buf@.subrange(
                    pos as int,
                    i as int,
                ));
            }
            Ok((vstd::slice::slice_subrange(buf, pos, i), i + 1))
        },
        None => Err(FieldError::Truncated),
    }
}

/// Reads NUL-terminated strings from `pos` to the end of `buf`.
fn read_cstrs<'a>(buf: &'a [u8], pos: usize) -> (r: Result<Vec<&'a [u8]>, FieldError>)
    requires
        pos <= buf@.len(),
    ensures
        match parse_cstrs(buf@.skip(pos as int)) {
            Ok(a) => r matches Ok(v) && strs_view(v@) == a,
            Err(e) => r matches Err(f) && f == e,
        },
{
    let mut out: Vec<&'a [u8]> = Vec::new();
    let mut p: usize = pos;
    let len = buf.len();
    while p < len
        invariant
            pos <= p <= len == buf@.len(),
            parse_cstrs(buf@.skip(pos as int)) == match parse_cstrs(buf@.skip(p as int)) {
                Ok(rest) => Ok(strs_view(out@) + rest),
                Err(e) => Err(e),
            },
        decreases len - p,
    {
        let ghost s = buf@.skip(p as int);
        proof {
            lemma_nul_index_spec(s);
        }
        match find_nul(buf, p) {
            Some(i) => {
                proof {
                    assert(s.skip(i - p + 1) =~= buf@.skip(i + 1));
                    assert(s.take(i - p) =~= buf@.subrange(p as int, i as int));
                }
                let item = vstd::slice::slice_subrange(buf, p, i);
                let ghost old_out = out@;
                out.push(item);
                proof {
                    assert(strs_view(out@) =~= strs_view(old_out) + seq![item@]);
                    match parse_cstrs(buf@.skip(i + 1)) {
                        Ok(rest) => {
                            assert(strs_view(old_out) + (seq![item@] + rest) =~= strs_view(out@)
                                + rest);
                        },
                        Err(e) => {},
                    }
                }
                p = i + 1;
            },
            None => {
                return Err(FieldError::Truncated);
            },
        }
    }
    proof {
        assert(buf@.skip(p as int).len() == 0);
        assert(strs_view(out@) + Seq::<Seq<u8>>::empty() =~= strs_view(out@));
    }
    Ok(out)
}

/// `r` is what reading a value of type `t` at `pos` of `buf` must give:
/// the value and the position after it, or the error, as `parse_field` says.
pub open spec fn read_outcome<'a>(
    t: FieldType,
    buf: Seq<u8>,
    pos: int,
    r: Result<(FieldValue<'a>, usize), FieldError>,
) -> bool {
    match parse_field(t, buf.skip(pos)) {
        Ok((v, n)) => r matches Ok((x, m)) && x@ == v && m == pos + n && m <= buf.len(),
        Err(e) => r matches Err(f) && f == e,
    }
}

pub open spec fn is_numeric(t: FieldType) -> bool {
    t == FieldType::U8 || t == FieldType::U16 || t == FieldType::U32 || t == FieldType::U64
        || t == FieldType::I64 || t == FieldType::Bool || t == FieldType::RelTime || t
        == FieldType::AbsTime || t == FieldType::Port
}

pub open spec fn is_address(t: FieldType) -> bool {
    t == FieldType::Ipv4Addr || t == FieldType::Ipv4Net || t == FieldType::Ipv6Addr || t
        == FieldType::IpAddr || t == FieldType::IpNet
}

/// The signed value with the bit pattern `x`.
fn i64_from_bits(x: u64) -> (r: i64)
    ensures
        r == bits_i64(x as nat),
{
    if x <= 0x7fff_ffff_ffff_ffff {
        x as i64
    } else {
        (x - 0x8000_0000_0000_0000) as i64 + i64::MIN
    }
}

/// Reads a fixed-width number.
fn read_numeric<'a>(t: FieldType, buf: &'a [u8], pos: usize) -> (r: Result<
    (FieldValue<'a>, usize),
    FieldError,
>)
    requires
        pos <= buf@.len(),
        is_numeric(t),
    ensures
        read_outcome(t, buf@, pos as int, r),
{
    proof {
        lemma_pow256_values();
    }
    let w: usize = match t {
        FieldType::U8 => 1,
        FieldType::U16 | FieldType::Port => 2,
        FieldType::U32 | FieldType::Bool => 4,
        _ => 8,
    };
    match read_fixed(buf, pos, w) {
        Ok((x, m)) => {
            let v = match t {
                FieldType::U8 => FieldValue::U8(x as u8),
                FieldType::U16 => FieldValue::U16(x as u16),
                FieldType::Port => FieldValue::Port(x as u16),
                FieldType::U32 => FieldValue::U32(x as u32),
                FieldType::Bool => FieldValue::Bool(x != 0),
                FieldType::U64 => FieldValue::U64(x),
                FieldType::RelTime => FieldValue::RelTime(x),
                FieldType::AbsTime => FieldValue::AbsTime(x),
                _ => FieldValue::I64(i64_from_bits(x)),
            };
            Ok((v, m))
        },
        Err(e) => Err(e),
    }
}

/// Reads an IP address or network.
fn read_address<'a>(t: FieldType, buf: &'a [u8], pos: usize) -> (r: Result<
    (FieldValue<'a>, usize),
    FieldError,
>)
    requires
        pos <= buf@.len(),
        is_address(t),
    ensures
        read_outcome(t, buf@, pos as int, r),
{
    let ghost s = buf@.skip(pos as int);
    let n = buf.len() - pos;
    if t == FieldType::Ipv4Addr || t == FieldType::Ipv4Net {
        if n < 4 {
            return Err(FieldError::Truncated);
        }
        let a: [u8; 4] = read_array(buf, pos);
        assert(a@ =~= s.take(4));
        if t == FieldType::Ipv4Addr {
            Ok((FieldValue::Ipv4Addr(a), pos + 4))
        } else {
            Ok((FieldValue::Ipv4Net(Ipv4Net(a)), pos + 4))
        }
    } else if t == FieldType::Ipv6Addr {
        if n < 16 {
            return Err(FieldError::Truncated);
        }
        let a: [u8; 16] = read_array(buf, pos);
        assert(a@ =~= s.take(16));
        Ok((FieldValue::Ipv6Addr(a), pos + 16))
    } else {
        let addr = if n == 4 {
            let a: [u8; 4] = read_array(buf, pos);
            assert(a@ =~= s);
            IpAddr::V4(a)
        } else if n == 16 {
            let a: [u8; 16] = read_array(buf, pos);
            assert(a@ =~= s);
            IpAddr::V6(a)
        } else {
            return Err(FieldError::InvalidLength);
        };
        if t == FieldType::IpAddr {
            Ok((FieldValue::IpAddr(addr), buf.len()))
        } else {
            Ok((FieldValue::IpNet(IpNet(addr)), buf.len()))
        }
    }
}

/// Reads a string, path, byte buffer or string array.
fn read_text<'a>(t: FieldType, buf: &'a [u8], pos: usize) -> (r: Result<
    (FieldValue<'a>, usize),
    FieldError,
>)
    requires
        pos <= buf@.len(),
        !is_numeric(t),
        !is_address(t),
        !(t is SockAddr),
        !(t is Dyn),
    ensures
        read_outcome(t, buf@, pos as int, r),
{
    match t {
        FieldType::CharBuf => match read_cstr(buf, pos) {
            Ok((p, m)) => Ok((FieldValue::CharBuf(p), m)),
            Err(e) => Err(e),
        },
        FieldType::FsPath => match read_cstr(buf, pos) {
            Ok((p, m)) => Ok((FieldValue::FsPath(p), m)),
            Err(e) => Err(e),
        },
        FieldType::FsRelPath => match read_cstr(buf, pos) {
            Ok((p, m)) => Ok((FieldValue::FsRelPath(RelativePath(p)), m)),
            Err(e) => Err(e),
        },
        FieldType::ByteBuf => {
            let b = vstd::slice::slice_subrange(buf, pos, buf.len());
            Ok((FieldValue::ByteBuf(b), buf.len()))
        },
        FieldType::CharBufArray => match read_cstrs(buf, pos) {
            Ok(a) => Ok((FieldValue::CharBufArray(a), buf.len())),
            Err(e) => Err(e),
        },
        _ => match read_cstrs(buf, pos) {
            Ok(flat) => {
                if flat.len() % 2 == 1 {
                    Err(FieldError::OddItemCount)
                } else {
                    let pairs = pair_up(&flat);
                    Ok((FieldValue::CharBufPairArray(pairs), buf.len()))
                }
            },
            Err(e) => Err(e),
        },
    }
}

/// Reads a value of type `t` at `pos`, returning it with the position just
/// after it. The result is exactly what `parse_field` says of the bytes from
/// `pos` on.
pub fn read_field<'a>(t: FieldType, buf: &'a [u8], pos: usize) -> (r: Result<
    (FieldValue<'a>, usize),
    FieldError,
>)
    requires
        pos <= buf@.len(),
    ensures
        read_outcome(t, buf@, pos as int, r),
    decreases type_rank(t),
{
    if let FieldType::Dyn(k) = t {
        let ghost s = buf@.skip(pos as int);
        if pos == buf.len() {
            return Err(FieldError::Truncated);
        }
        let tag = buf[pos];
        match dyn_variant_type(k, tag) {
            Some(t2) => {
                if let FieldType::Dyn(_) = t2 {
                    return Err(FieldError::InvalidDynDiscriminant);
                }
                assert(buf@.skip(pos + 1) =~= s.drop_first());
                match read_field(t2, buf, pos + 1) {
                    Ok((v, m)) => {
                        let d = DynParam { kind: k, tag, value: Box::new(v) };
                        Ok((FieldValue::Dyn(d), m))
                    },
                    Err(e) => Err(e),
                }
            },
            None => Err(FieldError::InvalidDynDiscriminant),
        }
    } else if let FieldType::SockAddr = t {
        read_sockaddr(buf, pos)
    } else if is_numeric_type(t) {
        read_numeric(t, buf, pos)
    } else if is_address_type(t) {
        read_address(t, buf, pos)
    } else {
        read_text(t, buf, pos)
    }
}

fn is_numeric_type(t: FieldType) -> (r: bool)
    ensures
        r == is_numeric(t),
{
    match t {
        FieldType::U8 | FieldType::U16 | FieldType::U32 | FieldType::U64 | FieldType::I64
        | FieldType::Bool | FieldType::RelTime | FieldType::AbsTime | FieldType::Port => true,
        _ => false,
    }
}

fn is_address_type(t: FieldType) -> (r: bool)
    ensures
        r == is_address(t),
{
    match t {
        FieldType::Ipv4Addr | FieldType::Ipv4Net | FieldType::Ipv6Addr | FieldType::IpAddr
        | FieldType::IpNet => true,
        _ => false,
    }
}

/// Takes consecutive strings two by two.
fn pair_up<'a>(flat: &Vec<&'a [u8]>) -> (r: Vec<(&'a [u8], &'a [u8])>)
    requires
        flat@.len() % 2 == 0,
    ensures
        pairs_view(r@) == pairing(strs_view(flat@)),
{
    let mut out: Vec<(&'a [u8], &'a [u8])> = Vec::new();
    let mut i: usize = 0;
    let n = flat.len() / 2;
    assert(2 * n == flat@.len());
    while i < n
        invariant
            2 * n == flat@.len(),
            flat@.len() <= usize::MAX,
            i <= n,
            out@.len() == i,
            forall|j: int|
                0 <= j < i ==> #[trigger] out@[j] == (flat@[2 * j], flat@[2 * j + 1]),
        decreases n - i,
    {
        out.push((flat[2 * i], flat[2 * i + 1]));
        i = i + 1;
    }
    assert(pairs_view(out@) =~= pairing(strs_view(flat@)));
    out
}

/// Reads a socket address at `pos`.
fn read_sockaddr<'a>(buf: &'a [u8], pos: usize) -> (r: Result<(FieldValue<'a>, usize), FieldError>)
    requires
        pos <= buf@.len(),
    ensures
        read_outcome(FieldType::SockAddr, buf@, pos as int, r),
{
    let ghost s = buf@.skip(pos as int);
    if pos == buf.len() {
        return Err(FieldError::Truncated);
    }
    let af = buf[pos];
    let rest_len = buf.len() - pos - 1;
    assert(buf@.skip(pos + 1) =~= s.drop_first());
    if af == AF_LOCAL {
        match read_cstr(buf, pos + 1) {
            Ok((p, m)) => Ok((FieldValue::SockAddr(SockAddr::Unix(p)), m)),
            Err(e) => Err(e),
        }
    } else if af == AF_INET {
        if rest_len < 6 {
            return Err(FieldError::Truncated);
        }
        let a: [u8; 4] = read_array(buf, pos + 1);
        let port = read_le(buf, pos + 5, 2);
        proof {
            assert(a@ =~= s.drop_first().take(4));
            assert(buf@.subrange(pos + 5, pos + 7) =~= s.drop_first().subrange(4, 6));
            lemma_pow256_values();
            lemma_le_value_bound(buf@.subrange(pos + 5, pos + 7));
        }
        Ok((FieldValue::SockAddr(SockAddr::V4(a, port as u16)), pos + 7))
    } else if af == AF_INET6 {
        if rest_len < 18 {
            return Err(FieldError::Truncated);
        }
        let a: [u8; 16] = read_array(buf, pos + 1);
        let port = read_le(buf, pos + 17, 2);
        proof {
            assert(a@ =~= s.drop_first().take(16));
            assert(buf@.subrange(pos + 17, pos + 19) =~= s.drop_first().subrange(16, 18));
            lemma_pow256_values();
            lemma_le_value_bound(buf@.subrange(pos + 17, pos + 19));
        }
        Ok((FieldValue::SockAddr(SockAddr::V6(a, port as u16)), pos + 19))
    } else {
        let raw = vstd::slice::slice_subrange(buf, pos + 1, buf.len());
        assert(raw@ =~= s.drop_first());
        Ok((FieldValue::SockAddr(SockAddr::Other(af, raw)), buf.len()))
    }
}

} // verus!

verus! {

/// Joining two string arrays joins their encodings.
pub proof fn lemma_concat_cstrs_append(a: Seq<Seq<u8>>, b: Seq<Seq<u8>>)
    ensures
        concat_cstrs(a + b) == concat_cstrs(a) + concat_cstrs(b),
    decreases a.len(),
{
    if a.len() == 0 {
        assert(a + b =~= b);
        assert(concat_cstrs(a) + concat_cstrs(b) =~= concat_cstrs(b));
    } else {
        assert((a + b).drop_first() =~= a.drop_first() + b);
        lemma_concat_cstrs_append(a.drop_first(), b);
        assert(concat_cstrs(a + b) =~= concat_cstrs(a) + concat_cstrs(b));
    }
}

proof fn lemma_concat_cstrs_step(a: Seq<Seq<u8>>, i: int)
    requires
        0 <= i < a.len(),
    ensures
        concat_cstrs(a.take(i + 1)) == concat_cstrs(a.take(i)) + cstr(a[i]),
{
    assert(a.take(i + 1) =~= a.take(i) + seq![a[i]]);
    lemma_concat_cstrs_append(a.take(i), seq![a[i]]);
    let one = seq![a[i]];
    assert(one.drop_first() =~= Seq::<Seq<u8>>::empty());
    assert(one[0] == a[i]);
    assert(concat_cstrs(one) == cstr(one[0]) + concat_cstrs(one.drop_first()));
    assert(concat_cstrs(one) =~= cstr(a[i]));
}

proof fn lemma_flat_pairs_step(p: Seq<(Seq<u8>, Seq<u8>)>, i: int)
    requires
        0 <= i < p.len(),
    ensures
        concat_cstrs(flat_pairs(p.take(i + 1))) == concat_cstrs(flat_pairs(p.take(i))) + cstr(
            p[i].0,
        ) + cstr(p[i].1),
{
    let f = flat_pairs(p.take(i + 1));
    assert(flat_pairs(p.take(i)) =~= f.take(2 * i));
    assert(f.take(2 * i + 1) =~= f.take(2 * i) + seq![p[i].0]);
    assert(f.take(2 * i + 2) =~= f);
    lemma_concat_cstrs_step(f, 2 * i);
    lemma_concat_cstrs_step(f, 2 * i + 1);
}

/// The bit pattern of a signed value.
fn i64_to_bits(v: i64) -> (r: u64)
    ensures
        r as nat == i64_bits(v),
{
    if v >= 0 {
        v as u64
    } else {
        (v - i64::MIN) as u64 + 0x8000_0000_0000_0000
    }
}

/// Appends a string and its terminator.
fn write_cstr(s: &[u8], out: &mut Vec<u8>)
    ensures
        final(out)@ == old(out)@ + cstr(s@),
{
    write_bytes(s, out);
    out.push(0);
    assert(out@ =~= old(out)@ + cstr(s@));
}

fn write_sockaddr(a: &SockAddr, out: &mut Vec<u8>)
    ensures
        final(out)@ == old(out)@ + encode_sockaddr(a@),
{
    match a {
        SockAddr::Unix(p) => {
            out.push(AF_LOCAL);
            write_cstr(p, out);
        },
        SockAddr::V4(addr, port) => {
            out.push(AF_INET);
            write_bytes(addr.as_slice(), out);
            write_le(*port as u64, 2, out);
        },
        SockAddr::V6(addr, port) => {
            out.push(AF_INET6);
            write_bytes(addr.as_slice(), out);
            write_le(*port as u64, 2, out);
        },
        SockAddr::Other(af, raw) => {
            out.push(*af);
            write_bytes(raw, out);
        },
    }
    assert(out@ =~= old(out)@ + encode_sockaddr(a@));
}

fn write_ip(a: &IpAddr, out: &mut Vec<u8>)
    ensures
        final(out)@ == old(out)@ + crate::value::ip_view(*a),
{
    match a {
        IpAddr::V4(b) => write_bytes(b.as_slice(), out),
        IpAddr::V6(b) => write_bytes(b.as_slice(), out),
    }
}

fn write_cstrs(a: &Vec<&[u8]>, out: &mut Vec<u8>)
    ensures
        final(out)@ == old(out)@ + concat_cstrs(strs_view(a@)),
{
    let ghost sv = strs_view(a@);
    let mut i: usize = 0;
    while i < a.len()
        invariant
            i <= a@.len(),
            sv == strs_view(a@),
            out@ == old(out)@ + concat_cstrs(sv.take(i as int)),
        decreases a@.len() - i,
    {
        proof {
            lemma_concat_cstrs_step(sv, i as int);
        }
        write_cstr(a[i], out);
        i = i + 1;
        assert(out@ =~= old(out)@ + concat_cstrs(sv.take(i as int)));
    }
    assert(sv.take(i as int) =~= sv);
}

fn write_pairs(a: &Vec<(&[u8], &[u8])>, out: &mut Vec<u8>)
    ensures
        final(out)@ == old(out)@ + concat_cstrs(flat_pairs(pairs_view(a@))),
{
    let ghost pv = pairs_view(a@);
    let mut i: usize = 0;
    assert(flat_pairs(pv.take(0)) =~= Seq::<Seq<u8>>::empty());
    while i < a.len()
        invariant
            i <= a@.len(),
            pv == pairs_view(a@),
            out@ == old(out)@ + concat_cstrs(flat_pairs(pv.take(i as int))),
        decreases a@.len() - i,
    {
        proof {
            lemma_flat_pairs_step(pv, i as int);
        }
        let (k, v) = a[i];
        write_cstr(k, out);
        write_cstr(v, out);
        i = i + 1;
        assert(out@ =~= old(out)@ + concat_cstrs(flat_pairs(pv.take(i as int))));
    }
    assert(pv.take(i as int) =~= pv);
}

impl<'a> FieldValue<'a> {
    /// Appends the encoding of this value to `out`.
    pub fn write(&self, out: &mut Vec<u8>)
        ensures
            final(out)@ == old(out)@ + encode_field(self@),
        decreases self,
    {
        match self {
            FieldValue::U8(x) => out.push(*x),
            FieldValue::U16(x) => write_le(*x as u64, 2, out),
            FieldValue::U32(x) => write_le(*x as u64, 4, out),
            FieldValue::U64(x) => write_le(*x, 8, out),
            FieldValue::I64(x) => write_le(i64_to_bits(*x), 8, out),
            FieldValue::Bool(b) => write_le(
                if *b {
                    1
                } else {
                    0
                },
                4,
                out,
            ),
            FieldValue::RelTime(x) => write_le(*x, 8, out),
            FieldValue::AbsTime(x) => write_le(*x, 8, out),
            FieldValue::Port(x) => write_le(*x as u64, 2, out),
            FieldValue::Ipv4Addr(a) => write_bytes(a.as_slice(), out),
            FieldValue::Ipv4Net(n) => write_bytes(n.0.as_slice(), out),
            FieldValue::Ipv6Addr(a) => write_bytes(a.as_slice(), out),
            FieldValue::IpAddr(a) => write_ip(a, out),
            FieldValue::IpNet(n) => write_ip(&n.0, out),
            FieldValue::CharBuf(s) => write_cstr(s, out),
            FieldValue::ByteBuf(s) => write_bytes(s, out),
            FieldValue::FsPath(s) => write_cstr(s, out),
            FieldValue::FsRelPath(p) => write_cstr(p.0, out),
            FieldValue::CharBufArray(a) => write_cstrs(a, out),
            FieldValue::CharBufPairArray(a) => write_pairs(a, out),
            FieldValue::SockAddr(a) => write_sockaddr(a, out),
            FieldValue::Dyn(d) => {
                out.push(d.tag);
                d.value.write(out);
                assert(out@ =~= old(out)@ + encode_field(self@));
            },
        }
        assert(out@ =~= old(out)@ + encode_field(self@));
    }

    /// The number of bytes that encode this value.
    pub fn binary_size(&self) -> (r: usize)
        requires
            encode_field(self@).len() <= usize::MAX,
        ensures
            r == encode_field(self@).len(),
        decreases self,
    {
        proof {
            lemma_pow256_values();
            lemma_encode_len_fixed(self@);
        }
        match self {
            FieldValue::U8(_) => 1,
            FieldValue::U16(_) | FieldValue::Port(_) => 2,
            FieldValue::U32(_) | FieldValue::Bool(_) => 4,
            FieldValue::U64(_) | FieldValue::I64(_) | FieldValue::RelTime(_)
            | FieldValue::AbsTime(_) => 8,
            FieldValue::Ipv4Addr(_) | FieldValue::Ipv4Net(_) => 4,
            FieldValue::Ipv6Addr(_) => 16,
            FieldValue::IpAddr(a) | FieldValue::IpNet(IpNet(a)) => match a {
                IpAddr::V4(_) => 4,
                IpAddr::V6(_) => 16,
            },
            FieldValue::CharBuf(s) | FieldValue::FsPath(s) | FieldValue::FsRelPath(
                RelativePath(s),
            ) => s.len() + 1,
            FieldValue::ByteBuf(s) => s.len(),
            FieldValue::CharBufArray(a) => cstrs_size(a),
            FieldValue::CharBufPairArray(a) => pairs_size(a),
            FieldValue::SockAddr(a) => match a {
                SockAddr::Unix(p) => p.len() + 2,
                SockAddr::V4(_, _) => 7,
                SockAddr::V6(_, _) => 19,
                SockAddr::Other(_, raw) => raw.len() + 1,
            },
            FieldValue::Dyn(d) => 1 + d.value.binary_size(),
        }
    }
}

/// Lengths of the fixed-width encodings.
proof fn lemma_encode_len_fixed(v: FieldVal)
    ensures
        match v {
            FieldVal::U16(x) => encode_field(v).len() == 2,
            FieldVal::Port(x) => encode_field(v).len() == 2,
            FieldVal::U32(x) => encode_field(v).len() == 4,
            FieldVal::Bool(x) => encode_field(v).len() == 4,
            FieldVal::U64(x) => encode_field(v).len() == 8,
            FieldVal::I64(x) => encode_field(v).len() == 8,
            FieldVal::RelTime(x) => encode_field(v).len() == 8,
            FieldVal::AbsTime(x) => encode_field(v).len() == 8,
            FieldVal::SockAddr(SockAddrVal::V4(a, p)) => encode_field(v).len() == 3 + a.len(),
            FieldVal::SockAddr(SockAddrVal::V6(a, p)) => encode_field(v).len() == 3 + a.len(),
            _ => true,
        },
{
    match v {
        FieldVal::U16(x) => lemma_le_bytes_len(x as nat, 2),
        FieldVal::Port(x) => lemma_le_bytes_len(x as nat, 2),
        FieldVal::U32(x) => lemma_le_bytes_len(x as nat, 4),
        FieldVal::Bool(x) => lemma_le_bytes_len(if x { 1 } else { 0 }, 4),
        FieldVal::U64(x) => lemma_le_bytes_len(x as nat, 8),
        FieldVal::I64(x) => lemma_le_bytes_len(i64_bits(x), 8),
        FieldVal::RelTime(x) => lemma_le_bytes_len(x as nat, 8),
        FieldVal::AbsTime(x) => lemma_le_bytes_len(x as nat, 8),
        FieldVal::SockAddr(SockAddrVal::V4(a, p)) => lemma_le_bytes_len(p as nat, 2),
        FieldVal::SockAddr(SockAddrVal::V6(a, p)) => lemma_le_bytes_len(p as nat, 2),
        _ => {},
    }
}

proof fn lemma_concat_take_len(a: Seq<Seq<u8>>, i: int)
    requires
        0 <= i <= a.len(),
    ensures
        concat_cstrs(a.take(i)).len() <= concat_cstrs(a).len(),
{
    assert(a =~= a.take(i) + a.skip(i));
    lemma_concat_cstrs_append(a.take(i), a.skip(i));
}

fn cstrs_size(a: &Vec<&[u8]>) -> (r: usize)
    requires
        concat_cstrs(strs_view(a@)).len() <= usize::MAX,
    ensures
        r == concat_cstrs(strs_view(a@)).len(),
{
    let ghost sv = strs_view(a@);
    let mut total: usize = 0;
    let mut i: usize = 0;
    while i < a.len()
        invariant
            i <= a@.len(),
            sv == strs_view(a@),
            concat_cstrs(sv).len() <= usize::MAX,
            total == concat_cstrs(sv.take(i as int)).len(),
        decreases a@.len() - i,
    {
        proof {
            lemma_concat_cstrs_step(sv, i as int);
            lemma_concat_take_len(sv, i + 1);
        }
        total = total + a[i].len() + 1;
        i = i + 1;
    }
    assert(sv.take(i as int) =~= sv);
    total
}

fn pairs_size(a: &Vec<(&[u8], &[u8])>) -> (r: usize)
    requires
        concat_cstrs(flat_pairs(pairs_view(a@))).len() <= usize::MAX,
    ensures
        r == concat_cstrs(flat_pairs(pairs_view(a@))).len(),
{
    let ghost pv = pairs_view(a@);
    let mut total: usize = 0;
    let mut i: usize = 0;
    assert(flat_pairs(pv.take(0)) =~= Seq::<Seq<u8>>::empty());
    while i < a.len()
        invariant
            i <= a@.len(),
            pv == pairs_view(a@),
            concat_cstrs(flat_pairs(pv)).len() <= usize::MAX,
            total == concat_cstrs(flat_pairs(pv.take(i as int))).len(),
        decreases a@.len() - i,
    {
        proof {
            lemma_flat_pairs_step(pv, i as int);
            let f = flat_pairs(pv);
            assert(flat_pairs(pv.take(i + 1)) =~= f.take(2 * i + 2));
            lemma_concat_take_len(f, 2 * i + 2);
        }
        let (k, v) = a[i];
        total = total + k.len() + 1 + v.len() + 1;
        i = i + 1;
    }
    assert(pv.take(i as int) =~= pv);
    total
}

} // verus!

verus! {

/// The canonical encoding of an empty value of type `t`: zeros for numbers
/// and addresses, the empty string, no bytes for buffers and arrays, an
/// unspecified address family for socket addresses; dynamic parameters have
/// none.
pub open spec fn default_encoding(t: FieldType) -> Option<Seq<u8>> {
    match t {
        FieldType::U8 => Some(Seq::new(1, |i: int| 0u8)),
        FieldType::U16 | FieldType::Port => Some(Seq::new(2, |i: int| 0u8)),
        FieldType::U32 | FieldType::Bool | FieldType::Ipv4Addr | FieldType::Ipv4Net
        | FieldType::IpAddr | FieldType::IpNet => Some(Seq::new(4, |i: int| 0u8)),
        FieldType::U64 | FieldType::I64 | FieldType::RelTime | FieldType::AbsTime => Some(
            Seq::new(8, |i: int| 0u8),
        ),
        FieldType::Ipv6Addr => Some(Seq::new(16, |i: int| 0u8)),
        FieldType::CharBuf | FieldType::FsPath | FieldType::FsRelPath => Some(seq![0u8]),
        FieldType::ByteBuf | FieldType::CharBufArray | FieldType::CharBufPairArray => Some(
            Seq::empty(),
        ),
        FieldType::SockAddr => Some(seq![crate::value::AF_UNSPEC]),
        FieldType::Dyn(_) => None,
    }
}

/// The canonical encoding of an empty value of type `t`, where it has one.
pub fn default_repr(t: FieldType) -> (r: Option<Vec<u8>>)
    ensures
        match default_encoding(t) {
            Some(b) => r matches Some(v) && v@ == b,
            None => r is None,
        },
{
    let n: usize = match t {
        FieldType::U8 => 1,
        FieldType::U16 | FieldType::Port => 2,
        FieldType::U32 | FieldType::Bool | FieldType::Ipv4Addr | FieldType::Ipv4Net
        | FieldType::IpAddr | FieldType::IpNet => 4,
        FieldType::U64 | FieldType::I64 | FieldType::RelTime | FieldType::AbsTime => 8,
        FieldType::Ipv6Addr => 16,
        FieldType::CharBuf | FieldType::FsPath | FieldType::FsRelPath => {
            let mut v: Vec<u8> = Vec::new();
            v.push(0);
            assert(v@ =~= seq![0u8]);
            return Some(v);
        },
        FieldType::ByteBuf | FieldType::CharBufArray | FieldType::CharBufPairArray => {
            let v: Vec<u8> = Vec::new();
            assert(v@ =~= Seq::<u8>::empty());
            return Some(v);
        },
        FieldType::SockAddr => {
            let mut v: Vec<u8> = Vec::new();
            v.push(crate::value::AF_UNSPEC);
            assert(v@ =~= seq![crate::value::AF_UNSPEC]);
            return Some(v);
        },
        FieldType::Dyn(_) => {
            return None;
        },
    };
    let v = vec![0u8; n];
    assert(v@ =~= default_encoding(t)->Some_0);
    Some(v)
}

} // verus!
