//! Laws of the field codec: decoding inverts encoding, string-pair arrays
//! pair up exactly the even-length string sequences, and dynamic
//! parameters keep their tag.
use vstd::prelude::*;
use crate::codec::default_encoding;
use crate::dynamic::{DynKind, dyn_variant};
use crate::value::{
    FieldError, FieldType, FieldVal, SockAddrVal, all_no_nul, concat_cstrs, encode_field,
    encode_sockaddr, flat_pairs, has_type, pairing, parse_cstr, parse_cstrs, parse_field, parse_le,
    parse_sockaddr, sockaddr_valid,
};
use crate::wire::{
    bits_i64, cstr, i64_bits, le_bytes, le_value, lemma_le_bytes_len, lemma_le_round_trip,
    lemma_nul_index_cstr, lemma_pow256_values, no_nul, nul_index, pow256,
};

verus! {

proof fn lemma_parse_le_round_trip(x: nat, w: nat)
    requires
        x < pow256(w),
    ensures
        parse_le(le_bytes(x, w), w) == Ok::<(nat, nat), FieldError>((x, w)),
        le_bytes(x, w).len() == w,
{
    lemma_le_bytes_len(x, w);
    lemma_le_round_trip(x, w);
    assert(le_bytes(x, w).take(w as int) =~= le_bytes(x, w));
}

proof fn lemma_parse_cstr_round_trip(s: Seq<u8>)
    requires
        no_nul(s),
    ensures
        parse_cstr(cstr(s)) == Ok::<(Seq<u8>, nat), FieldError>((s, s.len() + 1)),
{
    lemma_nul_index_cstr(s, Seq::empty());
    assert(cstr(s) + Seq::<u8>::empty() =~= cstr(s));
    assert(cstr(s).take(s.len() as int) =~= s);
}

/// A flat sequence of NUL-free strings decodes back to itself.
pub proof fn lemma_parse_cstrs_round_trip(a: Seq<Seq<u8>>)
    requires
        all_no_nul(a),
    ensures
        parse_cstrs(concat_cstrs(a)) == Ok::<Seq<Seq<u8>>, FieldError>(a),
    decreases a.len(),
{
    if a.len() == 0 {
        assert(a =~= Seq::<Seq<u8>>::empty());
    } else {
        let s = concat_cstrs(a);
        let rest = concat_cstrs(a.drop_first());
        assert(no_nul(a[0]));
        lemma_nul_index_cstr(a[0], rest);
        assert(s.skip(a[0].len() as int + 1) =~= rest);
        assert(s.take(a[0].len() as int) =~= a[0]);
        assert(all_no_nul(a.drop_first())) by {
            assert forall|i: int| 0 <= i < a.drop_first().len() implies no_nul(
                #[trigger] a.drop_first()[i],
            ) by {
                assert(a.drop_first()[i] == a[i + 1]);
            }
        }
        lemma_parse_cstrs_round_trip(a.drop_first());
        assert(seq![a[0]] + a.drop_first() =~= a);
    }
}

proof fn lemma_sockaddr_round_trip(a: SockAddrVal)
    requires
        sockaddr_valid(a),
    ensures
        parse_sockaddr(encode_sockaddr(a)) == Ok::<(SockAddrVal, nat), FieldError>(
            (a, encode_sockaddr(a).len()),
        ),
{
    let s = encode_sockaddr(a);
    lemma_pow256_values();
    match a {
        SockAddrVal::Unix(p) => {
            assert(s.drop_first() =~= cstr(p));
            lemma_parse_cstr_round_trip(p);
        },
        SockAddrVal::V4(addr, port) => {
            lemma_le_bytes_len(port as nat, 2);
            lemma_le_round_trip(port as nat, 2);
            assert(s.drop_first().take(4) =~= addr);
            assert(s.drop_first().subrange(4, 6) =~= le_bytes(port as nat, 2));
        },
        SockAddrVal::V6(addr, port) => {
            lemma_le_bytes_len(port as nat, 2);
            lemma_le_round_trip(port as nat, 2);
            assert(s.drop_first().take(16) =~= addr);
            assert(s.drop_first().subrange(16, 18) =~= le_bytes(port as nat, 2));
        },
        SockAddrVal::Other(af, raw) => {
            assert(s.drop_first() =~= raw);
        },
    }
}

/// Round trip: decoding the encoding of any value of type `t` gives the value
/// back and takes every byte of the encoding.
pub proof fn lemma_round_trip(v: FieldVal, t: FieldType)
    requires
        has_type(v, t),
    ensures
        parse_field(t, encode_field(v)) == Ok::<(FieldVal, nat), FieldError>(
            (v, encode_field(v).len()),
        ),
    decreases v,
{
    lemma_pow256_values();
    let s = encode_field(v);
    match v {
        FieldVal::U8(x) => {
            assert(s.take(1) =~= seq![x]);
            reveal_with_fuel(le_value, 2);
            assert(le_value(seq![x]) == x as nat);
            assert(s.len() == 1);
        },
        FieldVal::U16(x) => { lemma_parse_le_round_trip(x as nat, 2); }
        FieldVal::U32(x) => lemma_parse_le_round_trip(x as nat, 4),
        FieldVal::U64(x) => lemma_parse_le_round_trip(x as nat, 8),
        FieldVal::I64(x) => {
            lemma_parse_le_round_trip(i64_bits(x), 8);
            assert(bits_i64(i64_bits(x)) == x);
        },
        FieldVal::Bool(b) => { lemma_parse_le_round_trip(if b { 1 } else { 0 }, 4); }
        FieldVal::RelTime(x) => lemma_parse_le_round_trip(x as nat, 8),
        FieldVal::AbsTime(x) => lemma_parse_le_round_trip(x as nat, 8),
        FieldVal::Port(x) => lemma_parse_le_round_trip(x as nat, 2),
        FieldVal::Ipv4Addr(a) => assert(a.take(4) =~= a),
        FieldVal::Ipv4Net(a) => assert(a.take(4) =~= a),
        FieldVal::Ipv6Addr(a) => assert(a.take(16) =~= a),
        FieldVal::IpAddr(a) => { },
        FieldVal::IpNet(a) => { },
        FieldVal::CharBuf(p) => { lemma_parse_cstr_round_trip(p); }
        FieldVal::ByteBuf(p) => { },
        FieldVal::FsPath(p) => lemma_parse_cstr_round_trip(p),
        FieldVal::FsRelPath(p) => lemma_parse_cstr_round_trip(p),
        FieldVal::CharBufArray(a) => { lemma_parse_cstrs_round_trip(a); }
        FieldVal::CharBufPairArray(p) => {
            let f = flat_pairs(p);
            lemma_parse_cstrs_round_trip(f);
            assert(f.len() % 2 == 0);
            assert(pairing(f) =~= p);
        },
        FieldVal::SockAddr(a) => { lemma_sockaddr_round_trip(a); }
        FieldVal::Dyn(k, tag, inner) => {
            let t2 = dyn_variant(k, tag)->Some_0;
            lemma_round_trip(*inner, t2);
            assert(s.drop_first() =~= encode_field(*inner));
            assert(s.len() == encode_field(*inner).len() + 1);
        },
    }
}

/// Pairing: a flat sequence of NUL-free strings, read as a string-pair
/// array, fails with `OddItemCount` when it holds an odd number of strings,
/// and otherwise gives the strings paired up in order.
pub proof fn lemma_pairing(a: Seq<Seq<u8>>)
    requires
        all_no_nul(a),
    ensures
        a.len() % 2 == 1 ==> parse_field(FieldType::CharBufPairArray, concat_cstrs(a)) == Err::<
            (FieldVal, nat),
            FieldError,
        >(FieldError::OddItemCount),
        a.len() % 2 == 0 ==> parse_field(FieldType::CharBufPairArray, concat_cstrs(a)) == Ok::<
            (FieldVal, nat),
            FieldError,
        >((FieldVal::CharBufPairArray(pairing(a)), concat_cstrs(a).len())),
        a.len() % 2 == 0 ==> flat_pairs(pairing(a)) == a,
{
    lemma_parse_cstrs_round_trip(a);
    if a.len() % 2 == 0 {
        assert(flat_pairs(pairing(a)) =~= a);
    }
}

/// Dynamic tags: a tag that the declaration does not list fails with
/// `InvalidDynDiscriminant`, whatever follows it; a listed tag followed by
/// the encoding of a value of its type decodes to that tag and value.
pub proof fn lemma_dyn_tag(k: DynKind, tag: u8, rest: Seq<u8>, v: FieldVal)
    ensures
        dyn_variant(k, tag) is None ==> parse_field(FieldType::Dyn(k), seq![tag] + rest) == Err::<
            (FieldVal, nat),
            FieldError,
        >(FieldError::InvalidDynDiscriminant),
        dyn_variant(k, tag) matches Some(t) && has_type(v, t) ==> parse_field(
            FieldType::Dyn(k),
            seq![tag] + encode_field(v),
        ) == Ok::<(FieldVal, nat), FieldError>(
            (FieldVal::Dyn(k, tag, Box::new(v)), encode_field(v).len() + 1),
        ),
{
    if let Some(t) = dyn_variant(k, tag) {
        if has_type(v, t) {
            let d = FieldVal::Dyn(k, tag, Box::new(v));
            assert(has_type(d, FieldType::Dyn(k)));
            lemma_round_trip(d, FieldType::Dyn(k));
            assert(encode_field(d) == seq![tag] + encode_field(v));
        }
    }
}

/// Defaults: the default encoding of a type, where it has one and it is
/// not empty, decodes to a value of that type and is read to its end.
pub proof fn lemma_default_decodes(t: FieldType)
    ensures
        default_encoding(t) matches Some(b) ==> (b.len() > 0 ==> (parse_field(t, b) matches Ok(
            (v, n),
        ) && n == b.len() && has_type(v, t))),
{
    if let Some(b) = default_encoding(t) {
        if b.len() > 0 {
            match t {
                FieldType::CharBuf | FieldType::FsPath | FieldType::FsRelPath => {
                    assert(b[0] == 0);
                    assert(nul_index(b) == Some(0nat));
                    assert(no_nul(b.take(0)));
                },
                FieldType::SockAddr => {
                    assert(b[0] == 0);
                },
                FieldType::Ipv4Addr | FieldType::Ipv4Net => assert(b.take(4) =~= b),
                FieldType::Ipv6Addr => assert(b.take(16) =~= b),
                _ => {},
            }
        }
    }
}

/// Wrapper types: an IPv4 network encodes and decodes exactly as an IPv4
/// address, an IP network as an IP address, and both kinds of path as a
/// string.
pub proof fn lemma_wrappers_like_wrapped(a: Seq<u8>, s: Seq<u8>)
    ensures
        encode_field(FieldVal::Ipv4Net(a)) == encode_field(FieldVal::Ipv4Addr(a)),
        encode_field(FieldVal::IpNet(a)) == encode_field(FieldVal::IpAddr(a)),
        encode_field(FieldVal::FsPath(a)) == encode_field(FieldVal::CharBuf(a)),
        encode_field(FieldVal::FsRelPath(a)) == encode_field(FieldVal::CharBuf(a)),
        match parse_field(FieldType::Ipv4Addr, s) {
            Ok((FieldVal::Ipv4Addr(x), n)) => parse_field(FieldType::Ipv4Net, s) == Ok::<
                (FieldVal, nat),
                FieldError,
            >((FieldVal::Ipv4Net(x), n)),
            Ok(_) => false,
            Err(e) => parse_field(FieldType::Ipv4Net, s) == Err::<(FieldVal, nat), FieldError>(e),
        },
        match parse_field(FieldType::IpAddr, s) {
            Ok((FieldVal::IpAddr(x), n)) => parse_field(FieldType::IpNet, s) == Ok::<
                (FieldVal, nat),
                FieldError,
            >((FieldVal::IpNet(x), n)),
            Ok(_) => false,
            Err(e) => parse_field(FieldType::IpNet, s) == Err::<(FieldVal, nat), FieldError>(e),
        },
        match parse_field(FieldType::CharBuf, s) {
            Ok((FieldVal::CharBuf(x), n)) => parse_field(FieldType::FsPath, s) == Ok::<
                (FieldVal, nat),
                FieldError,
            >((FieldVal::FsPath(x), n)) && parse_field(FieldType::FsRelPath, s) == Ok::<
                (FieldVal, nat),
                FieldError,
            >((FieldVal::FsRelPath(x), n)),
            Ok(_) => false,
            Err(e) => parse_field(FieldType::FsPath, s) == Err::<(FieldVal, nat), FieldError>(e)
                && parse_field(FieldType::FsRelPath, s) == Err::<(FieldVal, nat), FieldError>(e),
        },
{
}

} // verus!
