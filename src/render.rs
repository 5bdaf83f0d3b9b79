//! Human-readable rendering of socket addresses, paths, string arrays and
//! dynamic parameters.
use vstd::prelude::*;
use vstd::string::StringExecFns;
use crate::dynamic::{dyn_name, dyn_variant, dyn_variant_name};
use crate::envelope::{Event, opt_val};
use crate::registry::{FieldDecl, kind_code, kind_layout, kind_name};
use crate::value::{
    FieldVal, FieldValue, IpAddr, OwnedRelativePath, OwnedSockAddr, RelativePath, SockAddr,
    SockAddrVal, pairs_view, strs_view,
};

verus! {

/// The text of a byte string, invalid UTF-8 sequences replaced.
pub uninterp spec fn lossy_text(b: Seq<u8>) -> Seq<char>;

/// The display text of a Unix path given as bytes.
pub uninterp spec fn unix_path_text(b: Seq<u8>) -> Seq<char>;

/// Relies on `String::from_utf8_lossy`: the text depends on the bytes alone.
#[verifier::external_body]
fn lossy(b: &[u8]) -> (r: String)
    ensures
        r@ == lossy_text(b@),
{
    String::from_utf8_lossy(b).into_owned()
}

/// Relies on typed_path's `UnixPath::new(b).to_string_lossy()`: the text of
/// the path depends on its bytes alone.
#[verifier::external_body]
fn path_text(b: &[u8]) -> (r: String)
    ensures
        r@ == unix_path_text(b@),
{
    typed_path::UnixPath::new(b).to_string_lossy().into_owned()
}

/// The lowercase hexadecimal digit of `d`.
pub open spec fn hex_char(d: nat) -> char {
    if d == 0 { '0' } else if d == 1 { '1' } else if d == 2 { '2' } else if d == 3 { '3' }
    else if d == 4 { '4' } else if d == 5 { '5' } else if d == 6 { '6' } else if d == 7 { '7' }
    else if d == 8 { '8' } else if d == 9 { '9' } else if d == 10 { 'a' } else if d == 11 { 'b' }
    else if d == 12 { 'c' } else if d == 13 { 'd' } else if d == 14 { 'e' } else { 'f' }
}

/// The digits of `n` in base `b`, most significant first, without leading
/// zeros (`0` for zero).
pub open spec fn digits(n: nat, b: nat) -> Seq<char>
    decreases n
        via digits_decreases
{
    if b < 2 || n < b {
        seq![hex_char(n)]
    } else {
        digits(n / b, b) + seq![hex_char(n % b)]
    }
}

#[via_fn]
proof fn digits_decreases(n: nat, b: nat) {
    if !(b < 2 || n < b) {
        assert(n / b < n) by (nonlinear_arith)
            requires
                b >= 2,
                n >= b,
        ;
    }
}

/// A byte as two lowercase hexadecimal digits.
pub open spec fn hex2(x: u8) -> Seq<char> {
    seq![hex_char(x as nat / 16), hex_char(x as nat % 16)]
}

/// Bytes as a bracketed, comma-separated list of two-digit hex numbers.
pub open spec fn hex_list(b: Seq<u8>) -> Seq<char> {
    seq!['['] + hex_items(b) + seq![']']
}

pub open spec fn hex_items(b: Seq<u8>) -> Seq<char>
    decreases b.len(),
{
    if b.len() == 0 {
        Seq::empty()
    } else if b.len() == 1 {
        hex2(b[0])
    } else {
        hex_items(b.drop_last()) + seq![',', ' '] + hex2(b.last())
    }
}

fn push_char(out: &mut String, d: u8)
    requires
        d < 16,
    ensures
        final(out)@ == old(out)@.push(hex_char(d as nat)),
{
    let s: &str = match d {
        0 => "0",
        1 => "1",
        2 => "2",
        3 => "3",
        4 => "4",
        5 => "5",
        6 => "6",
        7 => "7",
        8 => "8",
        9 => "9",
        10 => "a",
        11 => "b",
        12 => "c",
        13 => "d",
        14 => "e",
        _ => "f",
    };
    proof {
        reveal_strlit("0");
        reveal_strlit("1");
        reveal_strlit("2");
        reveal_strlit("3");
        reveal_strlit("4");
        reveal_strlit("5");
        reveal_strlit("6");
        reveal_strlit("7");
        reveal_strlit("8");
        reveal_strlit("9");
        reveal_strlit("a");
        reveal_strlit("b");
        reveal_strlit("c");
        reveal_strlit("d");
        reveal_strlit("e");
        reveal_strlit("f");
    }
    out.append(s);
    assert(out@ =~= old(out)@.push(hex_char(d as nat)));
}

/// Appends the digits of `n` in base `b`.
fn push_digits(out: &mut String, n: u64, b: u64)
    requires
        2 <= b <= 16,
    ensures
        final(out)@ == old(out)@ + digits(n as nat, b as nat),
    decreases n,
{
    if n >= b {
        assert(n / b < n) by (nonlinear_arith)
            requires
                b >= 2,
                n >= b,
        ;
        push_digits(out, n / b, b);
        push_char(out, (n % b) as u8);
    } else {
        push_char(out, n as u8);
    }
    assert(out@ =~= old(out)@ + digits(n as nat, b as nat));
}

fn push_hex2(out: &mut String, x: u8)
    ensures
        final(out)@ == old(out)@ + hex2(x),
{
    push_char(out, x / 16);
    push_char(out, x % 16);
    assert(out@ =~= old(out)@ + hex2(x));
}

fn push_str(out: &mut String, s: &str)
    ensures
        final(out)@ == old(out)@ + s@,
{
    out.append(s);
}

/// Appends `b` as a hex list.
fn push_hex_list(out: &mut String, b: &[u8])
    ensures
        final(out)@ == old(out)@ + hex_list(b@),
{
    proof {
        reveal_strlit("[");
        reveal_strlit("]");
        reveal_strlit(", ");
    }
    let ghost start = out@;
    push_str(out, "[");
    let mut i: usize = 0;
    while i < b.len()
        invariant
            i <= b@.len(),
            out@ == start + seq!['['] + hex_items(b@.take(i as int)),
            ", "@ == seq![',', ' '],
            "]"@ == seq![']'],
        decreases b@.len() - i,
    {
        let ghost before = out@;
        if i > 0 {
            push_str(out, ", ");
        }
        push_hex2(out, b[i]);
        proof {
            let t = b@.take(i + 1);
            assert(t.drop_last() =~= b@.take(i as int));
            assert(t.last() == b@[i as int]);
            if i == 0 {
                assert(hex_items(b@.take(0)) =~= Seq::<char>::empty());
            }
        }
        i = i + 1;
        assert(out@ =~= start + seq!['['] + hex_items(b@.take(i as int)));
    }
    push_str(out, "]");
    assert(b@.take(i as int) =~= b@);
    assert(out@ =~= old(out)@ + hex_list(b@));
}

/// The sixteen-bit groups of an IPv6 address.
pub open spec fn group(a: Seq<u8>, i: int) -> nat {
    a[2 * i] as nat * 256 + a[2 * i + 1] as nat
}

/// The length of the run of zero groups starting at group `i`.
pub open spec fn zero_run(a: Seq<u8>, i: nat) -> nat
    decreases 8 - i,
{
    if i >= 8 || group(a, i as int) != 0 {
        0
    } else {
        1 + zero_run(a, i + 1)
    }
}

/// The start of the first longest run of zero groups among groups `i..8`,
/// compared against the best run found so far.
pub open spec fn best_run_from(a: Seq<u8>, i: nat, best: nat, best_len: nat) -> (nat, nat)
    decreases 8 - i,
{
    if i >= 8 {
        (best, best_len)
    } else if zero_run(a, i) > best_len {
        best_run_from(a, i + 1, i, zero_run(a, i))
    } else {
        best_run_from(a, i + 1, best, best_len)
    }
}

/// Groups `from..to` in hexadecimal, separated by colons.
pub open spec fn groups_text(a: Seq<u8>, from: nat, to: nat) -> Seq<char>
    decreases to - from,
{
    if from >= to {
        Seq::empty()
    } else if from + 1 == to {
        digits(group(a, from as int), 16)
    } else {
        groups_text(a, from, (to - 1) as nat) + seq![':'] + digits(group(a, to - 1), 16)
    }
}

/// The text of an IPv6 address: groups in hexadecimal, the first longest
/// run of two or more zero groups written as `::`.
pub open spec fn ipv6_text(a: Seq<u8>) -> Seq<char> {
    let (start, len) = best_run_from(a, 0, 0, 0);
    if len < 2 {
        groups_text(a, 0, 8)
    } else {
        groups_text(a, 0, start) + seq![':', ':'] + groups_text(a, start + len, 8)
    }
}

/// The text of an IPv4 address: four decimal numbers separated by dots.
pub open spec fn ipv4_text(a: Seq<u8>) -> Seq<char> {
    digits(a[0] as nat, 10) + seq!['.'] + digits(a[1] as nat, 10) + seq!['.'] + digits(
        a[2] as nat,
        10,
    ) + seq!['.'] + digits(a[3] as nat, 10)
}

fn push_ipv4(out: &mut String, a: &[u8; 4])
    ensures
        final(out)@ == old(out)@ + ipv4_text(a@),
{
    proof {
        reveal_strlit(".");
    }
    push_digits(out, a[0] as u64, 10);
    push_str(out, ".");
    push_digits(out, a[1] as u64, 10);
    push_str(out, ".");
    push_digits(out, a[2] as u64, 10);
    push_str(out, ".");
    push_digits(out, a[3] as u64, 10);
    assert(out@ =~= old(out)@ + ipv4_text(a@));
}

fn group_at(a: &[u8; 16], i: usize) -> (r: u64)
    requires
        i < 8,
    ensures
        r == group(a@, i as int),
{
    a[2 * i] as u64 * 256 + a[2 * i + 1] as u64
}

/// Appends groups `from..to`.
fn push_groups(out: &mut String, a: &[u8; 16], from: usize, to: usize)
    requires
        from <= to <= 8,
    ensures
        final(out)@ == old(out)@ + groups_text(a@, from as nat, to as nat),
{
    proof {
        reveal_strlit(":");
    }
    let mut i: usize = from;
    while i < to
        invariant
            from <= i <= to <= 8,
            out@ == old(out)@ + groups_text(a@, from as nat, i as nat),
            ":"@ == seq![':'],
        decreases to - i,
    {
        if i > from {
            push_str(out, ":");
        }
        push_digits(out, group_at(a, i), 16);
        i = i + 1;
        assert(out@ =~= old(out)@ + groups_text(a@, from as nat, i as nat));
    }
}

fn push_ipv6(out: &mut String, a: &[u8; 16])
    ensures
        final(out)@ == old(out)@ + ipv6_text(a@),
{
    let mut best: usize = 0;
    let mut best_len: usize = 0;
    let mut i: usize = 0;
    while i < 8
        invariant
            i <= 8,
            best_len <= 8,
            best_run_from(a@, 0, 0, 0) == best_run_from(a@, i as nat, best as nat, best_len as nat),
        decreases 8 - i,
    {
        let mut run: usize = 0;
        while i + run < 8 && group_at(a, i + run) == 0
            invariant
                i < 8,
                i + run <= 8,
                zero_run(a@, i as nat) == run + zero_run(a@, (i + run) as nat),
            decreases 8 - i - run,
        {
            run = run + 1;
        }
        if run > best_len {
            best = i;
            best_len = run;
        }
        i = i + 1;
    }
    proof {
        reveal_strlit("::");
    }
    if best_len < 2 {
        push_groups(out, a, 0, 8);
    } else {
        proof {
            lemma_best_run_bounds(a@, 0, 0, 0);
        }
        push_groups(out, a, 0, best);
        push_str(out, "::");
        push_groups(out, a, best + best_len, 8);
    }
    assert(out@ =~= old(out)@ + ipv6_text(a@));
}

proof fn lemma_zero_run_bound(a: Seq<u8>, i: nat)
    ensures
        i <= 8 ==> i + zero_run(a, i) <= 8,
    decreases 8 - i,
{
    if i < 8 {
        lemma_zero_run_bound(a, i + 1);
    }
}

proof fn lemma_best_run_bounds(a: Seq<u8>, i: nat, best: nat, best_len: nat)
    requires
        best + best_len <= 8,
    ensures
        best_run_from(a, i, best, best_len).0 + best_run_from(a, i, best, best_len).1 <= 8,
    decreases 8 - i,
{
    if i < 8 {
        lemma_zero_run_bound(a, i);
        if zero_run(a, i) > best_len {
            lemma_best_run_bounds(a, i + 1, i, zero_run(a, i));
        } else {
            lemma_best_run_bounds(a, i + 1, best, best_len);
        }
    }
}


/// A signed number in decimal.
pub open spec fn signed_text(x: i64) -> Seq<char> {
    if x < 0 {
        seq!['-'] + digits((-x) as nat, 10)
    } else {
        digits(x as nat, 10)
    }
}

/// An address of 4 or 16 bytes.
pub open spec fn ip_text(a: Seq<u8>) -> Seq<char> {
    if a.len() == 4 {
        ipv4_text(a)
    } else {
        ipv6_text(a)
    }
}

pub open spec fn sockaddr_text(s: SockAddrVal) -> Seq<char> {
    match s {
        SockAddrVal::Unix(p) => "unix://"@ + unix_path_text(p),
        SockAddrVal::V4(a, port) => ipv4_text(a) + seq![':'] + digits(port as nat, 10),
        SockAddrVal::V6(a, port) => seq!['['] + ipv6_text(a) + seq![']', ':'] + digits(
            port as nat,
            10,
        ),
        SockAddrVal::Other(af, raw) => "<af="@ + digits(af as nat, 10) + ">"@ + hex_list(raw),
    }
}

/// Texts joined with `;`.
pub open spec fn joined(items: Seq<Seq<char>>) -> Seq<char>
    decreases items.len(),
{
    if items.len() == 0 {
        Seq::empty()
    } else if items.len() == 1 {
        items[0]
    } else {
        joined(items.drop_last()) + seq![';'] + items.last()
    }
}

pub open spec fn strs_text(a: Seq<Seq<u8>>) -> Seq<char> {
    joined(Seq::new(a.len(), |i: int| lossy_text(a[i])))
}

pub open spec fn pairs_text(p: Seq<(Seq<u8>, Seq<u8>)>) -> Seq<char> {
    joined(Seq::new(p.len(), |i: int| lossy_text(p[i].0) + seq!['='] + lossy_text(p[i].1)))
}

/// The rendering of a field value.
pub open spec fn field_text(v: FieldVal) -> Seq<char>
    decreases v,
{
    match v {
        FieldVal::U8(x) => digits(x as nat, 10),
        FieldVal::U16(x) => digits(x as nat, 10),
        FieldVal::U32(x) => digits(x as nat, 10),
        FieldVal::U64(x) => digits(x as nat, 10),
        FieldVal::I64(x) => signed_text(x),
        FieldVal::Bool(b) => if b {
            "true"@
        } else {
            "false"@
        },
        FieldVal::RelTime(x) => digits(x as nat, 10),
        FieldVal::AbsTime(x) => digits(x as nat, 10),
        FieldVal::Port(x) => digits(x as nat, 10),
        FieldVal::Ipv4Addr(a) => ipv4_text(a),
        FieldVal::Ipv4Net(a) => ipv4_text(a),
        FieldVal::Ipv6Addr(a) => ipv6_text(a),
        FieldVal::IpAddr(a) => ip_text(a),
        FieldVal::IpNet(a) => ip_text(a),
        FieldVal::CharBuf(s) => lossy_text(s),
        FieldVal::ByteBuf(s) => hex_list(s),
        FieldVal::FsPath(s) => unix_path_text(s),
        FieldVal::FsRelPath(s) => "<...>"@ + unix_path_text(s),
        FieldVal::CharBufArray(a) => strs_text(a),
        FieldVal::CharBufPairArray(p) => pairs_text(p),
        FieldVal::SockAddr(s) => sockaddr_text(s),
        FieldVal::Dyn(k, tag, inner) => if dyn_variant(k, tag) is Some {
            dyn_name(k, tag) + seq![':'] + field_text(*inner)
        } else {
            digits(tag as nat, 10) + seq![':'] + field_text(*inner)
        },
    }
}

fn push_signed(out: &mut String, x: i64)
    ensures
        final(out)@ == old(out)@ + signed_text(x),
{
    proof {
        reveal_strlit("-");
    }
    if x < 0 {
        push_str(out, "-");
        let m: u64 = (-(x + 1)) as u64 + 1;
        push_digits(out, m, 10);
    } else {
        push_digits(out, x as u64, 10);
    }
    assert(out@ =~= old(out)@ + signed_text(x));
}

fn push_ip(out: &mut String, a: &IpAddr)
    ensures
        final(out)@ == old(out)@ + ip_text(crate::value::ip_view(*a)),
{
    match a {
        IpAddr::V4(b) => push_ipv4(out, b),
        IpAddr::V6(b) => push_ipv6(out, b),
    }
}

fn push_sockaddr(out: &mut String, s: &SockAddr)
    ensures
        final(out)@ == old(out)@ + sockaddr_text(s@),
{
    proof {
        reveal_strlit(":");
        reveal_strlit("[");
        reveal_strlit("]:");
    }
    match s {
        SockAddr::Unix(p) => {
            push_str(out, "unix://");
            let t = path_text(p);
            push_str(out, t.as_str());
        },
        SockAddr::V4(a, port) => {
            push_ipv4(out, a);
            push_str(out, ":");
            push_digits(out, *port as u64, 10);
        },
        SockAddr::V6(a, port) => {
            push_str(out, "[");
            push_ipv6(out, a);
            push_str(out, "]:");
            push_digits(out, *port as u64, 10);
        },
        SockAddr::Other(af, raw) => {
            push_str(out, "<af=");
            push_digits(out, *af as u64, 10);
            push_str(out, ">");
            push_hex_list(out, raw);
        },
    }
    assert(out@ =~= old(out)@ + sockaddr_text(s@));
}

proof fn lemma_joined_step(items: Seq<Seq<char>>, i: int)
    requires
        0 <= i < items.len(),
    ensures
        joined(items.take(i + 1)) == if i == 0 {
            items[0]
        } else {
            joined(items.take(i)) + seq![';'] + items[i]
        },
{
    let t = items.take(i + 1);
    assert(t.drop_last() =~= items.take(i));
    assert(t.last() == items[i]);
}

fn push_strs(out: &mut String, a: &Vec<&[u8]>)
    ensures
        final(out)@ == old(out)@ + strs_text(strs_view(a@)),
{
    proof {
        reveal_strlit(";");
    }
    let ghost items = Seq::new(a@.len(), |i: int| lossy_text(a@[i]@));
    let mut i: usize = 0;
    assert(joined(items.take(0)) =~= Seq::<char>::empty());
    while i < a.len()
        invariant
            i <= a@.len(),
            items == Seq::new(a@.len(), |i: int| lossy_text(a@[i]@)),
            out@ == old(out)@ + joined(items.take(i as int)),
            ";"@ == seq![';'],
        decreases a@.len() - i,
    {
        if i > 0 {
            push_str(out, ";");
        }
        let t = lossy(a[i]);
        push_str(out, t.as_str());
        proof {
            lemma_joined_step(items, i as int);
        }
        i = i + 1;
        assert(out@ =~= old(out)@ + joined(items.take(i as int)));
    }
    assert(items.take(i as int) =~= items);
    assert(items =~= Seq::new(strs_view(a@).len(), |i: int| lossy_text(strs_view(a@)[i])));
}

fn push_pairs(out: &mut String, a: &Vec<(&[u8], &[u8])>)
    ensures
        final(out)@ == old(out)@ + pairs_text(pairs_view(a@)),
{
    proof {
        reveal_strlit(";");
        reveal_strlit("=");
    }
    let ghost items = Seq::new(
        a@.len(),
        |i: int| lossy_text(a@[i].0@) + seq!['='] + lossy_text(a@[i].1@),
    );
    let mut i: usize = 0;
    assert(joined(items.take(0)) =~= Seq::<char>::empty());
    while i < a.len()
        invariant
            i <= a@.len(),
            items == Seq::new(
                a@.len(),
                |i: int| lossy_text(a@[i].0@) + seq!['='] + lossy_text(a@[i].1@),
            ),
            out@ == old(out)@ + joined(items.take(i as int)),
            ";"@ == seq![';'],
            "="@ == seq!['='],
        decreases a@.len() - i,
    {
        if i > 0 {
            push_str(out, ";");
        }
        let (k, v) = a[i];
        let tk = lossy(k);
        push_str(out, tk.as_str());
        push_str(out, "=");
        let tv = lossy(v);
        push_str(out, tv.as_str());
        proof {
            lemma_joined_step(items, i as int);
        }
        i = i + 1;
        assert(out@ =~= old(out)@ + joined(items.take(i as int)));
    }
    assert(items.take(i as int) =~= items);
    assert(items =~= Seq::new(
        pairs_view(a@).len(),
        |i: int| lossy_text(pairs_view(a@)[i].0) + seq!['='] + lossy_text(pairs_view(a@)[i].1),
    ));
}

fn push_field(out: &mut String, v: &FieldValue)
    ensures
        final(out)@ == old(out)@ + field_text(v@),
    decreases v,
{
    proof {
        reveal_strlit("true");
        reveal_strlit("false");
        reveal_strlit(":");
    }
    match v {
        FieldValue::U8(x) => push_digits(out, *x as u64, 10),
        FieldValue::U16(x) => push_digits(out, *x as u64, 10),
        FieldValue::U32(x) => push_digits(out, *x as u64, 10),
        FieldValue::U64(x) => push_digits(out, *x, 10),
        FieldValue::I64(x) => push_signed(out, *x),
        FieldValue::Bool(b) => push_str(
            out,
            if *b {
                "true"
            } else {
                "false"
            },
        ),
        FieldValue::RelTime(x) => push_digits(out, *x, 10),
        FieldValue::AbsTime(x) => push_digits(out, *x, 10),
        FieldValue::Port(x) => push_digits(out, *x as u64, 10),
        FieldValue::Ipv4Addr(a) => push_ipv4(out, a),
        FieldValue::Ipv4Net(n) => push_ipv4(out, &n.0),
        FieldValue::Ipv6Addr(a) => push_ipv6(out, a),
        FieldValue::IpAddr(a) => push_ip(out, a),
        FieldValue::IpNet(n) => push_ip(out, &n.0),
        FieldValue::CharBuf(s) => {
            let t = lossy(s);
            push_str(out, t.as_str());
        },
        FieldValue::ByteBuf(s) => push_hex_list(out, s),
        FieldValue::FsPath(s) => {
            let t = path_text(s);
            push_str(out, t.as_str());
        },
        FieldValue::FsRelPath(p) => {
            push_str(out, "<...>");
            let t = path_text(p.0);
            push_str(out, t.as_str());
        },
        FieldValue::CharBufArray(a) => push_strs(out, a),
        FieldValue::CharBufPairArray(a) => push_pairs(out, a),
        FieldValue::SockAddr(s) => push_sockaddr(out, s),
        FieldValue::Dyn(d) => {
            if crate::dynamic::dyn_variant_type(d.kind, d.tag).is_some() {
                push_str(out, dyn_variant_name(d.kind, d.tag));
            } else {
                push_digits(out, d.tag as u64, 10);
            }
            push_str(out, ":");
            push_field(out, &d.value);
        },
    }
    assert(out@ =~= old(out)@ + field_text(v@));
}

impl<'a> FieldValue<'a> {
    /// The rendering of this value: numbers in decimal, addresses in their
    /// usual text forms, strings and paths as text, byte buffers as hex
    /// lists, arrays joined with `;`, dynamic parameters as `NAME:value`.
    pub fn format(&self) -> (r: String)
        ensures
            r@ == field_text(self@),
    {
        let mut out = String::new();
        push_field(&mut out, self);
        out
    }
}

impl<'a> SockAddr<'a> {
    /// `unix://path`, `a.b.c.d:port`, `[v6]:port` or `<af=N>[hex bytes]`.
    pub fn format(&self) -> (r: String)
        ensures
            r@ == sockaddr_text(self@),
    {
        let mut out = String::new();
        push_sockaddr(&mut out, self);
        out
    }
}

impl OwnedSockAddr {
    /// The same rendering as the borrowed address.
    pub fn format(&self) -> (r: String)
        ensures
            r@ == sockaddr_text(self@),
    {
        self.borrow().format()
    }
}

impl<'a> RelativePath<'a> {
    /// `<...>` followed by the path.
    pub fn format(&self) -> (r: String)
        ensures
            r@ == "<...>"@ + unix_path_text(self.0@),
    {
        let mut out = String::new();
        push_str(&mut out, "<...>");
        let t = path_text(self.0);
        push_str(&mut out, t.as_str());
        out
    }
}

impl OwnedRelativePath {
    /// The same rendering as the borrowed path.
    pub fn format(&self) -> (r: String)
        ensures
            r@ == "<...>"@ + unix_path_text(self.0@),
    {
        self.borrow().format()
    }
}

/// Renders a string array: its strings as text, separated by `;`.
pub struct CStrArrayFormatter<'a>(pub &'a Vec<&'a [u8]>);

impl<'a> CStrArrayFormatter<'a> {
    pub fn format(&self) -> (r: String)
        ensures
            r@ == strs_text(strs_view(self.0@)),
    {
        let mut out = String::new();
        push_strs(&mut out, self.0);
        out
    }
}

/// The rendering of a parameter: its value, or `NULL` when absent.
pub open spec fn param_text(p: Option<FieldVal>) -> Seq<char> {
    match p {
        Some(v) => field_text(v),
        None => "NULL"@,
    }
}

/// ` name=value` for each of the first `n` fields.
pub open spec fn fields_text(decls: Seq<FieldDecl>, params: Seq<Option<FieldVal>>, n: nat) -> Seq<
    char,
>
    decreases n,
{
    if n == 0 {
        Seq::empty()
    } else {
        fields_text(decls, params, (n - 1) as nat) + seq![' '] + decls[n - 1].name@ + seq!['=']
            + param_text(params[n - 1])
    }
}

/// The rendering of an event: `>` for an entry event or `<` for an exit
/// event, its kind's name, then ` name=value` for each declared field that
/// it has a parameter for.
pub open spec fn event_text(e: Event) -> Seq<char> {
    let decls = kind_layout(e.kind);
    let n = if decls.len() < e.params@.len() {
        decls.len()
    } else {
        e.params@.len()
    };
    (if kind_code(e.kind) % 2 == 0 {
        "> "@
    } else {
        "< "@
    }) + kind_name(e.kind) + fields_text(decls, Seq::new(n, |i: int| opt_val(e.params@[i])), n)
}

impl<'a> Event<'a> {
    /// The rendering of the event.
    pub fn format(&self) -> (r: String)
        ensures
            r@ == event_text(*self),
    {
        proof {
            reveal_strlit(" ");
            reveal_strlit("=");
        }
        let decls = self.kind.layout();
        let mut out = String::new();
        if self.kind.is_entry() {
            push_str(&mut out, "> ");
        } else {
            push_str(&mut out, "< ");
        }
        push_str(&mut out, self.kind.name());
        let n = if decls.len() < self.params.len() {
            decls.len()
        } else {
            self.params.len()
        };
        let ghost pv = Seq::new(n as nat, |i: int| opt_val(self.params@[i]));
        let ghost start = out@;
        let mut i: usize = 0;
        while i < n
            invariant
                n <= decls@.len(),
                n <= self.params@.len(),
                decls@ == kind_layout(self.kind),
                pv == Seq::new(n as nat, |i: int| opt_val(self.params@[i])),
                i <= n,
                out@ == start + fields_text(decls@, pv, i as nat),
                " "@ == seq![' '],
                "="@ == seq!['='],
            decreases n - i,
        {
            push_str(&mut out, " ");
            push_str(&mut out, decls[i].name);
            push_str(&mut out, "=");
            match &self.params[i] {
                Some(v) => push_field(&mut out, v),
                None => push_str(&mut out, "NULL"),
            }
            i = i + 1;
            assert(out@ =~= start + fields_text(decls@, pv, i as nat));
        }
        out
    }
}

} // verus!
