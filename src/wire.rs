//! Little-endian integers and NUL-terminated byte strings: the smallest
//! units of the event wire format.
use vstd::prelude::*;

verus! {

/// `256` raised to the power `n`.
pub open spec fn pow256(n: nat) -> nat
    decreases n,
{
    if n == 0 {
        1
    } else {
        256 * pow256((n - 1) as nat)
    }
}

/// The `n` low bytes of `v`, least significant first.
pub open spec fn le_bytes(v: nat, n: nat) -> Seq<u8>
    decreases n,
{
    if n == 0 {
        Seq::empty()
    } else {
        seq![(v % 256) as u8] + le_bytes(v / 256, (n - 1) as nat)
    }
}

/// The number whose little-endian representation is `s`.
pub open spec fn le_value(s: Seq<u8>) -> nat
    decreases s.len(),
{
    if s.len() == 0 {
        0
    } else {
        s[0] as nat + 256 * le_value(s.drop_first())
    }
}

/// The two's-complement bit pattern of a signed 64-bit value.
pub open spec fn i64_bits(x: i64) -> nat {
    if x >= 0 {
        x as nat
    } else {
        (x + 0x1_0000_0000_0000_0000) as nat
    }
}

/// The signed 64-bit value with bit pattern `n`.
pub open spec fn bits_i64(n: nat) -> i64 {
    if n < 0x8000_0000_0000_0000 {
        n as i64
    } else {
        (n - 0x1_0000_0000_0000_0000) as i64
    }
}

/// The byte string `s` followed by its NUL terminator.
pub open spec fn cstr(s: Seq<u8>) -> Seq<u8> {
    s.push(0u8)
}

/// `s` holds no NUL byte.
pub open spec fn no_nul(s: Seq<u8>) -> bool {
    forall|i: int| 0 <= i < s.len() ==> s[i] != 0
}

/// The position of the first NUL byte of `s`, if there is one.
pub open spec fn nul_index(s: Seq<u8>) -> Option<nat>
    decreases s.len(),
{
    if s.len() == 0 {
        None
    } else if s[0] == 0 {
        Some(0)
    } else {
        match nul_index(s.drop_first()) {
            Some(i) => Some(i + 1),
            None => None,
        }
    }
}

pub proof fn lemma_pow256_positive(n: nat)
    ensures
        pow256(n) >= 1,
    decreases n,
{
    if n > 0 {
        lemma_pow256_positive((n - 1) as nat);
    }
}

pub proof fn lemma_pow256_values()
    ensures
        pow256(1) == 0x100,
        pow256(2) == 0x1_0000,
        pow256(4) == 0x1_0000_0000,
        pow256(8) == 0x1_0000_0000_0000_0000,
{
    reveal_with_fuel(pow256, 9);
}

pub proof fn lemma_le_bytes_len(v: nat, n: nat)
    ensures
        le_bytes(v, n).len() == n,
    decreases n,
{
    if n > 0 {
        lemma_le_bytes_len(v / 256, (n - 1) as nat);
    }
}

pub proof fn lemma_le_value_bound(s: Seq<u8>)
    ensures
        le_value(s) < pow256(s.len()),
    decreases s.len(),
{
    if s.len() > 0 {
        lemma_le_value_bound(s.drop_first());
        let r = le_value(s.drop_first());
        let p = pow256((s.len() - 1) as nat);
        assert(s[0] as nat + 256 * r < 256 * p) by (nonlinear_arith)
            requires
                r < p,
                s[0] < 256,
        ;
    }
}

/// Reading back the `n` low bytes of a number below `256^n` gives the number.
pub proof fn lemma_le_round_trip(v: nat, n: nat)
    requires
        v < pow256(n),
    ensures
        le_value(le_bytes(v, n)) == v,
    decreases n,
{
    if n > 0 {
        let p = pow256((n - 1) as nat);
        assert(v / 256 < p) by (nonlinear_arith)
            requires
                v < 256 * p,
        ;
        lemma_le_round_trip(v / 256, (n - 1) as nat);
        let b = le_bytes(v, n);
        assert(b.drop_first() =~= le_bytes(v / 256, (n - 1) as nat));
        assert(v == v % 256 + 256 * (v / 256)) by (nonlinear_arith);
    } else {
        lemma_pow256_values();
        reveal_with_fuel(pow256, 1);
    }
}

pub proof fn lemma_nul_index_spec(s: Seq<u8>)
    ensures
        match nul_index(s) {
            Some(i) => i < s.len() && s[i as int] == 0 && no_nul(s.take(i as int)),
            None => no_nul(s),
        },
    decreases s.len(),
{
    if s.len() > 0 && s[0] != 0 {
        lemma_nul_index_spec(s.drop_first());
        match nul_index(s.drop_first()) {
            Some(i) => {
                let k: int = i as int + 1;
                assert forall|j: int| 0 <= j < k implies #[trigger] s.take(k)[j] != 0 by {
                    if j > 0 {
                        assert(s.drop_first().take(i as int)[j - 1] == s[j]);
                    }
                }
            },
            None => {
                assert forall|j: int| 0 <= j < s.len() implies s[j] != 0 by {
                    if j > 0 {
                        assert(s.drop_first()[j - 1] == s[j]);
                    }
                }
            },
        }
    }
}

/// In a string followed by its terminator and anything else, the first NUL
/// is the terminator.
pub proof fn lemma_nul_index_cstr(a: Seq<u8>, rest: Seq<u8>)
    requires
        no_nul(a),
    ensures
        nul_index(cstr(a) + rest) == Some(a.len()),
    decreases a.len(),
{
    let s = cstr(a) + rest;
    if a.len() > 0 {
        assert(s.drop_first() =~= cstr(a.drop_first()) + rest);
        lemma_nul_index_cstr(a.drop_first(), rest);
    } else {
        assert(s[0] == 0);
    }
}

/// Reads `n` bytes at `pos` as a little-endian number.
pub fn read_le(buf: &[u8], pos: usize, n: usize) -> (r: u64)
    requires
        n <= 8,
        pos + n <= buf@.len(),
    ensures
        r as nat == le_value(buf@.subrange(pos as int, pos + n)),
{
    let mut acc: u64 = 0;
    let mut i: usize = n;
    let len = buf.len();
    proof {
        lemma_pow256_values();
    }
    while i > 0
        invariant
            n <= 8,
            pos + n <= buf@.len(),
            len == buf@.len(),
            i <= n,
            acc as nat == le_value(buf@.subrange(pos + i, pos + n)),
            pow256(8) == 0x1_0000_0000_0000_0000,
        decreases i,
    {
        let ghost tail = buf@.subrange(pos + i, pos + n);
        let ghost s = buf@.subrange(pos + i - 1, pos + n);
        proof {
            lemma_le_value_bound(tail);
            assert(s.drop_first() =~= tail);
            assert(pow256(tail.len()) * 256 == pow256(tail.len() + 1));
            lemma_pow256_monotone(tail.len() + 1, 8);
        }
        let b = buf[pos + i - 1];
        assert(acc as nat * 256 + b as nat == le_value(s));
        acc = acc * 256 + b as u64;
        i = i - 1;
    }
    acc
}

pub proof fn lemma_pow256_monotone(a: nat, b: nat)
    requires
        a <= b,
    ensures
        pow256(a) <= pow256(b),
    decreases b,
{
    if a < b {
        lemma_pow256_monotone(a, (b - 1) as nat);
        lemma_pow256_positive((b - 1) as nat);
    }
}

/// Appends the `n` low bytes of `v`, least significant first.
pub fn write_le(v: u64, n: usize, out: &mut Vec<u8>)
    requires
        n <= 8,
    ensures
        final(out)@ == old(out)@ + le_bytes(v as nat, n as nat),
{
    let mut x: u64 = v;
    let mut i: usize = 0;
    while i < n
        invariant
            i <= n,
            old(out)@ + le_bytes(v as nat, n as nat) == out@ + le_bytes(x as nat, (n - i) as nat),
        decreases n - i,
    {
        let ghost rest = le_bytes(x as nat, (n - i) as nat);
        assert(rest =~= seq![(x % 256) as u8] + le_bytes((x / 256) as nat, (n - i - 1) as nat));
        out.push((x % 256) as u8);
        x = x / 256;
        i = i + 1;
        assert(old(out)@ + le_bytes(v as nat, n as nat) =~= out@ + le_bytes(x as nat, (n - i) as nat));
    }
    assert(out@ + le_bytes(x as nat, 0) =~= out@);
}

/// The position of the first NUL byte at or after `pos`.
pub fn find_nul(buf: &[u8], pos: usize) -> (r: Option<usize>)
    requires
        pos <= buf@.len(),
    ensures
        match r {
            Some(j) => pos <= j < buf@.len() && nul_index(
                buf@.subrange(pos as int, buf@.len() as int),
            ) == Some((j - pos) as nat),
            None => nul_index(buf@.subrange(pos as int, buf@.len() as int)) is None,
        },
{
    let mut i: usize = pos;
    let len = buf.len();
    while i < len
        invariant
            pos <= i <= len == buf@.len(),
            nul_index(buf@.subrange(pos as int, len as int)) == match nul_index(
                buf@.subrange(i as int, len as int),
            ) {
                Some(k) => Some((k + i - pos) as nat),
                None => None,
            },
        decreases len - i,
    {
        if buf[i] == 0 {
            assert(nul_index(buf@.subrange(i as int, len as int)) == Some(0nat));
            return Some(i);
        }
        assert(buf@.subrange(i as int, len as int).drop_first() =~= buf@.subrange(
            i + 1,
            len as int,
        ));
        i = i + 1;
    }
    None
}

/// Appends the bytes of `s` to `out`.
pub fn write_bytes(s: &[u8], out: &mut Vec<u8>)
    ensures
        final(out)@ == old(out)@ + s@,
{
    let mut i: usize = 0;
    while i < s.len()
        invariant
            i <= s@.len(),
            out@ == old(out)@ + s@.take(i as int),
        decreases s@.len() - i,
    {
        out.push(s[i]);
        i = i + 1;
        assert(out@ =~= old(out)@ + s@.take(i as int));
    }
    assert(s@.take(i as int) =~= s@);
}

} // verus!
