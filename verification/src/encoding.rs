//! Little-endian interpretation of byte strings as natural numbers.

use vstd::prelude::*;
use vstd::arithmetic::div_mod::{lemma_fundamental_div_mod, lemma_fundamental_div_mod_converse};

verus! {

/// The natural number that `bytes` encodes in little-endian order.
pub open spec fn le_value(bytes: Seq<u8>) -> nat
    decreases bytes.len(),
{
    if bytes.len() == 0 {
        0
    } else {
        bytes[0] as nat + 256 * le_value(bytes.drop_first())
    }
}

/// `256^n`.
pub open spec fn pow256(n: nat) -> nat
    decreases n,
{
    if n == 0 {
        1
    } else {
        256 * pow256((n - 1) as nat)
    }
}

/// The `len`-byte little-endian encoding of `n` (of `n` modulo `256^len`).
pub open spec fn le_bytes(n: nat, len: nat) -> Seq<u8>
    decreases len,
{
    if len == 0 {
        Seq::empty()
    } else {
        seq![(n % 256) as u8] + le_bytes(n / 256, (len - 1) as nat)
    }
}

pub proof fn lemma_pow256_positive(n: nat)
    ensures
        pow256(n) > 0,
    decreases n,
{
    if n > 0 {
        lemma_pow256_positive((n - 1) as nat);
    }
}

/// A byte string of length `n` encodes a number below `256^n`.
pub proof fn lemma_le_value_bound(bytes: Seq<u8>)
    ensures
        le_value(bytes) < pow256(bytes.len()),
    decreases bytes.len(),
{
    if bytes.len() > 0 {
        lemma_le_value_bound(bytes.drop_first());
        let rest = le_value(bytes.drop_first());
        let p = pow256((bytes.len() - 1) as nat);
        assert(256 * rest + 256 <= 256 * p) by (nonlinear_arith)
            requires
                rest < p,
        ;
    }
}

/// Encoding a number with enough bytes and reading it back gives the number.
pub proof fn lemma_le_value_of_le_bytes(n: nat, len: nat)
    requires
        n < pow256(len),
    ensures
        le_bytes(n, len).len() == len,
        le_value(le_bytes(n, len)) == n,
    decreases len,
{
    if len > 0 {
        let rest = (len - 1) as nat;
        lemma_fundamental_div_mod(n as int, 256);
        lemma_le_value_of_le_bytes(n / 256, rest);
        let s = le_bytes(n, len);
        assert(s.drop_first() =~= le_bytes(n / 256, rest));
        assert(s[0] == (n % 256) as u8);
    }
}

/// The length of an encoding is the length asked for.
pub proof fn lemma_le_bytes_len(n: nat, len: nat)
    ensures
        le_bytes(n, len).len() == len,
    decreases len,
{
    if len > 0 {
        lemma_le_bytes_len(n / 256, (len - 1) as nat);
    }
}

/// Reading a byte string and encoding the number again gives the byte string:
/// the little-endian encoding of fixed length is unique.
pub proof fn lemma_le_bytes_of_le_value(bytes: Seq<u8>)
    ensures
        le_bytes(le_value(bytes), bytes.len()) == bytes,
    decreases bytes.len(),
{
    if bytes.len() > 0 {
        let rest = bytes.drop_first();
        lemma_le_bytes_of_le_value(rest);
        let n = le_value(bytes);
        let r = le_value(rest);
        let b = bytes[0] as nat;
        lemma_fundamental_div_mod_converse((b + 256 * r) as int, 256, r as int, b as int);
        assert(le_bytes(n, bytes.len()) =~= bytes);
    } else {
        assert(le_bytes(le_value(bytes), 0) =~= bytes);
    }
}

/// Two byte strings of one length that encode the same number are equal.
pub proof fn lemma_le_value_injective(a: Seq<u8>, b: Seq<u8>)
    requires
        a.len() == b.len(),
        le_value(a) == le_value(b),
    ensures
        a == b,
{
    lemma_le_bytes_of_le_value(a);
    lemma_le_bytes_of_le_value(b);
}

/// The low `k` bytes encode the number modulo `256^k`.
pub proof fn lemma_le_value_prefix(bytes: Seq<u8>, k: nat)
    requires
        k <= bytes.len(),
    ensures
        le_value(bytes.subrange(0, k as int)) == le_value(bytes) % pow256(k),
    decreases k,
{
    let prefix = bytes.subrange(0, k as int);
    if k == 0 {
        assert(le_value(bytes) % 1 == 0) by (nonlinear_arith);
    } else {
        let rest = bytes.drop_first();
        let km = (k - 1) as nat;
        lemma_le_value_prefix(rest, km);
        assert(prefix.drop_first() =~= rest.subrange(0, km as int));
        lemma_pow256_positive(km);
        let b = bytes[0] as nat;
        let r = le_value(rest);
        let p = pow256(km);
        let q = r as int / p as int;
        let m = r as int % p as int;
        lemma_fundamental_div_mod(r as int, p as int);
        assert(b + 256 * r == q * (256 * p) + (b + 256 * m)) by (nonlinear_arith)
            requires
                r == p * q + m,
        ;
        lemma_fundamental_div_mod_converse(
            (b + 256 * r) as int,
            (256 * p) as int,
            q,
            (b + 256 * m) as int,
        );
    }
}

/// The first powers of 256, written out.
pub proof fn lemma_pow256_values()
    ensures
        pow256(0) == 1,
        pow256(1) == 0x100,
        pow256(2) == 0x1_0000,
        pow256(3) == 0x100_0000,
        pow256(4) == 0x1_0000_0000,
        pow256(5) == 0x100_0000_0000,
        pow256(6) == 0x1_0000_0000_0000,
        pow256(7) == 0x100_0000_0000_0000,
        pow256(8) == 0x1_0000_0000_0000_0000,
{
    assert(pow256(0) == 1);
    assert(pow256(1) == 256 * pow256(0));
    assert(pow256(2) == 256 * pow256(1));
    assert(pow256(3) == 256 * pow256(2));
    assert(pow256(4) == 256 * pow256(3));
    assert(pow256(5) == 256 * pow256(4));
    assert(pow256(6) == 256 * pow256(5));
    assert(pow256(7) == 256 * pow256(6));
    assert(pow256(8) == 256 * pow256(7));
}

/// The unsigned 64-bit integer that the low eight bytes of `bytes` encode.
pub fn low_u64(bytes: &[u8; 32]) -> (v: u64)
    ensures
        v == le_value(bytes@.subrange(0, 8)),
        v == le_value(bytes@) % pow256(8),
{
    let mut v: u64 = 0;
    let mut i: usize = 8;
    proof {
        assert(bytes@.subrange(8, 8) =~= Seq::<u8>::empty());
    }
    while i > 0
        invariant
            i <= 8,
            v == le_value(bytes@.subrange(i as int, 8)),
        decreases i,
    {
        i = i - 1;
        proof {
            let tail = bytes@.subrange(i as int, 8);
            let rest = bytes@.subrange(i + 1, 8);
            assert(tail.drop_first() =~= rest);
            assert(tail[0] == bytes[i as int]);
            lemma_le_value_bound(rest);
            lemma_le_value_bound(tail);
            lemma_pow256_values();
            assert(le_value(tail) == bytes[i as int] as nat + 256 * le_value(rest));
        }
        v = v * 256 + bytes[i] as u64;
    }
    proof {
        lemma_le_value_prefix(bytes@, 8);
    }
    v
}

/// The bytes of `first` followed by the bytes of `second`.
pub fn join_bytes(first: &[u8], second: &[u8]) -> (joined: Vec<u8>)
    ensures
        joined@ == first@ + second@,
{
    let mut joined: Vec<u8> = vec_of(first);
    append_all(&mut joined, second);
    joined
}

/// Whether two 32-byte strings are equal, decided without leaving the loop
/// early: the running time does not depend on where they differ.
pub fn bytes32_equal(a: &[u8; 32], b: &[u8; 32]) -> (same: bool)
    ensures
        same == (a@ == b@),
{
    let mut difference: u8 = 0;
    let mut i: usize = 0;
    while i < 32
        invariant
            i <= 32,
            (difference == 0) <==> (forall|j: int| 0 <= j < i ==> a@[j] == b@[j]),
        decreases 32 - i,
    {
        let x: u8 = a[i];
        let y: u8 = b[i];
        let d: u8 = difference;
        difference = difference | (x ^ y);
        proof {
            assert(((d | (x ^ y)) == 0) == (d == 0 && x == y)) by (bit_vector);
            if difference != 0 && d == 0 {
                assert(a@[i as int] != b@[i as int]);
            }
        }
        i = i + 1;
    }
    proof {
        if difference == 0 {
            assert(a@ =~= b@);
        }
    }
    difference == 0
}

/// A copy of a string of bytes in a new vector.
pub fn vec_of(bytes: &[u8]) -> (v: Vec<u8>)
    ensures
        v@ == bytes@,
{
    copy_range(bytes, 0, bytes.len())
}

/// A copy of the bytes of `buf` from `start` up to `end`.
pub fn copy_range(buf: &[u8], start: usize, end: usize) -> (v: Vec<u8>)
    requires
        start <= end <= buf@.len(),
    ensures
        v@ == buf@.subrange(start as int, end as int),
{
    let mut v: Vec<u8> = Vec::new();
    let mut i: usize = start;
    while i < end
        invariant
            start <= i <= end <= buf@.len(),
            v@.len() == i - start,
            forall|j: int| 0 <= j < i - start ==> v@[j] == buf@[start + j],
        decreases end - i,
    {
        v.push(buf[i]);
        i = i + 1;
    }
    proof {
        assert(v@ =~= buf@.subrange(start as int, end as int));
    }
    v
}

/// Appends all the bytes of `bytes`.
pub fn append_all(out: &mut Vec<u8>, bytes: &[u8])
    ensures
        final(out)@ == old(out)@ + bytes@,
{
    let mut i: usize = 0;
    proof {
        assert(out@ =~= old(out)@ + bytes@.subrange(0, 0));
    }
    while i < bytes.len()
        invariant
            i <= bytes@.len(),
            out@ == old(out)@ + bytes@.subrange(0, i as int),
        decreases bytes@.len() - i,
    {
        out.push(bytes[i]);
        i = i + 1;
        proof {
            assert(out@ =~= old(out)@ + bytes@.subrange(0, i as int));
        }
    }
    proof {
        assert(bytes@.subrange(0, bytes@.len() as int) =~= bytes@);
    }
}

/// A copy of the bytes of `data` in an array, where there are `N` of them.
pub fn to_array<const N: usize>(data: &[u8]) -> (r: Option<[u8; N]>)
    ensures
        data@.len() == N ==> r is Some && r->Some_0@ == data@,
        data@.len() != N ==> r is None,
{
    if data.len() != N {
        return None;
    }
    let mut bytes = [0u8;N];
    let mut i: usize = 0;
    while i < N
        invariant
            i <= N,
            data@.len() == N,
            forall|j: int| 0 <= j < i ==> bytes@[j] == data@[j],
        decreases N - i,
    {
        bytes[i] = data[i];
        i = i + 1;
    }
    proof {
        assert(bytes@ =~= data@);
    }
    Some(bytes)
}

} // verus!
