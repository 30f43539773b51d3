//! The unsigned variable-length integer format (LEB128): seven payload bits
//! per byte, least significant group first, bit 7 set on every byte but the
//! last.
use vstd::prelude::*;

verus! {

/// The bytes that encode `v`: one byte per seven-bit group, as few as `v` needs.
pub open spec fn leb128_bytes(v: nat) -> Seq<u8>
    decreases v,
{
    if v < 128 {
        seq![v as u8]
    } else {
        seq![(v % 128 + 128) as u8] + leb128_bytes(v / 128)
    }
}

/// `128` to the power `i`.
pub open spec fn pow128(i: nat) -> nat
    decreases i,
{
    if i == 0 {
        1
    } else {
        128 * pow128((i - 1) as nat)
    }
}

/// The value of the payload groups of `s`, least significant first.
pub open spec fn varint_value(s: Seq<u8>) -> nat
    decreases s.len(),
{
    if s.len() == 0 {
        0
    } else {
        (s[0] % 128) as nat + 128 * varint_value(s.drop_first())
    }
}

/// The number of bytes up to and including the first byte of `s` without the
/// continuation bit, if there is one.
pub open spec fn varint_len(s: Seq<u8>) -> Option<nat>
    decreases s.len(),
{
    if s.len() == 0 {
        None
    } else if s[0] < 128 {
        Some(1)
    } else {
        match varint_len(s.drop_first()) {
            Some(n) => Some(n + 1),
            None => None,
        }
    }
}

/// The largest number of bytes the encoder writes for a 32-bit value.
pub open spec fn max_varint_len() -> nat {
    5
}

/// The number at the front of `s` and how many bytes it takes: absent when the
/// bytes end before a terminating byte, or when the value exceeds `usize`.
pub open spec fn decode_varint(s: Seq<u8>) -> Option<(nat, nat)> {
    match varint_len(s) {
        Some(n) => if varint_value(s.take(n as int)) <= usize::MAX {
            Some((varint_value(s.take(n as int)), n))
        } else {
            None
        },
        None => None,
    }
}

/// Appending a group to a prefix adds its payload at the group's weight.
pub proof fn lemma_varint_value_extend(s: Seq<u8>, i: nat)
    requires
        i < s.len(),
    ensures
        varint_value(s.take((i + 1) as int)) == varint_value(s.take(i as int)) + (s[i as int] % 128) as nat
            * pow128(i),
    decreases i,
{
    if i > 0 {
        let t = s.drop_first();
        lemma_varint_value_extend(t, (i - 1) as nat);
        assert(s.take((i + 1) as int).drop_first() =~= t.take(i as int));
        assert(s.take(i as int).drop_first() =~= t.take(i - 1));
        let d = (s[i as int] % 128) as nat;
        assert(t[i - 1] == s[i as int]);
        assert(pow128(i) == 128 * pow128((i - 1) as nat));
        let a = s.take((i + 1) as int);
        let b = s.take(i as int);
        assert(a[0] == s[0] && b[0] == s[0]);
        assert(varint_value(a) == (s[0] % 128) as nat + 128 * varint_value(a.drop_first()));
        assert(varint_value(b) == (s[0] % 128) as nat + 128 * varint_value(b.drop_first()));
        assert(128 * (d * pow128((i - 1) as nat)) == d * pow128(i)) by (nonlinear_arith)
            requires
                pow128(i) == 128 * pow128((i - 1) as nat),
        ;
    } else {
        assert(s.take(1).drop_first() =~= Seq::<u8>::empty());
        assert(s.take(0) =~= Seq::<u8>::empty());
        assert(varint_value(Seq::<u8>::empty()) == 0);
        assert(pow128(0) == 1);
        assert((s[0] % 128) as nat * pow128(0) == (s[0] % 128) as nat);
        assert(varint_value(s.take(1)) == (s[0] % 128) as nat + 128 * varint_value(
            s.take(1).drop_first(),
        ));
    }
}

/// Longer prefixes never hold a smaller value.
pub proof fn lemma_varint_value_grows(s: Seq<u8>, i: nat, n: nat)
    requires
        i <= n <= s.len(),
    ensures
        varint_value(s.take(i as int)) <= varint_value(s.take(n as int)),
    decreases n - i,
{
    if n > i {
        lemma_varint_value_grows(s, i, (n - 1) as nat);
        lemma_varint_value_extend(s, (n - 1) as nat);
    }
}

/// When the first `i` bytes carry the continuation bit and the first `i + 1`
/// bytes already hold more than `usize` can, nothing can be decoded.
pub proof fn lemma_varint_too_large(s: Seq<u8>, i: nat)
    requires
        i < s.len(),
        forall|j: int| 0 <= j < i ==> s[j] >= 128,
        varint_value(s.take((i + 1) as int)) > usize::MAX,
    ensures
        decode_varint(s) is None,
{
    lemma_varint_len_continued(s, i);
    if let Some(n) = varint_len(s) {
        if n <= s.len() {
            lemma_varint_value_grows(s, i + 1, n);
        } else {
            lemma_varint_len_bounded(s);
        }
    }
}

/// A number never takes more bytes than there are.
pub proof fn lemma_varint_len_bounded(s: Seq<u8>)
    ensures
        varint_len(s) matches Some(n) ==> 1 <= n <= s.len(),
    decreases s.len(),
{
    if s.len() > 0 && s[0] >= 128 {
        lemma_varint_len_bounded(s.drop_first());
    }
}

/// When the first `k` bytes all carry the continuation bit, the number (if any)
/// ends beyond them.
pub proof fn lemma_varint_len_continued(s: Seq<u8>, k: nat)
    requires
        k <= s.len(),
        forall|j: int| 0 <= j < k ==> s[j] >= 128,
    ensures
        varint_len(s) matches Some(n) ==> n > k,
        k == s.len() ==> varint_len(s) is None,
    decreases k,
{
    if k > 0 {
        let t = s.drop_first();
        assert forall|j: int| 0 <= j < k - 1 implies t[j] >= 128 by {
            assert(t[j] == s[j + 1]);
        }
        lemma_varint_len_continued(t, (k - 1) as nat);
    } else if s.len() == 0 {
    }
}

/// When the first `k` bytes carry the continuation bit and byte `k` does not,
/// the number takes `k + 1` bytes.
pub proof fn lemma_varint_len_ends(s: Seq<u8>, k: nat)
    requires
        k < s.len(),
        forall|j: int| 0 <= j < k ==> s[j] >= 128,
        s[k as int] < 128,
    ensures
        varint_len(s) == Some(k + 1),
    decreases k,
{
    if k > 0 {
        let t = s.drop_first();
        assert forall|j: int| 0 <= j < k - 1 implies t[j] >= 128 by {
            assert(t[j] == s[j + 1]);
        }
        lemma_varint_len_ends(t, (k - 1) as nat);
    }
}

/// The encoding of `v`, followed by anything, is read back as `v` over exactly
/// the encoding's bytes.
pub proof fn lemma_leb128_prefix(v: nat, rest: Seq<u8>)
    ensures
        varint_len(leb128_bytes(v) + rest) == Some(leb128_bytes(v).len()),
        varint_value(leb128_bytes(v)) == v,
        (leb128_bytes(v) + rest).take(leb128_bytes(v).len() as int) =~= leb128_bytes(v),
    decreases v,
{
    let e = leb128_bytes(v);
    let s = e + rest;
    if v < 128 {
        assert(e.drop_first() =~= Seq::<u8>::empty());
        assert(varint_value(Seq::<u8>::empty()) == 0);
        assert(varint_value(e) == (e[0] % 128) as nat + 128 * varint_value(e.drop_first()));
    } else {
        lemma_leb128_prefix(v / 128, rest);
        assert(s.drop_first() =~= leb128_bytes(v / 128) + rest);
        assert(e.drop_first() =~= leb128_bytes(v / 128));
        assert(e[0] == (v % 128 + 128) as u8);
        assert((e[0] % 128) as nat == v % 128);
        assert(varint_value(e) == (e[0] % 128) as nat + 128 * varint_value(e.drop_first()));
    }
}

/// Encodings of values below `128^k` take at most `k` bytes.
pub proof fn lemma_leb128_len_bound(v: nat, k: nat)
    requires
        k >= 1,
        v < pow128(k),
    ensures
        leb128_bytes(v).len() <= k,
    decreases v,
{
    if v >= 128 {
        if k == 1 {
            assert(pow128(1) == 128 * pow128(0));
        } else {
            assert(pow128(k) == 128 * pow128((k - 1) as nat));
            lemma_leb128_len_bound(v / 128, (k - 1) as nat);
        }
    }
}

/// Every byte but the last carries the continuation bit, the last does not,
/// and the last is zero only when the whole encoding is the single byte zero.
pub proof fn lemma_leb128_shape(v: nat)
    ensures
        leb128_bytes(v).len() >= 1,
        forall|j: int| 0 <= j < leb128_bytes(v).len() - 1 ==> leb128_bytes(v)[j] >= 128,
        leb128_bytes(v).last() < 128,
        leb128_bytes(v).len() > 1 ==> leb128_bytes(v).last() != 0,
    decreases v,
{
    if v >= 128 {
        lemma_leb128_shape(v / 128);
        let e = leb128_bytes(v);
        let t = leb128_bytes(v / 128);
        assert forall|j: int| 0 <= j < e.len() - 1 implies e[j] >= 128 by {
            if j > 0 {
                assert(e[j] == t[j - 1]);
            }
        }
        assert(e.last() == t.last());
    }
}

/// Reading back what the encoder writes gives the value and its exact length,
/// whatever follows it; the encoding is minimal (at most five bytes, every
/// byte but the last continued, the last non-zero unless it is the only one),
/// and zero is the single byte 0.
pub proof fn lemma_varint_round_trip(v: u32, rest: Seq<u8>)
    ensures
        decode_varint(leb128_bytes(v as nat) + rest) == Some((v as nat, leb128_bytes(v as nat).len())),
        leb128_bytes(v as nat).len() <= max_varint_len(),
        forall|j: int|
            0 <= j < leb128_bytes(v as nat).len() - 1 ==> leb128_bytes(v as nat)[j] >= 128,
        leb128_bytes(v as nat).last() < 128,
        leb128_bytes(v as nat).len() > 1 ==> leb128_bytes(v as nat).last() != 0,
        leb128_bytes(0) == seq![0u8],
{
    lemma_leb128_prefix(v as nat, rest);
    assert(u32::MAX <= usize::MAX);
    assert(pow128(0) == 1);
    assert(pow128(1) == 128);
    assert(pow128(2) == 16384);
    assert(pow128(3) == 2097152);
    assert(pow128(4) == 268435456);
    assert(pow128(5) == 34359738368);
    lemma_leb128_len_bound(v as nat, 5);
    lemma_leb128_shape(v as nat);
}

} // verus!
