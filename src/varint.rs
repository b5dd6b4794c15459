//! Base-128, little-endian variable-length integers, as the `varinteger`
//! crate writes and reads them.
use vstd::prelude::*;

verus! {

/// `128` raised to the power `k`.
pub open spec fn pow128(k: nat) -> nat
    decreases k,
{
    if k == 0 {
        1
    } else {
        128 * pow128((k - 1) as nat)
    }
}

/// The seven data bits of a varint byte.
pub open spec fn digit(b: u8) -> nat {
    (b % 128) as nat
}

/// The minimal encoding of `v`: seven bits per byte, least significant group
/// first, the top bit set on every byte but the last.
pub open spec fn varint_encode(v: nat) -> Seq<u8>
    decreases v,
{
    if v < 128 {
        seq![v as u8]
    } else {
        seq![((v % 128) + 128) as u8] + varint_encode(v / 128)
    }
}

/// The number that the data bits of `s` stand for, least significant group
/// first.
pub open spec fn varint_value(s: Seq<u8>) -> nat
    decreases s.len(),
{
    if s.len() == 0 {
        0
    } else {
        digit(s[0]) + 128 * varint_value(s.drop_first())
    }
}

/// The index of the first byte of `s` whose top bit is clear, or `s.len()`
/// where there is none.
pub open spec fn first_stop(s: Seq<u8>) -> nat
    decreases s.len(),
{
    if s.len() == 0 {
        0
    } else if s[0] < 128 {
        0
    } else {
        1 + first_stop(s.drop_first())
    }
}

/// `s` starts with a complete varint whose value fits in 64 bits: its tenth
/// digit, if any, is at most one, and every later digit is zero.
pub open spec fn starts_with_varint(s: Seq<u8>) -> bool {
    let t = first_stop(s);
    &&& t < s.len()
    &&& t >= 9 ==> digit(s[9]) <= 1
    &&& forall|i: int| 10 <= i <= t ==> digit(s[i]) == 0
}

/// The number of bytes of the varint at the start of `s`.
pub open spec fn varint_len(s: Seq<u8>) -> nat {
    first_stop(s) + 1
}

/// The value of the varint at the start of `s`.
pub open spec fn varint_at(s: Seq<u8>) -> nat {
    varint_value(s.take(varint_len(s) as int))
}

/// The encoding of `v` ends with its only byte whose top bit is clear, so a
/// reader finds it at the start of any longer sequence and reads `v` back.
pub proof fn lemma_encode_decode(v: nat, rest: Seq<u8>)
    ensures
        varint_encode(v).len() >= 1,
        first_stop(varint_encode(v) + rest) == varint_encode(v).len() - 1,
        varint_len(varint_encode(v) + rest) == varint_encode(v).len(),
        (varint_encode(v) + rest).take(varint_encode(v).len() as int) == varint_encode(v),
        varint_value(varint_encode(v)) == v,
        varint_at(varint_encode(v) + rest) == v,
    decreases v,
{
    let e = varint_encode(v);
    let s = e + rest;
    assert(s.take(e.len() as int) =~= e);
    if v < 128 {
        assert(s[0] == v as u8);
        assert(e.drop_first() =~= Seq::<u8>::empty());
        assert(digit(e[0]) == v);
        assert(varint_value(e) == digit(e[0]) + 128 * varint_value(e.drop_first()));
    } else {
        let t = varint_encode(v / 128);
        lemma_encode_decode(v / 128, rest);
        assert(s.drop_first() =~= t + rest);
        assert(e.drop_first() =~= t);
        assert(s[0] == ((v % 128) + 128) as u8);
        assert(digit(e[0]) == v % 128);
        assert(varint_value(e) == digit(e[0]) + 128 * varint_value(e.drop_first()));
        assert(v == v % 128 + 128 * (v / 128));
    }
    assert(varint_len(s) == e.len());
}

/// A value below `2 * 128^k` takes at most `k + 1` bytes, and where it takes
/// exactly that many its last byte is at most one.
pub proof fn lemma_encode_bound(v: nat, k: nat)
    requires
        v < 2 * pow128(k),
    ensures
        varint_encode(v).len() <= k + 1,
        varint_encode(v).len() == k + 1 ==> varint_encode(v)[k as int] <= 1,
    decreases k,
{
    if v >= 128 {
        assert(k > 0) by {
            if k == 0 {
                assert(pow128(0) == 1);
            }
        }
        let k1 = (k - 1) as nat;
        assert(pow128(k) == 128 * pow128(k1));
        assert(v / 128 < 2 * pow128(k1)) by (nonlinear_arith)
            requires
                v < 2 * (128 * pow128(k1)),
        ;
        lemma_encode_bound(v / 128, k1);
        let t = varint_encode(v / 128);
        assert(varint_encode(v) =~= seq![((v % 128) + 128) as u8] + t);
        if varint_encode(v).len() == k + 1 {
            assert(varint_encode(v)[k as int] == t[k1 as int]);
        }
    }
}

/// Every 64-bit value satisfies what `decode_from` asks of its input, followed
/// by anything at all.
pub proof fn lemma_encode_u64(v: u64, rest: Seq<u8>)
    ensures
        starts_with_varint(varint_encode(v as nat) + rest),
        varint_encode(v as nat).len() <= 10,
{
    reveal_with_fuel(pow128, 10);
    assert(pow128(9) == 0x8000_0000_0000_0000);
    lemma_encode_bound(v as nat, 9);
    lemma_encode_decode(v as nat, rest);
    let e = varint_encode(v as nat);
    if e.len() == 10 {
        assert((e + rest)[9] == e[9]);
    }
}

/// A value below `128^k` takes at most `k` bytes.
pub proof fn lemma_encode_len_bound(v: nat, k: nat)
    requires
        k >= 1,
        v < pow128(k),
    ensures
        varint_encode(v).len() <= k,
    decreases k,
{
    if v >= 128 {
        let k1 = (k - 1) as nat;
        assert(k1 >= 1) by {
            if k1 == 0 {
                assert(pow128(1) == 128 * pow128(0));
            }
        }
        assert(pow128(k) == 128 * pow128(k1));
        assert(v / 128 < pow128(k1)) by (nonlinear_arith)
            requires
                v < 128 * pow128(k1),
        ;
        lemma_encode_len_bound(v / 128, k1);
    }
}

/// Adding a byte at the end adds its data bits at the next position.
pub proof fn lemma_value_push(s: Seq<u8>, b: u8)
    ensures
        varint_value(s.push(b)) == varint_value(s) + digit(b) * pow128(s.len()),
    decreases s.len(),
{
    if s.len() == 0 {
        assert(s.push(b).drop_first() =~= Seq::<u8>::empty());
        assert(varint_value(s.push(b)) == digit(s.push(b)[0]) + 128 * varint_value(
            s.push(b).drop_first(),
        ));
        assert(pow128(0) == 1);
    } else {
        let r = s.drop_first();
        lemma_value_push(r, b);
        assert(s.push(b).drop_first() =~= r.push(b));
        assert(pow128(s.len()) == 128 * pow128(r.len()));
        assert(s.push(b)[0] == s[0]);
        assert(varint_value(s.push(b)) == digit(s[0]) + 128 * varint_value(r.push(b)));
        assert(128 * (varint_value(r) + digit(b) * pow128(r.len())) == 128 * varint_value(r)
            + digit(b) * (128 * pow128(r.len()))) by (nonlinear_arith);
    }
}

/// `first_stop` is the index where a scan for a byte with a clear top bit
/// ends.
pub proof fn lemma_first_stop(s: Seq<u8>, i: nat)
    requires
        i <= s.len(),
        forall|j: int| 0 <= j < i ==> s[j] >= 128,
        i < s.len() ==> s[i as int] < 128,
    ensures
        first_stop(s) == i,
    decreases i,
{
    if i > 0 {
        let r = s.drop_first();
        assert forall|j: int| 0 <= j < i - 1 implies r[j] >= 128 by {
            assert(r[j] == s[j + 1]);
        }
        lemma_first_stop(r, (i - 1) as nat);
    } else if s.len() > 0 {
        assert(s[0] < 128);
    }
}

/// Where the first `k` bytes all have their top bit set, the first byte with
/// a clear one comes later.
pub proof fn lemma_first_stop_at_least(s: Seq<u8>, k: nat)
    requires
        k <= s.len(),
        forall|j: int| 0 <= j < k ==> s[j] >= 128,
    ensures
        first_stop(s) >= k,
    decreases k,
{
    if k > 0 {
        let r = s.drop_first();
        assert forall|j: int| 0 <= j < k - 1 implies r[j] >= 128 by {
            assert(r[j] == s[j + 1]);
        }
        lemma_first_stop_at_least(r, (k - 1) as nat);
    }
}

/// The first byte with a clear top bit has only set ones before it.
pub proof fn lemma_first_stop_props(s: Seq<u8>)
    ensures
        first_stop(s) <= s.len(),
        first_stop(s) < s.len() ==> s[first_stop(s) as int] < 128,
        forall|j: int| 0 <= j < first_stop(s) ==> s[j] >= 128,
    decreases s.len(),
{
    if s.len() > 0 && s[0] >= 128 {
        let r = s.drop_first();
        lemma_first_stop_props(r);
        assert forall|j: int| 0 <= j < first_stop(s) implies s[j] >= 128 by {
            if j > 0 {
                assert(s[j] == r[j - 1]);
            }
        }
    }
}

/// The value of a prefix of a byte sequence is at most the value of the whole.
pub proof fn lemma_value_take_le(s: Seq<u8>, k: nat)
    requires
        k <= s.len(),
    ensures
        varint_value(s.take(k as int)) <= varint_value(s),
    decreases s.len() - k,
{
    if k < s.len() {
        lemma_value_take_le(s, k + 1);
        assert(s.take(k as int).push(s[k as int]) =~= s.take((k + 1) as int));
        lemma_value_push(s.take(k as int), s[k as int]);
    } else {
        assert(s.take(k as int) =~= s);
    }
}

/// Relies on `varinteger::length`: the number of bytes that
/// `varinteger::encode` writes for `value`.
#[verifier::external_body]
pub(crate) fn encoded_length(value: u64) -> (r: usize)
    ensures
        r == varint_encode(value as nat).len(),
{
    varinteger::length(value)
}

/// Relies on `varinteger::encode_with_offset`: writes the encoding of `value`
/// into `buf` from `offset` on, leaves the other bytes as they were, and
/// returns the number of bytes written.
#[verifier::external_body]
pub(crate) fn encode_into(value: u64, buf: &mut Vec<u8>, offset: usize) -> (r: usize)
    requires
        offset + varint_encode(value as nat).len() <= old(buf)@.len(),
    ensures
        r == varint_encode(value as nat).len(),
        final(buf)@.len() == old(buf)@.len(),
        final(buf)@.subrange(offset as int, offset + r) == varint_encode(value as nat),
        forall|i: int|
            0 <= i < old(buf)@.len() && !(offset <= i < offset + r) ==> final(buf)@[i]
                == old(buf)@[i],
{
    varinteger::encode_with_offset(value, buf.as_mut_slice(), offset)
}

/// Relies on `varinteger::decode`: reads the varint at the start of `buf` and
/// returns its value and its length in bytes. Its multiplier shifts out to
/// zero after the tenth byte; with a tenth digit of at most one and zero
/// digits after it, the sum is exact and cannot overflow.
#[verifier::external_body]
pub(crate) fn decode_from(buf: &[u8]) -> (r: (u64, usize))
    requires
        starts_with_varint(buf@),
    ensures
        r.1 == varint_len(buf@),
        r.0 == varint_at(buf@),
{
    let mut value: u64 = 0;
    let n = varinteger::decode(buf, &mut value);
    (value, n)
}

/// Checks that `buf` starts with a varint that `decode_from` can read.
fn is_varint_start(buf: &[u8]) -> (r: bool)
    ensures
        r == starts_with_varint(buf@),
{
    let mut i: usize = 0;
    while i < buf.len() && buf[i] >= 128
        invariant
            i <= buf@.len(),
            forall|j: int| 0 <= j < i ==> buf@[j] >= 128,
            i > 9 ==> digit(buf@[9]) <= 1,
            forall|j: int| 10 <= j < i ==> digit(buf@[j]) == 0,
        decreases buf@.len() - i,
    {
        if (i == 9 && buf[i] % 128 > 1) || (i >= 10 && buf[i] % 128 != 0) {
            proof {
                lemma_first_stop_at_least(buf@, (i + 1) as nat);
                lemma_first_stop_props(buf@);
            }
            return false;
        }
        i = i + 1;
    }
    proof {
        lemma_first_stop(buf@, i as nat);
    }
    if i == buf.len() {
        false
    } else {
        !((i == 9 && buf[i] % 128 > 1) || (i >= 10 && buf[i] % 128 != 0))
    }
}

/// The minimal encoding of `value`.
pub fn encode_varint(value: u64) -> (r: Vec<u8>)
    ensures
        r@ == varint_encode(value as nat),
{
    let len = encoded_length(value);
    let mut buf: Vec<u8> = vec![0u8; len];
    encode_into(value, &mut buf, 0);
    proof {
        assert(buf@ =~= buf@.subrange(0, len as int));
    }
    buf
}

/// Reads the varint at the start of `buf`: its value and its length in
/// bytes. `None` where `buf` ends before the varint does, or where the
/// value of the varint does not fit in 64 bits.
pub fn decode_varint(buf: &[u8]) -> (r: Option<(u64, usize)>)
    ensures
        r is Some <==> starts_with_varint(buf@),
        r matches Some((v, n)) ==> v == varint_at(buf@) && n == varint_len(buf@),
{
    if is_varint_start(buf) {
        Some(decode_from(buf))
    } else {
        None
    }
}

} // verus!
