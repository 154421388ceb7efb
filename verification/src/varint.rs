//! Base-128 variable-length integers, as the wire format uses them for keys
//! and lengths. The bytes themselves are written and read by `prost`.

use vstd::prelude::*;

verus! {

/// The varint form of `value`: seven bits to a byte, least significant group
/// first, the top bit set on every byte but the last.
pub open spec fn varint_bytes(value: nat) -> Seq<u8>
    decreases value,
{
    if value < 128 {
        seq![value as u8]
    } else {
        seq![(value % 128 + 128) as u8] + varint_bytes(value / 128)
    }
}

/// How many bytes the varint at the start of `s` takes: one more than the
/// index of the first byte below 128, or 0 where `s` has no such byte.
pub open spec fn varint_width(s: Seq<u8>) -> nat
    decreases s.len(),
{
    if s.len() == 0 {
        0
    } else if s[0] < 128 {
        1
    } else {
        let rest = varint_width(s.drop_first());
        if rest == 0 {
            0
        } else {
            rest + 1
        }
    }
}

/// The number that the varint at the start of `s` stands for.
pub open spec fn varint_value(s: Seq<u8>) -> nat
    decreases s.len(),
{
    if s.len() == 0 {
        0
    } else if s[0] < 128 {
        s[0] as nat
    } else {
        (s[0] - 128) as nat + 128 * varint_value(s.drop_first())
    }
}

/// Whether `s` starts with a varint that a reader accepts: it ends within ten
/// bytes, and a tenth byte carries at most the one bit that still fits in 64.
pub open spec fn varint_accepted(s: Seq<u8>) -> bool {
    &&& 1 <= varint_width(s) <= 10
    &&& varint_width(s) == 10 ==> s[9] < 2
}

/// 128 to the power `k`.
pub open spec fn group_limit(k: nat) -> nat
    decreases k,
{
    if k == 0 {
        1
    } else {
        128 * group_limit((k - 1) as nat)
    }
}

/// Calls `prost::encoding::encode_varint` on a `Vec<u8>`. Trusted: the call
/// appends the varint form of `value` to the buffer and leaves what the
/// buffer held before in place.
#[verifier::external_body]
pub(crate) fn put_varint(value: u64, buf: &mut Vec<u8>)
    ensures
        final(buf)@ == old(buf)@ + varint_bytes(value as nat),
{
    prost::encoding::encode_varint(value, buf)
}

/// Calls `prost::encoding::decode_varint` on a byte slice. Trusted: the call
/// succeeds exactly on input that starts with an accepted varint, and then
/// returns its value and leaves the slice behind its last byte.
#[verifier::external_body]
pub(crate) fn take_varint<'a>(input: &'a [u8]) -> (r: Option<(u64, &'a [u8])>)
    ensures
        r is Some <==> varint_accepted(input@),
        r is Some ==> r.unwrap().0 as nat == varint_value(input@),
        r is Some ==> r.unwrap().1@ == input@.skip(varint_width(input@) as int),
{
    let mut rest = input;
    match prost::encoding::decode_varint(&mut rest) {
        Ok(value) => Some((value, rest)),
        Err(_) => None,
    }
}

/// The width of a varint never exceeds the bytes at hand.
pub proof fn lemma_varint_width_bound(s: Seq<u8>)
    ensures
        varint_width(s) <= s.len(),
    decreases s.len(),
{
    if s.len() > 0 && s[0] >= 128 {
        lemma_varint_width_bound(s.drop_first());
    }
}

/// Reading back what was written: whatever follows, the bytes of `value` are
/// read as one varint of that very length and value.
pub proof fn lemma_varint_read_back(value: nat, tail: Seq<u8>)
    ensures
        varint_bytes(value).len() >= 1,
        varint_width(varint_bytes(value) + tail) == varint_bytes(value).len(),
        varint_value(varint_bytes(value) + tail) == value,
    decreases value,
{
    let s = varint_bytes(value) + tail;
    if value >= 128 {
        let rest = varint_bytes(value / 128);
        lemma_varint_read_back(value / 128, tail);
        assert(s.drop_first() =~= rest + tail);
    }
}

/// A number below 128 to the power `k` takes at most `k` bytes.
pub proof fn lemma_varint_len_bound(value: nat, k: nat)
    requires
        k >= 1,
        value < group_limit(k),
    ensures
        1 <= varint_bytes(value).len() <= k,
    decreases value,
{
    if value >= 128 {
        assert(group_limit(1) == 128 * group_limit(0));
        lemma_varint_len_bound(value / 128, (k - 1) as nat);
    }
}

/// Where a number below twice 128 to the power `k - 1` takes `k` bytes, the
/// last of them is 0 or 1.
pub proof fn lemma_varint_last_byte(value: nat, k: nat)
    requires
        k >= 1,
        varint_bytes(value).len() == k,
        value < 2 * group_limit((k - 1) as nat),
    ensures
        varint_bytes(value)[k - 1] < 2,
    decreases value,
{
    if value >= 128 {
        lemma_varint_last_byte(value / 128, (k - 1) as nat);
    }
}

/// The ninth and the tenth power of 128: what nine bytes and what ten bytes
/// of a varint can hold.
pub proof fn lemma_group_limits()
    ensures
        group_limit(9) == 0x8000_0000_0000_0000,
        group_limit(10) == 0x40_0000_0000_0000_0000,
{
    reveal_with_fuel(group_limit, 11);
}

/// Every 64-bit number is written as a varint that is accepted when read,
/// and read as itself.
pub proof fn lemma_varint_round_trip(value: u64, tail: Seq<u8>)
    ensures
        varint_accepted(varint_bytes(value as nat) + tail),
        varint_value(varint_bytes(value as nat) + tail) == value,
        varint_width(varint_bytes(value as nat) + tail) == varint_bytes(value as nat).len(),
        1 <= varint_bytes(value as nat).len() <= 10,
{
    let v = value as nat;
    lemma_group_limits();
    lemma_varint_read_back(v, tail);
    lemma_varint_len_bound(v, 10);
    if varint_bytes(v).len() == 10 {
        lemma_varint_last_byte(v, 10);
    }
}

} // verus!
