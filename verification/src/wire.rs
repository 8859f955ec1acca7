//! Little-endian numbers.

use vstd::prelude::*;

verus! {

/// The number that the bytes of `s` stand for, the least significant byte first.
pub open spec fn le_value(s: Seq<u8>) -> nat
    decreases s.len(),
{
    if s.len() == 0 {
        0
    } else {
        s[0] as nat + 256 * le_value(s.drop_first())
    }
}

/// The lowest `width` bytes of `value`, the least significant byte first.
pub open spec fn le_bytes(value: nat, width: nat) -> Seq<u8>
    decreases width,
{
    if width == 0 {
        Seq::empty()
    } else {
        seq![(value % 256) as u8] + le_bytes(value / 256, (width - 1) as nat)
    }
}

/// What `width` bytes can count to.
pub open spec fn le_limit(width: nat) -> nat
    decreases width,
{
    if width == 0 {
        1
    } else {
        256 * le_limit((width - 1) as nat)
    }
}

pub proof fn lemma_le_bytes_len(value: nat, width: nat)
    ensures
        le_bytes(value, width).len() == width,
    decreases width,
{
    if width > 0 {
        lemma_le_bytes_len(value / 256, (width - 1) as nat);
    }
}

/// Reading gives back the number that was written, where its bytes were enough for it.
pub proof fn lemma_le_value_of_bytes(value: nat, width: nat)
    requires
        value < le_limit(width),
    ensures
        le_value(le_bytes(value, width)) == value,
    decreases width,
{
    if width > 0 {
        let tail = le_bytes(value / 256, (width - 1) as nat);
        lemma_le_value_of_bytes(value / 256, (width - 1) as nat);
        assert(le_bytes(value, width).drop_first() =~= tail);
    }
}

pub proof fn lemma_le_limits()
    ensures
        le_limit(2) == 0x1_0000,
        le_limit(4) == 0x1_0000_0000,
        le_limit(8) == 0x1_0000_0000_0000_0000,
{
    reveal_with_fuel(le_limit, 9);
}

/// The number in eight little-endian bytes.
pub fn u64_from_le(s: &[u8]) -> (value: u64)
    requires
        s@.len() == 8,
    ensures
        value == le_value(s@),
{
    proof {
        reveal_with_fuel(le_value, 9);
        let t1 = s@.drop_first();
        let t2 = t1.drop_first();
        let t3 = t2.drop_first();
        let t4 = t3.drop_first();
        let t5 = t4.drop_first();
        let t6 = t5.drop_first();
        let t7 = t6.drop_first();
        assert(t7[0] == s@[7]);
        assert(t7.drop_first().len() == 0);
    }
    s[0] as u64 + 256 * (s[1] as u64 + 256 * (s[2] as u64 + 256 * (s[3] as u64 + 256 * (s[4] as u64
        + 256 * (s[5] as u64 + 256 * (s[6] as u64 + 256 * (s[7] as u64)))))))
}

/// The number in four little-endian bytes.
pub fn u32_from_le(s: &[u8]) -> (value: u32)
    requires
        s@.len() == 4,
    ensures
        value == le_value(s@),
{
    proof {
        reveal_with_fuel(le_value, 5);
        let t3 = s@.drop_first().drop_first().drop_first();
        assert(t3[0] == s@[3]);
        assert(t3.drop_first().len() == 0);
    }
    s[0] as u32 + 256 * (s[1] as u32 + 256 * (s[2] as u32 + 256 * (s[3] as u32)))
}

/// The eight little-endian bytes of a number.
pub fn u64_to_le(value: u64) -> (bytes: Vec<u8>)
    ensures
        bytes@ == le_bytes(value as nat, 8),
{
    let mut bytes: Vec<u8> = Vec::new();
    let mut rest: u64 = value;
    let mut i: usize = 0;
    while i < 8
        invariant
            i <= 8,
            le_bytes(value as nat, 8) == bytes@ + le_bytes(rest as nat, (8 - i) as nat),
        decreases 8 - i,
    {
        let ghost before = bytes@;
        bytes.push((rest % 256) as u8);
        proof {
            assert(before + le_bytes(rest as nat, (8 - i) as nat) =~= bytes@ + le_bytes(
                (rest / 256) as nat,
                (7 - i) as nat,
            ));
        }
        rest = rest / 256;
        i = i + 1;
    }
    proof {
        assert(bytes@ + le_bytes(rest as nat, 0) =~= bytes@);
    }
    bytes
}

} // verus!
