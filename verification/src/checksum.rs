use vstd::prelude::*;

verus! {

/// One's-complement addition of two 16-bit quantities: the carry out of
/// bit 15 is folded back into the low bits.
pub open spec fn add1c(a: nat, b: nat) -> nat
    recommends
        a <= 0xFFFF,
        b <= 0xFFFF,
{
    if a + b >= 0x10000 {
        (a + b - 0xFFFF) as nat
    } else {
        a + b
    }
}

/// Big-endian 16-bit word formed from two bytes.
pub open spec fn be_word(hi: u8, lo: u8) -> nat {
    (hi * 256 + lo) as nat
}

/// Folded one's-complement sum of the first `n` bytes of `b`, taken as
/// big-endian 16-bit words; `n` must be even.
pub open spec fn sum16_pre(b: Seq<u8>, n: int) -> nat
    recommends
        0 <= n <= b.len(),
        n % 2 == 0,
    decreases n,
{
    if n < 2 {
        0
    } else {
        add1c(sum16_pre(b, n - 2), be_word(b[n - 2], b[n - 1]))
    }
}

/// Folded one's-complement sum of a whole byte sequence; an odd final byte
/// contributes as the high byte of a word with a zero low byte.
pub open spec fn sum16(b: Seq<u8>) -> nat {
    if b.len() % 2 == 0 {
        sum16_pre(b, b.len() as int)
    } else {
        add1c(sum16_pre(b, b.len() - 1), be_word(b[b.len() - 1], 0))
    }
}

/// The Internet checksum of a byte sequence: the complement of the folded
/// one's-complement sum.
pub open spec fn spec_checksum(b: Seq<u8>) -> nat {
    (0xFFFF - sum16(b)) as nat
}

/// The folded sum always fits in 16 bits.
pub proof fn lemma_sum16_pre_bound(b: Seq<u8>, n: int)
    requires
        0 <= n <= b.len(),
        n % 2 == 0,
    ensures
        sum16_pre(b, n) <= 0xFFFF,
    decreases n,
{
    if n > 0 {
        lemma_sum16_pre_bound(b, n - 2);
    }
}

pub proof fn lemma_sum16_bound(b: Seq<u8>)
    ensures
        sum16(b) <= 0xFFFF,
        spec_checksum(b) <= 0xFFFF,
{
    if b.len() % 2 == 0 {
        lemma_sum16_pre_bound(b, b.len() as int);
    } else {
        lemma_sum16_pre_bound(b, b.len() - 1);
    }
}

/// One's-complement addition may be reordered: adding `y` then `z` gives
/// the same folded sum as adding `z` then `y`.
proof fn lemma_add1c_swap(x: nat, y: nat, z: nat)
    requires
        x <= 0xFFFF,
        y <= 0xFFFF,
        z <= 0xFFFF,
    ensures
        add1c(add1c(x, y), z) == add1c(add1c(x, z), y),
{
}

/// Two sequences that agree on their first `n` bytes have the same folded
/// sum over those bytes.
proof fn lemma_sum16_pre_agree(b: Seq<u8>, b2: Seq<u8>, n: int)
    requires
        0 <= n <= b.len(),
        n <= b2.len(),
        forall|j: int| 0 <= j < n ==> b[j] == b2[j],
    ensures
        sum16_pre(b, n) == sum16_pre(b2, n),
    decreases n,
{
    if n >= 2 {
        lemma_sum16_pre_agree(b, b2, n - 2);
    }
}

/// Overwriting a zeroed, word-aligned 16-bit field with the value `v1:v2`
/// adds that word to the folded sum of the first `n` bytes.
proof fn lemma_sum16_pre_update(b: Seq<u8>, i: int, v1: u8, v2: u8, n: int)
    requires
        0 <= i,
        i % 2 == 0,
        i + 2 <= n <= b.len(),
        n % 2 == 0,
        b[i] == 0,
        b[i + 1] == 0,
    ensures
        sum16_pre(b.update(i, v1).update(i + 1, v2), n) == add1c(
            sum16_pre(b, n),
            be_word(v1, v2),
        ),
    decreases n,
{
    let b2 = b.update(i, v1).update(i + 1, v2);
    lemma_sum16_pre_bound(b, n - 2);
    if n == i + 2 {
        lemma_sum16_pre_agree(b, b2, i);
        assert(be_word(b[i], b[i + 1]) == 0);
        lemma_sum16_pre_bound(b, i);
        assert(add1c(sum16_pre(b, i), 0) == sum16_pre(b, i));
    } else {
        lemma_sum16_pre_update(b, i, v1, v2, n - 2);
        assert(b2[n - 2] == b[n - 2]);
        assert(b2[n - 1] == b[n - 1]);
        lemma_add1c_swap(sum16_pre(b, n - 2), be_word(v1, v2), be_word(b[n - 2], b[n - 1]));
    }
}

/// The verification identity of the Internet checksum: take any buffer
/// whose 16-bit checksum field (at an even offset) holds zero, compute the
/// checksum over the whole buffer, and write the result back into that
/// field, high byte first. The folded one's-complement sum of the patched
/// buffer is then `0xFFFF`, so recomputing the complemented checksum over
/// the patched buffer yields zero.
pub proof fn lemma_checksum_verification(b: Seq<u8>, i: int)
    requires
        0 <= i,
        i % 2 == 0,
        i + 2 <= b.len(),
        b[i] == 0,
        b[i + 1] == 0,
    ensures
        sum16(
            b.update(i, (spec_checksum(b) / 256) as u8).update(
                i + 1,
                (spec_checksum(b) % 256) as u8,
            ),
        ) == 0xFFFF,
        spec_checksum(
            b.update(i, (spec_checksum(b) / 256) as u8).update(
                i + 1,
                (spec_checksum(b) % 256) as u8,
            ),
        ) == 0,
{
    lemma_sum16_bound(b);
    let c = spec_checksum(b);
    let hi = (c / 256) as u8;
    let lo = (c % 256) as u8;
    let b2 = b.update(i, hi).update(i + 1, lo);
    assert(be_word(hi, lo) == c);
    if b.len() % 2 == 0 {
        lemma_sum16_pre_update(b, i, hi, lo, b.len() as int);
        assert(sum16(b) + c == 0xFFFF);
    } else {
        lemma_sum16_pre_update(b, i, hi, lo, b.len() - 1);
        lemma_sum16_pre_bound(b, b.len() - 1);
        assert(b2[b.len() - 1] == b[b.len() - 1]);
        lemma_add1c_swap(sum16_pre(b, b.len() - 1), c, be_word(b[b.len() - 1], 0));
        assert(sum16(b2) == add1c(sum16(b), c));
        assert(sum16(b) + c == 0xFFFF);
    }
}

/// Internet checksum over `data[start..end]`: sum successive big-endian
/// 16-bit words, fold carries back into the low 16 bits, and complement.
pub fn checksum_range(data: &[u8], start: usize, end: usize) -> (r: u16)
    requires
        start <= end <= data@.len(),
    ensures
        r == spec_checksum(data@.subrange(start as int, end as int)),
{
    let ghost s = data@.subrange(start as int, end as int);
    let mut sum: u32 = 0;
    let mut i: usize = start;
    while end - i > 1
        invariant
            start <= i <= end <= data@.len(),
            s == data@.subrange(start as int, end as int),
            (i - start) % 2 == 0,
            sum == sum16_pre(s, i - start),
            sum <= 0xFFFF,
        decreases end - i,
    {
        let word: u32 = (data[i] as u32) * 256 + (data[i + 1] as u32);
        proof {
            assert(s[i - start] == data@[i as int]);
            assert(s[i + 1 - start] == data@[i + 1]);
        }
        sum = sum + word;
        if sum >= 0x10000 {
            sum = sum - 0xFFFF;
        }
        i = i + 2;
    }
    if i < end {
        let word: u32 = (data[i] as u32) * 256;
        proof {
            assert(s[i - start] == data@[i as int]);
        }
        sum = sum + word;
        if sum >= 0x10000 {
            sum = sum - 0xFFFF;
        }
        proof {
            assert(s.len() % 2 != 0);
            assert(i - start == s.len() - 1);
        }
    }
    assert(sum == sum16(s));
    0xFFFFu16 - (sum as u16)
}

/// Internet checksum of a whole buffer.
pub fn checksum(data: &[u8]) -> (r: u16)
    ensures
        r == spec_checksum(data@),
{
    let n = data.len();
    let r = checksum_range(data, 0, n);
    proof {
        assert(data@.subrange(0, data@.len() as int) =~= data@);
    }
    r
}

} // verus!
