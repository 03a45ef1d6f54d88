//! Internet checksum (one's complement of a 16-bit one's-complement sum)
//! over IPv6 pseudo-header and payload, as ICMPv6 and UDP over IPv6 use it.

use vstd::prelude::*;

verus! {

/// Largest packet the checksum routines accept: a 40-byte IPv6 fixed header
/// plus the largest payload a 16-bit payload-length field can declare.
pub const MAX_PACKET_LEN: usize = 65575;

/// Sum of the 16-bit big-endian words of `s` starting at byte index `i`,
/// an odd trailing byte padded with a zero low byte.
pub open spec fn word_sum_from(s: Seq<u8>, i: int) -> int
    decreases s.len() - i,
{
    if i < 0 || i >= s.len() {
        0
    } else if i + 1 == s.len() {
        s[i] * 0x100
    } else {
        s[i] * 0x100 + s[i + 1] + word_sum_from(s, i + 2)
    }
}

/// Sum of `s` read as 16-bit big-endian words, odd tail zero-padded.
pub open spec fn word_sum(s: Seq<u8>) -> int {
    word_sum_from(s, 0)
}

/// One folding step: add the carry out of the low 16 bits back in.
pub open spec fn fold1(x: int) -> int {
    x / 0x10000 + x % 0x10000
}

/// Full fold of a sum below 2^32: two steps always reach a 16-bit value.
pub open spec fn fold32(x: int) -> int {
    fold1(fold1(x))
}

/// The two big-endian bytes of a 16-bit value.
pub open spec fn be16(x: int) -> Seq<u8> {
    seq![(x / 0x100) as u8, (x % 0x100) as u8]
}

/// The checksum bytes for a word sum `x`: one's complement of the folded sum.
pub open spec fn checksum_bytes(x: int) -> Seq<u8> {
    be16(0xFFFF - fold32(x))
}

/// The word sum checksummed for an IPv6 packet `s`: the pseudo-header fields
/// taken from the packet (payload length at bytes 4..6, the next-header value
/// zero-extended to a word) followed by both addresses and the payload
/// (bytes 8 to the end).
pub open spec fn pseudo_sum(s: Seq<u8>) -> int {
    word_sum(s.subrange(4, 6)) + s[6] + word_sum(s.skip(8))
}

/// The checksum bytes of an IPv6 packet whose checksum field is zeroed.
pub open spec fn packet_checksum(s: Seq<u8>) -> Seq<u8> {
    checksum_bytes(pseudo_sum(s))
}

pub proof fn lemma_word_sum_from_bounds(s: Seq<u8>, i: int)
    ensures
        0 <= word_sum_from(s, i),
        0 <= i <= s.len() ==> word_sum_from(s, i) <= (s.len() - i) * 0xFF80,
    decreases s.len() - i,
{
    if i < 0 || i >= s.len() {
    } else if i + 1 == s.len() {
        assert(s[i] * 0x100 <= 0xFF00);
    } else {
        lemma_word_sum_from_bounds(s, i + 2);
        assert((s.len() - i) * 0xFF80 == (s.len() - i - 2) * 0xFF80 + 2 * 0xFF80)
            by (nonlinear_arith);
        assert(s[i] * 0x100 <= 0xFF00);
    }
}

pub proof fn lemma_word_sum_bounds(s: Seq<u8>)
    ensures
        0 <= word_sum(s) <= s.len() * 0xFF80,
{
    lemma_word_sum_from_bounds(s, 0);
}

/// Accumulate the 16-bit big-endian words of `bytes` into `sum32`, padding an
/// odd trailing byte with a zero low byte.
pub fn checksum_roll(sum32: &mut u32, bytes: &[u8])
    requires
        *old(sum32) + word_sum(bytes@) <= u32::MAX,
    ensures
        *final(sum32) == *old(sum32) + word_sum(bytes@),
{
    let n = bytes.len();
    let mut i: usize = 0;
    proof {
        lemma_word_sum_from_bounds(bytes@, 0);
    }
    while n - i >= 2
        invariant
            0 <= i <= n,
            n == bytes@.len(),
            *sum32 + word_sum_from(bytes@, i as int) == *old(sum32) + word_sum(bytes@),
            *sum32 + word_sum_from(bytes@, i as int) <= u32::MAX,
        decreases n - i,
    {
        proof {
            lemma_word_sum_from_bounds(bytes@, i + 2);
        }
        let word: u32 = (bytes[i] as u32) * 0x100 + (bytes[i + 1] as u32);
        *sum32 = *sum32 + word;
        i = i + 2;
    }
    if i < n {
        // odd trailing byte, high half of the final word
        *sum32 = *sum32 + (bytes[i] as u32) * 0x100;
    }
}

/// Fold the carry out of the low 16 bits back in once, complement, and emit
/// the result as two big-endian bytes.  One fold must suffice for the given
/// sum; the packet routines pre-fold so that this always holds for them.
pub fn checksum_finish(sum32: u32) -> (r: [u8; 2])
    requires
        fold1(sum32 as int) <= 0xFFFF,
    ensures
        r@ == checksum_bytes(sum32 as int),
        r@ == be16(0xFFFF - fold1(sum32 as int)),
{
    let high: u32 = sum32 / 0x10000;
    let low: u32 = sum32 % 0x10000;
    let complement: u32 = 0xFFFF - (high + low);
    let r = [(complement / 0x100) as u8, (complement % 0x100) as u8];
    proof {
        assert(fold1(fold1(sum32 as int)) == fold1(sum32 as int));
        assert(r@ =~= be16(0xFFFF - fold1(sum32 as int)));
    }
    r
}

/// Internet checksum of an IPv6 packet (ICMPv6 or UDP payload) whose checksum
/// field is zeroed: pseudo-header payload length and next-header value, then
/// both addresses and the payload.  `None` when the packet is shorter than
/// the fields read.
pub fn icmpv6_udp_checksum(source: &[u8]) -> (r: Option<[u8; 2]>)
    requires
        source@.len() <= MAX_PACKET_LEN,
    ensures
        match r {
            Some(c) => source@.len() >= 8 && c@ == packet_checksum(source@),
            None => source@.len() < 8,
        },
{
    if source.len() < 8 {
        return None;
    }
    let mut sum32: u32 = 0;
    proof {
        lemma_word_sum_bounds(source@.subrange(4, 6));
        lemma_word_sum_bounds(source@.skip(8));
    }
    // payload length (pseudo-header)
    checksum_roll(&mut sum32, slice_range(source, 4, 6));
    // next-header value, zero-extended to one word (pseudo-header)
    sum32 = sum32 + (source[6] as u32);
    // both addresses, then the payload with its checksum field zeroed
    checksum_roll(&mut sum32, slice_range(source, 8, source.len()));
    // pre-fold so that a single fold in checksum_finish always suffices
    let folded: u32 = sum32 / 0x10000 + sum32 % 0x10000;
    Some(checksum_finish(folded))
}

/// The ICMPv6 checksum: the same computation as `icmpv6_udp_checksum`.
pub fn icmpv6_checksum(source: &[u8]) -> (r: Option<[u8; 2]>)
    requires
        source@.len() <= MAX_PACKET_LEN,
    ensures
        match r {
            Some(c) => source@.len() >= 8 && c@ == packet_checksum(source@),
            None => source@.len() < 8,
        },
{
    icmpv6_udp_checksum(source)
}

/// A subslice `s[from..to]`.
fn slice_range<'a>(s: &'a [u8], from: usize, to: usize) -> (r: &'a [u8])
    requires
        0 <= from <= to <= s@.len(),
    ensures
        r@ == s@.subrange(from as int, to as int),
{
    &s[from..to]
}

/// Splitting a word sum at an even index splits the sum.
pub proof fn lemma_word_sum_concat(a: Seq<u8>, b: Seq<u8>)
    requires
        a.len() % 2 == 0,
    ensures
        word_sum(a + b) == word_sum(a) + word_sum(b),
    decreases a.len(),
{
    if a.len() == 0 {
        assert(a + b =~= b);
        assert(word_sum_from(a, 0) == 0);
    } else {
        let a2 = a.skip(2);
        lemma_word_sum_concat(a2, b);
        assert(a2 + b =~= (a + b).skip(2));
        lemma_word_sum_from_shift(a + b);
        lemma_word_sum_from_shift(a);
        assert((a + b)[0] == a[0] && (a + b)[1] == a[1]);
    }
}

/// The word sum from index 2 is the word sum of the sequence without its
/// first two bytes.
proof fn lemma_word_sum_from_shift(s: Seq<u8>)
    requires
        s.len() >= 2,
    ensures
        word_sum_from(s, 2) == word_sum(s.skip(2)),
    decreases s.len(),
{
    lemma_word_sum_from_skip(s, 2, 0);
}

/// Shifting the start index matches dropping a prefix.
proof fn lemma_word_sum_from_skip(s: Seq<u8>, k: int, j: int)
    requires
        0 <= k <= s.len(),
        0 <= j,
    ensures
        word_sum_from(s, k + j) == word_sum_from(s.skip(k), j),
    decreases s.len() - (k + j),
{
    let t = s.skip(k);
    if k + j >= s.len() {
    } else if k + j + 1 == s.len() {
        assert(t[j] == s[k + j]);
    } else {
        lemma_word_sum_from_skip(s, k, j + 2);
        assert(t[j] == s[k + j]);
        assert(t[j + 1] == s[k + j + 1]);
    }
}

/// The word sum of a two-byte sequence is its big-endian value.
pub proof fn lemma_word_sum_pair(x: u8, y: u8)
    ensures
        word_sum(seq![x, y]) == x * 0x100 + y,
{
    let s = seq![x, y];
    assert(word_sum_from(s, 2) == 0);
    assert(word_sum_from(s, 0) == s[0] * 0x100 + s[1] + word_sum_from(s, 2));
}

/// Overwriting one aligned word changes the word sum by the difference of
/// the word values.
pub proof fn lemma_word_sum_update_pair(s: Seq<u8>, j: int, x: u8, y: u8)
    requires
        0 <= j,
        j % 2 == 0,
        j + 2 <= s.len(),
    ensures
        word_sum(s.update(j, x).update(j + 1, y)) == word_sum(s) - (s[j] * 0x100 + s[j + 1]) + (
        x * 0x100 + y),
{
    let a = s.take(j);
    let b = s.skip(j + 2);
    let old_pair = seq![s[j], s[j + 1]];
    let new_pair = seq![x, y];
    assert(s =~= a + old_pair + b);
    assert(s.update(j, x).update(j + 1, y) =~= a + new_pair + b);
    assert(a + old_pair + b =~= a + (old_pair + b));
    assert(a + new_pair + b =~= a + (new_pair + b));
    lemma_word_sum_concat(a, old_pair + b);
    lemma_word_sum_concat(old_pair, b);
    lemma_word_sum_concat(a, new_pair + b);
    lemma_word_sum_concat(new_pair, b);
    lemma_word_sum_pair(s[j], s[j + 1]);
    lemma_word_sum_pair(x, y);
}

/// Folding a 32-bit sum reaches a 16-bit value, and adding the one's
/// complement of the folded sum back into the sum folds to exactly 0xFFFF.
pub proof fn lemma_fold_complement(sum: int)
    requires
        0 <= sum < 0x1_0000_0000,
    ensures
        0 <= fold32(sum) <= 0xFFFF,
        sum + (0xFFFF - fold32(sum)) < 0x1_0000_0000,
        fold32(sum + (0xFFFF - fold32(sum))) == 0xFFFF,
{
    let h = sum / 0x10000;
    let l = sum % 0x10000;
    vstd::arithmetic::div_mod::lemma_fundamental_div_mod(sum, 0x10000);
    vstd::arithmetic::div_mod::lemma_mod_bound(sum, 0x10000);
    assert(0 <= h <= 0xFFFF) by {
        vstd::arithmetic::div_mod::lemma_div_is_ordered(0, sum, 0x10000);
        vstd::arithmetic::div_mod::lemma_div_is_ordered(sum, 0xFFFFFFFF, 0x10000);
    }
    let f1 = h + l;
    if f1 <= 0xFFFF {
        assert(fold1(f1) == f1) by {
            vstd::arithmetic::div_mod::lemma_fundamental_div_mod_converse(f1, 0x10000, 0, f1);
        }
        let c = 0xFFFF - f1;
        let sum2 = sum + c;
        assert(sum2 == h * 0x10000 + (0xFFFF - h));
        assert(fold1(sum2) == 0xFFFF) by {
            vstd::arithmetic::div_mod::lemma_fundamental_div_mod_converse(
                sum2,
                0x10000,
                h,
                0xFFFF - h,
            );
        }
        assert(fold1(0xFFFF) == 0xFFFF) by {
            vstd::arithmetic::div_mod::lemma_fundamental_div_mod_converse(0xFFFF, 0x10000, 0, 0xFFFF);
        }
    } else {
        let l1 = f1 - 0x10000;
        assert(0 <= l1 <= 0xFFFE);
        assert(fold1(f1) == 1 + l1) by {
            vstd::arithmetic::div_mod::lemma_fundamental_div_mod_converse(f1, 0x10000, 1, l1);
        }
        assert(fold1(1 + l1) == 1 + l1) by {
            vstd::arithmetic::div_mod::lemma_fundamental_div_mod_converse(
                1 + l1,
                0x10000,
                0,
                1 + l1,
            );
        }
        let c = 0xFFFF - (1 + l1);
        let sum2 = sum + c;
        if h <= 0xFFFE {
            assert(sum2 == (h + 1) * 0x10000 + (0xFFFE - h));
            assert(fold1(sum2) == 0xFFFF) by {
                vstd::arithmetic::div_mod::lemma_fundamental_div_mod_converse(
                    sum2,
                    0x10000,
                    h + 1,
                    0xFFFE - h,
                );
            }
            assert(fold1(0xFFFF) == 0xFFFF) by {
                vstd::arithmetic::div_mod::lemma_fundamental_div_mod_converse(
                    0xFFFF,
                    0x10000,
                    0,
                    0xFFFF,
                );
            }
        } else {
            assert(h == 0xFFFF);
            assert(sum2 == 0xFFFF * 0x10000 + 0xFFFF);
            assert(fold1(sum2) == 0x1FFFE) by {
                vstd::arithmetic::div_mod::lemma_fundamental_div_mod_converse(
                    sum2,
                    0x10000,
                    0xFFFF,
                    0xFFFF,
                );
            }
            assert(fold1(0x1FFFE) == 0xFFFF) by {
                vstd::arithmetic::div_mod::lemma_fundamental_div_mod_converse(
                    0x1FFFE,
                    0x10000,
                    1,
                    0xFFFE,
                );
            }
        }
    }
}

/// The pseudo-header word sum of a packet no longer than `MAX_PACKET_LEN`
/// fits the 32-bit accumulator.
pub proof fn lemma_pseudo_sum_bounds(s: Seq<u8>)
    requires
        8 <= s.len() <= MAX_PACKET_LEN,
    ensures
        0 <= pseudo_sum(s) < 0x1_0000_0000,
{
    lemma_word_sum_bounds(s.subrange(4, 6));
    lemma_word_sum_bounds(s.skip(8));
}

/// Writing the computed checksum of a packet into its zeroed checksum field
/// (two aligned bytes at `at`, inside the summed region) yields a packet
/// whose pseudo-header sum folds to exactly 0xFFFF: the checksum validates
/// against the new content.
pub proof fn lemma_packet_checksum_write(zeroed: Seq<u8>, at: int)
    requires
        8 <= zeroed.len() <= MAX_PACKET_LEN,
        8 <= at,
        at % 2 == 0,
        at + 2 <= zeroed.len(),
        zeroed[at] == 0,
        zeroed[at + 1] == 0,
    ensures
        ({
            let ck = packet_checksum(zeroed);
            let out = zeroed.update(at, ck[0]).update(at + 1, ck[1]);
            fold32(pseudo_sum(out)) == 0xFFFF
        }),
{
    lemma_pseudo_sum_bounds(zeroed);
    let ps = pseudo_sum(zeroed);
    lemma_fold_complement(ps);
    let c = 0xFFFF - fold32(ps);
    let ck = packet_checksum(zeroed);
    assert(ck[0] == (c / 0x100) as u8 && ck[1] == (c % 0x100) as u8);
    assert(0 <= c / 0x100 < 0x100) by {
        vstd::arithmetic::div_mod::lemma_div_is_ordered(0, c, 0x100);
        vstd::arithmetic::div_mod::lemma_div_is_ordered(c, 0xFFFF, 0x100);
    }
    assert(0 <= c % 0x100 < 0x100) by {
        vstd::arithmetic::div_mod::lemma_mod_bound(c, 0x100);
    }
    let out = zeroed.update(at, ck[0]).update(at + 1, ck[1]);
    assert(out.subrange(4, 6) =~= zeroed.subrange(4, 6));
    assert(out[6] == zeroed[6]);
    assert(out.skip(8) =~= zeroed.skip(8).update(at - 8, ck[0]).update(at - 8 + 1, ck[1]));
    lemma_word_sum_update_pair(zeroed.skip(8), at - 8, ck[0], ck[1]);
    assert(zeroed.skip(8)[at - 8] == 0 && zeroed.skip(8)[at - 8 + 1] == 0);
    assert(ck[0] * 0x100 + ck[1] == c) by {
        vstd::arithmetic::div_mod::lemma_fundamental_div_mod(c, 0x100);
    }
    assert(pseudo_sum(out) == ps + c);
}

/// Self-consistency of the Internet checksum: take any buffer whose two
/// checksum bytes (at an even offset) are zeroed, run the engine over it, and
/// write the two result bytes into the field.  Running the engine over the
/// corrected buffer then yields zero.
pub proof fn lemma_checksum_self_consistency(a: Seq<u8>, b: Seq<u8>)
    requires
        a.len() % 2 == 0,
        fold1(word_sum(a + seq![0u8, 0u8] + b)) <= 0xFFFF,
    ensures
        ({
            let c = 0xFFFF - fold1(word_sum(a + seq![0u8, 0u8] + b));
            let fixed = a + be16(c) + b;
            &&& fold1(word_sum(fixed)) == 0xFFFF
            &&& checksum_bytes(word_sum(fixed)) == seq![0u8, 0u8]
        }),
{
    let zeroed = a + seq![0u8, 0u8] + b;
    let sum = word_sum(zeroed);
    let c = 0xFFFF - fold1(sum);
    let fixed = a + be16(c) + b;
    lemma_word_sum_bounds(zeroed);
    let h = sum / 0x10000;
    let l = sum % 0x10000;
    assert(sum == h * 0x10000 + l) by {
        vstd::arithmetic::div_mod::lemma_fundamental_div_mod(sum, 0x10000);
    }
    assert(0 <= l < 0x10000) by {
        vstd::arithmetic::div_mod::lemma_mod_bound(sum, 0x10000);
    }
    assert(h >= 0) by {
        vstd::arithmetic::div_mod::lemma_div_is_ordered(0, sum, 0x10000);
    }
    // the zero placeholder and the checksum bytes contribute 0 and c
    lemma_word_sum_concat(a, seq![0u8, 0u8] + b);
    lemma_word_sum_concat(seq![0u8, 0u8], b);
    assert((a + (seq![0u8, 0u8] + b)) =~= zeroed);
    lemma_word_sum_concat(a, be16(c) + b);
    lemma_word_sum_concat(be16(c), b);
    assert((a + (be16(c) + b)) =~= fixed);
    assert(0 <= c <= 0xFFFF);
    assert(word_sum(seq![0u8, 0u8]) == 0) by {
        let z = seq![0u8, 0u8];
        assert(word_sum_from(z, 2) == 0);
        assert(word_sum_from(z, 0) == z[0] * 0x100 + z[1] + word_sum_from(z, 2));
    }
    assert(word_sum(be16(c)) == c) by {
        let w = be16(c);
        assert(0 <= c / 0x100 < 0x100) by {
            vstd::arithmetic::div_mod::lemma_div_is_ordered(c, 0xFFFF, 0x100);
        }
        assert(0 <= c % 0x100 < 0x100) by {
            vstd::arithmetic::div_mod::lemma_mod_bound(c, 0x100);
        }
        assert(word_sum_from(w, 2) == 0);
        assert(word_sum_from(w, 0) == w[0] * 0x100 + w[1] + word_sum_from(w, 2));
        assert(w[0] == (c / 0x100) as u8 && w[1] == (c % 0x100) as u8);
        vstd::arithmetic::div_mod::lemma_fundamental_div_mod(c, 0x100);
    }
    let sum2 = word_sum(fixed);
    assert(sum2 == sum + c);
    // sum2 = h * 0x10000 + (0xFFFF - h); the fold therefore gives exactly 0xFFFF
    assert(h + l == fold1(sum));
    assert(h <= 0xFFFF);
    assert(sum2 == h * 0x10000 + (0xFFFF - h));
    assert(sum2 / 0x10000 == h && sum2 % 0x10000 == 0xFFFF - h) by {
        vstd::arithmetic::div_mod::lemma_fundamental_div_mod_converse(
            sum2,
            0x10000,
            h,
            0xFFFF - h,
        );
    }
    assert(fold1(sum2) == 0xFFFF);
    assert(fold32(sum2) == 0xFFFF) by {
        vstd::arithmetic::div_mod::lemma_fundamental_div_mod_converse(0xFFFF, 0x10000, 0, 0xFFFF);
    }
    assert(checksum_bytes(sum2) =~= seq![0u8, 0u8]);
}

} // verus!
