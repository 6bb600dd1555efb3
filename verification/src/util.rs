//! Hashing and bucketing: from a user and a seed to a place in the hash
//! space, and from a place to a variation.

use crate::lookup::{lemma_key_position_is, lookup};
use crate::model::{BucketRange, Namespace, ONE};
use crate::text::{chars_of, decimal_digits, decimal_of_u64, parse_i32, parse_i32_spec, str_eq};
use aes::cipher::block_padding::Pkcs7;
use aes::cipher::{BlockDecryptMut, KeyIvInit};
use vstd::prelude::*;
use vstd::slice::slice_subrange;
use vstd::string::*;
use vstd::utf8::{
    decode_utf8, encode_utf8, encode_utf8_decode_utf8, encode_utf8_valid_utf8, valid_utf8,
};

verus! {

/// The offset basis of the 32-bit FNV-1a hash.
pub const INIT32: u32 = 0x811c9dc5;

/// The prime of the 32-bit FNV-1a hash.
pub const PRIME32: u32 = 0x01000193;

/// The parts that a thousandth of the hash space has.
pub const THOUSANDTH: i64 = 1_000_000_000;

/// The parts that a ten-thousandth of the hash space has.
pub const TEN_THOUSANDTH: i64 = 100_000_000;

/// How far the sum of weights may be from the whole and still be used: a
/// hundredth of the space.
pub const WEIGHT_TOLERANCE: i64 = 10_000_000_000;

/// One step of FNV-1a: the byte is mixed in, and the state multiplied by the
/// prime, modulo two to the power 32.
pub open spec fn fnv_step(state: u32, byte: u8) -> u32 {
    (((state ^ (byte as u32)) as int * PRIME32 as int) % 0x1_0000_0000) as u32
}

/// The FNV-1a state after the bytes of `data`, from the state `state`.
pub open spec fn fnv_fold(state: u32, data: Seq<u8>) -> u32
    decreases data.len(),
{
    if data.len() == 0 {
        state
    } else {
        fnv_step(fnv_fold(state, data.drop_last()), data.last())
    }
}

/// The 32-bit FNV-1a hash of `data`.
pub open spec fn fnv1a32_of(data: Seq<u8>) -> u32 {
    fnv_fold(INIT32, data)
}

/// Hashing what is joined is hashing the first part, then going on with the
/// second.
pub proof fn lemma_fnv_fold_joined(state: u32, a: Seq<u8>, b: Seq<u8>)
    ensures
        fnv_fold(state, a + b) == fnv_fold(fnv_fold(state, a), b),
    decreases b.len(),
{
    if b.len() == 0 {
        assert(a + b =~= a);
    } else {
        assert((a + b).drop_last() =~= a + b.drop_last());
        lemma_fnv_fold_joined(state, a, b.drop_last());
    }
}

/// Goes on hashing with the bytes of `data`.
fn fnv_continue(state: u32, data: &[u8]) -> (next: u32)
    ensures
        next == fnv_fold(state, data@),
{
    let mut hash = state;
    let mut i: usize = 0;
    while i < data.len()
        invariant
            i <= data.len(),
            hash == fnv_fold(state, data@.take(i as int)),
        decreases data.len() - i,
    {
        proof {
            assert(data@.take(i + 1).drop_last() =~= data@.take(i as int));
        }
        let mixed: u64 = (hash ^ (data[i] as u32)) as u64;
        assert(mixed * (PRIME32 as u64) <= 0xffff_ffff * 0x0100_0193) by (nonlinear_arith)
            requires
                mixed <= 0xffff_ffff,
                PRIME32 == 0x0100_0193,
        ;
        hash = ((mixed * (PRIME32 as u64)) % 0x1_0000_0000) as u32;
        i += 1;
    }
    assert(data@.take(data.len() as int) =~= data@);
    hash
}

/// The 32-bit FNV-1a hash of the bytes of `data`.
pub fn fnv1a32(data: &str) -> (hash: u32)
    ensures
        hash == fnv1a32_of(encode_utf8(data@)),
{
    fnv_continue(INIT32, data.as_bytes())
}

/// Where a value hashes to under a seed, as a share of the hash space.
/// Version 1 hashes the value followed by the seed and keeps three decimal
/// places. Version 2 hashes the seed followed by the value, hashes the
/// decimal numeral of that hash again, and keeps four. There is no other
/// version.
pub open spec fn hash_of(seed: Seq<u8>, value: Seq<u8>, version: i32) -> Option<i64> {
    if version == 1 {
        Some(((fnv1a32_of(value + seed) % 1000) * THOUSANDTH) as i64)
    } else if version == 2 {
        Some(
            ((fnv1a32_of(decimal_digits(fnv1a32_of(seed + value) as nat)) % 10000)
                * TEN_THOUSANDTH) as i64,
        )
    } else {
        None
    }
}

/// Every hash is a share of the space, and the versions that hash are 1 and
/// 2.
pub proof fn lemma_hash_in_space(seed: Seq<u8>, value: Seq<u8>, version: i32)
    ensures
        match hash_of(seed, value, version) {
            Some(share) => 0 <= share < ONE && (version == 1 || version == 2),
            None => version != 1 && version != 2,
        },
        version == 1 ==> hash_of(seed, value, version)->0 % THOUSANDTH == 0,
        version == 2 ==> hash_of(seed, value, version)->0 % TEN_THOUSANDTH == 0,
{
}

/// Where `value` hashes to under the seed made of the two parts of `seed`.
pub fn hash_bytes(seed_head: &[u8], seed_tail: &[u8], value: &[u8], version: i32) -> (share: Option<
    i64,
>)
    ensures
        share == hash_of(seed_head@ + seed_tail@, value@, version),
{
    if version == 1 {
        proof {
            lemma_fnv_fold_joined(INIT32, value@, seed_head@ + seed_tail@);
            lemma_fnv_fold_joined(fnv_fold(INIT32, value@), seed_head@, seed_tail@);
        }
        let n = fnv_continue(fnv_continue(fnv_continue(INIT32, value), seed_head), seed_tail);
        Some((n % 1000) as i64 * THOUSANDTH)
    } else if version == 2 {
        proof {
            lemma_fnv_fold_joined(INIT32, seed_head@ + seed_tail@, value@);
            lemma_fnv_fold_joined(INIT32, seed_head@, seed_tail@);
        }
        let first = fnv_continue(fnv_continue(fnv_continue(INIT32, seed_head), seed_tail), value);
        let numeral = decimal_of_u64(first as u64);
        let n = fnv_continue(INIT32, numeral.as_slice());
        Some((n % 10000) as i64 * TEN_THOUSANDTH)
    } else {
        None
    }
}

/// Where `value` hashes to under `seed`, as a share of the hash space: at
/// least 0 and less than `ONE`. `None` for a version that is neither 1 nor 2.
pub fn hash(seed: &str, value: &str, version: i32) -> (share: Option<i64>)
    ensures
        share == hash_of(encode_utf8(seed@), encode_utf8(value@), version),
        match share {
            Some(s) => 0 <= s < ONE && (version == 1 || version == 2),
            None => version != 1 && version != 2,
        },
{
    proof {
        lemma_hash_in_space(encode_utf8(seed@), encode_utf8(value@), version);
    }
    let nothing: Vec<u8> = Vec::new();
    assert(encode_utf8(seed@) + nothing@ =~= encode_utf8(seed@));
    hash_bytes(seed.as_bytes(), nothing.as_slice(), value.as_bytes(), version)
}

/// The share lies in the range: at or after its start, and before its end.
pub open spec fn in_range_spec(n: i64, range: BucketRange) -> bool {
    range.range_start <= n < range.range_end
}

/// Whether the share lies in the range.
pub fn in_range(n: i64, range: &BucketRange) -> (inside: bool)
    ensures
        inside == in_range_spec(n, *range),
{
    n >= range.range_start && n < range.range_end
}

/// The two underscores that start the seed of a namespace.
pub open spec fn namespace_prefix() -> Seq<u8> {
    seq![95u8, 95u8]
}

/// Whether a user belongs to the namespace: the user's hash under the
/// namespace's seed, by version 1, lies in the namespace's range.
pub open spec fn in_namespace_spec(user: Seq<u8>, id: Seq<u8>, start: i64, end: i64) -> bool {
    let share = hash_of(namespace_prefix() + id, user, 1)->0;
    start <= share < end
}

/// Whether the user whose identifier has the bytes `user` belongs to the
/// namespace.
pub fn in_namespace_bytes(user: &[u8], namespace: &Namespace) -> (inside: bool)
    ensures
        inside == in_namespace_spec(
            user@,
            encode_utf8(namespace.id@),
            namespace.range_start,
            namespace.range_end,
        ),
{
    let mut prefix: Vec<u8> = Vec::new();
    prefix.push(95u8);
    prefix.push(95u8);
    assert(prefix@ =~= namespace_prefix());
    match hash_bytes(prefix.as_slice(), namespace.id.as_str().as_bytes(), user, 1) {
        Some(share) => share >= namespace.range_start && share < namespace.range_end,
        None => false,
    }
}

/// Whether the user belongs to the namespace.
pub fn in_namespace(user_id: &str, namespace: &Namespace) -> (inside: bool)
    ensures
        inside == in_namespace_spec(
            encode_utf8(user_id@),
            encode_utf8(namespace.id@),
            namespace.range_start,
            namespace.range_end,
        ),
{
    in_namespace_bytes(user_id.as_bytes(), namespace)
}

/// The sum of shares.
pub open spec fn total(shares: Seq<i64>) -> int
    decreases shares.len(),
{
    if shares.len() == 0 {
        0
    } else {
        total(shares.drop_last()) + shares.last()
    }
}

/// Equal weights for `count` variations: none for a count below 1, else
/// `count` times the `count`-th part of the whole, rounded down.
pub open spec fn equal_weights(count: int) -> Seq<i64> {
    if count < 1 {
        Seq::empty()
    } else {
        Seq::new(count as nat, |i: int| ((ONE as int) / count) as i64)
    }
}

/// Equal weights for `num_variations` variations.
pub fn get_equal_weights(num_variations: i32) -> (weights: Vec<i64>)
    ensures
        weights@ == equal_weights(num_variations as int),
{
    let mut weights: Vec<i64> = Vec::new();
    if num_variations < 1 {
        assert(weights@ =~= equal_weights(num_variations as int));
        return weights;
    }
    let each: i64 = ONE / (num_variations as i64);
    let mut i: i32 = 0;
    while i < num_variations
        invariant
            0 <= i <= num_variations,
            each == (ONE as int) / (num_variations as int),
            weights@.len() == i,
            forall|j: int| 0 <= j < i ==> weights@[j] == each,
        decreases num_variations - i,
    {
        weights.push(each);
        i += 1;
    }
    assert(weights@ =~= equal_weights(num_variations as int));
    weights
}

/// A coverage held to the hash space: nothing below 0, nothing above `ONE`.
pub open spec fn clamped(coverage: i64) -> i64 {
    if coverage < 0 {
        0
    } else if coverage > ONE {
        ONE
    } else {
        coverage
    }
}

/// Whether the weights given can be used: there is one for each variation,
/// and they add up to the whole to within the tolerance.
pub open spec fn weights_usable(count: int, weights: Seq<i64>) -> bool {
    weights.len() == count && -WEIGHT_TOLERANCE <= total(weights) - ONE <= WEIGHT_TOLERANCE
}

/// The weights that the ranges are made from: those given where they can be
/// used, else equal weights.
pub open spec fn effective_weights(count: int, weights: Option<Seq<i64>>) -> Seq<i64> {
    match weights {
        Some(given) => if weights_usable(count, given) {
            given
        } else {
            equal_weights(count)
        },
        None => equal_weights(count),
    }
}

/// The share `coverage` of `weight`, rounded towards zero.
pub open spec fn covered(coverage: i64, weight: i64) -> int {
    if weight >= 0 {
        coverage * weight / (ONE as int)
    } else {
        -(coverage * (-weight) / (ONE as int))
    }
}

/// An integer held to what 64 bits can say.
pub open spec fn saturated(x: int) -> i64 {
    if x > i64::MAX {
        i64::MAX
    } else if x < i64::MIN {
        i64::MIN
    } else {
        x as i64
    }
}

/// The range of the variation `i`: it starts where the weights before it
/// end, and it is as wide as the coverage of its own weight.
pub open spec fn bucket_range_at(coverage: i64, weights: Seq<i64>, i: int) -> BucketRange {
    let start = total(weights.take(i));
    BucketRange {
        range_start: saturated(start),
        range_end: saturated(start + covered(coverage, weights[i])),
    }
}

/// The ranges of the variations. Each range starts where the weights before
/// it end; where the coverage is not the whole, each range is followed by a
/// gap.
pub open spec fn bucket_ranges(count: int, coverage: i64, weights: Option<Seq<i64>>) -> Seq<
    BucketRange,
> {
    let used = effective_weights(count, weights);
    Seq::new(used.len(), |i: int| bucket_range_at(clamped(coverage), used, i))
}

/// The shares that an optional vector holds.
pub open spec fn option_shares(weights: Option<Vec<i64>>) -> Option<Seq<i64>> {
    match weights {
        Some(w) => Some(w@),
        None => None,
    }
}

proof fn lemma_total_bound(shares: Seq<i64>)
    ensures
        -(shares.len() * 0x8000_0000_0000_0000) <= total(shares) <= shares.len()
            * 0x8000_0000_0000_0000,
    decreases shares.len(),
{
    if shares.len() > 0 {
        lemma_total_bound(shares.drop_last());
    }
}

/// The sum of the shares, where there are few enough of them.
fn sum_of(shares: &Vec<i64>) -> (sum: i128)
    requires
        shares.len() <= 0x8000_0000,
    ensures
        sum == total(shares@),
        -0x4000_0000_0000_0000_0000_0000 <= sum <= 0x4000_0000_0000_0000_0000_0000,
{
    let mut sum: i128 = 0;
    let mut i: usize = 0;
    while i < shares.len()
        invariant
            i <= shares.len() <= 0x8000_0000,
            sum == total(shares@.take(i as int)),
        decreases shares.len() - i,
    {
        proof {
            assert(shares@.take(i + 1).drop_last() =~= shares@.take(i as int));
            lemma_total_bound(shares@.take(i as int));
        }
        sum = sum + shares[i] as i128;
        i += 1;
    }
    assert(shares@.take(shares.len() as int) =~= shares@);
    proof {
        lemma_total_bound(shares@);
        assert(shares.len() * 0x8000_0000_0000_0000 <= 0x8000_0000 * 0x8000_0000_0000_0000)
            by (nonlinear_arith)
            requires
                shares.len() <= 0x8000_0000,
        ;
    }
    sum
}

fn saturate(x: i128) -> (held: i64)
    ensures
        held == saturated(x as int),
{
    if x > i64::MAX as i128 {
        i64::MAX
    } else if x < i64::MIN as i128 {
        i64::MIN
    } else {
        x as i64
    }
}

/// The ranges of `num_variations` variations under a coverage. Weights that
/// cannot be used give way to equal weights.
pub fn get_bucket_ranges(num_variations: i32, coverage: i64, weights: Option<Vec<i64>>) -> (ranges:
    Vec<BucketRange>)
    ensures
        ranges@ == bucket_ranges(num_variations as int, coverage, option_shares(weights)),
{
    let cov: i64 = if coverage < 0 {
        0
    } else if coverage > ONE {
        ONE
    } else {
        coverage
    };
    let used: Vec<i64> = match weights {
        Some(given) => {
            if num_variations >= 0 && given.len() == num_variations as usize {
                let sum = sum_of(&given);
                if sum - (ONE as i128) >= -(WEIGHT_TOLERANCE as i128) && sum - (ONE as i128) <= (
                WEIGHT_TOLERANCE as i128) {
                    given
                } else {
                    get_equal_weights(num_variations)
                }
            } else {
                get_equal_weights(num_variations)
            }
        },
        None => get_equal_weights(num_variations),
    };
    assert(used@ == effective_weights(num_variations as int, option_shares(weights)));
    assert(used.len() <= 0x8000_0000);
    let mut ranges: Vec<BucketRange> = Vec::new();
    let mut cumulative: i128 = 0;
    let mut i: usize = 0;
    while i < used.len()
        invariant
            i <= used.len() <= 0x8000_0000,
            0 <= cov <= ONE,
            cov == clamped(coverage),
            cumulative == total(used@.take(i as int)),
            ranges@.len() == i,
            forall|j: int| 0 <= j < i ==> ranges@[j] == bucket_range_at(cov, used@, j),
        decreases used.len() - i,
    {
        let weight = used[i];
        proof {
            assert(used@.take(i + 1).drop_last() =~= used@.take(i as int));
            lemma_total_bound(used@.take(i as int));
            assert(-(ONE * 0x8000_0000_0000_0000) <= cov * weight <= ONE * 0x8000_0000_0000_0000)
                by (nonlinear_arith)
                requires
                    0 <= cov <= ONE,
                    -0x8000_0000_0000_0000 <= weight <= 0x8000_0000_0000_0000,
            ;
            assert(-(ONE * 0x8000_0000_0000_0000) <= cov * (-weight) <= ONE
                * 0x8000_0000_0000_0000) by (nonlinear_arith)
                requires
                    0 <= cov <= ONE,
                    -0x8000_0000_0000_0000 <= weight <= 0x8000_0000_0000_0000,
            ;
            assert(weight >= 0 ==> cov * weight >= 0) by (nonlinear_arith)
                requires
                    0 <= cov,
            ;
            assert(weight < 0 ==> cov * (-weight) >= 0) by (nonlinear_arith)
                requires
                    0 <= cov,
            ;
        }
        let width: i128 = if weight >= 0 {
            (cov as i128 * weight as i128) / (ONE as i128)
        } else {
            -((cov as i128 * (-(weight as i128))) / (ONE as i128))
        };
        assert(width == covered(cov, weight));
        let range = BucketRange {
            range_start: saturate(cumulative),
            range_end: saturate(cumulative + width),
        };
        ranges.push(range);
        cumulative = cumulative + weight as i128;
        i += 1;
    }
    assert(ranges@ =~= bucket_ranges(num_variations as int, coverage, option_shares(weights)));
    ranges
}

/// The width of each of `count` equal ranges: the `count`-th part of the
/// space, rounded down.
pub open spec fn equal_width(count: int) -> int {
    (ONE as int) / count
}

/// The sum of the first `i` of `count` equal weights is `i` times one of
/// them.
pub proof fn lemma_total_of_equal_weights(count: int, i: int)
    requires
        1 <= count,
        0 <= i <= count,
    ensures
        total(equal_weights(count).take(i)) == i * equal_width(count),
    decreases i,
{
    if i > 0 {
        let weights = equal_weights(count);
        let each = equal_width(count);
        assert(0 <= each <= ONE) by (nonlinear_arith)
            requires
                each == (ONE as int) / count,
                count >= 1,
                ONE == 1_000_000_000_000,
        ;
        assert(weights.take(i).drop_last() =~= weights.take(i - 1));
        assert(weights.take(i).last() == weights[i - 1]);
        assert(weights[i - 1] == each);
        lemma_total_of_equal_weights(count, i - 1);
        assert(i * each == (i - 1) * each + each) by (nonlinear_arith);
        assert(total(weights.take(i)) == total(weights.take(i).drop_last()) + weights.take(
            i,
        ).last());
    } else {
        assert(equal_weights(count).take(0).len() == 0);
        assert(0 * equal_width(count) == 0);
    }
}

/// Equal weights add up to the whole, to within one part for each weight:
/// they fall short of it by less than their number, and never exceed it.
/// For as many variations as 32 bits can count, that is within the tolerance
/// of weights that can be used.
pub proof fn lemma_equal_weights_sum(count: int)
    requires
        1 <= count,
    ensures
        total(equal_weights(count)) == count * equal_width(count),
        ONE - count < total(equal_weights(count)) <= ONE,
        count <= i32::MAX ==> weights_usable(count, equal_weights(count)),
{
    let weights = equal_weights(count);
    lemma_total_of_equal_weights(count, count);
    assert(weights.take(count) =~= weights);
    let each = equal_width(count);
    assert(count * each <= ONE && ONE - count < count * each) by (nonlinear_arith)
        requires
            each == equal_width(count),
            count >= 1,
    ;
}

/// Without weights and with the whole space covered, `count` variations get
/// `count` ranges, each as wide as the `count`-th part of the space, rounded
/// down. The first starts at 0 and each of the others where the one before
/// it ends, so that no two overlap. The last ends less than `count` parts
/// before the end of the space, and at the end where `count` divides the
/// number of parts.
pub proof fn lemma_equal_ranges_partition(count: int)
    requires
        1 <= count <= i32::MAX,
    ensures
        bucket_ranges(count, ONE, None).len() == count,
        forall|i: int|
            0 <= i < count ==> (#[trigger] bucket_ranges(count, ONE, None)[i]).range_start == i * equal_width(count) && bucket_ranges(count, ONE, None)[i].range_end == (i + 1) * equal_width(count),
        bucket_ranges(count, ONE, None)[0].range_start == 0,
        forall|i: int|
            0 <= i < count - 1 ==> (#[trigger] bucket_ranges(count, ONE, None)[i]).range_end
                == bucket_ranges(count, ONE, None)[i + 1].range_start,
        ONE - count < bucket_ranges(count, ONE, None)[count - 1].range_end <= ONE,
        ONE as int % count == 0 ==> bucket_ranges(count, ONE, None)[count - 1].range_end == ONE,
{
    let ranges = bucket_ranges(count, ONE, None);
    let weights = equal_weights(count);
    let each = equal_width(count);
    assert(1 <= each <= ONE && count * each <= ONE && ONE - count < count * each)
        by (nonlinear_arith)
        requires
            each == equal_width(count),
            1 <= count <= i32::MAX,
            ONE == 1_000_000_000_000,
    ;
    assert(ONE as int % count == 0 ==> count * each == ONE) by (nonlinear_arith)
        requires
            each == equal_width(count),
            1 <= count,
    ;
    assert forall|i: int| 0 <= i < count implies (#[trigger] ranges[i]).range_start == i * each
        && ranges[i].range_end == (i + 1) * each by {
        lemma_total_of_equal_weights(count, i);
        assert(weights[i] == each);
        assert(covered(ONE, weights[i]) == each) by (nonlinear_arith)
            requires
                covered(ONE, weights[i]) == ONE * each / (ONE as int),
                ONE == 1_000_000_000_000,
        ;
        assert(0 <= i * each && (i + 1) * each <= count * each && (i + 1) * each == i * each
            + each) by (nonlinear_arith)
            requires
                0 <= i < count,
                each >= 1,
        ;
        assert(clamped(ONE) == ONE);
        assert(effective_weights(count, None) == weights);
        assert(ranges[i] == bucket_range_at(ONE, weights, i));
    }
    assert forall|i: int| 0 <= i < count - 1 implies (#[trigger] ranges[i]).range_end == ranges[i
        + 1].range_start by {
        assert(ranges[i + 1].range_start == (i + 1) * each);
    }
    assert(ranges[0].range_start == 0 * each);
    assert(ranges[count - 1].range_end == (count - 1 + 1) * each);
}

/// With the whole space covered by equal ranges, a share falls in exactly
/// one of them: the one whose index is the share divided by the width of a
/// range. This holds of every share from 0 up to where the last range ends.
pub proof fn lemma_choice_agrees_with_ranges(count: int, share: i64)
    requires
        1 <= count <= i32::MAX,
        0 <= share < count * equal_width(count),
    ensures
        chosen_variation(share, bucket_ranges(count, ONE, None)) == (share as int) / equal_width(count),
        forall|i: int|
            0 <= i < count ==> (in_range_spec(share, #[trigger] bucket_ranges(count, ONE, None)[i])
                <==> i == (share as int) / equal_width(count)),
{
    let ranges = bucket_ranges(count, ONE, None);
    let each = equal_width(count);
    lemma_equal_ranges_partition(count);
    assert(each >= 1) by (nonlinear_arith)
        requires
            each == equal_width(count),
            1 <= count <= i32::MAX,
            ONE == 1_000_000_000_000,
    ;
    let at = (share as int) / each;
    assert(0 <= at < count && at * each <= share < (at + 1) * each) by (nonlinear_arith)
        requires
            at == (share as int) / each,
            each >= 1,
            0 <= share < count * each,
    ;
    assert forall|i: int| 0 <= i < count implies (in_range_spec(share, #[trigger] ranges[i]) <==> i
        == at) by {
        assert(ranges[i].range_start == i * each && ranges[i].range_end == (i + 1) * each);
        if i < at {
            assert((i + 1) * each <= at * each) by (nonlinear_arith)
                requires
                    i < at,
                    each >= 1,
            ;
        }
        if i > at {
            assert((at + 1) * each <= i * each) by (nonlinear_arith)
                requires
                    i > at,
                    each >= 1,
            ;
        }
    }
    lemma_first_containing(share, ranges, at);
}

/// Every hash is covered where there are at most a hundred million
/// variations: with equal ranges over the whole space, the place of a hash
/// of version 2 falls in exactly one range.
pub proof fn lemma_every_hash_is_chosen(count: int, seed: Seq<u8>, value: Seq<u8>)
    requires
        1 <= count <= 100_000_000,
    ensures
        0 <= chosen_variation(hash_of(seed, value, 2)->0, bucket_ranges(count, ONE, None)) < count,
{
    lemma_hash_in_space(seed, value, 2);
    let share = hash_of(seed, value, 2)->0;
    let each = equal_width(count);
    assert(ONE - count < count * each && each >= 1) by (nonlinear_arith)
        requires
            each == equal_width(count),
            1 <= count <= 100_000_000,
            ONE == 1_000_000_000_000,
    ;
    assert(share <= ONE - TEN_THOUSANDTH);
    lemma_choice_agrees_with_ranges(count, share);
    assert(0 <= (share as int) / each < count) by (nonlinear_arith)
        requires
            each >= 1,
            0 <= share < count * each,
    ;
}

/// The index of the first range that the share lies in; the number of
/// ranges if it lies in none.
pub open spec fn first_containing(n: i64, ranges: Seq<BucketRange>) -> int
    decreases ranges.len(),
{
    if ranges.len() == 0 {
        0
    } else if in_range_spec(n, ranges[0]) {
        0
    } else {
        1 + first_containing(n, ranges.drop_first())
    }
}

/// The variation that a share falls to: the index of the first range that
/// holds it. -1 where no range holds it, or where the index is more than 32
/// bits can say.
pub open spec fn chosen_variation(n: i64, ranges: Seq<BucketRange>) -> int {
    let at = first_containing(n, ranges);
    if at < ranges.len() && at <= i32::MAX {
        at
    } else {
        -1
    }
}

/// The first range that holds the share is at `at`.
pub proof fn lemma_first_containing(n: i64, ranges: Seq<BucketRange>, at: int)
    requires
        0 <= at <= ranges.len(),
        forall|j: int| 0 <= j < at ==> !in_range_spec(n, #[trigger] ranges[j]),
        at < ranges.len() ==> in_range_spec(n, ranges[at]),
    ensures
        first_containing(n, ranges) == at,
    decreases ranges.len(),
{
    if ranges.len() > 0 && at > 0 {
        assert(!in_range_spec(n, ranges[0]));
        let rest = ranges.drop_first();
        assert forall|j: int| 0 <= j < at - 1 implies !in_range_spec(n, #[trigger] rest[j]) by {
            assert(rest[j] == ranges[j + 1]);
        }
        lemma_first_containing(n, rest, at - 1);
    }
}

/// The variation that the share falls to, or -1.
pub fn choose_variation(n: i64, ranges: &[BucketRange]) -> (variation: i32)
    ensures
        variation == chosen_variation(n, ranges@),
{
    let mut i: usize = 0;
    while i < ranges.len()
        invariant
            i <= ranges.len(),
            forall|j: int| 0 <= j < i ==> !in_range_spec(n, #[trigger] ranges@[j]),
        decreases ranges.len() - i,
    {
        if in_range(n, &ranges[i]) {
            proof {
                lemma_first_containing(n, ranges@, i as int);
            }
            if i <= 0x7fff_ffff {
                return i as i32;
            } else {
                return -1;
            }
        }
        i += 1;
    }
    proof {
        lemma_first_containing(n, ranges@, i as int);
    }
    -1
}

/// The pairs of the query string of a URL, each a key and a value, decoded:
/// `None` where the text is no absolute URL.
pub uninterp spec fn url_query_pairs(url: Seq<char>) -> Option<Seq<(Seq<char>, Seq<char>)>>;

/// `Url::parse` and, on the URL it gives, `Url::query_pairs` of the url
/// crate: the text is parsed as an absolute URL, and its query string is
/// read as pairs of a key and a value. A text that does not parse gives
/// `None`.
#[verifier::external_body]
fn query_pairs(url: &str) -> (pairs: Option<Vec<(String, String)>>)
    ensures
        pairs.deep_view() == url_query_pairs(url@),
{
    match url::Url::parse(url) {
        Ok(parsed) => Some(
            parsed.query_pairs().map(|(key, value)| (key.into_owned(), value.into_owned())).collect(),
        ),
        Err(_) => None,
    }
}

/// The variation that the pairs of a query string ask for under `id`: the
/// value of the first pair with that key, where it is the decimal numeral of
/// an index below `num_variations`.
pub open spec fn override_among_spec(
    id: Seq<char>,
    pairs: Seq<(Seq<char>, Seq<char>)>,
    num_variations: i32,
) -> Option<i32> {
    match lookup(pairs, id) {
        Some(value) => match parse_i32_spec(value) {
            Some(variation) => if 0 <= variation < num_variations {
                Some(variation)
            } else {
                None
            },
            None => None,
        },
        None => None,
    }
}

/// The variation that a URL asks for under `id`. A text that is no URL asks
/// for none.
pub open spec fn query_string_override(id: Seq<char>, url: Seq<char>, num_variations: i32) -> Option<
    i32,
> {
    match url_query_pairs(url) {
        Some(pairs) => override_among_spec(id, pairs, num_variations),
        None => None,
    }
}

/// The variation that the pairs of a query string ask for under `id`.
pub fn override_among(id: &str, pairs: &Vec<(String, String)>, num_variations: i32) -> (variation:
    Option<i32>)
    ensures
        variation == override_among_spec(id@, pairs.deep_view(), num_variations),
{
    let ghost model = pairs.deep_view();
    let mut i: usize = 0;
    while i < pairs.len()
        invariant
            i <= pairs.len(),
            model == pairs.deep_view(),
            forall|j: int| 0 <= j < i ==> (#[trigger] model[j]).0 != id@,
        decreases pairs.len() - i,
    {
        assert(model[i as int] == (pairs@[i as int].0@, pairs@[i as int].1@));
        if str_eq(pairs[i].0.as_str(), id) {
            proof {
                lemma_key_position_is(model, id@, i as int);
            }
            let digits = chars_of(pairs[i].1.as_str());
            return match parse_i32(&digits) {
                Some(variation) => if variation >= 0 && variation < num_variations {
                    Some(variation)
                } else {
                    None
                },
                None => None,
            };
        }
        i += 1;
    }
    proof {
        lemma_key_position_is(model, id@, i as int);
    }
    None
}

/// The variation that the URL asks for under `id`, if it asks for one that
/// there is.
pub fn get_query_string_override(id: &str, url: &str, num_variations: i32) -> (variation: Option<
    i32,
>)
    ensures
        variation == query_string_override(id@, url@, num_variations),
        variation is Some ==> 0 <= variation->0 < num_variations,
{
    match query_pairs(url) {
        Some(pairs) => override_among(id, &pairs, num_variations),
        None => None,
    }
}

/// What a text in base 64, with padding, decodes to: `None` where it is no
/// such text.
pub uninterp spec fn base64_decoded(input: Seq<u8>) -> Option<Seq<u8>>;

/// What AES-128 in CBC mode decrypts `data` to under a key and an
/// initialisation vector, once the PKCS7 padding is taken off: `None` where
/// the key or the vector has not 16 bytes, where the data is no whole
/// number of blocks, or where the padding is malformed.
pub uninterp spec fn aes128_cbc_decrypted(key: Seq<u8>, iv: Seq<u8>, data: Seq<u8>) -> Option<
    Seq<u8>,
>;

/// The text that bytes are read as, each malformed stretch of UTF-8
/// replaced by U+FFFD.
pub uninterp spec fn utf8_lossy_text(bytes: Seq<u8>) -> Seq<char>;

/// The bytes that an optional vector holds.
pub open spec fn option_bytes(bytes: Option<Vec<u8>>) -> Option<Seq<u8>> {
    match bytes {
        Some(b) => Some(b@),
        None => None,
    }
}

/// `BASE64.decode` of the data-encoding crate: the bytes that the input
/// encodes, or `None` where its length, a symbol, its trailing bits or its
/// padding is invalid.
#[verifier::external_body]
fn base64_decode(input: &[u8]) -> (decoded: Option<Vec<u8>>)
    ensures
        option_bytes(decoded) == base64_decoded(input@),
{
    match data_encoding::BASE64.decode(input) {
        Ok(bytes) => Some(bytes),
        Err(_) => None,
    }
}

/// `new_from_slices` and `decrypt_padded_mut` with `Pkcs7`, on the CBC
/// decryptor of the cbc crate over `Aes128` of the aes crate. The first
/// refuses a key or a vector that has not 16 bytes; the second refuses data
/// that is no whole number of blocks, and padding that is malformed.
#[verifier::external_body]
fn aes128_cbc_decrypt(key: &[u8], iv: &[u8], data: &[u8]) -> (plain: Option<Vec<u8>>)
    ensures
        option_bytes(plain) == aes128_cbc_decrypted(key@, iv@, data@),
        key@.len() != 16 || iv@.len() != 16 ==> plain is None,
{
    let mut buffer = data.to_vec();
    match cbc::Decryptor::<aes::Aes128>::new_from_slices(key, iv) {
        Ok(cipher) => match cipher.decrypt_padded_mut::<Pkcs7>(&mut buffer) {
            Ok(plain) => Some(plain.to_vec()),
            Err(_) => None,
        },
        Err(_) => None,
    }
}

/// `String::from_utf8_lossy` of the standard library: the text of the
/// bytes, with U+FFFD in place of what is no UTF-8. Bytes that are UTF-8
/// give their text.
#[verifier::external_body]
fn utf8_lossy(bytes: &[u8]) -> (text: String)
    ensures
        text@ == utf8_lossy_text(bytes@),
        valid_utf8(bytes@) ==> text@ == decode_utf8(bytes@),
{
    String::from_utf8_lossy(bytes).into_owned()
}

/// The index of the first full stop among the bytes; their number if there
/// is none.
pub open spec fn first_dot(bytes: Seq<u8>) -> int
    decreases bytes.len(),
{
    if bytes.len() == 0 {
        0
    } else if bytes[0] == 46 {
        0
    } else {
        1 + first_dot(bytes.drop_first())
    }
}

/// The text that bytes are read as: their own text where they are UTF-8,
/// and else their text with each malformed stretch replaced.
pub open spec fn text_of_bytes(bytes: Seq<u8>) -> Seq<char> {
    if valid_utf8(bytes) {
        decode_utf8(bytes)
    } else {
        utf8_lossy_text(bytes)
    }
}

/// The text that decrypted bytes give; none where the text is empty.
pub open spec fn plain_text(plain: Option<Seq<u8>>) -> Option<Seq<char>> {
    match plain {
        Some(bytes) => if text_of_bytes(bytes).len() > 0 {
            Some(text_of_bytes(bytes))
        } else {
            None
        },
        None => None,
    }
}

/// What was encrypted comes back. Where the two parts of a payload and the
/// key decode to an initialisation vector, data and a key of 16 bytes, and
/// the data decrypts to the bytes of a text that is not empty, the payload
/// holds that text, character for character.
pub proof fn lemma_decrypts_to_what_was_encrypted(
    iv_part: Seq<u8>,
    data_part: Seq<u8>,
    key_text: Seq<u8>,
    iv: Seq<u8>,
    data: Seq<u8>,
    key: Seq<u8>,
    text: Seq<char>,
)
    requires
        forall|j: int| 0 <= j < iv_part.len() ==> iv_part[j] != 46,
        base64_decoded(iv_part) == Some(iv),
        base64_decoded(data_part) == Some(data),
        base64_decoded(key_text) == Some(key),
        iv.len() == 16,
        key.len() == 16,
        aes128_cbc_decrypted(key, iv, data) == Some(encode_utf8(text)),
        text.len() > 0,
    ensures
        decrypted_text(iv_part + seq![46u8] + data_part, key_text) == Some(text),
{
    let payload = iv_part + seq![46u8] + data_part;
    let dot = iv_part.len() as int;
    assert(payload[dot] == 46);
    assert forall|j: int| 0 <= j < dot implies payload[j] != 46 by {
        assert(payload[j] == iv_part[j]);
    }
    lemma_first_dot(payload, dot);
    assert(payload.take(dot) =~= iv_part);
    assert(payload.skip(dot + 1) =~= data_part);
    encode_utf8_valid_utf8(text);
    encode_utf8_decode_utf8(text);
    assert(text_of_bytes(encode_utf8(text)) == text);
}

/// The text that an initialisation vector, encrypted data and a key give,
/// each as decoded: none unless the vector and the key have 16 bytes and
/// the data decrypts.
pub open spec fn decrypted_parts(iv: Seq<u8>, data: Seq<u8>, key: Seq<u8>) -> Option<Seq<char>> {
    if iv.len() == 16 && key.len() == 16 {
        plain_text(aes128_cbc_decrypted(key, iv, data))
    } else {
        None
    }
}

/// The text that an encrypted payload holds under a key. The payload is an
/// initialisation vector and encrypted data, each in base 64, with a full
/// stop between them; the key is in base 64 too.
pub open spec fn decrypted_text(encrypted: Seq<u8>, key: Seq<u8>) -> Option<Seq<char>> {
    let dot = first_dot(encrypted);
    if 0 <= dot < encrypted.len() {
        match (
            base64_decoded(encrypted.take(dot)),
            base64_decoded(encrypted.skip(dot + 1)),
            base64_decoded(key),
        ) {
            (Some(iv), Some(data), Some(key_bytes)) => decrypted_parts(iv, data, key_bytes),
            _ => None,
        }
    } else {
        None
    }
}

/// The text of an optional string.
pub open spec fn option_text(text: Option<String>) -> Option<Seq<char>> {
    match text {
        Some(s) => Some(s@),
        None => None,
    }
}

proof fn lemma_first_dot(bytes: Seq<u8>, at: int)
    requires
        0 <= at <= bytes.len(),
        forall|j: int| 0 <= j < at ==> bytes[j] != 46,
        at < bytes.len() ==> bytes[at] == 46,
    ensures
        first_dot(bytes) == at,
    decreases bytes.len(),
{
    if bytes.len() > 0 && at > 0 {
        let rest = bytes.drop_first();
        assert forall|j: int| 0 <= j < at - 1 implies rest[j] != 46 by {
            assert(rest[j] == bytes[j + 1]);
        }
        lemma_first_dot(rest, at - 1);
    }
}

/// Where the first full stop of a payload stands.
pub fn find_dot(bytes: &[u8]) -> (at: usize)
    ensures
        at == first_dot(bytes@),
        at <= bytes.len(),
{
    let mut i: usize = 0;
    while i < bytes.len() && bytes[i] != 46
        invariant
            i <= bytes.len(),
            forall|j: int| 0 <= j < i ==> bytes@[j] != 46,
        decreases bytes.len() - i,
    {
        i += 1;
    }
    proof {
        lemma_first_dot(bytes@, i as int);
    }
    i
}

/// Decrypts data under a key and an initialisation vector, all as decoded,
/// and reads the result as text.
pub fn decrypt_parts(iv: &[u8], data: &[u8], key: &[u8]) -> (text: Option<String>)
    ensures
        option_text(text) == decrypted_parts(iv@, data@, key@),
{
    if iv.len() != 16 || key.len() != 16 {
        return None;
    }
    match aes128_cbc_decrypt(key, iv, data) {
        Some(plain) => {
            let text = utf8_lossy(plain.as_slice());
            if text.as_str().is_empty() {
                None
            } else {
                Some(text)
            }
        },
        None => None,
    }
}

/// The text that an encrypted payload holds under a key, or `None` where
/// the payload or the key is malformed, where the data does not decrypt
/// under the key, or where it decrypts to nothing.
pub fn decrypt_string(encrypted_string: &str, decryption_key: &str) -> (text: Option<String>)
    ensures
        option_text(text) == decrypted_text(
            encode_utf8(encrypted_string@),
            encode_utf8(decryption_key@),
        ),
{
    let bytes = encrypted_string.as_bytes();
    let dot = find_dot(bytes);
    if dot >= bytes.len() {
        return None;
    }
    let head = slice_subrange(bytes, 0, dot);
    let tail = slice_subrange(bytes, dot + 1, bytes.len());
    assert(head@ =~= bytes@.take(dot as int));
    assert(tail@ =~= bytes@.skip(dot + 1));
    let iv = match base64_decode(head) {
        Some(iv) => iv,
        None => {
            return None;
        },
    };
    let data = match base64_decode(tail) {
        Some(data) => data,
        None => {
            return None;
        },
    };
    let key = match base64_decode(decryption_key.as_bytes()) {
        Some(key) => key,
        None => {
            return None;
        },
    };
    decrypt_parts(iv.as_slice(), data.as_slice(), key.as_slice())
}

} // verus!
