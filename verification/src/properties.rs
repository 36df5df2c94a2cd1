//! The laws of the codec, proved against the model of `crate::model`: every
//! bounding box is well formed, boxes nest along hash prefixes, and encoding
//! round-trips through decoding within ever-shrinking errors.

use crate::model::{
    bbox_of_hash, bounds_contain, bounds_contain_point, bounds_in_globe, bounds_wf,
    coordinate_in_range, encode_bits, full_bounds, hash_bits, lat_error, lemma_encode_bits_len,
    lemma_encode_chars_props, lemma_encode_stays_inside, lemma_hash_bits_append,
    lemma_lon_bit_count, lemma_refine_append, lemma_refine_widths, lon_bit_count, lon_error,
    midpoint, refine, shrink, spec_encode, turn, valid_hash, Bounds,
};
use crate::{Coordinate, LAT_MAX, LAT_MIN, LON_MAX, LON_MIN, MAX_HASH_LENGTH};
use vstd::arithmetic::power2::{
    lemma2_to64, lemma2_to64_rest, lemma_pow2_strictly_increases, lemma_pow2_unfold, pow2,
};
use vstd::prelude::*;

verus! {

/// Refining never widens an interval and never crosses its bounds: the
/// result lies inside the starting bounds and stays well formed.
pub proof fn lemma_refine_contains(b: Bounds, is_lon: bool, bits: Seq<bool>)
    requires
        bounds_wf(b),
    ensures
        bounds_wf(refine(b, is_lon, bits)),
        bounds_contain(b, refine(b, is_lon, bits)),
    decreases bits.len(),
{
    if bits.len() > 0 {
        lemma_refine_contains(shrink(b, is_lon, bits[0]), !is_lon, bits.drop_first());
    }
}

/// Law: the bounding box of every valid hash is well formed — its min corner
/// lies at or below its max corner on both axes — and lies within the globe.
pub proof fn lemma_bbox_well_formed(h: Seq<char>)
    requires
        valid_hash(h),
    ensures
        bounds_wf(bbox_of_hash(h)),
        bounds_in_globe(bbox_of_hash(h)),
{
    lemma_refine_contains(full_bounds(), true, hash_bits(h));
}

/// Law (nesting): the bounding box of a hash prefix contains the bounding
/// box of the same hash extended by one character — bounds only ever narrow.
pub proof fn lemma_bbox_nesting(h: Seq<char>, n: int)
    requires
        valid_hash(h),
        0 < n <= h.len(),
    ensures
        bounds_contain(bbox_of_hash(h.take(n - 1)), bbox_of_hash(h.take(n))),
{
    let prefix = h.take(n - 1);
    let single = seq![h[n - 1]];
    assert(h.take(n) =~= prefix + single);
    lemma_hash_bits_append(prefix, single);
    lemma_refine_append(full_bounds(), true, hash_bits(prefix), hash_bits(single));
    lemma_refine_contains(full_bounds(), true, hash_bits(prefix));
    lemma_refine_contains(
        bbox_of_hash(prefix),
        turn(true, hash_bits(prefix).len() as int),
        hash_bits(single),
    );
}

/// The half-cell errors of any hash of a given length, in fixed-point units:
/// each bit halves its axis, so only the length matters.
proof fn lemma_encoded_error_values(x: int, y: int, len: nat)
    requires
        len <= MAX_HASH_LENGTH,
    ensures
        lon_error(bbox_of_hash(spec_encode(x, y, len))) == 45 * pow2(
            (55 - (5 * len + 1) / 2) as nat,
        ),
        lat_error(bbox_of_hash(spec_encode(x, y, len))) == 45 * pow2((54 - (5 * len) / 2) as nat),
{
    lemma_encode_chars_props(x, y, full_bounds(), true, len);
    let bits = encode_bits(x, y, full_bounds(), true, 5 * len);
    lemma_encode_bits_len(x, y, full_bounds(), true, 5 * len);
    lemma_lon_bit_count(5 * len);
    assert(LON_MAX - LON_MIN == 45 * pow2(56) && LAT_MAX - LAT_MIN == 45 * pow2(55)) by {
        lemma2_to64();
        lemma2_to64_rest();
    }
    assert(lon_bit_count(true, 5 * len) <= 56);
    assert(lon_bit_count(false, 5 * len) <= 55);
    lemma_refine_widths(full_bounds(), true, bits, 56, 55);
    let kl = lon_bit_count(true, 5 * len);
    let kt = lon_bit_count(false, 5 * len);
    lemma_pow2_unfold((56 - kl) as nat);
    lemma_pow2_unfold((55 - kt) as nat);
}

/// Law (round trip): the bounding box of the hash that encodes an in-range
/// coordinate contains that coordinate, so the decoded center sits within
/// the half-cell errors of the original point on both axes.
pub proof fn lemma_round_trip(c: Coordinate, len: nat)
    requires
        coordinate_in_range(c),
        len <= MAX_HASH_LENGTH,
    ensures
        ({
            let b = bbox_of_hash(spec_encode(c.x as int, c.y as int, len));
            let cx = midpoint(b.lon_lo, b.lon_hi);
            let cy = midpoint(b.lat_lo, b.lat_hi);
            bounds_contain_point(b, c.x as int, c.y as int) && cx - lon_error(b) <= c.x as int
                <= cx + lon_error(b) && cy - lat_error(b) <= c.y as int <= cy + lat_error(b)
        }),
{
    let x = c.x as int;
    let y = c.y as int;
    lemma_encode_chars_props(x, y, full_bounds(), true, len);
    lemma_encode_stays_inside(x, y, full_bounds(), true, 5 * len);
    let bits = encode_bits(x, y, full_bounds(), true, 5 * len);
    lemma_encode_bits_len(x, y, full_bounds(), true, 5 * len);
    lemma_lon_bit_count(5 * len);
    assert(LON_MAX - LON_MIN == 45 * pow2(56) && LAT_MAX - LAT_MIN == 45 * pow2(55)) by {
        lemma2_to64();
        lemma2_to64_rest();
    }
    lemma_refine_widths(full_bounds(), true, bits, 56, 55);
    let kl = lon_bit_count(true, 5 * len);
    let kt = lon_bit_count(false, 5 * len);
    lemma_pow2_unfold((56 - kl) as nat);
    lemma_pow2_unfold((55 - kt) as nat);
}

/// Law (precision): the half-cell errors strictly shrink as the hash grows
/// longer, on both axes — each added character refines each axis at least
/// twice more.
pub proof fn lemma_errors_shrink(c: Coordinate, len1: nat, len2: nat)
    requires
        coordinate_in_range(c),
        len1 < len2 <= MAX_HASH_LENGTH,
    ensures
        lon_error(bbox_of_hash(spec_encode(c.x as int, c.y as int, len2))) < lon_error(
            bbox_of_hash(spec_encode(c.x as int, c.y as int, len1)),
        ),
        lat_error(bbox_of_hash(spec_encode(c.x as int, c.y as int, len2))) < lat_error(
            bbox_of_hash(spec_encode(c.x as int, c.y as int, len1)),
        ),
{
    let x = c.x as int;
    let y = c.y as int;
    lemma_encoded_error_values(x, y, len1);
    lemma_encoded_error_values(x, y, len2);
    lemma_pow2_strictly_increases(
        (55 - (5 * len2 + 1) / 2) as nat,
        (55 - (5 * len1 + 1) / 2) as nat,
    );
    lemma_pow2_strictly_increases((54 - (5 * len2) / 2) as nat, (54 - (5 * len1) / 2) as nat);
}

} // verus!
