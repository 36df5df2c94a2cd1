//! The two primitives of the codec — encoding a coordinate to a hash and
//! decoding a hash to its bounding box — together with the point decoder
//! built on the latter.

use crate::model::{
    bbox_of_hash, bits_of_value, bounds_in_globe, bounds_wf, char_value, coordinate_in_range,
    encode_bit, encode_bits, encode_chars, full_bounds, hash_bits, is_alphabet_char,
    is_first_invalid, lat_error, lemma_encode_bits_len, lemma_encode_bits_split,
    lemma_encode_chars_props, lemma_hash_bits_append, lemma_hash_bits_len, lemma_refine_append,
    lemma_value_of_bits_bound, lon_error, midpoint, refine, shrink, spec_encode, turn, valid_hash,
    value_char, value_of_bits, Bounds,
};
use crate::{
    Coordinate, GeohashError, Rect, LAT_MAX, LAT_MIN, LON_MAX, LON_MIN, MAX_HASH_LENGTH, SCALE,
};
use vstd::arithmetic::power2::{lemma2_to64, lemma_pow2_strictly_increases, pow2};
use vstd::prelude::*;
use vstd::string::StrSliceExecFns;

verus! {

/// The model bounds a rectangle stands for.
pub open spec fn rect_bounds(r: Rect) -> Bounds {
    Bounds {
        lon_lo: r.spec_min().x as int,
        lon_hi: r.spec_max().x as int,
        lat_lo: r.spec_min().y as int,
        lat_hi: r.spec_max().y as int,
    }
}

/// The four interval bounds held in executable variables.
pub open spec fn bounds_of(min_lon: i64, max_lon: i64, min_lat: i64, max_lat: i64) -> Bounds {
    Bounds {
        lon_lo: min_lon as int,
        lon_hi: max_lon as int,
        lat_lo: min_lat as int,
        lat_hi: max_lat as int,
    }
}

/// Relies on `String::push`: appends the given character to the end of the
/// string.
#[verifier::external_body]
fn push_char(s: &mut String, c: char)
    ensures
        final(s)@ == old(s)@.push(c),
{
    s.push(c);
}

/// Encode a coordinate to a geohash of exactly `len` characters.
///
/// Fails with the range error, carrying the offending coordinate, exactly
/// when the longitude or latitude lies outside the valid range; on every
/// in-range coordinate it succeeds, and the result is the unique hash whose
/// characters pack the bits of the interleaved binary search for the
/// coordinate, longitude first. Lengths up to `MAX_HASH_LENGTH` are
/// supported: beyond that the coordinate resolution is exhausted.
pub fn encode(c: Coordinate, len: usize) -> (r: Result<String, GeohashError>)
    requires
        len <= MAX_HASH_LENGTH,
    ensures
        coordinate_in_range(c) ==> r is Ok && r->Ok_0@ == spec_encode(
            c.x as int,
            c.y as int,
            len as nat,
        ) && r->Ok_0@.len() == len && valid_hash(r->Ok_0@),
        !coordinate_in_range(c) ==> r is Err && r->Err_0 == GeohashError::InvalidCoordinateRange(
            c,
        ),
{
    let mut max_lat: i64 = LAT_MAX;
    let mut min_lat: i64 = LAT_MIN;
    let mut max_lon: i64 = LON_MAX;
    let mut min_lon: i64 = LON_MIN;

    if c.x < min_lon || c.x > max_lon || c.y < min_lat || c.y > max_lat {
        return Err(GeohashError::InvalidCoordinateRange(c));
    }

    let ghost x = c.x as int;
    let ghost y = c.y as int;
    let mut out = String::new();
    let mut emitted: usize = 0;
    let mut is_lon: bool = true;

    proof {
        assert(out@ + encode_chars(x, y, full_bounds(), true, len as nat) =~= encode_chars(
            x,
            y,
            full_bounds(),
            true,
            len as nat,
        ));
    }

    while emitted < len
        invariant
            emitted <= len,
            out@.len() == emitted,
            x == c.x as int,
            y == c.y as int,
            LON_MIN <= min_lon <= max_lon <= LON_MAX,
            LAT_MIN <= min_lat <= max_lat <= LAT_MAX,
            spec_encode(x, y, len as nat) == out@ + encode_chars(
                x,
                y,
                bounds_of(min_lon, max_lon, min_lat, max_lat),
                is_lon,
                (len - emitted) as nat,
            ),
        decreases len - emitted,
    {
        let ghost b_outer = bounds_of(min_lon, max_lon, min_lat, max_lat);
        let ghost l_outer = is_lon;
        let mut hash_value: usize = 0;
        let mut bs: usize = 0;

        while bs < 5
            invariant
                bs <= 5,
                x == c.x as int,
                y == c.y as int,
                LON_MIN <= min_lon <= max_lon <= LON_MAX,
                LAT_MIN <= min_lat <= max_lat <= LAT_MAX,
                bounds_of(min_lon, max_lon, min_lat, max_lat) == refine(
                    b_outer,
                    l_outer,
                    encode_bits(x, y, b_outer, l_outer, bs as nat),
                ),
                is_lon == turn(l_outer, bs as int),
                hash_value == value_of_bits(encode_bits(x, y, b_outer, l_outer, bs as nat)),
            decreases 5 - bs,
        {
            proof {
                lemma_encode_bits_len(x, y, b_outer, l_outer, bs as nat);
                lemma_value_of_bits_bound(encode_bits(x, y, b_outer, l_outer, bs as nat));
                lemma2_to64();
                if (bs as nat) < 4 {
                    lemma_pow2_strictly_increases(bs as nat, 4);
                }
                assert(hash_value < 16);
            }
            let mid: i64;
            let bit: bool;
            if is_lon {
                mid = min_lon + (max_lon - min_lon) / 2;
                bit = c.x > mid;
            } else {
                mid = min_lat + (max_lat - min_lat) / 2;
                bit = c.y > mid;
            }
            proof {
                let done = encode_bits(x, y, b_outer, l_outer, bs as nat);
                let cur = refine(b_outer, l_outer, done);
                assert(bit == encode_bit(x, y, cur, is_lon));
                lemma_encode_bits_split(x, y, b_outer, l_outer, bs as nat, 1);
                assert(encode_bits(x, y, shrink(cur, is_lon, bit), !is_lon, 0)
                    =~= Seq::<bool>::empty());
                assert(encode_bits(x, y, cur, is_lon, 1) =~= seq![bit]);
                assert(done + seq![bit] =~= done.push(bit));
                assert(encode_bits(x, y, b_outer, l_outer, (bs + 1) as nat) == done.push(bit));
                lemma_refine_append(b_outer, l_outer, done, seq![bit]);
                assert((seq![bit]).drop_first() =~= Seq::<bool>::empty());
                assert(refine(shrink(cur, is_lon, bit), !is_lon, Seq::<bool>::empty())
                    == shrink(cur, is_lon, bit));
                assert(refine(cur, is_lon, seq![bit]) == shrink(cur, is_lon, bit));
                assert(done.push(bit).drop_last() =~= done);
                assert(done.push(bit).last() == bit);
            }
            if is_lon {
                if bit {
                    min_lon = mid;
                } else {
                    max_lon = mid;
                }
            } else {
                if bit {
                    min_lat = mid;
                } else {
                    max_lat = mid;
                }
            }
            hash_value = 2 * hash_value + (if bit { 1 } else { 0 });
            is_lon = !is_lon;
            bs = bs + 1;
        }

        proof {
            lemma_encode_bits_len(x, y, b_outer, l_outer, 5);
            lemma_value_of_bits_bound(encode_bits(x, y, b_outer, l_outer, 5));
            assert(pow2(5) == 32) by {
                lemma2_to64();
            }
        }
        let code = value_to_char(hash_value);
        let ghost out_before = out@;
        push_char(&mut out, code);
        proof {
            let bits5 = encode_bits(x, y, b_outer, l_outer, 5);
            let b5 = refine(b_outer, l_outer, bits5);
            let rest = encode_chars(x, y, b5, !l_outer, (len - emitted - 1) as nat);
            assert(encode_chars(x, y, b_outer, l_outer, (len - emitted) as nat) == seq![
                value_char(value_of_bits(bits5)),
            ] + rest);
            assert(code == value_char(value_of_bits(bits5)));
            assert(out_before + (seq![code] + rest) =~= out@ + rest);
        }
        emitted = emitted + 1;
    }

    proof {
        assert(out@ + encode_chars(
            x,
            y,
            bounds_of(min_lon, max_lon, min_lat, max_lat),
            is_lon,
            0,
        ) =~= out@);
        lemma_encode_chars_props(x, y, full_bounds(), true, len as nat);
    }
    Ok(out)
}

/// The 5-bit value of a hash character, or the invalid-character error for a
/// character outside the alphabet. The lookup is a direct ordinal range
/// check, mirroring the letters the alphabet skips.
pub fn hash_value_of_char(c: char) -> (r: Result<usize, GeohashError>)
    ensures
        is_alphabet_char(c) ==> r == Ok::<usize, GeohashError>(char_value(c) as usize),
        !is_alphabet_char(c) ==> r == Err::<usize, GeohashError>(
            GeohashError::InvalidHashCharacter(c),
        ),
{
    let ord = c as usize;
    if 48 <= ord && ord <= 57 {
        return Ok(ord - 48);
    } else if 98 <= ord && ord <= 104 {
        return Ok(ord - 88);
    } else if 106 <= ord && ord <= 107 {
        return Ok(ord - 89);
    } else if 109 <= ord && ord <= 110 {
        return Ok(ord - 90);
    } else if 112 <= ord && ord <= 122 {
        return Ok(ord - 91);
    }
    Err(GeohashError::InvalidHashCharacter(c))
}

/// Decode a geohash into the rectangle of coordinates it denotes.
///
/// Fails with the invalid-character error, carrying the first offending
/// character, exactly when some character lies outside the alphabet; on
/// every valid hash it returns the whole globe narrowed by the hash's bit
/// stream, so the corners are ordered on both axes and stay in range.
/// Hashes up to `MAX_HASH_LENGTH` characters are supported.
pub fn decode_bbox(hash_str: &str) -> (r: Result<Rect, GeohashError>)
    requires
        hash_str@.len() <= MAX_HASH_LENGTH,
    ensures
        valid_hash(hash_str@) ==> r is Ok && rect_bounds(r->Ok_0) == bbox_of_hash(hash_str@),
        r is Ok ==> bounds_wf(rect_bounds(r->Ok_0)) && bounds_in_globe(rect_bounds(r->Ok_0)),
        !valid_hash(hash_str@) ==> r is Err && exists|i: int|
            is_first_invalid(hash_str@, i) && r->Err_0 == GeohashError::InvalidHashCharacter(
                hash_str@[i],
            ),
{
    let len = hash_str.unicode_len();
    let mut is_lon: bool = true;
    let mut max_lat: i64 = LAT_MAX;
    let mut min_lat: i64 = LAT_MIN;
    let mut max_lon: i64 = LON_MAX;
    let mut min_lon: i64 = LON_MIN;
    let mut i: usize = 0;

    proof {
        assert(hash_str@.take(0) =~= Seq::<char>::empty());
        assert(hash_bits(Seq::<char>::empty()) =~= Seq::<bool>::empty());
    }

    while i < len
        invariant
            i <= len,
            len == hash_str@.len(),
            len <= MAX_HASH_LENGTH,
            LON_MIN <= min_lon <= max_lon <= LON_MAX,
            LAT_MIN <= min_lat <= max_lat <= LAT_MAX,
            forall|j: int| 0 <= j < i ==> is_alphabet_char(hash_str@[j]),
            bounds_of(min_lon, max_lon, min_lat, max_lat) == refine(
                full_bounds(),
                true,
                hash_bits(hash_str@.take(i as int)),
            ),
            is_lon == turn(true, 5 * i as int),
        decreases len - i,
    {
        let ch = hash_str.get_char(i);
        let hash_value = match hash_value_of_char(ch) {
            Ok(v) => v,
            Err(e) => {
                proof {
                    assert(is_first_invalid(hash_str@, i as int));
                    assert(!valid_hash(hash_str@));
                }
                return Err(e);
            },
        };
        let ghost b_outer = bounds_of(min_lon, max_lon, min_lat, max_lat);
        let ghost l_outer = is_lon;
        let ghost cbits = bits_of_value(char_value(hash_str@[i as int]));
        let mut bs: usize = 0;

        while bs < 5
            invariant
                bs <= 5,
                hash_value < 32,
                hash_value as int == char_value(hash_str@[i as int]),
                cbits == bits_of_value(hash_value as int),
                LON_MIN <= min_lon <= max_lon <= LON_MAX,
                LAT_MIN <= min_lat <= max_lat <= LAT_MAX,
                bounds_of(min_lon, max_lon, min_lat, max_lat) == refine(
                    b_outer,
                    l_outer,
                    cbits.take(bs as int),
                ),
                is_lon == turn(l_outer, bs as int),
            decreases 5 - bs,
        {
            let p: usize = if bs == 0 {
                16
            } else if bs == 1 {
                8
            } else if bs == 2 {
                4
            } else if bs == 3 {
                2
            } else {
                1
            };
            let bit = (hash_value / p) % 2 == 1;
            proof {
                assert(bit == cbits[bs as int]);
                let done = cbits.take(bs as int);
                let cur = refine(b_outer, l_outer, done);
                lemma_refine_append(b_outer, l_outer, done, seq![bit]);
                assert(cbits.take(bs as int + 1) =~= done + seq![bit]);
                assert((seq![bit]).drop_first() =~= Seq::<bool>::empty());
                assert(refine(shrink(cur, is_lon, bit), !is_lon, Seq::<bool>::empty())
                    == shrink(cur, is_lon, bit));
                assert(refine(cur, is_lon, seq![bit]) == shrink(cur, is_lon, bit));
            }
            if is_lon {
                let mid = min_lon + (max_lon - min_lon) / 2;
                if bit {
                    min_lon = mid;
                } else {
                    max_lon = mid;
                }
            } else {
                let mid = min_lat + (max_lat - min_lat) / 2;
                if bit {
                    min_lat = mid;
                } else {
                    max_lat = mid;
                }
            }
            is_lon = !is_lon;
            bs = bs + 1;
        }

        proof {
            assert(cbits.take(5) =~= cbits);
            let prefix = hash_str@.take(i as int);
            let single = seq![hash_str@[i as int]];
            assert(hash_str@.take(i as int + 1) =~= prefix + single);
            lemma_hash_bits_append(prefix, single);
            assert(single.drop_first() =~= Seq::<char>::empty());
            assert(hash_bits(Seq::<char>::empty()) =~= Seq::<bool>::empty());
            assert(hash_bits(single) =~= cbits);
            lemma_refine_append(full_bounds(), true, hash_bits(prefix), cbits);
            lemma_hash_bits_len(prefix);
        }
        i = i + 1;
    }

    proof {
        assert(hash_str@.take(len as int) =~= hash_str@);
    }
    Ok(
        Rect::new(
            Coordinate { x: min_lon, y: min_lat },
            Coordinate { x: max_lon, y: max_lat },
        ),
    )
}

/// Decode a geohash into its center coordinate and the half-width and
/// half-height of its cell: `(center, longitude error, latitude error)`.
///
/// Fails exactly as `decode_bbox` does; on a valid hash the center is the
/// midpoint of the hash's bounding box on each axis and the errors are half
/// its widths, so the true position lies within one error of the center.
pub fn decode(hash_str: &str) -> (r: Result<(Coordinate, i64, i64), GeohashError>)
    requires
        hash_str@.len() <= MAX_HASH_LENGTH,
    ensures
        valid_hash(hash_str@) ==> r is Ok && ({
            let b = bbox_of_hash(hash_str@);
            let t = r->Ok_0;
            t.0.x as int == midpoint(b.lon_lo, b.lon_hi) && t.0.y as int == midpoint(
                b.lat_lo,
                b.lat_hi,
            ) && t.1 as int == lon_error(b) && t.2 as int == lat_error(b)
        }),
        r is Ok ==> ({
            let t = r->Ok_0;
            LON_MIN <= t.0.x <= LON_MAX && LAT_MIN <= t.0.y <= LAT_MAX && 0 <= t.1 && 0 <= t.2
                && 2 * t.1 <= 360 * SCALE && 2 * t.2 <= 180 * SCALE
        }),
        !valid_hash(hash_str@) ==> r is Err && exists|i: int|
            is_first_invalid(hash_str@, i) && r->Err_0 == GeohashError::InvalidHashCharacter(
                hash_str@[i],
            ),
{
    let rect = match decode_bbox(hash_str) {
        Ok(rc) => rc,
        Err(e) => {
            return Err(e);
        },
    };
    let c0 = rect.min();
    let c1 = rect.max();
    let cx = c0.x + (c1.x - c0.x) / 2;
    let cy = c0.y + (c1.y - c0.y) / 2;
    let ex = (c1.x - c0.x) / 2;
    let ey = (c1.y - c0.y) / 2;
    Ok((Coordinate { x: cx, y: cy }, ex, ey))
}

/// The alphabet character for a 5-bit value.
fn value_to_char(v: usize) -> (c: char)
    requires
        v < 32,
    ensures
        c == value_char(v as int),
{
    if v == 0 { '0' }
    else if v == 1 { '1' }
    else if v == 2 { '2' }
    else if v == 3 { '3' }
    else if v == 4 { '4' }
    else if v == 5 { '5' }
    else if v == 6 { '6' }
    else if v == 7 { '7' }
    else if v == 8 { '8' }
    else if v == 9 { '9' }
    else if v == 10 { 'b' }
    else if v == 11 { 'c' }
    else if v == 12 { 'd' }
    else if v == 13 { 'e' }
    else if v == 14 { 'f' }
    else if v == 15 { 'g' }
    else if v == 16 { 'h' }
    else if v == 17 { 'j' }
    else if v == 18 { 'k' }
    else if v == 19 { 'm' }
    else if v == 20 { 'n' }
    else if v == 21 { 'p' }
    else if v == 22 { 'q' }
    else if v == 23 { 'r' }
    else if v == 24 { 's' }
    else if v == 25 { 't' }
    else if v == 26 { 'u' }
    else if v == 27 { 'v' }
    else if v == 28 { 'w' }
    else if v == 29 { 'x' }
    else if v == 30 { 'y' }
    else { 'z' }
}

} // verus!
