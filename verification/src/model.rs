//! The mathematical model of the codec: the base32 alphabet, the bit stream a
//! hash stands for, and the interleaved interval refinement that gives every
//! hash its bounding box. All executable code in this crate is specified
//! against the functions of this module.

use crate::{Coordinate, LAT_MAX, LAT_MIN, LON_MAX, LON_MIN};
use vstd::arithmetic::power2::{lemma2_to64, lemma_pow2_unfold, pow2};
use vstd::prelude::*;

verus! {

/// The four interval bounds the refinement works on, in fixed-point units.
pub ghost struct Bounds {
    pub lon_lo: int,
    pub lon_hi: int,
    pub lat_lo: int,
    pub lat_hi: int,
}

/// The whole globe: the state both the encoder and the decoder start from.
pub open spec fn full_bounds() -> Bounds {
    Bounds { lon_lo: LON_MIN as int, lon_hi: LON_MAX as int, lat_lo: LAT_MIN as int, lat_hi: LAT_MAX as int }
}

/// Both bound pairs are ordered.
pub open spec fn bounds_wf(b: Bounds) -> bool {
    b.lon_lo <= b.lon_hi && b.lat_lo <= b.lat_hi
}

/// `b` lies inside the whole globe.
pub open spec fn bounds_in_globe(b: Bounds) -> bool {
    LON_MIN <= b.lon_lo && b.lon_hi <= LON_MAX && LAT_MIN <= b.lat_lo && b.lat_hi <= LAT_MAX
}

/// `inner` lies inside `outer` on both axes.
pub open spec fn bounds_contain(outer: Bounds, inner: Bounds) -> bool {
    outer.lon_lo <= inner.lon_lo && inner.lon_hi <= outer.lon_hi
        && outer.lat_lo <= inner.lat_lo && inner.lat_hi <= outer.lat_hi
}

/// The point `(x, y)` lies inside `b`.
pub open spec fn bounds_contain_point(b: Bounds, x: int, y: int) -> bool {
    b.lon_lo <= x <= b.lon_hi && b.lat_lo <= y <= b.lat_hi
}

/// The coordinate is within the valid longitude and latitude ranges.
pub open spec fn coordinate_in_range(c: Coordinate) -> bool {
    in_range(c.x as int, c.y as int)
}

/// `(x, y)` is within the valid longitude and latitude ranges.
pub open spec fn in_range(x: int, y: int) -> bool {
    LON_MIN <= x <= LON_MAX && LAT_MIN <= y <= LAT_MAX
}

/// The midpoint of `[lo, hi]`, rounding half-units down. Within the supported
/// hash lengths every interval has an even width, so no rounding ever occurs.
pub open spec fn midpoint(lo: int, hi: int) -> int {
    lo + (hi - lo) / 2
}

/// One refinement step: halve the active axis, keeping the upper half when
/// the bit is set and the lower half otherwise.
pub open spec fn shrink(b: Bounds, is_lon: bool, bit: bool) -> Bounds {
    if is_lon {
        let mid = midpoint(b.lon_lo, b.lon_hi);
        if bit {
            Bounds { lon_lo: mid, ..b }
        } else {
            Bounds { lon_hi: mid, ..b }
        }
    } else {
        let mid = midpoint(b.lat_lo, b.lat_hi);
        if bit {
            Bounds { lat_lo: mid, ..b }
        } else {
            Bounds { lat_hi: mid, ..b }
        }
    }
}

/// Refine `b` by a stream of bits, alternating the active axis, starting with
/// longitude when `is_lon` is set.
pub open spec fn refine(b: Bounds, is_lon: bool, bits: Seq<bool>) -> Bounds
    decreases bits.len(),
{
    if bits.len() == 0 {
        b
    } else {
        refine(shrink(b, is_lon, bits[0]), !is_lon, bits.drop_first())
    }
}

/// The axis that is active after `n` bits when the first bit was on an axis
/// with `is_lon` set.
pub open spec fn turn(is_lon: bool, n: int) -> bool {
    if n % 2 == 0 {
        is_lon
    } else {
        !is_lon
    }
}

/// The character is one of the 32 symbols of the geohash alphabet
/// `0123456789bcdefghjkmnpqrstuvwxyz`.
pub open spec fn is_alphabet_char(c: char) -> bool {
    let o = c as int;
    (48 <= o <= 57) || (98 <= o <= 104) || (106 <= o <= 107) || (109 <= o <= 110) || (112 <= o
        <= 122)
}

/// The 5-bit value of an alphabet character, mirroring the ordinal ranges of
/// the alphabet (digits, then lowercase letters skipping `a`, `i`, `l`, `o`).
pub open spec fn char_value(c: char) -> int {
    let o = c as int;
    if 48 <= o <= 57 {
        o - 48
    } else if 98 <= o <= 104 {
        o - 88
    } else if 106 <= o <= 107 {
        o - 89
    } else if 109 <= o <= 110 {
        o - 90
    } else {
        o - 91
    }
}

/// The alphabet character standing for a 5-bit value.
pub open spec fn value_char(v: int) -> char {
    if v == 0 { '0' }
    else if v == 1 { '1' }
    else if v == 2 { '2' }
    else if v == 3 { '3' }
    else if v == 4 { '4' }
    else if v == 5 { '5' }
    else if v == 6 { '6' }
    else if v == 7 { '7' }
    else if v == 8 { '8' }
    else if v == 9 { '9' }
    else if v == 10 { 'b' }
    else if v == 11 { 'c' }
    else if v == 12 { 'd' }
    else if v == 13 { 'e' }
    else if v == 14 { 'f' }
    else if v == 15 { 'g' }
    else if v == 16 { 'h' }
    else if v == 17 { 'j' }
    else if v == 18 { 'k' }
    else if v == 19 { 'm' }
    else if v == 20 { 'n' }
    else if v == 21 { 'p' }
    else if v == 22 { 'q' }
    else if v == 23 { 'r' }
    else if v == 24 { 's' }
    else if v == 25 { 't' }
    else if v == 26 { 'u' }
    else if v == 27 { 'v' }
    else if v == 28 { 'w' }
    else if v == 29 { 'x' }
    else if v == 30 { 'y' }
    else { 'z' }
}

/// The five bits of a 5-bit value, most significant first.
pub open spec fn bits_of_value(v: int) -> Seq<bool> {
    seq![
        v / 16 % 2 == 1,
        v / 8 % 2 == 1,
        v / 4 % 2 == 1,
        v / 2 % 2 == 1,
        v % 2 == 1,
    ]
}

/// The value of a bit sequence read most significant first.
pub open spec fn value_of_bits(bits: Seq<bool>) -> int
    decreases bits.len(),
{
    if bits.len() == 0 {
        0
    } else {
        2 * value_of_bits(bits.drop_last()) + if bits.last() { 1int } else { 0int }
    }
}

/// Every character of the hash is drawn from the alphabet.
pub open spec fn valid_hash(h: Seq<char>) -> bool {
    forall|i: int| 0 <= i < h.len() ==> is_alphabet_char(h[i])
}

/// `h[i]` is the first character of `h` outside the alphabet.
pub open spec fn is_first_invalid(h: Seq<char>, i: int) -> bool {
    0 <= i < h.len() && !is_alphabet_char(h[i]) && (forall|j: int|
        0 <= j < i ==> is_alphabet_char(h[j]))
}

/// The bit stream a hash stands for: five bits per character, in order.
pub open spec fn hash_bits(h: Seq<char>) -> Seq<bool>
    decreases h.len(),
{
    if h.len() == 0 {
        Seq::empty()
    } else {
        bits_of_value(char_value(h[0])) + hash_bits(h.drop_first())
    }
}

/// The bounding box a hash denotes: the whole globe refined by the hash's
/// bit stream, starting on the longitude axis.
pub open spec fn bbox_of_hash(h: Seq<char>) -> Bounds {
    refine(full_bounds(), true, hash_bits(h))
}

/// Half the width of the longitude interval: how far the true longitude can
/// sit from the interval's midpoint.
pub open spec fn lon_error(b: Bounds) -> int {
    (b.lon_hi - b.lon_lo) / 2
}

/// Half the width of the latitude interval.
pub open spec fn lat_error(b: Bounds) -> int {
    (b.lat_hi - b.lat_lo) / 2
}

/// The bit the encoder emits at state `b`: set exactly when the coordinate's
/// active component exceeds the midpoint of the active interval.
pub open spec fn encode_bit(x: int, y: int, b: Bounds, is_lon: bool) -> bool {
    if is_lon {
        x > midpoint(b.lon_lo, b.lon_hi)
    } else {
        y > midpoint(b.lat_lo, b.lat_hi)
    }
}

/// The next `n` bits the encoder emits from state `b`.
pub open spec fn encode_bits(x: int, y: int, b: Bounds, is_lon: bool, n: nat) -> Seq<bool>
    decreases n,
{
    if n == 0 {
        Seq::empty()
    } else {
        let bit = encode_bit(x, y, b, is_lon);
        seq![bit] + encode_bits(x, y, shrink(b, is_lon, bit), !is_lon, (n - 1) as nat)
    }
}

/// The next `len` characters the encoder emits from state `b`: each one packs
/// the next five bits, and the state advances across character boundaries.
pub open spec fn encode_chars(x: int, y: int, b: Bounds, is_lon: bool, len: nat) -> Seq<char>
    decreases len,
{
    if len == 0 {
        Seq::empty()
    } else {
        let bits = encode_bits(x, y, b, is_lon, 5);
        seq![value_char(value_of_bits(bits))] + encode_chars(
            x,
            y,
            refine(b, is_lon, bits),
            !is_lon,
            (len - 1) as nat,
        )
    }
}

/// The hash of length `len` that encodes the point `(x, y)`.
pub open spec fn spec_encode(x: int, y: int, len: nat) -> Seq<char> {
    encode_chars(x, y, full_bounds(), true, len)
}

/// How many of the next `n` bits fall on the longitude axis when the first
/// bit falls on an axis with `is_lon` set.
pub open spec fn lon_bit_count(is_lon: bool, n: nat) -> nat
    decreases n,
{
    if n == 0 {
        0
    } else {
        (if is_lon { 1nat } else { 0nat }) + lon_bit_count(!is_lon, (n - 1) as nat)
    }
}

/// Closed forms of `lon_bit_count`: the longitude axis takes the first of
/// every pair of bits.
pub proof fn lemma_lon_bit_count(n: nat)
    ensures
        lon_bit_count(true, n) == (n + 1) / 2,
        lon_bit_count(false, n) == n / 2,
    decreases n,
{
    if n > 0 {
        lemma_lon_bit_count((n - 1) as nat);
    }
}

/// The value of a bit sequence is nonnegative and below `2^len`.
pub proof fn lemma_value_of_bits_bound(bits: Seq<bool>)
    ensures
        0 <= value_of_bits(bits) < pow2(bits.len()),
    decreases bits.len(),
{
    if bits.len() == 0 {
        assert(pow2(0) == 1) by {
            lemma2_to64();
        }
    } else {
        lemma_value_of_bits_bound(bits.drop_last());
        lemma_pow2_unfold(bits.len());
    }
}

/// Packing five bits into a value and unpacking it again gives the bits back.
pub proof fn lemma_bits_of_value_of_bits(bits: Seq<bool>)
    requires
        bits.len() == 5,
    ensures
        bits_of_value(value_of_bits(bits)) == bits,
{
    let v = value_of_bits(bits);
    let a = if bits[0] { 1int } else { 0int };
    let b = if bits[1] { 1int } else { 0int };
    let c = if bits[2] { 1int } else { 0int };
    let d = if bits[3] { 1int } else { 0int };
    let e = if bits[4] { 1int } else { 0int };
    let q4 = seq![bits[0], bits[1], bits[2], bits[3]];
    let q3 = seq![bits[0], bits[1], bits[2]];
    let q2 = seq![bits[0], bits[1]];
    let q1 = seq![bits[0]];
    assert(bits.drop_last() =~= q4);
    assert(q4.drop_last() =~= q3);
    assert(q3.drop_last() =~= q2);
    assert(q2.drop_last() =~= q1);
    assert(q1.drop_last() =~= Seq::<bool>::empty());
    assert(value_of_bits(Seq::<bool>::empty()) == 0);
    assert(q1.last() == bits[0]);
    assert(value_of_bits(q1) == 2 * value_of_bits(q1.drop_last()) + if q1.last() { 1int } else { 0int });
    assert(value_of_bits(q1) == a);
    assert(value_of_bits(q2) == 2 * a + b);
    assert(value_of_bits(q3) == 4 * a + 2 * b + c);
    assert(value_of_bits(q4) == 8 * a + 4 * b + 2 * c + d);
    assert(v == 16 * a + 8 * b + 4 * c + 2 * d + e);
    assert(v / 16 == a);
    assert(v / 8 == 2 * a + b);
    assert(v / 4 == 4 * a + 2 * b + c);
    assert(v / 2 == 8 * a + 4 * b + 2 * c + d);
    assert(bits_of_value(v) =~= bits);
}

/// Every 5-bit value maps to an alphabet character that maps back to it.
pub proof fn lemma_value_char_roundtrip(v: int)
    requires
        0 <= v < 32,
    ensures
        is_alphabet_char(value_char(v)),
        char_value(value_char(v)) == v,
{
}

/// Refining by a concatenation is refining by both parts in turn, the second
/// starting on the axis the first part ended on.
pub proof fn lemma_refine_append(b: Bounds, is_lon: bool, s1: Seq<bool>, s2: Seq<bool>)
    ensures
        refine(b, is_lon, s1 + s2) == refine(
            refine(b, is_lon, s1),
            turn(is_lon, s1.len() as int),
            s2,
        ),
    decreases s1.len(),
{
    if s1.len() == 0 {
        assert(s1 + s2 =~= s2);
    } else {
        assert((s1 + s2)[0] == s1[0]);
        assert((s1 + s2).drop_first() =~= s1.drop_first() + s2);
        lemma_refine_append(shrink(b, is_lon, s1[0]), !is_lon, s1.drop_first(), s2);
    }
}

/// The encoder emits exactly `n` bits.
pub proof fn lemma_encode_bits_len(x: int, y: int, b: Bounds, is_lon: bool, n: nat)
    ensures
        encode_bits(x, y, b, is_lon, n).len() == n,
    decreases n,
{
    if n > 0 {
        let bit = encode_bit(x, y, b, is_lon);
        lemma_encode_bits_len(x, y, shrink(b, is_lon, bit), !is_lon, (n - 1) as nat);
    }
}

/// The encoder's bit stream splits: the bits after the first `n` are the bits
/// emitted from the state those `n` bits refine to.
pub proof fn lemma_encode_bits_split(x: int, y: int, b: Bounds, is_lon: bool, n: nat, m: nat)
    ensures
        encode_bits(x, y, b, is_lon, n + m) == encode_bits(x, y, b, is_lon, n) + encode_bits(
            x,
            y,
            refine(b, is_lon, encode_bits(x, y, b, is_lon, n)),
            turn(is_lon, n as int),
            m,
        ),
    decreases n,
{
    lemma_encode_bits_len(x, y, b, is_lon, n);
    if n == 0 {
        let whole = encode_bits(x, y, b, is_lon, m);
        assert(encode_bits(x, y, b, is_lon, 0) + whole =~= whole);
    } else {
        let bit = encode_bit(x, y, b, is_lon);
        let b1 = shrink(b, is_lon, bit);
        let head = encode_bits(x, y, b, is_lon, n);
        let rest = encode_bits(x, y, b1, !is_lon, (n - 1) as nat);
        assert(head == seq![bit] + rest);
        assert(head[0] == bit);
        assert(head.drop_first() =~= rest);
        lemma_encode_bits_split(x, y, b1, !is_lon, (n - 1) as nat, m);
        let tail = encode_bits(
            x,
            y,
            refine(b1, !is_lon, rest),
            turn(!is_lon, n - 1),
            m,
        );
        assert(encode_bits(x, y, b, is_lon, n + m) == seq![bit] + (rest + tail));
        assert(seq![bit] + (rest + tail) =~= (seq![bit] + rest) + tail);
    }
}

/// Concatenating hashes concatenates their bit streams.
pub proof fn lemma_hash_bits_append(h1: Seq<char>, h2: Seq<char>)
    ensures
        hash_bits(h1 + h2) == hash_bits(h1) + hash_bits(h2),
    decreases h1.len(),
{
    if h1.len() == 0 {
        assert(h1 + h2 =~= h2);
        assert(hash_bits(h1) + hash_bits(h2) =~= hash_bits(h2));
    } else {
        assert((h1 + h2)[0] == h1[0]);
        assert((h1 + h2).drop_first() =~= h1.drop_first() + h2);
        lemma_hash_bits_append(h1.drop_first(), h2);
        assert(bits_of_value(char_value(h1[0])) + (hash_bits(h1.drop_first()) + hash_bits(h2))
            =~= (bits_of_value(char_value(h1[0])) + hash_bits(h1.drop_first())) + hash_bits(h2));
    }
}

/// A hash of `n` characters stands for `5 n` bits.
pub proof fn lemma_hash_bits_len(h: Seq<char>)
    ensures
        hash_bits(h).len() == 5 * h.len(),
    decreases h.len(),
{
    if h.len() > 0 {
        lemma_hash_bits_len(h.drop_first());
    }
}

/// The characters the encoder emits: there are exactly `len` of them, all
/// from the alphabet, and together they stand for exactly the bits the
/// encoder emits.
pub proof fn lemma_encode_chars_props(x: int, y: int, b: Bounds, is_lon: bool, len: nat)
    ensures
        encode_chars(x, y, b, is_lon, len).len() == len,
        valid_hash(encode_chars(x, y, b, is_lon, len)),
        hash_bits(encode_chars(x, y, b, is_lon, len)) == encode_bits(x, y, b, is_lon, 5 * len),
    decreases len,
{
    let full = encode_chars(x, y, b, is_lon, len);
    if len == 0 {
        assert(hash_bits(full) =~= encode_bits(x, y, b, is_lon, 0));
    } else {
        let bits5 = encode_bits(x, y, b, is_lon, 5);
        lemma_encode_bits_len(x, y, b, is_lon, 5);
        lemma_value_of_bits_bound(bits5);
        assert(pow2(5) == 32) by {
            lemma2_to64();
        }
        let w = value_of_bits(bits5);
        lemma_value_char_roundtrip(w);
        lemma_bits_of_value_of_bits(bits5);
        let b5 = refine(b, is_lon, bits5);
        lemma_encode_chars_props(x, y, b5, !is_lon, (len - 1) as nat);
        let rest = encode_chars(x, y, b5, !is_lon, (len - 1) as nat);
        let c0 = value_char(w);
        assert(full == seq![c0] + rest);
        assert forall|i: int| 0 <= i < full.len() implies is_alphabet_char(full[i]) by {
            if i > 0 {
                assert(full[i] == rest[i - 1]);
            }
        }
        assert(full[0] == c0);
        assert(full.drop_first() =~= rest);
        assert(hash_bits(full) == bits_of_value(char_value(c0)) + hash_bits(rest));
        lemma_encode_bits_split(x, y, b, is_lon, 5, (5 * (len - 1)) as nat);
        assert(5 * len == 5 + 5 * (len - 1));
    }
}

/// The encoder's own bits never refine the coordinate out of the box: each
/// emitted bit keeps the active component inside the halved interval.
pub proof fn lemma_encode_stays_inside(x: int, y: int, b: Bounds, is_lon: bool, n: nat)
    requires
        bounds_wf(b),
        bounds_contain_point(b, x, y),
    ensures
        ({
            let r = refine(b, is_lon, encode_bits(x, y, b, is_lon, n));
            bounds_wf(r) && bounds_contain_point(r, x, y)
        }),
    decreases n,
{
    if n > 0 {
        let bit = encode_bit(x, y, b, is_lon);
        let b1 = shrink(b, is_lon, bit);
        assert(bounds_wf(b1) && bounds_contain_point(b1, x, y));
        lemma_encode_stays_inside(x, y, b1, !is_lon, (n - 1) as nat);
        let bits = encode_bits(x, y, b, is_lon, n);
        let rest = encode_bits(x, y, b1, !is_lon, (n - 1) as nat);
        assert(bits[0] == bit);
        assert(bits.drop_first() =~= rest);
    }
}

/// Each bit halves its axis exactly: after refining, the interval widths are
/// the starting widths divided by two once per bit on that axis.
pub proof fn lemma_refine_widths(b: Bounds, is_lon: bool, bits: Seq<bool>, ea: nat, eb: nat)
    requires
        b.lon_hi - b.lon_lo == 45 * pow2(ea),
        b.lat_hi - b.lat_lo == 45 * pow2(eb),
        lon_bit_count(is_lon, bits.len()) <= ea,
        lon_bit_count(!is_lon, bits.len()) <= eb,
    ensures
        ({
            let r = refine(b, is_lon, bits);
            r.lon_hi - r.lon_lo == 45 * pow2((ea - lon_bit_count(is_lon, bits.len())) as nat)
                && r.lat_hi - r.lat_lo == 45 * pow2(
                (eb - lon_bit_count(!is_lon, bits.len())) as nat,
            )
        }),
    decreases bits.len(),
{
    if bits.len() > 0 {
        let bit = bits[0];
        let b1 = shrink(b, is_lon, bit);
        if is_lon {
            lemma_pow2_unfold(ea);
            let w2 = 45 * pow2((ea - 1) as nat);
            assert(b.lon_hi - b.lon_lo == 2 * w2);
            assert(b1.lon_hi - b1.lon_lo == w2);
            lemma_refine_widths(b1, !is_lon, bits.drop_first(), (ea - 1) as nat, eb);
        } else {
            lemma_pow2_unfold(eb);
            let w2 = 45 * pow2((eb - 1) as nat);
            assert(b.lat_hi - b.lat_lo == 2 * w2);
            assert(b1.lat_hi - b1.lat_lo == w2);
            lemma_refine_widths(b1, !is_lon, bits.drop_first(), ea, (eb - 1) as nat);
        }
    }
}

} // verus!
