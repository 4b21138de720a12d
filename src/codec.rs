use vstd::prelude::*;

verus! {

/// Bit `i` of a 32-bit word.
pub open spec fn bit_u32(z: u32, i: u32) -> bool {
    (z >> i) & 1u32 == 1u32
}

/// Bit `i` of a 16-bit word.
pub open spec fn bit_u16(v: u16, i: u32) -> bool {
    (v >> i) & 1u16 == 1u16
}

/// `z` is the Morton key of `(x, y)`: bit `2i` of `z` is bit `i` of `x` and
/// bit `2i + 1` of `z` is bit `i` of `y`, for every `i` below 16.
pub open spec fn is_morton_key(z: u32, x: u16, y: u16) -> bool {
    forall|i: u32|
        #![trigger bit_u16(x, i)]
        #![trigger bit_u16(y, i)]
        i < 16 ==> bit_u32(z, (2 * i) as u32) == bit_u16(x, i) && bit_u32(z, (2 * i + 1) as u32)
            == bit_u16(y, i)
}

/// Two 16-bit words that agree on every bit are equal.
proof fn lemma_u16_bits_determine(a: u16, b: u16)
    by (bit_vector)
    requires
        bit_u16(a, 0) == bit_u16(b, 0),
        bit_u16(a, 1) == bit_u16(b, 1),
        bit_u16(a, 2) == bit_u16(b, 2),
        bit_u16(a, 3) == bit_u16(b, 3),
        bit_u16(a, 4) == bit_u16(b, 4),
        bit_u16(a, 5) == bit_u16(b, 5),
        bit_u16(a, 6) == bit_u16(b, 6),
        bit_u16(a, 7) == bit_u16(b, 7),
        bit_u16(a, 8) == bit_u16(b, 8),
        bit_u16(a, 9) == bit_u16(b, 9),
        bit_u16(a, 10) == bit_u16(b, 10),
        bit_u16(a, 11) == bit_u16(b, 11),
        bit_u16(a, 12) == bit_u16(b, 12),
        bit_u16(a, 13) == bit_u16(b, 13),
        bit_u16(a, 14) == bit_u16(b, 14),
        bit_u16(a, 15) == bit_u16(b, 15),
    ensures
        a == b,
{
}

/// Two 32-bit words that agree on every bit are equal.
proof fn lemma_u32_bits_determine(a: u32, b: u32)
    by (bit_vector)
    requires
        bit_u32(a, 0) == bit_u32(b, 0),
        bit_u32(a, 1) == bit_u32(b, 1),
        bit_u32(a, 2) == bit_u32(b, 2),
        bit_u32(a, 3) == bit_u32(b, 3),
        bit_u32(a, 4) == bit_u32(b, 4),
        bit_u32(a, 5) == bit_u32(b, 5),
        bit_u32(a, 6) == bit_u32(b, 6),
        bit_u32(a, 7) == bit_u32(b, 7),
        bit_u32(a, 8) == bit_u32(b, 8),
        bit_u32(a, 9) == bit_u32(b, 9),
        bit_u32(a, 10) == bit_u32(b, 10),
        bit_u32(a, 11) == bit_u32(b, 11),
        bit_u32(a, 12) == bit_u32(b, 12),
        bit_u32(a, 13) == bit_u32(b, 13),
        bit_u32(a, 14) == bit_u32(b, 14),
        bit_u32(a, 15) == bit_u32(b, 15),
        bit_u32(a, 16) == bit_u32(b, 16),
        bit_u32(a, 17) == bit_u32(b, 17),
        bit_u32(a, 18) == bit_u32(b, 18),
        bit_u32(a, 19) == bit_u32(b, 19),
        bit_u32(a, 20) == bit_u32(b, 20),
        bit_u32(a, 21) == bit_u32(b, 21),
        bit_u32(a, 22) == bit_u32(b, 22),
        bit_u32(a, 23) == bit_u32(b, 23),
        bit_u32(a, 24) == bit_u32(b, 24),
        bit_u32(a, 25) == bit_u32(b, 25),
        bit_u32(a, 26) == bit_u32(b, 26),
        bit_u32(a, 27) == bit_u32(b, 27),
        bit_u32(a, 28) == bit_u32(b, 28),
        bit_u32(a, 29) == bit_u32(b, 29),
        bit_u32(a, 30) == bit_u32(b, 30),
        bit_u32(a, 31) == bit_u32(b, 31),
    ensures
        a == b,
{
}

/// One step of spreading bits apart: `(v | (v << s)) & mask`.
pub open spec fn spread_step(v: u32, s: u32, mask: u32) -> u32 {
    (v | (v << s)) & mask
}

/// Moves bit `i` of a 16-bit value to bit `2i`, leaving the odd bits clear.
pub open spec fn spread(v: u32) -> u32 {
    spread_step(
        spread_step(spread_step(spread_step(v, 8, 0x00FF00FF), 4, 0x0F0F0F0F), 2, 0x33333333),
        1,
        0x55555555,
    )
}

/// One step of gathering bits together: `(v | (v >> s)) & mask`.
pub open spec fn compact_step(v: u32, s: u32, mask: u32) -> u32 {
    (v | (v >> s)) & mask
}

/// Moves bit `2i` of a 32-bit value to bit `i`, dropping the odd bits.
pub open spec fn compact(v: u32) -> u32 {
    compact_step(
        compact_step(
            compact_step(compact_step(v & 0x55555555, 1, 0x33333333), 2, 0x0F0F0F0F),
            4,
            0x00FF00FF,
        ),
        8,
        0x0000FFFF,
    )
}

/// The Morton key of `(x, y)`: the one word whose even bits are those of `x`
/// and whose odd bits are those of `y`.
pub open spec fn morton_key(x: u16, y: u16) -> u32 {
    choose|z: u32| is_morton_key(z, x, y)
}

/// The coordinates held by the Morton key `z`: its even bits and its odd bits.
pub open spec fn morton_coords(z: u32) -> (u16, u16) {
    choose|p: (u16, u16)| is_morton_key(z, p.0, p.1)
}

/// Spreading `x` and `y` and merging them gives a Morton key of `(x, y)`.
proof fn lemma_spread_is_key(x: u16, y: u16)
    ensures
        is_morton_key(spread(x as u32) | (spread(y as u32) << 1), x, y),
{
    let z = spread(x as u32) | (spread(y as u32) << 1);
    assert forall|i: u32| i < 16 implies bit_u32(z, (2 * i) as u32) == bit_u16(x, i) && bit_u32(
        z,
        (2 * i + 1) as u32,
    ) == bit_u16(y, i) by {
        assert(bit_u32(z, (2 * i) as u32) == bit_u16(x, i) && bit_u32(z, (2 * i + 1) as u32)
            == bit_u16(y, i)) by (bit_vector)
            requires
                z == spread(x as u32) | (spread(y as u32) << 1),
                i < 16,
        ;
    }
}

/// Compacting the even and the odd bits of `z` gives the coordinates it holds.
proof fn lemma_compact_is_coords(z: u32)
    ensures
        is_morton_key(z, compact(z) as u16, compact(z >> 1) as u16),
{
    let x = compact(z) as u16;
    let y = compact(z >> 1) as u16;
    assert forall|i: u32| i < 16 implies bit_u32(z, (2 * i) as u32) == bit_u16(x, i) && bit_u32(
        z,
        (2 * i + 1) as u32,
    ) == bit_u16(y, i) by {
        assert(bit_u32(z, (2 * i) as u32) == bit_u16(x, i) && bit_u32(z, (2 * i + 1) as u32)
            == bit_u16(y, i)) by (bit_vector)
            requires
                x == compact(z) as u16,
                y == compact(z >> 1) as u16,
                i < 16,
        ;
    }
}

/// A Morton key pins down its coordinates.
proof fn lemma_coords_unique(z: u32, x1: u16, y1: u16, x2: u16, y2: u16)
    requires
        is_morton_key(z, x1, y1),
        is_morton_key(z, x2, y2),
    ensures
        x1 == x2,
        y1 == y2,
{
    assert forall|i: u32| i < 16 implies bit_u16(x1, i) == bit_u16(x2, i) && bit_u16(y1, i)
        == bit_u16(y2, i) by {
        assert(bit_u16(x1, i) == bit_u32(z, (2 * i) as u32));
        assert(bit_u16(x2, i) == bit_u32(z, (2 * i) as u32));
        assert(bit_u16(y1, i) == bit_u32(z, (2 * i + 1) as u32));
        assert(bit_u16(y2, i) == bit_u32(z, (2 * i + 1) as u32));
    }
    lemma_u16_bits_determine(x1, x2);
    lemma_u16_bits_determine(y1, y2);
}

/// Coordinates pin down their Morton key.
proof fn lemma_key_unique(z1: u32, z2: u32, x: u16, y: u16)
    requires
        is_morton_key(z1, x, y),
        is_morton_key(z2, x, y),
    ensures
        z1 == z2,
{
    assert forall|j: u32| j < 32 implies #[trigger] bit_u32(z1, j) == bit_u32(z2, j) by {
        let i = j / 2;
        if j % 2 == 0 {
            assert(j == (2 * i) as u32);
            assert(bit_u32(z1, (2 * i) as u32) == bit_u16(x, i));
            assert(bit_u32(z2, (2 * i) as u32) == bit_u16(x, i));
        } else {
            assert(j == (2 * i + 1) as u32);
            assert(bit_u32(z1, (2 * i + 1) as u32) == bit_u16(y, i));
            assert(bit_u32(z2, (2 * i + 1) as u32) == bit_u16(y, i));
        }
    }
    lemma_u32_bits_determine(z1, z2);
}

/// Any Morton key of `(x, y)` is `morton_key(x, y)`.
proof fn lemma_is_morton_key(z: u32, x: u16, y: u16)
    requires
        is_morton_key(z, x, y),
    ensures
        morton_key(x, y) == z,
        morton_coords(z) == (x, y),
{
    let k = morton_key(x, y);
    assert(is_morton_key(k, x, y));
    lemma_key_unique(k, z, x, y);
    let q = (x, y);
    assert(is_morton_key(z, q.0, q.1));
    let p = morton_coords(z);
    assert(is_morton_key(z, p.0, p.1));
    lemma_coords_unique(z, p.0, p.1, x, y);
}

/// The Morton key of `(x, y)` is the spread of `x` merged with the spread of
/// `y` shifted up by one bit.
pub proof fn lemma_morton_key_spread(x: u16, y: u16)
    ensures
        morton_key(x, y) == spread(x as u32) | (spread(y as u32) << 1),
{
    lemma_spread_is_key(x, y);
    lemma_is_morton_key(spread(x as u32) | (spread(y as u32) << 1), x, y);
}

/// The coordinates of `z` are its compacted even bits and odd bits.
pub proof fn lemma_morton_coords_compact(z: u32)
    ensures
        morton_coords(z) == (compact(z) as u16, compact(z >> 1) as u16),
{
    lemma_compact_is_coords(z);
    lemma_is_morton_key(z, compact(z) as u16, compact(z >> 1) as u16);
}

/// Every pair of coordinates has its Morton key.
pub proof fn lemma_morton_key_holds(x: u16, y: u16)
    ensures
        is_morton_key(morton_key(x, y), x, y),
{
    lemma_spread_is_key(x, y);
    lemma_is_morton_key(spread(x as u32) | (spread(y as u32) << 1), x, y);
}

/// Every key holds its coordinates.
pub proof fn lemma_morton_coords_hold(z: u32)
    ensures
        is_morton_key(z, morton_coords(z).0, morton_coords(z).1),
{
    lemma_compact_is_coords(z);
    lemma_is_morton_key(z, compact(z) as u16, compact(z >> 1) as u16);
}

/// Decoding the key of `(x, y)` gives back `(x, y)`.
pub proof fn lemma_decode_encode(x: u16, y: u16)
    ensures
        morton_coords(morton_key(x, y)) == (x, y),
{
    lemma_morton_key_holds(x, y);
    lemma_is_morton_key(morton_key(x, y), x, y);
}

/// Encoding the coordinates held by `z` gives back `z`.
pub proof fn lemma_encode_decode(z: u32)
    ensures
        morton_key(morton_coords(z).0, morton_coords(z).1) == z,
{
    lemma_morton_coords_hold(z);
    lemma_is_morton_key(z, morton_coords(z).0, morton_coords(z).1);
}

/// No two distinct coordinate pairs share a Morton key.
pub proof fn lemma_morton_key_injective(x1: u16, y1: u16, x2: u16, y2: u16)
    requires
        morton_key(x1, y1) == morton_key(x2, y2),
    ensures
        x1 == x2,
        y1 == y2,
{
    lemma_decode_encode(x1, y1);
    lemma_decode_encode(x2, y2);
}

/// Interleaves the bits of `x` and `y` into one Morton key: bit `i` of `x`
/// lands on bit `2i`, bit `i` of `y` on bit `2i + 1`.
pub fn interleave_morton(x: u16, y: u16) -> (z: u32)
    ensures
        z == morton_key(x, y),
        is_morton_key(z, x, y),
{
    let xs = x as u32;
    let xs = (xs | (xs << 8)) & 0x00FF00FF;
    let xs = (xs | (xs << 4)) & 0x0F0F0F0F;
    let xs = (xs | (xs << 2)) & 0x33333333;
    let xs = (xs | (xs << 1)) & 0x55555555;

    let ys = y as u32;
    let ys = (ys | (ys << 8)) & 0x00FF00FF;
    let ys = (ys | (ys << 4)) & 0x0F0F0F0F;
    let ys = (ys | (ys << 2)) & 0x33333333;
    let ys = (ys | (ys << 1)) & 0x55555555;

    proof {
        assert(xs == spread(x as u32));
        assert(ys == spread(y as u32));
        lemma_spread_is_key(x, y);
        lemma_is_morton_key(xs | (ys << 1), x, y);
    }
    xs | (ys << 1)
}

/// Splits a Morton key into its coordinates: the even bits of `z` form `x`,
/// the odd bits form `y`.
pub fn deinterleave_morton(z: u32) -> (r: (u16, u16))
    ensures
        r == morton_coords(z),
        is_morton_key(z, r.0, r.1),
{
    let xs = z & 0x55555555;
    let xs = (xs | (xs >> 1)) & 0x33333333;
    let xs = (xs | (xs >> 2)) & 0x0F0F0F0F;
    let xs = (xs | (xs >> 4)) & 0x00FF00FF;
    let xs = (xs | (xs >> 8)) & 0x0000FFFF;

    let ys = (z >> 1) & 0x55555555;
    let ys = (ys | (ys >> 1)) & 0x33333333;
    let ys = (ys | (ys >> 2)) & 0x0F0F0F0F;
    let ys = (ys | (ys >> 4)) & 0x00FF00FF;
    let ys = (ys | (ys >> 8)) & 0x0000FFFF;

    proof {
        assert(xs == compact(z));
        assert(ys == compact(z >> 1));
        lemma_compact_is_coords(z);
        lemma_is_morton_key(z, xs as u16, ys as u16);
    }
    (xs as u16, ys as u16)
}

} // verus!
