//! Planar encoding of a 16x16, 4bpp sprite: splits every palette index into
//! its four bitplanes, packs each bitplane row into one byte, and orders the
//! bytes tile by tile in the console's 2bpp-pair interleave.

use vstd::prelude::*;
use crate::EncodeError;

verus! {

/// Bit `k` of a palette index byte.
pub open spec fn nth_bit(v: u8, k: u8) -> u8 {
    (v >> k) & 1
}

/// Pixel-row origin of quadrant `n`: quadrants 0 and 1 sit in the top half,
/// 2 and 3 in the bottom half.
pub open spec fn quad_row(n: int) -> int {
    if n >= 2 {
        8
    } else {
        0
    }
}

/// Pixel-column origin of quadrant `n`: odd quadrants sit in the right half.
pub open spec fn quad_col(n: int) -> int {
    if n == 1 || n == 3 {
        8
    } else {
        0
    }
}

/// Position of (bitplane, row, col) inside the shared 16x16 scratch buffer:
/// each bitplane occupies one 8x8 quadrant, addressed by the same quadrant
/// scheme that places tiles inside the sprite.
pub open spec fn plane_pos(bp: int, r: int, c: int) -> int {
    (quad_row(bp) + r) * 16 + quad_col(bp) + c
}

/// The bit that bitplane `bp` holds for pixel (r, c) of tile `t`.
pub open spec fn tile_bit(indices: Seq<u8>, t: int, bp: int, r: int, c: int) -> u8 {
    nth_bit(indices[(quad_row(t) + r) * 16 + quad_col(t) + c], bp as u8)
}

/// Sets up the bitplanes of one 8x8 tile: for every pixel of the tile and
/// every bitplane 0..4, stores that bit of the pixel's palette index in the
/// bitplane's quadrant of the scratch buffer `bitplanes[tile_num]`. All 256
/// scratch cells are overwritten, so no stale state survives from an earlier
/// tile.
pub fn setup_bitplanes(
    indices: &Vec<u8>,
    bitplanes: &mut Vec<Vec<u8>>,
    stride: usize,
    tile_num: usize,
)
    requires
        stride == 16,
        indices@.len() == 256,
        tile_num < 4,
        old(bitplanes)@.len() == 4,
        old(bitplanes)@[tile_num as int]@.len() == 256,
    ensures
        final(bitplanes)@.len() == 4,
        forall|k: int|
            0 <= k < 4 && k != tile_num ==> final(bitplanes)@[k] == old(bitplanes)@[k],
        final(bitplanes)@[tile_num as int]@.len() == 256,
        forall|bp: int, r: int, c: int|
            0 <= bp < 4 && 0 <= r < 8 && 0 <= c < 8 ==> final(bitplanes)@[tile_num as int]@[
                plane_pos(bp, r, c)
            ] == tile_bit(indices@, tile_num as int, bp, r, c),
{
    let ghost t = tile_num as int;
    let col_offs_bit = tile_num & 0x01;
    let row_offs_bit = (tile_num & 0x02) >> 1;
    proof {
        assert(tile_num < 4 ==> (tile_num & 0x01) == (if tile_num == 1 || tile_num == 3 {
            1usize
        } else {
            0usize
        }) && ((tile_num & 0x02) >> 1) == (if tile_num >= 2 {
            1usize
        } else {
            0usize
        })) by (bit_vector);
        assert(col_offs_bit * 8 == quad_col(t));
        assert(row_offs_bit * 8 == quad_row(t));
    }

    let mut buf = bitplanes.remove(tile_num);

    let mut tile_row = row_offs_bit * 8;
    while tile_row < row_offs_bit * 8 + 8
        invariant
            stride == 16,
            indices@.len() == 256,
            tile_num < 4,
            t == tile_num as int,
            col_offs_bit * 8 == quad_col(t),
            row_offs_bit * 8 == quad_row(t),
            quad_row(t) <= tile_row <= quad_row(t) + 8,
            buf@.len() == 256,
            forall|bp: int, r: int, c: int|
                0 <= bp < 4 && 0 <= r < tile_row - quad_row(t) && 0 <= c < 8 ==> buf@[plane_pos(
                    bp,
                    r,
                    c,
                )] == tile_bit(indices@, t, bp, r, c),
        decreases row_offs_bit * 8 + 8 - tile_row,
    {
        let mut tile_col = col_offs_bit * 8;
        while tile_col < col_offs_bit * 8 + 8
            invariant
                stride == 16,
                indices@.len() == 256,
                tile_num < 4,
                t == tile_num as int,
                col_offs_bit * 8 == quad_col(t),
                row_offs_bit * 8 == quad_row(t),
                quad_row(t) <= tile_row < quad_row(t) + 8,
                quad_col(t) <= tile_col <= quad_col(t) + 8,
                buf@.len() == 256,
                forall|bp: int, r: int, c: int|
                    0 <= bp < 4 && 0 <= r < tile_row - quad_row(t) && 0 <= c < 8 ==> buf@[
                        plane_pos(bp, r, c)
                    ] == tile_bit(indices@, t, bp, r, c),
                forall|bp: int, r: int, c: int|
                    0 <= bp < 4 && r == tile_row - quad_row(t) && 0 <= c < tile_col - quad_col(
                        t,
                    ) ==> #[trigger] buf@[plane_pos(bp, r, c)] == tile_bit(indices@, t, bp, r, c),
            decreases col_offs_bit * 8 + 8 - tile_col,
        {
            let curr_idx = indices[tile_row * stride + tile_col];
            let mut bp_num: usize = 0;
            while bp_num < 4
                invariant
                    stride == 16,
                    indices@.len() == 256,
                    tile_num < 4,
                    t == tile_num as int,
                    col_offs_bit * 8 == quad_col(t),
                    row_offs_bit * 8 == quad_row(t),
                    quad_row(t) <= tile_row < quad_row(t) + 8,
                    quad_col(t) <= tile_col < quad_col(t) + 8,
                    0 <= bp_num <= 4,
                    curr_idx == indices@[(tile_row * 16 + tile_col) as int],
                    buf@.len() == 256,
                    forall|bp: int, r: int, c: int|
                        0 <= bp < 4 && 0 <= r < tile_row - quad_row(t) && 0 <= c < 8 ==> buf@[
                            plane_pos(bp, r, c)
                        ] == tile_bit(indices@, t, bp, r, c),
                    forall|bp: int, r: int, c: int|
                        0 <= bp < 4 && r == tile_row - quad_row(t) && 0 <= c < tile_col
                            - quad_col(t) ==> #[trigger] buf@[plane_pos(bp, r, c)] == tile_bit(
                            indices@,
                            t,
                            bp,
                            r,
                            c,
                        ),
                    forall|bp: int, r: int, c: int|
                        0 <= bp < bp_num && r == tile_row - quad_row(t) && c == tile_col
                            - quad_col(t) ==> #[trigger] buf@[plane_pos(bp, r, c)] == tile_bit(
                            indices@,
                            t,
                            bp,
                            r,
                            c,
                        ),
                decreases 4 - bp_num,
            {
                let bp_col_offs_bit = bp_num & 0x01;
                let bp_row_offs_bit = (bp_num & 0x02) >> 1;
                proof {
                    assert(bp_num < 4 ==> (bp_num & 0x01) == (if bp_num == 1 || bp_num == 3 {
                        1usize
                    } else {
                        0usize
                    }) && ((bp_num & 0x02) >> 1) == (if bp_num >= 2 {
                        1usize
                    } else {
                        0usize
                    })) by (bit_vector);
                }
                let final_idx = (bp_row_offs_bit * 8 * stride + ((tile_row % 8) * stride)) + (
                bp_col_offs_bit * 8 + (tile_col % 8));
                proof {
                    assert(final_idx as int == plane_pos(
                        bp_num as int,
                        tile_row - quad_row(t),
                        tile_col - quad_col(t),
                    ));
                }
                let bit = (curr_idx >> (bp_num as u8)) & 0x01;
                buf.set(final_idx, bit);
                proof {
                    assert(bit == tile_bit(
                        indices@,
                        t,
                        bp_num as int,
                        tile_row - quad_row(t),
                        tile_col - quad_col(t),
                    ));
                }
                bp_num += 1;
            }
            tile_col += 1;
        }
        tile_row += 1;
    }

    bitplanes.insert(tile_num, buf);
    proof {
        assert(final(bitplanes)@ =~= old(bitplanes)@.update(t, buf));
    }
}

/// The byte that the first `k` bits of a row fold into: shift the byte left,
/// then XOR in the next bit, so the first column ends at the top bit.
pub open spec fn pack_prefix(bits: Seq<u8>, k: int) -> u8
    decreases k,
{
    if k <= 0 {
        0
    } else {
        bits[k - 1] ^ (pack_prefix(bits, k - 1) << 1)
    }
}

/// The packed byte of one full 8-bit row.
pub open spec fn pack_row(bits: Seq<u8>) -> u8 {
    pack_prefix(bits, 8)
}

/// The row of raw bits that bitplane `bp`, row `r` holds in a scratch buffer.
pub open spec fn plane_row_bits(buf: Seq<u8>, bp: int, r: int) -> Seq<u8> {
    Seq::new(8, |c: int| buf[plane_pos(bp, r, c)])
}

/// Packs every bitplane row of the scratch buffer in place: the first column
/// of each row receives the row's packed byte, most significant bit first;
/// the other columns keep their raw bits.
pub fn transform_bitplanes(bitplanes: &mut Vec<u8>, stride: usize)
    requires
        stride == 16,
        old(bitplanes)@.len() == 256,
    ensures
        final(bitplanes)@.len() == 256,
        forall|bp: int, r: int, c: int|
            0 <= bp < 4 && 0 <= r < 8 && c == 0 ==> #[trigger] final(bitplanes)@[plane_pos(
                bp,
                r,
                c,
            )] == pack_row(plane_row_bits(old(bitplanes)@, bp, r)),
        forall|bp: int, r: int, c: int|
            0 <= bp < 4 && 0 <= r < 8 && 1 <= c < 8 ==> #[trigger] final(bitplanes)@[plane_pos(
                bp,
                r,
                c,
            )] == old(bitplanes)@[plane_pos(bp, r, c)],
{
    let ghost buf0 = old(bitplanes)@;
    let mut bp_num: usize = 0;
    while bp_num < 4
        invariant
            stride == 16,
            bitplanes@.len() == 256,
            0 <= bp_num <= 4,
            forall|bp: int, r: int, c: int|
                0 <= bp < bp_num && 0 <= r < 8 && c == 0 ==> #[trigger] bitplanes@[plane_pos(
                    bp,
                    r,
                    c,
                )] == pack_row(plane_row_bits(buf0, bp, r)),
            forall|bp: int, r: int, c: int|
                0 <= bp < bp_num && 0 <= r < 8 && 1 <= c < 8 ==> #[trigger] bitplanes@[plane_pos(
                    bp,
                    r,
                    c,
                )] == buf0[plane_pos(bp, r, c)],
            forall|bp: int, r: int, c: int|
                bp_num <= bp < 4 && 0 <= r < 8 && 0 <= c < 8 ==> #[trigger] bitplanes@[plane_pos(
                    bp,
                    r,
                    c,
                )] == buf0[plane_pos(bp, r, c)],
        decreases 4 - bp_num,
    {
        let bp_col_offs_bit = bp_num & 0x01;
        let bp_row_offs_bit = (bp_num & 0x02) >> 1;
        proof {
            assert(bp_num < 4 ==> (bp_num & 0x01) == (if bp_num == 1 || bp_num == 3 {
                1usize
            } else {
                0usize
            }) && ((bp_num & 0x02) >> 1) == (if bp_num >= 2 {
                1usize
            } else {
                0usize
            })) by (bit_vector);
        }
        let ghost b = bp_num as int;

        let mut curr_row = bp_row_offs_bit * 8;
        while curr_row < bp_row_offs_bit * 8 + 8
            invariant
                stride == 16,
                bitplanes@.len() == 256,
                0 <= bp_num < 4,
                b == bp_num as int,
                bp_col_offs_bit * 8 == quad_col(b),
                bp_row_offs_bit * 8 == quad_row(b),
                quad_row(b) <= curr_row <= quad_row(b) + 8,
                forall|bp: int, r: int, c: int|
                    0 <= bp < bp_num && 0 <= r < 8 && c == 0 ==> #[trigger] bitplanes@[plane_pos(
                        bp,
                        r,
                        c,
                    )] == pack_row(plane_row_bits(buf0, bp, r)),
                forall|bp: int, r: int, c: int|
                    0 <= bp < bp_num && 0 <= r < 8 && 1 <= c < 8 ==> #[trigger] bitplanes@[
                        plane_pos(bp, r, c)
                    ] == buf0[plane_pos(bp, r, c)],
                forall|bp: int, r: int, c: int|
                    bp == bp_num && 0 <= r < curr_row - quad_row(b) && c == 0
                        ==> #[trigger] bitplanes@[plane_pos(bp, r, c)] == pack_row(
                        plane_row_bits(buf0, bp, r),
                    ),
                forall|bp: int, r: int, c: int|
                    bp == bp_num && 0 <= r < curr_row - quad_row(b) && 1 <= c < 8
                        ==> #[trigger] bitplanes@[plane_pos(bp, r, c)] == buf0[plane_pos(
                        bp,
                        r,
                        c,
                    )],
                forall|bp: int, r: int, c: int|
                    bp == bp_num && curr_row - quad_row(b) <= r < 8 && 0 <= c < 8
                        ==> #[trigger] bitplanes@[plane_pos(bp, r, c)] == buf0[plane_pos(
                        bp,
                        r,
                        c,
                    )],
                forall|bp: int, r: int, c: int|
                    bp_num < bp < 4 && 0 <= r < 8 && 0 <= c < 8 ==> #[trigger] bitplanes@[
                        plane_pos(bp, r, c)
                    ] == buf0[plane_pos(bp, r, c)],
            decreases bp_row_offs_bit * 8 + 8 - curr_row,
        {
            let ghost rr = curr_row - quad_row(b);
            let ghost row_bits = plane_row_bits(buf0, b, rr);
            let mut final_byte: u8 = 0x00;

            let mut curr_col = bp_col_offs_bit * 8;
            while curr_col < bp_col_offs_bit * 8 + 8
                invariant
                    stride == 16,
                    bitplanes@.len() == 256,
                    0 <= bp_num < 4,
                    b == bp_num as int,
                    bp_col_offs_bit * 8 == quad_col(b),
                    bp_row_offs_bit * 8 == quad_row(b),
                    quad_row(b) <= curr_row < quad_row(b) + 8,
                    rr == curr_row - quad_row(b),
                    row_bits == plane_row_bits(buf0, b, rr),
                    quad_col(b) <= curr_col <= quad_col(b) + 8,
                    final_byte == pack_prefix(row_bits, curr_col - quad_col(b)),
                    forall|bp: int, r: int, c: int|
                        bp == bp_num && r == rr && 0 <= c < 8 ==> #[trigger] bitplanes@[
                            plane_pos(bp, r, c)
                        ] == buf0[plane_pos(bp, r, c)],
                decreases bp_col_offs_bit * 8 + 8 - curr_col,
            {
                final_byte = final_byte << 1u8;
                final_byte = bitplanes[curr_row * stride + curr_col] ^ final_byte;
                proof {
                    assert(curr_row * 16 + curr_col == plane_pos(b, rr, curr_col - quad_col(b)));
                    assert(row_bits[curr_col - quad_col(b)] == buf0[plane_pos(
                        b,
                        rr,
                        curr_col - quad_col(b),
                    )]);
                }
                curr_col += 1;
            }

            bitplanes.set(curr_row * stride + bp_col_offs_bit * 8, final_byte);
            proof {
                assert(curr_row * 16 + bp_col_offs_bit * 8 == plane_pos(b, rr, 0));
            }
            curr_row += 1;
        }
        bp_num += 1;
    }
}

/// The 32 wire bytes of one transformed tile: the packed row bytes of
/// bitplanes 0 and 1 interleaved across the 8 rows, then those of bitplanes
/// 2 and 3 likewise (the console's 2bpp-pair interleave).
pub open spec fn spec_tile_bytes(buf: Seq<u8>) -> Seq<u8> {
    Seq::new(32, |k: int| buf[plane_pos(2 * (k / 16) + k % 2, (k % 16) / 2, 0)])
}

/// Collects the wire bytes of one tile from its packed scratch buffer.
pub fn tile_bytes(bitplanes: &Vec<u8>) -> (out: Vec<u8>)
    requires
        bitplanes@.len() == 256,
    ensures
        out@ == spec_tile_bytes(bitplanes@),
{
    let mut out: Vec<u8> = Vec::new();
    let mut k: usize = 0;
    while k < 32
        invariant
            bitplanes@.len() == 256,
            0 <= k <= 32,
            out@.len() == k,
            forall|j: int| 0 <= j < k ==> out@[j] == spec_tile_bytes(bitplanes@)[j],
        decreases 32 - k,
    {
        let pos = (8 * (k / 16) + (k % 16) / 2) * 16 + 8 * (k % 2);
        proof {
            assert(pos as int == plane_pos(2 * (k as int / 16) + k as int % 2, (k as int % 16) / 2, 0));
        }
        out.push(bitplanes[pos]);
        k += 1;
    }
    proof {
        assert(out@ =~= spec_tile_bytes(bitplanes@));
    }
    out
}

/// Byte `j` of the sprite stream: tile `j / 32`, then inside the tile the
/// 2bpp-pair interleave over bitplanes and rows.
pub open spec fn spec_sprite_byte(indices: Seq<u8>, j: int) -> u8 {
    let t = j / 32;
    let k = j % 32;
    let bp = 2 * (k / 16) + k % 2;
    let r = (k % 16) / 2;
    pack_row(Seq::new(8, |c: int| tile_bit(indices, t, bp, r, c)))
}

/// The full 128-byte planar stream of a 16x16, 4bpp sprite.
pub open spec fn spec_sprite(indices: Seq<u8>) -> Seq<u8> {
    Seq::new(128, |j: int| spec_sprite_byte(indices, j))
}

/// A fresh all-zero scratch buffer.
fn zeroed_buffer(n: usize) -> (v: Vec<u8>)
    ensures
        v@.len() == n,
        forall|i: int| 0 <= i < n ==> v@[i] == 0,
{
    let mut v: Vec<u8> = Vec::new();
    let mut i: usize = 0;
    while i < n
        invariant
            0 <= i <= n,
            v@.len() == i,
            forall|j: int| 0 <= j < i ==> v@[j] == 0,
        decreases n - i,
    {
        v.push(0);
        i += 1;
    }
    v
}

/// Encodes a 16x16 index buffer as the sprite's planar byte stream: for each
/// of the four tiles, in tile order, the bitplanes are set up, packed, and
/// emitted in the 2bpp-pair interleave. Rejects an index buffer that does
/// not describe a 16x16 sprite before any byte is produced.
pub fn encode_snes_sprite(indices: &Vec<u8>, stride: usize) -> (r: Result<
    Vec<u8>,
    EncodeError,
>)
    ensures
        r is Ok <==> stride == 16 && indices@.len() == 256,
        r is Ok ==> r.unwrap()@ == spec_sprite(indices@),
        r is Err ==> r == Err::<Vec<u8>, EncodeError>(EncodeError::ShapeMismatch),
{
    if stride != 16 {
        return Err(EncodeError::ShapeMismatch);
    }
    if indices.len() != stride * stride {
        return Err(EncodeError::ShapeMismatch);
    }

    // One scratch buffer per bitplane depth, as deep as the sprite is tall;
    // every cell of a tile's buffer is rewritten before it is read.
    let mut tiles: Vec<Vec<u8>> = Vec::new();
    let mut bit: usize = 0;
    while bit < 4
        invariant
            0 <= bit <= 4,
            tiles@.len() == bit,
            forall|k: int| 0 <= k < bit ==> #[trigger] tiles@[k]@.len() == 256,
        decreases 4 - bit,
    {
        tiles.push(zeroed_buffer(16 * 16));
        bit += 1;
    }

    let mut out: Vec<u8> = Vec::new();
    let mut tile_num: usize = 0;
    while tile_num < 4
        invariant
            indices@.len() == 256,
            0 <= tile_num <= 4,
            tiles@.len() == 4,
            forall|k: int| 0 <= k < 4 ==> #[trigger] tiles@[k]@.len() == 256,
            out@.len() == 32 * tile_num,
            forall|j: int| 0 <= j < out@.len() ==> out@[j] == spec_sprite_byte(indices@, j),
        decreases 4 - tile_num,
    {
        let ghost t = tile_num as int;
        setup_bitplanes(indices, &mut tiles, 16, tile_num);
        let mut buf = tiles.remove(tile_num);
        let ghost buf_raw = buf@;
        transform_bitplanes(&mut buf, 16);
        let mut tb = tile_bytes(&buf);
        tiles.insert(tile_num, buf);

        proof {
            assert forall|k: int| 0 <= k < 32 implies tb@[k] == spec_sprite_byte(
                indices@,
                32 * t + k,
            ) by {
                let j = 32 * t + k;
                vstd::arithmetic::div_mod::lemma_fundamental_div_mod_converse(j, 32, t, k);
                let bp = 2 * (k / 16) + k % 2;
                let r = (k % 16) / 2;
                assert(tb@[k] == buf@[plane_pos(bp, r, 0)]);
                assert(buf@[plane_pos(bp, r, 0)] == pack_row(plane_row_bits(buf_raw, bp, r)));
                assert(plane_row_bits(buf_raw, bp, r) =~= Seq::new(
                    8,
                    |c: int| tile_bit(indices@, t, bp, r, c),
                ));
            }
            assert(tiles@.len() == 4);
            assert forall|k: int| 0 <= k < 4 implies #[trigger] tiles@[k]@.len() == 256 by {
                assert(buf@.len() == 256);
            }
        }
        let ghost out_before = out@;
        out.append(&mut tb);
        proof {
            assert forall|j: int| 0 <= j < out@.len() implies out@[j] == spec_sprite_byte(
                indices@,
                j,
            ) by {
                if j < 32 * t {
                    assert(out@[j] == out_before[j]);
                } else {
                    assert(out@[j] == spec_sprite_byte(indices@, 32 * t + (j - 32 * t)));
                }
            }
        }
        tile_num += 1;
    }
    proof {
        assert(out@ =~= spec_sprite(indices@));
    }
    Ok(out)
}

/// Reading the packed byte's bits most-significant-first gives back the
/// row's bits: column `c` of the row is bit `7 - c` of the byte.
pub proof fn lemma_pack_row_round_trip(bits: Seq<u8>)
    requires
        bits.len() == 8,
        forall|c: int| 0 <= c < 8 ==> bits[c] == 0 || bits[c] == 1,
    ensures
        forall|c: int| 0 <= c < 8 ==> nth_bit(pack_row(bits), (7 - c) as u8) == bits[c],
{
    let b0 = bits[0];
    let b1 = bits[1];
    let b2 = bits[2];
    let b3 = bits[3];
    let b4 = bits[4];
    let b5 = bits[5];
    let b6 = bits[6];
    let b7 = bits[7];
    let p0 = pack_prefix(bits, 0);
    let p1 = pack_prefix(bits, 1);
    let p2 = pack_prefix(bits, 2);
    let p3 = pack_prefix(bits, 3);
    let p4 = pack_prefix(bits, 4);
    let p5 = pack_prefix(bits, 5);
    let p6 = pack_prefix(bits, 6);
    let p7 = pack_prefix(bits, 7);
    let v = pack_row(bits);
    assert(p0 == 0);
    assert(p1 == b0 ^ (p0 << 1));
    assert(p2 == b1 ^ (p1 << 1));
    assert(p3 == b2 ^ (p2 << 1));
    assert(p4 == b3 ^ (p3 << 1));
    assert(p5 == b4 ^ (p4 << 1));
    assert(p6 == b5 ^ (p5 << 1));
    assert(p7 == b6 ^ (p6 << 1));
    assert(v == b7 ^ (p7 << 1));
    assert((v >> 7) & 1 == b0 && (v >> 6) & 1 == b1 && (v >> 5) & 1 == b2 && (v >> 4) & 1 == b3
        && (v >> 3) & 1 == b4 && (v >> 2) & 1 == b5 && (v >> 1) & 1 == b6 && (v >> 0) & 1 == b7)
        by (bit_vector)
        requires
            (b0 == 0 || b0 == 1) && (b1 == 0 || b1 == 1) && (b2 == 0 || b2 == 1) && (b3 == 0
                || b3 == 1) && (b4 == 0 || b4 == 1) && (b5 == 0 || b5 == 1) && (b6 == 0 || b6
                == 1) && (b7 == 0 || b7 == 1),
            p0 == 0,
            p1 == b0 ^ (p0 << 1),
            p2 == b1 ^ (p1 << 1),
            p3 == b2 ^ (p2 << 1),
            p4 == b3 ^ (p3 << 1),
            p5 == b4 ^ (p4 << 1),
            p6 == b5 ^ (p5 << 1),
            p7 == b6 ^ (p6 << 1),
            v == b7 ^ (p7 << 1),
    ;
    assert forall|c: int| 0 <= c < 8 implies nth_bit(v, (7 - c) as u8) == bits[c] by {
        assert(c == 0 || c == 1 || c == 2 || c == 3 || c == 4 || c == 5 || c == 6 || c == 7);
    }
}

/// The round trip on the produced stream itself: bit `7 - c` of sprite byte
/// `j` is exactly the bitplane bit of pixel column `c` that built it.
pub proof fn lemma_sprite_round_trip(indices: Seq<u8>, j: int, c: int)
    requires
        indices.len() == 256,
        0 <= j < 128,
        0 <= c < 8,
    ensures
        ({
            let t = j / 32;
            let k = j % 32;
            let bp = 2 * (k / 16) + k % 2;
            let r = (k % 16) / 2;
            nth_bit(spec_sprite(indices)[j], (7 - c) as u8) == tile_bit(indices, t, bp, r, c)
        }),
{
    let t = j / 32;
    let k = j % 32;
    let bp = 2 * (k / 16) + k % 2;
    let r = (k % 16) / 2;
    let bits = Seq::new(8, |c2: int| tile_bit(indices, t, bp, r, c2));
    assert forall|c2: int| 0 <= c2 < 8 implies bits[c2] == 0 || bits[c2] == 1 by {
        let v = indices[(quad_row(t) + r) * 16 + quad_col(t) + c2];
        let sh = bp as u8;
        assert((v >> sh) & 1 == 0 || (v >> sh) & 1 == 1) by (bit_vector);
    }
    lemma_pack_row_round_trip(bits);
    assert(nth_bit(pack_row(bits), (7 - c) as u8) == bits[c]);
    assert(spec_sprite(indices)[j] == pack_row(bits));
}

} // verus!
