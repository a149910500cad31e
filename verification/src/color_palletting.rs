//! Color quantization and palette indexing: maps 24-bit RGB samples to the
//! console's 15-bit BGR555 colors, collects the unique colors of an image in
//! first-seen order, and assigns every pixel its 1-based palette index.

use vstd::prelude::*;
use crate::EncodeError;

verus! {

/// One truecolor sample: three 8-bit channels.
#[derive(Clone, Copy, Debug, PartialEq, Eq, Structural)]
pub struct Pixel {
    pub r: u8,
    pub g: u8,
    pub b: u8,
}

/// Read access to the three channels of a color sample.
pub trait OpenFields {
    fn r(&self) -> u8;

    fn g(&self) -> u8;

    fn b(&self) -> u8;
}

impl OpenFields for Pixel {
    fn r(&self) -> u8 {
        self.r
    }

    fn g(&self) -> u8 {
        self.g
    }

    fn b(&self) -> u8 {
        self.b
    }
}

/// The console color of a sample: each channel truncated to its 5 high bits,
/// then packed as `B(5) G(5) R(5)` into a 16-bit word (high bit zero).
pub open spec fn spec_bgr555(r: u8, g: u8, b: u8) -> u16 {
    ((r >> 3) as u16) | (((g >> 3) as u16) << 5) | (((b >> 3) as u16) << 10)
}

/// Clears the 3 low bits of a channel, keeping its 5-bit quantized value in place.
pub fn unset_lsbs(u8_input: u8) -> (r: u8)
    ensures
        r == u8_input & 0xf8,
{
    let tmp: u8 = 0xf8;
    u8_input & tmp
}

/// Quantizes a truecolor sample to the 15-bit BGR555 format.
pub fn rgb888_to_bgr555(rgb888_input: Pixel) -> (out: u16)
    ensures
        out == spec_bgr555(rgb888_input.r, rgb888_input.g, rgb888_input.b),
{
    let mut bgr555_out: u16 = 0x0;

    // Clear the 3 LSBs of every channel, then shift the zeroed bits out.
    let unset_r = unset_lsbs(rgb888_input.r) >> 3u8;
    let unset_g = unset_lsbs(rgb888_input.g) >> 3u8;
    let unset_b = unset_lsbs(rgb888_input.b) >> 3u8;

    bgr555_out = bgr555_out ^ (unset_r as u16);
    bgr555_out = bgr555_out ^ ((unset_g as u16) << 5u16);
    bgr555_out = bgr555_out ^ ((unset_b as u16) << 10u16);

    proof {
        let r = rgb888_input.r;
        let g = rgb888_input.g;
        let b = rgb888_input.b;
        assert(0u16 ^ (((r & 0xf8) >> 3) as u16) ^ ((((g & 0xf8) >> 3) as u16) << 5) ^ ((((b
            & 0xf8) >> 3) as u16) << 10) == ((r >> 3) as u16) | (((g >> 3) as u16) << 5) | (((b
            >> 3) as u16) << 10)) by (bit_vector);
    }

    return bgr555_out;
}

/// The quantized colors of a pixel sequence, one per pixel.
pub open spec fn quantized_seq(pixels: Seq<Pixel>) -> Seq<u16> {
    pixels.map(|j: int, p: Pixel| spec_bgr555(p.r, p.g, p.b))
}

/// The palette of a color sequence: its distinct colors, in first-seen order.
pub open spec fn spec_palette(colors: Seq<u16>) -> Seq<u16>
    decreases colors.len(),
{
    if colors.len() == 0 {
        Seq::empty()
    } else {
        let prev = spec_palette(colors.drop_last());
        if prev.contains(colors.last()) {
            prev
        } else {
            prev.push(colors.last())
        }
    }
}

/// A palette holds exactly the colors of the sequence it was built from.
pub proof fn lemma_palette_contains(colors: Seq<u16>, c: u16)
    ensures
        spec_palette(colors).contains(c) <==> colors.contains(c),
    decreases colors.len(),
{
    if colors.len() > 0 {
        lemma_palette_contains(colors.drop_last(), c);
        let prev = spec_palette(colors.drop_last());
        let pal = spec_palette(colors);
        if colors.contains(c) {
            let k = choose|k: int| 0 <= k < colors.len() && colors[k] == c;
            if k < colors.len() - 1 {
                assert(colors.drop_last()[k] == c);
                assert(colors.drop_last().contains(c));
                let k2 = choose|k2: int| 0 <= k2 < prev.len() && prev[k2] == c;
                assert(pal[k2] == c);
                assert(pal.contains(c));
            } else {
                assert(colors.last() == c);
                if prev.contains(c) {
                    let k2 = choose|k2: int| 0 <= k2 < prev.len() && prev[k2] == c;
                    assert(pal[k2] == c);
                } else {
                    assert(pal[pal.len() - 1] == c);
                }
                assert(pal.contains(c));
            }
        }
        if pal.contains(c) {
            let k = choose|k: int| 0 <= k < pal.len() && pal[k] == c;
            if k < prev.len() {
                assert(prev[k] == c);
                assert(prev.contains(c));
                let k2 = choose|k2: int|
                    0 <= k2 < colors.drop_last().len() && colors.drop_last()[k2] == c;
                assert(colors[k2] == c);
            } else {
                assert(colors.last() == c);
                assert(colors[colors.len() - 1] == c);
            }
            assert(colors.contains(c));
        }
    }
}

/// The palette never holds the same color twice.
pub proof fn lemma_palette_unique(colors: Seq<u16>)
    ensures
        forall|i: int, j: int|
            0 <= i < j < spec_palette(colors).len() ==> spec_palette(colors)[i]
                != spec_palette(colors)[j],
    decreases colors.len(),
{
    if colors.len() > 0 {
        lemma_palette_unique(colors.drop_last());
        let prev = spec_palette(colors.drop_last());
        let pal = spec_palette(colors);
        if !prev.contains(colors.last()) {
            assert forall|i: int, j: int| 0 <= i < j < pal.len() implies pal[i] != pal[j] by {
                if j == prev.len() {
                    assert(pal[i] == prev[i]);
                }
            }
        }
    }
}

/// One scan step either keeps the palette or appends the newly seen color.
proof fn lemma_palette_step(colors: Seq<u16>, i: int)
    requires
        0 <= i < colors.len(),
    ensures
        spec_palette(colors.take(i + 1)) == if spec_palette(colors.take(i)).contains(
            colors[i],
        ) {
            spec_palette(colors.take(i))
        } else {
            spec_palette(colors.take(i)).push(colors[i])
        },
{
    assert(colors.take(i + 1).drop_last() =~= colors.take(i));
    assert(colors.take(i + 1).last() == colors[i]);
}

/// The palette of a prefix of the scan is a prefix of the full palette.
pub proof fn lemma_palette_prefix(colors: Seq<u16>, i: int)
    requires
        0 <= i <= colors.len(),
    ensures
        spec_palette(colors.take(i)).len() <= spec_palette(colors).len(),
        forall|k: int|
            0 <= k < spec_palette(colors.take(i)).len() ==> spec_palette(colors.take(i))[k]
                == spec_palette(colors)[k],
    decreases colors.len() - i,
{
    if i == colors.len() {
        assert(colors.take(i) =~= colors);
    } else {
        lemma_palette_step(colors, i);
        lemma_palette_prefix(colors, i + 1);
    }
}

/// Whether the palette already holds a color.
fn pallette_contains(pallette_colors: &Vec<u16>, color: u16) -> (b: bool)
    ensures
        b == pallette_colors@.contains(color),
{
    let mut idx: usize = 0;
    while idx < pallette_colors.len()
        invariant
            0 <= idx <= pallette_colors@.len(),
            forall|k: int| 0 <= k < idx ==> pallette_colors@[k] != color,
        decreases pallette_colors@.len() - idx,
    {
        if pallette_colors[idx] == color {
            return true;
        }
        idx += 1;
    }
    false
}

/// Position of a color inside the palette. The result names the first
/// occurrence, so on a duplicate-free palette it is the color's index.
pub fn get_idx_of_color(pallette_colors: &Vec<u16>, color: &u16) -> (r: u8)
    requires
        pallette_colors@.contains(*color),
        pallette_colors@.len() <= 256,
    ensures
        (r as int) < pallette_colors@.len(),
        pallette_colors@[r as int] == *color,
        forall|k: int| 0 <= k < r ==> pallette_colors@[k] != *color,
{
    let mut idx: usize = 0;
    while idx < pallette_colors.len()
        invariant
            0 <= idx <= pallette_colors@.len(),
            pallette_colors@.len() <= 256,
            pallette_colors@.contains(*color),
            forall|k: int| 0 <= k < idx ==> pallette_colors@[k] != *color,
        decreases pallette_colors@.len() - idx,
    {
        if pallette_colors[idx] == *color {
            return idx as u8;
        }
        idx += 1;
    }
    proof {
        assert(false);
    }
    0
}

/// Scans the pixels in row-major order, collecting the palette of quantized
/// colors and, for every pixel, the 1-based position of its color in the
/// palette (index 0 is reserved for the hardware transparency slot).
///
/// Fails, leaving both output vectors empty, exactly when the image holds
/// more than 255 distinct quantized colors, so that a 1-based index would no
/// longer fit in a byte. On success the palette has no duplicates, and every
/// index points at its pixel's quantized color.
pub fn create_pallette_and_indexing(
    pixels: &Vec<Pixel>,
    pallette_colors: &mut Vec<u16>,
    indices: &mut Vec<u8>,
) -> (r: Result<(), EncodeError>)
    requires
        old(pallette_colors)@.len() == 0,
        old(indices)@.len() == 0,
    ensures
        r is Ok <==> spec_palette(quantized_seq(pixels@)).len() <= 255,
        r is Ok ==> ({
            let pal = final(pallette_colors)@;
            let idxs = final(indices)@;
            &&& pal == spec_palette(quantized_seq(pixels@))
            &&& idxs.len() == pixels@.len()
            &&& forall|j: int|
                0 <= j < pixels@.len() ==> 1 <= #[trigger] idxs[j] as int <= pal.len()
                    && pal[idxs[j] - 1] == quantized_seq(pixels@)[j]
        }),
        r is Err ==> r == Err::<(), EncodeError>(EncodeError::CapacityExceeded) && final(
            pallette_colors
        )@.len() == 0 && final(indices)@.len() == 0,
{
    let ghost q = quantized_seq(pixels@);
    let mut i: usize = 0;
    while i < pixels.len()
        invariant
            0 <= i <= pixels@.len(),
            q == quantized_seq(pixels@),
            pallette_colors@ == spec_palette(q.take(i as int)),
            pallette_colors@.len() <= 255,
            indices@.len() == i,
            forall|j: int|
                0 <= j < i ==> 1 <= #[trigger] indices@[j] as int <= pallette_colors@.len()
                    && pallette_colors@[indices@[j] - 1] == q[j],
        decreases pixels@.len() - i,
    {
        let p = pixels[i];
        let p_bgr555 = rgb888_to_bgr555(p);
        proof {
            assert(q[i as int] == spec_bgr555(p.r, p.g, p.b));
            lemma_palette_step(q, i as int);
        }
        if !pallette_contains(pallette_colors, p_bgr555) {
            if pallette_colors.len() == 255 {
                // A 256th distinct color would need index 256: capacity error,
                // and no partial palette or index buffer is handed out.
                proof {
                    assert(spec_palette(q.take(i as int + 1)).len() == 256);
                    lemma_palette_prefix(q, i as int + 1);
                }
                pallette_colors.clear();
                indices.clear();
                return Err(EncodeError::CapacityExceeded);
            }
            pallette_colors.push(p_bgr555);
            indices.push(pallette_colors.len() as u8);
        } else {
            let idx = get_idx_of_color(pallette_colors, &p_bgr555);
            indices.push(idx + 1);
        }
        i += 1;
    }
    proof {
        assert(q.take(pixels@.len() as int) =~= q);
    }
    Ok(())
}

/// The on-disk palette file: a fixed `FF FF` alpha slot, then each palette
/// color as two little-endian bytes, in palette order.
pub open spec fn spec_pallette_bytes(pal: Seq<u16>) -> Seq<u8> {
    Seq::new(
        2 + 2 * pal.len(),
        |i: int|
            if i < 2 {
                0xffu8
            } else if i % 2 == 0 {
                (pal[(i - 2) / 2] & 0xff) as u8
            } else {
                ((pal[(i - 2) / 2] & 0xff00) >> 8) as u8
            },
    )
}

/// Serializes the palette to the little-endian color-table format, prefixed
/// with the fixed alpha-slot color `0xFFFF`.
pub fn pallette_bytes(color_pallette: &Vec<u16>) -> (buffer: Vec<u8>)
    requires
        color_pallette@.len() <= 255,
    ensures
        buffer@ == spec_pallette_bytes(color_pallette@),
{
    // White (0xffff) fills the alpha slot, the first palette position.
    let mut buffer: Vec<u8> = Vec::new();
    buffer.push(0xff);
    buffer.push(0xff);

    let mut idx: usize = 0;
    while idx < color_pallette.len()
        invariant
            0 <= idx <= color_pallette@.len(),
            color_pallette@.len() <= 255,
            buffer@.len() == 2 + 2 * idx,
            forall|j: int|
                0 <= j < buffer@.len() ==> buffer@[j] == spec_pallette_bytes(color_pallette@)[j],
        decreases color_pallette@.len() - idx,
    {
        let bgr555_color = color_pallette[idx];
        let lsb: u8 = (bgr555_color & 0xff) as u8;
        let msb: u8 = ((bgr555_color & 0xff00) >> 8u16) as u8;
        buffer.push(lsb);
        buffer.push(msb);
        idx += 1;
    }
    proof {
        assert(buffer@ =~= spec_pallette_bytes(color_pallette@));
    }
    buffer
}

/// The red channel of a quantized color, expanded back to 8 bits.
pub open spec fn spec_bgr555_red(c: u16) -> u8 {
    ((c & 0x1f) << 3) as u8
}

/// The green channel of a quantized color, expanded back to 8 bits.
pub open spec fn spec_bgr555_green(c: u16) -> u8 {
    (((c >> 5) & 0x1f) << 3) as u8
}

/// The blue channel of a quantized color, expanded back to 8 bits.
pub open spec fn spec_bgr555_blue(c: u16) -> u8 {
    (((c >> 10) & 0x1f) << 3) as u8
}

/// Quantization is idempotent: expanding a quantized color back to 8-bit
/// channels and quantizing again gives the same quantized color.
pub proof fn lemma_quantization_idempotent(p: Pixel)
    ensures
        ({
            let q = spec_bgr555(p.r, p.g, p.b);
            spec_bgr555(spec_bgr555_red(q), spec_bgr555_green(q), spec_bgr555_blue(q)) == q
        }),
{
    let r = p.r;
    let g = p.g;
    let b = p.b;
    let q = spec_bgr555(r, g, b);
    assert(spec_bgr555(spec_bgr555_red(q), spec_bgr555_green(q), spec_bgr555_blue(q)) == q)
        by (bit_vector)
        requires
            q == spec_bgr555(r, g, b),
    ;
}

} // verus!
