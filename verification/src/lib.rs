//! Codec for a 16-bit console's sprite hardware: builds an indexed BGR555
//! color palette from a truecolor pixel grid and encodes the palette indices
//! as the console's tile-based, bitplane-interleaved 4bpp wire format.

use vstd::prelude::*;

pub mod bitplaning;
pub mod color_palletting;

use crate::bitplaning::{encode_snes_sprite, spec_sprite};
use crate::color_palletting::{
    create_pallette_and_indexing, lemma_palette_unique, pallette_bytes, quantized_seq,
    spec_palette, spec_pallette_bytes, Pixel,
};

verus! {

/// Failures of the codec, surfaced to the caller as inspectable values.
#[derive(Clone, Copy, Debug, PartialEq, Eq, Structural)]
pub enum EncodeError {
    /// The image has no pixels, so no usable palette can be produced.
    EmptyImage,
    /// More than 255 distinct quantized colors: 1-based indices no longer fit
    /// in a byte (index 0 is reserved for transparency).
    CapacityExceeded,
    /// The index buffer does not describe a 16x16 sprite.
    ShapeMismatch,
}

/// The index buffer of a quantized color sequence: for every pixel, the
/// 1-based position of its color in the (duplicate-free) palette.
pub open spec fn spec_indices(q: Seq<u16>) -> Seq<u8> {
    Seq::new(q.len(), |j: int| (spec_palette(q).index_of(q[j]) + 1) as u8)
}

/// Runs the whole codec on a pixel grid: quantizes every sample, builds the
/// palette and index buffer, and serializes both the palette file and the
/// sprite's planar byte stream. Either both outputs are produced in full, or
/// a single error and no bytes.
pub fn encode_image(pixels: &Vec<Pixel>) -> (r: Result<(Vec<u8>, Vec<u8>), EncodeError>)
    ensures
        pixels@.len() == 0 ==> r == Err::<(Vec<u8>, Vec<u8>), EncodeError>(
            EncodeError::EmptyImage,
        ),
        pixels@.len() != 0 && pixels@.len() != 256 ==> r == Err::<(Vec<u8>, Vec<u8>), EncodeError>(
            EncodeError::ShapeMismatch,
        ),
        pixels@.len() == 256 && spec_palette(quantized_seq(pixels@)).len() > 255 ==> r == Err::<
            (Vec<u8>, Vec<u8>),
            EncodeError,
        >(EncodeError::CapacityExceeded),
        pixels@.len() == 256 && spec_palette(quantized_seq(pixels@)).len() <= 255 ==> ({
            &&& r is Ok
            &&& r.unwrap().0@ == spec_pallette_bytes(spec_palette(quantized_seq(pixels@)))
            &&& r.unwrap().1@ == spec_sprite(spec_indices(quantized_seq(pixels@)))
        }),
{
    if pixels.len() == 0 {
        return Err(EncodeError::EmptyImage);
    }
    if pixels.len() != 256 {
        return Err(EncodeError::ShapeMismatch);
    }

    let mut pallette_colors: Vec<u16> = Vec::new();
    let mut indices: Vec<u8> = Vec::new();
    match create_pallette_and_indexing(pixels, &mut pallette_colors, &mut indices) {
        Ok(()) => (),
        Err(_) => {
            return Err(EncodeError::CapacityExceeded);
        },
    }

    proof {
        let q = quantized_seq(pixels@);
        lemma_palette_unique(q);
        let pal = spec_palette(q);
        assert forall|j: int| 0 <= j < q.len() implies indices@[j] == spec_indices(q)[j] by {
            let v = indices@[j] as int;
            assert(pal[v - 1] == q[j]);
            assert(pal.contains(q[j]));
            let i0 = pal.index_of(q[j]);
            assert(0 <= i0 < pal.len() && pal[i0] == q[j]);
        }
        assert(indices@ =~= spec_indices(q));
    }

    let pal_file = pallette_bytes(&pallette_colors);
    let sprite = match encode_snes_sprite(&indices, 16) {
        Ok(s) => s,
        Err(_) => {
            proof {
                assert(false);
            }
            return Err(EncodeError::ShapeMismatch);
        },
    };
    Ok((pal_file, sprite))
}

/// Encoding is deterministic: both output byte streams are functions of the
/// pixel grid alone, so encoding the same grid twice yields byte-identical
/// palette and sprite data.
pub proof fn lemma_encode_deterministic(a: Seq<Pixel>, b: Seq<Pixel>)
    requires
        a == b,
    ensures
        spec_pallette_bytes(spec_palette(quantized_seq(a))) == spec_pallette_bytes(
            spec_palette(quantized_seq(b)),
        ),
        spec_sprite(spec_indices(quantized_seq(a))) == spec_sprite(spec_indices(quantized_seq(b))),
{
}

} // verus!
