use snes_image_encoder::bitplaning::{encode_snes_sprite, setup_bitplanes, transform_bitplanes};
use snes_image_encoder::EncodeError;

#[test]
fn test_bitplaning() {
    //Setup input indices and the expected output values of the bitplanes

    //Test indices, which make up the full test image
    //Only the first tile (top left) is correct, which is all we need for this test
    let input_indices: Vec<u8> = vec![
        1, 1, 1, 1, 1, 1, 1, 1, 1, 1, 1, 1, 1, 1, 1, 1,
        1, 1, 1, 1, 1, 1, 1, 1, 1, 1, 1, 1, 1, 1, 1, 1,
        1, 1, 2, 2, 2, 2, 2, 2, 1, 1, 1, 1, 1, 1, 1, 1,
        1, 1, 2, 2, 2, 2, 2, 2, 1, 1, 1, 1, 1, 1, 1, 1,
        1, 1, 2, 2, 2, 3, 3, 3, 1, 1, 1, 1, 1, 1, 1, 1,
        1, 1, 2, 2, 2, 3, 3, 3, 1, 1, 1, 1, 1, 1, 1, 1,
        1, 1, 2, 2, 2, 3, 3, 3, 1, 1, 1, 1, 1, 1, 1, 1,
        1, 1, 2, 2, 2, 3, 3, 4, 1, 1, 1, 1, 1, 1, 1, 1,
        1, 1, 1, 1, 1, 1, 1, 1, 1, 1, 1, 1, 1, 1, 1, 1,
        1, 1, 1, 1, 1, 1, 1, 1, 1, 1, 1, 1, 1, 1, 1, 1,
        1, 1, 1, 1, 1, 1, 1, 1, 1, 1, 1, 1, 1, 1, 1, 1,
        1, 1, 1, 1, 1, 1, 1, 1, 1, 1, 1, 1, 1, 1, 1, 1,
        1, 1, 1, 1, 1, 1, 1, 1, 1, 1, 1, 1, 1, 1, 1, 1,
        1, 1, 1, 1, 1, 1, 1, 1, 1, 1, 1, 1, 1, 1, 1, 1,
        1, 1, 1, 1, 1, 1, 1, 1, 1, 1, 1, 1, 1, 1, 1, 1,
        1, 1, 1, 1, 1, 1, 1, 1, 1, 1, 1, 1, 1, 1, 1, 1,
    ];

    //Since we only test the first tile
    //we onl got the bitplanes for the first tile here
    let exptected_bitplanes: Vec<Vec<u8>> = vec![vec![
        1, 1, 1, 1, 1, 1, 1, 1, 0, 0, 0, 0, 0, 0, 0, 0,
        1, 1, 1, 1, 1, 1, 1, 1, 0, 0, 0, 0, 0, 0, 0, 0,
        1, 1, 0, 0, 0, 0, 0, 0, 0, 0, 1, 1, 1, 1, 1, 1,
        1, 1, 0, 0, 0, 0, 0, 0, 0, 0, 1, 1, 1, 1, 1, 1,
        1, 1, 0, 0, 0, 1, 1, 1, 0, 0, 1, 1, 1, 1, 1, 1,
        1, 1, 0, 0, 0, 1, 1, 1, 0, 0, 1, 1, 1, 1, 1, 1,
        1, 1, 0, 0, 0, 1, 1, 1, 0, 0, 1, 1, 1, 1, 1, 1,
        1, 1, 0, 0, 0, 1, 1, 0, 0, 0, 1, 1, 1, 1, 1, 0,
        0, 0, 0, 0, 0, 0, 0, 0, 0, 0, 0, 0, 0, 0, 0, 0,
        0, 0, 0, 0, 0, 0, 0, 0, 0, 0, 0, 0, 0, 0, 0, 0,
        0, 0, 0, 0, 0, 0, 0, 0, 0, 0, 0, 0, 0, 0, 0, 0,
        0, 0, 0, 0, 0, 0, 0, 0, 0, 0, 0, 0, 0, 0, 0, 0,
        0, 0, 0, 0, 0, 0, 0, 0, 0, 0, 0, 0, 0, 0, 0, 0,
        0, 0, 0, 0, 0, 0, 0, 0, 0, 0, 0, 0, 0, 0, 0, 0,
        0, 0, 0, 0, 0, 0, 0, 0, 0, 0, 0, 0, 0, 0, 0, 0,
        0, 0, 0, 0, 0, 0, 0, 1, 0, 0, 0, 0, 0, 0, 0, 0,
    ]];

    //Setup test bitplanes
    //Currently only supporting 4bpp and 16x16 sprites
    let bpp: usize = 4;
    let mut test_bitplanes: Vec<Vec<u8>> = Vec::new();
    for _bit in 0..bpp {
        test_bitplanes.push(vec![0; 16 * 16]);
    }

    //Assuming a test image stride of 16 (since sprites are assumed to be 16x16).
    //Testing only the first tile (upper left tile).
    setup_bitplanes(&input_indices, &mut test_bitplanes, 16, 0);

    //Check if the output (bitplanes) are as expected.
    assert_eq!(exptected_bitplanes[0], test_bitplanes[0]);

    let bp0_bytes: [u8; 8] = [0xff, 0xff, 0xc0, 0xc0, 0xc7, 0xc7, 0xc7, 0xc6];
    let bp1_bytes: [u8; 8] = [0x0, 0x0, 0x3f, 0x3f, 0x3f, 0x3f, 0x3f, 0x3e];
    let bp2_bytes: [u8; 8] = [0x0, 0x0, 0x0, 0x0, 0x0, 0x0, 0x0, 0x01];
    let bp3_bytes: [u8; 8] = [0; 8];

    transform_bitplanes(test_bitplanes.get_mut(0).unwrap(), 16);

    let tile0 = test_bitplanes.get(0).unwrap();

    //Test bp0
    for idx in 0..8 {
        assert_eq!(tile0[idx * 16], bp0_bytes[idx]);
    }

    //Test bp1
    for idx in 0..8 {
        assert_eq!(tile0[idx * 16 + 8], bp1_bytes[idx]);
    }

    //Test bp2
    for idx in 0..8 {
        assert_eq!(tile0[(8 * 16) + (idx * 16)], bp2_bytes[idx]);
    }

    //Test bp3
    for idx in 0..8 {
        assert_eq!(tile0[(8 * 16) + (idx * 16) + 8], bp3_bytes[idx]);
    }
}

// The documented 16x16 test pattern, end to end through the encoder: one tile
// with the four index values 1..4 in a nested-box layout, the other tiles
// uniform index 1.
#[test]
fn test_sprite_stream_of_test_pattern() {
    let mut indices: Vec<u8> = vec![1; 256];
    // Tile 0's nested boxes: index 2 from (2,2), index 3 from (4,5), 4 at (7,7).
    for row in 2..8 {
        for col in 2..8 {
            indices[row * 16 + col] = 2;
        }
    }
    for row in 4..8 {
        for col in 5..8 {
            indices[row * 16 + col] = 3;
        }
    }
    indices[7 * 16 + 7] = 4;

    let stream = encode_snes_sprite(&indices, 16).unwrap();
    assert_eq!(stream.len(), 128);

    let bp0_bytes: [u8; 8] = [0xff, 0xff, 0xc0, 0xc0, 0xc7, 0xc7, 0xc7, 0xc6];
    let bp1_bytes: [u8; 8] = [0x0, 0x0, 0x3f, 0x3f, 0x3f, 0x3f, 0x3f, 0x3e];
    let bp2_bytes: [u8; 8] = [0x0, 0x0, 0x0, 0x0, 0x0, 0x0, 0x0, 0x01];
    let bp3_bytes: [u8; 8] = [0; 8];

    // Tile 0: bitplanes 0 and 1 interleaved per row, then bitplanes 2 and 3.
    for r in 0..8 {
        assert_eq!(stream[2 * r], bp0_bytes[r]);
        assert_eq!(stream[2 * r + 1], bp1_bytes[r]);
        assert_eq!(stream[16 + 2 * r], bp2_bytes[r]);
        assert_eq!(stream[16 + 2 * r + 1], bp3_bytes[r]);
    }

    // Tiles 1..4 are uniform index 1: bitplane 0 rows pack to 0xff, the rest 0.
    for t in 1..4 {
        for r in 0..8 {
            assert_eq!(stream[t * 32 + 2 * r], 0xff);
            assert_eq!(stream[t * 32 + 2 * r + 1], 0x00);
            assert_eq!(stream[t * 32 + 16 + 2 * r], 0x00);
            assert_eq!(stream[t * 32 + 16 + 2 * r + 1], 0x00);
        }
    }
}

// Packing round trip: unpacking a packed byte MSB-first across the 8 columns
// reproduces the raw bits the byte was built from.
#[test]
fn test_pack_unpack_row() {
    let mut scratch: Vec<u8> = vec![0; 256];
    let row_bits: [u8; 8] = [1, 0, 1, 1, 0, 0, 1, 0];
    for c in 0..8 {
        scratch[c] = row_bits[c]; // bitplane 0, row 0
    }
    transform_bitplanes(&mut scratch, 16);
    let packed = scratch[0];
    assert_eq!(packed, 0b1011_0010);
    for c in 0..8 {
        assert_eq!((packed >> (7 - c)) & 1, row_bits[c]);
    }
}

// The encoder rejects anything that is not a 16x16 index buffer, before any
// byte is produced.
#[test]
fn test_encoder_rejects_bad_shape() {
    let indices: Vec<u8> = vec![1; 64];
    assert_eq!(encode_snes_sprite(&indices, 8), Err(EncodeError::ShapeMismatch));
    assert_eq!(encode_snes_sprite(&indices, 16), Err(EncodeError::ShapeMismatch));
}
