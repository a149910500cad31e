use snes_image_encoder::color_palletting::Pixel;
use snes_image_encoder::{encode_image, EncodeError};

// A uniform 16x16 image: one palette entry, every index 1, bitplane 0 packs
// to 0xff everywhere and bitplanes 1..4 to 0x00.
#[test]
fn test_uniform_image() {
    let pixels: Vec<Pixel> = vec![Pixel { r: 8, g: 16, b: 24 }; 256];
    let (pal_file, sprite) = encode_image(&pixels).unwrap();
    // quantized: (8>>3) | (16>>3)<<5 | (24>>3)<<10 = 1 | 2<<5 | 3<<10 = 0x0c41
    assert_eq!(pal_file, vec![0xff, 0xff, 0x41, 0x0c]);
    assert_eq!(sprite.len(), 128);
    for t in 0..4 {
        for r in 0..8 {
            assert_eq!(sprite[t * 32 + 2 * r], 0xff);
            assert_eq!(sprite[t * 32 + 2 * r + 1], 0x00);
            assert_eq!(sprite[t * 32 + 16 + 2 * r], 0x00);
            assert_eq!(sprite[t * 32 + 16 + 2 * r + 1], 0x00);
        }
    }
}

// Encoding the same pixel grid twice yields byte-identical output.
#[test]
fn test_encode_deterministic() {
    let mut pixels: Vec<Pixel> = Vec::new();
    for i in 0..256usize {
        pixels.push(Pixel { r: (i % 41) as u8, g: (i % 17) as u8, b: (i % 97) as u8 });
    }
    let first = encode_image(&pixels).unwrap();
    let second = encode_image(&pixels).unwrap();
    assert_eq!(first, second);
}

// The palette file of a 2-color image: alpha slot, then the two colors little
// endian in first-seen order.
#[test]
fn test_two_color_palette_file() {
    let mut pixels: Vec<Pixel> = vec![Pixel { r: 0, g: 0, b: 248 }; 256];
    for i in 128..256 {
        pixels[i] = Pixel { r: 248, g: 0, b: 0 };
    }
    let (pal_file, _sprite) = encode_image(&pixels).unwrap();
    assert_eq!(pal_file, vec![0xff, 0xff, 0x00, 0x7c, 0x1f, 0x00]);
}

// An image with 256 distinct quantized colors raises the capacity error and
// produces no bytes.
#[test]
fn test_encode_capacity_error() {
    let mut pixels: Vec<Pixel> = Vec::new();
    for i in 0..256usize {
        pixels.push(Pixel { r: ((i % 32) * 8) as u8, g: ((i / 32) * 8) as u8, b: 0 });
    }
    assert_eq!(encode_image(&pixels), Err(EncodeError::CapacityExceeded));
}

// An empty image is a reportable failure, not an empty palette file.
#[test]
fn test_encode_empty_image() {
    let pixels: Vec<Pixel> = Vec::new();
    assert_eq!(encode_image(&pixels), Err(EncodeError::EmptyImage));
}

// Any grid that is not 16x16 is rejected before encoding.
#[test]
fn test_encode_shape_mismatch() {
    let pixels: Vec<Pixel> = vec![Pixel { r: 0, g: 0, b: 0 }; 64];
    assert_eq!(encode_image(&pixels), Err(EncodeError::ShapeMismatch));
}
