use image_conv::padding;
use image_conv::Image;

/// A 2 x 2 image whose four pixels carry distinct RGBA values.
fn sample_2x2() -> Image {
    let data: Vec<u8> = vec![
        10, 11, 12, 13, // (0, 0)
        20, 21, 22, 23, // (0, 1)
        30, 31, 32, 33, // (1, 0)
        40, 41, 42, 43, // (1, 1)
    ];
    Image::new(data, 2, 2)
}

fn pixel(img: &Image, r: u32, c: u32) -> [u8; 4] {
    let base = ((r * img.width + c) * 4) as usize;
    [img.data[base], img.data[base + 1], img.data[base + 2], img.data[base + 3]]
}

const BLACK: [u8; 4] = [0, 0, 0, 255];

#[test]
fn test_uniform_dimensions_and_border() {
    let img = sample_2x2();
    let padded = padding::uniform(&img, 1);
    assert_eq!(padded.width, 4);
    assert_eq!(padded.height, 4);
    assert_eq!(padded.data.len(), 4 * 4 * 4);
    // The whole 1-pixel ring is opaque black.
    for r in 0..4u32 {
        for c in 0..4u32 {
            if r == 0 || r == 3 || c == 0 || c == 3 {
                assert_eq!(pixel(&padded, r, c), BLACK);
            }
        }
    }
    // The interior is the source image, shifted by one.
    assert_eq!(pixel(&padded, 1, 1), [10, 11, 12, 13]);
    assert_eq!(pixel(&padded, 1, 2), [20, 21, 22, 23]);
    assert_eq!(pixel(&padded, 2, 1), [30, 31, 32, 33]);
    assert_eq!(pixel(&padded, 2, 2), [40, 41, 42, 43]);
}

#[test]
fn test_uniform_zero_is_identity() {
    let img = sample_2x2();
    let padded = padding::uniform(&img, 0);
    assert_eq!(padded.width, 2);
    assert_eq!(padded.height, 2);
    assert_eq!(padded.data, img.data);
}

#[test]
fn test_pad_left() {
    let img = sample_2x2();
    let padded = padding::left(&img, 2);
    assert_eq!(padded.width, 4);
    assert_eq!(padded.height, 2);
    assert_eq!(pixel(&padded, 0, 0), BLACK);
    assert_eq!(pixel(&padded, 0, 1), BLACK);
    assert_eq!(pixel(&padded, 0, 2), [10, 11, 12, 13]);
    assert_eq!(pixel(&padded, 0, 3), [20, 21, 22, 23]);
    assert_eq!(pixel(&padded, 1, 2), [30, 31, 32, 33]);
    assert_eq!(pixel(&padded, 1, 3), [40, 41, 42, 43]);
}

#[test]
fn test_pad_right() {
    let img = sample_2x2();
    let padded = padding::right(&img, 1);
    assert_eq!(padded.width, 3);
    assert_eq!(padded.height, 2);
    assert_eq!(pixel(&padded, 0, 0), [10, 11, 12, 13]);
    assert_eq!(pixel(&padded, 0, 1), [20, 21, 22, 23]);
    assert_eq!(pixel(&padded, 0, 2), BLACK);
    assert_eq!(pixel(&padded, 1, 0), [30, 31, 32, 33]);
    assert_eq!(pixel(&padded, 1, 1), [40, 41, 42, 43]);
    assert_eq!(pixel(&padded, 1, 2), BLACK);
}

#[test]
fn test_pad_top() {
    let img = sample_2x2();
    let padded = padding::top(&img, 1);
    assert_eq!(padded.width, 2);
    assert_eq!(padded.height, 3);
    assert_eq!(pixel(&padded, 0, 0), BLACK);
    assert_eq!(pixel(&padded, 0, 1), BLACK);
    assert_eq!(pixel(&padded, 1, 0), [10, 11, 12, 13]);
    assert_eq!(pixel(&padded, 2, 1), [40, 41, 42, 43]);
}

#[test]
fn test_pad_bottom() {
    let img = sample_2x2();
    let padded = padding::bottom(&img, 1);
    assert_eq!(padded.width, 2);
    assert_eq!(padded.height, 3);
    assert_eq!(pixel(&padded, 0, 0), [10, 11, 12, 13]);
    assert_eq!(pixel(&padded, 1, 1), [40, 41, 42, 43]);
    assert_eq!(pixel(&padded, 2, 0), BLACK);
    assert_eq!(pixel(&padded, 2, 1), BLACK);
}

#[test]
fn test_pad_left_then_right() {
    // padLeft followed by padRight with the same amount: width grows by
    // 2n, height is unchanged, n black columns on each side, interior
    // untouched.
    let img = sample_2x2();
    let out = padding::right(&padding::left(&img, 1), 1);
    assert_eq!(out.width, 4);
    assert_eq!(out.height, 2);
    for r in 0..2u32 {
        assert_eq!(pixel(&out, r, 0), BLACK);
        assert_eq!(pixel(&out, r, 3), BLACK);
    }
    assert_eq!(pixel(&out, 0, 1), [10, 11, 12, 13]);
    assert_eq!(pixel(&out, 0, 2), [20, 21, 22, 23]);
    assert_eq!(pixel(&out, 1, 1), [30, 31, 32, 33]);
    assert_eq!(pixel(&out, 1, 2), [40, 41, 42, 43]);
}
