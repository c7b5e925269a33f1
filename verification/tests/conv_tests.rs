use image_conv::conv;
use image_conv::{ConvError, Filter, Image, PaddingType};

/// A w x h image every pixel of which is the given RGBA value.
fn solid(width: u32, height: u32, px: [u8; 4]) -> Image {
    let mut data: Vec<u8> = Vec::new();
    for _ in 0..width * height {
        data.extend_from_slice(&px);
    }
    Image::new(data, width, height)
}

fn pixel(img: &Image, r: u32, c: u32) -> [u8; 4] {
    let base = ((r * img.width + c) * 4) as usize;
    [img.data[base], img.data[base + 1], img.data[base + 2], img.data[base + 3]]
}

#[test]
fn test_invalid_stride() {
    // A stride of zero must fail before anything else happens.
    let img = solid(4, 4, [50, 60, 70, 255]);
    let filter = Filter::from(vec![1], 1, 1).unwrap();
    let result = conv::convolution(&img, filter, 0, PaddingType::NONE);
    assert_eq!(result.unwrap_err(), ConvError::InvalidStride);
}

#[test]
fn test_resolve_dimensions_rejects_zero_stride() {
    let filter = Filter::from(vec![1], 1, 1).unwrap();
    let result = conv::resolve_output_dimensions(4, 4, &filter, 0, &PaddingType::NONE);
    assert_eq!(result.unwrap_err(), ConvError::InvalidStride);
}

#[test]
fn test_kernel_wider_than_high() {
    // A 3 x 2 kernel reads position 2 * 3 + 0 = 6 of its 6 weights during
    // traversal, so the engine reports the out-of-range kernel index.
    let img = solid(5, 5, [100, 100, 100, 255]);
    let filter = Filter::from(vec![1, 0, -1, 2, 0, -2], 3, 2).unwrap();
    let result = conv::convolution(&img, filter, 1, PaddingType::NONE);
    assert_eq!(result.unwrap_err(), ConvError::FilterIndexOutOfRange);
}

#[test]
fn test_identity_filter() {
    // A 1 x 1 weight-one filter with stride 1 and no padding reproduces
    // the RGB channels of every pixel and forces alpha to 255.
    let data: Vec<u8> = vec![
        10, 11, 12, 13, //
        20, 21, 22, 23, //
        30, 31, 32, 33, //
        40, 41, 42, 43,
    ];
    let img = Image::new(data, 2, 2);
    let filter = Filter::from(vec![1], 1, 1).unwrap();
    let out = conv::convolution(&img, filter, 1, PaddingType::NONE).unwrap();
    assert_eq!(out.width, 2);
    assert_eq!(out.height, 2);
    assert_eq!(pixel(&out, 0, 0), [10, 11, 12, 255]);
    assert_eq!(pixel(&out, 0, 1), [20, 21, 22, 255]);
    assert_eq!(pixel(&out, 1, 0), [30, 31, 32, 255]);
    assert_eq!(pixel(&out, 1, 1), [40, 41, 42, 255]);
}

#[test]
fn test_identity_filter_scaled() {
    // Weight one expressed as 9 / 9 behaves exactly like 1 / 1.
    let img = solid(3, 3, [77, 88, 99, 0]);
    let filter = Filter::from_scaled(vec![9], 1, 1, 9).unwrap();
    let out = conv::convolution(&img, filter, 1, PaddingType::NONE).unwrap();
    for r in 0..3 {
        for c in 0..3 {
            assert_eq!(pixel(&out, r, c), [77, 88, 99, 255]);
        }
    }
}

#[test]
fn test_average_gray_uniform_padding() {
    // A 5 x 5 uniform-gray image, padded with Uniform(1) and convolved
    // with the 3 x 3 averaging filter (all weights 1/9) at stride 1:
    // every interior output pixel reproduces the gray value exactly; at
    // the border the window sees black padding pixels, so the weighted
    // sum covers 4 gray pixels in the corners and 6 along the edges.
    let gray: u8 = 120;
    let img = solid(5, 5, [gray, gray, gray, 255]);
    let filter = Filter::from_scaled(vec![1; 9], 3, 3, 9).unwrap();
    let out = conv::convolution(&img, filter, 1, PaddingType::UNIFORM(1)).unwrap();
    assert_eq!(out.width, 5);
    assert_eq!(out.height, 5);
    for r in 0..5u32 {
        for c in 0..5u32 {
            let on_corner = (r == 0 || r == 4) && (c == 0 || c == 4);
            let on_edge = r == 0 || r == 4 || c == 0 || c == 4;
            let expected: u8 = if on_corner {
                (4 * gray as u32 / 9) as u8 // 480 / 9 = 53
            } else if on_edge {
                (6 * gray as u32 / 9) as u8 // 720 / 9 = 80
            } else {
                gray
            };
            assert_eq!(pixel(&out, r, c), [expected, expected, expected, 255]);
        }
    }
}

#[test]
fn test_clamping_and_alpha() {
    // Negative sums clamp to 0 and oversized sums clamp to 255; alpha is
    // always exactly 255 whatever the weights are.
    let img = solid(3, 3, [200, 5, 128, 7]);
    let negative = Filter::from(vec![-1], 1, 1).unwrap();
    let out = conv::convolution(&img, negative, 1, PaddingType::NONE).unwrap();
    for r in 0..3 {
        for c in 0..3 {
            assert_eq!(pixel(&out, r, c), [0, 0, 0, 255]);
        }
    }
    let amplifying = Filter::from(vec![300], 1, 1).unwrap();
    let out = conv::convolution(&img, amplifying, 1, PaddingType::NONE).unwrap();
    for r in 0..3 {
        for c in 0..3 {
            // 200 * 300 and 128 * 300 exceed 255; 5 * 300 = 1500 does too.
            assert_eq!(pixel(&out, r, c), [255, 255, 255, 255]);
        }
    }
}

#[test]
fn test_gaussian_preserves_constant_interior() {
    // The classic 5 x 5 Gaussian kernel with divisor 273 is normalized:
    // its weights sum to the divisor, so wherever the window covers only
    // source pixels of one value, that value comes back exactly.
    let gaussian: Vec<i32> = vec![
        1, 4, 7, 4, 1, //
        4, 16, 26, 16, 4, //
        7, 26, 41, 26, 7, //
        4, 16, 26, 16, 4, //
        1, 4, 7, 4, 1,
    ];
    assert_eq!(gaussian.iter().sum::<i32>(), 273);
    let filter = Filter::from_scaled(gaussian, 5, 5, 273).unwrap();
    let img = solid(7, 7, [90, 140, 200, 255]);
    let out = conv::convolution(&img, filter, 1, PaddingType::UNIFORM(2)).unwrap();
    assert_eq!(out.width, 7);
    assert_eq!(out.height, 7);
    // Output pixels whose window lies fully inside the source: rows and
    // columns 2 through 4.
    for r in 2..5u32 {
        for c in 2..5u32 {
            assert_eq!(pixel(&out, r, c), [90, 140, 200, 255]);
        }
    }
}

#[test]
fn test_output_dimension_formula() {
    // outW = floor((W - Fw + 2P) / S) + 1, and the per-dimension stride
    // mismatch warning is set exactly when S does not divide the extent.
    let filter = Filter::from(vec![0; 6], 2, 3).unwrap();
    let dims = conv::resolve_output_dimensions(7, 9, &filter, 2, &PaddingType::NONE).unwrap();
    assert_eq!(dims.width, (7 - 2) / 2 + 1); // 3
    assert_eq!(dims.height, (9 - 3) / 2 + 1); // 4
    assert!(dims.width_stride_mismatch); // 5 % 2 != 0
    assert!(!dims.height_stride_mismatch); // 6 % 2 == 0

    let dims = conv::resolve_output_dimensions(7, 9, &filter, 1, &PaddingType::UNIFORM(2)).unwrap();
    assert_eq!(dims.width, 7 - 2 + 4 + 1); // 10
    assert_eq!(dims.height, 9 - 3 + 4 + 1); // 11
    assert!(!dims.width_stride_mismatch);
    assert!(!dims.height_stride_mismatch);
}

#[test]
fn test_stride_two() {
    // With stride 2 the window lands on every other source pixel.
    let mut data: Vec<u8> = Vec::new();
    for i in 0..16u32 {
        let v = (i * 10) as u8;
        data.extend_from_slice(&[v, v, v, 255]);
    }
    let img = Image::new(data, 4, 4);
    let filter = Filter::from(vec![1], 1, 1).unwrap();
    let out = conv::convolution(&img, filter, 2, PaddingType::NONE).unwrap();
    assert_eq!(out.width, 2);
    assert_eq!(out.height, 2);
    assert_eq!(pixel(&out, 0, 0), [0, 0, 0, 255]); // source (0, 0)
    assert_eq!(pixel(&out, 0, 1), [20, 20, 20, 255]); // source (0, 2)
    assert_eq!(pixel(&out, 1, 0), [80, 80, 80, 255]); // source (2, 0)
    assert_eq!(pixel(&out, 1, 1), [100, 100, 100, 255]); // source (2, 2)
}

#[test]
fn test_sobel_horizontal_edge() {
    // A vertical step from dark (left two columns) to bright (right two
    // columns), convolved with the horizontal Sobel kernel without
    // padding: the single output column sits on the step and sums to
    // (10 - 90) * 4 = -320, which clamps to 0.
    let mut data: Vec<u8> = Vec::new();
    for _r in 0..4u32 {
        for c in 0..4u32 {
            let v: u8 = if c < 2 { 10 } else { 90 };
            data.extend_from_slice(&[v, v, v, 255]);
        }
    }
    let img = Image::new(data, 4, 4);
    let sobel_x = Filter::from(vec![1, 0, -1, 2, 0, -2, 1, 0, -1], 3, 3).unwrap();
    let out = conv::convolution(&img, sobel_x, 1, PaddingType::NONE).unwrap();
    assert_eq!(out.width, 2);
    assert_eq!(out.height, 2);
    for r in 0..2 {
        for c in 0..2 {
            assert_eq!(pixel(&out, r, c), [0, 0, 0, 255]);
        }
    }
}

#[test]
fn test_convolve_sentinel_fill() {
    // Asking the engine for more output cells than fitting windows exist
    // fills the excess cells with the opaque white sentinel.
    let img = solid(3, 3, [10, 20, 30, 255]);
    let filter = Filter::from(vec![1, 1, 1, 1], 2, 2).unwrap();
    let out = conv::convolve(&img, &filter, 3, 3, 1).unwrap();
    assert_eq!(out.width, 3);
    assert_eq!(out.height, 3);
    for r in 0..3u32 {
        for c in 0..3u32 {
            let expected: [u8; 4] = if r < 2 && c < 2 {
                [40, 80, 120, 255] // four pixels summed per channel
            } else {
                [255, 255, 255, 255]
            };
            assert_eq!(pixel(&out, r, c), expected);
        }
    }
}

#[test]
fn test_empty_filter_dimension() {
    // A filter with zero width contributes no terms: every output pixel
    // is opaque black.
    let img = solid(3, 3, [10, 20, 30, 255]);
    let filter = Filter::new(0, 2);
    let out = conv::convolution(&img, filter, 1, PaddingType::NONE).unwrap();
    assert_eq!(out.width, 4); // (3 - 0) / 1 + 1
    assert_eq!(out.height, 2); // (3 - 2) / 1 + 1
    for r in 0..2u32 {
        for c in 0..4u32 {
            assert_eq!(pixel(&out, r, c), [0, 0, 0, 255]);
        }
    }
}
