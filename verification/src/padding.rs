//! Border-extension strategies: each takes an image and a padding amount
//! and returns a new, larger image whose added border pixels are opaque
//! black (R = G = B = 0, A = 255). The source image is never mutated; a
//! padding amount of 0 degenerates to an identity copy.

use vstd::prelude::*;

use crate::{lemma_grid_index_bounds, lemma_pixel_index_decompose, Image};
use vstd::arithmetic::div_mod::lemma_multiply_divide_lt;

verus! {

/// Byte value of channel `k` in an opaque black border pixel.
pub open spec fn border_byte(k: int) -> u8 {
    if k == 3 {
        255u8
    } else {
        0u8
    }
}

/// Byte `i` of a `w` x `h` image `src` padded with `n` border pixels on
/// all four sides: bytes of the interior come from the source pixel `n`
/// rows up and `n` columns left, the rest belong to border pixels.
pub open spec fn pad_uniform_byte(src: Seq<u8>, w: int, h: int, n: int, i: int) -> u8 {
    let wp = w + 2 * n;
    let p = i / 4;
    let k = i % 4;
    let r = p / wp;
    let c = p % wp;
    if n <= r < n + h && n <= c < n + w {
        src[((r - n) * w + (c - n)) * 4 + k]
    } else {
        border_byte(k)
    }
}

/// The whole byte buffer of a `w` x `h` image `src` padded with `n`
/// border pixels on all four sides.
pub open spec fn pad_seq_uniform(src: Seq<u8>, w: int, h: int, n: int) -> Seq<u8> {
    Seq::new((((w + 2 * n) * (h + 2 * n)) * 4) as nat, |i: int| pad_uniform_byte(src, w, h, n, i))
}

/// Adds `n` border pixels on all four sides: every row of the result is
/// flanked by `n` border pixels on each side and the whole grid by `n`
/// border rows top and bottom.
#[verifier::loop_isolation(false)]
pub fn uniform(img: &Image, padding: u32) -> (out: Image)
    requires
        img.wf(),
        img.width + 2 * padding <= u32::MAX,
        img.height + 2 * padding <= u32::MAX,
        (img.width + 2 * padding) * (img.height + 2 * padding) * 4 <= usize::MAX,
    ensures
        out.width == img.width + 2 * padding,
        out.height == img.height + 2 * padding,
        out.wf(),
        out.data@ == pad_seq_uniform(img.data@, img.width as int, img.height as int, padding as int),
        forall|r: int, c: int, k: int|
            0 <= r < out.height && 0 <= c < out.width && 0 <= k < 4 ==> #[trigger] out.chan(r, c, k)
                == (if padding <= r < padding + img.height && padding <= c < padding + img.width {
                img.chan(r - padding, c - padding, k)
            } else {
                border_byte(k)
            }),
{
    let w: usize = img.width as usize;
    let h: usize = img.height as usize;
    let n: usize = padding as usize;
    let wp: usize = w + 2 * n;
    let hp: usize = h + 2 * n;
    let total: usize = wp * hp * 4;
    let src_len: usize = img.data.len();
    let mut buf: Vec<u8> = Vec::new();
    let mut i: usize = 0;
    while i < total
        invariant
            i <= total,
            buf@.len() == i,
            forall|j: int|
                0 <= j < i ==> #[trigger] buf@[j] == pad_uniform_byte(
                    img.data@,
                    w as int,
                    h as int,
                    n as int,
                    j,
                ),
        decreases total - i,
    {
        proof {
            assert(wp >= 1 && hp >= 1) by (nonlinear_arith)
                requires
                    i < total,
                    total == wp * hp * 4,
                    0 <= wp,
                    0 <= hp,
            ;
            assert(i < 4 * (wp * hp) && wp * hp <= wp * hp * 4) by (nonlinear_arith)
                requires
                    i < total,
                    total == wp * hp * 4,
                    1 <= wp,
                    1 <= hp,
            ;
            lemma_multiply_divide_lt(i as int, 4, wp * hp);
            lemma_multiply_divide_lt((i / 4) as int, wp as int, hp as int);
        }
        let p: usize = i / 4;
        let k: usize = i % 4;
        let r: usize = p / wp;
        let c: usize = p % wp;
        let byte: u8 = if n <= r && r < n + h && n <= c && c < n + w {
            proof {
                lemma_grid_index_bounds(w as int, h as int, r - n, c - n);
            }
            let src_idx: usize = ((r - n) * w + (c - n)) * 4 + k;
            img.data[src_idx]
        } else {
            if k == 3 {
                255
            } else {
                0
            }
        };
        proof {
            assert(byte == pad_uniform_byte(img.data@, w as int, h as int, n as int, i as int));
        }
        buf.push(byte);
        i = i + 1;
    }
    let width_padded: u32 = img.width + 2 * padding;
    let height_padded: u32 = img.height + 2 * padding;
    let out = Image { width: width_padded, height: height_padded, data: buf };
    proof {
        assert(out.data@ =~= pad_seq_uniform(
            img.data@,
            img.width as int,
            img.height as int,
            padding as int,
        ));
        assert forall|r: int, c: int, k: int|
            0 <= r < out.height && 0 <= c < out.width && 0 <= k < 4 implies #[trigger] out.chan(r, c, k)
            == (if padding <= r < padding + img.height && padding <= c < padding + img.width {
            img.chan(r - padding, c - padding, k)
        } else {
            border_byte(k)
        }) by {
            lemma_grid_index_bounds(wp as int, hp as int, r, c);
            lemma_pixel_index_decompose(wp as int, r, c, k);
        }
    }
    out
}

/// Law: a padding amount of 0 degenerates to the identity; the uniformly
/// padded buffer is the source buffer itself.
pub proof fn lemma_pad_zero_identity(src: Seq<u8>, w: int, h: int)
    requires
        0 <= w,
        0 <= h,
        src.len() == w * h * 4,
    ensures
        pad_seq_uniform(src, w, h, 0) == src,
{
    let padded = pad_seq_uniform(src, w, h, 0);
    assert(padded.len() == src.len());
    assert forall|i: int| 0 <= i < src.len() implies padded[i] == src[i] by {
        assert(w >= 1 && h >= 1) by (nonlinear_arith)
            requires
                0 <= w,
                0 <= h,
                0 <= i < w * h * 4,
        ;
        assert(i < 4 * (w * h)) by (nonlinear_arith)
            requires
                i < w * h * 4,
        ;
        lemma_multiply_divide_lt(i, 4, w * h);
        lemma_multiply_divide_lt(i / 4, w, h);
        let p = i / 4;
        let k = i % 4;
        let r = p / w;
        let c = p % w;
        vstd::arithmetic::div_mod::lemma_div_pos_is_pos(i, 4);
        vstd::arithmetic::div_mod::lemma_div_pos_is_pos(p, w);
        vstd::arithmetic::div_mod::lemma_mod_division_less_than_divisor(i, 4);
        vstd::arithmetic::div_mod::lemma_mod_division_less_than_divisor(p, w);
        vstd::arithmetic::div_mod::lemma_fundamental_div_mod(i, 4);
        vstd::arithmetic::div_mod::lemma_fundamental_div_mod(p, w);
        assert(w * r == r * w) by (nonlinear_arith);
        assert(i == (r * w + c) * 4 + k);
    }
    assert(padded =~= src);
}

/// Byte `i` of a `w`-wide image `src` with `n` border pixels added to the
/// left of every row.
pub open spec fn pad_left_byte(src: Seq<u8>, w: int, n: int, i: int) -> u8 {
    let wp = w + n;
    let p = i / 4;
    let k = i % 4;
    let r = p / wp;
    let c = p % wp;
    if n <= c {
        src[(r * w + (c - n)) * 4 + k]
    } else {
        border_byte(k)
    }
}

/// Adds `n` border pixels to the left of every row; the height is
/// unchanged and the width grows by `n`.
#[verifier::loop_isolation(false)]
pub fn left(img: &Image, padding: u32) -> (out: Image)
    requires
        img.wf(),
        img.width + padding <= u32::MAX,
        (img.width + padding) * img.height * 4 <= usize::MAX,
    ensures
        out.width == img.width + padding,
        out.height == img.height,
        out.wf(),
        forall|r: int, c: int, k: int|
            0 <= r < out.height && 0 <= c < out.width && 0 <= k < 4 ==> #[trigger] out.chan(r, c, k)
                == (if c < padding {
                border_byte(k)
            } else {
                img.chan(r, c - padding, k)
            }),
{
    let w: usize = img.width as usize;
    let h: usize = img.height as usize;
    let n: usize = padding as usize;
    let wp: usize = w + n;
    let total: usize = wp * h * 4;
    let src_len: usize = img.data.len();
    let mut buf: Vec<u8> = Vec::new();
    let mut i: usize = 0;
    while i < total
        invariant
            i <= total,
            buf@.len() == i,
            forall|j: int|
                0 <= j < i ==> #[trigger] buf@[j] == pad_left_byte(img.data@, w as int, n as int, j),
        decreases total - i,
    {
        proof {
            assert(wp >= 1 && h >= 1) by (nonlinear_arith)
                requires
                    i < total,
                    total == wp * h * 4,
                    0 <= wp,
                    0 <= h,
            ;
            assert(i < 4 * (wp * h)) by (nonlinear_arith)
                requires
                    i < total,
                    total == wp * h * 4,
            ;
            lemma_multiply_divide_lt(i as int, 4, wp * h);
            lemma_multiply_divide_lt((i / 4) as int, wp as int, h as int);
        }
        let p: usize = i / 4;
        let k: usize = i % 4;
        let r: usize = p / wp;
        let c: usize = p % wp;
        let byte: u8 = if n <= c {
            proof {
                lemma_grid_index_bounds(w as int, h as int, r as int, c - n);
            }
            let src_idx: usize = (r * w + (c - n)) * 4 + k;
            img.data[src_idx]
        } else {
            if k == 3 {
                255
            } else {
                0
            }
        };
        proof {
            assert(byte == pad_left_byte(img.data@, w as int, n as int, i as int));
        }
        buf.push(byte);
        i = i + 1;
    }
    let width_padded: u32 = img.width + padding;
    let out = Image { width: width_padded, height: img.height, data: buf };
    proof {
        assert forall|r: int, c: int, k: int|
            0 <= r < out.height && 0 <= c < out.width && 0 <= k < 4 implies #[trigger] out.chan(r, c, k)
            == (if c < padding {
            border_byte(k)
        } else {
            img.chan(r, c - padding, k)
        }) by {
            lemma_grid_index_bounds(wp as int, h as int, r, c);
            lemma_pixel_index_decompose(wp as int, r, c, k);
        }
    }
    out
}

/// Byte `i` of a `w`-wide image `src` with `n` border pixels added to the
/// right of every row.
pub open spec fn pad_right_byte(src: Seq<u8>, w: int, n: int, i: int) -> u8 {
    let wp = w + n;
    let p = i / 4;
    let k = i % 4;
    let r = p / wp;
    let c = p % wp;
    if c < w {
        src[(r * w + c) * 4 + k]
    } else {
        border_byte(k)
    }
}

/// Adds `n` border pixels to the right of every row; the height is
/// unchanged and the width grows by `n`.
#[verifier::loop_isolation(false)]
pub fn right(img: &Image, padding: u32) -> (out: Image)
    requires
        img.wf(),
        img.width + padding <= u32::MAX,
        (img.width + padding) * img.height * 4 <= usize::MAX,
    ensures
        out.width == img.width + padding,
        out.height == img.height,
        out.wf(),
        forall|r: int, c: int, k: int|
            0 <= r < out.height && 0 <= c < out.width && 0 <= k < 4 ==> #[trigger] out.chan(r, c, k)
                == (if c < img.width {
                img.chan(r, c, k)
            } else {
                border_byte(k)
            }),
{
    let w: usize = img.width as usize;
    let h: usize = img.height as usize;
    let n: usize = padding as usize;
    let wp: usize = w + n;
    let total: usize = wp * h * 4;
    let src_len: usize = img.data.len();
    let mut buf: Vec<u8> = Vec::new();
    let mut i: usize = 0;
    while i < total
        invariant
            i <= total,
            buf@.len() == i,
            forall|j: int|
                0 <= j < i ==> #[trigger] buf@[j] == pad_right_byte(img.data@, w as int, n as int, j),
        decreases total - i,
    {
        proof {
            assert(wp >= 1 && h >= 1) by (nonlinear_arith)
                requires
                    i < total,
                    total == wp * h * 4,
                    0 <= wp,
                    0 <= h,
            ;
            assert(i < 4 * (wp * h)) by (nonlinear_arith)
                requires
                    i < total,
                    total == wp * h * 4,
            ;
            lemma_multiply_divide_lt(i as int, 4, wp * h);
            lemma_multiply_divide_lt((i / 4) as int, wp as int, h as int);
        }
        let p: usize = i / 4;
        let k: usize = i % 4;
        let r: usize = p / wp;
        let c: usize = p % wp;
        let byte: u8 = if c < w {
            proof {
                lemma_grid_index_bounds(w as int, h as int, r as int, c as int);
            }
            let src_idx: usize = (r * w + c) * 4 + k;
            img.data[src_idx]
        } else {
            if k == 3 {
                255
            } else {
                0
            }
        };
        proof {
            assert(byte == pad_right_byte(img.data@, w as int, n as int, i as int));
        }
        buf.push(byte);
        i = i + 1;
    }
    let width_padded: u32 = img.width + padding;
    let out = Image { width: width_padded, height: img.height, data: buf };
    proof {
        assert forall|r: int, c: int, k: int|
            0 <= r < out.height && 0 <= c < out.width && 0 <= k < 4 implies #[trigger] out.chan(r, c, k)
            == (if c < img.width {
            img.chan(r, c, k)
        } else {
            border_byte(k)
        }) by {
            lemma_grid_index_bounds(wp as int, h as int, r, c);
            lemma_pixel_index_decompose(wp as int, r, c, k);
        }
    }
    out
}

/// Byte `i` of a `w` x `h` image `src` with `n` full border rows added on
/// top.
pub open spec fn pad_top_byte(src: Seq<u8>, w: int, n: int, i: int) -> u8 {
    let p = i / 4;
    let k = i % 4;
    let r = p / w;
    let c = p % w;
    if n <= r {
        src[((r - n) * w + c) * 4 + k]
    } else {
        border_byte(k)
    }
}

/// Adds `n` full border rows on top; the width is unchanged and the
/// height grows by `n`.
#[verifier::loop_isolation(false)]
pub fn top(img: &Image, padding: u32) -> (out: Image)
    requires
        img.wf(),
        img.height + padding <= u32::MAX,
        img.width * (img.height + padding) * 4 <= usize::MAX,
    ensures
        out.width == img.width,
        out.height == img.height + padding,
        out.wf(),
        forall|r: int, c: int, k: int|
            0 <= r < out.height && 0 <= c < out.width && 0 <= k < 4 ==> #[trigger] out.chan(r, c, k)
                == (if r < padding {
                border_byte(k)
            } else {
                img.chan(r - padding, c, k)
            }),
{
    let w: usize = img.width as usize;
    let h: usize = img.height as usize;
    let n: usize = padding as usize;
    let hp: usize = h + n;
    let total: usize = w * hp * 4;
    let src_len: usize = img.data.len();
    let mut buf: Vec<u8> = Vec::new();
    let mut i: usize = 0;
    while i < total
        invariant
            i <= total,
            buf@.len() == i,
            forall|j: int|
                0 <= j < i ==> #[trigger] buf@[j] == pad_top_byte(img.data@, w as int, n as int, j),
        decreases total - i,
    {
        proof {
            assert(w >= 1 && hp >= 1) by (nonlinear_arith)
                requires
                    i < total,
                    total == w * hp * 4,
                    0 <= w,
                    0 <= hp,
            ;
            assert(i < 4 * (w * hp)) by (nonlinear_arith)
                requires
                    i < total,
                    total == w * hp * 4,
            ;
            lemma_multiply_divide_lt(i as int, 4, w * hp);
            lemma_multiply_divide_lt((i / 4) as int, w as int, hp as int);
        }
        let p: usize = i / 4;
        let k: usize = i % 4;
        let r: usize = p / w;
        let c: usize = p % w;
        let byte: u8 = if n <= r {
            proof {
                lemma_grid_index_bounds(w as int, h as int, r - n, c as int);
            }
            let src_idx: usize = ((r - n) * w + c) * 4 + k;
            img.data[src_idx]
        } else {
            if k == 3 {
                255
            } else {
                0
            }
        };
        proof {
            assert(byte == pad_top_byte(img.data@, w as int, n as int, i as int));
        }
        buf.push(byte);
        i = i + 1;
    }
    let height_padded: u32 = img.height + padding;
    let out = Image { width: img.width, height: height_padded, data: buf };
    proof {
        assert forall|r: int, c: int, k: int|
            0 <= r < out.height && 0 <= c < out.width && 0 <= k < 4 implies #[trigger] out.chan(r, c, k)
            == (if r < padding {
            border_byte(k)
        } else {
            img.chan(r - padding, c, k)
        }) by {
            lemma_grid_index_bounds(w as int, hp as int, r, c);
            lemma_pixel_index_decompose(w as int, r, c, k);
        }
    }
    out
}

/// Byte `i` of a `w` x `h` image `src` with `n` full border rows added at
/// the bottom.
pub open spec fn pad_bottom_byte(src: Seq<u8>, w: int, h: int, i: int) -> u8 {
    let p = i / 4;
    let k = i % 4;
    let r = p / w;
    let c = p % w;
    if r < h {
        src[(r * w + c) * 4 + k]
    } else {
        border_byte(k)
    }
}

/// Adds `n` full border rows at the bottom; the width is unchanged and
/// the height grows by `n`.
#[verifier::loop_isolation(false)]
pub fn bottom(img: &Image, padding: u32) -> (out: Image)
    requires
        img.wf(),
        img.height + padding <= u32::MAX,
        img.width * (img.height + padding) * 4 <= usize::MAX,
    ensures
        out.width == img.width,
        out.height == img.height + padding,
        out.wf(),
        forall|r: int, c: int, k: int|
            0 <= r < out.height && 0 <= c < out.width && 0 <= k < 4 ==> #[trigger] out.chan(r, c, k)
                == (if r < img.height {
                img.chan(r, c, k)
            } else {
                border_byte(k)
            }),
{
    let w: usize = img.width as usize;
    let h: usize = img.height as usize;
    let n: usize = padding as usize;
    let hp: usize = h + n;
    let total: usize = w * hp * 4;
    let src_len: usize = img.data.len();
    let mut buf: Vec<u8> = Vec::new();
    let mut i: usize = 0;
    while i < total
        invariant
            i <= total,
            buf@.len() == i,
            forall|j: int|
                0 <= j < i ==> #[trigger] buf@[j] == pad_bottom_byte(img.data@, w as int, h as int, j),
        decreases total - i,
    {
        proof {
            assert(w >= 1 && hp >= 1) by (nonlinear_arith)
                requires
                    i < total,
                    total == w * hp * 4,
                    0 <= w,
                    0 <= hp,
            ;
            assert(i < 4 * (w * hp)) by (nonlinear_arith)
                requires
                    i < total,
                    total == w * hp * 4,
            ;
            lemma_multiply_divide_lt(i as int, 4, w * hp);
            lemma_multiply_divide_lt((i / 4) as int, w as int, hp as int);
        }
        let p: usize = i / 4;
        let k: usize = i % 4;
        let r: usize = p / w;
        let c: usize = p % w;
        let byte: u8 = if r < h {
            proof {
                lemma_grid_index_bounds(w as int, h as int, r as int, c as int);
            }
            let src_idx: usize = (r * w + c) * 4 + k;
            img.data[src_idx]
        } else {
            if k == 3 {
                255
            } else {
                0
            }
        };
        proof {
            assert(byte == pad_bottom_byte(img.data@, w as int, h as int, i as int));
        }
        buf.push(byte);
        i = i + 1;
    }
    let height_padded: u32 = img.height + padding;
    let out = Image { width: img.width, height: height_padded, data: buf };
    proof {
        assert forall|r: int, c: int, k: int|
            0 <= r < out.height && 0 <= c < out.width && 0 <= k < 4 implies #[trigger] out.chan(r, c, k)
            == (if r < img.height {
            img.chan(r, c, k)
        } else {
            border_byte(k)
        }) by {
            lemma_grid_index_bounds(w as int, hp as int, r, c);
            lemma_pixel_index_decompose(w as int, r, c, k);
        }
    }
    out
}

/// Law: padding left and then right with the same amount `n` on a
/// `w` x `h` image yields width `w + 2n` and unchanged height, with the
/// left `n` columns black, the right `n` columns black, and the interior
/// exactly the source image.
///
/// `mid` is any image related to `img` as `left` describes its result,
/// and `out` any image related to `mid` as `right` describes its result;
/// both contracts pin those images down completely.
pub proof fn lemma_pad_left_then_right(img: Image, mid: Image, out: Image, n: u32)
    requires
        img.wf(),
        mid.wf(),
        out.wf(),
        mid.width == img.width + n,
        mid.height == img.height,
        forall|r: int, c: int, k: int|
            0 <= r < mid.height && 0 <= c < mid.width && 0 <= k < 4 ==> #[trigger] mid.chan(r, c, k)
                == (if c < n {
                border_byte(k)
            } else {
                img.chan(r, c - n, k)
            }),
        out.width == mid.width + n,
        out.height == mid.height,
        forall|r: int, c: int, k: int|
            0 <= r < out.height && 0 <= c < out.width && 0 <= k < 4 ==> #[trigger] out.chan(r, c, k)
                == (if c < mid.width {
                mid.chan(r, c, k)
            } else {
                border_byte(k)
            }),
    ensures
        out.width == img.width + 2 * n,
        out.height == img.height,
        forall|r: int, c: int, k: int|
            0 <= r < out.height && 0 <= c < n && 0 <= k < 4 ==> #[trigger] out.chan(r, c, k)
                == border_byte(k),
        forall|r: int, c: int, k: int|
            0 <= r < out.height && n <= c < n + img.width && 0 <= k < 4 ==> #[trigger] out.chan(
                r,
                c,
                k,
            ) == img.chan(r, c - n, k),
        forall|r: int, c: int, k: int|
            0 <= r < out.height && n + img.width <= c < out.width && 0 <= k < 4 ==> #[trigger] out.chan(
                r,
                c,
                k,
            ) == border_byte(k),
{
    assert forall|r: int, c: int, k: int|
        0 <= r < out.height && 0 <= c < n + img.width && 0 <= k < 4 implies #[trigger] out.chan(
        r,
        c,
        k,
    ) == (if c < n {
        border_byte(k)
    } else {
        img.chan(r, c - n, k)
    }) by {
        assert(out.chan(r, c, k) == mid.chan(r, c, k));
    }
}

} // verus!
