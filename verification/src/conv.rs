//! The convolution engine: sliding-window weighted sums over a (possibly
//! padded) image, with stride handling and output-size resolution.

use vstd::prelude::*;

use crate::padding::{pad_seq_uniform, uniform};
use crate::{lemma_row_major_lt, ConvError, Filter, Image, PaddingType};
use vstd::arithmetic::div_mod::lemma_fundamental_div_mod_converse;
use vstd::arithmetic::mul::lemma_mul_upper_bound;

verus! {

/// The output extent of one dimension: source extent `d`, filter extent
/// `f`, stride `s`, padding amount `p`.
pub open spec fn spec_conv_dim(d: int, f: int, s: int, p: int) -> int {
    (d - f + 2 * p) / s + 1
}

/// The border thickness a padding choice adds on each side.
pub open spec fn pad_amount(padding: PaddingType) -> int {
    match padding {
        PaddingType::UNIFORM(n) => n as int,
        PaddingType::NONE => 0,
    }
}

/// Whether the window of output cell `(oy, ox)` lies entirely inside a
/// `wp` x `hp` buffer. The filter width bounds the window's columns and
/// the filter height its rows, mirroring the traversal's own column and
/// row checks.
pub open spec fn window_fits(fw: int, fh: int, stride: int, wp: int, hp: int, oy: int, ox: int) -> bool {
    ox * stride + fw <= wp && oy * stride + fh <= hp
}

/// Flat pixel index addressed by filter coordinates `(x, y)` in the window
/// whose top-left pixel is `(row, col)`: `x` strides whole rows of the
/// buffer and `y` single pixels.
pub open spec fn window_pixel(wp: int, row: int, col: int, x: int, y: int) -> int {
    (row + x) * wp + col + y
}

/// Sum of the first `n` terms, in traversal order (`x` outer, `y` inner),
/// of the weighted window sum for channel `k`: term `i` multiplies the
/// kernel numerator at `(i / fh) * fw + i % fh` with the channel byte of
/// the window pixel `(i / fh, i % fh)`.
pub open spec fn window_sum(
    data: Seq<u8>,
    wp: int,
    kern: Seq<i32>,
    fw: int,
    fh: int,
    row: int,
    col: int,
    k: int,
    n: nat,
) -> int
    decreases n,
{
    if n == 0 {
        0
    } else {
        let x = (n - 1) / fh;
        let y = (n - 1) % fh;
        window_sum(data, wp, kern, fw, fh, row, col, k, (n - 1) as nat) + kern[x * fw + y] * data[
            window_pixel(wp, row, col, x, y) * 4 + k
        ]
    }
}

/// Division by the positive filter divisor, truncated, then clamped to the
/// byte range [0, 255].
pub open spec fn clamp_div(sum: int, d: int) -> int {
    if sum < 0 {
        0
    } else if sum / d > 255 {
        255
    } else {
        sum / d
    }
}

/// Channel `k` of output cell `(oy, ox)`: alpha is always 255; a color
/// channel is the clamped weighted window sum where the window fits, and
/// the opaque white sentinel byte where it does not.
pub open spec fn conv_chan(
    data: Seq<u8>,
    wp: int,
    hp: int,
    kern: Seq<i32>,
    fw: int,
    fh: int,
    d: int,
    stride: int,
    oy: int,
    ox: int,
    k: int,
) -> int {
    if k == 3 {
        255
    } else if window_fits(fw, fh, stride, wp, hp, oy, ox) {
        clamp_div(window_sum(data, wp, kern, fw, fh, oy * stride, ox * stride, k, (fw * fh) as nat), d)
    } else {
        255
    }
}

/// The condition under which the traversal addresses a kernel weight out
/// of range: some window is actually processed (both output extents are
/// positive and the first window fits) and the kernel is wider than it is
/// high, so that filter coordinates `(fh, 0)` address position `fh * fw`,
/// beyond the last kernel element.
pub open spec fn kernel_index_error(fw: int, fh: int, wp: int, hp: int, out_w: int, out_h: int) -> bool {
    out_w >= 1 && out_h >= 1 && fw <= wp && fh <= hp && 1 <= fh < fw
}

/// Byte of channel `k` of the pixel in row `r`, column `c` of a buffer of
/// width `wc`.
pub open spec fn cell_chan(buf: Seq<u8>, wc: int, r: int, c: int, k: int) -> u8 {
    buf[(r * wc + c) * 4 + k]
}

/// Every kernel position addressed by filter coordinates within a kernel
/// at least as high as wide is in range.
proof fn lemma_kernel_index_in_range(fw: int, fh: int, x: int, y: int)
    requires
        0 <= x < fw,
        0 <= y < fh,
        fw <= fh,
    ensures
        0 <= x * fw + y < fw * fh,
{
    assert(0 <= x * fw + y < fw * fh) by (nonlinear_arith)
        requires
            0 <= x < fw,
            0 <= y < fh,
            fw <= fh,
    ;
}

/// A kernel position in range bounds the row coordinate by the filter
/// height.
proof fn lemma_kernel_x_bound(fw: int, fh: int, x: int, y: int)
    requires
        0 <= x,
        0 <= y,
        1 <= fw,
        x * fw + y < fw * fh,
    ensures
        x < fh,
{
    assert(x < fh) by (nonlinear_arith)
        requires
            0 <= x,
            0 <= y,
            1 <= fw,
            x * fw + y < fw * fh,
    ;
}

/// Every byte read while walking a fitting window is inside the buffer:
/// the window spans `fw` rows and `fh` columns, and although a wide row
/// span may wrap across row ends, the combined flat index stays in range.
proof fn lemma_window_read_in_bounds(
    wp: int,
    hp: int,
    fw: int,
    fh: int,
    row: int,
    col: int,
    x: int,
    y: int,
)
    requires
        0 <= row,
        0 <= col,
        0 <= x < fw,
        0 <= y < fh,
        x < fh,
        col + fw <= wp,
        row + fh <= hp,
    ensures
        0 <= wp * hp,
        0 <= (row + x) * wp,
        window_pixel(wp, row, col, x, y) < wp * hp,
        window_pixel(wp, row, col, x, y) * 4 + 3 < wp * hp * 4,
{
    assert(0 <= wp * hp && 0 <= (row + x) * wp && (row + x) * wp + col + y < wp * hp && ((row + x)
        * wp + col + y) * 4 + 3 < wp * hp * 4) by (nonlinear_arith)
        requires
            0 <= row,
            0 <= col,
            0 <= x < fw,
            0 <= y < fh,
            x < fh,
            col + fw <= wp,
            row + fh <= hp,
    ;
}

/// Truncating division by the filter divisor clamped to the byte range.
fn clamp_channel(acc: i128, d: i128) -> (r: u8)
    requires
        d >= 1,
    ensures
        r as int == clamp_div(acc as int, d as int),
{
    if acc < 0 {
        0
    } else {
        let q: u128 = (acc as u128) / (d as u128);
        if q > 255 {
            255
        } else {
            q as u8
        }
    }
}

/// Walks the padded buffer with the given stride and produces the output
/// image cell by cell: each output pixel whose window fits is the clamped
/// weighted sum of that window, every other output pixel is the opaque
/// white sentinel, and every output alpha byte is 255. A kernel wider
/// than high is reported as an error at the first kernel fetch that runs
/// out of range, exactly as `kernel_index_error` states.
#[verifier::loop_isolation(false)]
#[verifier::rlimit(100)]
pub fn convolve(
    img_padded: &Image,
    filter: &Filter,
    width_conv: u32,
    height_conv: u32,
    stride: u32,
) -> (r: Result<Image, ConvError>)
    requires
        img_padded.wf(),
        filter.wf(),
        stride >= 1,
        width_conv * height_conv * 4 <= usize::MAX,
    ensures
        kernel_index_error(
            filter.spec_width() as int,
            filter.spec_height() as int,
            img_padded.width as int,
            img_padded.height as int,
            width_conv as int,
            height_conv as int,
        ) ==> r == Err::<Image, ConvError>(ConvError::FilterIndexOutOfRange),
        !kernel_index_error(
            filter.spec_width() as int,
            filter.spec_height() as int,
            img_padded.width as int,
            img_padded.height as int,
            width_conv as int,
            height_conv as int,
        ) ==> (r matches Ok(out) && {
            &&& out.width == width_conv
            &&& out.height == height_conv
            &&& out.wf()
            &&& forall|oy: int, ox: int, k: int|
                0 <= oy < height_conv && 0 <= ox < width_conv && 0 <= k < 4 ==> #[trigger] out.chan(
                    oy,
                    ox,
                    k,
                ) as int == conv_chan(
                    img_padded.data@,
                    img_padded.width as int,
                    img_padded.height as int,
                    filter.spec_kernel(),
                    filter.spec_width() as int,
                    filter.spec_height() as int,
                    filter.spec_divisor() as int,
                    stride as int,
                    oy,
                    ox,
                    k,
                )
        }),
{
    let wp: usize = img_padded.width as usize;
    let hp: usize = img_padded.height as usize;
    let fw: usize = filter.width();
    let fh: usize = filter.height();
    let divisor: u32 = filter.divisor();
    let dlen: usize = img_padded.data.len();
    let wc: usize = width_conv as usize;
    let hc: usize = height_conv as usize;
    let ghost gdata = img_padded.data@;
    let ghost gkern = filter.spec_kernel();

    let mut out_buf: Vec<u8> = Vec::new();
    let mut oy: usize = 0;
    while oy < hc
        invariant
            oy <= hc,
            out_buf@.len() == oy * wc * 4,
            forall|r: int, c: int, k: int|
                0 <= r < oy && 0 <= c < wc && 0 <= k < 4 ==> #[trigger] cell_chan(
                    out_buf@,
                    wc as int,
                    r,
                    c,
                    k,
                ) as int == conv_chan(
                    gdata,
                    wp as int,
                    hp as int,
                    gkern,
                    fw as int,
                    fh as int,
                    divisor as int,
                    stride as int,
                    r,
                    c,
                    k,
                ),
            oy >= 1 ==> !kernel_index_error(
                fw as int,
                fh as int,
                wp as int,
                hp as int,
                wc as int,
                hc as int,
            ),
        decreases hc - oy,
    {
        let mut ox: usize = 0;
        while ox < wc
            invariant
                ox <= wc,
                out_buf@.len() == (oy * wc + ox) * 4,
                forall|r: int, c: int, k: int|
                    0 <= r && 0 <= c < wc && 0 <= k < 4 && (r < oy || (r == oy && c < ox))
                        ==> #[trigger] cell_chan(out_buf@, wc as int, r, c, k) as int == conv_chan(
                        gdata,
                        wp as int,
                        hp as int,
                        gkern,
                        fw as int,
                        fh as int,
                        divisor as int,
                        stride as int,
                        r,
                        c,
                        k,
                    ),
                oy >= 1 || ox >= 1 ==> !kernel_index_error(
                    fw as int,
                    fh as int,
                    wp as int,
                    hp as int,
                    wc as int,
                    hc as int,
                ),
            decreases wc - ox,
        {
            proof {
                lemma_mul_upper_bound(oy as int, 0xffff_ffff, stride as int, 0xffff_ffff);
                lemma_mul_upper_bound(ox as int, 0xffff_ffff, stride as int, 0xffff_ffff);
            }
            let row64: u64 = (oy as u64) * (stride as u64);
            let col64: u64 = (ox as u64) * (stride as u64);
            let fits: bool = fw <= wp && fh <= hp && col64 + (fw as u64) <= (wp as u64) && row64 + (
            fh as u64) <= (hp as u64);
            proof {
                assert(fits == window_fits(
                    fw as int,
                    fh as int,
                    stride as int,
                    wp as int,
                    hp as int,
                    oy as int,
                    ox as int,
                ));
            }
            let ghost buf0 = out_buf@;
            if fits {
                let row: usize = row64 as usize;
                let col: usize = col64 as usize;
                proof {
                    assert(row as int == (oy as int) * (stride as int));
                    assert(col as int == (ox as int) * (stride as int));
                }
                let mut acc_r: i128 = 0;
                let mut acc_g: i128 = 0;
                let mut acc_b: i128 = 0;
                let mut x: usize = 0;
                while x < fw
                    invariant
                        x <= fw,
                        fh >= 1 && fw > fh ==> x <= fh,
                        acc_r == window_sum(
                            gdata,
                            wp as int,
                            gkern,
                            fw as int,
                            fh as int,
                            row as int,
                            col as int,
                            0,
                            (x * fh) as nat,
                        ),
                        acc_g == window_sum(
                            gdata,
                            wp as int,
                            gkern,
                            fw as int,
                            fh as int,
                            row as int,
                            col as int,
                            1,
                            (x * fh) as nat,
                        ),
                        acc_b == window_sum(
                            gdata,
                            wp as int,
                            gkern,
                            fw as int,
                            fh as int,
                            row as int,
                            col as int,
                            2,
                            (x * fh) as nat,
                        ),
                        -547608330240 * ((x * fh) as int) <= acc_r <= 547608330240 * ((x * fh) as int),
                        -547608330240 * ((x * fh) as int) <= acc_g <= 547608330240 * ((x * fh) as int),
                        -547608330240 * ((x * fh) as int) <= acc_b <= 547608330240 * ((x * fh) as int),
                    decreases fw - x,
                {
                    let mut y: usize = 0;
                    while y < fh
                        invariant
                            y <= fh,
                            x < fw,
                            y >= 1 ==> x < fh,
                            acc_r == window_sum(
                                gdata,
                                wp as int,
                                gkern,
                                fw as int,
                                fh as int,
                                row as int,
                                col as int,
                                0,
                                (x * fh + y) as nat,
                            ),
                            acc_g == window_sum(
                                gdata,
                                wp as int,
                                gkern,
                                fw as int,
                                fh as int,
                                row as int,
                                col as int,
                                1,
                                (x * fh + y) as nat,
                            ),
                            acc_b == window_sum(
                                gdata,
                                wp as int,
                                gkern,
                                fw as int,
                                fh as int,
                                row as int,
                                col as int,
                                2,
                                (x * fh + y) as nat,
                            ),
                            -547608330240 * ((x * fh + y) as int) <= acc_r <= 547608330240 * ((x * fh
                                + y) as int),
                            -547608330240 * ((x * fh + y) as int) <= acc_g <= 547608330240 * ((x * fh
                                + y) as int),
                            -547608330240 * ((x * fh + y) as int) <= acc_b <= 547608330240 * ((x * fh
                                + y) as int),
                        decreases fh - y,
                    {
                        let kv: i32 = match filter.get_element(x, y) {
                            Some(v) => v,
                            None => {
                                proof {
                                    assert((fw as int) * (fh as int) > 0) by (nonlinear_arith)
                                        requires
                                            fw as int >= 1,
                                            fh as int >= 1,
                                    ;
                                    if fw <= fh {
                                        lemma_kernel_index_in_range(
                                            fw as int,
                                            fh as int,
                                            x as int,
                                            y as int,
                                        );
                                    }
                                    assert(kernel_index_error(
                                        fw as int,
                                        fh as int,
                                        wp as int,
                                        hp as int,
                                        wc as int,
                                        hc as int,
                                    ));
                                }
                                return Err(ConvError::FilterIndexOutOfRange);
                            },
                        };
                        proof {
                            assert((x as int) * (fw as int) + (y as int) < (fw as int) * (fh as int));
                            lemma_kernel_x_bound(fw as int, fh as int, x as int, y as int);
                            lemma_window_read_in_bounds(
                                wp as int,
                                hp as int,
                                fw as int,
                                fh as int,
                                row as int,
                                col as int,
                                x as int,
                                y as int,
                            );
                        }
                        let base: usize = ((row + x) * wp + col + y) * 4;
                        let pr: u8 = img_padded.data[base];
                        let pg: u8 = img_padded.data[base + 1];
                        let pb: u8 = img_padded.data[base + 2];
                        proof {
                            lemma_mul_upper_bound(fw as int, 0xffff_ffff, fh as int, 0xffff_ffff);
                            assert(((x * fh + y) as int) + 1 <= (fw as int) * (fh as int)) by (nonlinear_arith)
                                requires
                                    0 <= (x as int) < (fw as int),
                                    0 <= (y as int) < (fh as int),
                            ;
                            assert(-547608330240 <= (pr as i128) * (kv as i128) <= 547608330240)
                                by (nonlinear_arith)
                                requires
                                    0 <= pr as int <= 255,
                                    -2147483648 <= kv as int <= 2147483647,
                            ;
                            assert(-547608330240 <= (pg as i128) * (kv as i128) <= 547608330240)
                                by (nonlinear_arith)
                                requires
                                    0 <= pg as int <= 255,
                                    -2147483648 <= kv as int <= 2147483647,
                            ;
                            assert(-547608330240 <= (pb as i128) * (kv as i128) <= 547608330240)
                                by (nonlinear_arith)
                                requires
                                    0 <= pb as int <= 255,
                                    -2147483648 <= kv as int <= 2147483647,
                            ;
                            lemma_fundamental_div_mod_converse(
                                (x * fh + y) as int,
                                fh as int,
                                x as int,
                                y as int,
                            );
                        }
                        acc_r = acc_r + (pr as i128) * (kv as i128);
                        acc_g = acc_g + (pg as i128) * (kv as i128);
                        acc_b = acc_b + (pb as i128) * (kv as i128);
                        proof {
                            let n0 = (x * fh + y) as nat;
                            let pix = window_pixel(
                                wp as int,
                                row as int,
                                col as int,
                                x as int,
                                y as int,
                            );
                            assert((n0 + 1) as int - 1 == (x as int) * (fh as int) + (y as int));
                            assert(window_sum(
                                gdata,
                                wp as int,
                                gkern,
                                fw as int,
                                fh as int,
                                row as int,
                                col as int,
                                0,
                                (n0 + 1) as nat,
                            ) == window_sum(
                                gdata,
                                wp as int,
                                gkern,
                                fw as int,
                                fh as int,
                                row as int,
                                col as int,
                                0,
                                n0,
                            ) + gkern[(x as int) * (fw as int) + (y as int)] * gdata[pix * 4 + 0]);
                            assert(window_sum(
                                gdata,
                                wp as int,
                                gkern,
                                fw as int,
                                fh as int,
                                row as int,
                                col as int,
                                1,
                                (n0 + 1) as nat,
                            ) == window_sum(
                                gdata,
                                wp as int,
                                gkern,
                                fw as int,
                                fh as int,
                                row as int,
                                col as int,
                                1,
                                n0,
                            ) + gkern[(x as int) * (fw as int) + (y as int)] * gdata[pix * 4 + 1]);
                            assert(window_sum(
                                gdata,
                                wp as int,
                                gkern,
                                fw as int,
                                fh as int,
                                row as int,
                                col as int,
                                2,
                                (n0 + 1) as nat,
                            ) == window_sum(
                                gdata,
                                wp as int,
                                gkern,
                                fw as int,
                                fh as int,
                                row as int,
                                col as int,
                                2,
                                n0,
                            ) + gkern[(x as int) * (fw as int) + (y as int)] * gdata[pix * 4 + 2]);
                            assert((pr as int) * (kv as int) == (kv as int) * (pr as int))
                                by (nonlinear_arith);
                            assert((pg as int) * (kv as int) == (kv as int) * (pg as int))
                                by (nonlinear_arith);
                            assert((pb as int) * (kv as int) == (kv as int) * (pb as int))
                                by (nonlinear_arith);
                        }
                        y = y + 1;
                    }
                    proof {
                        assert(((x as int) + 1) * (fh as int) == (x as int) * (fh as int) + (fh as int))
                            by (nonlinear_arith);
                    }
                    x = x + 1;
                }
                proof {
                    assert(((x * fh) as int) == (fw as int) * (fh as int)) by (nonlinear_arith)
                        requires
                            x == fw,
                    ;
                }
                let r8: u8 = clamp_channel(acc_r, divisor as i128);
                let g8: u8 = clamp_channel(acc_g, divisor as i128);
                let b8: u8 = clamp_channel(acc_b, divisor as i128);
                proof {
                    assert(r8 as int == conv_chan(
                        gdata,
                        wp as int,
                        hp as int,
                        gkern,
                        fw as int,
                        fh as int,
                        divisor as int,
                        stride as int,
                        oy as int,
                        ox as int,
                        0,
                    ));
                    assert(g8 as int == conv_chan(
                        gdata,
                        wp as int,
                        hp as int,
                        gkern,
                        fw as int,
                        fh as int,
                        divisor as int,
                        stride as int,
                        oy as int,
                        ox as int,
                        1,
                    ));
                    assert(b8 as int == conv_chan(
                        gdata,
                        wp as int,
                        hp as int,
                        gkern,
                        fw as int,
                        fh as int,
                        divisor as int,
                        stride as int,
                        oy as int,
                        ox as int,
                        2,
                    ));
                }
                out_buf.push(r8);
                out_buf.push(g8);
                out_buf.push(b8);
                out_buf.push(255);
                proof {
                    if oy == 0 && ox == 0 {
                        assert(x == fw);
                        if fh >= 1 && fw > fh {
                            assert(x <= fh);
                            assert(false);
                        }
                        assert(!kernel_index_error(
                            fw as int,
                            fh as int,
                            wp as int,
                            hp as int,
                            wc as int,
                            hc as int,
                        ));
                    }
                    assert(cell_chan(out_buf@, wc as int, oy as int, ox as int, 0) == r8);
                    assert(cell_chan(out_buf@, wc as int, oy as int, ox as int, 1) == g8);
                    assert(cell_chan(out_buf@, wc as int, oy as int, ox as int, 2) == b8);
                    assert(cell_chan(out_buf@, wc as int, oy as int, ox as int, 3) == 255);
                }
            } else {
                out_buf.push(255);
                out_buf.push(255);
                out_buf.push(255);
                out_buf.push(255);
                proof {
                    assert(!window_fits(
                        fw as int,
                        fh as int,
                        stride as int,
                        wp as int,
                        hp as int,
                        oy as int,
                        ox as int,
                    ));
                    if oy == 0 && ox == 0 {
                        assert((oy as int) * (stride as int) == 0) by (nonlinear_arith)
                            requires
                                oy == 0,
                        ;
                        assert((ox as int) * (stride as int) == 0) by (nonlinear_arith)
                            requires
                                ox == 0,
                        ;
                        assert(!(fw <= wp && fh <= hp));
                        assert(!kernel_index_error(
                            fw as int,
                            fh as int,
                            wp as int,
                            hp as int,
                            wc as int,
                            hc as int,
                        ));
                    }
                    assert(cell_chan(out_buf@, wc as int, oy as int, ox as int, 0) == 255);
                    assert(cell_chan(out_buf@, wc as int, oy as int, ox as int, 1) == 255);
                    assert(cell_chan(out_buf@, wc as int, oy as int, ox as int, 2) == 255);
                    assert(cell_chan(out_buf@, wc as int, oy as int, ox as int, 3) == 255);
                }
            }
            proof {
                assert(((oy * wc + ox) * 4 + 4) == (oy * wc + ox + 1) * 4);
                assert forall|r: int, c: int, k: int|
                    0 <= r && 0 <= c < wc && 0 <= k < 4 && (r < oy || (r == oy && c < ox + 1)) implies #[trigger] cell_chan(
                    out_buf@,
                    wc as int,
                    r,
                    c,
                    k,
                ) as int == conv_chan(
                    gdata,
                    wp as int,
                    hp as int,
                    gkern,
                    fw as int,
                    fh as int,
                    divisor as int,
                    stride as int,
                    r,
                    c,
                    k,
                ) by {
                    if r < oy || (r == oy && c < ox) {
                        lemma_row_major_lt(wc as int, r, c, oy as int, ox as int);
                        vstd::arithmetic::mul::lemma_mul_nonnegative(r, wc as int);
                        assert(cell_chan(buf0, wc as int, r, c, k) as int == conv_chan(
                            gdata,
                            wp as int,
                            hp as int,
                            gkern,
                            fw as int,
                            fh as int,
                            divisor as int,
                            stride as int,
                            r,
                            c,
                            k,
                        ));
                        assert((r * (wc as int) + c) * 4 + k < buf0.len());
                        assert(cell_chan(out_buf@, wc as int, r, c, k) == cell_chan(
                            buf0,
                            wc as int,
                            r,
                            c,
                            k,
                        ));
                    } else {
                        assert(r == oy && c == ox);
                        assert(k == 0 || k == 1 || k == 2 || k == 3);
                    }
                }
            }
            ox = ox + 1;
        }
        proof {
            assert((oy * wc + wc) * 4 == ((oy + 1) * wc) * 4) by (nonlinear_arith);
        }
        oy = oy + 1;
    }
    let out = Image { width: width_conv, height: height_conv, data: out_buf };
    proof {
        assert(hc * wc * 4 == width_conv * height_conv * 4) by (nonlinear_arith)
            requires
                hc == height_conv,
                wc == width_conv,
        ;
        assert forall|oy2: int, ox2: int, k: int|
            0 <= oy2 < height_conv && 0 <= ox2 < width_conv && 0 <= k < 4 implies #[trigger] out.chan(
            oy2,
            ox2,
            k,
        ) as int == conv_chan(
            gdata,
            wp as int,
            hp as int,
            gkern,
            fw as int,
            fh as int,
            divisor as int,
            stride as int,
            oy2,
            ox2,
            k,
        ) by {
            assert(out.chan(oy2, ox2, k) == cell_chan(out_buf@, wc as int, oy2, ox2, k));
        }
    }
    Ok(out)
}

/// Sum of the first `n` kernel numerators in storage order.
pub open spec fn kernel_sum(kern: Seq<i32>, n: nat) -> int
    decreases n,
{
    if n == 0 {
        0
    } else {
        kernel_sum(kern, (n - 1) as nat) + kern[n - 1]
    }
}

/// Over a window whose channel `k` is the constant `v`, the weighted
/// window sum of a square filter is the sum of its numerators times `v`:
/// a square filter visits each kernel position exactly once.
proof fn lemma_window_sum_constant_region(
    data: Seq<u8>,
    wp: int,
    kern: Seq<i32>,
    f: int,
    row: int,
    col: int,
    k: int,
    v: int,
    n: nat,
)
    requires
        1 <= f,
        n <= f * f,
        forall|x: int, y: int|
            0 <= x < f && 0 <= y < f ==> #[trigger] data[window_pixel(wp, row, col, x, y) * 4 + k]
                == v,
    ensures
        window_sum(data, wp, kern, f, f, row, col, k, n) == kernel_sum(kern, n) * v,
    decreases n,
{
    if n == 0 {
        assert(kernel_sum(kern, 0) * v == 0) by (nonlinear_arith);
    } else {
        lemma_window_sum_constant_region(data, wp, kern, f, row, col, k, v, (n - 1) as nat);
        let i = n - 1;
        let x = i / f;
        let y = i % f;
        assert(i < f * f);
        vstd::arithmetic::div_mod::lemma_div_pos_is_pos(i, f);
        vstd::arithmetic::div_mod::lemma_mod_division_less_than_divisor(i, f);
        vstd::arithmetic::div_mod::lemma_multiply_divide_lt(i, f, f);
        vstd::arithmetic::div_mod::lemma_fundamental_div_mod(i, f);
        assert(f * (i / f) == (i / f) * f) by (nonlinear_arith);
        assert(x * f + y == i);
        assert(data[window_pixel(wp, row, col, x, y) * 4 + k] == v);
        assert(window_sum(data, wp, kern, f, f, row, col, k, n) == kernel_sum(kern, (n - 1) as nat)
            * v + kern[i] * v);
        assert(kernel_sum(kern, (n - 1) as nat) * v + kern[i] * v == (kernel_sum(
            kern,
            (n - 1) as nat,
        ) + kern[i]) * v) by (nonlinear_arith);
    }
}

/// Law: a square filter whose numerators sum to its divisor (a normalized
/// filter, such as an averaging or Gaussian kernel) reproduces the value
/// of any constant window exactly: if every pixel the window covers has
/// value `v` in channel `k`, the output channel is `v`.
pub proof fn lemma_normalized_filter_constant_window(
    data: Seq<u8>,
    wp: int,
    hp: int,
    kern: Seq<i32>,
    f: int,
    d: int,
    stride: int,
    oy: int,
    ox: int,
    k: int,
    v: u8,
)
    requires
        1 <= f,
        1 <= d,
        kernel_sum(kern, (f * f) as nat) == d,
        window_fits(f, f, stride, wp, hp, oy, ox),
        0 <= k < 3,
        forall|x: int, y: int|
            0 <= x < f && 0 <= y < f ==> #[trigger] data[window_pixel(
                wp,
                oy * stride,
                ox * stride,
                x,
                y,
            ) * 4 + k] == v,
    ensures
        conv_chan(data, wp, hp, kern, f, f, d, stride, oy, ox, k) == v,
{
    assert(0 <= f * f) by (nonlinear_arith)
        requires
            1 <= f,
    ;
    lemma_window_sum_constant_region(
        data,
        wp,
        kern,
        f,
        oy * stride,
        ox * stride,
        k,
        v as int,
        (f * f) as nat,
    );
    assert(d * (v as int) == kernel_sum(kern, (f * f) as nat) * (v as int)) by (nonlinear_arith)
        requires
            kernel_sum(kern, (f * f) as nat) == d,
    ;
    assert(0 <= d * (v as int)) by (nonlinear_arith)
        requires
            1 <= d,
            0 <= v as int,
    ;
    vstd::arithmetic::div_mod::lemma_div_multiples_vanish(v as int, d);
    assert(clamp_div(d * (v as int), d) == v as int);
}

/// Law: every output channel value lies in the byte range [0, 255], and
/// the alpha channel is exactly 255, whatever the kernel weights are.
pub proof fn lemma_conv_chan_in_byte_range(
    data: Seq<u8>,
    wp: int,
    hp: int,
    kern: Seq<i32>,
    fw: int,
    fh: int,
    d: int,
    stride: int,
    oy: int,
    ox: int,
    k: int,
)
    requires
        d >= 1,
    ensures
        0 <= conv_chan(data, wp, hp, kern, fw, fh, d, stride, oy, ox, k) <= 255,
        k == 3 ==> conv_chan(data, wp, hp, kern, fw, fh, d, stride, oy, ox, k) == 255,
{
    if k != 3 && window_fits(fw, fh, stride, wp, hp, oy, ox) {
        let sum = window_sum(data, wp, kern, fw, fh, oy * stride, ox * stride, k, (fw * fh) as nat);
        if sum >= 0 {
            vstd::arithmetic::div_mod::lemma_div_pos_is_pos(sum, d);
        }
    }
}

/// Law: a 1 x 1 filter of weight one (numerator equal to the divisor),
/// applied with stride 1, is the identity transform on the R, G and B
/// channels of every pixel, with alpha forced to 255, and leaves the
/// output size equal to the source size.
pub proof fn lemma_identity_convolution(img: Image, filter: Filter)
    requires
        img.wf(),
        filter.wf(),
        filter.spec_width() == 1,
        filter.spec_height() == 1,
        filter.spec_kernel()[0] as int == filter.spec_divisor() as int,
    ensures
        spec_conv_dim(img.width as int, 1, 1, 0) == img.width,
        spec_conv_dim(img.height as int, 1, 1, 0) == img.height,
        forall|r: int, c: int, k: int|
            0 <= r < img.height && 0 <= c < img.width && 0 <= k < 3 ==> #[trigger] conv_chan(
                img.data@,
                img.width as int,
                img.height as int,
                filter.spec_kernel(),
                1,
                1,
                filter.spec_divisor() as int,
                1,
                r,
                c,
                k,
            ) == img.chan(r, c, k),
        forall|r: int, c: int|
            0 <= r < img.height && 0 <= c < img.width ==> #[trigger] conv_chan(
                img.data@,
                img.width as int,
                img.height as int,
                filter.spec_kernel(),
                1,
                1,
                filter.spec_divisor() as int,
                1,
                r,
                c,
                3,
            ) == 255,
{
    let w = img.width as int;
    let h = img.height as int;
    let kern = filter.spec_kernel();
    let d = filter.spec_divisor() as int;
    assert forall|r: int, c: int, k: int|
        0 <= r < img.height && 0 <= c < img.width && 0 <= k < 3 implies #[trigger] conv_chan(
        img.data@,
        w,
        h,
        kern,
        1,
        1,
        d,
        1,
        r,
        c,
        k,
    ) == img.chan(r, c, k) by {
        assert(window_fits(1, 1, 1, w, h, r, c)) by (nonlinear_arith)
            requires
                0 <= r < h,
                0 <= c < w,
        ;
        let v = img.chan(r, c, k) as int;
        assert(window_sum(img.data@, w, kern, 1, 1, r * 1, c * 1, k, 0nat) == 0);
        assert(window_sum(img.data@, w, kern, 1, 1, r * 1, c * 1, k, 1nat) == kern[0] * img.data@[
            window_pixel(w, r * 1, c * 1, 0, 0) * 4 + k
        ]);
        assert(r * 1 == r && c * 1 == c) by (nonlinear_arith);
        assert(window_pixel(w, r, c, 0, 0) == r * w + c);
        assert(window_sum(img.data@, w, kern, 1, 1, r, c, k, 1nat) == d * v);
        assert(0 <= d * v) by (nonlinear_arith)
            requires
                0 <= d,
                0 <= v,
        ;
        vstd::arithmetic::div_mod::lemma_div_multiples_vanish(v, d);
        assert(clamp_div(d * v, d) == v);
    }
}

/// The resolved output size of a convolution, together with the
/// non-fatal stride diagnostics: a mismatch flag is set when the stride
/// does not evenly divide the padded-minus-filter extent of its
/// dimension, so the traversal cannot compensate for the remainder.
#[derive(Clone, Copy, Debug, PartialEq, Eq, Structural)]
pub struct ConvDims {
    /// Output width in pixels.
    pub width: u32,
    /// Output height in pixels.
    pub height: u32,
    /// The stride does not evenly divide the horizontal extent.
    pub width_stride_mismatch: bool,
    /// The stride does not evenly divide the vertical extent.
    pub height_stride_mismatch: bool,
}

/// Computes the expected output size `floor((D - F + 2P) / S) + 1` in each
/// dimension and reports, per dimension, whether the stride divides the
/// extent evenly; a stride of zero is rejected.
pub fn resolve_output_dimensions(
    width: u32,
    height: u32,
    filter: &Filter,
    stride: u32,
    padding: &PaddingType,
) -> (r: Result<ConvDims, ConvError>)
    requires
        filter.spec_width() <= width + 2 * pad_amount(*padding),
        filter.spec_height() <= height + 2 * pad_amount(*padding),
        width + 2 * pad_amount(*padding) < u32::MAX,
        height + 2 * pad_amount(*padding) < u32::MAX,
    ensures
        stride == 0 <==> r == Err::<ConvDims, ConvError>(ConvError::InvalidStride),
        stride >= 1 ==> (r matches Ok(dims) && {
            let p = pad_amount(*padding);
            let fw = filter.spec_width() as int;
            let fh = filter.spec_height() as int;
            &&& dims.width == spec_conv_dim(width as int, fw, stride as int, p)
            &&& dims.height == spec_conv_dim(height as int, fh, stride as int, p)
            &&& dims.width_stride_mismatch == ((width + 2 * p - fw) % (stride as int) != 0)
            &&& dims.height_stride_mismatch == ((height + 2 * p - fh) % (stride as int) != 0)
        }),
{
    if stride == 0 {
        return Err(ConvError::InvalidStride);
    }
    let pad_amt: u32 = match *padding {
        PaddingType::UNIFORM(n) => n,
        PaddingType::NONE => 0,
    };
    let fw: u32 = filter.width() as u32;
    let fh: u32 = filter.height() as u32;
    let extent_w: u32 = width + 2 * pad_amt - fw;
    let extent_h: u32 = height + 2 * pad_amt - fh;
    proof {
        vstd::arithmetic::div_mod::lemma_div_nonincreasing(extent_w as int, stride as int);
        vstd::arithmetic::div_mod::lemma_div_nonincreasing(extent_h as int, stride as int);
    }
    let width_mismatch: bool = extent_w % stride != 0;
    let height_mismatch: bool = extent_h % stride != 0;
    let out_w: u32 = extent_w / stride + 1;
    let out_h: u32 = extent_h / stride + 1;
    Ok(
        ConvDims {
            width: out_w,
            height: out_h,
            width_stride_mismatch: width_mismatch,
            height_stride_mismatch: height_mismatch,
        },
    )
}

/// Applies convolution to the image: selects the padding strategy, pads,
/// resolves the output size, and runs the traversal engine. A stride of
/// zero is rejected before anything else; a kernel wider than high is
/// reported by the engine as `FilterIndexOutOfRange`; on success every
/// output pixel is described exactly over the padded byte buffer.
pub fn convolution(img: &Image, filter: Filter, stride: u32, padding: PaddingType) -> (r: Result<
    Image,
    ConvError,
>)
    requires
        img.wf(),
        filter.wf(),
        filter.spec_width() <= img.width + 2 * pad_amount(padding),
        filter.spec_height() <= img.height + 2 * pad_amount(padding),
        img.width + 2 * pad_amount(padding) < u32::MAX,
        img.height + 2 * pad_amount(padding) < u32::MAX,
        (img.width + 2 * pad_amount(padding) + 1) * (img.height + 2 * pad_amount(padding) + 1) * 4
            <= usize::MAX,
    ensures
        stride == 0 ==> r == Err::<Image, ConvError>(ConvError::InvalidStride),
        stride >= 1 && 1 <= filter.spec_height() < filter.spec_width() ==> r == Err::<
            Image,
            ConvError,
        >(ConvError::FilterIndexOutOfRange),
        stride >= 1 && !(1 <= filter.spec_height() < filter.spec_width()) ==> (r matches Ok(out) && {
            let p = pad_amount(padding);
            let fw = filter.spec_width() as int;
            let fh = filter.spec_height() as int;
            let padded = pad_seq_uniform(img.data@, img.width as int, img.height as int, p);
            &&& out.width == spec_conv_dim(img.width as int, fw, stride as int, p)
            &&& out.height == spec_conv_dim(img.height as int, fh, stride as int, p)
            &&& out.wf()
            &&& forall|oy: int, ox: int, k: int|
                0 <= oy < out.height && 0 <= ox < out.width && 0 <= k < 4 ==> #[trigger] out.chan(
                    oy,
                    ox,
                    k,
                ) as int == conv_chan(
                    padded,
                    img.width + 2 * p,
                    img.height + 2 * p,
                    filter.spec_kernel(),
                    fw,
                    fh,
                    filter.spec_divisor() as int,
                    stride as int,
                    oy,
                    ox,
                    k,
                )
        }),
{
    if stride == 0 {
        return Err(ConvError::InvalidStride);
    }
    let pad_amt: u32 = match padding {
        PaddingType::UNIFORM(n) => n,
        PaddingType::NONE => 0,
    };
    proof {
        assert((img.width + 2 * pad_amt) * (img.height + 2 * pad_amt) * 4 <= (img.width + 2
            * pad_amt + 1) * (img.height + 2 * pad_amt + 1) * 4) by (nonlinear_arith)
            requires
                0 <= img.width + 2 * pad_amt,
                0 <= img.height + 2 * pad_amt,
        ;
    }
    let img_padded = uniform(img, pad_amt);
    let dims = match resolve_output_dimensions(img.width, img.height, &filter, stride, &padding) {
        Ok(d) => d,
        Err(_) => {
            proof {
                assert(false);
            }
            return Err(ConvError::InvalidStride);
        },
    };
    proof {
        let p = pad_amount(padding);
        let wp = img.width + 2 * p;
        let hp = img.height + 2 * p;
        let fw = filter.spec_width() as int;
        let fh = filter.spec_height() as int;
        vstd::arithmetic::div_mod::lemma_div_nonincreasing(wp - fw, stride as int);
        vstd::arithmetic::div_mod::lemma_div_nonincreasing(hp - fh, stride as int);
        vstd::arithmetic::div_mod::lemma_div_pos_is_pos(wp - fw, stride as int);
        vstd::arithmetic::div_mod::lemma_div_pos_is_pos(hp - fh, stride as int);
        assert(dims.width * dims.height * 4 <= (wp + 1) * (hp + 1) * 4) by (nonlinear_arith)
            requires
                1 <= dims.width <= wp + 1,
                1 <= dims.height <= hp + 1,
        ;
    }
    convolve(&img_padded, &filter, dims.width, dims.height, stride)
}

} // verus!
