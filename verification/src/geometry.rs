//! The letterbox transform shared by frame rescaling and cursor
//! mapping: a uniform scale that fits the source into the record
//! resolution preserving aspect ratio, with symmetric padding on the
//! shorter axis. The cursor's client-space position runs through DPI
//! compensation and this same transform into a normalized record-space
//! coordinate held in fixed point.

use vstd::prelude::*;

use crate::snapshot::{CursorSample, NORM_SCALE};

verus! {

/// Division rounded to nearest, halves up; for positive divisors.
pub open spec fn round_div(a: int, b: int) -> int {
    (a + b / 2) / b
}

/// Whether the fit is limited by width: the source is relatively wider
/// than the destination, so it fills the width and pads the height.
pub open spec fn width_constrained(src_w: int, src_h: int, dst_w: int, dst_h: int) -> bool {
    dst_w * src_h <= dst_h * src_w
}

/// The scaled width of the letterboxed image, at least one pixel.
pub open spec fn spec_scaled_w(src_w: int, src_h: int, dst_w: int, dst_h: int) -> int {
    if width_constrained(src_w, src_h, dst_w, dst_h) {
        dst_w
    } else {
        let r = round_div(src_w * dst_h, src_h);
        if r < 1 {
            1
        } else {
            r
        }
    }
}

/// The scaled height of the letterboxed image, at least one pixel.
pub open spec fn spec_scaled_h(src_w: int, src_h: int, dst_w: int, dst_h: int) -> int {
    if width_constrained(src_w, src_h, dst_w, dst_h) {
        let r = round_div(src_h * dst_w, src_w);
        if r < 1 {
            1
        } else {
            r
        }
    } else {
        dst_h
    }
}

/// One letterbox fit: the scaled image size and the padding that
/// centres it in the destination.
#[derive(Debug, Clone, Copy, PartialEq, Eq, Structural)]
pub struct LetterboxGeometry {
    pub scaled_w: u32,
    pub scaled_h: u32,
    pub pad_x: u32,
    pub pad_y: u32,
}

/// Compute the letterbox fit of a source into a destination. Both the
/// frame rescaler and the cursor mapping use this one function, so the
/// two cannot drift apart.
pub fn letterbox_geometry(src_w: u32, src_h: u32, dst_w: u32, dst_h: u32) -> (g: LetterboxGeometry)
    requires
        1 <= src_w <= 0x4000,
        1 <= src_h <= 0x4000,
        1 <= dst_w <= 0x4000,
        1 <= dst_h <= 0x4000,
    ensures
        g.scaled_w == spec_scaled_w(src_w as int, src_h as int, dst_w as int, dst_h as int),
        g.scaled_h == spec_scaled_h(src_w as int, src_h as int, dst_w as int, dst_h as int),
        1 <= g.scaled_w <= dst_w,
        1 <= g.scaled_h <= dst_h,
        g.pad_x == (dst_w - g.scaled_w) / 2,
        g.pad_y == (dst_h - g.scaled_h) / 2,
{
    proof {
        lemma_small_product(dst_w as int, src_h as int);
        lemma_small_product(dst_h as int, src_w as int);
        lemma_small_product(src_h as int, dst_w as int);
        lemma_small_product(src_w as int, dst_h as int);
    }
    let ww: bool = (dst_w as u64) * (src_h as u64) <= (dst_h as u64) * (src_w as u64);
    let scaled_w: u32;
    let scaled_h: u32;
    if ww {
        scaled_w = dst_w;
        let r: u64 = ((src_h as u64) * (dst_w as u64) + (src_w as u64) / 2) / (src_w as u64);
        proof {
            lemma_round_div_bound(src_h as int, dst_w as int, dst_h as int, src_w as int);
        }
        scaled_h = if r < 1 {
            1
        } else {
            r as u32
        };
    } else {
        scaled_h = dst_h;
        let r: u64 = ((src_w as u64) * (dst_h as u64) + (src_h as u64) / 2) / (src_h as u64);
        proof {
            lemma_round_div_bound(src_w as int, dst_h as int, dst_w as int, src_h as int);
        }
        scaled_w = if r < 1 {
            1
        } else {
            r as u32
        };
    }
    LetterboxGeometry {
        scaled_w,
        scaled_h,
        pad_x: (dst_w - scaled_w) / 2,
        pad_y: (dst_h - scaled_h) / 2,
    }
}

/// Dimensions bounded by 0x4000 multiply without leaving 64 bits.
proof fn lemma_small_product(a: int, b: int)
    requires
        0 <= a <= 0x4000,
        0 <= b <= 0x4000,
    ensures
        a * b <= 0x40000000,
{
    assert(a * b <= 0x40000000) by (nonlinear_arith)
        requires
            0 <= a <= 0x4000,
            0 <= b <= 0x4000,
    ;
}

/// When `a * b <= bound * d`, rounding `a * b / d` to nearest stays at
/// or under `bound`.
proof fn lemma_round_div_bound(a: int, b: int, bound: int, d: int)
    requires
        d >= 1,
        a >= 0,
        b >= 0,
        bound >= 1,
        a * b <= bound * d,
    ensures
        round_div(a * b, d) <= bound,
{
    vstd::arithmetic::div_mod::lemma_div_is_ordered(a * b + d / 2, bound * d + d / 2, d);
    vstd::arithmetic::div_mod::lemma_div_multiples_vanish_fancy(bound, d / 2, d);
    assert(d * bound == bound * d) by (nonlinear_arith);
}

/// The source column shown at scaled column `x`: nearest-neighbor
/// sampling by integer ratio.
pub open spec fn spec_src_coord(x: int, src_dim: int, scaled_dim: int) -> int {
    x * src_dim / scaled_dim
}

/// What the letterboxed frame holds at destination pixel `(x, y)`,
/// channel `c`: the sampled source byte inside the scaled image, zero in
/// the padding.
pub open spec fn spec_letterbox_byte(
    src: Seq<u8>,
    src_w: int,
    src_h: int,
    dst_w: int,
    dst_h: int,
    x: int,
    y: int,
    c: int,
) -> u8 {
    let sw = spec_scaled_w(src_w, src_h, dst_w, dst_h);
    let sh = spec_scaled_h(src_w, src_h, dst_w, dst_h);
    let px = (dst_w - sw) / 2;
    let py = (dst_h - sh) / 2;
    if px <= x < px + sw && py <= y < py + sh {
        let sx = spec_src_coord(x - px, src_w, sw);
        let sy = spec_src_coord(y - py, src_h, sh);
        src[(sy * src_w + sx) * 4 + c]
    } else {
        0u8
    }
}

/// The byte a partly letterboxed buffer of length `len` holds at index
/// `j`, after `rows` full scaled rows and `cols` pixels of the next row
/// have been copied: the sampled source byte where the copy has passed
/// and the pixel's four bytes fit the buffer, zero elsewhere.
pub open spec fn lb_progress_byte(
    src: Seq<u8>,
    src_w: int,
    src_h: int,
    dst_w: int,
    dst_h: int,
    len: int,
    rows: int,
    cols: int,
    j: int,
) -> u8 {
    let sw = spec_scaled_w(src_w, src_h, dst_w, dst_h);
    let sh = spec_scaled_h(src_w, src_h, dst_w, dst_h);
    let px = (dst_w - sw) / 2;
    let py = (dst_h - sh) / 2;
    let p = j / 4;
    let cc = j % 4;
    let yy = p / dst_w;
    let xx = p % dst_w;
    if px <= xx < px + sw && py <= yy < py + sh && (yy - py < rows || (yy - py == rows && xx - px
        < cols)) && 4 * p + 4 <= len {
        src[(spec_src_coord(yy - py, src_h, sh) * src_w + spec_src_coord(xx - px, src_w, sw)) * 4
            + cc]
    } else {
        0u8
    }
}

/// A pixel index `(y * w + x) * 4 + c` decomposes back into its row,
/// column and channel.
proof fn lemma_pixel_decompose(w: int, x: int, y: int, c: int)
    requires
        w >= 1,
        0 <= x < w,
        0 <= c < 4,
        0 <= y,
    ensures
        ((y * w + x) * 4 + c) / 4 == y * w + x,
        ((y * w + x) * 4 + c) % 4 == c,
        (y * w + x) / w == y,
        (y * w + x) % w == x,
{
    vstd::arithmetic::div_mod::lemma_fundamental_div_mod_converse(
        (y * w + x) * 4 + c,
        4,
        y * w + x,
        c,
    );
    vstd::arithmetic::div_mod::lemma_fundamental_div_mod_converse(y * w + x, w, y, x);
}

/// Letterbox a BGRA source frame into the destination buffer: zero the
/// buffer, and unless a dimension is zero, sample the source
/// nearest-neighbor into the centred scaled region, skipping any pixel
/// whose four bytes do not fit the buffer. Total over every buffer
/// length; a zero dimension leaves the buffer all zero.
pub fn letterbox_bgra(src: &[u8], src_w: u32, src_h: u32, dst: &mut Vec<u8>, dst_w: u32, dst_h: u32)
    requires
        src_w <= 0x4000,
        src_h <= 0x4000,
        dst_w <= 0x4000,
        dst_h <= 0x4000,
        src@.len() == src_w * src_h * 4,
    ensures
        final(dst)@.len() == old(dst)@.len(),
        (src_w == 0 || src_h == 0 || dst_w == 0 || dst_h == 0) ==> forall|j: int|
            0 <= j < final(dst)@.len() ==> final(dst)@[j] == 0u8,
        (src_w >= 1 && src_h >= 1 && dst_w >= 1 && dst_h >= 1) ==> forall|j: int|
            0 <= j < final(dst)@.len() ==> final(dst)@[j] == lb_progress_byte(
                src@,
                src_w as int,
                src_h as int,
                dst_w as int,
                dst_h as int,
                final(dst)@.len() as int,
                spec_scaled_h(src_w as int, src_h as int, dst_w as int, dst_h as int),
                0,
                j,
            ),
        (src_w >= 1 && src_h >= 1 && dst_w >= 1 && dst_h >= 1 && old(dst)@.len() == dst_w * dst_h
            * 4) ==> forall|x: int, y: int, c: int|
            0 <= x < dst_w && 0 <= y < dst_h && 0 <= c < 4 ==> final(dst)@[(y * dst_w + x) * 4 + c]
                == spec_letterbox_byte(
                src@,
                src_w as int,
                src_h as int,
                dst_w as int,
                dst_h as int,
                x,
                y,
                c,
            ),
{
    let ghost sw = src_w as int;
    let ghost sh = src_h as int;
    let ghost dw = dst_w as int;
    let ghost dh = dst_h as int;
    let dst_len = dst.len();
    let mut i: usize = 0;
    while i < dst_len
        invariant
            i <= dst_len,
            dst_len == dst@.len(),
            forall|j: int| 0 <= j < i ==> dst@[j] == 0u8,
        decreases dst_len - i,
    {
        dst[i] = 0;
        i = i + 1;
    }
    if src_w == 0 || src_h == 0 || dst_w == 0 || dst_h == 0 {
        return ;
    }
    let g = letterbox_geometry(src_w, src_h, dst_w, dst_h);
    let mut y: u32 = 0;
    while y < g.scaled_h
        invariant
            y <= g.scaled_h,
            sw == src_w as int,
            sh == src_h as int,
            dw == dst_w as int,
            dh == dst_h as int,
            dst_len == dst@.len(),
            src@.len() == src_w * src_h * 4,
            1 <= src_w <= 0x4000,
            1 <= src_h <= 0x4000,
            1 <= dst_w <= 0x4000,
            1 <= dst_h <= 0x4000,
            g.scaled_w == spec_scaled_w(sw, sh, dw, dh),
            g.scaled_h == spec_scaled_h(sw, sh, dw, dh),
            1 <= g.scaled_w <= dst_w,
            1 <= g.scaled_h <= dst_h,
            g.pad_x == (dst_w - g.scaled_w) / 2,
            g.pad_y == (dst_h - g.scaled_h) / 2,
            forall|j: int|
                0 <= j < dst@.len() ==> dst@[j] == lb_progress_byte(
                    src@,
                    sw,
                    sh,
                    dw,
                    dh,
                    dst_len as int,
                    y as int,
                    0,
                    j,
                ),
        decreases g.scaled_h - y,
    {
        proof {
            lemma_small_product(y as int, src_h as int);
        }
        let sy64: u64 = ((y as u64) * (src_h as u64)) / (g.scaled_h as u64);
        proof {
            assert(sy64 < src_h) by {
                assert((y as int) * (src_h as int) <= ((g.scaled_h as int) - 1) * (src_h as int))
                    by (nonlinear_arith)
                    requires
                        0 <= (y as int) <= (g.scaled_h as int) - 1,
                        (src_h as int) >= 1,
                ;
                vstd::arithmetic::div_mod::lemma_div_is_ordered(
                    (y as int) * (src_h as int),
                    ((g.scaled_h as int) - 1) * (src_h as int),
                    g.scaled_h as int,
                );
                assert((((g.scaled_h as int) - 1) * (src_h as int)) / (g.scaled_h as int) <= (src_h
                    as int) - 1) by (nonlinear_arith)
                    requires
                        (g.scaled_h as int) >= 1,
                        (src_h as int) >= 1,
                ;
            }
        }
        let src_y: u32 = sy64 as u32;
        let mut x: u32 = 0;
        while x < g.scaled_w
            invariant
                x <= g.scaled_w,
                y < g.scaled_h,
                sw == src_w as int,
                sh == src_h as int,
                dw == dst_w as int,
                dh == dst_h as int,
                dst_len == dst@.len(),
                src@.len() == src_w * src_h * 4,
                1 <= src_w <= 0x4000,
                1 <= src_h <= 0x4000,
                1 <= dst_w <= 0x4000,
                1 <= dst_h <= 0x4000,
                g.scaled_w == spec_scaled_w(sw, sh, dw, dh),
                g.scaled_h == spec_scaled_h(sw, sh, dw, dh),
                1 <= g.scaled_w <= dst_w,
                1 <= g.scaled_h <= dst_h,
                g.pad_x == (dst_w - g.scaled_w) / 2,
                g.pad_y == (dst_h - g.scaled_h) / 2,
                src_y == spec_src_coord(y as int, sh, g.scaled_h as int),
                src_y < src_h,
                forall|j: int|
                    0 <= j < dst@.len() ==> dst@[j] == lb_progress_byte(
                        src@,
                        sw,
                        sh,
                        dw,
                        dh,
                        dst_len as int,
                        y as int,
                        x as int,
                        j,
                    ),
            decreases g.scaled_w - x,
        {
            proof {
                lemma_small_product(x as int, src_w as int);
            }
            let sx64: u64 = ((x as u64) * (src_w as u64)) / (g.scaled_w as u64);
            proof {
                assert(sx64 < src_w) by {
                    assert((x as int) * (src_w as int) <= ((g.scaled_w as int) - 1) * (src_w
                        as int)) by (nonlinear_arith)
                        requires
                            0 <= (x as int) <= (g.scaled_w as int) - 1,
                            (src_w as int) >= 1,
                    ;
                    vstd::arithmetic::div_mod::lemma_div_is_ordered(
                        (x as int) * (src_w as int),
                        ((g.scaled_w as int) - 1) * (src_w as int),
                        g.scaled_w as int,
                    );
                    assert((((g.scaled_w as int) - 1) * (src_w as int)) / (g.scaled_w as int) <= (
                    src_w as int) - 1) by (nonlinear_arith)
                        requires
                            (g.scaled_w as int) >= 1,
                            (src_w as int) >= 1,
                    ;
                }
                assert(sx64 < 0x4000);
            }
            let src_x: u32 = sx64 as u32;
            proof {
                assert(((src_y as int) * sw + (src_x as int)) * 4 + 3 < src@.len())
                    by (nonlinear_arith)
                    requires
                        0 <= (src_x as int) < sw,
                        0 <= (src_y as int) < sh,
                        src@.len() == sw * sh * 4,
                ;
                assert((src_y as int) * (src_w as int) <= 0x10000000) by (nonlinear_arith)
                    requires
                        0 <= (src_y as int) <= 0x4000,
                        0 <= (src_w as int) <= 0x4000,
                ;
                assert(((y as int) + (g.pad_y as int)) * (dst_w as int) <= 0x20000000)
                    by (nonlinear_arith)
                    requires
                        0 <= (y as int) + (g.pad_y as int) <= 0x8000,
                        0 <= (dst_w as int) <= 0x4000,
                ;
            }
            let src_idx: usize = ((src_y as usize) * (src_w as usize) + (src_x as usize)) * 4;
            let dst_idx: usize = (((y as usize) + (g.pad_y as usize)) * (dst_w as usize) + ((x
                as usize) + (g.pad_x as usize))) * 4;
            let ghost before = dst@;
            if dst_idx + 4 <= dst_len {
                dst[dst_idx] = src[src_idx];
                dst[dst_idx + 1] = src[src_idx + 1];
                dst[dst_idx + 2] = src[src_idx + 2];
                dst[dst_idx + 3] = src[src_idx + 3];
            }
            proof {
                let yy = (y as int) + (g.pad_y as int);
                let xx = (x as int) + (g.pad_x as int);
                lemma_pixel_decompose(dw, xx, yy, 0);
                lemma_pixel_decompose(dw, xx, yy, 1);
                lemma_pixel_decompose(dw, xx, yy, 2);
                lemma_pixel_decompose(dw, xx, yy, 3);
                assert forall|j: int| 0 <= j < dst@.len() implies dst@[j] == lb_progress_byte(
                    src@,
                    sw,
                    sh,
                    dw,
                    dh,
                    dst_len as int,
                    y as int,
                    x as int + 1,
                    j,
                ) by {
                    let p = j / 4;
                    let cc = j % 4;
                    let jy = p / dw;
                    let jx = p % dw;
                    vstd::arithmetic::div_mod::lemma_fundamental_div_mod(j, 4);
                    vstd::arithmetic::div_mod::lemma_fundamental_div_mod(p, dw);
                    vstd::arithmetic::div_mod::lemma_remainder_lower(j, 4);
                    vstd::arithmetic::div_mod::lemma_remainder_upper(j, 4);
                    vstd::arithmetic::div_mod::lemma_remainder_lower(p, dw);
                    vstd::arithmetic::div_mod::lemma_remainder_upper(p, dw);
                    if jy == yy && jx == xx {
                        // One of the four bytes of this step's pixel.
                        assert(j == (yy * dw + xx) * 4 + cc);
                        assert(dst_idx <= j < dst_idx + 4);
                        if dst_idx + 4 <= dst_len {
                            assert(4 * p + 4 <= dst_len);
                        } else {
                            // The pixel does not fit: untouched, still zero.
                            assert(dst@[j] == before[j]);
                        }
                    } else {
                        // Untouched; the expected byte is also unchanged.
                        assert(j < dst_idx || j >= dst_idx + 4);
                        assert(dst@[j] == before[j]);
                    }
                }
            }
            x = x + 1;
        }
        proof {
            assert forall|j: int| 0 <= j < dst@.len() implies dst@[j] == lb_progress_byte(
                src@,
                sw,
                sh,
                dw,
                dh,
                dst_len as int,
                y as int + 1,
                0,
                j,
            ) by {
                assert(dst@[j] == lb_progress_byte(src@, sw, sh, dw, dh, dst_len as int, y as int,
                    g.scaled_w as int, j));
            }
        }
        y = y + 1;
    }
    proof {
        if dst@.len() == dw * dh * 4 {
            assert forall|x: int, y2: int, c: int|
                0 <= x < dst_w && 0 <= y2 < dst_h && 0 <= c < 4 implies dst@[(y2 * dw + x) * 4 + c]
                == spec_letterbox_byte(src@, sw, sh, dw, dh, x, y2, c) by {
                assert((y2 * dw + x) * 4 + 4 <= dst@.len()) by (nonlinear_arith)
                    requires
                        0 <= x < dw,
                        0 <= y2 < dh,
                        0 <= c < 4,
                        dst@.len() == dw * dh * 4,
                ;
                assert(0 <= (y2 * dw + x) * 4 + c) by (nonlinear_arith)
                    requires
                        0 <= x < dw,
                        0 <= y2,
                        0 <= c,
                ;
                lemma_pixel_decompose(dw, x, y2, c);
            }
        }
    }
}

/// Make the frame buffer hold exactly four bytes per record pixel; a
/// buffer of the wrong size is zeroed at the new size.
pub fn ensure_buffer_size(buffer: &mut Vec<u8>, width: u32, height: u32)
    requires
        width <= 0x4000,
        height <= 0x4000,
    ensures
        final(buffer)@.len() == width * height * 4,
        final(buffer)@.len() == old(buffer)@.len() ==> final(buffer)@ == old(buffer)@,
        final(buffer)@.len() != old(buffer)@.len() ==> forall|j: int|
            0 <= j < final(buffer)@.len() ==> final(buffer)@[j] == 0u8,
{
    proof {
        assert((width as int) * (height as int) <= 0x10000000) by (nonlinear_arith)
            requires
                0 <= (width as int) <= 0x4000,
                0 <= (height as int) <= 0x4000,
        ;
    }
    let size: usize = (width as usize) * (height as usize) * 4;
    if buffer.len() != size {
        buffer.clear();
        buffer.resize(size, 0);
    }
}

/// A fixed-point value forced into `[0, NORM_SCALE]`.
pub open spec fn clamp_norm(raw: int) -> int {
    if raw < 0 {
        0
    } else if raw > NORM_SCALE as int {
        NORM_SCALE as int
    } else {
        raw
    }
}

/// One normalized cursor coordinate: the client-space position is
/// DPI-compensated (96 logical dots per inch), projected through the
/// letterbox scale `scaled_dim / client_dim`, shifted by the padding,
/// divided by the record dimension and clamped into `[0, 1]` fixed point.
pub open spec fn spec_norm_coord(
    client: int,
    client_dim: int,
    dpi: int,
    scaled_dim: int,
    pad: int,
    record_dim: int,
) -> int {
    let num = (client * 96 * scaled_dim + pad * dpi * client_dim) * (NORM_SCALE as int);
    let den = dpi * client_dim * record_dim;
    clamp_norm(num / den)
}

/// Map a cursor position in the target's client space to normalized
/// record-space coordinates, through the same letterbox fit the frames
/// use. Both results lie in `[0, NORM_SCALE]`.
pub fn cursor_norm(
    client_x: i32,
    client_y: i32,
    client_w: u32,
    client_h: u32,
    dpi: u32,
    src_w: u32,
    src_h: u32,
    record_w: u32,
    record_h: u32,
) -> (c: (u32, u32))
    requires
        1 <= client_w <= 0x4000,
        1 <= client_h <= 0x4000,
        1 <= dpi <= 0x4000,
        1 <= src_w <= 0x4000,
        1 <= src_h <= 0x4000,
        1 <= record_w <= 0x4000,
        1 <= record_h <= 0x4000,
        -0x40000000 <= client_x <= 0x40000000,
        -0x40000000 <= client_y <= 0x40000000,
    ensures
        c.0 as int == spec_norm_coord(
            client_x as int,
            client_w as int,
            dpi as int,
            spec_scaled_w(src_w as int, src_h as int, record_w as int, record_h as int),
            (record_w as int - spec_scaled_w(
                src_w as int,
                src_h as int,
                record_w as int,
                record_h as int,
            )) / 2,
            record_w as int,
        ),
        c.1 as int == spec_norm_coord(
            client_y as int,
            client_h as int,
            dpi as int,
            spec_scaled_h(src_w as int, src_h as int, record_w as int, record_h as int),
            (record_h as int - spec_scaled_h(
                src_w as int,
                src_h as int,
                record_w as int,
                record_h as int,
            )) / 2,
            record_h as int,
        ),
        c.0 <= NORM_SCALE,
        c.1 <= NORM_SCALE,
{
    let g = letterbox_geometry(src_w, src_h, record_w, record_h);
    let x = norm_one(client_x, client_w, dpi, g.scaled_w, g.pad_x, record_w);
    let y = norm_one(client_y, client_h, dpi, g.scaled_h, g.pad_y, record_h);
    (x, y)
}

/// One axis of the cursor mapping, in 128-bit integer arithmetic.
fn norm_one(client: i32, client_dim: u32, dpi: u32, scaled_dim: u32, pad: u32, record_dim: u32)
    -> (r: u32)
    requires
        1 <= client_dim <= 0x4000,
        1 <= dpi <= 0x4000,
        1 <= scaled_dim <= 0x4000,
        0 <= pad <= 0x4000,
        1 <= record_dim <= 0x4000,
        -0x40000000 <= client <= 0x40000000,
    ensures
        r as int == spec_norm_coord(
            client as int,
            client_dim as int,
            dpi as int,
            scaled_dim as int,
            pad as int,
            record_dim as int,
        ),
        r <= NORM_SCALE,
{
    proof {
        assert((client as int) * 96 * (scaled_dim as int) <= 0x40000000 * 96 * 0x4000
            && (client as int) * 96 * (scaled_dim as int) >= -(0x40000000 * 96 * 0x4000)
            && (client as int) * 96 <= 0x40000000 * 96
            && (client as int) * 96 >= -(0x40000000 * 96)
            && 0 <= (pad as int) * (dpi as int) <= 0x4000 * 0x4000
            && 1 <= (dpi as int) * (client_dim as int) <= 0x4000 * 0x4000
            && (pad as int) * (dpi as int) * (client_dim as int) <= 0x4000 * 0x4000 * 0x4000
            && (pad as int) * (dpi as int) * (client_dim as int) >= 0
            && (dpi as int) * (client_dim as int) * (record_dim as int) <= 0x4000 * 0x4000 * 0x4000
            && (dpi as int) * (client_dim as int) * (record_dim as int) >= 1)
            by (nonlinear_arith)
            requires
                1 <= (client_dim as int) <= 0x4000,
                1 <= (dpi as int) <= 0x4000,
                1 <= (scaled_dim as int) <= 0x4000,
                0 <= (pad as int) <= 0x4000,
                1 <= (record_dim as int) <= 0x4000,
                -0x40000000 <= (client as int) <= 0x40000000,
        ;
    }
    let num: i128 = (client as i128) * 96 * (scaled_dim as i128) + (pad as i128) * (dpi as i128)
        * (client_dim as i128);
    let den: i128 = (dpi as i128) * (client_dim as i128) * (record_dim as i128);
    if num < 0 {
        proof {
            let n = num as int * (NORM_SCALE as int);
            vstd::arithmetic::div_mod::lemma_div_pos_is_pos(-n, den as int);
            vstd::arithmetic::div_mod::lemma_div_is_ordered(n, -1, den as int);
            vstd::arithmetic::div_mod::lemma_div_nonincreasing(-1 * -1, den as int);
            assert(n / (den as int) < 0) by {
                if n / (den as int) >= 0 {
                    vstd::arithmetic::div_mod::lemma_fundamental_div_mod(n, den as int);
                    assert((den as int) * (n / (den as int)) >= 0) by (nonlinear_arith)
                        requires
                            (den as int) >= 1,
                            n / (den as int) >= 0,
                    ;
                    assert(n % (den as int) >= 0);
                    assert(n >= 0);
                }
            }
        }
        return 0;
    }
    let nume: u128 = (num as u128) * (NORM_SCALE as u128);
    let raw: u128 = nume / (den as u128);
    if raw > NORM_SCALE as u128 {
        NORM_SCALE
    } else {
        raw as u32
    }
}

/// The cursor's record-space column agrees with the frame letterbox up
/// to sampling granularity: if the cursor over source column `sx` maps
/// to scaled column `rx`, the letterboxed frame shows at `rx` a source
/// column `sx2` at or just below `sx`.
pub proof fn lemma_letterbox_roundtrip(sx: int, src_w: int, scaled_w: int)
    requires
        0 <= sx < src_w,
        1 <= scaled_w,
        1 <= src_w,
    ensures
        ({
            let rx = sx * scaled_w / src_w;
            let sx2 = spec_src_coord(rx, src_w, scaled_w);
            &&& 0 <= rx < scaled_w
            &&& sx2 <= sx
            &&& sx - sx2 <= src_w / scaled_w + 1
        }),
{
    let rx = sx * scaled_w / src_w;
    let sx2 = spec_src_coord(rx, src_w, scaled_w);
    vstd::arithmetic::div_mod::lemma_fundamental_div_mod(sx * scaled_w, src_w);
    let rem = (sx * scaled_w) % src_w;
    assert(0 <= rem < src_w);
    assert(sx * scaled_w == src_w * rx + rem);
    assert(rx >= 0) by {
        vstd::arithmetic::div_mod::lemma_div_pos_is_pos(sx * scaled_w, src_w);
        assert(sx * scaled_w >= 0) by (nonlinear_arith)
            requires
                sx >= 0,
                scaled_w >= 0,
        ;
    }
    assert(rx < scaled_w) by {
        assert(sx * scaled_w <= (src_w - 1) * scaled_w) by (nonlinear_arith)
            requires
                0 <= sx <= src_w - 1,
                scaled_w >= 1,
        ;
        vstd::arithmetic::div_mod::lemma_div_is_ordered(
            sx * scaled_w,
            (src_w - 1) * scaled_w,
            src_w,
        );
        assert(((src_w - 1) * scaled_w) / src_w <= scaled_w - 1) by (nonlinear_arith)
            requires
                src_w >= 1,
                scaled_w >= 1,
        ;
    }
    // Upper: rx * src_w <= sx * scaled_w, so sx2 <= sx.
    assert(rx * src_w <= sx * scaled_w) by (nonlinear_arith)
        requires
            sx * scaled_w == src_w * rx + rem,
            rem >= 0,
    ;
    assert(sx2 <= sx) by {
        vstd::arithmetic::div_mod::lemma_div_is_ordered(rx * src_w, sx * scaled_w, scaled_w);
        assert((sx * scaled_w) / scaled_w == sx) by {
            vstd::arithmetic::div_mod::lemma_div_multiples_vanish(sx, scaled_w);
            assert(scaled_w * sx == sx * scaled_w) by (nonlinear_arith);
        }
    }
    // Lower: rx * src_w == sx * scaled_w - rem with rem < src_w.
    assert(sx - sx2 <= src_w / scaled_w + 1) by {
        assert(rx * src_w == sx * scaled_w - rem) by (nonlinear_arith)
            requires
                sx * scaled_w == src_w * rx + rem,
        ;
        vstd::arithmetic::div_mod::lemma_hoist_over_denominator(0 - rem, sx, scaled_w as nat);
        assert((0 - rem) / scaled_w + sx == (0 - rem + sx * scaled_w) / scaled_w);
        assert(sx2 == sx + (0 - rem) / scaled_w);
        // (-rem) / scaled_w >= -(src_w / scaled_w) - 1
        let q = src_w / scaled_w;
        let m = src_w % scaled_w;
        vstd::arithmetic::div_mod::lemma_fundamental_div_mod(src_w, scaled_w);
        assert((0 - src_w) / scaled_w >= 0 - q - 1) by {
            if m == 0 {
                assert(0 - src_w == (0 - q) * scaled_w + 0) by (nonlinear_arith)
                    requires
                        src_w == scaled_w * q + m,
                        m == 0,
                ;
                vstd::arithmetic::div_mod::lemma_fundamental_div_mod_converse(
                    0 - src_w,
                    scaled_w,
                    0 - q,
                    0,
                );
            } else {
                assert(0 - src_w == (0 - q - 1) * scaled_w + (scaled_w - m)) by (nonlinear_arith)
                    requires
                        src_w == scaled_w * q + m,
                ;
                vstd::arithmetic::div_mod::lemma_fundamental_div_mod_converse(
                    0 - src_w,
                    scaled_w,
                    0 - q - 1,
                    scaled_w - m,
                );
            }
        }
        vstd::arithmetic::div_mod::lemma_div_is_ordered(0 - src_w, 0 - rem, scaled_w);
    }
}


/// Whether the cursor geometry is usable: every dimension nonzero (a
/// target with no visible client area, or a degenerate record or source
/// size, yields no position) and the values inside the integer model's
/// working range.
pub open spec fn cursor_geometry_usable(
    client_x: int,
    client_y: int,
    client_w: int,
    client_h: int,
    dpi: int,
    src_w: int,
    src_h: int,
    record_w: int,
    record_h: int,
) -> bool {
    &&& 1 <= client_w <= 0x4000
    &&& 1 <= client_h <= 0x4000
    &&& 1 <= dpi <= 0x4000
    &&& 1 <= src_w <= 0x4000
    &&& 1 <= src_h <= 0x4000
    &&& 1 <= record_w <= 0x4000
    &&& 1 <= record_h <= 0x4000
    &&& -0x40000000 <= client_x <= 0x40000000
    &&& -0x40000000 <= client_y <= 0x40000000
}

/// Sample the cursor for one step: when the geometry is usable the
/// client point maps through the letterbox into clamped normalized
/// coordinates; when any dimension is zero (or a value leaves the
/// integer model's range) the step reports not-foreground and a
/// zero-coordinate sample. Total: every input yields a well-formed
/// sample, so a shell needs no checks of its own.
pub fn sample_cursor(
    is_foreground: bool,
    visible: bool,
    client_x: i32,
    client_y: i32,
    client_w: u32,
    client_h: u32,
    dpi: u32,
    src_w: u32,
    src_h: u32,
    record_w: u32,
    record_h: u32,
) -> (r: (bool, CursorSample))
    ensures
        ({
            let usable = cursor_geometry_usable(
                client_x as int,
                client_y as int,
                client_w as int,
                client_h as int,
                dpi as int,
                src_w as int,
                src_h as int,
                record_w as int,
                record_h as int,
            );
            &&& r.0 == (usable && is_foreground)
            &&& r.1.visible == visible
            &&& !usable ==> r.1.x_norm == 0 && r.1.y_norm == 0
            &&& usable ==> r.1.x_norm as int == spec_norm_coord(
                client_x as int,
                client_w as int,
                dpi as int,
                spec_scaled_w(src_w as int, src_h as int, record_w as int, record_h as int),
                (record_w as int - spec_scaled_w(
                    src_w as int,
                    src_h as int,
                    record_w as int,
                    record_h as int,
                )) / 2,
                record_w as int,
            )
            &&& usable ==> r.1.y_norm as int == spec_norm_coord(
                client_y as int,
                client_h as int,
                dpi as int,
                spec_scaled_h(src_w as int, src_h as int, record_w as int, record_h as int),
                (record_h as int - spec_scaled_h(
                    src_w as int,
                    src_h as int,
                    record_w as int,
                    record_h as int,
                )) / 2,
                record_h as int,
            )
            &&& r.1.well_formed()
        }),
{
    let usable = 1 <= client_w && client_w <= 0x4000 && 1 <= client_h && client_h <= 0x4000 && 1
        <= dpi && dpi <= 0x4000 && 1 <= src_w && src_w <= 0x4000 && 1 <= src_h && src_h <= 0x4000
        && 1 <= record_w && record_w <= 0x4000 && 1 <= record_h && record_h <= 0x4000
        && -0x40000000 <= client_x && client_x <= 0x40000000 && -0x40000000 <= client_y && client_y
        <= 0x40000000;
    if !usable {
        return (false, CursorSample { visible, x_norm: 0, y_norm: 0 });
    }
    let (x_norm, y_norm) = cursor_norm(
        client_x,
        client_y,
        client_w,
        client_h,
        dpi,
        src_w,
        src_h,
        record_w,
        record_h,
    );
    (is_foreground, CursorSample { visible, x_norm, y_norm })
}

} // verus!
