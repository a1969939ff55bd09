use vstd::prelude::*;
use vstd::pervasive::VecAdditionalExecFns;

verus! {

/// How the viewer scales the captured frame into its window.
#[derive(Debug, Clone, Copy, PartialEq, Eq, Structural)]
pub enum Mode {
    Stretch,
    Fit,
}

/// The window title for `mode`.
pub fn mode_title(mode: Mode) -> (r: &'static str)
    ensures
        r@ == match mode {
            Mode::Stretch => "r_peek [Stretch]"@,
            Mode::Fit => "r_peek [Fit]"@,
        },
{
    match mode {
        Mode::Stretch => "r_peek [Stretch]",
        Mode::Fit => "r_peek [Fit]",
    }
}

/// The `0x00RRGGBB` pixel of the BGRA bytes `b`, `g`, `r`.
pub open spec fn rgb_of(b: u8, g: u8, r: u8) -> u32 {
    (r as int * 65536 + g as int * 256 + b as int) as u32
}

/// The `0x00RRGGBB` pixel of a BGRA pixel's bytes.
pub fn bgra(p: &[u8]) -> (r: u32)
    requires
        p@.len() >= 3,
    ensures
        r == rgb_of(p@[0], p@[1], p@[2]),
{
    let (b, g, r) = (p[0], p[1], p[2]);
    let v = (r as u32) << 16 | (g as u32) << 8 | b as u32;
    assert(v == r as u32 * 65536 + g as u32 * 256 + b as u32) by (bit_vector)
        requires
            v == (r as u32) << 16 | (g as u32) << 8 | b as u32,
    ;
    v
}

/// A colour byte dimmed to 35%, rounded down.
pub open spec fn dimmed(v: int) -> int {
    v * 7 / 20
}

/// `0x00RRGGBB` pixel `c` dimmed: its red, green and blue bytes each scaled
/// to 35% and rounded down; the top byte is dropped.
pub open spec fn dimmed_pixel(c: u32) -> u32 {
    (dimmed(c as int / 65536 % 256) * 65536 + dimmed(c as int / 256 % 256) * 256 + dimmed(
        c as int % 256,
    )) as u32
}

/// Pixel `c` dimmed for the area outside a selection.
pub fn dim(c: u32) -> (r: u32)
    ensures
        r == dimmed_pixel(c),
{
    let red = c / 65536 % 256;
    let green = c / 256 % 256;
    let blue = c % 256;
    red * 7 / 20 * 65536 + green * 7 / 20 * 256 + blue * 7 / 20
}

/// Byte `i` of `src` with each 4-byte pixel's first and third bytes swapped
/// (RGBA to BGRA and back).
pub open spec fn swapped_byte(src: Seq<u8>, i: int) -> u8 {
    let base = i - i % 4;
    if i % 4 == 0 {
        src[base + 2]
    } else if i % 4 == 2 {
        src[base]
    } else {
        src[i]
    }
}

/// The whole pixels of `src` with red and blue swapped, for a BGRA (or RGBA)
/// buffer; a trailing partial pixel is dropped.
pub fn swap_red_blue(src: &[u8]) -> (r: Vec<u8>)
    ensures
        r@.len() == src@.len() - src@.len() % 4,
        forall|i: int| 0 <= i < r@.len() ==> #[trigger] r@[i] == swapped_byte(src@, i),
{
    let n = src.len() / 4;
    let mut out: Vec<u8> = Vec::new();
    let mut p: usize = 0;
    while p < n
        invariant
            p <= n,
            n == src@.len() / 4,
            src@.len() == src.len(),
            out@.len() == 4 * p,
            forall|i: int| 0 <= i < out@.len() ==> #[trigger] out@[i] == swapped_byte(src@, i),
        decreases n - p,
    {
        assert(4 * p + 3 < src@.len()) by (nonlinear_arith)
            requires
                p < n,
                n == src@.len() / 4,
        ;
        let o = 4 * p;
        out.push(src[o + 2]);
        out.push(src[o + 1]);
        out.push(src[o]);
        out.push(src[o + 3]);
        assert forall|i: int| 0 <= i < out@.len() implies #[trigger] out@[i] == swapped_byte(src@, i) by {
            if i >= o {
                assert(i - i % 4 == o as int);
            }
        }
        p += 1;
    }
    out
}

/// Whether pixel `k` of a `w`-wide buffer is pixel `col` of row `top` or of
/// row `bottom`.
pub open spec fn in_rows(k: int, w: int, top: int, bottom: int, col: int) -> bool {
    k == top * w + col || k == bottom * w + col
}

/// Whether pixel `k` of a `w`-wide buffer is pixel `left` or pixel `right`
/// of row `row`.
pub open spec fn in_columns(k: int, w: int, left: int, right: int, row: int) -> bool {
    k == row * w + left || k == row * w + right
}

/// Whether pixel index `k` of a `w`-wide buffer lies on the outline of the
/// selection `[x0, x1) x [y0, y1)`, as the outline is drawn: the top and
/// bottom rows from `x0` to `x1`, the left and right columns from `y0` to `y1`.
pub open spec fn on_outline(k: int, w: int, x0: int, y0: int, x1: int, y1: int) -> bool {
    ||| exists|q: int| x0 <= q < x1 && #[trigger] in_rows(k, w, y0, y1 - 1, q)
    ||| exists|q: int| y0 <= q < y1 && #[trigger] in_columns(k, w, x0, x1 - 1, q)
}

/// Pixel `k` of buffer `b`, `w` pixels wide, dimmed when it lies outside
/// the selection `[x0, x1) x [y0, y1)`.
pub open spec fn shaded_pixel(b: Seq<u32>, k: int, w: int, x0: int, y0: int, x1: int, y1: int) -> u32 {
    if k % w < x0 || k % w >= x1 || k / w < y0 || k / w >= y1 {
        dimmed_pixel(b[k])
    } else {
        b[k]
    }
}

/// The selection overlay drawn into a `w` by `h` buffer: every pixel
/// outside the selection `[x0, x1) x [y0, y1)` is dimmed, then the outline is
/// drawn white. The corners come from the cursor positions clamped to the
/// window; `requires` leaves out the corners whose outline would fall past
/// the end of the buffer.
pub fn shade_selection(dst: &mut Vec<u32>, w: u32, h: u32, x0: u32, y0: u32, x1: u32, y1: u32)
    requires
        old(dst)@.len() == w as int * h as int,
        1 <= w,
        1 <= h,
        x0 <= w,
        y0 <= h,
        1 <= x1 <= w,
        1 <= y1 <= h,
        !(y0 == h && x0 < x1),
        !(x0 == w && y0 < y1 && y1 == h),
    ensures
        final(dst)@.len() == old(dst)@.len(),
        forall|k: int|
            0 <= k < final(dst)@.len() ==> #[trigger] final(dst)@[k] == if on_outline(
                k,
                w as int,
                x0 as int,
                y0 as int,
                x1 as int,
                y1 as int,
            ) {
                0xFFFFFFu32
            } else {
                shaded_pixel(old(dst)@, k, w as int, x0 as int, y0 as int, x1 as int, y1 as int)
            },
{
    let ghost orig = dst@;
    let ghost wi = w as int;
    let n: usize = dst.len();
    let mut py: u32 = 0;
    while py < h
        invariant
            dst@.len() == orig.len() == n == w as int * h as int,
            wi == w,
            1 <= w,
            py <= h,
            forall|k: int| 0 <= k < py as int * wi ==> #[trigger] dst@[k] == shaded_pixel(orig, k, wi, x0 as int, y0 as int, x1 as int, y1 as int),
            forall|k: int| py as int * wi <= k < n ==> #[trigger] dst@[k] == orig[k],
        decreases h - py,
    {
        assert((py as int + 1) * wi <= n) by (nonlinear_arith)
            requires
                py < h,
                n == w as int * h as int,
                wi == w,
        ;
        let mut px: u32 = 0;
        while px < w
            invariant
                dst@.len() == orig.len() == n == w as int * h as int,
                wi == w,
                1 <= w,
                py < h,
                px <= w,
                (py as int + 1) * wi <= n,
                forall|k: int| 0 <= k < py as int * wi + px ==> #[trigger] dst@[k] == shaded_pixel(orig, k, wi, x0 as int, y0 as int, x1 as int, y1 as int),
                forall|k: int| py as int * wi + px <= k < n ==> #[trigger] dst@[k] == orig[k],
            decreases w - px,
        {
            assert(py as int * wi + px < n) by (nonlinear_arith)
                requires
                    px < w,
                    wi == w,
                    (py as int + 1) * wi <= n,
            ;
            let idx: usize = py as usize * w as usize + px as usize;
            proof {
                vstd::arithmetic::div_mod::lemma_fundamental_div_mod_converse(
                    idx as int,
                    wi,
                    py as int,
                    px as int,
                );
            }
            let ghost before = dst@;
            if px < x0 || px >= x1 || py < y0 || py >= y1 {
                let c = dst[idx];
                dst.set(idx, dim(c));
            }
            assert(dst@[idx as int] == shaded_pixel(
                orig,
                idx as int,
                wi,
                x0 as int,
                y0 as int,
                x1 as int,
                y1 as int,
            ));
            assert forall|k: int| 0 <= k < n && k != idx implies #[trigger] dst@[k] == before[k] by {}
            px += 1;
        }
        assert(py as int * wi + px == (py as int + 1) * wi) by (nonlinear_arith)
            requires
                px == w,
                wi == w,
        ;
        py += 1;
    }
    assert(py as int * wi == n) by (nonlinear_arith)
        requires
            py == h,
            wi == w,
            n == w as int * h as int,
    ;
    let ghost shaded_all = dst@;
    assert forall|k: int| 0 <= k < n implies #[trigger] shaded_all[k] == shaded_pixel(orig, k, wi, x0 as int, y0 as int, x1 as int, y1 as int) by {}
    let mut px: u32 = x0;
    while px < x1
        invariant
            dst@.len() == n == w as int * h as int,
            wi == w,
            1 <= w,
            x0 <= w,
            y0 <= h,
            1 <= x1 <= w,
            1 <= y1 <= h,
            !(y0 == h && x0 < x1),
            x0 <= px,
            px <= x1 || px == x0,
            forall|k: int|
                0 <= k < n ==> #[trigger] dst@[k] == if exists|q: int| x0 <= q < px && #[trigger] in_rows(k, wi, y0 as int, y1 - 1, q) {
                    0xFFFFFFu32
                } else {
                    shaded_all[k]
                },
        decreases x1 - px,
    {
        assert(y0 < h);
        assert(y0 as int * wi + px < n && (y1 as int - 1) * wi + px < n) by (nonlinear_arith)
            requires
                y0 < h,
                1 <= y1 <= h,
                px < x1 <= w,
                n == w as int * h as int,
                wi == w,
        ;
        let top: usize = y0 as usize * w as usize + px as usize;
        let bottom: usize = (y1 - 1) as usize * w as usize + px as usize;
        let ghost before = dst@;
        dst.set(top, 0xFFFFFF);
        dst.set(bottom, 0xFFFFFF);
        assert forall|k: int| 0 <= k < n implies #[trigger] dst@[k] == if exists|q: int| x0 <= q < px + 1 && #[trigger] in_rows(k, wi, y0 as int, y1 - 1, q) {
            0xFFFFFFu32
        } else {
            shaded_all[k]
        } by {
            if k == top || k == bottom {
                assert(x0 <= px < px + 1 && in_rows(k, wi, y0 as int, y1 - 1, px as int));
            } else {
                if exists|q: int| x0 <= q < px + 1 && #[trigger] in_rows(k, wi, y0 as int, y1 - 1, q) {
                    let q = choose|q: int| x0 <= q < px + 1 && #[trigger] in_rows(k, wi, y0 as int, y1 - 1, q);
                    assert(q != px);
                    assert(x0 <= q < px && in_rows(k, wi, y0 as int, y1 - 1, q));
                }
                assert(dst@[k] == before[k]);
            }
        }
        px += 1;
    }
    let ghost framed = dst@;
    assert forall|k: int| 0 <= k < n implies #[trigger] framed[k] == if exists|q: int| x0 <= q < x1 && #[trigger] in_rows(k, wi, y0 as int, y1 - 1, q) {
        0xFFFFFFu32
    } else {
        shaded_all[k]
    } by {
        if x1 <= x0 {
            assert(!exists|q: int| x0 <= q < x1 && #[trigger] in_rows(k, wi, y0 as int, y1 - 1, q));
            assert(!exists|q: int| x0 <= q < px && #[trigger] in_rows(k, wi, y0 as int, y1 - 1, q));
        }
    }
    let mut qy: u32 = y0;
    while qy < y1
        invariant
            dst@.len() == n == w as int * h as int,
            wi == w,
            1 <= w,
            x0 <= w,
            y0 <= h,
            1 <= x1 <= w,
            1 <= y1 <= h,
            !(x0 == w && y0 < y1 && y1 == h),
            y0 <= qy,
            qy <= y1 || qy == y0,
            forall|k: int|
                0 <= k < n ==> #[trigger] dst@[k] == if exists|q: int| y0 <= q < qy && #[trigger] in_columns(k, wi, x0 as int, x1 - 1, q) {
                    0xFFFFFFu32
                } else {
                    framed[k]
                },
        decreases y1 - qy,
    {
        assert(qy as int * wi + x0 < n && qy as int * wi + x1 - 1 < n) by (nonlinear_arith)
            requires
                qy < y1 <= h,
                x0 <= w,
                1 <= x1 <= w,
                !(x0 == w && y1 == h),
                n == w as int * h as int,
                wi == w,
        ;
        let left: usize = qy as usize * w as usize + x0 as usize;
        let right: usize = qy as usize * w as usize + (x1 - 1) as usize;
        let ghost before = dst@;
        dst.set(left, 0xFFFFFF);
        dst.set(right, 0xFFFFFF);
        assert forall|k: int| 0 <= k < n implies #[trigger] dst@[k] == if exists|q: int| y0 <= q < qy + 1 && #[trigger] in_columns(k, wi, x0 as int, x1 - 1, q) {
            0xFFFFFFu32
        } else {
            framed[k]
        } by {
            if k == left || k == right {
                assert(y0 <= qy < qy + 1 && in_columns(k, wi, x0 as int, x1 - 1, qy as int));
            } else {
                if exists|q: int| y0 <= q < qy + 1 && #[trigger] in_columns(k, wi, x0 as int, x1 - 1, q) {
                    let q = choose|q: int| y0 <= q < qy + 1 && #[trigger] in_columns(k, wi, x0 as int, x1 - 1, q);
                    assert(q != qy);
                    assert(y0 <= q < qy && in_columns(k, wi, x0 as int, x1 - 1, q));
                }
                assert(dst@[k] == before[k]);
            }
        }
        qy += 1;
    }
    assert forall|k: int| 0 <= k < dst@.len() implies #[trigger] dst@[k] == if on_outline(
        k,
        w as int,
        x0 as int,
        y0 as int,
        x1 as int,
        y1 as int,
    ) {
        0xFFFFFFu32
    } else {
        shaded_pixel(orig, k, wi, x0 as int, y0 as int, x1 as int, y1 as int)
    } by {
        if y1 <= y0 {
            assert(!exists|q: int| y0 <= q < y1 && #[trigger] in_columns(k, wi, x0 as int, x1 - 1, q));
            assert(!exists|q: int| y0 <= q < qy && #[trigger] in_columns(k, wi, x0 as int, x1 - 1, q));
        }
    }
}

/// Where the source pixel of destination pixel `k` starts, when `k` lies in
/// the `cw` by `ch` block at column `dx`, row `dy` of a `buf_w`-wide buffer:
/// the block is copied from column `ox`, row `oy` of a BGRA source with
/// `stride` bytes per row.
pub open spec fn block_source(
    k: int,
    buf_w: int,
    dx: int,
    dy: int,
    stride: int,
    ox: int,
    oy: int,
    cw: int,
    ch: int,
) -> Option<int> {
    let row = k / buf_w;
    let col = k % buf_w;
    if dy <= row < dy + ch && dx <= col < dx + cw {
        Some((oy + row - dy) * stride + (ox + col - dx) * 4)
    } else {
        None
    }
}

/// Copies a `cw` by `ch` block of BGRA source pixels, from column `ox`, row
/// `oy` of a source with `stride` bytes per row, into the `buf_w`-wide
/// buffer `dst` at column `dx`, row `dy`, each pixel as `0x00RRGGBB`; the
/// rest of `dst` is left as it was. The block lies within the rows of both
/// buffers, and the offsets fit in `u32`.
pub fn copy_block(
    dst: &mut Vec<u32>,
    buf_w: u32,
    dx: u32,
    dy: u32,
    src: &[u8],
    stride: u32,
    ox: u32,
    oy: u32,
    cw: u32,
    ch: u32,
)
    requires
        dx as int + cw <= buf_w,
        ox as int * 4 + cw as int * 4 <= stride,
        (dy as int + ch) * buf_w <= old(dst)@.len(),
        (oy as int + ch) * stride <= src@.len(),
        (dy as int + ch) * buf_w <= u32::MAX,
        (oy as int + ch) * stride <= u32::MAX,
    ensures
        final(dst)@.len() == old(dst)@.len(),
        forall|k: int|
            0 <= k < final(dst)@.len() ==> #[trigger] final(dst)@[k] == match block_source(
                k,
                buf_w as int,
                dx as int,
                dy as int,
                stride as int,
                ox as int,
                oy as int,
                cw as int,
                ch as int,
            ) {
                Some(o) => rgb_of(src@[o], src@[o + 1], src@[o + 2]),
                None => old(dst)@[k],
            },
{
    let ghost orig = dst@;
    let ghost n = dst@.len() as int;
    let ghost bw = buf_w as int;
    let mut y: u32 = 0;
    while y < ch
        invariant
            dst@.len() == n,
            bw == buf_w,
            dx as int + cw <= buf_w,
            ox as int * 4 + cw as int * 4 <= stride,
            (dy as int + ch) * buf_w <= n,
            (oy as int + ch) * stride <= src@.len(),
            (dy as int + ch) * buf_w <= u32::MAX,
            (oy as int + ch) * stride <= u32::MAX,
            y <= ch,
            forall|k: int|
                0 <= k < n ==> #[trigger] dst@[k] == match block_source(
                    k,
                    bw,
                    dx as int,
                    dy as int,
                    stride as int,
                    ox as int,
                    oy as int,
                    cw as int,
                    y as int,
                ) {
                    Some(o) => rgb_of(src@[o], src@[o + 1], src@[o + 2]),
                    None => orig[k],
                },
        decreases ch - y,
    {
        assert((dy as int + y + 1) * bw <= (dy as int + ch) * bw && (oy as int + y + 1) * stride <= (
        oy as int + ch) * stride) by (nonlinear_arith)
            requires
                y < ch,
                bw >= 0,
                stride >= 0,
        ;
        let mut x: u32 = 0;
        while x < cw
            invariant
                dst@.len() == n,
                bw == buf_w,
                dx as int + cw <= buf_w,
                ox as int * 4 + cw as int * 4 <= stride,
                (dy as int + y + 1) * bw <= n,
                (oy as int + y + 1) * stride <= src@.len(),
                (dy as int + y + 1) * bw <= u32::MAX,
                (oy as int + y + 1) * stride <= u32::MAX,
                y < ch,
                x <= cw,
                forall|k: int|
                    0 <= k < n ==> #[trigger] dst@[k] == match block_source(
                        k,
                        bw,
                        dx as int,
                        dy as int,
                        stride as int,
                        ox as int,
                        oy as int,
                        cw as int,
                        y as int,
                    ) {
                        Some(o) => rgb_of(src@[o], src@[o + 1], src@[o + 2]),
                        None => if k / bw == dy + y && dx <= k % bw < dx + x {
                            rgb_of(
                                src@[(oy + y) * stride + (ox + k % bw - dx) * 4],
                                src@[(oy + y) * stride + (ox + k % bw - dx) * 4 + 1],
                                src@[(oy + y) * stride + (ox + k % bw - dx) * 4 + 2],
                            )
                        } else {
                            orig[k]
                        },
                    },
            decreases cw - x,
        {
            let ghost row = dy as int + y;
            let ghost col = dx as int + x;
            assert(row * bw + col < n && row * bw + col <= u32::MAX) by (nonlinear_arith)
                requires
                    col < bw,
                    (row + 1) * bw <= n,
                    (row + 1) * bw <= u32::MAX,
            ;
            assert((oy as int + y) * stride + (ox as int + x) * 4 + 3 < src@.len() && (oy as int
                + y) * stride + (ox as int + x) * 4 + 3 <= u32::MAX) by (nonlinear_arith)
                requires
                    x < cw,
                    ox as int * 4 + cw as int * 4 <= stride,
                    (oy as int + y + 1) * stride <= src@.len(),
                    (oy as int + y + 1) * stride <= u32::MAX,
            ;
            assert(dy as int + y + 1 <= u32::MAX && oy as int + y + 1 <= u32::MAX) by (
            nonlinear_arith)
                requires
                    (dy as int + y + 1) * bw <= u32::MAX,
                    (oy as int + y + 1) * stride <= u32::MAX,
                    bw >= 1,
                    stride >= 1,
                    dy as int + y + 1 >= 0,
                    oy as int + y + 1 >= 0,
            ;
            let k: usize = ((dy + y) * buf_w + dx + x) as usize;
            let so: usize = ((oy + y) * stride + (ox + x) * 4) as usize;
            proof {
                vstd::arithmetic::div_mod::lemma_fundamental_div_mod_converse(
                    k as int,
                    bw,
                    row,
                    col,
                );
            }
            let ghost before = dst@;
            let v = bgra(&src[so..so + 3]);
            assert(src@.subrange(so as int, so + 3)[0] == src@[so as int]);
            assert(src@.subrange(so as int, so + 3)[1] == src@[so + 1]);
            assert(src@.subrange(so as int, so + 3)[2] == src@[so + 2]);
            dst.set(k, v);
            x += 1;
            assert forall|j: int| 0 <= j < n implies #[trigger] dst@[j] == match block_source(
                j,
                bw,
                dx as int,
                dy as int,
                stride as int,
                ox as int,
                oy as int,
                cw as int,
                y as int,
            ) {
                Some(o) => rgb_of(src@[o], src@[o + 1], src@[o + 2]),
                None => if j / bw == dy + y && dx <= j % bw < dx + x {
                    rgb_of(
                        src@[(oy + y) * stride + (ox + j % bw - dx) * 4],
                        src@[(oy + y) * stride + (ox + j % bw - dx) * 4 + 1],
                        src@[(oy + y) * stride + (ox + j % bw - dx) * 4 + 2],
                    )
                } else {
                    orig[j]
                },
            } by {
                if j != k {
                    assert(dst@[j] == before[j]);
                    if j / bw == dy + y && dx <= j % bw < dx + x {
                        assert(j % bw != col) by {
                            if j % bw == col {
                                vstd::arithmetic::div_mod::lemma_fundamental_div_mod(j, bw);
                            }
                        }
                    }
                }
            }
        }
        y += 1;
        assert forall|j: int| 0 <= j < n implies #[trigger] dst@[j] == match block_source(
            j,
            bw,
            dx as int,
            dy as int,
            stride as int,
            ox as int,
            oy as int,
            cw as int,
            y as int,
        ) {
            Some(o) => rgb_of(src@[o], src@[o + 1], src@[o + 2]),
            None => orig[j],
        } by {
            if j / bw == dy + y - 1 && dx <= j % bw < dx + cw {
                assert((oy + j / bw - dy) * stride == (oy + y - 1) * stride);
            }
        }
    }
}

/// Swapping red and blue twice gives back the pixels.
pub proof fn lemma_swap_red_blue_twice(src: Seq<u8>, i: int)
    requires
        src.len() % 4 == 0,
        0 <= i < src.len(),
    ensures
        swapped_byte(Seq::new(src.len(), |j: int| swapped_byte(src, j)), i) == src[i],
{
    let once = Seq::new(src.len(), |j: int| swapped_byte(src, j));
    let base = i - i % 4;
    assert(base + 3 < src.len()) by (nonlinear_arith)
        requires
            src.len() % 4 == 0,
            0 <= i < src.len(),
            base == i - i % 4,
    ;
    assert((base + 2) % 4 == 2 && (base + 2) - (base + 2) % 4 == base);
    assert(base % 4 == 0 && base - base % 4 == base);
}

/// The colour layout of a decoded PNG frame.
#[derive(Debug, Clone, Copy, PartialEq, Eq, Structural)]
pub enum PngColor {
    Rgb,
    Rgba,
    /// Grey, grey with alpha, or indexed.
    Other,
}

/// A decoded PNG image: width, height, colour layout and the frame buffer.
pub struct DecodedPng {
    pub width: u32,
    pub height: u32,
    pub color: PngColor,
    pub pixels: Vec<u8>,
}

/// What `png` decodes from the PNG file `bytes` with 8-bit normalisation
/// (`Transformations::normalize_to_color8`): width, height, colour layout and
/// frame buffer; `None` when it cannot be decoded.
pub uninterp spec fn png_decoded(bytes: Seq<u8>) -> Option<(u32, u32, PngColor, Seq<u8>)>;

/// Decodes the first frame of the PNG file `bytes` with `png::Decoder`,
/// normalised to 8-bit colour. Claims only that the outcome is a function of
/// `bytes`.
#[verifier::external_body]
fn decode_png(bytes: &[u8]) -> (r: Option<DecodedPng>)
    ensures
        match r {
            Some(d) => png_decoded(bytes@) == Some((d.width, d.height, d.color, d.pixels@)),
            None => png_decoded(bytes@) is None,
        },
{
    let mut decoder = png::Decoder::new(std::io::Cursor::new(bytes));
    decoder.set_transformations(png::Transformations::normalize_to_color8());
    let mut reader = decoder.read_info().ok()?;
    let mut buf = vec![0; reader.output_buffer_size()?];
    let info = reader.next_frame(&mut buf).ok()?;
    let color = match info.color_type {
        png::ColorType::Rgb => PngColor::Rgb,
        png::ColorType::Rgba => PngColor::Rgba,
        _ => PngColor::Other,
    };
    Some(DecodedPng { width: info.width, height: info.height, color, pixels: buf })
}

/// Byte `i` of the BGRA image converted from RGB bytes `src`.
pub open spec fn bgra_from_rgb(src: Seq<u8>, i: int) -> u8 {
    let px = i / 4;
    if i % 4 == 0 {
        src[3 * px + 2]
    } else if i % 4 == 1 {
        src[3 * px + 1]
    } else if i % 4 == 2 {
        src[3 * px]
    } else {
        255
    }
}

/// The frame buffer of an RGB or RGBA image as BGRA bytes (whole pixels
/// only); `None` for other colour layouts.
pub fn to_bgra(color: PngColor, pixels: &[u8]) -> (r: Option<Vec<u8>>)
    ensures
        match color {
            PngColor::Rgba => r matches Some(v) && v@.len() == pixels@.len() - pixels@.len() % 4
                && forall|i: int| 0 <= i < v@.len() ==> #[trigger] v@[i] == swapped_byte(pixels@, i),
            PngColor::Rgb => r matches Some(v) && v@.len() == 4 * (pixels@.len() / 3) && forall|i: int|
                0 <= i < v@.len() ==> #[trigger] v@[i] == bgra_from_rgb(pixels@, i),
            PngColor::Other => r is None,
        },
{
    match color {
        PngColor::Rgba => Some(swap_red_blue(pixels)),
        PngColor::Rgb => {
            let n = pixels.len() / 3;
            let mut out: Vec<u8> = Vec::new();
            let mut p: usize = 0;
            while p < n
                invariant
                    p <= n,
                    n == pixels@.len() / 3,
                    pixels@.len() == pixels.len(),
                    out@.len() == 4 * p,
                    forall|i: int| 0 <= i < out@.len() ==> #[trigger] out@[i] == bgra_from_rgb(pixels@, i),
                decreases n - p,
            {
                assert(3 * p + 2 < pixels@.len()) by (nonlinear_arith)
                    requires
                        p < n,
                        n == pixels@.len() / 3,
                ;
                let o = 3 * p;
                out.push(pixels[o + 2]);
                out.push(pixels[o + 1]);
                out.push(pixels[o]);
                out.push(255);
                assert forall|i: int| 0 <= i < out@.len() implies #[trigger] out@[i] == bgra_from_rgb(pixels@, i) by {
                    if i >= 4 * p {
                        assert(i / 4 == p as int);
                    }
                }
                p += 1;
            }
            Some(out)
        },
        PngColor::Other => None,
    }
}

/// The start-up logo from the PNG file `bytes`: width, height and BGRA pixels.
pub fn load_logo(bytes: &[u8]) -> (r: Option<(u32, u32, Vec<u8>)>)
    ensures
        match png_decoded(bytes@) {
            None => r is None,
            Some((w, h, c, px)) => match c {
                PngColor::Other => r is None,
                PngColor::Rgba => r matches Some((rw, rh, v)) && rw == w && rh == h && v@.len()
                    == px.len() - px.len() % 4 && forall|i: int|
                    0 <= i < v@.len() ==> #[trigger] v@[i] == swapped_byte(px, i),
                PngColor::Rgb => r matches Some((rw, rh, v)) && rw == w && rh == h && v@.len() == 4
                    * (px.len() / 3) && forall|i: int|
                    0 <= i < v@.len() ==> #[trigger] v@[i] == bgra_from_rgb(px, i),
            },
        },
{
    let d = decode_png(bytes)?;
    let v = to_bgra(d.color, d.pixels.as_slice())?;
    Some((d.width, d.height, v))
}


/// A window event, as far as the viewer tells events apart.
#[derive(Debug, Clone, Copy, PartialEq, Eq, Structural)]
pub enum PeekEvent {
    CloseRequested,
    CursorMoved,
    EscapeKey,
    SpaceKey,
    SKey,
    FKey,
    OtherKey,
    LeftPressed,
    LeftReleased,
    OtherButton,
    Resized,
    RedrawRequested,
    Other,
}

/// What the viewer does for one window event.
pub struct PeekStep {
    /// Leave the event loop.
    pub exit: bool,
    /// Tell a running capture to stop, and drop the frame if one was streaming.
    pub stop_capture: bool,
    /// Show the whole frame again.
    pub reset_crop: bool,
    /// The scaling mode from now on.
    pub mode: Mode,
    /// Set the window title to that of `mode`.
    pub set_title: bool,
    /// Ask the screen-cast portal for a stream; the request is then under
    /// way, so at most one is in flight.
    pub start_capture: bool,
    /// Start a selection at the cursor.
    pub begin_selection: bool,
    /// End the selection and zoom into it.
    pub end_selection: bool,
    /// Ask for a redraw.
    pub redraw: bool,
    /// Draw now.
    pub paint: bool,
}

/// The viewer's response to `event` in `mode`, with a selection under way or
/// not, a capture streaming or not, and a portal request under way or not:
/// close exits; the cursor redraws while selecting; Escape stops the capture
/// and shows the whole frame, Space shows the whole frame, S and F switch to
/// stretch and fit; a left press asks for a capture when none streams and no
/// request is under way, and starts a selection when a capture streams; a
/// left release ends a selection under way; a resize redraws, a redraw
/// request draws.
pub fn window_step(
    mode: Mode,
    selecting: bool,
    streaming: bool,
    requesting: bool,
    event: PeekEvent,
) -> (r: PeekStep)
    ensures
        r.exit == (event == PeekEvent::CloseRequested),
        r.stop_capture == (event == PeekEvent::EscapeKey),
        r.reset_crop == (event == PeekEvent::EscapeKey || event == PeekEvent::SpaceKey),
        r.mode == (if event == PeekEvent::SKey {
            Mode::Stretch
        } else if event == PeekEvent::FKey {
            Mode::Fit
        } else {
            mode
        }),
        r.set_title == (event == PeekEvent::SKey || event == PeekEvent::FKey),
        r.start_capture == (event == PeekEvent::LeftPressed && !streaming && !requesting),
        r.begin_selection == (event == PeekEvent::LeftPressed && streaming),
        r.end_selection == (event == PeekEvent::LeftReleased && selecting),
        r.redraw == (((event == PeekEvent::CursorMoved || event == PeekEvent::LeftReleased)
            && selecting) || event == PeekEvent::EscapeKey || event == PeekEvent::SpaceKey || event
            == PeekEvent::SKey || event == PeekEvent::FKey || event == PeekEvent::Resized),
        r.paint == (event == PeekEvent::RedrawRequested),
{
    let mut step = PeekStep {
        exit: false,
        stop_capture: false,
        reset_crop: false,
        mode,
        set_title: false,
        start_capture: false,
        begin_selection: false,
        end_selection: false,
        redraw: false,
        paint: false,
    };
    match event {
        PeekEvent::CloseRequested => {
            step.exit = true;
        },
        PeekEvent::CursorMoved => {
            step.redraw = selecting;
        },
        PeekEvent::EscapeKey => {
            step.stop_capture = true;
            step.reset_crop = true;
            step.redraw = true;
        },
        PeekEvent::SpaceKey => {
            step.reset_crop = true;
            step.redraw = true;
        },
        PeekEvent::SKey => {
            step.mode = Mode::Stretch;
            step.set_title = true;
            step.redraw = true;
        },
        PeekEvent::FKey => {
            step.mode = Mode::Fit;
            step.set_title = true;
            step.redraw = true;
        },
        PeekEvent::LeftPressed => {
            if streaming {
                step.begin_selection = true;
            } else if !requesting {
                step.start_capture = true;
            }
        },
        PeekEvent::LeftReleased => {
            if selecting {
                step.end_selection = true;
                step.redraw = true;
            }
        },
        PeekEvent::Resized => {
            step.redraw = true;
        },
        PeekEvent::RedrawRequested => {
            step.paint = true;
        },
        _ => {},
    }
    step
}

} // verus!
