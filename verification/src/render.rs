//! The region renderer and the banded dispatcher composition.
//!
//! The per-pixel shade is passed in as a function value, so the same
//! verified filling loop serves every band; the caller supplies the
//! escape-time computation. The contracts pin the write pattern down:
//! every cell of a band is written exactly once, in row-major order, with
//! a value the shade function admits for that cell's absolute pixel
//! coordinates - so the banding cannot show in the assembled image.

use vstd::prelude::*;
use vstd::arithmetic::div_mod::lemma_fundamental_div_mod;

verus! {

/// Determinism of the filling pattern: a row-major buffer whose every cell
/// satisfies a deterministic per-pixel rule is uniquely determined. Two
/// rendered buffers of the same bounds whose cells obey the same rule - in
/// whatever band order each was filled - are equal.
pub proof fn lemma_fill_deterministic(
    a: Seq<u8>,
    b: Seq<u8>,
    width: int,
    height: int,
    rule: spec_fn(int, int, u8) -> bool,
)
    requires
        0 <= width,
        0 <= height,
        a.len() == width * height,
        b.len() == width * height,
        forall|r: int, c: int|
            0 <= r < height && 0 <= c < width ==> rule(c, r, #[trigger] a[r * width + c]),
        forall|r: int, c: int|
            0 <= r < height && 0 <= c < width ==> rule(c, r, #[trigger] b[r * width + c]),
        forall|c: int, r: int, v: u8, w: u8|
            #[trigger] rule(c, r, v) && #[trigger] rule(c, r, w) ==> v == w,
    ensures
        a =~= b,
{
    assert forall|k: int| 0 <= k < a.len() implies a[k] == b[k] by {
        assert(0 < width) by (nonlinear_arith)
            requires
                0 <= k < width * height,
                0 <= width,
                0 <= height;
        let r = k / width;
        let c = k % width;
        lemma_fundamental_div_mod(k, width);
        assert(0 <= r < height && 0 <= c < width && r * width + c == k) by (nonlinear_arith)
            requires
                0 < width,
                0 <= height,
                0 <= k < width * height,
                k == width * r + c,
                0 <= c < width;
        assert(rule(c, r, a[r * width + c]));
        assert(rule(c, r, b[r * width + c]));
    }
}

/// Rendering determinism: two buffers that both carry the renderer's
/// contract for the same bounds and the same shade function - however many
/// bands or workers each rendering used - are equal, provided the shade
/// function admits only one value per pixel.
pub proof fn lemma_render_deterministic<F: Fn(usize, usize) -> u8>(
    a: Seq<u8>,
    b: Seq<u8>,
    width: int,
    height: int,
    shade: F,
)
    requires
        0 <= width,
        0 <= height,
        a.len() == width * height,
        b.len() == width * height,
        forall|r: int, c: int|
            0 <= r < height && 0 <= c < width ==> call_ensures(
                shade,
                ((c as usize), (r as usize)),
                #[trigger] a[r * width + c],
            ),
        forall|r: int, c: int|
            0 <= r < height && 0 <= c < width ==> call_ensures(
                shade,
                ((c as usize), (r as usize)),
                #[trigger] b[r * width + c],
            ),
        forall|x: (usize, usize), v: u8, w: u8|
            #[trigger] call_ensures(shade, x, v) && #[trigger] call_ensures(shade, x, w) ==> v
                == w,
    ensures
        a =~= b,
{
    let rule = |c: int, r: int, v: u8| call_ensures(shade, ((c as usize), (r as usize)), v);
    assert forall|r: int, c: int| 0 <= r < height && 0 <= c < width implies rule(
        c,
        r,
        #[trigger] a[r * width + c],
    ) by {
        assert(call_ensures(shade, ((c as usize), (r as usize)), a[r * width + c]));
    }
    assert forall|r: int, c: int| 0 <= r < height && 0 <= c < width implies rule(
        c,
        r,
        #[trigger] b[r * width + c],
    ) by {
        assert(call_ensures(shade, ((c as usize), (r as usize)), b[r * width + c]));
    }
    assert forall|c: int, r: int, v: u8, w: u8|
        #[trigger] rule(c, r, v) && #[trigger] rule(c, r, w) implies v == w by {
        assert(call_ensures(shade, ((c as usize), (r as usize)), v));
        assert(call_ensures(shade, ((c as usize), (r as usize)), w));
    }
    lemma_fill_deterministic(a, b, width, height, rule);
}

/// Fill one band's buffer: cell (`c`, `r`) of the band's `width` x
/// `height` raster receives a value `v` with
/// `call_ensures(shade, (c, top + r), v)`, at flat index `r * width + c` -
/// the shade function sees absolute image coordinates, the band starting
/// at image row `top`. Nothing but the band's cells is touched, and the
/// buffer keeps its length.
pub fn render_band<F: Fn(usize, usize) -> u8 + Copy>(
    pixels: &mut [u8],
    width: usize,
    height: usize,
    top: usize,
    shade: F,
)
    requires
        old(pixels)@.len() == width * height,
        top + height <= usize::MAX,
        forall|c: usize, r: usize|
            c < width && top <= r < top + height ==> call_requires(shade, (c, r)),
    ensures
        final(pixels)@.len() == width * height,
        forall|r: int, c: int|
            0 <= r < height && 0 <= c < width ==> call_ensures(
                shade,
                ((c as usize), ((top + r) as usize)),
                #[trigger] final(pixels)@[r * width + c],
            ),
{
    let n = pixels.len();
    assert(n == width * height);
    let mut row: usize = 0;
    while row < height
        invariant
            pixels@.len() == width * height,
            width * height <= usize::MAX,
            top + height <= usize::MAX,
            row <= height,
            forall|c: usize, r: usize|
                c < width && top <= r < top + height ==> call_requires(shade, (c, r)),
            forall|rr: int, cc: int|
                0 <= rr < row && 0 <= cc < width ==> call_ensures(
                    shade,
                    ((cc as usize), ((top + rr) as usize)),
                    #[trigger] pixels@[rr * width + cc],
                ),
        decreases height - row,
    {
        let mut col: usize = 0;
        while col < width
            invariant
                pixels@.len() == width * height,
                width * height <= usize::MAX,
                top + height <= usize::MAX,
                row < height,
                col <= width,
                forall|c: usize, r: usize|
                    c < width && top <= r < top + height ==> call_requires(shade, (c, r)),
                forall|rr: int, cc: int|
                    0 <= rr < row && 0 <= cc < width ==> call_ensures(
                        shade,
                        ((cc as usize), ((top + rr) as usize)),
                        #[trigger] pixels@[rr * width + cc],
                    ),
                forall|cc: int|
                    0 <= cc < col ==> call_ensures(
                        shade,
                        ((cc as usize), ((top + row) as usize)),
                        #[trigger] pixels@[row * width + cc],
                    ),
            decreases width - col,
        {
            let v = shade(col, top + row);
            let idx = crate::raster::pixel_index(width, height, col, row);
            let ghost prev = pixels@;
            pixels[idx] = v;
            proof {
                let gidx = row * width + col;
                assert(pixels@ == prev.update(gidx, v));
                assert forall|rr: int, cc: int|
                    0 <= rr < row && 0 <= cc < width implies call_ensures(
                    shade,
                    ((cc as usize), ((top + rr) as usize)),
                    #[trigger] pixels@[rr * width + cc],
                ) by {
                    assert(rr * width + cc < gidx) by (nonlinear_arith)
                        requires
                            0 <= rr,
                            rr < row,
                            0 <= cc,
                            cc < width,
                            0 <= col,
                            gidx == row * width + col;
                    assert(pixels@[rr * width + cc] == prev[rr * width + cc]);
                }
                assert forall|cc: int| 0 <= cc < col + 1 implies call_ensures(
                    shade,
                    ((cc as usize), ((top + row) as usize)),
                    #[trigger] pixels@[row * width + cc],
                ) by {
                    if cc < col {
                        assert(pixels@[row * width + cc] == prev[row * width + cc]);
                    } else {
                        assert(pixels@[gidx] == v);
                    }
                }
            }
            col = col + 1;
        }
        row = row + 1;
    }
}

/// The dispatcher's banded composition, run band by band: plan the
/// partition, render every band against absolute pixel coordinates, and
/// assemble the bands in order. However the image was banded, cell (c, r)
/// of the assembled buffer holds a value the shade function admits for
/// pixel (c, r): the banding does not show in the result.
pub fn render_banded<F: Fn(usize, usize) -> u8 + Copy>(
    width: usize,
    height: usize,
    workers: usize,
    shade: F,
) -> (pixels: Vec<u8>)
    requires
        1 <= workers,
        height < usize::MAX,
        width * height <= usize::MAX,
        forall|c: usize, r: usize| c < width && r < height ==> call_requires(shade, (c, r)),
    ensures
        pixels@.len() == width * height,
        forall|r: int, c: int|
            0 <= r < height && 0 <= c < width ==> call_ensures(
                shade,
                ((c as usize), (r as usize)),
                #[trigger] pixels@[r * width + c],
            ),
{
    let plan = crate::bands::band_plan(height, workers);
    let ghost grpb: int = crate::bands::spec_rows_per_band(height as int, workers as int);
    let mut pixels: Vec<u8> = Vec::new();
    let ghost mut rows_done: int = 0;
    let mut bi: usize = 0;
    proof {
        assert(1 <= grpb) by (nonlinear_arith)
            requires
                grpb == height as int / workers as int + 1,
                0 <= height,
                1 <= workers;
        if plan@.len() > 0 {
            assert(plan@[0].top == 0 * grpb);
            assert(0 * grpb == 0) by (nonlinear_arith);
        } else {
            assert(height as int <= plan@.len() * grpb);
            assert(plan@.len() * grpb == 0 * grpb);
            assert(0 * grpb == 0) by (nonlinear_arith);
        }
        assert(pixels@.len() == 0 * width) by (nonlinear_arith)
            requires
                pixels@.len() == 0;
    }
    while bi < plan.len()
        invariant
            crate::bands::is_band_plan(plan@, height as int, grpb),
            1 <= grpb,
            bi <= plan@.len(),
            width * height <= usize::MAX,
            height < usize::MAX,
            forall|c: usize, r: usize| c < width && r < height ==> call_requires(shade, (c, r)),
            rows_done == if bi < plan@.len() {
                plan@[bi as int].top as int
            } else {
                height as int
            },
            0 <= rows_done <= height,
            pixels@.len() == rows_done * width,
            forall|r: int, c: int|
                0 <= r < rows_done && 0 <= c < width ==> call_ensures(
                    shade,
                    ((c as usize), (r as usize)),
                    #[trigger] pixels@[r * width + c],
                ),
        decreases plan@.len() - bi,
    {
        let band = plan[bi];
        let top = band.top;
        let bh = band.height;
        let ghost gbi: int = bi as int;
        proof {
            assert(plan@[gbi].top == gbi * grpb);
            assert(plan@[gbi].height == crate::bands::spec_band_height(height as int, grpb, gbi));
            // The band ends within the image.
            assert(top + bh <= height) by (nonlinear_arith)
                requires
                    top == gbi * grpb,
                    bh == (
                        if height as int - gbi * grpb < grpb {
                            height as int - gbi * grpb
                        } else {
                            grpb
                        }
                    ),
                    0 <= gbi,
                    gbi < plan@.len(),
                    (plan@.len() - 1) * grpb < height,
                    1 <= grpb;
            assert(width * bh <= width * height) by (nonlinear_arith)
                requires
                    0 <= width,
                    0 <= bh,
                    bh <= height;
        }
        let mut band_buf = crate::raster::alloc_buffer(width, bh);
        render_band(band_buf.as_mut_slice(), width, bh, top, shade);
        let ghost band_seq = band_buf@;
        let ghost prev = pixels@;
        pixels.append(&mut band_buf);
        proof {
            assert(pixels@ == prev + band_seq);
            assert(rows_done == top);
            let new_rows = rows_done + bh;
            assert(pixels@.len() == new_rows * width) by (nonlinear_arith)
                requires
                    pixels@.len() == prev.len() + band_seq.len(),
                    prev.len() == rows_done * width,
                    band_seq.len() == width * bh,
                    new_rows == rows_done + bh;
            assert forall|r: int, c: int| 0 <= r < new_rows && 0 <= c < width implies call_ensures(
                shade,
                ((c as usize), (r as usize)),
                #[trigger] pixels@[r * width + c],
            ) by {
                if r < rows_done {
                    assert(0 <= r * width + c < rows_done * width) by (nonlinear_arith)
                        requires
                            0 <= r,
                            r < rows_done,
                            0 <= c,
                            c < width;
                    assert(pixels@[r * width + c] == prev[r * width + c]);
                } else {
                    let rb = r - rows_done;
                    assert(r * width + c == rows_done * width + (rb * width + c)
                        && 0 <= rb * width + c < width * bh) by (nonlinear_arith)
                        requires
                            0 <= rb,
                            rb < bh,
                            0 <= c,
                            c < width,
                            r == rows_done + rb,
                            0 <= rows_done;
                    assert(pixels@[r * width + c] == band_seq[rb * width + c]);
                    assert(call_ensures(
                        shade,
                        ((c as usize), (((top + rb) as usize))),
                        band_seq[rb * width + c],
                    ));
                }
            }
            // Step the ghost row count to the next band's start row.
            rows_done = new_rows;
            if gbi + 1 < plan@.len() {
                assert(plan@[gbi + 1].top == (gbi + 1) * grpb);
                // Every band before the last is full.
                assert(bh == grpb) by (nonlinear_arith)
                    requires
                        bh == (
                            if height as int - gbi * grpb < grpb {
                                height as int - gbi * grpb
                            } else {
                                grpb
                            }
                        ),
                        gbi + 1 <= plan@.len() - 1,
                        (plan@.len() - 1) * grpb < height,
                        top == gbi * grpb,
                        0 <= gbi,
                        1 <= grpb;
                assert(rows_done == plan@[gbi + 1].top) by (nonlinear_arith)
                    requires
                        rows_done == gbi * grpb + grpb,
                        plan@[gbi + 1].top == (gbi + 1) * grpb;
            } else {
                // The last band ends exactly at the image height.
                assert(rows_done == height) by (nonlinear_arith)
                    requires
                        rows_done == top + bh,
                        top == gbi * grpb,
                        bh == (
                            if height as int - gbi * grpb < grpb {
                                height as int - gbi * grpb
                            } else {
                                grpb
                            }
                        ),
                        gbi + 1 == plan@.len(),
                        height as int <= plan@.len() * grpb,
                        1 <= grpb;
            }
        }
        bi = bi + 1;
    }
    proof {
        assert(rows_done * width == width * height) by (nonlinear_arith)
            requires
                rows_done == height;
    }
    pixels
}

} // verus!
